//! The request parser: the raw bytes read from a connection become a
//! structured request of a method and a resource string.
use vstd::prelude::*;

use crate::http::Method;
use crate::http::spec_parse_method;
use crate::text::string_from_utf8;

verus! {

/// The index of the first space byte at or after `i`, or the buffer's
/// length when there is none.
pub open spec fn spec_space_after(buf: Seq<u8>, i: int) -> int
    decreases buf.len() - i,
{
    if !(0 <= i < buf.len()) {
        buf.len() as int
    } else if buf[i] == 32 {
        i
    } else {
        spec_space_after(buf, i + 1)
    }
}

proof fn lemma_space_after(buf: Seq<u8>, start: int, e: int)
    requires
        0 <= start <= e <= buf.len(),
        forall|j: int| start <= j < e ==> buf[j] != 32,
        e == buf.len() || buf[e] == 32,
    ensures
        spec_space_after(buf, start) == e,
    decreases e - start,
{
    if start < e {
        lemma_space_after(buf, start + 1, e);
    }
}

/// How a buffer read off a connection is parsed: it is split on the
/// ASCII space byte; the first token must name a method, and the
/// second token, taken verbatim, must be valid UTF-8 and becomes the
/// resource.  With fewer than two tokens, an unknown method token or
/// a resource that is not UTF-8 there is no request.
pub open spec fn spec_parse_request(buf: Seq<u8>) -> Option<(Method, Seq<char>)> {
    let e1 = spec_space_after(buf, 0);
    if e1 == buf.len() {
        None
    } else {
        let tok1 = buf.subrange(0, e1);
        let e2 = spec_space_after(buf, e1 + 1);
        let tok2 = buf.subrange(e1 + 1, e2);
        match spec_parse_method(tok1) {
            Some(m) => if vstd::utf8::valid_utf8(tok2) {
                Some((m, vstd::utf8::decode_utf8(tok2)))
            } else {
                None
            },
            None => None,
        }
    }
}

/// A parsed request line: the method and the raw resource string.
#[derive(Debug)]
pub struct Request {
    method: Method,
    resource: String,
}

impl Request {
    /// The method of this request.
    pub closed spec fn method_spec(&self) -> Method {
        self.method
    }

    /// The resource string of this request.
    pub closed spec fn resource_spec(&self) -> Seq<char> {
        self.resource@
    }

    /// Parse a request line out of the bytes read from a connection.
    pub fn from_bytes(buf: &[u8]) -> (r: Option<Request>)
        ensures
            match r {
                Some(req) => spec_parse_request(buf@) == Some(
                    (req.method_spec(), req.resource_spec()),
                ),
                None => spec_parse_request(buf@) is None,
            },
    {
        let n = buf.len();
        let mut i: usize = 0;
        while i < n && buf[i] != 32
            invariant
                0 <= i <= n,
                n == buf@.len(),
                forall|j: int| 0 <= j < i ==> buf@[j] != 32,
            decreases n - i,
        {
            i += 1;
        }
        proof {
            lemma_space_after(buf@, 0, i as int);
        }
        if i == n {
            return None;
        }
        let method = Method::parse_token(&buf[0..i]);
        let start = i + 1;
        let mut k = start;
        while k < n && buf[k] != 32
            invariant
                start <= k <= n,
                n == buf@.len(),
                forall|j: int| start <= j < k ==> buf@[j] != 32,
            decreases n - k,
        {
            k += 1;
        }
        proof {
            lemma_space_after(buf@, start as int, k as int);
        }
        match method {
            None => None,
            Some(method) => {
                let bytes = vstd::slice::slice_to_vec(&buf[start..k]);
                match string_from_utf8(bytes) {
                    None => None,
                    Some(resource) => Some(Request { method, resource }),
                }
            },
        }
    }

    /// The method of this request.
    pub fn method(&self) -> (m: &Method)
        ensures
            *m == self.method_spec(),
    {
        &self.method
    }

    /// The resource string of this request.
    pub fn resource(&self) -> (r: &str)
        ensures
            r@ == self.resource_spec(),
    {
        self.resource.as_str()
    }
}

} // verus!
