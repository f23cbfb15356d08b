//! The response builder: a status, a set of headers and an optional
//! body, serialized as a status line, header lines and the raw body,
//! each line ended by a bare newline byte.
use vstd::prelude::*;

use crate::http::Status;
use crate::http::spec_code;
use crate::http::spec_text;
use crate::text::string_from_utf8;

verus! {

/// No two entries share a key.
pub open spec fn spec_keys_unique(hs: Seq<(Seq<char>, Seq<char>)>) -> bool {
    forall|i: int, j: int| 0 <= i < j < hs.len() ==> hs[i].0 != hs[j].0
}

/// The position of the entry holding `k`, or -1 when no entry does.
pub open spec fn spec_key_index(hs: Seq<(Seq<char>, Seq<char>)>, k: Seq<char>) -> int
    decreases hs.len(),
{
    if hs.len() == 0 {
        -1
    } else if hs[0].0 == k {
        0
    } else {
        let r = spec_key_index(hs.drop_first(), k);
        if r == -1 {
            -1
        } else {
            r + 1
        }
    }
}

/// What inserting a header does: a held key has its value replaced in
/// place; a new key is appended.
pub open spec fn spec_header_insert(
    hs: Seq<(Seq<char>, Seq<char>)>,
    k: Seq<char>,
    v: Seq<char>,
) -> Seq<(Seq<char>, Seq<char>)> {
    let i = spec_key_index(hs, k);
    if i == -1 {
        hs.push((k, v))
    } else {
        hs.update(i, (k, v))
    }
}

proof fn lemma_key_index_at(hs: Seq<(Seq<char>, Seq<char>)>, k: Seq<char>, i: int)
    requires
        0 <= i < hs.len(),
        hs[i].0 == k,
        forall|j: int| 0 <= j < i ==> hs[j].0 != k,
    ensures
        spec_key_index(hs, k) == i,
    decreases i,
{
    if i > 0 {
        lemma_key_index_at(hs.drop_first(), k, i - 1);
    }
}

proof fn lemma_key_index_missing(hs: Seq<(Seq<char>, Seq<char>)>, k: Seq<char>)
    requires
        forall|j: int| 0 <= j < hs.len() ==> hs[j].0 != k,
    ensures
        spec_key_index(hs, k) == -1,
    decreases hs.len(),
{
    if hs.len() > 0 {
        lemma_key_index_missing(hs.drop_first(), k);
    }
}

proof fn lemma_key_index_props(hs: Seq<(Seq<char>, Seq<char>)>, k: Seq<char>)
    ensures
        spec_key_index(hs, k) == -1 ==> forall|j: int| 0 <= j < hs.len() ==> hs[j].0 != k,
        spec_key_index(hs, k) != -1 ==> 0 <= spec_key_index(hs, k) < hs.len() && hs[spec_key_index(
            hs,
            k,
        )].0 == k,
    decreases hs.len(),
{
    if hs.len() > 0 && hs[0].0 != k {
        lemma_key_index_props(hs.drop_first(), k);
        if spec_key_index(hs, k) == -1 {
            assert forall|j: int| 0 <= j < hs.len() implies hs[j].0 != k by {
                if j > 0 {
                    assert(hs.drop_first()[j - 1] == hs[j]);
                }
            }
        } else {
            assert(hs.drop_first()[spec_key_index(hs, k) - 1] == hs[spec_key_index(hs, k)]);
        }
    }
}

/// Inserting keeps the keys unique.
pub proof fn lemma_header_insert_keys_unique(
    hs: Seq<(Seq<char>, Seq<char>)>,
    k: Seq<char>,
    v: Seq<char>,
)
    requires
        spec_keys_unique(hs),
    ensures
        spec_keys_unique(spec_header_insert(hs, k, v)),
{
    lemma_key_index_props(hs, k);
    let out = spec_header_insert(hs, k, v);
    let idx = spec_key_index(hs, k);
    if idx == -1 {
        assert forall|i: int, j: int| 0 <= i < j < out.len() implies out[i].0 != out[j].0 by {
            if j == hs.len() {
                assert(hs[i].0 != k);
            }
        }
    } else {
        assert forall|i: int, j: int| 0 <= i < j < out.len() implies out[i].0 != out[j].0 by {
            assert(out[i].0 == hs[i].0);
            assert(out[j].0 == hs[j].0);
        }
    }
}

/// The headers of a response: a mapping of header name to value,
/// keys unique, held in insertion order.
pub struct Headers {
    entries: Vec<(String, String)>,
}

impl View for Headers {
    type V = Seq<(Seq<char>, Seq<char>)>;

    closed spec fn view(&self) -> Seq<(Seq<char>, Seq<char>)> {
        self.entries@.map(|i: int, e: (String, String)| (e.0@, e.1@))
    }
}

impl Headers {
    /// An empty set of headers.
    pub fn new() -> (h: Headers)
        ensures
            h@ == Seq::<(Seq<char>, Seq<char>)>::empty(),
    {
        let h = Headers { entries: Vec::new() };
        proof {
            assert(h@ =~= Seq::<(Seq<char>, Seq<char>)>::empty());
        }
        h
    }

    /// The number of headers held.
    pub fn len(&self) -> (n: usize)
        ensures
            n == self@.len(),
    {
        self.entries.len()
    }

    /// Insert a header, replacing the value of a key already held.
    pub fn insert(&mut self, key: String, value: String)
        ensures
            final(self)@ == spec_header_insert(old(self)@, key@, value@),
            spec_keys_unique(old(self)@) ==> spec_keys_unique(final(self)@),
    {
        let n = self.entries.len();
        let mut i: usize = 0;
        while i < n
            invariant
                0 <= i <= n,
                n == self.entries@.len(),
                *self == *old(self),
                forall|j: int| 0 <= j < i ==> self@[j].0 != key@,
            decreases n - i,
        {
            if self.entries[i].0 == key {
                proof {
                    lemma_key_index_at(self@, key@, i as int);
                }
                *vstd::std_specs::vec::vec_index_mut(&mut self.entries, i) = (key, value);
                proof {
                    assert(self@ =~= spec_header_insert(old(self)@, key@, value@));
                    if spec_keys_unique(old(self)@) {
                        lemma_header_insert_keys_unique(old(self)@, key@, value@);
                    }
                }
                return ;
            }
            i += 1;
        }
        proof {
            lemma_key_index_missing(self@, key@);
        }
        self.entries.push((key, value));
        proof {
            assert(self@ =~= spec_header_insert(old(self)@, key@, value@));
            if spec_keys_unique(old(self)@) {
                lemma_header_insert_keys_unique(old(self)@, key@, value@);
            }
        }
    }
}

/// The mathematical content of a response.
pub struct ResponseView {
    pub status: Status,
    pub headers: Seq<(Seq<char>, Seq<char>)>,
    pub body: Option<Seq<u8>>,
}

/// A response under construction: status, headers, optional body.
pub struct Response {
    body: Option<Vec<u8>>,
    headers: Headers,
    status: Status,
}

impl View for Response {
    type V = ResponseView;

    closed spec fn view(&self) -> ResponseView {
        ResponseView { status: self.status, headers: self.headers@, body: self.body.deep_view() }
    }
}

/// The three decimal digit bytes of a status code.
pub open spec fn spec_code_bytes(c: int) -> Seq<u8> {
    seq![(48 + c / 100 % 10) as u8, (48 + c / 10 % 10) as u8, (48 + c % 10) as u8]
}

/// The serialized status line: `HTTP/1.1 <code> <reason>` and a bare
/// newline.
pub open spec fn spec_status_line(s: Status) -> Seq<u8> {
    vstd::utf8::encode_utf8("HTTP/1.1 "@) + spec_code_bytes(spec_code(s)) + seq![32u8]
        + vstd::utf8::encode_utf8(spec_text(s)) + seq![10u8]
}

/// A serialized header line: `<key>: <value>` and a bare newline.
pub open spec fn spec_header_line(h: (Seq<char>, Seq<char>)) -> Seq<u8> {
    vstd::utf8::encode_utf8(h.0) + seq![58u8, 32u8] + vstd::utf8::encode_utf8(h.1) + seq![10u8]
}

/// The header lines, serialized in order.
pub open spec fn spec_headers_bytes(hs: Seq<(Seq<char>, Seq<char>)>) -> Seq<u8>
    decreases hs.len(),
{
    if hs.len() == 0 {
        Seq::empty()
    } else {
        spec_headers_bytes(hs.drop_last()) + spec_header_line(hs.last())
    }
}

/// The full serialized response: status line, header lines, and, when
/// a body is present, a blank line followed by the raw body bytes.
pub open spec fn spec_serialize(v: ResponseView) -> Seq<u8> {
    spec_status_line(v.status) + spec_headers_bytes(v.headers) + (match v.body {
        Some(b) => seq![10u8] + b,
        None => Seq::<u8>::empty(),
    })
}

impl Response {
    /// A response with the given status, no headers and no body.
    pub fn new(status: Status) -> (r: Response)
        ensures
            r@.status == status,
            r@.headers == Seq::<(Seq<char>, Seq<char>)>::empty(),
            r@.body is None,
    {
        Response { body: None, headers: Headers::new(), status }
    }

    /// The status of this response.
    pub fn status(&self) -> (s: Status)
        ensures
            s == self@.status,
    {
        self.status
    }

    /// Replace the body.
    pub fn set_body(&mut self, body: Option<Vec<u8>>)
        ensures
            final(self)@.status == old(self)@.status,
            final(self)@.headers == old(self)@.headers,
            final(self)@.body == body.deep_view(),
    {
        self.body = body;
    }

    /// The headers, open for insertion.
    pub fn headers_mut(&mut self) -> (h: &mut Headers)
        ensures
            h@ == old(self)@.headers,
            final(self)@.status == old(self)@.status,
            final(self)@.body == old(self)@.body,
            final(self)@.headers == final(h)@,
    {
        &mut self.headers
    }

    /// Serialize this response to the bytes written on the wire.
    pub fn as_bytes(&self) -> (r: Vec<u8>)
        ensures
            r@ == spec_serialize(self@),
    {
        let mut out = "HTTP/1.1 ".as_bytes_vec();
        let code = self.status.code();
        proof {
            assert(100 <= spec_code(self.status) <= 999);
        }
        out.push(48 + ((code / 100) % 10) as u8);
        out.push(48 + ((code / 10) % 10) as u8);
        out.push(48 + (code % 10) as u8);
        out.push(32);
        let mut tb = self.status.text().as_bytes_vec();
        out.append(&mut tb);
        out.push(10);
        proof {
            assert(out@ =~= spec_status_line(self@.status));
        }
        let hn = self.headers.entries.len();
        let mut i: usize = 0;
        while i < hn
            invariant
                0 <= i <= hn,
                hn == self@.headers.len(),
                out@ == spec_status_line(self@.status) + spec_headers_bytes(
                    self@.headers.subrange(0, i as int),
                ),
            decreases hn - i,
        {
            let mut kb = self.headers.entries[i].0.as_str().as_bytes_vec();
            out.append(&mut kb);
            out.push(58);
            out.push(32);
            let mut vb = self.headers.entries[i].1.as_str().as_bytes_vec();
            out.append(&mut vb);
            out.push(10);
            proof {
                let hs = self@.headers;
                assert(hs.subrange(0, i + 1).drop_last() =~= hs.subrange(0, i as int));
                assert(hs[i as int] == (self.headers.entries@[i as int].0@,
                self.headers.entries@[i as int].1@));
                assert(out@ =~= spec_status_line(self@.status) + spec_headers_bytes(
                    hs.subrange(0, i + 1),
                ));
            }
            i += 1;
        }
        proof {
            assert(self@.headers.subrange(0, hn as int) =~= self@.headers);
        }
        match &self.body {
            Some(b) => {
                out.push(10);
                let mut bc = vstd::slice::slice_to_vec(b.as_slice());
                out.append(&mut bc);
            },
            None => {},
        }
        proof {
            assert(out@ =~= spec_serialize(self@));
        }
        out
    }
}

/// The bytes of the first line: the longest prefix holding no
/// newline byte, when a newline exists at all.
pub open spec fn spec_take_line(bytes: Seq<u8>) -> Option<Seq<u8>>
    decreases bytes.len(),
{
    if bytes.len() == 0 {
        None
    } else if bytes[0] == 10 {
        Some(Seq::<u8>::empty())
    } else {
        match spec_take_line(bytes.drop_first()) {
            Some(rest) => Some(seq![bytes[0]] + rest),
            None => None,
        }
    }
}

proof fn lemma_take_line_at(bytes: Seq<u8>, e: int)
    requires
        0 <= e <= bytes.len(),
        forall|j: int| 0 <= j < e ==> bytes[j] != 10,
    ensures
        e == bytes.len() ==> spec_take_line(bytes) is None,
        e < bytes.len() && bytes[e] == 10 ==> spec_take_line(bytes) == Some(bytes.subrange(0, e)),
    decreases e,
{
    if e > 0 {
        assert forall|j: int| 0 <= j < e - 1 implies bytes.drop_first()[j] != 10 by {
            assert(bytes.drop_first()[j] == bytes[j + 1]);
        }
        lemma_take_line_at(bytes.drop_first(), e - 1);
        if e < bytes.len() && bytes[e] == 10 {
            assert(bytes.drop_first()[e - 1] == bytes[e]);
            assert(seq![bytes[0]] + bytes.drop_first().subrange(0, e - 1) =~= bytes.subrange(
                0,
                e,
            ));
        }
    } else {
        if 0 < bytes.len() && bytes[0] == 10 {
            assert(Seq::<u8>::empty() =~= bytes.subrange(0, 0));
        }
    }
}

/// Re-parsing a status line: the first line must read `HTTP/1.1 `,
/// then exactly three decimal digits, a space, and the reason phrase;
/// the numeric code and the reason's raw bytes come back.
pub open spec fn spec_parse_status_line(bytes: Seq<u8>) -> Option<(int, Seq<u8>)> {
    match spec_take_line(bytes) {
        None => None,
        Some(line) => {
            let pre = vstd::utf8::encode_utf8("HTTP/1.1 "@);
            if line.len() < pre.len() + 4 {
                None
            } else if line.subrange(0, pre.len() as int) != pre {
                None
            } else {
                let rest = line.subrange(pre.len() as int, line.len() as int);
                if 48 <= rest[0] <= 57 && 48 <= rest[1] <= 57 && 48 <= rest[2] <= 57 && rest[3]
                    == 32 {
                    Some(
                        (
                            100 * (rest[0] - 48) + 10 * (rest[1] - 48) + (rest[2] - 48),
                            rest.subrange(4, rest.len() as int),
                        ),
                    )
                } else {
                    None
                }
            }
        },
    }
}

/// Parse the status line out of a serialized response.
pub fn parse_status_line(bytes: &[u8]) -> (r: Option<(u16, String)>)
    ensures
        match r {
            Some(p) => spec_parse_status_line(bytes@) matches Some(q) && q.0 == p.0
                && vstd::utf8::valid_utf8(q.1) && p.1@ == vstd::utf8::decode_utf8(q.1),
            None => spec_parse_status_line(bytes@) matches Some(q) ==> !vstd::utf8::valid_utf8(
                q.1,
            ),
        },
{
    let n = bytes.len();
    let mut e: usize = 0;
    while e < n && bytes[e] != 10
        invariant
            0 <= e <= n,
            n == bytes@.len(),
            forall|j: int| 0 <= j < e ==> bytes@[j] != 10,
        decreases n - e,
    {
        e += 1;
    }
    proof {
        lemma_take_line_at(bytes@, e as int);
    }
    if e == n {
        return None;
    }
    let ghost line = bytes@.subrange(0, e as int);
    proof {
        broadcast use vstd::utf8::is_ascii_chars_encode_utf8;

        reveal_strlit("HTTP/1.1 ");
        assert(vstd::utf8::is_ascii_chars("HTTP/1.1 "@));
    }
    if e < 13 {
        return None;
    }
    if !crate::text::bytes_eq(vstd::slice::slice_subrange(bytes, 0, 9), "HTTP/1.1 ".as_bytes()) {
        proof {
            assert(line.subrange(0, 9) =~= bytes@.subrange(0, 9));
        }
        return None;
    }
    let d0 = bytes[9];
    let d1 = bytes[10];
    let d2 = bytes[11];
    let sp = bytes[12];
    let ghost rest = line.subrange(9, line.len() as int);
    proof {
        assert(line.subrange(0, 9) =~= bytes@.subrange(0, 9));
        assert(rest[0] == bytes@[9] && rest[1] == bytes@[10] && rest[2] == bytes@[11] && rest[3]
            == bytes@[12]);
    }
    if !(48 <= d0 && d0 <= 57 && 48 <= d1 && d1 <= 57 && 48 <= d2 && d2 <= 57 && sp == 32) {
        return None;
    }
    let code: u16 = 100 * ((d0 - 48) as u16) + 10 * ((d1 - 48) as u16) + ((d2 - 48) as u16);
    let reason = vstd::slice::slice_to_vec(vstd::slice::slice_subrange(bytes, 13, e));
    proof {
        assert(reason@ =~= rest.subrange(4, rest.len() as int));
    }
    match string_from_utf8(reason) {
        Some(s) => Some((code, s)),
        None => None,
    }
}

/// Serializing a response and re-parsing its status line recovers the
/// status's numeric code and reason phrase.
pub proof fn lemma_status_line_round_trip(v: ResponseView)
    ensures
        spec_parse_status_line(spec_serialize(v)) == Some(
            (spec_code(v.status), vstd::utf8::encode_utf8(spec_text(v.status))),
        ),
{
    broadcast use vstd::utf8::is_ascii_chars_encode_utf8;

    reveal_strlit("HTTP/1.1 ");
    reveal_strlit("OK");
    reveal_strlit("Found");
    reveal_strlit("Bad Request");
    reveal_strlit("Not Found");
    reveal_strlit("Method Not Allowed");
    reveal_strlit("Request Timeout");
    reveal_strlit("Internal Server Error");
    let s = v.status;
    let pre = vstd::utf8::encode_utf8("HTTP/1.1 "@);
    let text = vstd::utf8::encode_utf8(spec_text(s));
    let cb = spec_code_bytes(spec_code(s));
    let c = spec_code(s);
    assert(vstd::utf8::is_ascii_chars("HTTP/1.1 "@));
    assert(forall|i: int| 0 <= i < pre.len() ==> pre[i] != 10);
    match s {
        Status::Okay => {
            assert(vstd::utf8::is_ascii_chars(spec_text(s)));
            assert(forall|i: int| 0 <= i < text.len() ==> text[i] != 10);
            assert(100 * (cb[0] - 48) + 10 * (cb[1] - 48) + (cb[2] - 48) == c);
        },
        Status::Found => {
            assert(vstd::utf8::is_ascii_chars(spec_text(s)));
            assert(forall|i: int| 0 <= i < text.len() ==> text[i] != 10);
            assert(100 * (cb[0] - 48) + 10 * (cb[1] - 48) + (cb[2] - 48) == c);
        },
        Status::BadRequest => {
            assert(vstd::utf8::is_ascii_chars(spec_text(s)));
            assert(forall|i: int| 0 <= i < text.len() ==> text[i] != 10);
            assert(100 * (cb[0] - 48) + 10 * (cb[1] - 48) + (cb[2] - 48) == c);
        },
        Status::NotFound => {
            assert(vstd::utf8::is_ascii_chars(spec_text(s)));
            assert(forall|i: int| 0 <= i < text.len() ==> text[i] != 10);
            assert(100 * (cb[0] - 48) + 10 * (cb[1] - 48) + (cb[2] - 48) == c);
        },
        Status::MethodNotAllowed => {
            assert(vstd::utf8::is_ascii_chars(spec_text(s)));
            assert(forall|i: int| 0 <= i < text.len() ==> text[i] != 10);
            assert(100 * (cb[0] - 48) + 10 * (cb[1] - 48) + (cb[2] - 48) == c);
        },
        Status::RequestTimeout => {
            assert(vstd::utf8::is_ascii_chars(spec_text(s)));
            assert(forall|i: int| 0 <= i < text.len() ==> text[i] != 10);
            assert(100 * (cb[0] - 48) + 10 * (cb[1] - 48) + (cb[2] - 48) == c);
        },
        Status::InternalServerError => {
            assert(vstd::utf8::is_ascii_chars(spec_text(s)));
            assert(forall|i: int| 0 <= i < text.len() ==> text[i] != 10);
            assert(100 * (cb[0] - 48) + 10 * (cb[1] - 48) + (cb[2] - 48) == c);
        },
    }
    let line = pre + cb + seq![32u8] + text;
    let full = spec_serialize(v);
    let tail = spec_headers_bytes(v.headers) + (match v.body {
        Some(b) => seq![10u8] + b,
        None => Seq::<u8>::empty(),
    });
    assert(full =~= line + seq![10u8] + tail);
    assert forall|j: int| 0 <= j < line.len() implies line[j] != 10 by {
        if j < 9 {
            assert(line[j] == pre[j]);
        } else if j < 12 {
            assert(line[j] == cb[j - 9]);
        } else if j == 12 {
            assert(line[j] == 32);
        } else {
            assert(line[j] == text[j - 13]);
        }
    }
    assert forall|j: int| 0 <= j < line.len() implies full[j] != 10 by {
        assert(full[j] == line[j]);
    }
    assert(full[line.len() as int] == 10);
    lemma_take_line_at(full, line.len() as int);
    assert(full.subrange(0, line.len() as int) =~= line);
    assert(line.subrange(0, 9) =~= pre);
    let rest = line.subrange(9, line.len() as int);
    assert(rest =~= cb + seq![32u8] + text);
    assert(rest.subrange(4, rest.len() as int) =~= text);
    assert(spec_parse_status_line(full) == Some((c, text)));
}

} // verus!
