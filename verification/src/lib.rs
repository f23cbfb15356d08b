//! A small static-file HTTP server library.
//!
//! The request-handling pipeline lives here: parsing a bare HTTP/1.1
//! request line, resolving the requested resource to a path confined
//! under the served root, choosing an action for the request, and
//! serializing the response.  The surrounding process (sockets, the
//! filesystem, command-line handling) supplies plain values to these
//! functions and carries their results back out.
use vstd::prelude::*;

pub mod error;
pub mod file;
pub mod http;
pub mod request;
pub mod response;
pub mod text;

use vstd::string::StrSliceExecFns;
use vstd::string::StringExecFns;

use crate::error::SfsError;
use crate::file::get_content_type;
use crate::file::spec_content_type;
use crate::http::Method;
use crate::http::Status;
use crate::request::Request;
use crate::response::Response;
use crate::text::spec_decimal;
use crate::text::usize_string;

verus! {

/// The resource made relative: a single leading `/` is stripped.
pub open spec fn spec_rel(resource: Seq<char>) -> Seq<char> {
    if resource.len() > 0 && resource[0] == '/' {
        resource.drop_first()
    } else {
        resource
    }
}

/// The index of the first `/` at or after `i`, or the string's
/// length when there is none.
pub open spec fn spec_slash_after(s: Seq<char>, i: int) -> int
    decreases s.len() - i,
{
    if !(0 <= i < s.len()) {
        s.len() as int
    } else if s[i] == '/' {
        i
    } else {
        spec_slash_after(s, i + 1)
    }
}

/// The path split on `/` into its segments.
pub open spec fn spec_segments(s: Seq<char>) -> Seq<Seq<char>>
    decreases s.len(),
{
    let e = spec_slash_after(s, 0);
    if 0 <= e < s.len() {
        seq![s.subrange(0, e)] + spec_segments(s.subrange(e + 1, s.len() as int))
    } else {
        seq![s]
    }
}

/// Walking the segments left to right never climbs above the start:
/// a `..` goes up one level and needs one to be there, a `.` or an
/// empty segment changes nothing, and any other segment goes down
/// one level.
pub open spec fn spec_confined(segs: Seq<Seq<char>>, depth: int) -> bool
    decreases segs.len(),
{
    if segs.len() == 0 {
        true
    } else if segs[0] == ".."@ {
        depth >= 1 && spec_confined(segs.drop_first(), depth - 1)
    } else if segs[0].len() == 0 || segs[0] == "."@ {
        spec_confined(segs.drop_first(), depth)
    } else {
        spec_confined(segs.drop_first(), depth + 1)
    }
}

/// A relative resource that could leave the root: it is absolute
/// again after the strip, or its `..` segments climb above the root.
pub open spec fn spec_escapes(rel: Seq<char>) -> bool {
    (rel.len() > 0 && rel[0] == '/') || !spec_confined(spec_segments(rel), 0)
}

/// What resolving a resource against a root yields: nothing for a
/// resource that could escape, else the root, a separator and the
/// relative remainder.
pub open spec fn spec_get_path(root: Seq<char>, resource: Seq<char>) -> Option<Seq<char>> {
    let rel = spec_rel(resource);
    if spec_escapes(rel) {
        None
    } else {
        Some(root + "/"@ + rel)
    }
}

/// The string ends with a `/`.
pub open spec fn spec_ends_slash(s: Seq<char>) -> bool {
    s.len() > 0 && s.last() == '/'
}

/// The index file served for a directory path.
pub open spec fn spec_index_path(p: Seq<char>) -> Seq<char> {
    if spec_ends_slash(p) {
        p + "index.html"@
    } else {
        p + "/index.html"@
    }
}

/// Every resolved path is a descendant of the root: it extends the
/// root by a separator and a remainder that does not start with a
/// separator and whose `..` segments never climb above the root.
pub proof fn lemma_resolved_under_root(root: Seq<char>, resource: Seq<char>, p: Seq<char>)
    requires
        spec_get_path(root, resource) == Some(p),
    ensures
        p.len() > root.len(),
        p.subrange(0, root.len() as int) == root,
        p[root.len() as int] == '/',
        spec_confined(spec_segments(p.subrange(root.len() as int + 1, p.len() as int)), 0),
        p.len() > root.len() + 1 ==> p[root.len() as int + 1] != '/',
{
    let rel = spec_rel(resource);
    reveal_strlit("/");
    assert(p =~= root + "/"@ + rel);
    assert(p.subrange(0, root.len() as int) =~= root);
    assert(p.subrange(root.len() as int + 1, p.len() as int) =~= rel);
}

proof fn lemma_slash_after_at(s: Seq<char>, start: int, e: int)
    requires
        0 <= start <= e <= s.len(),
        forall|j: int| start <= j < e ==> s[j] != '/',
        e == s.len() || s[e] == '/',
    ensures
        spec_slash_after(s, start) == e,
    decreases e - start,
{
    if start < e {
        lemma_slash_after_at(s, start + 1, e);
    }
}

proof fn lemma_segments_step(s: Seq<char>, start: int, e: int)
    requires
        0 <= start <= e <= s.len(),
        forall|j: int| start <= j < e ==> s[j] != '/',
        e == s.len() || s[e] == '/',
    ensures
        e == s.len() ==> spec_segments(s.subrange(start, s.len() as int)) == seq![
            s.subrange(start, s.len() as int),
        ],
        e < s.len() ==> spec_segments(s.subrange(start, s.len() as int)) == seq![
            s.subrange(start, e),
        ] + spec_segments(s.subrange(e + 1, s.len() as int)),
{
    let suffix = s.subrange(start, s.len() as int);
    assert forall|j: int| 0 <= j < e - start implies suffix[j] != '/' by {
        assert(suffix[j] == s[start + j]);
    }
    if e < s.len() {
        assert(suffix[e - start] == s[e]);
    }
    lemma_slash_after_at(suffix, 0, e - start);
    if e < s.len() {
        assert(suffix.subrange(0, e - start) =~= s.subrange(start, e));
        assert(suffix.subrange(e - start + 1, suffix.len() as int) =~= s.subrange(
            e + 1,
            s.len() as int,
        ));
    }
}

fn ends_with_slash(s: &str) -> (r: bool)
    ensures
        r == spec_ends_slash(s@),
{
    let n = s.unicode_len();
    n > 0 && s.get_char(n - 1) == '/'
}

fn rel_of(resource: &str) -> (r: &str)
    ensures
        r@ == spec_rel(resource@),
{
    let n = resource.unicode_len();
    if n > 0 && resource.get_char(0) == '/' {
        let r = resource.substring_char(1, n);
        proof {
            assert(r@ =~= spec_rel(resource@));
        }
        r
    } else {
        resource
    }
}

/// A static file server, as the value of its root directory path.
pub struct Server {
    dir: String,
}

impl Server {
    /// The root directory this server serves from.
    pub closed spec fn root_spec(&self) -> Seq<char> {
        self.dir@
    }

    /// A server that will serve files from the given root directory.
    pub fn from_root(dir: String) -> (s: Server)
        ensures
            s.root_spec() == dir@,
    {
        Server { dir }
    }

    /// Accept or reject the served root by the directory probe's
    /// outcome: a directory gives the server, anything else the
    /// InvalidDirectory error.
    pub fn new(dir: String, is_dir: bool) -> (r: Result<Server, SfsError>)
        ensures
            is_dir ==> (r matches Ok(s) && s.root_spec() == dir@),
            !is_dir ==> (r matches Err(e) && e == SfsError::InvalidDirectory),
    {
        if is_dir {
            Ok(Server { dir })
        } else {
            Err(SfsError::InvalidDirectory)
        }
    }

    /// Map a requested resource string to the path it names under the
    /// served root, or nothing when the resource could escape it.
    pub fn get_path(&self, resource: &str) -> (r: Option<String>)
        ensures
            match r {
                Some(p) => spec_get_path(self.root_spec(), resource@) == Some(p@),
                None => spec_get_path(self.root_spec(), resource@) is None,
            },
    {
        let rel = rel_of(resource);
        let reln = rel.unicode_len();
        if reln > 0 && rel.get_char(0) == '/' {
            return None;
        }
        proof {
            assert(rel@.subrange(0, reln as int) =~= rel@);
        }
        let mut start: usize = 0;
        let mut depth: usize = 0;
        loop
            invariant
                0 <= start <= reln,
                depth <= start,
                reln == rel@.len(),
                rel@ == spec_rel(resource@),
                !(rel@.len() > 0 && rel@[0] == '/'),
                spec_confined(spec_segments(rel@), 0) == spec_confined(
                    spec_segments(rel@.subrange(start as int, reln as int)),
                    depth as int,
                ),
            decreases reln - start,
        {
            let mut e: usize = start;
            while e < reln && rel.get_char(e) != '/'
                invariant
                    start <= e <= reln,
                    reln == rel@.len(),
                    forall|j: int| start <= j < e ==> rel@[j] != '/',
                decreases reln - e,
            {
                e += 1;
            }
            let ghost d0 = depth as int;
            let ghost suffix = rel@.subrange(start as int, reln as int);
            let ghost seg = rel@.subrange(start as int, e as int);
            proof {
                lemma_segments_step(rel@, start as int, e as int);
                reveal_strlit("..");
                reveal_strlit(".");
            }
            let len = e - start;
            let goes_up = len == 2 && rel.get_char(start) == '.' && rel.get_char(start + 1)
                == '.';
            let stays = len == 0 || (len == 1 && rel.get_char(start) == '.');
            proof {
                if goes_up {
                    assert(seg =~= ".."@);
                } else {
                    assert(seg != ".."@) by {
                        if seg == ".."@ {
                            assert(seg.len() == 2);
                            assert(seg[0] == rel@[start as int]);
                            assert(seg[1] == rel@[start as int + 1]);
                        }
                    }
                }
                if stays {
                    assert(seg.len() == 0 || seg =~= "."@);
                } else {
                    assert(seg.len() != 0);
                    assert(seg != "."@) by {
                        if seg == "."@ {
                            assert(seg.len() == 1);
                            assert(seg[0] == rel@[start as int]);
                        }
                    }
                }
            }
            if goes_up {
                if depth == 0 {
                    proof {
                        if (e as int) < reln as int {
                            let rest = spec_segments(rel@.subrange(e as int + 1, reln as int));
                            assert((seq![seg] + rest)[0] == seg);
                            assert(!spec_confined(seq![seg] + rest, 0));
                        } else {
                            assert(!spec_confined(seq![seg], 0));
                        }
                    }
                    return None;
                }
                depth -= 1;
            } else if !stays {
                depth += 1;
            }
            if e == reln {
                proof {
                    assert(spec_segments(suffix) == seq![seg]);
                    assert(seq![seg][0] == seg);
                    assert(seq![seg].drop_first() =~= Seq::<Seq<char>>::empty());
                    assert(spec_confined(Seq::<Seq<char>>::empty(), d0 - 1));
                    assert(spec_confined(Seq::<Seq<char>>::empty(), d0));
                    assert(spec_confined(Seq::<Seq<char>>::empty(), d0 + 1));
                    assert(spec_confined(seq![seg], d0));
                    assert(spec_confined(spec_segments(rel@), 0));
                }
                let mut out = self.dir.clone();
                out.append("/");
                out.append(rel);
                proof {
                    assert(out@ =~= self.root_spec() + "/"@ + rel@);
                }
                return Some(out);
            }
            proof {
                let rest = spec_segments(rel@.subrange(e as int + 1, reln as int));
                assert((seq![seg] + rest)[0] == seg);
                assert((seq![seg] + rest).drop_first() =~= rest);
                assert(spec_confined(spec_segments(suffix), d0) == spec_confined(
                    rest,
                    depth as int,
                ));
            }
            start = e + 1;
        }
    }
}

/// The outcome of resolving a resource against the filesystem:
/// either no such path, or a path confined under the root, flagged
/// when it names a directory.
pub enum ResolvedTarget {
    Missing,
    File(String),
    Dir(String),
}

/// Classify a resolution outcome: a rejected or nonexistent path is
/// missing; an existing one is a directory or a file as flagged.
pub fn resolve_target(path: Option<String>, path_exists: bool, is_dir: bool) -> (t: ResolvedTarget)
    ensures
        match path {
            None => t is Missing,
            Some(p) => if !path_exists {
                t is Missing
            } else if is_dir {
                t matches ResolvedTarget::Dir(q) && q@ == p@
            } else {
                t matches ResolvedTarget::File(q) && q@ == p@
            },
        },
{
    match path {
        None => ResolvedTarget::Missing,
        Some(p) => if !path_exists {
            ResolvedTarget::Missing
        } else if is_dir {
            ResolvedTarget::Dir(p)
        } else {
            ResolvedTarget::File(p)
        },
    }
}

/// What the connection handler does next for a request.
pub enum Action {
    /// Answer Found, with this Location header value.
    Redirect(String),
    /// Serve the file at this path, with or without its bytes.
    Serve { path: String, include_body: bool },
    /// Answer with this status and nothing else.
    Reply(Status),
}

/// The action owed when a file path is served: HEAD gets the file
/// without its bytes, GET gets it whole, and every other method is
/// not allowed.
pub open spec fn spec_serve_action(a: Action, path: Seq<char>, m: Method) -> bool {
    match m {
        Method::Head => a matches Action::Serve { path: q, include_body } && q@ == path
            && !include_body,
        Method::Get => a matches Action::Serve { path: q, include_body } && q@ == path
            && include_body,
        _ => a == Action::Reply(Status::MethodNotAllowed),
    }
}

/// The action owed for a parsed request and a resolved target: a
/// missing path is NotFound; a directory reached without a trailing
/// slash is redirected to the slashed resource; a directory with one
/// serves its index file; a file is served by method.
pub open spec fn spec_plan_ok(
    a: Action,
    m: Method,
    resource: Seq<char>,
    target: ResolvedTarget,
) -> bool {
    match target {
        ResolvedTarget::Missing => a == Action::Reply(Status::NotFound),
        ResolvedTarget::Dir(p) => if !spec_ends_slash(resource) {
            a matches Action::Redirect(loc) && loc@ == "/"@ + spec_rel(resource) + "/"@
        } else {
            spec_serve_action(a, spec_index_path(p@), m)
        },
        ResolvedTarget::File(p) => spec_serve_action(a, p@, m),
    }
}

fn serve_action(path: String, m: &Method) -> (a: Action)
    ensures
        spec_serve_action(a, path@, *m),
{
    match m {
        Method::Head => Action::Serve { path, include_body: false },
        Method::Get => Action::Serve { path, include_body: true },
        _ => Action::Reply(Status::MethodNotAllowed),
    }
}

/// Choose the action for a parsed request against its resolved
/// target.
pub fn plan(req: &Request, target: &ResolvedTarget) -> (a: Action)
    ensures
        spec_plan_ok(a, req.method_spec(), req.resource_spec(), *target),
{
    match target {
        ResolvedTarget::Missing => Action::Reply(Status::NotFound),
        ResolvedTarget::Dir(p) => {
            if !ends_with_slash(req.resource()) {
                let rel = rel_of(req.resource());
                let mut loc = String::from_str("/");
                loc.append(rel);
                loc.append("/");
                Action::Redirect(loc)
            } else {
                let mut path = p.clone();
                if ends_with_slash(path.as_str()) {
                    path.append("index.html");
                } else {
                    path.append("/index.html");
                }
                serve_action(path, req.method())
            }
        },
        ResolvedTarget::File(p) => serve_action(p.clone(), req.method()),
    }
}

/// Choose the action for a whole connection: a buffer that parsed to
/// no request is answered BadRequest; a parsed one is planned against
/// its resolved target.
pub fn plan_request(parsed: &Option<Request>, target: &ResolvedTarget) -> (a: Action)
    ensures
        match parsed {
            None => a == Action::Reply(Status::BadRequest),
            Some(req) => spec_plan_ok(a, req.method_spec(), req.resource_spec(), *target),
        },
{
    match parsed {
        None => Action::Reply(Status::BadRequest),
        Some(req) => plan(req, target),
    }
}

/// The response for a directory redirect: Found, with the Location
/// header naming the slashed resource.
pub fn redirect_response(location: String) -> (r: Response)
    ensures
        r@.status == Status::Found,
        r@.headers == seq![("Location"@, location@)],
        r@.body is None,
{
    let mut r = Response::new(Status::Found);
    r.headers_mut().insert(String::from_str("Location"), location);
    proof {
        assert(r@.headers =~= seq![("Location"@, location@)]);
    }
    r
}

/// The response that serves a file: Ok, a Content-Length of the
/// file's size, the Content-Type resolved from the path, and, when
/// asked for, the file's bytes as the body.
pub fn file_response(path: &str, content_length: usize, body: Option<Vec<u8>>) -> (r: Response)
    ensures
        r@.status == Status::Okay,
        r@.headers == seq![
            ("Content-Length"@, spec_decimal(content_length as int)),
            ("Content-Type"@, spec_content_type(path@)),
        ],
        r@.body == body.deep_view(),
{
    let mut r = Response::new(Status::Okay);
    r.headers_mut().insert(String::from_str("Content-Length"), usize_string(content_length));
    r.headers_mut().insert(
        String::from_str("Content-Type"),
        String::from_str(get_content_type(path)),
    );
    r.set_body(body);
    proof {
        reveal_strlit("Content-Length");
        reveal_strlit("Content-Type");
        assert("Content-Length"@.len() == 14);
        assert("Content-Type"@.len() == 12);
        let e0 = Seq::<(Seq<char>, Seq<char>)>::empty();
        let cl = ("Content-Length"@, spec_decimal(content_length as int));
        let ct = ("Content-Type"@, spec_content_type(path@));
        let h1 = crate::response::spec_header_insert(e0, cl.0, cl.1);
        assert(h1 =~= seq![cl]);
        assert(h1.drop_first() =~= e0);
        assert(crate::response::spec_key_index(h1.drop_first(), ct.0) == -1);
        assert(crate::response::spec_key_index(h1, ct.0) == -1);
        assert(r@.headers =~= seq![cl, ct]);
    }
    r
}

} // verus!
