//! The MIME resolver: a pure map from a file path's extension to a
//! fixed content-type string.
use vstd::prelude::*;

verus! {

/// The index of the last occurrence of `c` in `s`, or -1 when there
/// is none.
pub open spec fn spec_last_index_of(s: Seq<char>, c: char) -> int
    decreases s.len(),
{
    if s.len() == 0 {
        -1
    } else if s.last() == c {
        s.len() - 1
    } else {
        spec_last_index_of(s.drop_last(), c)
    }
}

proof fn lemma_last_index_at(s: Seq<char>, c: char, i: int)
    requires
        0 <= i < s.len(),
        s[i] == c,
        forall|j: int| i < j < s.len() ==> s[j] != c,
    ensures
        spec_last_index_of(s, c) == i,
    decreases s.len(),
{
    if s.last() != c {
        lemma_last_index_at(s.drop_last(), c, i);
    }
}

proof fn lemma_last_index_missing(s: Seq<char>, c: char)
    requires
        forall|j: int| 0 <= j < s.len() ==> s[j] != c,
    ensures
        spec_last_index_of(s, c) == -1,
    decreases s.len(),
{
    if s.len() > 0 {
        lemma_last_index_missing(s.drop_last(), c);
    }
}

/// The extension of a path: the part of the file name (what follows
/// the last `/`) after its last `.`.  A name without a dot, or whose
/// only dot starts it, has none.
pub open spec fn spec_extension(path: Seq<char>) -> Option<Seq<char>> {
    let name = path.subrange(spec_last_index_of(path, '/') + 1, path.len() as int);
    let d = spec_last_index_of(name, '.');
    if d <= 0 {
        None
    } else {
        Some(name.subrange(d + 1, name.len() as int))
    }
}

/// A character's code with an ASCII upper-case letter folded to lower
/// case.
pub open spec fn spec_lower(c: char) -> int {
    if 65 <= c as u32 <= 90 {
        c as u32 + 32
    } else {
        c as u32 as int
    }
}

/// Equality of two character sequences up to ASCII case.
pub open spec fn spec_eq_ignore_case(a: Seq<char>, b: Seq<char>) -> bool {
    a.len() == b.len() && forall|i: int| 0 <= i < a.len() ==> spec_lower(a[i]) == spec_lower(b[i])
}

/// The fixed table from a (case-folded) extension to a content type;
/// anything unrecognized, or a missing extension, is
/// application/octet-stream.
pub open spec fn spec_content_type(path: Seq<char>) -> Seq<char> {
    match spec_extension(path) {
        None => "application/octet-stream"@,
        Some(e) => if spec_eq_ignore_case(e, "css"@) {
            "text/css"@
        } else if spec_eq_ignore_case(e, "html"@) {
            "text/html"@
        } else if spec_eq_ignore_case(e, "jpg"@) {
            "image/jpeg"@
        } else if spec_eq_ignore_case(e, "jpeg"@) {
            "image/jpeg"@
        } else if spec_eq_ignore_case(e, "js"@) {
            "text/javascript"@
        } else if spec_eq_ignore_case(e, "md"@) {
            "text/markdown"@
        } else if spec_eq_ignore_case(e, "png"@) {
            "image/png"@
        } else if spec_eq_ignore_case(e, "svg"@) {
            "image/svg+xml"@
        } else if spec_eq_ignore_case(e, "txt"@) {
            "text/plain"@
        } else {
            "application/octet-stream"@
        },
    }
}

fn eq_ignore_case(a: &str, b: &str) -> (r: bool)
    ensures
        r == spec_eq_ignore_case(a@, b@),
{
    let an = a.unicode_len();
    let bn = b.unicode_len();
    if an != bn {
        return false;
    }
    let mut i: usize = 0;
    while i < an
        invariant
            0 <= i <= an,
            an == a@.len(),
            an == b@.len(),
            forall|j: int| 0 <= j < i ==> spec_lower(a@[j]) == spec_lower(b@[j]),
        decreases an - i,
    {
        let ca = a.get_char(i) as u32;
        let cb = b.get_char(i) as u32;
        let la = if 65 <= ca && ca <= 90 {
            ca + 32
        } else {
            ca
        };
        let lb = if 65 <= cb && cb <= 90 {
            cb + 32
        } else {
            cb
        };
        if la != lb {
            proof {
                assert(spec_lower(a@[i as int]) != spec_lower(b@[i as int]));
            }
            return false;
        }
        i += 1;
    }
    true
}

/// Resolve the content type served for a file path, by its extension
/// alone and without regard to ASCII case.
pub fn get_content_type(path: &str) -> (r: &'static str)
    ensures
        r@ == spec_content_type(path@),
{
    let n = path.unicode_len();
    let mut slash: usize = 0;
    let mut has_slash = false;
    let mut dot: usize = 0;
    let mut has_dot = false;
    let mut i: usize = 0;
    while i < n
        invariant
            0 <= i <= n,
            n == path@.len(),
            has_slash ==> slash < i && path@[slash as int] == '/' && forall|j: int|
                slash < j < i ==> path@[j] != '/',
            !has_slash ==> forall|j: int| 0 <= j < i ==> path@[j] != '/',
            has_dot ==> dot < i && path@[dot as int] == '.' && forall|j: int|
                dot < j < i ==> path@[j] != '.',
            !has_dot ==> forall|j: int| 0 <= j < i ==> path@[j] != '.',
        decreases n - i,
    {
        let c = path.get_char(i);
        if c == '/' {
            slash = i;
            has_slash = true;
        } else if c == '.' {
            dot = i;
            has_dot = true;
        }
        i += 1;
    }
    let ns: usize = if has_slash {
        slash + 1
    } else {
        0
    };
    proof {
        if has_slash {
            lemma_last_index_at(path@, '/', slash as int);
        } else {
            lemma_last_index_missing(path@, '/');
        }
        let name = path@.subrange(ns as int, n as int);
        if has_dot && dot >= ns {
            assert(name[dot - ns] == '.');
            lemma_last_index_at(name, '.', dot - ns);
        } else {
            assert(forall|j: int| 0 <= j < name.len() ==> name[j] != '.');
            lemma_last_index_missing(name, '.');
        }
    }
    if has_dot && dot > ns {
        let ext = path.substring_char(dot + 1, n);
        proof {
            let name = path@.subrange(ns as int, n as int);
            assert(name.subrange(dot - ns + 1, name.len() as int) =~= path@.subrange(
                dot + 1,
                n as int,
            ));
            assert(spec_extension(path@) == Some(ext@));
        }
        if eq_ignore_case(ext, "css") {
            "text/css"
        } else if eq_ignore_case(ext, "html") {
            "text/html"
        } else if eq_ignore_case(ext, "jpg") {
            "image/jpeg"
        } else if eq_ignore_case(ext, "jpeg") {
            "image/jpeg"
        } else if eq_ignore_case(ext, "js") {
            "text/javascript"
        } else if eq_ignore_case(ext, "md") {
            "text/markdown"
        } else if eq_ignore_case(ext, "png") {
            "image/png"
        } else if eq_ignore_case(ext, "svg") {
            "image/svg+xml"
        } else if eq_ignore_case(ext, "txt") {
            "text/plain"
        } else {
            "application/octet-stream"
        }
    } else {
        "application/octet-stream"
    }
}

} // verus!
