//! A plain-string model of filesystem paths.
//!
//! Paths travel through this library as strings. The two judgements the
//! sandbox and the installer need — does an argument look like a path, and
//! does a path lie under a directory prefix — are defined here over the
//! strings' character sequences and implemented against those definitions.

use vstd::prelude::*;
use vstd::string::StringExecFns;
use vstd::string::StrSliceExecFns;

verus! {

/// `dir` and `name` joined with one path separator.
pub open spec fn joined(dir: Seq<char>, name: Seq<char>) -> Seq<char> {
    dir + "/"@ + name
}

/// Joins a directory and an entry name with one path separator.
pub fn join_path(dir: &str, name: &str) -> (r: String)
    ensures
        r@ == joined(dir@, name@),
{
    let mut s = dir.to_owned();
    s.append("/");
    s.append(name);
    s
}

/// The path is absolute: it begins with a separator.
pub open spec fn is_absolute(s: Seq<char>) -> bool {
    s.len() > 0 && s[0] == '/'
}

/// The string syntactically looks like a filesystem path: it begins with
/// `/`, `./` or `~/`.
pub open spec fn looks_like_path(s: Seq<char>) -> bool {
    (s.len() >= 1 && s[0] == '/') || (s.len() >= 2 && (s[0] == '.' || s[0] == '~') && s[1]
        == '/')
}

/// `p` lies under the directory `prefix`: `prefix` is non-empty, `p`
/// begins with it, and the boundary falls on a component edge — the two
/// are equal, `p` continues with a separator, or `prefix` already ends
/// with one. (So `/tmp/ab` does not lie under `/tmp/a`.) An empty prefix
/// covers nothing. Paths are compared as written: doubled separators or
/// dot segments are not normalized away, so a prefix covers only paths
/// spelled the same way — the strict, fail-closed reading for a
/// permission gate.
pub open spec fn path_under(p: Seq<char>, prefix: Seq<char>) -> bool {
    &&& prefix.len() > 0
    &&& prefix.len() <= p.len()
    &&& p.subrange(0, prefix.len() as int) == prefix
    &&& (p.len() == prefix.len() || p[prefix.len() as int] == '/' || prefix[prefix.len() - 1]
        == '/')
}

/// Whether the path `p` lies under the directory `prefix`.
pub fn check_path_under(p: &str, prefix: &str) -> (r: bool)
    ensures
        r == path_under(p@, prefix@),
{
    let plen = p.unicode_len();
    let xlen = prefix.unicode_len();
    if xlen == 0 || xlen > plen {
        return false;
    }
    let mut i: usize = 0;
    while i < xlen
        invariant
            plen == p@.len(),
            xlen == prefix@.len(),
            0 < xlen <= plen,
            i <= xlen,
            forall|k: int| 0 <= k < i ==> p@[k] == prefix@[k],
        decreases xlen - i,
    {
        if p.get_char(i) != prefix.get_char(i) {
            assert(p@.subrange(0, xlen as int)[i as int] != prefix@[i as int]);
            return false;
        }
        i = i + 1;
    }
    assert(p@.subrange(0, xlen as int) =~= prefix@);
    if plen == xlen {
        return true;
    }
    if p.get_char(xlen) == '/' {
        return true;
    }
    prefix.get_char(xlen - 1) == '/'
}

/// Whether the string syntactically looks like a filesystem path.
pub fn check_looks_like_path(arg: &str) -> (r: bool)
    ensures
        r == looks_like_path(arg@),
{
    let n = arg.unicode_len();
    if n == 0 {
        return false;
    }
    let c0 = arg.get_char(0);
    if c0 == '/' {
        return true;
    }
    if n >= 2 && (c0 == '.' || c0 == '~') {
        return arg.get_char(1) == '/';
    }
    false
}

} // verus!
