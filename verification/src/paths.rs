//! Path mapping between the caller-facing view and the scanned system
//! view, for deployments that remount the host tree under a fixed prefix
//! (container mode), plus the shared response-shaping rules for parent
//! paths.

use vstd::prelude::*;
use vstd::string::*;

use crate::strings::{is_prefix_of, push_char, str_eq, str_starts_with};

verus! {

/// Every backslash separator turned into a forward slash.
pub open spec fn replace_bs(s: Seq<char>) -> Seq<char> {
    Seq::new(s.len(), |i: int| if s[i] == '\\' { '/' } else { s[i] })
}

/// `s` with every leading slash removed.
pub open spec fn strip_leading_slashes(s: Seq<char>) -> Seq<char>
    decreases s.len(),
{
    if s.len() > 0 && s[0] == '/' {
        strip_leading_slashes(s.drop_first())
    } else {
        s
    }
}

/// When the first `ix` characters are slashes and the next one (if any)
/// is not, stripping keeps exactly the tail from `ix` on.
proof fn lemma_strip_at(s: Seq<char>, ix: int)
    requires
        0 <= ix <= s.len(),
        forall|j: int| 0 <= j < ix ==> s[j] == '/',
        ix < s.len() ==> s[ix] != '/',
    ensures
        strip_leading_slashes(s) == s.subrange(ix, s.len() as int),
    decreases ix,
{
    if ix == 0 {
        assert(s.subrange(0, s.len() as int) =~= s);
    } else {
        let d = s.drop_first();
        lemma_strip_at(d, ix - 1);
        assert(d.subrange(ix - 1, d.len() as int) =~= s.subrange(ix, s.len() as int));
    }
}

/// The system path a caller-facing path denotes. Outside container mode
/// paths pass through unchanged; in container mode the path is normalised
/// to forward slashes and re-rooted under the host mount prefix.
pub open spec fn sys_path(p: Seq<char>, docker: bool) -> Seq<char> {
    if !docker {
        p
    } else {
        let cleaned = strip_leading_slashes(replace_bs(p));
        if cleaned.len() == 0 {
            "/host"@
        } else {
            "/host/"@ + cleaned
        }
    }
}

/// Maps a caller-facing path to the path actually scanned.
pub fn map_to_system_path(path: &str, docker: bool) -> (r: String)
    ensures
        r@ == sys_path(path@, docker),
{
    if !docker {
        return String::from_str(path);
    }
    let len = path.unicode_len();
    let mut ix: usize = 0;
    while ix < len
        invariant
            ix <= len,
            len == path@.len(),
            forall|j: int| 0 <= j < ix ==> replace_bs(path@)[j] == '/',
        ensures
            ix <= len,
            len == path@.len(),
            forall|j: int| 0 <= j < ix ==> replace_bs(path@)[j] == '/',
            ix < len ==> replace_bs(path@)[ix as int] != '/',
        decreases len - ix,
    {
        let c = path.get_char(ix);
        if c != '/' && c != '\\' {
            break ;
        }
        ix = ix + 1;
    }
    proof {
        lemma_strip_at(replace_bs(path@), ix as int);
    }
    if ix == len {
        return String::from_str("/host");
    }
    let mut out = String::from_str("/host/");
    let mut j: usize = ix;
    while j < len
        invariant
            ix <= j <= len,
            len == path@.len(),
            out@ == "/host/"@ + replace_bs(path@).subrange(ix as int, j as int),
        decreases len - j,
    {
        let c = path.get_char(j);
        let rc = if c == '\\' {
            '/'
        } else {
            c
        };
        push_char(&mut out, rc);
        proof {
            assert(("/host/"@ + replace_bs(path@).subrange(ix as int, j as int)).push(rc)
                =~= "/host/"@ + replace_bs(path@).subrange(ix as int, j + 1));
        }
        j = j + 1;
    }
    proof {
        assert(replace_bs(path@).subrange(ix as int, len as int) == strip_leading_slashes(
            replace_bs(path@),
        ));
    }
    out
}

/// The caller-facing path a system path denotes: the inverse direction of
/// `sys_path`. The host mount prefix is peeled off; the host root itself
/// reads as the filesystem root; anything outside the host mount passes
/// through unchanged.
pub open spec fn ui_path(p: Seq<char>, docker: bool) -> Seq<char> {
    if !docker {
        p
    } else {
        let q = replace_bs(p);
        if q == "/host"@ || q == "/host/"@ {
            "/"@
        } else if is_prefix_of("/host/"@, q) {
            q.subrange(5, q.len() as int)
        } else {
            q
        }
    }
}

/// Maps a scanned system path back to the caller-facing path.
pub fn map_to_ui_path(path: &str, docker: bool) -> (r: String)
    ensures
        r@ == ui_path(path@, docker),
{
    if !docker {
        return String::from_str(path);
    }
    let len = path.unicode_len();
    let mut q = String::new();
    let mut j: usize = 0;
    while j < len
        invariant
            j <= len,
            len == path@.len(),
            q@ == replace_bs(path@).subrange(0, j as int),
        decreases len - j,
    {
        let c = path.get_char(j);
        let rc = if c == '\\' {
            '/'
        } else {
            c
        };
        push_char(&mut q, rc);
        proof {
            assert(replace_bs(path@).subrange(0, j as int).push(rc) =~= replace_bs(
                path@,
            ).subrange(0, j + 1));
        }
        j = j + 1;
    }
    proof {
        assert(replace_bs(path@).subrange(0, len as int) =~= replace_bs(path@));
    }
    if str_eq(q.as_str(), "/host") || str_eq(q.as_str(), "/host/") {
        return String::from_str("/");
    }
    if str_starts_with(q.as_str(), "/host/") {
        proof {
            reveal_strlit("/host/");
        }
        let qlen = q.as_str().unicode_len();
        let tail = q.as_str().substring_char(5, qlen);
        return String::from_str(tail);
    }
    q
}

/// The parent path a response reports: none at the root (or at the host
/// root in container mode), the filesystem root when the computed parent
/// collapses to the empty string, otherwise the computed parent itself.
pub open spec fn normalized_parent(
    p: Option<Seq<char>>,
    current: Seq<char>,
    docker: bool,
) -> Option<Seq<char>> {
    if docker && current == "/"@ {
        None
    } else {
        match p {
            Some(q) => if q.len() == 0 {
                if current != "/"@ {
                    Some("/"@)
                } else {
                    None
                }
            } else {
                Some(q)
            },
            None => None,
        }
    }
}

/// Applies the parent-path response rules to a computed parent.
pub fn normalize_parent(parent: Option<String>, current: &str, docker: bool) -> (r: Option<
    String,
>)
    ensures
        match r {
            Some(q) => normalized_parent(
                match parent {
                    Some(p0) => Some(p0@),
                    None => None,
                },
                current@,
                docker,
            ) == Some(q@),
            None => normalized_parent(
                match parent {
                    Some(p0) => Some(p0@),
                    None => None,
                },
                current@,
                docker,
            ) is None,
        },
{
    if docker && str_eq(current, "/") {
        return None;
    }
    match parent {
        Some(q) => {
            if q.as_str().unicode_len() == 0 {
                if !str_eq(current, "/") {
                    Some(String::from_str("/"))
                } else {
                    None
                }
            } else {
                Some(q)
            }
        },
        None => None,
    }
}

/// Some two adjacent characters spell `..`: the parent-traversal marker a
/// scan request must not contain.
pub open spec fn has_dotdot(s: Seq<char>) -> bool {
    exists|i: int| 0 <= i && i + 1 < s.len() && #[trigger] s[i] == '.' && s[i + 1] == '.'
}

/// Whether the path contains a `..` sequence.
pub fn contains_dotdot(path: &str) -> (r: bool)
    ensures
        r == has_dotdot(path@),
{
    let len = path.unicode_len();
    if len < 2 {
        return false;
    }
    let mut i: usize = 0;
    let mut prev = path.get_char(0);
    while i + 1 < len
        invariant
            len == path@.len(),
            len >= 2,
            i + 1 <= len,
            prev == path@[i as int],
            forall|j: int|
                0 <= j && j + 1 < len && j < i ==> !(#[trigger] path@[j] == '.' && path@[j + 1]
                    == '.'),
        decreases len - i,
    {
        let c = path.get_char(i + 1);
        if prev == '.' && c == '.' {
            return true;
        }
        prev = c;
        i = i + 1;
    }
    false
}

} // verus!
