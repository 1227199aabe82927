//! The disk mount resolver: which storage volume owns a given path.
//!
//! Among all volumes whose mount point is a component-wise prefix of the
//! path, the one with the longest mount point wins, and ties keep the
//! first volume encountered.

use vstd::prelude::*;
use vstd::string::*;

use crate::strings::{is_prefix_of, str_starts_with};

verus! {

/// One known storage volume, as refreshed from the operating system.
pub struct VolumeInfo {
    /// The path the volume is mounted at.
    pub mount_point: String,
    /// Capacity in bytes.
    pub total_bytes: u64,
    /// Remaining free bytes.
    pub available_bytes: u64,
}

impl Clone for VolumeInfo {
    /// A field-for-field copy.
    fn clone(&self) -> (r: Self)
        ensures
            r == *self,
    {
        VolumeInfo {
            mount_point: self.mount_point.clone(),
            total_bytes: self.total_bytes,
            available_bytes: self.available_bytes,
        }
    }
}

/// Component-wise prefix match: `mount` owns `path` when it is a prefix
/// and the match ends at a component boundary, so a mount at one
/// directory never captures a sibling whose name merely starts the same
/// way.
pub open spec fn mount_matches(mount: Seq<char>, path: Seq<char>) -> bool {
    &&& is_prefix_of(mount, path)
    &&& {
        ||| mount.len() == path.len()
        ||| (mount.len() > 0 && mount.last() == '/')
        ||| path[mount.len() as int] == '/'
    }
}

/// Whether the volume mounted at `mount` owns `path`.
pub fn mount_matches_str(mount: &str, path: &str) -> (r: bool)
    ensures
        r == mount_matches(mount@, path@),
{
    let mlen = mount.unicode_len();
    let plen = path.unicode_len();
    if !str_starts_with(path, mount) {
        return false;
    }
    if mlen == plen {
        return true;
    }
    if mlen > 0 && mount.get_char(mlen - 1) == '/' {
        return true;
    }
    path.get_char(mlen) == '/'
}

/// Volume `i` matches `path` and no other matching volume has a longer
/// mount point, nor does any earlier volume tie its length: the "most
/// specific mount wins, first tie kept" rule.
pub open spec fn is_best_match(vs: Seq<VolumeInfo>, path: Seq<char>, i: int) -> bool {
    &&& 0 <= i < vs.len()
    &&& mount_matches(vs[i].mount_point@, path)
    &&& forall|j: int|
        0 <= j < vs.len() && mount_matches(vs[j].mount_point@, path)
            ==> vs[j].mount_point@.len() <= vs[i].mount_point@.len()
    &&& forall|j: int|
        0 <= j < i && mount_matches(vs[j].mount_point@, path) ==> vs[j].mount_point@.len()
            < vs[i].mount_point@.len()
}

/// Resolves `path` to its owning volume: the matching volume with the
/// longest mount point, keeping the first on ties; `None` when no volume
/// matches, so the caller decides its own fallback rather than the
/// resolver guessing.
pub fn resolve(path: &str, volumes: &Vec<VolumeInfo>) -> (r: Option<VolumeInfo>)
    ensures
        match r {
            Some(v) => exists|i: int|
                #[trigger] is_best_match(volumes@, path@, i) && v == volumes@[i],
            None => forall|i: int|
                0 <= i < volumes@.len() ==> !mount_matches(volumes@[i].mount_point@, path@),
        },
{
    let n = volumes.len();
    let mut found: bool = false;
    let mut bi: usize = 0;
    let mut blen: usize = 0;
    let mut i: usize = 0;
    #[verifier::loop_isolation(false)]
    while i < n
        invariant
            i <= n,
            !found ==> forall|j: int|
                0 <= j < i ==> !mount_matches(volumes@[j].mount_point@, path@),
            found ==> {
                &&& bi < i
                &&& mount_matches(volumes@[bi as int].mount_point@, path@)
                &&& blen == volumes@[bi as int].mount_point@.len()
                &&& forall|j: int|
                    0 <= j < i && mount_matches(volumes@[j].mount_point@, path@)
                        ==> volumes@[j].mount_point@.len() <= blen
                &&& forall|j: int|
                    0 <= j < bi && mount_matches(volumes@[j].mount_point@, path@)
                        ==> volumes@[j].mount_point@.len() < blen
            },
        decreases n - i,
    {
        let mlen = volumes[i].mount_point.unicode_len();
        if mount_matches_str(volumes[i].mount_point.as_str(), path) {
            if !found || mlen > blen {
                found = true;
                bi = i;
                blen = mlen;
            }
        }
        i = i + 1;
    }
    if found {
        let v = volumes[bi].clone();
        proof {
            assert(is_best_match(volumes@, path@, bi as int));
        }
        Some(v)
    } else {
        None
    }
}

/// Resolves `path`, falling back to the first known volume when nothing
/// matches: the explicit fallback policy for callers that prefer an
/// arbitrary volume's numbers over none.
pub fn resolve_or_first(path: &str, volumes: &Vec<VolumeInfo>) -> (r: Option<VolumeInfo>)
    ensures
        match r {
            Some(v) => (exists|i: int|
                #[trigger] is_best_match(volumes@, path@, i) && v == volumes@[i]) || ((forall|
                i: int,
            |
                0 <= i < volumes@.len() ==> !mount_matches(volumes@[i].mount_point@, path@))
                && volumes@.len() > 0 && v == volumes@[0]),
            None => volumes@.len() == 0,
        },
{
    let r = resolve(path, volumes);
    match r {
        Some(v) => Some(v),
        None => {
            if volumes.len() > 0 {
                Some(volumes[0].clone())
            } else {
                None
            }
        },
    }
}

} // verus!
