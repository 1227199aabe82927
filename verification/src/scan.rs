//! The recursive aggregator: one pass over a subtree snapshot, producing
//! its total size, file count, and extension distribution.

use vstd::prelude::*;
use vstd::string::*;

use rayon::iter::IntoParallelRefIterator;
use rayon::iter::ParallelIterator;

use crate::dist::{
    dist_of, dist_of_seq, merge_dist, ones, val0, Distribution, ExtMap,
};
use crate::fstree::{
    count_of, count_of_seq, extension_key, lemma_size_seq_at, lemma_size_seq_extend,
    lemma_size_seq_nonneg, lemma_weight_at, name_of, size_of, size_of_seq, weight, FsEntry,
};
use crate::models::FileStats;
use crate::strings::push_char;

verus! {

/// Extending a sibling prefix by one entry merges that entry's
/// distribution.
pub proof fn lemma_dist_seq_extend(s: Seq<FsEntry>, j: int)
    requires
        0 <= j < s.len(),
    ensures
        dist_of_seq(s.subrange(0, j + 1)) == merge_dist(
            dist_of_seq(s.subrange(0, j)),
            dist_of(s[j]),
        ),
{
    assert(s.subrange(0, j + 1).drop_last() =~= s.subrange(0, j));
    assert(s.subrange(0, j + 1).last() == s[j]);
}

/// Walks the subtree rooted at `e` and aggregates it: total bytes, number
/// of files, and bytes per extension key. Symlinks and unreadable entries
/// contribute nothing; the walk is sequential within the subtree.
pub fn analyze_recursive(e: &FsEntry) -> (r: (u64, u64, ExtMap))
    requires
        size_of(*e) <= u64::MAX,
        count_of(*e) <= u64::MAX,
    ensures
        r.0 as int == size_of(*e),
        r.1 as int == count_of(*e),
        r.2.wf(),
        r.2.as_map() == dist_of(*e),
        r.2.total() == size_of(*e),
    decreases weight(*e),
{
    match e {
        FsEntry::File { name, size, .. } => {
            let mut m = ExtMap::new();
            let k = extension_key(name.as_str());
            m.record(k.as_str(), *size);
            (*size, 1u64, m)
        },
        FsEntry::Dir { children, .. } => {
            let mut total: u64 = 0;
            let mut files: u64 = 0;
            let mut m = ExtMap::new();
            let n = children.len();
            let mut i: usize = 0;
            proof {
                assert(children@.subrange(0, 0) =~= Seq::<FsEntry>::empty());
            }
            #[verifier::loop_isolation(false)]
            while i < n
                invariant
                    i <= n,
                    total as int == size_of_seq(children@.subrange(0, i as int)),
                    files as int == count_of_seq(children@.subrange(0, i as int)),
                    m.wf(),
                    m.as_map() == dist_of_seq(children@.subrange(0, i as int)),
                    m.total() == total as int,
                decreases n - i,
            {
                proof {
                    lemma_size_seq_at(children@, i as int);
                    lemma_size_seq_nonneg(children@.subrange(0, i as int));
                    lemma_size_seq_nonneg(children@.subrange(i as int + 1, n as int));
                    crate::fstree::lemma_size_nonneg(children@[i as int]);
                    lemma_weight_at(children@, i as int);
                }
                let (s, c, cm) = analyze_recursive(&children[i]);
                total = total + s;
                files = files + c;
                m.absorb(&cm);
                proof {
                    lemma_size_seq_extend(children@, i as int);
                    lemma_dist_seq_extend(children@, i as int);
                }
                i = i + 1;
            }
            proof {
                assert(children@.subrange(0, n as int) =~= children@);
            }
            (total, files, m)
        },
        FsEntry::Symlink { .. } => (0u64, 0u64, ExtMap::new()),
        FsEntry::Unreadable { .. } => (0u64, 0u64, ExtMap::new()),
    }
}

/// How a child is classified in the per-entry listing.
pub open spec fn entry_is_dir(e: FsEntry) -> bool {
    match e {
        FsEntry::Dir { .. } => true,
        FsEntry::Unreadable { is_dir, .. } => is_dir,
        _ => false,
    }
}

/// The modification timestamp reported for a child; zero when the
/// metadata was unavailable.
pub open spec fn entry_modified(e: FsEntry) -> int {
    match e {
        FsEntry::File { modified, .. } => modified as int,
        FsEntry::Dir { modified, .. } => modified as int,
        _ => 0,
    }
}

/// `dir` and `name` joined with a single separator.
pub open spec fn join_path(dir: Seq<char>, name: Seq<char>) -> Seq<char> {
    if dir.len() > 0 && dir.last() == '/' {
        dir + name
    } else {
        dir.push('/') + name
    }
}

/// Joins a directory path and a child name with a single `/`.
pub fn join_path_str(dir: &str, name: &str) -> (r: String)
    ensures
        r@ == join_path(dir@, name@),
{
    let len = dir.unicode_len();
    let mut s = String::from_str(dir);
    if len == 0 || dir.get_char(len - 1) != '/' {
        push_char(&mut s, '/');
    }
    s.append(name);
    s
}

/// The per-entry statistics a scan reports for child `e` of `dir`.
pub open spec fn stat_ok(dir: Seq<char>, e: FsEntry, st: FileStats) -> bool {
    &&& st.path@ == join_path(dir, name_of(e))
    &&& st.name@ == name_of(e)
    &&& st.is_dir == entry_is_dir(e)
    &&& st.size as int == size_of(e)
    &&& st.file_count as int == count_of(e)
    &&& st.modified as int == entry_modified(e)
}

/// What one unit of per-child work produces: the child's statistics plus
/// its extension distribution.
pub open spec fn child_ok(dir: Seq<char>, e: FsEntry, st: FileStats, m: ExtMap) -> bool {
    &&& stat_ok(dir, e, st)
    &&& m.wf()
    &&& m.as_map() == dist_of(e)
    &&& m.total() == size_of(e)
}

/// The work done for one immediate child: aggregate its subtree and shape
/// the per-entry statistics.
pub fn child_stats(dir: &str, e: &FsEntry) -> (r: (FileStats, ExtMap))
    requires
        size_of(*e) <= u64::MAX,
        count_of(*e) <= u64::MAX,
    ensures
        child_ok(dir@, *e, r.0, r.1),
{
    let (size, file_count, m) = analyze_recursive(e);
    let name: &String = match e {
        FsEntry::File { name, .. } => name,
        FsEntry::Dir { name, .. } => name,
        FsEntry::Symlink { name } => name,
        FsEntry::Unreadable { name, .. } => name,
    };
    let is_dir: bool = match e {
        FsEntry::Dir { .. } => true,
        FsEntry::Unreadable { is_dir, .. } => *is_dir,
        _ => false,
    };
    let modified: u64 = match e {
        FsEntry::File { modified, .. } => *modified,
        FsEntry::Dir { modified, .. } => *modified,
        _ => 0,
    };
    let st = FileStats {
        path: join_path_str(dir, name.as_str()),
        name: name.clone(),
        is_dir,
        size,
        file_count,
        modified,
    };
    (st, m)
}

/// Relies on rayon's `par_iter().map(..).collect()`: the closure only
/// calls the verified `child_stats`, and collecting an indexed parallel
/// iterator into a `Vec` keeps the input order, so the result is
/// element-wise what the sequential map would produce. This is the
/// orchestrator's fan-out: children are processed concurrently, each
/// subtree sequentially.
#[verifier::external_body]
fn par_child_stats(dir: &str, children: &Vec<FsEntry>) -> (r: Vec<(FileStats, ExtMap)>)
    requires
        forall|i: int|
            0 <= i < children@.len() ==> size_of(children@[i]) <= u64::MAX && count_of(
                children@[i],
            ) <= u64::MAX,
    ensures
        r@.len() == children@.len(),
        forall|i: int|
            0 <= i < children@.len() ==> child_ok(dir@, children@[i], r@[i].0, r@[i].1),
{
    children.par_iter().map(|e| child_stats(dir, e)).collect()
}

/// Contributing-children tallies per extension key: each child adds one
/// to every key its own distribution holds.
pub open spec fn touch_of_seq(s: Seq<FsEntry>) -> Map<Seq<char>, int>
    decreases s,
{
    if s.len() == 0 {
        Map::empty()
    } else {
        merge_dist(touch_of_seq(s.drop_last()), ones(dist_of(s.last())))
    }
}

/// Extending a sibling prefix by one entry merges that entry's tallies.
pub proof fn lemma_touch_seq_extend(s: Seq<FsEntry>, j: int)
    requires
        0 <= j < s.len(),
    ensures
        touch_of_seq(s.subrange(0, j + 1)) == merge_dist(
            touch_of_seq(s.subrange(0, j)),
            ones(dist_of(s[j])),
        ),
{
    assert(s.subrange(0, j + 1).drop_last() =~= s.subrange(0, j));
    assert(s.subrange(0, j + 1).last() == s[j]);
}

/// The merged aggregate a scan reports for one directory.
pub struct ScanAnalysis {
    /// Bytes held by all children together.
    pub total_size: u64,
    /// Files contained in all children together.
    pub total_files: u64,
    /// Bytes and contributor tallies per extension key.
    pub extension_distribution: Distribution,
}

/// Scans one directory level: fans the per-child work out across the
/// immediate children (bounding concurrency by their number), then merges
/// every child's contribution into one aggregate. The caller lists `dir`'s
/// children and resolves read failures into the tree beforehand; a failure
/// to list `dir` itself is the caller's error path, so this function
/// always produces a result.
pub fn scan_path(dir: &str, children: &Vec<FsEntry>) -> (r: (Vec<FileStats>, ScanAnalysis))
    requires
        size_of_seq(children@) <= u64::MAX,
        count_of_seq(children@) <= u64::MAX,
    ensures
        r.0@.len() == children@.len(),
        forall|i: int| 0 <= i < children@.len() ==> stat_ok(dir@, children@[i], r.0@[i]),
        r.1.total_size as int == size_of_seq(children@),
        r.1.total_files as int == count_of_seq(children@),
        r.1.extension_distribution.wf(),
        r.1.extension_distribution.size_map() == dist_of_seq(children@),
        r.1.extension_distribution.count_map() == touch_of_seq(children@),
        r.1.extension_distribution.total() == size_of_seq(children@),
{
    proof {
        assert forall|i: int|
            0 <= i < children@.len() implies size_of(#[trigger] children@[i]) <= u64::MAX
            && count_of(children@[i]) <= u64::MAX by {
            lemma_size_seq_at(children@, i);
            lemma_size_seq_nonneg(children@.subrange(0, i));
            lemma_size_seq_nonneg(children@.subrange(i + 1, children@.len() as int));
        }
    }
    let results = par_child_stats(dir, children);
    let n = results.len();
    let mut stats: Vec<FileStats> = Vec::new();
    let mut dist = Distribution::new();
    let mut total_size: u64 = 0;
    let mut total_files: u64 = 0;
    let mut i: usize = 0;
    proof {
        assert(children@.subrange(0, 0) =~= Seq::<FsEntry>::empty());
    }
    #[verifier::loop_isolation(false)]
    while i < n
        invariant
            i <= n,
            stats@.len() == i,
            forall|j: int| 0 <= j < i ==> stat_ok(dir@, children@[j], stats@[j]),
            total_size as int == size_of_seq(children@.subrange(0, i as int)),
            total_files as int == count_of_seq(children@.subrange(0, i as int)),
            dist.wf(),
            dist.size_map() == dist_of_seq(children@.subrange(0, i as int)),
            dist.count_map() == touch_of_seq(children@.subrange(0, i as int)),
            dist.total() == total_size as int,
            forall|k: Seq<char>| val0(dist.count_map(), k) <= i as int,
        decreases n - i,
    {
        proof {
            lemma_size_seq_at(children@, i as int);
            lemma_size_seq_nonneg(children@.subrange(0, i as int));
            lemma_size_seq_nonneg(children@.subrange(i as int + 1, n as int));
            crate::fstree::lemma_size_nonneg(children@[i as int]);
        }
        let st = results[i].0.clone();
        total_size = total_size + st.size;
        total_files = total_files + st.file_count;
        dist.absorb_child(&results[i].1);
        stats.push(st);
        proof {
            lemma_size_seq_extend(children@, i as int);
            lemma_dist_seq_extend(children@, i as int);
            lemma_touch_seq_extend(children@, i as int);
        }
        i = i + 1;
    }
    proof {
        assert(children@.subrange(0, n as int) =~= children@);
    }
    (
        stats,
        ScanAnalysis { total_size, total_files, extension_distribution: dist },
    )
}

} // verus!
