//! In-memory model of a directory subtree.
//!
//! The engine aggregates statistics over a snapshot of a subtree. Listing
//! directories and reading metadata happens outside the library; the caller
//! hands in an `FsEntry` tree in which every read failure has already been
//! recorded as an `Unreadable` node and every symlink as a `Symlink` node,
//! so the aggregation itself is a pure function of the tree.

use vstd::prelude::*;
use vstd::string::*;

use crate::strings::{lower_of, lowercase};

verus! {

/// One filesystem entry as the scanner saw it.
///
/// A symlink is never traversed and an unreadable entry (metadata or listing
/// failure) degrades to zero contribution, so neither variant carries sizes.
pub enum FsEntry {
    /// A plain file with its on-disk length and modification timestamp
    /// (unix seconds).
    File { name: String, size: u64, modified: u64 },
    /// A directory whose listing succeeded.
    Dir { name: String, modified: u64, children: Vec<FsEntry> },
    /// A symlink: excluded from every total and never followed.
    Symlink { name: String },
    /// An entry whose metadata or listing could not be read; `is_dir` records
    /// how the entry was classified before the failure.
    Unreadable { name: String, is_dir: bool },
}

/// The name of an entry.
pub open spec fn name_of(e: FsEntry) -> Seq<char> {
    match e {
        FsEntry::File { name, .. } => name@,
        FsEntry::Dir { name, .. } => name@,
        FsEntry::Symlink { name } => name@,
        FsEntry::Unreadable { name, .. } => name@,
    }
}

/// Total size in bytes of every non-symlink file in the subtree rooted at `e`.
pub open spec fn size_of(e: FsEntry) -> int
    decreases e,
{
    match e {
        FsEntry::File { size, .. } => size as int,
        FsEntry::Dir { children, .. } => size_of_seq(children@),
        FsEntry::Symlink { .. } => 0,
        FsEntry::Unreadable { .. } => 0,
    }
}

/// Total size over a sequence of sibling entries.
pub open spec fn size_of_seq(s: Seq<FsEntry>) -> int
    decreases s,
{
    if s.len() == 0 {
        0
    } else {
        size_of_seq(s.drop_last()) + size_of(s.last())
    }
}

/// Number of non-symlink files in the subtree rooted at `e`.
pub open spec fn count_of(e: FsEntry) -> int
    decreases e,
{
    match e {
        FsEntry::File { .. } => 1,
        FsEntry::Dir { children, .. } => count_of_seq(children@),
        FsEntry::Symlink { .. } => 0,
        FsEntry::Unreadable { .. } => 0,
    }
}

/// Number of files over a sequence of sibling entries.
pub open spec fn count_of_seq(s: Seq<FsEntry>) -> int
    decreases s,
{
    if s.len() == 0 {
        0
    } else {
        count_of_seq(s.drop_last()) + count_of(s.last())
    }
}

/// Number of nodes in the subtree rooted at `e`; a termination measure for
/// executable walks of the tree.
pub open spec fn weight(e: FsEntry) -> nat
    decreases e,
{
    match e {
        FsEntry::Dir { children, .. } => 1 + weight_seq(children@),
        _ => 1,
    }
}

/// Node count over a sequence of sibling entries.
pub open spec fn weight_seq(s: Seq<FsEntry>) -> nat
    decreases s,
{
    if s.len() == 0 {
        0
    } else {
        weight_seq(s.drop_last()) + weight(s.last())
    }
}

/// Every sibling weighs no more than the whole sequence.
pub proof fn lemma_weight_at(s: Seq<FsEntry>, j: int)
    requires
        0 <= j < s.len(),
    ensures
        weight(s[j]) <= weight_seq(s),
    decreases s.len(),
{
    if j == s.len() - 1 {
    } else {
        let dl = s.drop_last();
        assert(dl[j] == s[j]);
        lemma_weight_at(dl, j);
    }
}

/// Sizes are sums of `u64` values, hence never negative.
pub proof fn lemma_size_nonneg(e: FsEntry)
    ensures
        size_of(e) >= 0,
        count_of(e) >= 0,
    decreases e,
{
    match e {
        FsEntry::Dir { children, .. } => {
            lemma_size_seq_nonneg(children@);
        },
        _ => {},
    }
}

/// Sums over sibling sequences are never negative.
pub proof fn lemma_size_seq_nonneg(s: Seq<FsEntry>)
    ensures
        size_of_seq(s) >= 0,
        count_of_seq(s) >= 0,
    decreases s,
{
    if s.len() > 0 {
        lemma_size_seq_nonneg(s.drop_last());
        lemma_size_nonneg(s.last());
    }
}

/// Splitting a sibling sequence at `j` splits its totals.
pub proof fn lemma_size_seq_split(s: Seq<FsEntry>, j: int)
    requires
        0 <= j <= s.len(),
    ensures
        size_of_seq(s) == size_of_seq(s.subrange(0, j)) + size_of_seq(
            s.subrange(j, s.len() as int),
        ),
        count_of_seq(s) == count_of_seq(s.subrange(0, j)) + count_of_seq(
            s.subrange(j, s.len() as int),
        ),
    decreases s.len(),
{
    if j == s.len() {
        assert(s.subrange(0, j) =~= s);
        assert(s.subrange(j, s.len() as int) =~= Seq::<FsEntry>::empty());
    } else {
        let dl = s.drop_last();
        lemma_size_seq_split(dl, j);
        assert(dl.subrange(0, j) =~= s.subrange(0, j));
        assert(s.subrange(j, s.len() as int).drop_last() =~= dl.subrange(j, dl.len() as int));
        assert(s.subrange(j, s.len() as int).last() == s.last());
    }
}

/// Totals decompose around any single element.
pub proof fn lemma_size_seq_at(s: Seq<FsEntry>, j: int)
    requires
        0 <= j < s.len(),
    ensures
        size_of_seq(s) == size_of_seq(s.subrange(0, j)) + size_of(s[j]) + size_of_seq(
            s.subrange(j + 1, s.len() as int),
        ),
        count_of_seq(s) == count_of_seq(s.subrange(0, j)) + count_of(s[j]) + count_of_seq(
            s.subrange(j + 1, s.len() as int),
        ),
{
    lemma_size_seq_split(s, j);
    let suffix = s.subrange(j, s.len() as int);
    lemma_size_seq_split(suffix, 1);
    let s1 = suffix.subrange(0, 1);
    assert(s1.len() == 1);
    assert(s1.last() == s[j]);
    assert(s1.drop_last() =~= Seq::<FsEntry>::empty());
    assert(size_of_seq(Seq::<FsEntry>::empty()) == 0);
    assert(count_of_seq(Seq::<FsEntry>::empty()) == 0);
    assert(suffix.subrange(1, suffix.len() as int) =~= s.subrange(j + 1, s.len() as int));
}

/// Extending a prefix by one sibling adds that sibling's totals.
pub proof fn lemma_size_seq_extend(s: Seq<FsEntry>, j: int)
    requires
        0 <= j < s.len(),
    ensures
        size_of_seq(s.subrange(0, j + 1)) == size_of_seq(s.subrange(0, j)) + size_of(s[j]),
        count_of_seq(s.subrange(0, j + 1)) == count_of_seq(s.subrange(0, j)) + count_of(s[j]),
{
    assert(s.subrange(0, j + 1).drop_last() =~= s.subrange(0, j));
    assert(s.subrange(0, j + 1).last() == s[j]);
}

/// The sizes of every non-symlink file in the subtree rooted at `e`, in
/// walk order: symlinked and unreadable entries contribute no element and
/// are never descended into.
pub open spec fn files_of(e: FsEntry) -> Seq<u64>
    decreases e,
{
    match e {
        FsEntry::File { size, .. } => seq![size],
        FsEntry::Dir { children, .. } => files_of_seq(children@),
        FsEntry::Symlink { .. } => Seq::<u64>::empty(),
        FsEntry::Unreadable { .. } => Seq::<u64>::empty(),
    }
}

/// The file sizes over a sequence of sibling entries.
pub open spec fn files_of_seq(s: Seq<FsEntry>) -> Seq<u64>
    decreases s,
{
    if s.len() == 0 {
        Seq::<u64>::empty()
    } else {
        files_of_seq(s.drop_last()) + files_of(s.last())
    }
}

/// The sum of a sequence of sizes.
pub open spec fn sum_sizes(s: Seq<u64>) -> int
    decreases s,
{
    if s.len() == 0 {
        0
    } else {
        sum_sizes(s.drop_last()) + s.last()
    }
}

/// Sums distribute over concatenation.
proof fn lemma_sum_sizes_concat(a: Seq<u64>, b: Seq<u64>)
    ensures
        sum_sizes(a + b) == sum_sizes(a) + sum_sizes(b),
    decreases b.len(),
{
    if b.len() == 0 {
        assert(a + b =~= a);
    } else {
        lemma_sum_sizes_concat(a, b.drop_last());
        Seq::drop_last_distributes_over_add(a, b);
        assert((a + b).last() == b.last());
    }
}

/// The law a scan's totals obey: the aggregate size of a subtree is the
/// sum of the sizes of every non-symlink file reachable from it, and the
/// aggregate file count is the number of those files. Symlinked files and
/// directories are excluded (never followed), and unreadable entries
/// contribute zero.
pub proof fn lemma_total_is_file_sum(e: FsEntry)
    ensures
        size_of(e) == sum_sizes(files_of(e)),
        count_of(e) == files_of(e).len(),
    decreases e,
{
    match e {
        FsEntry::Dir { children, .. } => {
            lemma_total_is_file_sum_seq(children@);
        },
        FsEntry::File { size, .. } => {
            assert(seq![size].drop_last() =~= Seq::<u64>::empty());
            assert(sum_sizes(Seq::<u64>::empty()) == 0);
        },
        _ => {},
    }
}

/// The same law over a sequence of sibling entries.
pub proof fn lemma_total_is_file_sum_seq(s: Seq<FsEntry>)
    ensures
        size_of_seq(s) == sum_sizes(files_of_seq(s)),
        count_of_seq(s) == files_of_seq(s).len(),
    decreases s,
{
    if s.len() > 0 {
        lemma_total_is_file_sum_seq(s.drop_last());
        lemma_total_is_file_sum(s.last());
        lemma_sum_sizes_concat(files_of_seq(s.drop_last()), files_of(s.last()));
    }
}

/// The children of a directory entry.
pub open spec fn children_of(e: FsEntry) -> Seq<FsEntry> {
    match e {
        FsEntry::Dir { children, .. } => children@,
        _ => Seq::<FsEntry>::empty(),
    }
}

/// The fan-out and the sequential walk agree: the aggregate the scan
/// orchestrator reports for a directory's children equals what the
/// recursive aggregator reports for the directory itself, so evaluating
/// the children concurrently (each from its own snapshot, no shared
/// state) returns the same result as one sequential pass.
pub proof fn lemma_scan_agrees_with_aggregate(e: FsEntry)
    requires
        e is Dir,
    ensures
        size_of(e) == size_of_seq(children_of(e)),
        count_of(e) == count_of_seq(children_of(e)),
{
}

/// The extension of a file name: the portion after the last `.`, where a `.`
/// in the leading position does not count (a name such as a hidden
/// configuration file has no extension). `None` when the name has no
/// qualifying dot at all.
pub open spec fn ext_after_last_dot(name: Seq<char>) -> Option<Seq<char>>
    decreases name.len(),
{
    if name.len() <= 1 {
        None
    } else if name.last() == '.' {
        Some(Seq::<char>::empty())
    } else {
        match ext_after_last_dot(name.drop_last()) {
            Some(e) => Some(e.push(name.last())),
            None => None,
        }
    }
}

/// The distribution key a file name is bucketed under: its lowercased
/// extension, or the reserved `unknown` key when it has none.
pub open spec fn ext_key(name: Seq<char>) -> Seq<char> {
    match ext_after_last_dot(name) {
        Some(e) => lower_of(e),
        None => "unknown"@,
    }
}

/// When the last dot of `name` (ignoring a leading dot) sits at `jd`, the
/// extension is everything after `jd`.
proof fn lemma_ext_at_dot(name: Seq<char>, jd: int)
    requires
        1 <= jd < name.len(),
        name[jd] == '.',
        forall|k: int| jd < k < name.len() ==> name[k] != '.',
    ensures
        ext_after_last_dot(name) == Some(name.subrange(jd + 1, name.len() as int)),
    decreases name.len(),
{
    if jd == name.len() - 1 {
        assert(name.last() == '.');
        assert(name.subrange(jd + 1, name.len() as int) =~= Seq::<char>::empty());
    } else {
        assert(name.last() != '.');
        let dl = name.drop_last();
        lemma_ext_at_dot(dl, jd);
        assert(dl.subrange(jd + 1, dl.len() as int).push(name.last()) =~= name.subrange(
            jd + 1,
            name.len() as int,
        ));
    }
}

/// A name without any qualifying dot has no extension.
proof fn lemma_ext_no_dot(name: Seq<char>)
    requires
        forall|k: int| 1 <= k < name.len() ==> name[k] != '.',
    ensures
        ext_after_last_dot(name) is None,
    decreases name.len(),
{
    if name.len() > 1 {
        assert(name.last() != '.');
        lemma_ext_no_dot(name.drop_last());
    }
}

/// Computes the distribution key of a file name: the lowercased portion
/// after the last dot, or `unknown` when the name has no extension.
pub fn extension_key(name: &str) -> (r: String)
    ensures
        r@ == ext_key(name@),
{
    let len = name.unicode_len();
    let mut i: usize = len;
    while i > 1
        invariant
            i <= len,
            len == name@.len(),
            forall|k: int| i <= k < len ==> name@[k] != '.',
        decreases i,
    {
        i = i - 1;
        if name.get_char(i) == '.' {
            let e = name.substring_char(i + 1, len);
            let low = lowercase(e);
            proof {
                lemma_ext_at_dot(name@, i as int);
            }
            return low;
        }
    }
    proof {
        lemma_ext_no_dot(name@);
    }
    String::from_str("unknown")
}

} // verus!
