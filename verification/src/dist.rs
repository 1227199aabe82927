//! Extension distributions: how many bytes each file-name extension
//! accounts for within a subtree.
//!
//! The specification side models a distribution as a total map from
//! extension key to byte count; the executable side keeps an association
//! list with pairwise-distinct keys, which is what the engine returns to
//! its callers.

use vstd::prelude::*;
use vstd::pervasive::VecAdditionalExecFns;
use vstd::string::*;

use crate::fstree::{ext_key, FsEntry};
use crate::models::ExtensionStats;
use crate::strings::str_eq;

verus! {

/// The value of `m` at `k`, reading absent keys as zero.
pub open spec fn val0(m: Map<Seq<char>, int>, k: Seq<char>) -> int {
    if m.contains_key(k) {
        m[k]
    } else {
        0
    }
}

/// `m` with `v` added to the value at `k`.
pub open spec fn bump_key(m: Map<Seq<char>, int>, k: Seq<char>, v: int) -> Map<Seq<char>, int> {
    m.insert(k, val0(m, k) + v)
}

/// Element-wise sum of two distributions over the union of their keys.
pub open spec fn merge_dist(a: Map<Seq<char>, int>, b: Map<Seq<char>, int>) -> Map<
    Seq<char>,
    int,
> {
    Map::new(|k: Seq<char>| a.contains_key(k) || b.contains_key(k), |k: Seq<char>| val0(a, k) + val0(b, k))
}

/// The distribution with value 1 on exactly the keys of `m`.
pub open spec fn ones(m: Map<Seq<char>, int>) -> Map<Seq<char>, int> {
    Map::new(|k: Seq<char>| m.contains_key(k), |k: Seq<char>| 1)
}

/// Bytes per extension key over the subtree rooted at `e`: a file
/// contributes its size under its own key, a directory contributes the
/// merge of its children, symlinks and unreadable entries contribute
/// nothing.
pub open spec fn dist_of(e: FsEntry) -> Map<Seq<char>, int>
    decreases e,
{
    match e {
        FsEntry::File { name, size, .. } => Map::empty().insert(ext_key(name@), size as int),
        FsEntry::Dir { children, .. } => dist_of_seq(children@),
        FsEntry::Symlink { .. } => Map::empty(),
        FsEntry::Unreadable { .. } => Map::empty(),
    }
}

/// Merged distribution of a sequence of sibling entries.
pub open spec fn dist_of_seq(s: Seq<FsEntry>) -> Map<Seq<char>, int>
    decreases s,
{
    if s.len() == 0 {
        Map::empty()
    } else {
        merge_dist(dist_of_seq(s.drop_last()), dist_of(s.last()))
    }
}

/// Merging the empty distribution changes nothing.
pub proof fn lemma_merge_empty(a: Map<Seq<char>, int>)
    ensures
        merge_dist(a, Map::empty()) == a,
        merge_dist(Map::empty(), a) == a,
{
    assert(merge_dist(a, Map::empty()) =~= a);
    assert(merge_dist(Map::empty(), a) =~= a);
}

/// Reading a merge reads both sides.
pub proof fn lemma_merge_val(a: Map<Seq<char>, int>, b: Map<Seq<char>, int>, k: Seq<char>)
    ensures
        val0(merge_dist(a, b), k) == val0(a, k) + val0(b, k),
        merge_dist(a, b).contains_key(k) == (a.contains_key(k) || b.contains_key(k)),
{
}

/// Inserting a fresh key on the right of a merge is one bump of the merge.
pub proof fn lemma_merge_insert(
    a: Map<Seq<char>, int>,
    b: Map<Seq<char>, int>,
    k: Seq<char>,
    v: int,
)
    requires
        !b.contains_key(k),
    ensures
        merge_dist(a, b.insert(k, v)) == bump_key(merge_dist(a, b), k, v),
{
    assert(merge_dist(a, b.insert(k, v)) =~= bump_key(merge_dist(a, b), k, v));
}

/// One bucket of an extension distribution.
pub struct ExtEntry {
    pub key: String,
    pub size: u64,
}

/// An extension distribution: bytes per extension key, with each key held
/// at most once.
pub struct ExtMap {
    pub entries: Vec<ExtEntry>,
}

/// The map an entry list denotes (later entries would win, but a
/// well-formed list holds each key once).
pub open spec fn entries_map(s: Seq<ExtEntry>) -> Map<Seq<char>, int>
    decreases s,
{
    if s.len() == 0 {
        Map::empty()
    } else {
        entries_map(s.drop_last()).insert(s.last().key@, s.last().size as int)
    }
}

/// Sum of all bucket sizes in an entry list.
pub open spec fn entries_total(s: Seq<ExtEntry>) -> int
    decreases s,
{
    if s.len() == 0 {
        0
    } else {
        entries_total(s.drop_last()) + s.last().size
    }
}

/// No key occurs twice.
pub open spec fn entries_distinct(s: Seq<ExtEntry>) -> bool {
    forall|i: int, j: int| 0 <= i < j < s.len() ==> s[i].key@ != s[j].key@
}

/// Some entry of `s` carries key `k`.
pub open spec fn has_key(s: Seq<ExtEntry>, k: Seq<char>) -> bool {
    exists|i: int| 0 <= i < s.len() && s[i].key@ == k
}

/// The denoted map contains exactly the listed keys.
pub proof fn lemma_entries_dom(s: Seq<ExtEntry>, k: Seq<char>)
    ensures
        entries_map(s).contains_key(k) <==> has_key(s, k),
    decreases s,
{
    if s.len() > 0 {
        let dl = s.drop_last();
        lemma_entries_dom(dl, k);
        if s.last().key@ == k {
            assert(s[s.len() - 1].key@ == k);
        } else if has_key(dl, k) {
            let i = choose|i: int| 0 <= i < dl.len() && dl[i].key@ == k;
            assert(s[i].key@ == k);
        } else if has_key(s, k) {
            let i = choose|i: int| 0 <= i < s.len() && s[i].key@ == k;
            assert(i < s.len() - 1);
            assert(dl[i].key@ == k);
        }
    }
}

/// Bucket sizes are non-negative, and each is at most the total.
pub proof fn lemma_entries_val_le_total(s: Seq<ExtEntry>, k: Seq<char>)
    ensures
        0 <= val0(entries_map(s), k),
        val0(entries_map(s), k) <= entries_total(s),
        entries_total(s) >= 0,
    decreases s,
{
    if s.len() > 0 {
        lemma_entries_val_le_total(s.drop_last(), k);
    }
}

/// In a well-formed list, the denoted map reads the listed size.
pub proof fn lemma_entries_at(s: Seq<ExtEntry>, i: int)
    requires
        entries_distinct(s),
        0 <= i < s.len(),
    ensures
        entries_map(s).contains_key(s[i].key@),
        entries_map(s)[s[i].key@] == s[i].size as int,
    decreases s,
{
    if i == s.len() - 1 {
    } else {
        let dl = s.drop_last();
        assert(dl[i] == s[i]);
        lemma_entries_at(dl, i);
        assert(s.last().key@ != s[i].key@);
    }
}

/// Splitting an entry list splits its total.
pub proof fn lemma_entries_split(s: Seq<ExtEntry>, j: int)
    requires
        0 <= j <= s.len(),
    ensures
        entries_total(s) == entries_total(s.subrange(0, j)) + entries_total(
            s.subrange(j, s.len() as int),
        ),
    decreases s.len(),
{
    if j == s.len() {
        assert(s.subrange(0, j) =~= s);
        assert(s.subrange(j, s.len() as int) =~= Seq::<ExtEntry>::empty());
    } else {
        let dl = s.drop_last();
        lemma_entries_split(dl, j);
        assert(dl.subrange(0, j) =~= s.subrange(0, j));
        assert(s.subrange(j, s.len() as int).drop_last() =~= dl.subrange(j, dl.len() as int));
        assert(s.subrange(j, s.len() as int).last() == s.last());
    }
}

/// Extending a prefix by one entry adds that entry's size.
pub proof fn lemma_entries_extend(s: Seq<ExtEntry>, j: int)
    requires
        0 <= j < s.len(),
    ensures
        entries_total(s.subrange(0, j + 1)) == entries_total(s.subrange(0, j)) + s[j].size,
        entries_map(s.subrange(0, j + 1)) == entries_map(s.subrange(0, j)).insert(
            s[j].key@,
            s[j].size as int,
        ),
{
    assert(s.subrange(0, j + 1).drop_last() =~= s.subrange(0, j));
    assert(s.subrange(0, j + 1).last() == s[j]);
}

/// Updating entry `i` to an equal-keyed entry re-points the denoted map at
/// the new size and shifts the total by the difference.
proof fn lemma_entries_update(s: Seq<ExtEntry>, i: int, e2: ExtEntry)
    requires
        entries_distinct(s),
        0 <= i < s.len(),
        e2.key@ == s[i].key@,
    ensures
        entries_map(s.update(i, e2)) == entries_map(s).insert(e2.key@, e2.size as int),
        entries_total(s.update(i, e2)) == entries_total(s) - s[i].size + e2.size,
        entries_distinct(s.update(i, e2)),
    decreases s,
{
    let su = s.update(i, e2);
    if i == s.len() - 1 {
        assert(su.drop_last() =~= s.drop_last());
        assert(su.last() == e2);
        assert(entries_map(s.drop_last()).insert(e2.key@, e2.size as int) =~= entries_map(
            s,
        ).insert(e2.key@, e2.size as int));
    } else {
        let dl = s.drop_last();
        assert(dl[i] == s[i]);
        lemma_entries_update(dl, i, e2);
        assert(su.drop_last() =~= dl.update(i, e2));
        assert(su.last() == s.last());
        assert(s.last().key@ != e2.key@);
        assert(entries_map(dl).insert(e2.key@, e2.size as int).insert(
            s.last().key@,
            s.last().size as int,
        ) =~= entries_map(s).insert(e2.key@, e2.size as int));
    }
}

impl ExtMap {
    /// Each key occurs at most once.
    pub open spec fn wf(self) -> bool {
        entries_distinct(self.entries@)
    }

    /// The distribution this value denotes.
    pub open spec fn as_map(self) -> Map<Seq<char>, int> {
        entries_map(self.entries@)
    }

    /// Sum of all bucket sizes.
    pub open spec fn total(self) -> int {
        entries_total(self.entries@)
    }

    /// The empty distribution.
    pub fn new() -> (r: ExtMap)
        ensures
            r.wf(),
            r.as_map() == Map::<Seq<char>, int>::empty(),
            r.total() == 0,
            r.entries@.len() == 0,
    {
        ExtMap { entries: Vec::new() }
    }

    /// Adds `size` bytes to the bucket for `key`, creating it if absent.
    pub fn record(&mut self, key: &str, size: u64)
        requires
            old(self).wf(),
            val0(old(self).as_map(), key@) + size <= u64::MAX,
        ensures
            final(self).wf(),
            final(self).as_map() == bump_key(old(self).as_map(), key@, size as int),
            final(self).total() == old(self).total() + size,
    {
        let n = self.entries.len();
        let mut j: usize = 0;
        while j < n
            invariant
                n == self.entries@.len(),
                j <= n,
                *self == *old(self),
                old(self).wf(),
                val0(old(self).as_map(), key@) + size <= u64::MAX,
                forall|jj: int| 0 <= jj < j ==> self.entries@[jj].key@ != key@,
            decreases n - j,
        {
            if str_eq(self.entries[j].key.as_str(), key) {
                let prev = self.entries[j].size;
                proof {
                    lemma_entries_at(self.entries@, j as int);
                }
                let e2 = ExtEntry { key: self.entries[j].key.clone(), size: prev + size };
                proof {
                    lemma_entries_update(self.entries@, j as int, e2);
                }
                self.entries.set(j, e2);
                return ;
            }
            j = j + 1;
        }
        proof {
            lemma_entries_dom(self.entries@, key@);
            lemma_entries_val_le_total(self.entries@, key@);
        }
        let e2 = ExtEntry { key: String::from_str(key), size: size };
        proof {
            assert(self.entries@.push(e2).drop_last() =~= self.entries@);
        }
        self.entries.push(e2);
    }

    /// Adds every bucket of `other` into `self`, element-wise.
    pub fn absorb(&mut self, other: &ExtMap)
        requires
            old(self).wf(),
            other.wf(),
            old(self).total() + other.total() <= u64::MAX,
            old(self).total() >= 0,
        ensures
            final(self).wf(),
            final(self).as_map() == merge_dist(old(self).as_map(), other.as_map()),
            final(self).total() == old(self).total() + other.total(),
    {
        let n = other.entries.len();
        let mut i: usize = 0;
        proof {
            lemma_merge_empty(old(self).as_map());
            assert(other.entries@.subrange(0, 0) =~= Seq::<ExtEntry>::empty());
        }
        while i < n
            invariant
                n == other.entries@.len(),
                i <= n,
                other.wf(),
                self.wf(),
                old(self).total() >= 0,
                old(self).total() + other.total() <= u64::MAX,
                self.as_map() == merge_dist(
                    old(self).as_map(),
                    entries_map(other.entries@.subrange(0, i as int)),
                ),
                self.total() == old(self).total() + entries_total(
                    other.entries@.subrange(0, i as int),
                ),
            decreases n - i,
        {
            let sz = other.entries[i].size;
            proof {
                let oe = other.entries@;
                let pre = oe.subrange(0, i as int);
                lemma_entries_val_le_total(pre, oe[i as int].key@);
                lemma_merge_val(old(self).as_map(), entries_map(pre), oe[i as int].key@);
                lemma_entries_val_le_total(old(self).entries@, oe[i as int].key@);
                lemma_entries_split(oe, i as int);
                lemma_entries_extend(oe, i as int);
                lemma_entries_val_le_total(oe.subrange(i as int, oe.len() as int), oe[i as int].key@);
                assert(oe.subrange(i as int, oe.len() as int).subrange(
                    1,
                    (oe.len() - i) as int,
                ) =~= oe.subrange(i as int + 1, oe.len() as int));
                lemma_entries_split(oe.subrange(i as int, oe.len() as int), 1);
                let s1 = oe.subrange(i as int, oe.len() as int).subrange(0, 1);
                assert(s1.len() == 1);
                assert(s1.last() == oe[i as int]);
                assert(s1.drop_last() =~= Seq::<ExtEntry>::empty());
                assert(entries_total(Seq::<ExtEntry>::empty()) == 0);
                assert(entries_total(s1) == oe[i as int].size);
                lemma_entries_val_le_total(oe.subrange(i as int + 1, oe.len() as int), oe[i as int].key@);
                // the fresh key is not among the prefix keys
                lemma_entries_dom(pre, oe[i as int].key@);
                if has_key(pre, oe[i as int].key@) {
                    let jj = choose|jj: int| 0 <= jj < pre.len() && pre[jj].key@ == oe[i as int].key@;
                    assert(oe[jj].key@ == oe[i as int].key@);
                }
                lemma_merge_insert(
                    old(self).as_map(),
                    entries_map(pre),
                    oe[i as int].key@,
                    sz as int,
                );
            }
            self.record(other.entries[i].key.as_str(), sz);
            i = i + 1;
        }
        proof {
            assert(other.entries@.subrange(0, n as int) =~= other.entries@);
        }
    }

    /// How many distinct extension buckets the distribution holds.
    pub fn bucket_count(&self) -> (r: usize)
        ensures
            r == self.entries@.len(),
    {
        self.entries.len()
    }

    /// The size recorded under `key`, or `None` when the key has no bucket.
    pub fn lookup(&self, key: &str) -> (r: Option<u64>)
        requires
            self.wf(),
        ensures
            match r {
                Some(v) => self.as_map().contains_key(key@) && v as int == self.as_map()[key@],
                None => !self.as_map().contains_key(key@),
            },
    {
        let n = self.entries.len();
        let mut j: usize = 0;
        while j < n
            invariant
                n == self.entries@.len(),
                j <= n,
                self.wf(),
                forall|jj: int| 0 <= jj < j ==> self.entries@[jj].key@ != key@,
            decreases n - j,
        {
            if str_eq(self.entries[j].key.as_str(), key) {
                proof {
                    lemma_entries_at(self.entries@, j as int);
                }
                return Some(self.entries[j].size);
            }
            j = j + 1;
        }
        proof {
            lemma_entries_dom(self.entries@, key@);
        }
        None
    }
}

/// One bucket of a counted distribution: bytes plus the number of
/// contributing top-level children.
pub struct DistEntry {
    pub key: String,
    pub size: u64,
    pub count: u64,
}

/// A counted extension distribution, as a scan reports it: for each key,
/// total bytes and the number of immediate children that contributed.
pub struct Distribution {
    pub entries: Vec<DistEntry>,
}

/// The size map a counted entry list denotes.
pub open spec fn dentries_smap(s: Seq<DistEntry>) -> Map<Seq<char>, int>
    decreases s,
{
    if s.len() == 0 {
        Map::empty()
    } else {
        dentries_smap(s.drop_last()).insert(s.last().key@, s.last().size as int)
    }
}

/// The count map a counted entry list denotes.
pub open spec fn dentries_cmap(s: Seq<DistEntry>) -> Map<Seq<char>, int>
    decreases s,
{
    if s.len() == 0 {
        Map::empty()
    } else {
        dentries_cmap(s.drop_last()).insert(s.last().key@, s.last().count as int)
    }
}

/// Sum of all bucket sizes in a counted entry list.
pub open spec fn dentries_total(s: Seq<DistEntry>) -> int
    decreases s,
{
    if s.len() == 0 {
        0
    } else {
        dentries_total(s.drop_last()) + s.last().size
    }
}

/// No key occurs twice.
pub open spec fn dentries_distinct(s: Seq<DistEntry>) -> bool {
    forall|i: int, j: int| 0 <= i < j < s.len() ==> s[i].key@ != s[j].key@
}

/// Some entry of `s` carries key `k`.
pub open spec fn dhas_key(s: Seq<DistEntry>, k: Seq<char>) -> bool {
    exists|i: int| 0 <= i < s.len() && s[i].key@ == k
}

/// The denoted maps contain exactly the listed keys.
pub proof fn lemma_dentries_dom(s: Seq<DistEntry>, k: Seq<char>)
    ensures
        dentries_smap(s).contains_key(k) <==> dhas_key(s, k),
        dentries_cmap(s).contains_key(k) <==> dhas_key(s, k),
    decreases s,
{
    if s.len() > 0 {
        let dl = s.drop_last();
        lemma_dentries_dom(dl, k);
        if s.last().key@ == k {
            assert(s[s.len() - 1].key@ == k);
        } else if dhas_key(dl, k) {
            let i = choose|i: int| 0 <= i < dl.len() && dl[i].key@ == k;
            assert(s[i].key@ == k);
        } else if dhas_key(s, k) {
            let i = choose|i: int| 0 <= i < s.len() && s[i].key@ == k;
            assert(i < s.len() - 1);
            assert(dl[i].key@ == k);
        }
    }
}

/// Bucket sizes and counts are non-negative; sizes are bounded by the
/// total.
pub proof fn lemma_dentries_val_le_total(s: Seq<DistEntry>, k: Seq<char>)
    ensures
        0 <= val0(dentries_smap(s), k),
        val0(dentries_smap(s), k) <= dentries_total(s),
        0 <= val0(dentries_cmap(s), k),
        dentries_total(s) >= 0,
    decreases s,
{
    if s.len() > 0 {
        lemma_dentries_val_le_total(s.drop_last(), k);
    }
}

/// In a well-formed counted list, the denoted maps read the listed values.
pub proof fn lemma_dentries_at(s: Seq<DistEntry>, i: int)
    requires
        dentries_distinct(s),
        0 <= i < s.len(),
    ensures
        dentries_smap(s).contains_key(s[i].key@),
        dentries_smap(s)[s[i].key@] == s[i].size as int,
        dentries_cmap(s).contains_key(s[i].key@),
        dentries_cmap(s)[s[i].key@] == s[i].count as int,
    decreases s,
{
    if i == s.len() - 1 {
    } else {
        let dl = s.drop_last();
        assert(dl[i] == s[i]);
        lemma_dentries_at(dl, i);
        assert(s.last().key@ != s[i].key@);
    }
}

/// Updating entry `i` to an equal-keyed entry re-points both maps and
/// shifts the total by the size difference.
proof fn lemma_dentries_update(s: Seq<DistEntry>, i: int, e2: DistEntry)
    requires
        dentries_distinct(s),
        0 <= i < s.len(),
        e2.key@ == s[i].key@,
    ensures
        dentries_smap(s.update(i, e2)) == dentries_smap(s).insert(e2.key@, e2.size as int),
        dentries_cmap(s.update(i, e2)) == dentries_cmap(s).insert(e2.key@, e2.count as int),
        dentries_total(s.update(i, e2)) == dentries_total(s) - s[i].size + e2.size,
        dentries_distinct(s.update(i, e2)),
    decreases s,
{
    let su = s.update(i, e2);
    if i == s.len() - 1 {
        assert(su.drop_last() =~= s.drop_last());
        assert(su.last() == e2);
        assert(dentries_smap(s.drop_last()).insert(e2.key@, e2.size as int) =~= dentries_smap(
            s,
        ).insert(e2.key@, e2.size as int));
        assert(dentries_cmap(s.drop_last()).insert(e2.key@, e2.count as int) =~= dentries_cmap(
            s,
        ).insert(e2.key@, e2.count as int));
    } else {
        let dl = s.drop_last();
        assert(dl[i] == s[i]);
        lemma_dentries_update(dl, i, e2);
        assert(su.drop_last() =~= dl.update(i, e2));
        assert(su.last() == s.last());
        assert(s.last().key@ != e2.key@);
        assert(dentries_smap(dl).insert(e2.key@, e2.size as int).insert(
            s.last().key@,
            s.last().size as int,
        ) =~= dentries_smap(s).insert(e2.key@, e2.size as int));
        assert(dentries_cmap(dl).insert(e2.key@, e2.count as int).insert(
            s.last().key@,
            s.last().count as int,
        ) =~= dentries_cmap(s).insert(e2.key@, e2.count as int));
    }
}

/// `ones` only looks at the domain, so it factors through `insert`.
pub proof fn lemma_ones_insert(m: Map<Seq<char>, int>, k: Seq<char>, v: int)
    ensures
        ones(m.insert(k, v)) == ones(m).insert(k, 1),
{
    assert(ones(m.insert(k, v)) =~= ones(m).insert(k, 1));
}

impl Distribution {
    /// Each key occurs at most once.
    pub open spec fn wf(self) -> bool {
        dentries_distinct(self.entries@)
    }

    /// Bytes per extension key.
    pub open spec fn size_map(self) -> Map<Seq<char>, int> {
        dentries_smap(self.entries@)
    }

    /// Contributing children per extension key.
    pub open spec fn count_map(self) -> Map<Seq<char>, int> {
        dentries_cmap(self.entries@)
    }

    /// Sum of all bucket sizes.
    pub open spec fn total(self) -> int {
        dentries_total(self.entries@)
    }

    /// The empty distribution.
    pub fn new() -> (r: Distribution)
        ensures
            r.wf(),
            r.size_map() == Map::<Seq<char>, int>::empty(),
            r.count_map() == Map::<Seq<char>, int>::empty(),
            r.total() == 0,
            r.entries@.len() == 0,
    {
        Distribution { entries: Vec::new() }
    }

    /// Adds `size` bytes under `key` and tallies one more contributor.
    pub fn record(&mut self, key: &str, size: u64)
        requires
            old(self).wf(),
            val0(old(self).size_map(), key@) + size <= u64::MAX,
            val0(old(self).count_map(), key@) + 1 <= u64::MAX,
        ensures
            final(self).wf(),
            final(self).size_map() == bump_key(old(self).size_map(), key@, size as int),
            final(self).count_map() == bump_key(old(self).count_map(), key@, 1),
            final(self).total() == old(self).total() + size,
    {
        let n = self.entries.len();
        let mut j: usize = 0;
        while j < n
            invariant
                n == self.entries@.len(),
                j <= n,
                *self == *old(self),
                old(self).wf(),
                val0(old(self).size_map(), key@) + size <= u64::MAX,
                val0(old(self).count_map(), key@) + 1 <= u64::MAX,
                forall|jj: int| 0 <= jj < j ==> self.entries@[jj].key@ != key@,
            decreases n - j,
        {
            if str_eq(self.entries[j].key.as_str(), key) {
                let prev_size = self.entries[j].size;
                let prev_count = self.entries[j].count;
                proof {
                    lemma_dentries_at(self.entries@, j as int);
                }
                let e2 = DistEntry {
                    key: self.entries[j].key.clone(),
                    size: prev_size + size,
                    count: prev_count + 1,
                };
                proof {
                    lemma_dentries_update(self.entries@, j as int, e2);
                }
                self.entries.set(j, e2);
                return ;
            }
            j = j + 1;
        }
        proof {
            lemma_dentries_dom(self.entries@, key@);
            lemma_dentries_val_le_total(self.entries@, key@);
        }
        let e2 = DistEntry { key: String::from_str(key), size: size, count: 1 };
        proof {
            assert(self.entries@.push(e2).drop_last() =~= self.entries@);
        }
        self.entries.push(e2);
    }

    /// Folds one child's distribution in: its bytes are added bucket-wise
    /// and each of its keys tallies one more contributor.
    pub fn absorb_child(&mut self, other: &ExtMap)
        requires
            old(self).wf(),
            other.wf(),
            old(self).total() >= 0,
            old(self).total() + other.total() <= u64::MAX,
            forall|k: Seq<char>| val0(old(self).count_map(), k) + 1 <= u64::MAX,
        ensures
            final(self).wf(),
            final(self).size_map() == merge_dist(old(self).size_map(), other.as_map()),
            final(self).count_map() == merge_dist(old(self).count_map(), ones(other.as_map())),
            final(self).total() == old(self).total() + other.total(),
            forall|k: Seq<char>|
                val0(final(self).count_map(), k) <= val0(old(self).count_map(), k) + 1,
    {
        let n = other.entries.len();
        let mut i: usize = 0;
        proof {
            lemma_merge_empty(old(self).size_map());
            lemma_merge_empty(old(self).count_map());
            assert(other.entries@.subrange(0, 0) =~= Seq::<ExtEntry>::empty());
            assert(ones(Map::<Seq<char>, int>::empty()) =~= Map::<Seq<char>, int>::empty());
        }
        while i < n
            invariant
                n == other.entries@.len(),
                i <= n,
                other.wf(),
                self.wf(),
                old(self).wf(),
                old(self).total() >= 0,
                old(self).total() + other.total() <= u64::MAX,
                forall|k: Seq<char>| val0(old(self).count_map(), k) + 1 <= u64::MAX,
                self.size_map() == merge_dist(
                    old(self).size_map(),
                    entries_map(other.entries@.subrange(0, i as int)),
                ),
                self.count_map() == merge_dist(
                    old(self).count_map(),
                    ones(entries_map(other.entries@.subrange(0, i as int))),
                ),
                self.total() == old(self).total() + entries_total(
                    other.entries@.subrange(0, i as int),
                ),
            decreases n - i,
        {
            let sz = other.entries[i].size;
            proof {
                let oe = other.entries@;
                let k = oe[i as int].key@;
                let pre = oe.subrange(0, i as int);
                let pmap = entries_map(pre);
                // the fresh key is not among the prefix keys
                lemma_entries_dom(pre, k);
                if has_key(pre, k) {
                    let jj = choose|jj: int| 0 <= jj < pre.len() && pre[jj].key@ == k;
                    assert(oe[jj].key@ == k);
                }
                // size-overflow bound for this record call
                lemma_entries_val_le_total(pre, k);
                lemma_merge_val(old(self).size_map(), pmap, k);
                lemma_dentries_val_le_total(old(self).entries@, k);
                lemma_entries_split(oe, i as int);
                lemma_entries_split(oe.subrange(i as int, oe.len() as int), 1);
                let s1 = oe.subrange(i as int, oe.len() as int).subrange(0, 1);
                assert(s1.len() == 1);
                assert(s1.last() == oe[i as int]);
                assert(s1.drop_last() =~= Seq::<ExtEntry>::empty());
                assert(entries_total(Seq::<ExtEntry>::empty()) == 0);
                assert(entries_total(s1) == oe[i as int].size);
                assert(oe.subrange(i as int, oe.len() as int).subrange(
                    1,
                    (oe.len() - i) as int,
                ) =~= oe.subrange(i as int + 1, oe.len() as int));
                lemma_entries_val_le_total(oe.subrange(i as int + 1, oe.len() as int), k);
                // count-overflow bound for this record call
                lemma_merge_val(old(self).count_map(), ones(pmap), k);
                // step the two denoted maps forward
                lemma_entries_extend(oe, i as int);
                lemma_merge_insert(old(self).size_map(), pmap, k, sz as int);
                lemma_ones_insert(pmap, k, sz as int);
                lemma_merge_insert(old(self).count_map(), ones(pmap), k, 1);
            }
            self.record(other.entries[i].key.as_str(), sz);
            i = i + 1;
        }
        proof {
            assert(other.entries@.subrange(0, n as int) =~= other.entries@);
            assert forall|k: Seq<char>|
                val0(self.count_map(), k) <= val0(old(self).count_map(), k) + 1 by {
                lemma_merge_val(old(self).count_map(), ones(other.as_map()), k);
            }
        }
    }

    /// The stats recorded under `key`, or `None` when the key has no
    /// bucket.
    pub fn stats_for(&self, key: &str) -> (r: Option<ExtensionStats>)
        requires
            self.wf(),
        ensures
            match r {
                Some(v) => self.size_map().contains_key(key@)
                    && v.size as int == self.size_map()[key@]
                    && v.count as int == self.count_map()[key@],
                None => !self.size_map().contains_key(key@),
            },
    {
        let n = self.entries.len();
        let mut j: usize = 0;
        while j < n
            invariant
                n == self.entries@.len(),
                j <= n,
                self.wf(),
                forall|jj: int| 0 <= jj < j ==> self.entries@[jj].key@ != key@,
            decreases n - j,
        {
            if str_eq(self.entries[j].key.as_str(), key) {
                proof {
                    lemma_dentries_at(self.entries@, j as int);
                }
                return Some(
                    ExtensionStats { size: self.entries[j].size, count: self.entries[j].count },
                );
            }
            j = j + 1;
        }
        proof {
            lemma_dentries_dom(self.entries@, key@);
        }
        None
    }
}

} // verus!
