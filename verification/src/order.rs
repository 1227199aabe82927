//! Response shaping: sorting scan results and directory listings, and
//! filtering entries by name. Callers sort as they need; the scan itself
//! promises no order.

use vstd::prelude::*;
use vstd::string::*;

use crate::models::FileStats;
use crate::strings::{lower_of, lowercase, starts_with_at};

verus! {

/// Lexicographic order on character sequences, by scalar value. For the
/// names compared here this coincides with the byte order of their UTF-8
/// encodings.
pub open spec fn str_le(a: Seq<char>, b: Seq<char>) -> bool
    decreases a.len(),
{
    if a.len() == 0 {
        true
    } else if b.len() == 0 {
        false
    } else if (a[0] as u32) < (b[0] as u32) {
        true
    } else if (a[0] as u32) > (b[0] as u32) {
        false
    } else {
        str_le(a.drop_first(), b.drop_first())
    }
}

/// The order is total.
pub proof fn lemma_str_le_total(a: Seq<char>, b: Seq<char>)
    ensures
        str_le(a, b) || str_le(b, a),
    decreases a.len(),
{
    if a.len() > 0 && b.len() > 0 && (a[0] as u32) == (b[0] as u32) {
        lemma_str_le_total(a.drop_first(), b.drop_first());
    }
}

/// The order is transitive.
pub proof fn lemma_str_le_trans(a: Seq<char>, b: Seq<char>, c: Seq<char>)
    requires
        str_le(a, b),
        str_le(b, c),
    ensures
        str_le(a, c),
    decreases a.len(),
{
    if a.len() > 0 && b.len() > 0 && c.len() > 0 && (a[0] as u32) == (b[0] as u32) && (
    b[0] as u32) == (c[0] as u32) {
        lemma_str_le_trans(a.drop_first(), b.drop_first(), c.drop_first());
    }
}

/// Compares two strings in the `str_le` order.
pub fn str_le_str(a: &str, b: &str) -> (r: bool)
    ensures
        r == str_le(a@, b@),
{
    let alen = a.unicode_len();
    let blen = b.unicode_len();
    let mut i: usize = 0;
    proof {
        assert(a@.subrange(0, alen as int) =~= a@);
        assert(b@.subrange(0, blen as int) =~= b@);
    }
    #[verifier::loop_isolation(false)]
    while i < alen && i < blen
        invariant
            i <= alen,
            i <= blen,
            str_le(a@, b@) == str_le(
                a@.subrange(i as int, alen as int),
                b@.subrange(i as int, blen as int),
            ),
        decreases alen - i,
    {
        let ca = a.get_char(i);
        let cb = b.get_char(i);
        let ghost sufa = a@.subrange(i as int, alen as int);
        let ghost sufb = b@.subrange(i as int, blen as int);
        proof {
            assert(sufa[0] == ca);
            assert(sufb[0] == cb);
        }
        if (ca as u32) < (cb as u32) {
            return true;
        }
        if (ca as u32) > (cb as u32) {
            return false;
        }
        proof {
            assert(sufa.drop_first() =~= a@.subrange(i + 1, alen as int));
            assert(sufb.drop_first() =~= b@.subrange(i + 1, blen as int));
        }
        i = i + 1;
    }
    proof {
        if i >= alen {
            assert(a@.subrange(i as int, alen as int).len() == 0);
        } else {
            assert(b@.subrange(i as int, blen as int).len() == 0);
            assert(a@.subrange(i as int, alen as int).len() > 0);
        }
    }
    i >= alen
}

/// The column a listing is ordered by.
#[derive(Clone, Copy, Debug, PartialEq, Eq, Structural)]
pub enum SortColumn {
    Name,
    Size,
    Count,
    Modified,
}

/// Ascending comparison of two entries under a column.
pub open spec fn column_le(column: SortColumn, a: FileStats, b: FileStats) -> bool {
    match column {
        SortColumn::Name => str_le(a.name@, b.name@),
        SortColumn::Size => a.size <= b.size,
        SortColumn::Count => a.file_count <= b.file_count,
        SortColumn::Modified => a.modified <= b.modified,
    }
}

/// The listing order: the column's order, reversed when descending.
pub open spec fn key_le(column: SortColumn, descending: bool, a: FileStats, b: FileStats) -> bool {
    if descending {
        column_le(column, b, a)
    } else {
        column_le(column, a, b)
    }
}

/// The listing order is total.
pub proof fn lemma_key_le_total(column: SortColumn, descending: bool, a: FileStats, b: FileStats)
    ensures
        key_le(column, descending, a, b) || key_le(column, descending, b, a),
{
    if column is Name {
        lemma_str_le_total(a.name@, b.name@);
    }
}

/// The listing order is transitive.
pub proof fn lemma_key_le_trans(
    column: SortColumn,
    descending: bool,
    a: FileStats,
    b: FileStats,
    c: FileStats,
)
    requires
        key_le(column, descending, a, b),
        key_le(column, descending, b, c),
    ensures
        key_le(column, descending, a, c),
{
    if column is Name {
        if descending {
            lemma_str_le_trans(c.name@, b.name@, a.name@);
        } else {
            lemma_str_le_trans(a.name@, b.name@, c.name@);
        }
    }
}

/// Compares two entries in the listing order.
fn file_le(column: SortColumn, descending: bool, a: &FileStats, b: &FileStats) -> (r: bool)
    ensures
        r == key_le(column, descending, *a, *b),
{
    let (x, y) = if descending {
        (b, a)
    } else {
        (a, b)
    };
    match column {
        SortColumn::Name => str_le_str(x.name.as_str(), y.name.as_str()),
        SortColumn::Size => x.size <= y.size,
        SortColumn::Count => x.file_count <= y.file_count,
        SortColumn::Modified => x.modified <= y.modified,
    }
}

/// Every pair of positions respects the listing order.
pub open spec fn sorted_by(column: SortColumn, descending: bool, s: Seq<FileStats>) -> bool {
    forall|i: int, j: int|
        0 <= i < j < s.len() ==> key_le(column, descending, #[trigger] s[i], #[trigger] s[j])
}

/// Sorts a listing by the given column and direction: the result holds
/// the same entries (as a multiset) in the listing order.
pub fn sort_files(v: &Vec<FileStats>, column: SortColumn, descending: bool) -> (r: Vec<FileStats>)
    ensures
        r@.len() == v@.len(),
        r@.to_multiset() == v@.to_multiset(),
        sorted_by(column, descending, r@),
{
    broadcast use vstd::seq_lib::to_multiset_insert;
    broadcast use vstd::seq_lib::group_to_multiset_ensures;

    let mut out: Vec<FileStats> = Vec::new();
    let n = v.len();
    let mut i: usize = 0;
    proof {
        assert(v@.subrange(0, 0) =~= Seq::<FileStats>::empty());
    }
    #[verifier::loop_isolation(false)]
    while i < n
        invariant
            i <= n,
            out@.len() == i,
            out@.to_multiset() == v@.subrange(0, i as int).to_multiset(),
            sorted_by(column, descending, out@),
        decreases n - i,
    {
        let x = v[i].clone();
        let m = out.len();
        let mut j: usize = 0;
        while j < m
            invariant
                j <= m,
                m == out@.len(),
                forall|t: int| 0 <= t < j ==> key_le(column, descending, #[trigger] out@[t], x),
            ensures
                j <= m,
                forall|t: int| 0 <= t < j ==> key_le(column, descending, #[trigger] out@[t], x),
                j < m ==> !key_le(column, descending, out@[j as int], x),
            decreases m - j,
        {
            if !file_le(column, descending, &out[j], &x) {
                break ;
            }
            j = j + 1;
        }
        proof {
            if j < out@.len() {
                lemma_key_le_total(column, descending, out@[j as int], x);
            }
            assert forall|t: int| j <= t < out@.len() implies key_le(
                column,
                descending,
                x,
                #[trigger] out@[t],
            ) by {
                if j < t {
                    lemma_key_le_trans(column, descending, x, out@[j as int], out@[t]);
                }
            }
        }
        let ghost out_before = out@;
        out.insert(j, x);
        proof {
            assert(out@ == out_before.insert(j as int, x));
            assert(v@.subrange(0, i as int).push(v@[i as int]) =~= v@.subrange(0, i + 1));
            assert forall|p: int, q: int| 0 <= p < q < out@.len() implies key_le(
                column,
                descending,
                #[trigger] out@[p],
                #[trigger] out@[q],
            ) by {
                lemma_key_le_total(column, descending, out@[p], out@[q]);
            }
        }
        i = i + 1;
    }
    proof {
        assert(v@.subrange(0, n as int) =~= v@);
    }
    out
}

/// Every pair of positions respects the case-insensitive name order.
pub open spec fn sorted_names(s: Seq<String>) -> bool {
    forall|i: int, j: int|
        0 <= i < j < s.len() ==> str_le(lower_of((#[trigger] s[i])@), lower_of((#[trigger] s[j])@))
}

/// Compares two names case-insensitively.
fn name_le(a: &String, b: &String) -> (r: bool)
    ensures
        r == str_le(lower_of(a@), lower_of(b@)),
{
    let la = lowercase(a.as_str());
    let lb = lowercase(b.as_str());
    str_le_str(la.as_str(), lb.as_str())
}

/// Sorts directory names case-insensitively: the result holds the same
/// names (as a multiset), ordered by their lowercase forms.
pub fn sort_names(v: &Vec<String>) -> (r: Vec<String>)
    ensures
        r@.len() == v@.len(),
        r@.to_multiset() == v@.to_multiset(),
        sorted_names(r@),
{
    broadcast use vstd::seq_lib::to_multiset_insert;
    broadcast use vstd::seq_lib::group_to_multiset_ensures;

    let mut out: Vec<String> = Vec::new();
    let n = v.len();
    let mut i: usize = 0;
    proof {
        assert(v@.subrange(0, 0) =~= Seq::<String>::empty());
    }
    #[verifier::loop_isolation(false)]
    while i < n
        invariant
            i <= n,
            out@.len() == i,
            out@.to_multiset() == v@.subrange(0, i as int).to_multiset(),
            sorted_names(out@),
        decreases n - i,
    {
        let x = v[i].clone();
        let m = out.len();
        let mut j: usize = 0;
        while j < m
            invariant
                j <= m,
                m == out@.len(),
                forall|t: int| 0 <= t < j ==> str_le(lower_of((#[trigger] out@[t])@), lower_of(x@)),
            ensures
                j <= m,
                forall|t: int| 0 <= t < j ==> str_le(lower_of((#[trigger] out@[t])@), lower_of(x@)),
                j < m ==> !str_le(lower_of(out@[j as int]@), lower_of(x@)),
            decreases m - j,
        {
            if !name_le(&out[j], &x) {
                break ;
            }
            j = j + 1;
        }
        proof {
            if j < out@.len() {
                lemma_str_le_total(lower_of(out@[j as int]@), lower_of(x@));
            }
            assert forall|t: int| j <= t < out@.len() implies str_le(
                lower_of(x@),
                lower_of((#[trigger] out@[t])@),
            ) by {
                if j < t {
                    lemma_str_le_trans(
                        lower_of(x@),
                        lower_of(out@[j as int]@),
                        lower_of(out@[t]@),
                    );
                }
            }
        }
        let ghost out_before = out@;
        out.insert(j, x);
        proof {
            assert(out@ == out_before.insert(j as int, x));
            assert(v@.subrange(0, i as int).push(v@[i as int]) =~= v@.subrange(0, i + 1));
            assert forall|p: int, q: int| 0 <= p < q < out@.len() implies str_le(
                lower_of((#[trigger] out@[p])@),
                lower_of((#[trigger] out@[q])@),
            ) by {
                lemma_str_le_total(lower_of(out@[p]@), lower_of(out@[q]@));
            }
        }
        i = i + 1;
    }
    proof {
        assert(v@.subrange(0, n as int) =~= v@);
    }
    out
}

/// `needle` occurs contiguously in `hay`.
pub open spec fn seq_contains_sub(hay: Seq<char>, needle: Seq<char>) -> bool {
    exists|i: int|
        0 <= i && i + needle.len() <= hay.len() && #[trigger] hay.subrange(i, i + needle.len())
            == needle
}

/// Whether `needle` occurs in `hay`.
pub fn contains_str(hay: &str, needle: &str) -> (r: bool)
    ensures
        r == seq_contains_sub(hay@, needle@),
{
    let hlen = hay.unicode_len();
    let nlen = needle.unicode_len();
    if nlen > hlen {
        proof {
            assert(!seq_contains_sub(hay@, needle@));
        }
        return false;
    }
    if nlen == 0 {
        proof {
            assert(seq_contains_sub(hay@, needle@)) by {
                assert(hay@.subrange(0, 0 + needle@.len() as int) =~= needle@);
            }
        }
        return true;
    }
    let limit = hlen - nlen;
    let mut i: usize = 0;
    #[verifier::loop_isolation(false)]
    while i <= limit
        invariant
            i <= limit + 1,
            forall|t: int|
                0 <= t < i ==> #[trigger] hay@.subrange(t, t + needle@.len()) != needle@,
        decreases limit + 1 - i,
    {
        if starts_with_at(hay, needle, i) {
            proof {
                assert(hay@.subrange(i as int, i + needle@.len()) =~= hay@.subrange(
                    i as int,
                    hlen as int,
                ).subrange(0, needle@.len() as int));
            }
            return true;
        }
        proof {
            assert(hay@.subrange(i as int, i + needle@.len()) =~= hay@.subrange(
                i as int,
                hlen as int,
            ).subrange(0, needle@.len() as int));
        }
        i = i + 1;
    }
    proof {
        assert forall|t: int|
            0 <= t && t + needle@.len() <= hay@.len() implies #[trigger] hay@.subrange(
            t,
            t + needle@.len(),
        ) != needle@ by {
            assert(t < i);
        }
    }
    false
}

/// An entry passes the filter when the filter is empty or its lowercase
/// name contains the lowercase filter text.
pub open spec fn keeps(f: FileStats, filter: Seq<char>) -> bool {
    filter.len() == 0 || seq_contains_sub(lower_of(f.name@), lower_of(filter))
}

/// The subsequence of entries that pass the filter, in order.
pub open spec fn filter_spec(src: Seq<FileStats>, filter: Seq<char>) -> Seq<FileStats>
    decreases src.len(),
{
    if src.len() == 0 {
        Seq::<FileStats>::empty()
    } else {
        filter_spec(src.drop_last(), filter) + (if keeps(src.last(), filter) {
            seq![src.last()]
        } else {
            Seq::<FileStats>::empty()
        })
    }
}

/// Keeps the entries whose name matches the filter text,
/// case-insensitively; an empty filter keeps everything.
pub fn filter_files(files: &Vec<FileStats>, filter: &str) -> (r: Vec<FileStats>)
    ensures
        r@ == filter_spec(files@, filter@),
{
    let lfilter = lowercase(filter);
    let flen = filter.unicode_len();
    let mut out: Vec<FileStats> = Vec::new();
    let n = files.len();
    let mut i: usize = 0;
    proof {
        assert(files@.subrange(0, 0) =~= Seq::<FileStats>::empty());
    }
    #[verifier::loop_isolation(false)]
    while i < n
        invariant
            i <= n,
            lfilter@ == lower_of(filter@),
            out@ == filter_spec(files@.subrange(0, i as int), filter@),
        decreases n - i,
    {
        let kept = if flen == 0 {
            true
        } else {
            let lname = lowercase(files[i].name.as_str());
            contains_str(lname.as_str(), lfilter.as_str())
        };
        if kept {
            out.push(files[i].clone());
        }
        proof {
            let pre1 = files@.subrange(0, i + 1);
            assert(pre1.drop_last() =~= files@.subrange(0, i as int));
            assert(pre1.last() == files@[i as int]);
            if kept {
                assert(filter_spec(files@.subrange(0, i as int), filter@) + seq![
                    files@[i as int],
                ] =~= out@);
            } else {
                assert(filter_spec(files@.subrange(0, i as int), filter@) + Seq::<
                    FileStats,
                >::empty() =~= out@);
            }
        }
        i = i + 1;
    }
    proof {
        assert(files@.subrange(0, n as int) =~= files@);
    }
    out
}

} // verus!
