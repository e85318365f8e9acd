use vstd::prelude::*;
use crate::analysis::{count_matching, dir_pred};
use crate::collect::{deep_entry, deep_seq, shallow_seq};
use crate::fstree::FsEntry;
use crate::pattern::passes_filter;
use crate::records::spec_record;
use crate::sort::{rec_le, sorted_le};
use crate::types::{RecordModel, SortBy};

verus! {

broadcast use {vstd::prelude::Seq::group_seq_extra, vstd::seq_lib::group_to_multiset_ensures};

// ---------------------------------------------------------------------------
// Completeness of collection.
// ---------------------------------------------------------------------------

/// Every name passes the empty filter.
pub proof fn lemma_empty_filter_passes(name: Seq<char>)
    ensures
        passes_filter(name, None, None),
{
}

/// With no patterns, a shallow walk yields one record per direct child.
pub proof fn lemma_shallow_unfiltered_len(s: Seq<FsEntry>, pd: bool)
    ensures
        shallow_seq(s, pd, None, None).len() == s.len(),
    decreases s,
{
    if s.len() != 0 {
        lemma_shallow_unfiltered_len(s.drop_last(), pd);
    }
}

/// How many nodes a full unfiltered walk visits: every entry, and beneath
/// every directory all of its descendants.
pub open spec fn visit_count(e: FsEntry) -> int
    decreases e, 0int,
{
    1 + if e.is_dir {
        visit_count_seq(e.children@)
    } else {
        0
    }
}

pub open spec fn visit_count_seq(s: Seq<FsEntry>) -> int
    decreases s, 1int,
{
    if s.len() == 0 {
        0
    } else {
        visit_count_seq(s.drop_last()) + visit_count(s.last())
    }
}

/// With no patterns, a deep walk yields one record per visited node: the
/// direct children plus all their descendants.
pub proof fn lemma_deep_unfiltered_len(s: Seq<FsEntry>, pd: bool)
    ensures
        deep_seq(s, pd, None, None).len() == visit_count_seq(s),
    decreases s, 1int,
{
    if s.len() != 0 {
        lemma_deep_unfiltered_len(s.drop_last(), pd);
        lemma_deep_entry_unfiltered_len(s.last(), pd);
    }
}

pub proof fn lemma_deep_entry_unfiltered_len(e: FsEntry, pd: bool)
    ensures
        deep_entry(e, pd, None, None).len() == visit_count(e),
    decreases e, 0int,
{
    if e.is_dir {
        lemma_deep_unfiltered_len(e.children@, !e.readonly);
    }
}

/// Completeness: any record multiset a shallow unfiltered walk of `dir`
/// accounts for has exactly one record per direct child; any such deep walk
/// has one per node of the subtree.
pub proof fn lemma_collect_completeness(dir: FsEntry, out: Seq<RecordModel>, deep: bool)
    requires
        out.to_multiset() == if deep {
            deep_seq(dir.children@, !dir.readonly, None, None).to_multiset()
        } else {
            shallow_seq(dir.children@, !dir.readonly, None, None).to_multiset()
        },
    ensures
        out.len() == if deep {
            visit_count_seq(dir.children@)
        } else {
            dir.children@.len() as int
        },
{
    if deep {
        lemma_deep_unfiltered_len(dir.children@, !dir.readonly);
        let cand = deep_seq(dir.children@, !dir.readonly, None, None);
        assert(out.to_multiset().len() == out.len());
        assert(cand.to_multiset().len() == cand.len());
    } else {
        lemma_shallow_unfiltered_len(dir.children@, !dir.readonly);
        let cand = shallow_seq(dir.children@, !dir.readonly, None, None);
        assert(out.to_multiset().len() == out.len());
        assert(cand.to_multiset().len() == cand.len());
    }
}

// ---------------------------------------------------------------------------
// The sorted partition.
// ---------------------------------------------------------------------------

/// Partition invariant: in a sequence sorted by any criterion, the directory
/// records stand closed toward the front — everything before a directory is a
/// directory, so the directory positions form a contiguous prefix.
pub proof fn lemma_sorted_directory_prefix(c: SortBy, s: Seq<RecordModel>)
    requires
        sorted_le(c, s),
    ensures
        forall|i: int, j: int|
            0 <= i <= j < s.len() && (#[trigger] s[j]).is_directory ==> (
            #[trigger] s[i]).is_directory,
{
    crate::sort::lemma_sorted_dir_prefix(c, s);
}

/// Size monotonicity: in a sequence sorted by `Size`, every adjacent pair of
/// file records descends in byte size.
pub proof fn lemma_size_sort_monotone(s: Seq<RecordModel>)
    requires
        sorted_le(SortBy::Size, s),
    ensures
        forall|i: int|
            0 <= i < s.len() - 1 && !(#[trigger] s[i]).is_directory ==> s[i].size >= s[i + 1].size,
{
    assert forall|i: int|
        0 <= i < s.len() - 1 && !(#[trigger] s[i]).is_directory implies s[i].size >= s[i
        + 1].size by {
        assert(rec_le(SortBy::Size, s[i], s[i + 1]));
        lemma_sorted_directory_prefix(SortBy::Size, s);
        assert(!s[i + 1].is_directory);
    }
}

// ---------------------------------------------------------------------------
// Filter composition.
// ---------------------------------------------------------------------------

/// The filter predicate over whole entries.
pub open spec fn entry_passes(search: Option<Seq<char>>, exclude: Option<Seq<char>>) -> spec_fn(
    FsEntry,
) -> bool {
    |e: FsEntry| passes_filter(e.name@, search, exclude)
}

/// The normalizer as a function of an entry.
pub open spec fn record_of(pd: bool) -> spec_fn(FsEntry) -> RecordModel {
    |e: FsEntry| spec_record(e, pd)
}

/// Filter composition: the records of a shallow walk are exactly the records
/// of the children whose names pass the filter — a record is present if and
/// only if its entry's name fails the exclusion pattern and, when a search
/// pattern is given, matches it.
pub proof fn lemma_filter_composition(
    s: Seq<FsEntry>,
    pd: bool,
    search: Option<Seq<char>>,
    exclude: Option<Seq<char>>,
)
    ensures
        shallow_seq(s, pd, search, exclude) == s.filter(entry_passes(search, exclude)).map_values(
            record_of(pd),
        ),
    decreases s,
{
    broadcast use vstd::prelude::Seq::group_seq_extra;

    if s.len() == 0 {
        s.lemma_all_neg_filter_empty(entry_passes(search, exclude));
        assert(s.filter(entry_passes(search, exclude)) =~= Seq::<FsEntry>::empty());
        assert(shallow_seq(s, pd, search, exclude) =~= s.filter(
            entry_passes(search, exclude),
        ).map_values(record_of(pd)));
    } else {
        let rest = s.drop_last();
        lemma_filter_composition(rest, pd, search, exclude);
        assert(rest.push(s.last()) =~= s);
        assert(rest.push(s.last()).filter(entry_passes(search, exclude)) == if entry_passes(
            search,
            exclude,
        )(s.last()) {
            rest.filter(entry_passes(search, exclude)).push(s.last())
        } else {
            rest.filter(entry_passes(search, exclude))
        });
        if entry_passes(search, exclude)(s.last()) {
            assert(shallow_seq(s, pd, search, exclude) =~= s.filter(
                entry_passes(search, exclude),
            ).map_values(record_of(pd)));
        } else {
            assert(shallow_seq(s, pd, search, exclude) =~= s.filter(
                entry_passes(search, exclude),
            ).map_values(record_of(pd)));
        }
    }
}

/// The membership corollary: the record of every child whose name passes the
/// filter stands in the shallow walk's output.
pub proof fn lemma_passing_record_present(
    s: Seq<FsEntry>,
    pd: bool,
    search: Option<Seq<char>>,
    exclude: Option<Seq<char>>,
    j: int,
)
    requires
        0 <= j < s.len(),
        passes_filter(s[j].name@, search, exclude),
    ensures
        shallow_seq(s, pd, search, exclude).contains(spec_record(s[j], pd)),
{
    broadcast use vstd::prelude::Seq::group_seq_extra;

    lemma_filter_composition(s, pd, search, exclude);
    let filtered = s.filter(entry_passes(search, exclude));
    assert(entry_passes(search, exclude)(s[j]));
    assert(filtered.contains(s[j]));
    let k = choose|k: int| 0 <= k < filtered.len() && filtered[k] == s[j];
    assert(filtered.map_values(record_of(pd))[k] == spec_record(s[j], pd));
}

// ---------------------------------------------------------------------------
// Round-trip idempotence of sorting.
// ---------------------------------------------------------------------------

/// Removing one position lowers a filtered count by exactly that record's
/// contribution.
proof fn lemma_count_remove(t: Seq<RecordModel>, k: int, p: spec_fn(RecordModel) -> bool)
    requires
        0 <= k < t.len(),
    ensures
        t.filter(p).len() == t.remove(k).filter(p).len() + (if p(t[k]) {
            1int
        } else {
            0
        }),
{
    let a = t.subrange(0, k);
    let b = t.subrange(k, k + 1);
    let c = t.subrange(k + 1, t.len() as int);
    assert(t =~= (a + b) + c);
    assert(t.remove(k) =~= a + c);
    assert(((a + b) + c).filter(p) == (a + b).filter(p) + c.filter(p));
    assert((a + b).filter(p) == a.filter(p) + b.filter(p));
    assert((a + c).filter(p) == a.filter(p) + c.filter(p));
    reveal_with_fuel(Seq::filter, 2);
    assert(b.drop_last() =~= Seq::<RecordModel>::empty());
    assert(b.last() == t[k]);
    assert(Seq::<RecordModel>::empty().filter(p) =~= Seq::<RecordModel>::empty());
    assert(b.filter(p).len() == if p(t[k]) {
        1int
    } else {
        0
    });
}

/// Sequences with equal multisets agree on every filtered count.
pub proof fn lemma_count_preserved(
    s: Seq<RecordModel>,
    t: Seq<RecordModel>,
    p: spec_fn(RecordModel) -> bool,
)
    requires
        s.to_multiset() == t.to_multiset(),
    ensures
        s.filter(p).len() == t.filter(p).len(),
    decreases s.len(),
{
    broadcast use vstd::multiset::group_multiset_axioms;

    if s.len() == 0 {
        assert(s.to_multiset().len() == s.len());
        assert(t.to_multiset().len() == t.len());
        assert(t.len() == 0);
        assert(s.filter(p).len() <= s.len());
        assert(t.filter(p).len() <= t.len());
    } else {
        let x = s.last();
        let rest = s.drop_last();
        assert(s =~= rest.push(x));
        assert(rest.push(x).to_multiset() == rest.to_multiset().insert(x));
        assert(t.to_multiset().count(x) > 0);
        assert(t.contains(x));
        let k = choose|k: int| 0 <= k < t.len() && t[k] == x;
        let t2 = t.remove(k);
        assert(t2.to_multiset() == t.to_multiset().remove(x));
        assert(rest.to_multiset() =~= t2.to_multiset());
        lemma_count_preserved(rest, t2, p);
        lemma_count_remove(t, k, p);
        assert(rest.push(x).filter(p) == if p(x) {
            rest.filter(p).push(x)
        } else {
            rest.filter(p)
        });
    }
}

/// Round-trip idempotence: re-sorting an already-sorted record sequence by
/// the same criterion keeps the partition structure — the result has the same
/// length, is still ordered by the criterion, and its directories still form
/// a contiguous prefix.
pub proof fn lemma_sort_round_trip(c: SortBy, s: Seq<RecordModel>, t: Seq<RecordModel>)
    requires
        sorted_le(c, s),
        t.to_multiset() == s.to_multiset(),
        sorted_le(c, t),
    ensures
        t.len() == s.len(),
        sorted_le(c, t),
        forall|i: int, j: int|
            0 <= i <= j < t.len() && (#[trigger] t[j]).is_directory ==> (
            #[trigger] t[i]).is_directory,
        count_matching(t, dir_pred()) == count_matching(s, dir_pred()),
{
    assert(t.to_multiset().len() == t.len());
    assert(s.to_multiset().len() == s.len());
    lemma_sorted_directory_prefix(c, t);
    lemma_count_preserved(s, t, dir_pred());
}

/// Two record sequences with equal multisets hold exactly the same records:
/// what collection returns contains a record if and only if the walk's
/// candidate sequence does.
pub proof fn lemma_same_records(out: Seq<RecordModel>, cand: Seq<RecordModel>)
    requires
        out.to_multiset() == cand.to_multiset(),
    ensures
        forall|r: RecordModel| out.contains(r) <==> cand.contains(r),
{
    assert forall|r: RecordModel| out.contains(r) <==> cand.contains(r) by {
        assert(out.contains(r) <==> out.to_multiset().count(r) > 0);
        assert(cand.contains(r) <==> cand.to_multiset().count(r) > 0);
    }
}

/// The deep-walk membership corollary: a direct child whose name passes the
/// filter contributes its record to the deep walk's output.
pub proof fn lemma_deep_passing_record_present(
    s: Seq<FsEntry>,
    pd: bool,
    search: Option<Seq<char>>,
    exclude: Option<Seq<char>>,
    j: int,
)
    requires
        0 <= j < s.len(),
        passes_filter(s[j].name@, search, exclude),
    ensures
        deep_seq(s, pd, search, exclude).contains(spec_record(s[j], pd)),
    decreases s.len(),
{
    let whole = deep_seq(s, pd, search, exclude);
    let prefix = deep_seq(s.drop_last(), pd, search, exclude);
    let de = deep_entry(s.last(), pd, search, exclude);
    if j == s.len() - 1 {
        assert(de[0] == spec_record(s[j], pd));
        assert(whole[prefix.len() as int] == spec_record(s[j], pd));
    } else {
        lemma_deep_passing_record_present(s.drop_last(), pd, search, exclude, j);
        let k = choose|k: int| 0 <= k < prefix.len() && prefix[k] == spec_record(
            s.drop_last()[j],
            pd,
        );
        assert(whole[k] == spec_record(s[j], pd));
    }
}

} // verus!

