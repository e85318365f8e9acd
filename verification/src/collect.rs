use vstd::prelude::*;
use crate::fstree::FsEntry;
use crate::pattern::{excluded, is_excluded, opt_view, passes_filter, search_matches, search_ok};
use crate::records::{make_record, spec_record};
use crate::sort::{criterion_of, dir_prefix, sort_records, sorted_le};
use crate::types::{models, FileInfo, RecordModel, SortBy};

verus! {

/// The records a shallow walk yields before sorting: one record for each
/// direct child whose name passes the filter, in enumeration order, each
/// normalized against the parent's writability.
pub open spec fn shallow_seq(
    s: Seq<FsEntry>,
    parent_deletable: bool,
    search: Option<Seq<char>>,
    exclude: Option<Seq<char>>,
) -> Seq<RecordModel>
    decreases s,
{
    if s.len() == 0 {
        Seq::empty()
    } else {
        shallow_seq(s.drop_last(), parent_deletable, search, exclude) + (if passes_filter(
            s.last().name@,
            search,
            exclude,
        ) {
            seq![spec_record(s.last(), parent_deletable)]
        } else {
            Seq::empty()
        })
    }
}

/// The records a deep walk yields for one visited node: nothing at all for an
/// excluded name (exclusion prunes the whole subtree), otherwise the node's
/// own record when the search pattern selects it, followed by the records of
/// everything beneath it when it is a directory.
pub open spec fn deep_entry(
    e: FsEntry,
    parent_deletable: bool,
    search: Option<Seq<char>>,
    exclude: Option<Seq<char>>,
) -> Seq<RecordModel>
    decreases e, 0int,
{
    if excluded(e.name@, exclude) {
        Seq::empty()
    } else {
        (if match search {
            Some(p) => search_matches(e.name@, p),
            None => true,
        } {
            seq![spec_record(e, parent_deletable)]
        } else {
            Seq::empty()
        }) + (if e.is_dir {
            deep_seq(e.children@, !e.readonly, search, exclude)
        } else {
            Seq::empty()
        })
    }
}

/// The records a deep walk yields for a sequence of siblings, in order.
pub open spec fn deep_seq(
    s: Seq<FsEntry>,
    parent_deletable: bool,
    search: Option<Seq<char>>,
    exclude: Option<Seq<char>>,
) -> Seq<RecordModel>
    decreases s, 1int,
{
    if s.len() == 0 {
        Seq::empty()
    } else {
        deep_seq(s.drop_last(), parent_deletable, search, exclude) + deep_entry(
            s.last(),
            parent_deletable,
            search,
            exclude,
        )
    }
}

/// Collects the direct children of `dir` that pass the filter, normalized
/// and sorted: the records are exactly those of the matching children, and
/// they come back ordered by the criterion, directories first.
pub fn collect_files(
    dir: &FsEntry,
    search_pattern: Option<&String>,
    excluding_pattern: Option<&String>,
    sort_by: Option<SortBy>,
) -> (files: Vec<FileInfo>)
    ensures
        models(files@).to_multiset() == shallow_seq(
            dir.children@,
            !dir.readonly,
            opt_view(search_pattern),
            opt_view(excluding_pattern),
        ).to_multiset(),
        sorted_le(criterion_of(sort_by), models(files@)),
        dir_prefix(models(files@)),
{
    let ghost sv = opt_view(search_pattern);
    let ghost ev = opt_view(excluding_pattern);
    let mut files: Vec<FileInfo> = Vec::new();
    let pd = !dir.readonly;
    let n = dir.children.len();
    let mut i: usize = 0;
    while i < n
        invariant
            i <= n,
            n == dir.children@.len(),
            pd == !dir.readonly,
            sv == opt_view(search_pattern),
            ev == opt_view(excluding_pattern),
            models(files@) == shallow_seq(dir.children@.take(i as int), pd, sv, ev),
        decreases n - i,
    {
        proof {
            let pre = dir.children@.take(i as int);
            let post = dir.children@.take(i as int + 1);
            assert(post.drop_last() =~= pre);
            assert(post.last() == dir.children@[i as int]);
        }
        let c = &dir.children[i];
        let ghost pre_files = files@;
        if crate::pattern::name_matches(c.name.as_str(), search_pattern, excluding_pattern) {
            let r = make_record(c, pd);
            files.push(r);
            proof {
                assert(models(files@) =~= models(pre_files).push(r@));
                assert(models(files@) =~= shallow_seq(
                    dir.children@.take(i as int + 1),
                    pd,
                    sv,
                    ev,
                ));
            }
        } else {
            proof {
                assert(models(files@) =~= shallow_seq(
                    dir.children@.take(i as int + 1),
                    pd,
                    sv,
                    ev,
                ));
            }
        }
        i = i + 1;
    }
    proof {
        assert(dir.children@.take(n as int) =~= dir.children@);
    }
    sort_records(&mut files, sort_by);
    files
}

/// Appends the records of the whole subtree walk rooted at `d`'s children.
fn build_deep(
    d: &FsEntry,
    search_pattern: Option<&String>,
    excluding_pattern: Option<&String>,
    out: &mut Vec<FileInfo>,
)
    ensures
        models(final(out)@) == models(old(out)@) + deep_seq(
            d.children@,
            !d.readonly,
            opt_view(search_pattern),
            opt_view(excluding_pattern),
        ),
    decreases *d,
{
    let ghost sv = opt_view(search_pattern);
    let ghost ev = opt_view(excluding_pattern);
    let pd = !d.readonly;
    let n = d.children.len();
    let mut i: usize = 0;
    while i < n
        invariant
            i <= n,
            n == d.children@.len(),
            pd == !d.readonly,
            sv == opt_view(search_pattern),
            ev == opt_view(excluding_pattern),
            models(out@) == models(old(out)@) + deep_seq(
                d.children@.take(i as int),
                pd,
                sv,
                ev,
            ),
        decreases n - i,
    {
        proof {
            let pre = d.children@.take(i as int);
            let post = d.children@.take(i as int + 1);
            assert(post.drop_last() =~= pre);
            assert(post.last() == d.children@[i as int]);
        }
        let c = &d.children[i];
        let ghost pre_out = out@;
        if !is_excluded(c.name.as_str(), excluding_pattern) {
            if search_ok(c.name.as_str(), search_pattern) {
                let r = make_record(c, pd);
                out.push(r);
                proof {
                    assert(models(out@) =~= models(pre_out).push(r@));
                }
            }
            let ghost mid_out = out@;
            if c.is_dir {
                build_deep(c, search_pattern, excluding_pattern, out);
                proof {
                    assert(models(out@) == models(mid_out) + deep_seq(
                        d.children@[i as int].children@,
                        !d.children@[i as int].readonly,
                        sv,
                        ev,
                    ));
                }
            }
            proof {
                let ce = d.children@[i as int];
                let own = if match sv {
                    Some(p) => search_matches(ce.name@, p),
                    None => true,
                } {
                    seq![spec_record(ce, pd)]
                } else {
                    Seq::<RecordModel>::empty()
                };
                let below = if ce.is_dir {
                    deep_seq(ce.children@, !ce.readonly, sv, ev)
                } else {
                    Seq::<RecordModel>::empty()
                };
                assert(deep_entry(ce, pd, sv, ev) == own + below);
                assert(models(out@) =~= models(old(out)@) + deep_seq(
                    d.children@.take(i as int),
                    pd,
                    sv,
                    ev,
                ) + own + below);
                assert(models(out@) =~= models(old(out)@) + deep_seq(
                    d.children@.take(i as int + 1),
                    pd,
                    sv,
                    ev,
                ));
            }
        } else {
            proof {
                assert(deep_entry(d.children@[i as int], pd, sv, ev) =~= Seq::<
                    RecordModel,
                >::empty());
                assert(models(out@) =~= models(old(out)@) + deep_seq(
                    d.children@.take(i as int + 1),
                    pd,
                    sv,
                    ev,
                ));
            }
        }
        i = i + 1;
    }
    proof {
        assert(d.children@.take(n as int) =~= d.children@);
    }
}

/// Collects every entry of the whole subtree beneath `dir` that passes the
/// filter, one flat sequence normalized and sorted. Exclusion prunes descent:
/// nothing under a directory whose name matches the exclusion pattern is
/// visited. A name the search pattern rejects is not recorded, but a rejected
/// directory is still descended into.
pub fn collect_files_recursive(
    dir: &FsEntry,
    search_pattern: Option<&String>,
    excluding_pattern: Option<&String>,
    sort_by: Option<SortBy>,
) -> (files: Vec<FileInfo>)
    ensures
        models(files@).to_multiset() == deep_seq(
            dir.children@,
            !dir.readonly,
            opt_view(search_pattern),
            opt_view(excluding_pattern),
        ).to_multiset(),
        sorted_le(criterion_of(sort_by), models(files@)),
        dir_prefix(models(files@)),
{
    let mut files: Vec<FileInfo> = Vec::new();
    build_deep(dir, search_pattern, excluding_pattern, &mut files);
    proof {
        assert(models(files@) =~= deep_seq(
            dir.children@,
            !dir.readonly,
            opt_view(search_pattern),
            opt_view(excluding_pattern),
        ));
    }
    sort_records(&mut files, sort_by);
    files
}

} // verus!
