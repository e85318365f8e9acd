use vstd::prelude::*;
use crate::text::{lemma_lex_total, lemma_lex_trans, lex_le, str_lex_le};
use crate::types::{models, FileInfo, RecordModel, SortBy};

verus! {

broadcast use vstd::seq_lib::group_to_multiset_ensures;

/// The criterion actually applied: no criterion behaves as `Name`.
pub open spec fn criterion_of(sort_by: Option<SortBy>) -> SortBy {
    match sort_by {
        Some(c) => c,
        None => SortBy::Name,
    }
}

/// The modification-date sort key: the formatted timestamp when present,
/// the empty string otherwise (which sorts last among descending dates).
pub open spec fn date_key(r: RecordModel) -> Seq<char> {
    match r.modified {
        Some(s) => s,
        None => Seq::empty(),
    }
}

/// The ordering one sort criterion induces: directories always partition
/// ahead of files; within either partition, names ascend, sizes descend,
/// or date strings descend.
pub open spec fn rec_le(c: SortBy, a: RecordModel, b: RecordModel) -> bool {
    if a.is_directory != b.is_directory {
        a.is_directory
    } else {
        match c {
            SortBy::Name => lex_le(a.name, b.name),
            SortBy::Size => b.size <= a.size,
            SortBy::Date => lex_le(date_key(b), date_key(a)),
        }
    }
}

/// A record sequence is sorted when every pair of positions respects the
/// criterion's ordering.
pub open spec fn sorted_le(c: SortBy, s: Seq<RecordModel>) -> bool {
    forall|i: int, j: int| 0 <= i <= j < s.len() ==> rec_le(c, s[i], s[j])
}

/// The directory records form a contiguous prefix: everything before a
/// directory record is itself a directory record.
pub open spec fn dir_prefix(s: Seq<RecordModel>) -> bool {
    forall|i: int, j: int|
        0 <= i <= j < s.len() && (#[trigger] s[j]).is_directory ==> (#[trigger] s[i]).is_directory
}

/// Any two records are comparable under any criterion.
pub proof fn lemma_rec_le_total(c: SortBy, a: RecordModel, b: RecordModel)
    ensures
        rec_le(c, a, b) || rec_le(c, b, a),
{
    if a.is_directory == b.is_directory {
        match c {
            SortBy::Name => lemma_lex_total(a.name, b.name),
            SortBy::Size => {},
            SortBy::Date => lemma_lex_total(date_key(a), date_key(b)),
        }
    }
}

/// The ordering is transitive.
pub proof fn lemma_rec_le_trans(c: SortBy, a: RecordModel, b: RecordModel, d: RecordModel)
    requires
        rec_le(c, a, b),
        rec_le(c, b, d),
    ensures
        rec_le(c, a, d),
{
    if a.is_directory == b.is_directory && b.is_directory == d.is_directory {
        match c {
            SortBy::Name => lemma_lex_trans(a.name, b.name, d.name),
            SortBy::Size => {},
            SortBy::Date => lemma_lex_trans(date_key(d), date_key(b), date_key(a)),
        }
    }
}

/// Executable comparison of two records under a criterion.
fn record_le(c: SortBy, a: &FileInfo, b: &FileInfo) -> (r: bool)
    ensures
        r == rec_le(c, a@, b@),
{
    if a.is_directory != b.is_directory {
        a.is_directory
    } else {
        match c {
            SortBy::Name => str_lex_le(a.name.as_str(), b.name.as_str()),
            SortBy::Size => b.size <= a.size,
            SortBy::Date => {
                proof {
                    reveal_strlit("");
                    assert(""@ =~= Seq::<char>::empty());
                }
                let ad = match &a.modified {
                    Some(s) => s.as_str(),
                    None => "",
                };
                let bd = match &b.modified {
                    Some(s) => s.as_str(),
                    None => "",
                };
                str_lex_le(bd, ad)
            },
        }
    }
}

/// Sorts records in place: directories ahead of files, and within either
/// partition ascending names, descending sizes, or descending modification
/// dates; no criterion sorts by name. The records themselves are exactly
/// those given, reordered.
pub fn sort_records(files: &mut Vec<FileInfo>, sort_by: Option<SortBy>)
    ensures
        final(files)@.len() == old(files)@.len(),
        models(final(files)@).to_multiset() == models(old(files)@).to_multiset(),
        sorted_le(criterion_of(sort_by), models(final(files)@)),
        dir_prefix(models(final(files)@)),
{
    let c = match sort_by {
        Some(c) => c,
        None => SortBy::Name,
    };
    let n = files.len();
    if n == 0 {
        return ;
    }

    proof {
        let m = models(files@);
        assert forall|a: int, b: int| 0 <= a <= b < 1 implies rec_le(
            c,
            m.take(1)[a],
            m.take(1)[b],
        ) by {
            lemma_rec_le_total(c, m[0], m[0]);
        }
        assert(sorted_le(c, m.take(1)));
    }
    let mut i: usize = 1;
    while i < n
        invariant
            1 <= i <= n,
            n == files@.len(),
            models(files@).to_multiset() == models(old(files)@).to_multiset(),
            sorted_le(c, models(files@).take(i as int)),
            c == criterion_of(sort_by),
        decreases n - i,
    {
        let ghost pre = files@;
        let x = files.remove(i);
        let ghost cur = files@;
        proof {
            assert(models(cur) =~= models(pre).remove(i as int));
            vstd::seq_lib::to_multiset_remove(models(pre), i as int);
            assert(models(cur).take(i as int) =~= models(pre).take(i as int));
        }
        let mut j: usize = 0;
        while j < i && record_le(c, &files[j], &x)
            invariant
                j <= i,
                i < n,
                n == files@.len() + 1,
                files@ == cur,
                x@ == models(pre)[i as int],
                forall|k: int| 0 <= k < j ==> rec_le(c, models(cur)[k], x@),
            decreases i - j,
        {
            j = j + 1;
        }
        proof {
            if j < i {
                lemma_rec_le_total(c, models(cur)[j as int], x@);
                assert(rec_le(c, x@, models(cur)[j as int]));
            }
        }
        files.insert(j, x);
        proof {
            let post = files@;
            assert(models(post) =~= models(cur).insert(j as int, x@));
            vstd::seq_lib::to_multiset_insert(models(cur), j as int, x@);
            vstd::seq_lib::to_multiset_remove(models(pre), i as int);
            assert(models(pre).contains(models(pre)[i as int]));
            assert(models(post).to_multiset() =~= models(pre).to_multiset());
            // The new prefix of length i + 1 is sorted: positions below j kept
            // their order and lie at or before x, and x lies at or before every
            // displaced position, by totality at j and transitivity beyond it.
            let mp = models(post).take(i as int + 1);
            let prefix = models(cur).take(i as int);
            assert(sorted_le(c, prefix));
            assert(forall|k: int| 0 <= k < j ==> mp[k] == prefix[k]);
            assert(forall|k: int| j < k <= i ==> mp[k] == prefix[k - 1]);
            assert(mp[j as int] == x@);
            assert forall|k: int| j < k <= i implies rec_le(c, x@, mp[k]) by {
                if j < i {
                    assert(rec_le(c, x@, prefix[j as int]));
                    assert(rec_le(c, prefix[j as int], prefix[k - 1]));
                    lemma_rec_le_trans(c, x@, prefix[j as int], prefix[k - 1]);
                }
            }
            assert forall|a: int, b: int| 0 <= a <= b < mp.len() implies rec_le(
                c,
                mp[a],
                mp[b],
            ) by {
                if b < j {
                    assert(rec_le(c, prefix[a], prefix[b]));
                } else if b == j {
                    if a < j {
                        assert(rec_le(c, prefix[a], x@));
                    } else {
                        lemma_rec_le_total(c, x@, x@);
                    }
                } else {
                    if a < j {
                        assert(rec_le(c, prefix[a], prefix[b - 1]));
                    } else if a == j {
                        assert(rec_le(c, x@, mp[b]));
                    } else {
                        assert(rec_le(c, prefix[a - 1], prefix[b - 1]));
                    }
                }
            }
            assert(sorted_le(c, models(post).take(i as int + 1)));
        }
        i = i + 1;
    }
    proof {
        assert(models(files@).take(n as int) =~= models(files@));
        lemma_sorted_dir_prefix(c, models(files@));
    }
}

/// Sortedness under any criterion forces the directory partition to the
/// front: a file record can never precede a directory record.
pub proof fn lemma_sorted_dir_prefix(c: SortBy, s: Seq<RecordModel>)
    requires
        sorted_le(c, s),
    ensures
        dir_prefix(s),
{
    assert forall|i: int, j: int|
        0 <= i <= j < s.len() && (#[trigger] s[j]).is_directory implies (
    #[trigger] s[i]).is_directory by {
        assert(rec_le(c, s[i], s[j]));
    }
}

} // verus!
