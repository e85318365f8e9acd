use vstd::prelude::*;
use crate::fstree::{gather_files, pair_models, spec_files_seq, FsEntry};
use crate::records::epoch_of;
use crate::text::contains_char;
use crate::types::{models, str_eq, FileInfo, RecordModel};

verus! {

broadcast use {vstd::prelude::Seq::group_seq_extra, vstd::seq_lib::group_to_multiset_ensures};

// ---------------------------------------------------------------------------
// Duplicate detection: group files by exact byte size, report groups of two
// or more. Size-only grouping is a heuristic kept deliberately: files of
// equal size are reported without any content comparison.
// ---------------------------------------------------------------------------

/// One reported candidate duplicate set: every path of a file whose byte size
/// is exactly `size`.
#[derive(Debug)]
pub struct DupGroup {
    pub size: u64,
    pub paths: Vec<String>,
}

/// The abstraction of a path list.
pub open spec fn path_models(v: Seq<String>) -> Seq<Seq<char>> {
    v.map_values(|s: String| s@)
}

/// The predicate selecting the size/path pairs of byte size `s`.
pub open spec fn size_pred(s: u64) -> spec_fn((u64, Seq<char>)) -> bool {
    |p: (u64, Seq<char>)| p.0 == s
}

/// The projection from a size/path pair to its path.
pub open spec fn pair_path() -> spec_fn((u64, Seq<char>)) -> Seq<char> {
    |p: (u64, Seq<char>)| p.1
}

/// The paths of the files with byte size `s`, in enumeration order.
pub open spec fn paths_of_size(fs: Seq<(u64, Seq<char>)>, s: u64) -> Seq<Seq<char>> {
    fs.filter(size_pred(s)).map_values(pair_path())
}

/// Some bucket among the first `bound` carries size `s`.
pub open spec fn bucket_before(buckets: Seq<DupGroup>, bound: int, s: u64) -> bool {
    exists|k: int| 0 <= k < bound && k < buckets.len() && (#[trigger] buckets[k]).size == s
}

/// Some group carries size `s`.
pub open spec fn group_with(groups: Seq<DupGroup>, s: u64) -> bool {
    exists|g: int| 0 <= g < groups.len() && (#[trigger] groups[g]).size == s
}

/// Copies a path list.
fn copy_paths(v: &Vec<String>) -> (r: Vec<String>)
    ensures
        r@ == v@,
{
    let mut r: Vec<String> = Vec::new();
    let mut i: usize = 0;
    while i < v.len()
        invariant
            i <= v@.len(),
            r@ == v@.take(i as int),
        decreases v@.len() - i,
    {
        r.push(v[i].clone());
        proof {
            assert(r@ =~= v@.take(i as int + 1));
        }
        i = i + 1;
    }
    proof {
        assert(v@.take(v@.len() as int) =~= v@);
    }
    r
}

/// Walks the whole subtree beneath `dir` and groups every file by exact byte
/// size: each returned group holds all the paths sharing one size, groups
/// carry distinct sizes, and a size is reported exactly when two or more
/// files share it.
#[verifier::rlimit(100)]
pub fn find_duplicates(dir: &FsEntry) -> (groups: Vec<DupGroup>)
    ensures
        ({
            let fs = spec_files_seq(dir.children@);
            &&& forall|k: int|
                0 <= k < groups@.len() ==> {
                    &&& path_models(#[trigger] groups@[k].paths@) == paths_of_size(
                        fs,
                        groups@[k].size,
                    )
                    &&& groups@[k].paths@.len() >= 2
                }
            &&& forall|k1: int, k2: int|
                0 <= k1 < k2 < groups@.len() ==> groups@[k1].size != groups@[k2].size
            &&& forall|s: u64|
                paths_of_size(fs, s).len() >= 2 ==> exists|k: int|
                    0 <= k < groups@.len() && groups@[k].size == s
        }),
{
    let ghost fs = spec_files_seq(dir.children@);
    let mut pairs: Vec<(u64, String)> = Vec::new();
    gather_files(dir, &mut pairs);
    proof {
        assert(pair_models(pairs@) =~= fs);
    }
    // Group the gathered size/path pairs: one bucket for every size seen.
    let mut buckets: Vec<DupGroup> = Vec::new();
    let n = pairs.len();
    proof {
        assert(fs.len() == n as int);
        assert(fs.take(0) =~= Seq::<(u64, Seq<char>)>::empty());
    }
    let mut i: usize = 0;
    while i < n
        invariant
            i <= n,
            n == pairs@.len(),
            pair_models(pairs@) == fs,
            forall|k: int|
                0 <= k < buckets@.len() ==> {
                    &&& path_models(#[trigger] buckets@[k].paths@) == paths_of_size(
                        fs.take(i as int),
                        buckets@[k].size,
                    )
                    &&& buckets@[k].paths@.len() >= 1
                },
            forall|k1: int, k2: int|
                0 <= k1 < k2 < buckets@.len() ==> buckets@[k1].size != buckets@[k2].size,
            forall|j: int|
                0 <= j < i ==> #[trigger] bucket_before(buckets@, buckets@.len() as int, fs[j].0),
        decreases n - i,
    {
        let sz = pairs[i].0;
        let path = pairs[i].1.clone();
        let ghost seen = fs.take(i as int);
        let ghost stepped = seen.push(fs[i as int]);
        proof {
            assert(fs[i as int] == (pairs@[i as int].0, pairs@[i as int].1@));
            assert(stepped =~= fs.take(i as int + 1));
        }
        // Look for the bucket of this size.
        let m = buckets.len();
        let mut j: usize = 0;
        while j < m && buckets[j].size != sz
            invariant
                j <= m,
                m == buckets@.len(),
                forall|kk: int| 0 <= kk < j ==> buckets@[kk].size != sz,
            decreases m - j,
        {
            j = j + 1;
        }
        if j < m {
            let ghost pre_buckets = buckets@;
            let mut g = buckets.remove(j);
            g.paths.push(path);
            buckets.insert(j, g);
            proof {
                assert(buckets@ =~= pre_buckets.update(j as int, g));
                assert(path_models(g.paths@) =~= path_models(pre_buckets[j as int].paths@).push(
                    pairs@[i as int].1@,
                ));
                assert forall|k: int| 0 <= k < buckets@.len() implies {
                    &&& path_models(#[trigger] buckets@[k].paths@) == paths_of_size(
                        stepped,
                        buckets@[k].size,
                    )
                    &&& buckets@[k].paths@.len() >= 1
                } by {
                    let s = buckets@[k].size;
                    assert(stepped.filter(size_pred(s)) == if size_pred(s)(fs[i as int]) {
                        seen.filter(size_pred(s)).push(fs[i as int])
                    } else {
                        seen.filter(size_pred(s))
                    });
                    if k == j {
                        assert(size_pred(s)(fs[i as int]));
                        assert(paths_of_size(stepped, s) =~= paths_of_size(seen, s).push(
                            fs[i as int].1,
                        ));
                    } else {
                        assert(buckets@[k].size == pre_buckets[k].size);
                        assert(buckets@[k].size != sz);
                        assert(!(size_pred(s)(fs[i as int])));
                        assert(paths_of_size(stepped, s) =~= paths_of_size(seen, s));
                    }
                }
                assert forall|jj: int| 0 <= jj < i + 1 implies #[trigger] bucket_before(
                    buckets@,
                    buckets@.len() as int,
                    fs[jj].0,
                ) by {
                    if jj < i {
                        assert(bucket_before(pre_buckets, pre_buckets.len() as int, fs[jj].0));
                        let k = choose|k: int|
                            0 <= k < pre_buckets.len() && (#[trigger] pre_buckets[k]).size == fs[jj].0;
                        assert(buckets@[k].size == pre_buckets[k].size);
                        assert(buckets@[k].size == fs[jj].0);
                    } else {
                        assert(buckets@[j as int].size == fs[jj].0);
                    }
                }
                assert(forall|k: int|
                    0 <= k < buckets@.len() ==> (#[trigger] buckets@[k]).size
                        == pre_buckets[k].size);
                assert(forall|k1: int, k2: int|
                    0 <= k1 < k2 < buckets@.len() ==> buckets@[k1].size != buckets@[k2].size);
            }
        } else {
            let ghost pre_buckets = buckets@;
            let mut paths: Vec<String> = Vec::new();
            paths.push(path);
            let g = DupGroup { size: sz, paths };
            buckets.push(g);
            proof {
                let nb = buckets@.len() - 1;
                assert forall|jj: int| 0 <= jj < seen.len() implies !(size_pred(sz)(
                    #[trigger] seen[jj],
                )) by {
                    assert(seen[jj] == fs[jj]);
                    if size_pred(sz)(seen[jj]) {
                        assert(bucket_before(pre_buckets, pre_buckets.len() as int, fs[jj].0));
                        let kb = choose|kb: int|
                            0 <= kb < pre_buckets.len() && (#[trigger] pre_buckets[kb]).size
                                == fs[jj].0;
                        assert(pre_buckets[kb].size == sz);
                    }
                }
                seen.lemma_all_neg_filter_empty(size_pred(sz));
                assert(paths_of_size(seen, sz).len() == 0);
                assert forall|k: int| 0 <= k < buckets@.len() implies {
                    &&& path_models(#[trigger] buckets@[k].paths@) == paths_of_size(
                        stepped,
                        buckets@[k].size,
                    )
                    &&& buckets@[k].paths@.len() >= 1
                } by {
                    let s = buckets@[k].size;
                    assert(stepped.filter(size_pred(s)) == if size_pred(s)(fs[i as int]) {
                        seen.filter(size_pred(s)).push(fs[i as int])
                    } else {
                        seen.filter(size_pred(s))
                    });
                    if k == nb {
                        assert(s == sz);
                        assert(size_pred(s)(fs[i as int]));
                        assert(paths_of_size(stepped, s) =~= paths_of_size(seen, s).push(
                            fs[i as int].1,
                        ));
                        assert(path_models(buckets@[k].paths@) =~= seq![pairs@[i as int].1@]);
                        assert(paths_of_size(stepped, s) =~= seq![fs[i as int].1]);
                    } else {
                        assert(buckets@[k].size != sz);
                        assert(!(size_pred(s)(fs[i as int])));
                        assert(paths_of_size(stepped, s) =~= paths_of_size(seen, s));
                    }
                }
                assert forall|jj: int| 0 <= jj < i + 1 implies #[trigger] bucket_before(
                    buckets@,
                    buckets@.len() as int,
                    fs[jj].0,
                ) by {
                    if jj < i {
                        assert(bucket_before(pre_buckets, pre_buckets.len() as int, fs[jj].0));
                        let k = choose|k: int|
                            0 <= k < pre_buckets.len() && (#[trigger] pre_buckets[k]).size == fs[jj].0;
                        assert(buckets@[k] == pre_buckets[k]);
                        assert(buckets@[k].size == fs[jj].0);
                    } else {
                        assert(buckets@[nb].size == fs[jj].0);
                    }
                }
                assert(forall|k: int|
                    0 <= k < nb ==> (#[trigger] buckets@[k]).size != sz);
                assert(forall|k1: int, k2: int|
                    0 <= k1 < k2 < buckets@.len() ==> buckets@[k1].size != buckets@[k2].size);
            }
        }
        i = i + 1;
    }
    proof {
        assert(fs.take(n as int) =~= fs);
    }
    // Keep only the buckets with at least two members.
    let mut groups: Vec<DupGroup> = Vec::new();
    let m = buckets.len();
    let mut k: usize = 0;
    while k < m
        invariant
            k <= m,
            m == buckets@.len(),
            forall|k: int|
                0 <= k < buckets@.len() ==> {
                    &&& path_models(#[trigger] buckets@[k].paths@) == paths_of_size(
                        fs,
                        buckets@[k].size,
                    )
                    &&& buckets@[k].paths@.len() >= 1
                },
            forall|k1: int, k2: int|
                0 <= k1 < k2 < buckets@.len() ==> buckets@[k1].size != buckets@[k2].size,
            forall|j: int|
                0 <= j < fs.len() ==> #[trigger] bucket_before(
                    buckets@,
                    buckets@.len() as int,
                    fs[j].0,
                ),
            forall|g: int|
                0 <= g < groups@.len() ==> {
                    &&& path_models(#[trigger] groups@[g].paths@) == paths_of_size(
                        fs,
                        groups@[g].size,
                    )
                    &&& groups@[g].paths@.len() >= 2
                },
            forall|g: int|
                0 <= g < groups@.len() ==> #[trigger] bucket_before(
                    buckets@,
                    k as int,
                    groups@[g].size,
                ),
            forall|k1: int, k2: int|
                0 <= k1 < k2 < groups@.len() ==> groups@[k1].size != groups@[k2].size,
            forall|kk: int|
                0 <= kk < k && (#[trigger] buckets@[kk]).paths@.len() >= 2 ==> group_with(
                    groups@,
                    buckets@[kk].size,
                ),
        decreases m - k,
    {
        let ghost pre_groups = groups@;
        if buckets[k].paths.len() >= 2 {
            let g = DupGroup { size: buckets[k].size, paths: copy_paths(&buckets[k].paths) };
            groups.push(g);
            proof {
                let gi = groups@.len() - 1;
                assert(groups@[gi].size == buckets@[k as int].size);
                assert(path_models(groups@[gi].paths@) == path_models(buckets@[k as int].paths@));
                // The new group's size differs from every earlier group's,
                // since earlier groups carry sizes of earlier buckets.
                assert forall|g1: int| 0 <= g1 < gi implies groups@[g1].size
                    != groups@[gi].size by {
                    assert(bucket_before(buckets@, k as int, pre_groups[g1].size));
                    let kk = choose|kk: int|
                        0 <= kk < k && kk < buckets@.len() && (#[trigger] buckets@[kk]).size
                            == pre_groups[g1].size;
                    assert(groups@[g1] == pre_groups[g1]);
                    assert(buckets@[kk].size != buckets@[k as int].size);
                }
            }
        }
        proof {
            assert forall|g1: int| 0 <= g1 < groups@.len() implies {
                &&& path_models(#[trigger] groups@[g1].paths@) == paths_of_size(
                    fs,
                    groups@[g1].size,
                )
                &&& groups@[g1].paths@.len() >= 2
            } by {
                if g1 < pre_groups.len() {
                    assert(groups@[g1] == pre_groups[g1]);
                }
            }
            assert forall|g1: int| 0 <= g1 < groups@.len() implies #[trigger] bucket_before(
                buckets@,
                k as int + 1,
                groups@[g1].size,
            ) by {
                if g1 < pre_groups.len() {
                    assert(bucket_before(buckets@, k as int, pre_groups[g1].size));
                    let kk = choose|kk: int|
                        0 <= kk < k && kk < buckets@.len() && (#[trigger] buckets@[kk]).size
                            == pre_groups[g1].size;
                    assert(groups@[g1] == pre_groups[g1]);
                    assert(groups@[g1].size == buckets@[kk].size);
                } else {
                    assert(groups@[g1].size == buckets@[k as int].size);
                }
            }
            assert forall|kk: int|
                0 <= kk < k + 1 && (#[trigger] buckets@[kk]).paths@.len() >= 2 implies group_with(
                groups@,
                buckets@[kk].size,
            ) by {
                if kk == k {
                    assert(groups@[groups@.len() - 1].size == buckets@[kk].size);
                } else {
                    assert(group_with(pre_groups, buckets@[kk].size));
                    let g = choose|g: int|
                        0 <= g < pre_groups.len() && (#[trigger] pre_groups[g]).size
                            == buckets@[kk].size;
                    assert(groups@[g].size == buckets@[kk].size);
                }
            }
        }
        k = k + 1;
    }
    // Every size shared by two or more files has a surviving group.
    proof {
        assert forall|s: u64| paths_of_size(fs, s).len() >= 2 implies exists|g: int|
            0 <= g < groups@.len() && groups@[g].size == s by {
            let fp = fs.filter(size_pred(s));
            assert(fp.len() >= 2);
            assert(fp.contains(fp[0])) by {
                assert(fp[0] == fp[0]);
            }
            fs.lemma_filter_contains_rev(size_pred(s), fp[0]);
            assert(fs.contains(fp[0]));
            let j = choose|j: int| 0 <= j < fs.len() && fs[j] == fp[0];
            assert(size_pred(s)(fp[0]));
            assert(fs[j].0 == s);
            assert(bucket_before(buckets@, buckets@.len() as int, fs[j].0));
            let kk = choose|kk: int|
                0 <= kk < buckets@.len() && (#[trigger] buckets@[kk]).size == fs[j].0;
            assert(buckets@[kk].paths@.len() == paths_of_size(fs, s).len());
            assert(group_with(groups@, buckets@[kk].size));
            let g = choose|g: int|
                0 <= g < groups@.len() && (#[trigger] groups@[g]).size == buckets@[kk].size;
            assert(groups@[g].size == s);
        }
    }
    groups
}

// ---------------------------------------------------------------------------
// Aggregate statistics over a record set.
// ---------------------------------------------------------------------------

/// The fixed size-histogram bucket of a byte count: empty, under a kibibyte,
/// under a mebibyte, under a hundred mebibytes, under a gibibyte, and the
/// rest.
pub open spec fn size_bucket(size: int) -> int {
    if size < 1 {
        0
    } else if size < 1024 {
        1
    } else if size < 1048576 {
        2
    } else if size < 104857600 {
        3
    } else if size < 1073741824 {
        4
    } else {
        5
    }
}

/// Seconds elapsed since a modification time, clamped at zero for times in
/// the future.
pub open spec fn age_seconds(now: u64, m: i64) -> int {
    if now as int >= m as int {
        now as int - m as int
    } else {
        0
    }
}

/// The fixed age-histogram bucket of an elapsed second count: under a day,
/// a week, thirty days, a year, and the rest.
pub open spec fn age_bucket(a: int) -> int {
    if a < 86400 {
        0
    } else if a < 604800 {
        1
    } else if a < 2592000 {
        2
    } else if a < 31536000 {
        3
    } else {
        4
    }
}

/// The epoch second count a record's modification timestamp parses to.
pub open spec fn mod_epoch(r: RecordModel) -> Option<i64> {
    match r.modified {
        Some(s) => epoch_of(s),
        None => None,
    }
}

/// How many records of `s` satisfy `p`.
pub open spec fn count_matching(s: Seq<RecordModel>, p: spec_fn(RecordModel) -> bool) -> int {
    s.filter(p).len() as int
}

/// Selects directory records.
pub open spec fn dir_pred() -> spec_fn(RecordModel) -> bool {
    |r: RecordModel| r.is_directory
}

/// Selects the records of one size-histogram bucket.
pub open spec fn size_bucket_pred(k: int) -> spec_fn(RecordModel) -> bool {
    |r: RecordModel| size_bucket(r.size) == k
}

/// Selects the records whose parseable modification time falls in one
/// age-histogram bucket at evaluation time `now`.
pub open spec fn age_bucket_pred(now: u64, k: int) -> spec_fn(RecordModel) -> bool {
    |r: RecordModel|
        match mod_epoch(r) {
            Some(m) => age_bucket(age_seconds(now, m)) == k,
            None => false,
        }
}

/// Selects records whose permission summary holds an `r`.
pub open spec fn readable_pred() -> spec_fn(RecordModel) -> bool {
    |r: RecordModel| contains_char(r.permissions, 'r')
}

/// Selects records whose permission summary holds a `w`.
pub open spec fn writable_pred() -> spec_fn(RecordModel) -> bool {
    |r: RecordModel| contains_char(r.permissions, 'w')
}

/// Selects records with exactly the read-only compact summary.
pub open spec fn read_only_pred() -> spec_fn(RecordModel) -> bool {
    |r: RecordModel| r.permissions == seq!['r', '-', '-']
}

/// Selects records with exactly the read-write compact summary.
pub open spec fn read_write_pred() -> spec_fn(RecordModel) -> bool {
    |r: RecordModel| r.permissions == seq!['r', 'w', '-']
}

/// The derived statistics of one record set: item counts, the size and age
/// histograms, the positions of the extremal files, and permission counts.
#[derive(Debug)]
pub struct AnalysisReport {
    /// Every record, directories included.
    pub total_items: usize,
    /// Directory records.
    pub total_dirs: usize,
    /// Regular (non-directory) records.
    pub total_files: usize,
    /// Counts of the six size buckets.
    pub size_counts: Vec<usize>,
    /// Counts of the five age buckets.
    pub age_counts: Vec<usize>,
    /// Position of a largest non-directory record, absent when none exists.
    pub largest: Option<usize>,
    /// Position of a smallest non-directory record of non-zero size, absent
    /// when every file is empty or everything is a directory.
    pub smallest: Option<usize>,
    /// Records whose permission summary holds an `r`.
    pub readable: usize,
    /// Records whose permission summary holds a `w`.
    pub writable: usize,
    /// Records whose permission summary is exactly the read-only form.
    pub read_only: usize,
    /// Records whose permission summary is exactly the read-write form.
    pub read_write: usize,
}

/// Computes the aggregate statistics of a record set at evaluation time
/// `now` (seconds since the Unix epoch).
#[verifier::rlimit(100)]
pub fn analyze(files: &Vec<FileInfo>, now: u64) -> (r: AnalysisReport)
    ensures
        ({
            let m = models(files@);
            &&& r.total_items == files@.len()
            &&& r.total_dirs as int == count_matching(m, dir_pred())
            &&& r.total_files as int == files@.len() - count_matching(m, dir_pred())
            &&& r.size_counts@.len() == 6
            &&& forall|k: int|
                0 <= k < 6 ==> (#[trigger] r.size_counts@[k]) as int == count_matching(
                    m,
                    size_bucket_pred(k),
                )
            &&& r.age_counts@.len() == 5
            &&& forall|k: int|
                0 <= k < 5 ==> (#[trigger] r.age_counts@[k]) as int == count_matching(
                    m,
                    age_bucket_pred(now, k),
                )
            &&& match r.largest {
                Some(l) => 0 <= l < m.len() && !m[l as int].is_directory && forall|t: int|
                    0 <= t < m.len() && !(#[trigger] m[t]).is_directory ==> m[t].size <= m[l as int].size,
                None => forall|t: int| 0 <= t < m.len() ==> (#[trigger] m[t]).is_directory,
            }
            &&& match r.smallest {
                Some(l) => 0 <= l < m.len() && !m[l as int].is_directory && m[l as int].size > 0
                    && forall|t: int|
                    0 <= t < m.len() && !(#[trigger] m[t]).is_directory && m[t].size > 0 ==> m[l as int].size <= m[t].size,
                None => forall|t: int|
                    0 <= t < m.len() ==> (#[trigger] m[t]).is_directory || m[t].size == 0,
            }
            &&& r.readable as int == count_matching(m, readable_pred())
            &&& r.writable as int == count_matching(m, writable_pred())
            &&& r.read_only as int == count_matching(m, read_only_pred())
            &&& r.read_write as int == count_matching(m, read_write_pred())
        }),
{
    let ghost m = models(files@);
    let n = files.len();
    proof {
        assert(m.len() == n as int);
        assert(m.take(0) =~= Seq::<RecordModel>::empty());
    }
    let mut dirs: usize = 0;
    let mut s0: usize = 0;
    let mut s1: usize = 0;
    let mut s2: usize = 0;
    let mut s3: usize = 0;
    let mut s4: usize = 0;
    let mut s5: usize = 0;
    let mut a0: usize = 0;
    let mut a1: usize = 0;
    let mut a2: usize = 0;
    let mut a3: usize = 0;
    let mut a4: usize = 0;
    let mut readable: usize = 0;
    let mut writable: usize = 0;
    let mut read_only: usize = 0;
    let mut read_write: usize = 0;
    let mut largest: Option<usize> = None;
    let mut smallest: Option<usize> = None;
    let mut i: usize = 0;
    while i < n
        invariant
            i <= n,
            n == files@.len(),
            m == models(files@),
            m.len() == n as int,
            dirs as int == count_matching(m.take(i as int), dir_pred()),
            dirs <= i,
            s0 as int == count_matching(m.take(i as int), size_bucket_pred(0)),
            s1 as int == count_matching(m.take(i as int), size_bucket_pred(1)),
            s2 as int == count_matching(m.take(i as int), size_bucket_pred(2)),
            s3 as int == count_matching(m.take(i as int), size_bucket_pred(3)),
            s4 as int == count_matching(m.take(i as int), size_bucket_pred(4)),
            s5 as int == count_matching(m.take(i as int), size_bucket_pred(5)),
            s0 <= i && s1 <= i && s2 <= i && s3 <= i && s4 <= i && s5 <= i,
            a0 as int == count_matching(m.take(i as int), age_bucket_pred(now, 0)),
            a1 as int == count_matching(m.take(i as int), age_bucket_pred(now, 1)),
            a2 as int == count_matching(m.take(i as int), age_bucket_pred(now, 2)),
            a3 as int == count_matching(m.take(i as int), age_bucket_pred(now, 3)),
            a4 as int == count_matching(m.take(i as int), age_bucket_pred(now, 4)),
            a0 <= i && a1 <= i && a2 <= i && a3 <= i && a4 <= i,
            readable as int == count_matching(m.take(i as int), readable_pred()),
            writable as int == count_matching(m.take(i as int), writable_pred()),
            read_only as int == count_matching(m.take(i as int), read_only_pred()),
            read_write as int == count_matching(m.take(i as int), read_write_pred()),
            readable <= i && writable <= i && read_only <= i && read_write <= i,
            match largest {
                Some(l) => 0 <= l < i && !m[l as int].is_directory && forall|t: int|
                    0 <= t < i && !(#[trigger] m[t]).is_directory ==> m[t].size <= m[l as int].size,
                None => forall|t: int| 0 <= t < i ==> (#[trigger] m[t]).is_directory,
            },
            match smallest {
                Some(l) => 0 <= l < i && !m[l as int].is_directory && m[l as int].size > 0
                    && forall|t: int|
                    0 <= t < i && !(#[trigger] m[t]).is_directory && m[t].size > 0 ==> m[l as int].size <= m[t].size,
                None => forall|t: int|
                    0 <= t < i ==> (#[trigger] m[t]).is_directory || m[t].size == 0,
            },
        decreases n - i,
    {
        let ghost mt = m.take(i as int);
        let ghost mi = m[i as int];
        proof {
            assert(m.take(i as int + 1) =~= mt.push(mi));
            assert(count_matching(mt.push(mi), dir_pred()) == count_matching(mt, dir_pred())
                + if dir_pred()(mi) {
                1int
            } else {
                0
            });
            assert(count_matching(mt.push(mi), size_bucket_pred(0)) == count_matching(
                mt,
                size_bucket_pred(0),
            ) + if size_bucket_pred(0)(mi) {
                1int
            } else {
                0
            });
            assert(count_matching(mt.push(mi), size_bucket_pred(1)) == count_matching(
                mt,
                size_bucket_pred(1),
            ) + if size_bucket_pred(1)(mi) {
                1int
            } else {
                0
            });
            assert(count_matching(mt.push(mi), size_bucket_pred(2)) == count_matching(
                mt,
                size_bucket_pred(2),
            ) + if size_bucket_pred(2)(mi) {
                1int
            } else {
                0
            });
            assert(count_matching(mt.push(mi), size_bucket_pred(3)) == count_matching(
                mt,
                size_bucket_pred(3),
            ) + if size_bucket_pred(3)(mi) {
                1int
            } else {
                0
            });
            assert(count_matching(mt.push(mi), size_bucket_pred(4)) == count_matching(
                mt,
                size_bucket_pred(4),
            ) + if size_bucket_pred(4)(mi) {
                1int
            } else {
                0
            });
            assert(count_matching(mt.push(mi), size_bucket_pred(5)) == count_matching(
                mt,
                size_bucket_pred(5),
            ) + if size_bucket_pred(5)(mi) {
                1int
            } else {
                0
            });
            assert(count_matching(mt.push(mi), age_bucket_pred(now, 0)) == count_matching(
                mt,
                age_bucket_pred(now, 0),
            ) + if age_bucket_pred(now, 0)(mi) {
                1int
            } else {
                0
            });
            assert(count_matching(mt.push(mi), age_bucket_pred(now, 1)) == count_matching(
                mt,
                age_bucket_pred(now, 1),
            ) + if age_bucket_pred(now, 1)(mi) {
                1int
            } else {
                0
            });
            assert(count_matching(mt.push(mi), age_bucket_pred(now, 2)) == count_matching(
                mt,
                age_bucket_pred(now, 2),
            ) + if age_bucket_pred(now, 2)(mi) {
                1int
            } else {
                0
            });
            assert(count_matching(mt.push(mi), age_bucket_pred(now, 3)) == count_matching(
                mt,
                age_bucket_pred(now, 3),
            ) + if age_bucket_pred(now, 3)(mi) {
                1int
            } else {
                0
            });
            assert(count_matching(mt.push(mi), age_bucket_pred(now, 4)) == count_matching(
                mt,
                age_bucket_pred(now, 4),
            ) + if age_bucket_pred(now, 4)(mi) {
                1int
            } else {
                0
            });
            assert(count_matching(mt.push(mi), readable_pred()) == count_matching(
                mt,
                readable_pred(),
            ) + if readable_pred()(mi) {
                1int
            } else {
                0
            });
            assert(count_matching(mt.push(mi), writable_pred()) == count_matching(
                mt,
                writable_pred(),
            ) + if writable_pred()(mi) {
                1int
            } else {
                0
            });
            assert(count_matching(mt.push(mi), read_only_pred()) == count_matching(
                mt,
                read_only_pred(),
            ) + if read_only_pred()(mi) {
                1int
            } else {
                0
            });
            assert(count_matching(mt.push(mi), read_write_pred()) == count_matching(
                mt,
                read_write_pred(),
            ) + if read_write_pred()(mi) {
                1int
            } else {
                0
            });
        }
        let f = &files[i];
        if f.is_directory {
            dirs = dirs + 1;
        }
        let sz = f.size;
        if sz < 1 {
            s0 = s0 + 1;
        } else if sz < 1024 {
            s1 = s1 + 1;
        } else if sz < 1048576 {
            s2 = s2 + 1;
        } else if sz < 104857600 {
            s3 = s3 + 1;
        } else if sz < 1073741824 {
            s4 = s4 + 1;
        } else {
            s5 = s5 + 1;
        }
        let parsed: Option<i64> = match &f.modified {
            Some(sm) => crate::records::parse_utc(sm.as_str()),
            None => None,
        };
        proof {
            assert(parsed == mod_epoch(mi));
        }
        match parsed {
            Some(mv) => {
                let age: i128 = if (now as i128) >= (mv as i128) {
                    now as i128 - mv as i128
                } else {
                    0
                };
                proof {
                    assert(age as int == age_seconds(now, mv));
                }
                if age < 86400 {
                    a0 = a0 + 1;
                } else if age < 604800 {
                    a1 = a1 + 1;
                } else if age < 2592000 {
                    a2 = a2 + 1;
                } else if age < 31536000 {
                    a3 = a3 + 1;
                } else {
                    a4 = a4 + 1;
                }
            },
            None => {},
        }
        if crate::text::str_contains_char(f.permissions.as_str(), 'r') {
            readable = readable + 1;
        }
        if crate::text::str_contains_char(f.permissions.as_str(), 'w') {
            writable = writable + 1;
        }
        proof {
            reveal_strlit("r--");
            reveal_strlit("rw-");
            assert("r--"@ =~= seq!['r', '-', '-']);
            assert("rw-"@ =~= seq!['r', 'w', '-']);
        }
        if str_eq(&f.permissions, "r--") {
            read_only = read_only + 1;
        }
        if str_eq(&f.permissions, "rw-") {
            read_write = read_write + 1;
        }
        if !f.is_directory {
            largest = match largest {
                None => Some(i),
                Some(l) => {
                    if f.size > files[l].size {
                        Some(i)
                    } else {
                        Some(l)
                    }
                },
            };
            if f.size > 0 {
                smallest = match smallest {
                    None => Some(i),
                    Some(l) => {
                        if f.size < files[l].size {
                            Some(i)
                        } else {
                            Some(l)
                        }
                    },
                };
            }
        }
        i = i + 1;
    }
    proof {
        assert(m.take(n as int) =~= m);
    }
    let mut size_counts: Vec<usize> = Vec::new();
    size_counts.push(s0);
    size_counts.push(s1);
    size_counts.push(s2);
    size_counts.push(s3);
    size_counts.push(s4);
    size_counts.push(s5);
    let mut age_counts: Vec<usize> = Vec::new();
    age_counts.push(a0);
    age_counts.push(a1);
    age_counts.push(a2);
    age_counts.push(a3);
    age_counts.push(a4);
    proof {
        assert(size_counts@ =~= seq![s0, s1, s2, s3, s4, s5]);
        assert(age_counts@ =~= seq![a0, a1, a2, a3, a4]);
    }
    AnalysisReport {
        total_items: n,
        total_dirs: dirs,
        total_files: n - dirs,
        size_counts,
        age_counts,
        largest,
        smallest,
        readable,
        writable,
        read_only,
        read_write,
    }
}

// ---------------------------------------------------------------------------
// File-type statistics: counts of regular files per sniffed type.
// ---------------------------------------------------------------------------

/// Selects the regular (non-directory) records of one file type.
pub open spec fn type_pred(t: Seq<char>) -> spec_fn(RecordModel) -> bool {
    |r: RecordModel| !r.is_directory && r.file_type == t
}

/// Selects regular (non-directory) records.
pub open spec fn nondir_pred() -> spec_fn(RecordModel) -> bool {
    |r: RecordModel| !r.is_directory
}

/// How many regular files of `m` carry the type `t`.
pub open spec fn count_type(m: Seq<RecordModel>, t: Seq<char>) -> int {
    count_matching(m, type_pred(t))
}

/// Some pair among the first `bound` carries type `t`.
pub open spec fn type_before(pairs: Seq<(String, usize)>, bound: int, t: Seq<char>) -> bool {
    exists|k: int| 0 <= k < bound && k < pairs.len() && (#[trigger] pairs[k]).0@ == t
}

/// Counts the regular files of each sniffed type: one pair per type that
/// occurs, with its exact count, the `unknown` tag left out of the listing;
/// and the number of regular files overall. The listing is unordered.
#[verifier::rlimit(100)]
pub fn file_type_stats(files: &Vec<FileInfo>) -> (r: (Vec<(String, usize)>, usize))
    ensures
        ({
            let m = models(files@);
            let pairs = r.0@;
            &&& forall|k: int|
                0 <= k < pairs.len() ==> {
                    &&& (#[trigger] pairs[k]).1 as int == count_type(m, pairs[k].0@)
                    &&& pairs[k].1 >= 1
                    &&& pairs[k].0@ != crate::records::unknown_type()
                }
            &&& forall|k1: int, k2: int|
                0 <= k1 < k2 < pairs.len() ==> pairs[k1].0@ != pairs[k2].0@
            &&& forall|t: Seq<char>|
                t != crate::records::unknown_type() && #[trigger] count_type(m, t) >= 1
                    ==> type_before(pairs, pairs.len() as int, t)
            &&& r.1 as int == count_matching(m, nondir_pred())
        }),
{
    let ghost m = models(files@);
    let n = files.len();
    proof {
        assert(m.len() == n as int);
        assert(m.take(0) =~= Seq::<RecordModel>::empty());
    }
    let mut groups: Vec<(String, usize)> = Vec::new();
    let mut total: usize = 0;
    let mut i: usize = 0;
    while i < n
        invariant
            i <= n,
            n == files@.len(),
            m == models(files@),
            m.len() == n as int,
            total as int == count_matching(m.take(i as int), nondir_pred()),
            total <= i,
            forall|k: int|
                0 <= k < groups@.len() ==> {
                    &&& (#[trigger] groups@[k]).1 as int == count_type(
                        m.take(i as int),
                        groups@[k].0@,
                    )
                    &&& groups@[k].1 >= 1
                },
            forall|k: int| 0 <= k < groups@.len() ==> (#[trigger] groups@[k]).1 <= i,
            forall|k1: int, k2: int|
                0 <= k1 < k2 < groups@.len() ==> groups@[k1].0@ != groups@[k2].0@,
            forall|j: int|
                0 <= j < i && !(#[trigger] m[j]).is_directory ==> type_before(
                    groups@,
                    groups@.len() as int,
                    m[j].file_type,
                ),
        decreases n - i,
    {
        let ghost mt = m.take(i as int);
        let ghost mi = m[i as int];
        proof {
            assert(m.take(i as int + 1) =~= mt.push(mi));
            assert(count_matching(mt.push(mi), nondir_pred()) == count_matching(
                mt,
                nondir_pred(),
            ) + if nondir_pred()(mi) {
                1int
            } else {
                0
            });
        }
        let f = &files[i];
        if !f.is_directory {
            total = total + 1;
            // Look for this type's pair.
            let gl = groups.len();
            let mut j: usize = 0;
            while j < gl && !crate::types::str_eq(&f.file_type, groups[j].0.as_str())
                invariant
                    j <= gl,
                    gl == groups@.len(),
                    forall|kk: int| 0 <= kk < j ==> (#[trigger] groups@[kk]).0@ != f.file_type@,
                decreases gl - j,
            {
                j = j + 1;
            }
            if j < gl {
                let ghost pre_groups = groups@;
                let g = groups.remove(j);
                let cnt = g.1 + 1;
                groups.insert(j, (g.0, cnt));
                proof {
                    assert(groups@ =~= pre_groups.update(j as int, (g.0, cnt)));
                    assert forall|k: int| 0 <= k < groups@.len() implies {
                        &&& (#[trigger] groups@[k]).1 as int == count_type(
                            mt.push(mi),
                            groups@[k].0@,
                        )
                        &&& groups@[k].1 >= 1
                    } by {
                        let t = groups@[k].0@;
                        assert(count_matching(mt.push(mi), type_pred(t)) == count_matching(
                            mt,
                            type_pred(t),
                        ) + if type_pred(t)(mi) {
                            1int
                        } else {
                            0
                        });
                        if k == j {
                            assert(mi.file_type == f.file_type@);
                            assert(type_pred(t)(mi));
                        } else {
                            assert(groups@[k] == pre_groups[k]);
                            assert(groups@[k].0@ != f.file_type@);
                            assert(!(type_pred(t)(mi)));
                        }
                    }
                    assert forall|jj: int|
                        0 <= jj < i + 1 && !(#[trigger] m[jj]).is_directory implies type_before(
                        groups@,
                        groups@.len() as int,
                        m[jj].file_type,
                    ) by {
                        if jj < i {
                            assert(type_before(pre_groups, pre_groups.len() as int, m[jj].file_type));
                            let k = choose|k: int|
                                0 <= k < pre_groups.len() && (#[trigger] pre_groups[k]).0@ == m[jj].file_type;
                            assert(groups@[k].0@ == pre_groups[k].0@);
                        } else {
                            assert(groups@[j as int].0@ == m[jj].file_type);
                        }
                    }
                }
            } else {
                let ghost pre_groups = groups@;
                let tname = f.file_type.clone();
                groups.push((tname, 1));
                proof {
                    let nb = groups@.len() - 1;
                    assert forall|jj: int| 0 <= jj < mt.len() implies !(type_pred(f.file_type@)(
                        #[trigger] mt[jj],
                    )) by {
                        assert(mt[jj] == m[jj]);
                        if type_pred(f.file_type@)(mt[jj]) {
                            assert(type_before(pre_groups, pre_groups.len() as int, m[jj].file_type));
                            let kb = choose|kb: int|
                                0 <= kb < pre_groups.len() && (#[trigger] pre_groups[kb]).0@ == m[jj].file_type;
                            assert(pre_groups[kb].0@ == f.file_type@);
                        }
                    }
                    mt.lemma_all_neg_filter_empty(type_pred(f.file_type@));
                    assert(count_type(mt, f.file_type@) == 0);
                    assert forall|k: int| 0 <= k < groups@.len() implies {
                        &&& (#[trigger] groups@[k]).1 as int == count_type(
                            mt.push(mi),
                            groups@[k].0@,
                        )
                        &&& groups@[k].1 >= 1
                    } by {
                        let t = groups@[k].0@;
                        assert(count_matching(mt.push(mi), type_pred(t)) == count_matching(
                            mt,
                            type_pred(t),
                        ) + if type_pred(t)(mi) {
                            1int
                        } else {
                            0
                        });
                        if k == nb {
                            assert(t == f.file_type@);
                            assert(type_pred(t)(mi));
                        } else {
                            assert(groups@[k] == pre_groups[k]);
                            assert(groups@[k].0@ != f.file_type@);
                            assert(!(type_pred(t)(mi)));
                        }
                    }
                    assert forall|jj: int|
                        0 <= jj < i + 1 && !(#[trigger] m[jj]).is_directory implies type_before(
                        groups@,
                        groups@.len() as int,
                        m[jj].file_type,
                    ) by {
                        if jj < i {
                            assert(type_before(pre_groups, pre_groups.len() as int, m[jj].file_type));
                            let k = choose|k: int|
                                0 <= k < pre_groups.len() && (#[trigger] pre_groups[k]).0@ == m[jj].file_type;
                            assert(groups@[k] == pre_groups[k]);
                            assert(groups@[k].0@ == m[jj].file_type);
                        } else {
                            assert(groups@[nb].0@ == m[jj].file_type);
                        }
                    }
                }
            }
        } else {
            proof {
                assert forall|k: int| 0 <= k < groups@.len() implies {
                    &&& (#[trigger] groups@[k]).1 as int == count_type(mt.push(mi), groups@[k].0@)
                    &&& groups@[k].1 >= 1
                } by {
                    let t = groups@[k].0@;
                    assert(count_matching(mt.push(mi), type_pred(t)) == count_matching(
                        mt,
                        type_pred(t),
                    ) + if type_pred(t)(mi) {
                        1int
                    } else {
                        0
                    });
                    assert(!(type_pred(t)(mi)));
                }
            }
        }
        i = i + 1;
    }
    proof {
        assert(m.take(n as int) =~= m);
    }
    // Leave the unknown tag out of the listing.
    let mut pairs: Vec<(String, usize)> = Vec::new();
    let gl = groups.len();
    let mut k: usize = 0;
    proof {
        reveal_strlit("unknown");
        assert("unknown"@ =~= crate::records::unknown_type());
    }
    while k < gl
        invariant
            k <= gl,
            gl == groups@.len(),
            m == models(files@),
            forall|kk: int|
                0 <= kk < groups@.len() ==> {
                    &&& (#[trigger] groups@[kk]).1 as int == count_type(m, groups@[kk].0@)
                    &&& groups@[kk].1 >= 1
                },
            forall|k1: int, k2: int|
                0 <= k1 < k2 < groups@.len() ==> groups@[k1].0@ != groups@[k2].0@,
            forall|g: int|
                0 <= g < pairs@.len() ==> {
                    &&& (#[trigger] pairs@[g]).1 as int == count_type(m, pairs@[g].0@)
                    &&& pairs@[g].1 >= 1
                    &&& pairs@[g].0@ != crate::records::unknown_type()
                },
            forall|g: int|
                0 <= g < pairs@.len() ==> type_before(groups@, k as int, (#[trigger] pairs@[g]).0@),
            forall|k1: int, k2: int|
                0 <= k1 < k2 < pairs@.len() ==> pairs@[k1].0@ != pairs@[k2].0@,
            forall|kk: int|
                0 <= kk < k && (#[trigger] groups@[kk]).0@ != crate::records::unknown_type()
                    ==> type_before(pairs@, pairs@.len() as int, groups@[kk].0@),
        decreases gl - k,
    {
        let ghost pre_pairs = pairs@;
        proof {
            reveal_strlit("unknown");
            assert("unknown"@ =~= crate::records::unknown_type());
        }
        if !crate::types::str_eq(&groups[k].0, "unknown") {
            let gname = groups[k].0.clone();
            let gcount = groups[k].1;
            pairs.push((gname, gcount));
            proof {
                let gi = pairs@.len() - 1;
                assert(pairs@[gi].0@ == groups@[k as int].0@);
                assert(pairs@[gi].0@ != crate::records::unknown_type());
                assert(pairs@[gi].1 as int == count_type(m, pairs@[gi].0@));
                assert forall|g1: int| 0 <= g1 < gi implies pairs@[g1].0@ != pairs@[gi].0@ by {
                    assert(type_before(groups@, k as int, pre_pairs[g1].0@));
                    let kk = choose|kk: int|
                        0 <= kk < k && kk < groups@.len() && (#[trigger] groups@[kk]).0@
                            == pre_pairs[g1].0@;
                    assert(pairs@[g1] == pre_pairs[g1]);
                    assert(groups@[kk].0@ != groups@[k as int].0@);
                }
            }
        }
        proof {
            assert forall|g1: int| 0 <= g1 < pairs@.len() implies type_before(
                groups@,
                k as int + 1,
                (#[trigger] pairs@[g1]).0@,
            ) by {
                if g1 < pre_pairs.len() {
                    assert(type_before(groups@, k as int, pre_pairs[g1].0@));
                    let kk = choose|kk: int|
                        0 <= kk < k && kk < groups@.len() && (#[trigger] groups@[kk]).0@
                            == pre_pairs[g1].0@;
                    assert(pairs@[g1] == pre_pairs[g1]);
                    assert(groups@[kk].0@ == pairs@[g1].0@);
                } else {
                    assert(pairs@[g1].0@ == groups@[k as int].0@);
                }
            }
            assert forall|kk: int|
                0 <= kk < k + 1 && (#[trigger] groups@[kk]).0@ != crate::records::unknown_type()
                    implies type_before(pairs@, pairs@.len() as int, groups@[kk].0@) by {
                if kk == k {
                    assert(pairs@[pairs@.len() - 1].0@ == groups@[kk].0@);
                } else {
                    assert(type_before(pre_pairs, pre_pairs.len() as int, groups@[kk].0@));
                    let g = choose|g: int|
                        0 <= g < pre_pairs.len() && (#[trigger] pre_pairs[g]).0@ == groups@[kk].0@;
                    assert(pairs@[g].0@ == groups@[kk].0@);
                }
            }
        }
        k = k + 1;
    }
    // Every type that occurs on a regular file, other than unknown, is listed.
    proof {
        assert forall|t: Seq<char>|
            t != crate::records::unknown_type() && #[trigger] count_type(m, t) >= 1
                implies type_before(pairs@, pairs@.len() as int, t) by {
            let fp = m.filter(type_pred(t));
            assert(fp.len() >= 1);
            assert(fp.contains(fp[0])) by {
                assert(fp[0] == fp[0]);
            }
            m.lemma_filter_contains_rev(type_pred(t), fp[0]);
            let j = choose|j: int| 0 <= j < m.len() && m[j] == fp[0];
            assert(type_pred(t)(fp[0]));
            assert(!m[j].is_directory && m[j].file_type == t);
            assert(type_before(groups@, groups@.len() as int, m[j].file_type));
            let kk = choose|kk: int|
                0 <= kk < groups@.len() && (#[trigger] groups@[kk]).0@ == m[j].file_type;
            assert(groups@[kk].0@ != crate::records::unknown_type());
            assert(type_before(pairs@, pairs@.len() as int, groups@[kk].0@));
        }
    }
    (pairs, total)
}

} // verus!
