use vstd::prelude::*;

verus! {

/// A snapshot of one filesystem node: the plain metadata a walk reads, plus
/// the node's children. The snapshot is built once by the caller; everything
/// the library computes is a function of it.
#[derive(Debug)]
pub struct FsEntry {
    /// Base name of the entry.
    pub name: String,
    /// Full path of the entry.
    pub path: String,
    /// Whether the entry is a directory.
    pub is_dir: bool,
    /// Whether the entry is a regular file.
    pub is_file: bool,
    /// Byte length, meaningful for regular files.
    pub len: u64,
    /// Whether the entry's own metadata reports it read-only.
    pub readonly: bool,
    /// Creation time in seconds since the Unix epoch, when reported.
    pub created: Option<i64>,
    /// Modification time in seconds since the Unix epoch, when reported.
    pub modified: Option<i64>,
    /// Leading content bytes, used for content-signature type sniffing.
    pub head: Vec<u8>,
    /// Direct children; empty for anything but a directory.
    pub children: Vec<FsEntry>,
}

/// Clamps an unbounded count to what a `u64` can hold.
pub open spec fn sat64(n: int) -> int {
    if n > u64::MAX {
        u64::MAX as int
    } else {
        n
    }
}

/// Total byte size of a node: a file counts its length, a directory the
/// recursive total of everything beneath it, anything else zero.
pub open spec fn spec_size(e: FsEntry) -> int
    decreases e, 0int,
{
    if e.is_file {
        e.len as int
    } else if e.is_dir {
        spec_size_seq(e.children@)
    } else {
        0
    }
}

/// Total byte size of a sequence of sibling nodes.
pub open spec fn spec_size_seq(s: Seq<FsEntry>) -> int
    decreases s, 1int,
{
    if s.len() == 0 {
        0
    } else {
        spec_size_seq(s.drop_last()) + spec_size(s.last())
    }
}

/// Sizes are never negative.
pub proof fn lemma_size_nonneg(e: FsEntry)
    ensures
        spec_size(e) >= 0,
    decreases e, 0int,
{
    if !e.is_file && e.is_dir {
        lemma_size_seq_nonneg(e.children@);
    }
}

pub proof fn lemma_size_seq_nonneg(s: Seq<FsEntry>)
    ensures
        spec_size_seq(s) >= 0,
    decreases s, 1int,
{
    if s.len() != 0 {
        lemma_size_seq_nonneg(s.drop_last());
        lemma_size_nonneg(s.last());
    }
}

/// The size of a file, or the recursive total size of a directory, saturating
/// at the largest representable count.
pub fn get_file_size(e: &FsEntry) -> (r: u64)
    ensures
        r as int == sat64(spec_size(*e)),
    decreases *e,
{
    if e.is_file {
        e.len
    } else if e.is_dir {
        let mut total: u64 = 0;
        let n = e.children.len();
        let mut i: usize = 0;
        while i < n
            invariant
                i <= n,
                n == e.children@.len(),
                total as int == sat64(spec_size_seq(e.children@.take(i as int))),
            decreases n - i,
        {
            let child_size = get_file_size(&e.children[i]);
            proof {
                let pre = e.children@.take(i as int);
                let post = e.children@.take(i as int + 1);
                assert(post.drop_last() =~= pre);
                assert(post.last() == e.children@[i as int]);
                lemma_size_seq_nonneg(pre);
                lemma_size_nonneg(e.children@[i as int]);
            }
            total = total.saturating_add(child_size);
            i = i + 1;
        }
        proof {
            assert(e.children@.take(n as int) =~= e.children@);
        }
        total
    } else {
        0
    }
}

// ---------------------------------------------------------------------------
// The files beneath a directory, as the duplicate detector sees them.
// ---------------------------------------------------------------------------

/// The size/path pairs of every regular file strictly beneath a directory
/// node, in depth-first enumeration order.
pub open spec fn spec_files_entry(e: FsEntry) -> Seq<(u64, Seq<char>)>
    decreases e, 0int,
{
    if e.is_file {
        seq![(e.len, e.path@)]
    } else if e.is_dir {
        spec_files_seq(e.children@)
    } else {
        Seq::empty()
    }
}

pub open spec fn spec_files_seq(s: Seq<FsEntry>) -> Seq<(u64, Seq<char>)>
    decreases s, 1int,
{
    if s.len() == 0 {
        Seq::empty()
    } else {
        spec_files_seq(s.drop_last()) + spec_files_entry(s.last())
    }
}

/// The abstraction of a gathered size/path list.
pub open spec fn pair_models(s: Seq<(u64, String)>) -> Seq<(u64, Seq<char>)> {
    s.map_values(|p: (u64, String)| (p.0, p.1@))
}

/// Appends the size and path of every file beneath `e` to `out`,
/// in depth-first enumeration order.
pub fn gather_files(e: &FsEntry, out: &mut Vec<(u64, String)>)
    ensures
        pair_models(final(out)@) == pair_models(old(out)@) + spec_files_seq(e.children@),
    decreases *e,
{
    let n = e.children.len();
    let mut i: usize = 0;
    while i < n
        invariant
            i <= n,
            n == e.children@.len(),
            pair_models(out@) == pair_models(old(out)@) + spec_files_seq(
                e.children@.take(i as int),
            ),
        decreases n - i,
    {
        proof {
            let pre = e.children@.take(i as int);
            let post = e.children@.take(i as int + 1);
            assert(post.drop_last() =~= pre);
            assert(post.last() == e.children@[i as int]);
        }
        let c = &e.children[i];
        let ghost pre_out = out@;
        if c.is_file {
            let pair = (c.len, c.path.clone());
            proof {
                assert(pair.1@ == e.children@[i as int].path@);
            }
            out.push(pair);
            proof {
                assert(out@ == pre_out.push(pair));
                assert(pair_models(out@) =~~= pair_models(pre_out).push(
                    (pair.0, pair.1@),
                ));
                assert(spec_files_entry(e.children@[i as int]) =~~= seq![
                    (e.children@[i as int].len, e.children@[i as int].path@),
                ]);
                assert(pair_models(out@) =~~= pair_models(old(out)@) + spec_files_seq(
                    e.children@.take(i as int + 1),
                ));
            }
        } else if c.is_dir {
            gather_files(c, out);
            proof {
                assert(pair_models(out@) == pair_models(pre_out) + spec_files_seq(
                    e.children@[i as int].children@,
                ));
                assert(spec_files_entry(e.children@[i as int]) == spec_files_seq(
                    e.children@[i as int].children@,
                ));
                assert(spec_files_seq(e.children@.take(i as int + 1)) == spec_files_seq(
                    e.children@.take(i as int),
                ) + spec_files_entry(e.children@[i as int]));
                assert(pair_models(out@) =~~= pair_models(old(out)@) + spec_files_seq(
                    e.children@.take(i as int + 1),
                ));
            }
        } else {
            proof {
                assert(spec_files_entry(e.children@[i as int]) =~~= Seq::empty());
                assert(pair_models(out@) =~~= pair_models(old(out)@) + spec_files_seq(
                    e.children@.take(i as int + 1),
                ));
            }
        }
        i = i + 1;
    }
    proof {
        assert(e.children@.take(n as int) =~= e.children@);
    }
}

} // verus!
