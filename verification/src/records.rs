use vstd::prelude::*;
use crate::fstree::{get_file_size, sat64, spec_size, FsEntry};
use crate::types::{spec_auto_format, FileInfo, RecordModel, SizeUnit};

verus! {

// ---------------------------------------------------------------------------
// Permission summaries.
// ---------------------------------------------------------------------------

/// The compact three-character capability summary: read-only or read-write
/// from the entry's own metadata, deletable or not from whether the parent
/// directory is writable (deletion is a parent-directory capability).
pub open spec fn spec_compact_perm(readonly: bool, parent_deletable: bool) -> Seq<char> {
    if readonly {
        if parent_deletable {
            seq!['r', '-', 'x']
        } else {
            seq!['r', '-', '-']
        }
    } else {
        if parent_deletable {
            seq!['r', 'w', 'x']
        } else {
            seq!['r', 'w', '-']
        }
    }
}

/// The detailed POSIX-style permission string: a type character followed by
/// nine read/write/execute positions decoded from the mode bits.
pub open spec fn spec_detailed_perm(mode: u32, is_dir: bool) -> Seq<char> {
    seq![
        if is_dir {
            'd'
        } else {
            '-'
        },
        if mode & 0o400 != 0 {
            'r'
        } else {
            '-'
        },
        if mode & 0o200 != 0 {
            'w'
        } else {
            '-'
        },
        if mode & 0o100 != 0 {
            'x'
        } else {
            '-'
        },
        if mode & 0o040 != 0 {
            'r'
        } else {
            '-'
        },
        if mode & 0o020 != 0 {
            'w'
        } else {
            '-'
        },
        if mode & 0o010 != 0 {
            'x'
        } else {
            '-'
        },
        if mode & 0o004 != 0 {
            'r'
        } else {
            '-'
        },
        if mode & 0o002 != 0 {
            'w'
        } else {
            '-'
        },
        if mode & 0o001 != 0 {
            'x'
        } else {
            '-'
        },
    ]
}

/// Builds the compact capability summary.
pub fn compact_perm(readonly: bool, parent_deletable: bool) -> (s: String)
    ensures
        s@ == spec_compact_perm(readonly, parent_deletable),
{
    proof {
        reveal_strlit("r-x");
        reveal_strlit("r--");
        reveal_strlit("rwx");
        reveal_strlit("rw-");
    }
    let l = if readonly {
        if parent_deletable {
            "r-x"
        } else {
            "r--"
        }
    } else {
        if parent_deletable {
            "rwx"
        } else {
            "rw-"
        }
    };
    assert(l@ =~= spec_compact_perm(readonly, parent_deletable));
    String::from_str(l)
}

/// Renders permissions either in the detailed ten-character POSIX style or in
/// the compact three-character capability summary.
pub fn format_unix_permissions(
    mode: u32,
    is_dir: bool,
    readonly: bool,
    parent_deletable: bool,
    detailed: bool,
) -> (s: String)
    ensures
        s@ == if detailed {
            spec_detailed_perm(mode, is_dir)
        } else {
            spec_compact_perm(readonly, parent_deletable)
        },
{
    if detailed {
        proof {
            reveal_strlit("d");
            reveal_strlit("-");
            reveal_strlit("r");
            reveal_strlit("w");
            reveal_strlit("x");
        }
        let mut s = String::from_str(if is_dir { "d" } else { "-" });
        s.append(if mode & 0o400 != 0 { "r" } else { "-" });
        s.append(if mode & 0o200 != 0 { "w" } else { "-" });
        s.append(if mode & 0o100 != 0 { "x" } else { "-" });
        s.append(if mode & 0o040 != 0 { "r" } else { "-" });
        s.append(if mode & 0o020 != 0 { "w" } else { "-" });
        s.append(if mode & 0o010 != 0 { "x" } else { "-" });
        s.append(if mode & 0o004 != 0 { "r" } else { "-" });
        s.append(if mode & 0o002 != 0 { "w" } else { "-" });
        s.append(if mode & 0o001 != 0 { "x" } else { "-" });
        assert(s@ =~= spec_detailed_perm(mode, is_dir));
        s
    } else {
        compact_perm(readonly, parent_deletable)
    }
}

// ---------------------------------------------------------------------------
// Timestamp formatting and parsing.
// ---------------------------------------------------------------------------

/// The `YYYY-MM-DD HH:MM:SS UTC` rendering of an epoch second count, absent
/// when the count lies outside the representable calendar range.
pub uninterp spec fn utc_of(secs: i64) -> Option<Seq<char>>;

/// Relies on chrono::DateTime::<Utc>::from_timestamp and chrono's `format`:
/// the rendering is a function of the second count alone, and `None` comes
/// exactly when the count lies outside chrono's calendar range.
#[verifier::external_body]
fn format_utc(secs: i64) -> (r: Option<String>)
    ensures
        match utc_of(secs) {
            Some(v) => r matches Some(s) && s@ == v,
            None => r is None,
        },
{
    match chrono::DateTime::<chrono::Utc>::from_timestamp(secs, 0) {
        Some(dt) => Some(dt.format("%Y-%m-%d %H:%M:%S UTC").to_string()),
        None => None,
    }
}

/// The epoch second count a `YYYY-MM-DD HH:MM:SS UTC` string denotes, absent
/// when the string does not parse in that shape.
pub uninterp spec fn epoch_of(s: Seq<char>) -> Option<i64>;

/// Relies on chrono::NaiveDateTime::parse_from_str and `timestamp`: whether
/// and how a timestamp string parses is a function of its characters alone.
#[verifier::external_body]
pub(crate) fn parse_utc(s: &str) -> (r: Option<i64>)
    ensures
        r == epoch_of(s@),
{
    match chrono::NaiveDateTime::parse_from_str(s, "%Y-%m-%d %H:%M:%S UTC") {
        Ok(dt) => Some(dt.and_utc().timestamp()),
        Err(_) => None,
    }
}

// ---------------------------------------------------------------------------
// Content-signature type sniffing.
// ---------------------------------------------------------------------------

/// The MIME-like type name that content-signature matching gives a buffer,
/// absent when no known signature matches (an empty buffer matches none).
pub uninterp spec fn mime_of(head: Seq<u8>) -> Option<Seq<char>>;

/// Relies on infer::get and infer::Type::mime_type: the classification is a
/// magic-byte lookup, a function of the buffer bytes alone.
#[verifier::external_body]
fn sniff_type(head: &Vec<u8>) -> (r: Option<String>)
    ensures
        match mime_of(head@) {
            Some(v) => r matches Some(s) && s@ == v,
            None => r is None,
        },
{
    infer::get(head).map(|k| k.mime_type().to_string())
}

// ---------------------------------------------------------------------------
// The normalizer: one filesystem node to one record.
// ---------------------------------------------------------------------------

/// The type tag of directories.
pub open spec fn dir_type() -> Seq<char> {
    seq!['d', 'i', 'r', 'e', 'c', 't', 'o', 'r', 'y']
}

/// The type tag of files no signature matches.
pub open spec fn unknown_type() -> Seq<char> {
    seq!['u', 'n', 'k', 'n', 'o', 'w', 'n']
}

/// The record a node normalizes to, given whether its parent directory is
/// writable: name and path carried over, the size of a directory recomputed
/// as its full recursive total, the human rendering derived from the size,
/// the type sniffed from content, timestamps formatted when present, and the
/// compact permission summary.
pub open spec fn spec_record(e: FsEntry, parent_deletable: bool) -> RecordModel {
    RecordModel {
        name: e.name@,
        path: e.path@,
        size: sat64(spec_size(e)),
        size_human: spec_auto_format(sat64(spec_size(e))),
        file_type: if e.is_dir {
            dir_type()
        } else {
            match mime_of(e.head@) {
                Some(m) => m,
                None => unknown_type(),
            }
        },
        created: match e.created {
            Some(t) => utc_of(t),
            None => None,
        },
        modified: match e.modified {
            Some(t) => utc_of(t),
            None => None,
        },
        permissions: spec_compact_perm(e.readonly, parent_deletable),
        is_directory: e.is_dir,
    }
}

/// Normalizes one node into a record.
pub fn make_record(e: &FsEntry, parent_deletable: bool) -> (r: FileInfo)
    ensures
        r@ == spec_record(*e, parent_deletable),
{
    let size = get_file_size(e);
    let size_human = SizeUnit::auto_format_size(size);
    let file_type = if e.is_dir {
        let t = String::from_str("directory");
        proof {
            reveal_strlit("directory");
            assert(t@ =~= dir_type());
        }
        t
    } else {
        match sniff_type(&e.head) {
            Some(m) => m,
            None => {
                let t = String::from_str("unknown");
                proof {
                    reveal_strlit("unknown");
                    assert(t@ =~= unknown_type());
                }
                t
            },
        }
    };
    let created = match e.created {
        Some(t) => format_utc(t),
        None => None,
    };
    let modified = match e.modified {
        Some(t) => format_utc(t),
        None => None,
    };
    let permissions = compact_perm(e.readonly, parent_deletable);
    let r = FileInfo {
        name: e.name.clone(),
        path: e.path.clone(),
        size,
        size_human,
        file_type,
        created,
        modified,
        permissions,
        is_directory: e.is_dir,
    };
    proof {
        assert(r@ =~~= spec_record(*e, parent_deletable));
    }
    r
}

} // verus!
