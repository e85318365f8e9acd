use vstd::prelude::*;
use crate::text::{dec_digit, fmt_u64, spec_dec};

verus! {

/// Size units used when rendering byte counts.
#[derive(Clone, Copy, Debug, PartialEq, Eq, Structural)]
pub enum SizeUnit {
    Bytes,
    Kilobytes,
    Megabytes,
    Gigabytes,
    Terabytes,
}

/// Sorting criteria for collected records.
#[derive(Clone, Copy, Debug, PartialEq, Eq, Structural)]
pub enum SortBy {
    Name,
    Size,
    Date,
}

/// One normalized description of a filesystem entry, as produced by a walk.
#[derive(Clone, Debug)]
pub struct FileInfo {
    pub name: String,
    pub path: String,
    pub size: u64,
    pub size_human: String,
    pub file_type: String,
    pub created: Option<String>,
    pub modified: Option<String>,
    pub permissions: String,
    pub is_directory: bool,
}

/// The mathematical abstraction of a `FileInfo`: every string field as a
/// character sequence, the size as an unbounded integer.
#[verifier::ext_equal]
pub ghost struct RecordModel {
    pub name: Seq<char>,
    pub path: Seq<char>,
    pub size: int,
    pub size_human: Seq<char>,
    pub file_type: Seq<char>,
    pub created: Option<Seq<char>>,
    pub modified: Option<Seq<char>>,
    pub permissions: Seq<char>,
    pub is_directory: bool,
}

impl View for FileInfo {
    type V = RecordModel;

    open spec fn view(&self) -> RecordModel {
        RecordModel {
            name: self.name@,
            path: self.path@,
            size: self.size as int,
            size_human: self.size_human@,
            file_type: self.file_type@,
            created: match self.created {
                Some(s) => Some(s@),
                None => None,
            },
            modified: match self.modified {
                Some(s) => Some(s@),
                None => None,
            },
            permissions: self.permissions@,
            is_directory: self.is_directory,
        }
    }
}

/// The abstraction of a whole record sequence.
pub open spec fn models(s: Seq<FileInfo>) -> Seq<RecordModel> {
    s.map_values(|r: FileInfo| r@)
}

// ---------------------------------------------------------------------------
// Size rendering.
// ---------------------------------------------------------------------------

/// How many bytes one unit stands for (binary, 1024-based).
pub open spec fn unit_divisor(u: SizeUnit) -> int {
    match u {
        SizeUnit::Bytes => 1,
        SizeUnit::Kilobytes => 1024,
        SizeUnit::Megabytes => 1048576,
        SizeUnit::Gigabytes => 1073741824,
        SizeUnit::Terabytes => 1099511627776,
    }
}

/// The display suffix of a unit.
pub open spec fn unit_suffix(u: SizeUnit) -> Seq<char> {
    match u {
        SizeUnit::Bytes => seq![' ', 'B'],
        SizeUnit::Kilobytes => seq![' ', 'K', 'B'],
        SizeUnit::Megabytes => seq![' ', 'M', 'B'],
        SizeUnit::Gigabytes => seq![' ', 'G', 'B'],
        SizeUnit::Terabytes => seq![' ', 'T', 'B'],
    }
}

/// `num / den` rounded to the nearest integer, ties to even.
pub open spec fn round_half_even(num: int, den: int) -> int
    recommends
        num >= 0,
        den > 0,
{
    let q = num / den;
    let r = num % den;
    if 2 * r > den {
        q + 1
    } else if 2 * r < den {
        q
    } else if q % 2 == 0 {
        q
    } else {
        q + 1
    }
}

/// The quantity `bytes / den` rendered with two decimal places.
pub open spec fn spec_scaled(bytes: int, den: int) -> Seq<char> {
    let h = round_half_even(bytes * 100, den);
    spec_dec(h / 100) + seq!['.', dec_digit((h % 100) / 10), dec_digit(h % 10)]
}

/// `bytes` rendered in the unit `u`: an integer count for bytes, two decimal
/// places for the larger units, followed by the unit suffix.
pub open spec fn spec_format_size(u: SizeUnit, bytes: int) -> Seq<char> {
    match u {
        SizeUnit::Bytes => spec_dec(bytes) + seq![' ', 'B'],
        _ => spec_scaled(bytes, unit_divisor(u)) + unit_suffix(u),
    }
}

/// The largest unit in which `bytes` still displays as at least one whole unit.
pub open spec fn spec_auto_unit(bytes: int) -> SizeUnit {
    if bytes >= 1099511627776 {
        SizeUnit::Terabytes
    } else if bytes >= 1073741824 {
        SizeUnit::Gigabytes
    } else if bytes >= 1048576 {
        SizeUnit::Megabytes
    } else if bytes >= 1024 {
        SizeUnit::Kilobytes
    } else {
        SizeUnit::Bytes
    }
}

/// Auto-scaled rendering of a byte count.
pub open spec fn spec_auto_format(bytes: int) -> Seq<char> {
    spec_format_size(spec_auto_unit(bytes), bytes)
}

/// What a size-unit name means, after lowercasing.
pub open spec fn spec_unit_of(l: Seq<char>) -> Option<SizeUnit> {
    if l == "b"@ || l == "bytes"@ || l == "auto"@ {
        Some(SizeUnit::Bytes)
    } else if l == "kb"@ || l == "kilobytes"@ {
        Some(SizeUnit::Kilobytes)
    } else if l == "mb"@ || l == "megabytes"@ {
        Some(SizeUnit::Megabytes)
    } else if l == "gb"@ || l == "gigabytes"@ {
        Some(SizeUnit::Gigabytes)
    } else if l == "tb"@ || l == "terabytes"@ {
        Some(SizeUnit::Terabytes)
    } else {
        None
    }
}

/// The lowercase equivalent of a string, as `str::to_lowercase` computes it.
pub uninterp spec fn lower_of(s: Seq<char>) -> Seq<char>;

/// Relies on str::to_lowercase: the result is the Unicode lowercase
/// equivalent of the input, a function of its characters alone.
#[verifier::external_body]
fn to_lower(s: &str) -> (r: String)
    ensures
        r@ == lower_of(s@),
{
    s.to_lowercase()
}

/// `a` holds exactly the characters of the literal `b`.
pub(crate) fn str_eq(a: &String, b: &str) -> (r: bool)
    ensures
        r == (a@ == b@),
{
    let bs = String::from_str(b);
    *a == bs
}

/// Rounds `bytes * 100 / den`, ties to even; the two low decimal digits of
/// the result are the fraction displayed after the decimal point.
fn scale_hundredths(bytes: u64, den: u64) -> (h: u64)
    requires
        1024 <= den <= 1099511627776,
    ensures
        h as int == round_half_even(bytes as int * 100, den as int),
{
    let num: u128 = (bytes as u128) * 100;
    let d: u128 = den as u128;
    let q: u128 = num / d;
    let r: u128 = num % d;
    proof {
        vstd::arithmetic::div_mod::lemma_fundamental_div_mod(num as int, d as int);
        assert(q as int * 1024 <= num as int) by (nonlinear_arith)
            requires
                num as int == d as int * (q as int) + r as int,
                r as int >= 0,
                d as int >= 1024,
                q as int >= 0,
        ;
        assert(q < 0x2000_0000_0000_0000);
    }
    let h: u128 = if 2 * r > d {
        q + 1
    } else if 2 * r < d {
        q
    } else if q % 2 == 0 {
        q
    } else {
        q + 1
    };
    h as u64
}

/// Renders `bytes / den` with two decimal places.
fn fmt_scaled(bytes: u64, den: u64) -> (s: String)
    requires
        1024 <= den <= 1099511627776,
    ensures
        s@ == spec_scaled(bytes as int, den as int),
{
    let h = scale_hundredths(bytes, den);
    let mut s = fmt_u64(h / 100);
    s.append(".");
    s.append(crate::text::digit_str((h % 100) / 10));
    s.append(crate::text::digit_str(h % 10));
    proof {
        reveal_strlit(".");
        assert(s@ =~= spec_scaled(bytes as int, den as int));
    }
    s
}

impl SizeUnit {
    /// Parses a size-unit name, case-insensitively; `"auto"` counts as bytes.
    pub fn from_str(s: &str) -> (r: Result<SizeUnit, String>)
        ensures
            match spec_unit_of(lower_of(s@)) {
                Some(u) => r matches Ok(v) && v == u,
                None => r matches Err(e) && e@ == "Invalid size unit: "@ + s@,
            },
    {
        let l = to_lower(s);
        if str_eq(&l, "b") || str_eq(&l, "bytes") || str_eq(&l, "auto") {
            Ok(SizeUnit::Bytes)
        } else if str_eq(&l, "kb") || str_eq(&l, "kilobytes") {
            Ok(SizeUnit::Kilobytes)
        } else if str_eq(&l, "mb") || str_eq(&l, "megabytes") {
            Ok(SizeUnit::Megabytes)
        } else if str_eq(&l, "gb") || str_eq(&l, "gigabytes") {
            Ok(SizeUnit::Gigabytes)
        } else if str_eq(&l, "tb") || str_eq(&l, "terabytes") {
            Ok(SizeUnit::Terabytes)
        } else {
            let mut e = String::from_str("Invalid size unit: ");
            e.append(s);
            Err(e)
        }
    }

    /// Renders a byte count in this unit.
    pub fn format_size(&self, bytes: u64) -> (s: String)
        ensures
            s@ == spec_format_size(*self, bytes as int),
    {
        match self {
            SizeUnit::Bytes => {
                let mut s = fmt_u64(bytes);
                s.append(" B");
                proof {
                    reveal_strlit(" B");
                    assert(s@ =~= spec_format_size(*self, bytes as int));
                }
                s
            },
            SizeUnit::Kilobytes => {
                let mut s = fmt_scaled(bytes, 1024);
                s.append(" KB");
                proof {
                    reveal_strlit(" KB");
                    assert(s@ =~= spec_format_size(*self, bytes as int));
                }
                s
            },
            SizeUnit::Megabytes => {
                let mut s = fmt_scaled(bytes, 1048576);
                s.append(" MB");
                proof {
                    reveal_strlit(" MB");
                    assert(s@ =~= spec_format_size(*self, bytes as int));
                }
                s
            },
            SizeUnit::Gigabytes => {
                let mut s = fmt_scaled(bytes, 1073741824);
                s.append(" GB");
                proof {
                    reveal_strlit(" GB");
                    assert(s@ =~= spec_format_size(*self, bytes as int));
                }
                s
            },
            SizeUnit::Terabytes => {
                let mut s = fmt_scaled(bytes, 1099511627776);
                s.append(" TB");
                proof {
                    reveal_strlit(" TB");
                    assert(s@ =~= spec_format_size(*self, bytes as int));
                }
                s
            },
        }
    }

    /// Renders a byte count in the largest unit that keeps the magnitude at
    /// least one, as an integer for bytes and to two decimal places otherwise.
    pub fn auto_format_size(bytes: u64) -> (s: String)
        ensures
            s@ == spec_auto_format(bytes as int),
    {
        if bytes >= 1099511627776 {
            SizeUnit::Terabytes.format_size(bytes)
        } else if bytes >= 1073741824 {
            SizeUnit::Gigabytes.format_size(bytes)
        } else if bytes >= 1048576 {
            SizeUnit::Megabytes.format_size(bytes)
        } else if bytes >= 1024 {
            SizeUnit::Kilobytes.format_size(bytes)
        } else {
            SizeUnit::Bytes.format_size(bytes)
        }
    }
}

} // verus!
