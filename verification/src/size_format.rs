//! Human-readable rendering of byte counts.
//!
//! `format_size` maps a byte count to a string with binary (1024-based)
//! unit scaling: gigabytes from 1024^3 up, megabytes from 1024^2, kilobytes
//! from 1024, and a plain integer byte count below that.  Scaled values
//! carry exactly two decimal digits, rounded half up; byte counts carry
//! none.  The exact character sequence produced is pinned down by
//! `spec_format_size`.

use vstd::arithmetic::div_mod::{lemma_div_is_ordered, lemma_div_is_ordered_by_denominator};
use vstd::prelude::*;

verus! {

/// Bytes per kilobyte on the binary scale.
pub const KB: u64 = 1024;

/// Bytes per megabyte on the binary scale.
pub const MB: u64 = 1024 * 1024;

/// Bytes per gigabyte on the binary scale.
pub const GB: u64 = 1024 * 1024 * 1024;

/// The character for a single decimal digit value; values ten and above
/// (which never arise from `% 10`) collapse to `'9'`.
pub open spec fn digit_char(d: nat) -> char {
    if d == 0 {
        '0'
    } else if d == 1 {
        '1'
    } else if d == 2 {
        '2'
    } else if d == 3 {
        '3'
    } else if d == 4 {
        '4'
    } else if d == 5 {
        '5'
    } else if d == 6 {
        '6'
    } else if d == 7 {
        '7'
    } else if d == 8 {
        '8'
    } else {
        '9'
    }
}

/// The usual decimal rendering of `n`, most significant digit first, with
/// no leading zeros except for `n == 0` itself.
pub open spec fn spec_digits(n: nat) -> Seq<char>
    decreases n,
{
    if n < 10 {
        seq![digit_char(n)]
    } else {
        spec_digits(n / 10).push(digit_char(n % 10))
    }
}

/// `size / div` rendered with exactly two decimal digits, rounded half up:
/// the hundredths value is `(size * 100 + div / 2) / div`, split into an
/// integer part and two fraction digits.
pub open spec fn spec_scaled(size: int, div: int) -> Seq<char> {
    let h = (size * 100 + div / 2) / div;
    spec_digits((h / 100) as nat) + "."@ + seq![
        digit_char(((h / 10) % 10) as nat),
        digit_char((h % 10) as nat),
    ]
}

/// The unit bucket that the thresholds assign to `size`.
pub open spec fn unit_suffix(size: int) -> Seq<char> {
    if size >= GB as int {
        " GB"@
    } else if size >= MB as int {
        " MB"@
    } else if size >= KB as int {
        " KB"@
    } else {
        " B"@
    }
}

/// The full rendering: the scaled value for the bucket the thresholds
/// select, followed by that bucket's unit suffix.
pub open spec fn spec_format_size(size: int) -> Seq<char> {
    if size >= GB as int {
        spec_scaled(size, GB as int) + " GB"@
    } else if size >= MB as int {
        spec_scaled(size, MB as int) + " MB"@
    } else if size >= KB as int {
        spec_scaled(size, KB as int) + " KB"@
    } else {
        spec_digits(size as nat) + " B"@
    }
}

/// A one-character string for the digit value `d`.
fn digit_str(d: u64) -> (s: &'static str)
    requires
        d < 10,
    ensures
        s@ == seq![digit_char(d as nat)],
{
    if d == 0 {
        proof {
            reveal_strlit("0");
            assert("0"@ =~= seq![digit_char(d as nat)]);
        }
        "0"
    } else if d == 1 {
        proof {
            reveal_strlit("1");
            assert("1"@ =~= seq![digit_char(d as nat)]);
        }
        "1"
    } else if d == 2 {
        proof {
            reveal_strlit("2");
            assert("2"@ =~= seq![digit_char(d as nat)]);
        }
        "2"
    } else if d == 3 {
        proof {
            reveal_strlit("3");
            assert("3"@ =~= seq![digit_char(d as nat)]);
        }
        "3"
    } else if d == 4 {
        proof {
            reveal_strlit("4");
            assert("4"@ =~= seq![digit_char(d as nat)]);
        }
        "4"
    } else if d == 5 {
        proof {
            reveal_strlit("5");
            assert("5"@ =~= seq![digit_char(d as nat)]);
        }
        "5"
    } else if d == 6 {
        proof {
            reveal_strlit("6");
            assert("6"@ =~= seq![digit_char(d as nat)]);
        }
        "6"
    } else if d == 7 {
        proof {
            reveal_strlit("7");
            assert("7"@ =~= seq![digit_char(d as nat)]);
        }
        "7"
    } else if d == 8 {
        proof {
            reveal_strlit("8");
            assert("8"@ =~= seq![digit_char(d as nat)]);
        }
        "8"
    } else {
        proof {
            reveal_strlit("9");
            assert("9"@ =~= seq![digit_char(d as nat)]);
        }
        "9"
    }
}

/// The decimal rendering of `n`, matching `spec_digits` exactly.
pub fn u64_digits(n: u64) -> (s: String)
    ensures
        s@ == spec_digits(n as nat),
    decreases n,
{
    if n < 10 {
        let mut s = String::new();
        s.append(digit_str(n));
        proof {
            assert(s@ =~= seq![digit_char(n as nat)]);
        }
        s
    } else {
        let mut s = u64_digits(n / 10);
        s.append(digit_str(n % 10));
        proof {
            assert(s@ =~= spec_digits((n as nat) / 10).push(digit_char((n as nat) % 10)));
        }
        s
    }
}

/// Renders `size / div` with two decimal digits and appends `unit`.
fn scaled_string(size: u64, div: u64, unit: &str) -> (s: String)
    requires
        1024 <= div,
        div % 2 == 0,
    ensures
        s@ == spec_scaled(size as int, div as int) + unit@,
{
    let half: u64 = div / 2;
    let num: u128 = (size as u128) * 100 + (half as u128);
    let wide: u128 = num / (div as u128);
    proof {
        lemma_div_is_ordered_by_denominator(num as int, 1024, div as int);
        lemma_div_is_ordered(num as int, u64::MAX as int * 100 + u64::MAX as int, 1024);
        assert((u64::MAX as int * 100 + u64::MAX as int) / 1024 <= u64::MAX as int);
    }
    let h: u64 = wide as u64;
    let mut s = u64_digits(h / 100);
    s.append(".");
    s.append(digit_str((h / 10) % 10));
    s.append(digit_str(h % 10));
    s.append(unit);
    proof {
        assert(s@ =~= spec_scaled(size as int, div as int) + unit@);
    }
    s
}

/// Whether `c` is one of the ten decimal digit characters.
pub open spec fn is_dec_digit(c: char) -> bool {
    c == '0' || c == '1' || c == '2' || c == '3' || c == '4' || c == '5' || c == '6' || c == '7'
        || c == '8' || c == '9'
}

/// `suffix` is the tail of `s`.
pub open spec fn has_suffix(s: Seq<char>, suffix: Seq<char>) -> bool {
    s.len() >= suffix.len() && s.subrange(s.len() - suffix.len(), s.len() as int) == suffix
}

/// Every decimal rendering is non-empty and made of digit characters only.
proof fn lemma_digits_shape(n: nat)
    ensures
        spec_digits(n).len() >= 1,
        forall|i: int|
            0 <= i < spec_digits(n).len() ==> is_dec_digit(#[trigger] spec_digits(n)[i]),
    decreases n,
{
    if n < 10 {
    } else {
        lemma_digits_shape(n / 10);
        assert forall|i: int| 0 <= i < spec_digits(n).len() implies is_dec_digit(
            spec_digits(n)[i],
        ) by {
            if i < spec_digits(n / 10).len() {
                assert(spec_digits(n)[i] == spec_digits(n / 10)[i]);
            } else {
                assert(spec_digits(n)[i] == digit_char(n % 10));
            }
        }
    }
}

/// A suffix claim fails as soon as one aligned character differs.
proof fn lemma_suffix_differs(s: Seq<char>, suffix: Seq<char>, k: int)
    requires
        0 <= k < suffix.len(),
        suffix.len() <= s.len(),
        s[s.len() - suffix.len() + k] != suffix[k],
    ensures
        !has_suffix(s, suffix),
{
    if has_suffix(s, suffix) {
        assert(s.subrange(s.len() - suffix.len(), s.len() as int)[k] == suffix[k]);
    }
}

/// Law (unit bucketing): every rendered size ends with the unit suffix of
/// exactly one bucket, the one its thresholds select, and a rendering in
/// the plain-bytes bucket never contains a decimal point.
pub proof fn lemma_format_one_bucket(size: int)
    requires
        0 <= size,
    ensures
        has_suffix(spec_format_size(size), unit_suffix(size)),
        size >= GB as int ==> !has_suffix(spec_format_size(size), " MB"@) && !has_suffix(
            spec_format_size(size),
            " KB"@,
        ) && !has_suffix(spec_format_size(size), " B"@),
        MB as int <= size < GB as int ==> !has_suffix(spec_format_size(size), " GB"@)
            && !has_suffix(spec_format_size(size), " KB"@) && !has_suffix(
            spec_format_size(size),
            " B"@,
        ),
        KB as int <= size < MB as int ==> !has_suffix(spec_format_size(size), " GB"@)
            && !has_suffix(spec_format_size(size), " MB"@) && !has_suffix(
            spec_format_size(size),
            " B"@,
        ),
        size < KB as int ==> !has_suffix(spec_format_size(size), " GB"@) && !has_suffix(
            spec_format_size(size),
            " MB"@,
        ) && !has_suffix(spec_format_size(size), " KB"@) && (forall|i: int|
            0 <= i < spec_format_size(size).len() ==> spec_format_size(size)[i] != '.'),
{
    reveal_strlit(" GB");
    reveal_strlit(" MB");
    reveal_strlit(" KB");
    reveal_strlit(" B");
    let f = spec_format_size(size);
    if size >= KB as int {
        let u = unit_suffix(size);
        let body = if size >= GB as int {
            spec_scaled(size, GB as int)
        } else if size >= MB as int {
            spec_scaled(size, MB as int)
        } else {
            spec_scaled(size, KB as int)
        };
        assert(f == body + u);
        assert(f.subrange(f.len() - u.len(), f.len() as int) =~= u);
        // The character two places from the end is the unit letter, which
        // tells the three scaled buckets and the plain-bytes bucket apart.
        assert(f[f.len() - 2] == u[1]);
        if size >= GB as int {
            lemma_suffix_differs(f, " MB"@, 1);
            lemma_suffix_differs(f, " KB"@, 1);
            lemma_suffix_differs(f, " B"@, 0);
        } else if size >= MB as int {
            lemma_suffix_differs(f, " GB"@, 1);
            lemma_suffix_differs(f, " KB"@, 1);
            lemma_suffix_differs(f, " B"@, 0);
        } else {
            lemma_suffix_differs(f, " GB"@, 1);
            lemma_suffix_differs(f, " MB"@, 1);
            lemma_suffix_differs(f, " B"@, 0);
        }
    } else {
        let d = spec_digits(size as nat);
        lemma_digits_shape(size as nat);
        assert(f == d + " B"@);
        assert(f.subrange(f.len() - 2, f.len() as int) =~= " B"@);
        // The character three places from the end is the last digit, never
        // the space that each scaled suffix starts with.
        assert(f[f.len() - 3] == d[d.len() - 1]);
        lemma_suffix_differs(f, " GB"@, 0);
        lemma_suffix_differs(f, " MB"@, 0);
        lemma_suffix_differs(f, " KB"@, 0);
        assert forall|i: int| 0 <= i < f.len() implies f[i] != '.' by {
            if i < d.len() {
                assert(f[i] == d[i]);
            } else {
                assert(f[i] == (" B"@)[i - d.len()]);
            }
        }
    }
}

/// The human-readable rendering of a byte count, with binary unit scaling
/// and two decimal digits on every scaled value.
pub fn format_size(size: u64) -> (s: String)
    ensures
        s@ == spec_format_size(size as int),
{
    if size >= GB {
        scaled_string(size, GB, " GB")
    } else if size >= MB {
        scaled_string(size, MB, " MB")
    } else if size >= KB {
        scaled_string(size, KB, " KB")
    } else {
        let mut s = u64_digits(size);
        s.append(" B");
        s
    }
}

} // verus!
