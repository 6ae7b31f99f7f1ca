//! Reading decimal numbers from text.
//!
//! A decimal is an optional sign, a run of digits, and optionally a point
//! and another run of digits; at least one digit must be present. There is
//! no exponent form. Digits after the ninth fractional digit are dropped,
//! and a value beyond the range of [`Fixed`] goes to the nearest end of it.

use vstd::prelude::*;
use vstd::string::StringSliceAdditionalSpecFns;
use crate::fixed::saturate;
use crate::fixed::Fixed;
use crate::fixed::SCALE;

verus! {

pub open spec fn is_digit(b: u8) -> bool {
    48 <= b <= 57
}

pub open spec fn all_digits(s: Seq<u8>) -> bool {
    forall|i: int| 0 <= i < s.len() ==> is_digit(#[trigger] s[i])
}

/// The number that a run of digits writes in base ten.
pub open spec fn digits_value(s: Seq<u8>) -> nat
    decreases s.len(),
{
    if s.len() == 0 {
        0
    } else {
        digits_value(s.drop_last()) * 10 + (s.last() - 48) as nat
    }
}

/// Ten to the power `n`.
pub open spec fn pow10(n: nat) -> nat
    decreases n,
{
    if n == 0 {
        1
    } else {
        10 * pow10((n - 1) as nat)
    }
}

/// The text begins with a plus or minus sign.
pub open spec fn has_sign(text: Seq<u8>) -> bool {
    text.len() > 0 && (text[0] == 43 || text[0] == 45)
}

/// The text without its sign.
pub open spec fn unsigned_part(text: Seq<u8>) -> Seq<u8> {
    if has_sign(text) {
        text.skip(1)
    } else {
        text
    }
}

/// Position of the first point in `body`, or its length if it has none.
pub open spec fn point_position(body: Seq<u8>) -> int
    decreases body.len(),
{
    if body.len() == 0 || body[0] == 46 {
        0
    } else {
        1 + point_position(body.skip(1))
    }
}

/// The digits before the point.
pub open spec fn whole_digits(text: Seq<u8>) -> Seq<u8> {
    let body = unsigned_part(text);
    body.take(point_position(body))
}

/// The digits after the point; empty where there is no point.
pub open spec fn fraction_digits(text: Seq<u8>) -> Seq<u8> {
    let body = unsigned_part(text);
    let point = point_position(body);
    if point < body.len() {
        body.skip(point + 1)
    } else {
        body.take(0)
    }
}

/// The text is a decimal.
pub open spec fn is_decimal(text: Seq<u8>) -> bool {
    &&& all_digits(whole_digits(text))
    &&& all_digits(fraction_digits(text))
    &&& whole_digits(text).len() + fraction_digits(text).len() > 0
}

/// The first nine fractional digits as a count of billionths.
pub open spec fn fraction_raw(fraction: Seq<u8>) -> nat {
    if fraction.len() >= 9 {
        digits_value(fraction.take(9))
    } else {
        digits_value(fraction) * pow10((9 - fraction.len()) as nat)
    }
}

/// The magnitude of a decimal in billionths, before saturation.
pub open spec fn decimal_magnitude(text: Seq<u8>) -> nat {
    digits_value(whole_digits(text)) * (SCALE as nat) + fraction_raw(fraction_digits(text))
}

/// The value of the text, if it is a decimal.
pub open spec fn decimal_value(text: Seq<u8>) -> Option<Fixed> {
    if is_decimal(text) {
        if has_sign(text) && text[0] == 45 {
            Some(Fixed { raw: saturate(-(decimal_magnitude(text) as int)) })
        } else {
            Some(Fixed { raw: saturate(decimal_magnitude(text) as int) })
        }
    } else {
        None
    }
}

/// Above this many whole units the value is out of range whatever follows.
pub const WHOLE_CAP: u128 = 10_000_000_000;

/// Adding a digit to a run of digits.
pub proof fn lemma_digits_step(s: Seq<u8>, from: int, to: int)
    requires
        0 <= from <= to < s.len(),
    ensures
        digits_value(s.subrange(from, to + 1)) == digits_value(s.subrange(from, to)) * 10 + (s[to]
            - 48) as nat,
{
    assert(s.subrange(from, to + 1).drop_last() =~= s.subrange(from, to));
}

/// The position of the first point lies within the text or at its end.
pub proof fn lemma_point_within(body: Seq<u8>)
    ensures
        0 <= point_position(body) <= body.len(),
    decreases body.len(),
{
    if body.len() > 0 && body[0] != 46 {
        lemma_point_within(body.skip(1));
    }
}

/// The first point stands where a point follows a run without one, and at
/// the end where the whole text is such a run.
pub proof fn lemma_point_position(body: Seq<u8>, k: int)
    requires
        0 <= k <= body.len(),
        forall|i: int| 0 <= i < k ==> body[i] != 46,
    ensures
        k <= point_position(body) <= body.len(),
        (k == body.len() || body[k] == 46) ==> point_position(body) == k,
    decreases k,
{
    lemma_point_within(body);
    if k > 0 {
        assert(body[0] != 46);
        assert forall|i: int| 0 <= i < k - 1 implies body.skip(1)[i] != 46 by {
            assert(body.skip(1)[i] == body[i + 1]);
        }
        lemma_point_position(body.skip(1), k - 1);
        if k < body.len() {
            assert(body.skip(1)[k - 1] == body[k]);
        }
    }
}

/// Reads the run of digits that begins at `start`: where it ends, and the
/// number it writes, held to `WHOLE_CAP`.
fn read_whole(bytes: &[u8], start: usize) -> (out: (usize, u128))
    requires
        start <= bytes@.len(),
    ensures
        start <= out.0 <= bytes@.len(),
        all_digits(bytes@.subrange(start as int, out.0 as int)),
        out.0 < bytes@.len() ==> !is_digit(bytes@[out.0 as int]),
        out.1 == if digits_value(bytes@.subrange(start as int, out.0 as int)) > WHOLE_CAP {
            WHOLE_CAP as nat
        } else {
            digits_value(bytes@.subrange(start as int, out.0 as int))
        },
{
    let n: usize = bytes.len();
    let mut whole: u128 = 0;
    let mut i: usize = start;
    while i < n && bytes[i] >= 48 && bytes[i] <= 57
        invariant
            start <= i <= n,
            n == bytes@.len(),
            forall|k: int| start <= k < i ==> is_digit(#[trigger] bytes@[k]),
            whole <= WHOLE_CAP,
            whole == if digits_value(bytes@.subrange(start as int, i as int)) > WHOLE_CAP {
                WHOLE_CAP as nat
            } else {
                digits_value(bytes@.subrange(start as int, i as int))
            },
        decreases n - i,
    {
        proof {
            lemma_digits_step(bytes@, start as int, i as int);
        }
        whole = whole * 10 + (bytes[i] - 48) as u128;
        if whole > WHOLE_CAP {
            whole = WHOLE_CAP;
        }
        i += 1;
    }
    assert forall|k: int| 0 <= k < i - start implies is_digit(
        #[trigger] bytes@.subrange(start as int, i as int)[k],
    ) by {
        assert(is_digit(bytes@[k + start]));
    }
    (i, whole)
}

/// Reads the fractional digits from `from` to the end of the text: their
/// first nine as a count of billionths, or `None` if one is not a digit.
fn read_fraction(bytes: &[u8], from: usize) -> (out: Option<u128>)
    requires
        from <= bytes@.len(),
    ensures
        out is Some <==> all_digits(bytes@.subrange(from as int, bytes@.len() as int)),
        out matches Some(v) ==> v == fraction_raw(bytes@.subrange(from as int, bytes@.len() as int))
            && v < 1_000_000_000,
{
    let n: usize = bytes.len();
    let ghost fraction = bytes@.subrange(from as int, n as int);
    let mut frac: u128 = 0;
    let mut kept: usize = 0;
    let mut j: usize = from;
    assert(pow10(0) == 1);
    while j < n
        invariant
            from <= j <= n,
            n == bytes@.len(),
            fraction == bytes@.subrange(from as int, n as int),
            forall|k: int| from <= k < j ==> is_digit(#[trigger] bytes@[k]),
            kept <= 9,
            kept == if j - from >= 9 {
                9
            } else {
                j - from
            },
            frac == digits_value(bytes@.subrange(from as int, from + kept)),
            frac < pow10(kept as nat),
            pow10(kept as nat) <= 1_000_000_000,
        decreases n - j,
    {
        if bytes[j] < 48 || bytes[j] > 57 {
            assert(fraction[j - from] == bytes@[j as int]);
            return None;
        }
        if kept < 9 {
            proof {
                lemma_digits_step(bytes@, from as int, j as int);
                reveal_with_fuel(pow10, 11);
            }
            frac = frac * 10 + (bytes[j] - 48) as u128;
            kept += 1;
        }
        j += 1;
    }
    assert forall|k: int| 0 <= k < fraction.len() implies is_digit(#[trigger] fraction[k]) by {
        assert(is_digit(bytes@[k + from]));
    }
    proof {
        assert(fraction.take(kept as int) =~= bytes@.subrange(from as int, from + kept));
        if fraction.len() < 9 {
            assert(fraction.take(kept as int) =~= fraction);
        }
    }
    let padded = pad_to_nine(frac, kept);
    proof {
        if fraction.len() >= 9 {
            assert(pow10(0) == 1);
            assert(frac * 1 == frac);
        }
    }
    Some(padded)
}

/// `frac`, written with `kept` digits, as a count of billionths.
fn pad_to_nine(frac: u128, kept: usize) -> (padded: u128)
    requires
        kept <= 9,
        frac < pow10(kept as nat),
    ensures
        padded == frac * pow10((9 - kept) as nat),
        padded < 1_000_000_000,
{
    let mut padded: u128 = frac;
    let mut digits: usize = kept;
    proof {
        reveal_with_fuel(pow10, 11);
        assert(pow10((digits - kept) as nat) == 1);
        assert(frac * 1 == frac);
    }
    while digits < 9
        invariant
            kept <= digits <= 9,
            padded == frac * pow10((digits - kept) as nat),
            padded < pow10(digits as nat),
            pow10(digits as nat) <= 1_000_000_000,
        decreases 9 - digits,
    {
        proof {
            reveal_with_fuel(pow10, 11);
            assert(frac * pow10((digits + 1 - kept) as nat) == (frac * pow10(
                (digits - kept) as nat,
            )) * 10) by (nonlinear_arith)
                requires
                    pow10((digits + 1 - kept) as nat) == 10 * pow10((digits - kept) as nat),
            ;
        }
        padded = padded * 10;
        digits += 1;
    }
    proof {
        reveal_with_fuel(pow10, 11);
    }
    padded
}

/// The fixed-point number with the given sign and magnitude in billionths,
/// saturating.
fn signed_value(negative: bool, magnitude: u128) -> (r: Fixed)
    ensures
        r.raw == if negative {
            saturate(-(magnitude as int))
        } else {
            saturate(magnitude as int)
        },
{
    if negative {
        if magnitude >= 0x8000_0000_0000_0000 {
            Fixed { raw: i64::MIN }
        } else {
            Fixed { raw: -(magnitude as i64) }
        }
    } else {
        if magnitude > 0x7fff_ffff_ffff_ffff {
            Fixed { raw: i64::MAX }
        } else {
            Fixed { raw: magnitude as i64 }
        }
    }
}

/// How a text divides, given where the run of digits after its sign ends:
/// a text whose run ends before something other than a point is no
/// decimal; otherwise the run is the whole part and what follows the point
/// is the fraction.
proof fn lemma_decimal_shape(all: Seq<u8>, start: int, end: int)
    requires
        start == if has_sign(all) {
            1int
        } else {
            0int
        },
        start <= end <= all.len(),
        all_digits(all.subrange(start, end)),
    ensures
        end < all.len() && all[end] != 46 && !is_digit(all[end]) ==> !is_decimal(all),
        end == all.len() ==> whole_digits(all) == all.subrange(start, end) && fraction_digits(all)
            == all.subrange(end, end),
        end < all.len() && all[end] == 46 ==> whole_digits(all) == all.subrange(start, end)
            && fraction_digits(all) == all.subrange(end + 1, all.len() as int),
{
    let body = unsigned_part(all);
    let run = end - start;
    assert(body.len() == all.len() - start);
    assert forall|k: int| 0 <= k < body.len() implies body[k] == all[k + start] by {}
    assert forall|k: int| 0 <= k < run implies body[k] != 46 by {
        assert(is_digit(all.subrange(start, end)[k]));
    }
    if end < all.len() && all[end] != 46 && !is_digit(all[end]) {
        lemma_point_position(body, run + 1);
        let whole = whole_digits(all);
        assert(whole.len() > run);
        assert(whole[run] == all[end]);
    } else if end == all.len() || all[end] == 46 {
        if end < all.len() {
            assert(body[run] == all[end]);
        }
        lemma_point_position(body, run);
        assert(point_position(body) == run);
        assert(whole_digits(all) =~= all.subrange(start, end));
        if end == all.len() {
            assert(fraction_digits(all) =~= all.subrange(end, end));
        } else {
            assert(fraction_digits(all) =~= all.subrange(end + 1, all.len() as int));
        }
    }
}

/// The number that the text writes as a decimal, or `None` if it is no
/// decimal.
pub fn parse_decimal(text: &str) -> (r: Option<Fixed>)
    ensures
        r == decimal_value(text.spec_bytes()),
{
    let bytes = text.as_bytes();
    let n: usize = bytes.len();
    let negative: bool = n > 0 && bytes[0] == 45;
    let start: usize = if n > 0 && (bytes[0] == 43 || bytes[0] == 45) {
        1
    } else {
        0
    };
    let (end, whole) = read_whole(bytes, start);
    proof {
        lemma_decimal_shape(bytes@, start as int, end as int);
    }
    if end < n && bytes[end] != 46 {
        return None;
    }
    let fraction_start: usize = if end < n {
        end + 1
    } else {
        n
    };
    let padded: u128 = match read_fraction(bytes, fraction_start) {
        Some(v) => v,
        None => {
            return None;
        },
    };
    if end - start == 0 && n - fraction_start == 0 {
        return None;
    }
    if whole >= 9_223_372_037 {
        proof {
            let w = digits_value(whole_digits(bytes@));
            assert(w * (SCALE as nat) >= 9_223_372_037 * 1_000_000_000) by (nonlinear_arith)
                requires
                    w >= 9_223_372_037,
                    SCALE == 1_000_000_000,
            ;
        }
        return Some(signed_value(negative, 0x1_0000_0000_0000_0000));
    }
    Some(signed_value(negative, whole * (SCALE as u128) + padded))
}

} // verus!
