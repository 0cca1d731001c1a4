use vstd::prelude::*;
use vstd::string::StrSliceExecFns;

use crate::error::WmError;

verus! {

/// Largest magnitude that a parsed length may have.
pub const MAX_MAGNITUDE: i64 = 2147483647;

/// Saturation point used while accumulating digits.
const DIGIT_CAP: i64 = 4294967296;

/// The unit of a length.
#[derive(Debug, Clone, Copy, PartialEq, Eq, Structural)]
pub enum LengthUnit {
    Percentage,
    Pixel,
}

/// A length: an amount in hundredths and its unit. A percentage is kept as a
/// fraction of one, so `50%` is an amount of 0.5, that is 50 hundredths, and
/// `100px` is an amount of 100, that is 10000 hundredths.
#[derive(Debug, Clone, Copy, PartialEq, Eq, Structural)]
pub struct LengthValue {
    pub amount_hundredths: i64,
    pub unit: LengthUnit,
}

/// An exact quotient `numer / denom`.
#[derive(Debug, Clone, Copy, PartialEq, Eq, Structural)]
pub struct Fraction {
    pub numer: i64,
    pub denom: i64,
}

pub open spec fn is_digit(c: char) -> bool {
    '0' <= c && c <= '9'
}

pub open spec fn digit_value(c: char) -> int {
    c as int - '0' as int
}

/// Number of decimal digits at the front of `s`.
pub open spec fn digit_run(s: Seq<char>) -> nat
    decreases s.len(),
{
    if s.len() > 0 && is_digit(s[0]) {
        1 + digit_run(s.drop_first())
    } else {
        0
    }
}

/// The value of a string of decimal digits.
pub open spec fn digits_value(s: Seq<char>) -> int
    decreases s.len(),
{
    if s.len() == 0 {
        0
    } else {
        digits_value(s.drop_last()) * 10 + digit_value(s.last())
    }
}

/// The unit named by what follows the digits: nothing or `px` for pixels,
/// `%` for a percentage.
pub open spec fn unit_of_suffix(s: Seq<char>) -> Option<LengthUnit> {
    if s.len() == 0 || s == seq!['p', 'x'] {
        Some(LengthUnit::Pixel)
    } else if s == seq!['%'] {
        Some(LengthUnit::Percentage)
    } else {
        None
    }
}

pub open spec fn sign_len(s: Seq<char>) -> int {
    if s.len() > 0 && (s[0] == '+' || s[0] == '-') {
        1
    } else {
        0
    }
}

/// The integer written at the front of a length string, sign included.
pub open spec fn length_number(s: Seq<char>) -> int {
    let body = s.skip(sign_len(s));
    let n = digits_value(body.take(digit_run(body) as int));
    if sign_len(s) == 1 && s[0] == '-' {
        -n
    } else {
        n
    }
}

/// The length that `s` denotes under the grammar `[+|-]digits[px|%]`, with a
/// magnitude of at most `MAX_MAGNITUDE`; `None` where `s` does not follow it.
pub open spec fn parse_length(s: Seq<char>) -> Option<LengthValue> {
    let body = s.skip(sign_len(s));
    let k = digit_run(body) as int;
    let n = length_number(s);
    if k == 0 || unit_of_suffix(body.skip(k)).is_none() || n > MAX_MAGNITUDE || n
        < -MAX_MAGNITUDE {
        None
    } else {
        let unit = unit_of_suffix(body.skip(k)).unwrap();
        Some(
            LengthValue {
                amount_hundredths: if unit == LengthUnit::Pixel {
                    (n * 100) as i64
                } else {
                    n as i64
                },
                unit,
            },
        )
    }
}

/// Division that rounds toward zero, as a cast from a float to an integer does.
pub open spec fn div_trunc(a: int, b: int) -> int {
    if a >= 0 {
        a / b
    } else {
        -((-a) / b)
    }
}

/// Clamps to the range of `i32`, as a cast from a float to `i32` does.
pub open spec fn clamp_i32(a: int) -> int {
    if a > i32::MAX {
        i32::MAX as int
    } else if a < i32::MIN {
        i32::MIN as int
    } else {
        a
    }
}

/// Pixels that a length stands for, out of `total_px`, at a scale factor of
/// `scale_hundredths / 100`.
pub open spec fn px_of(v: LengthValue, total_px: int, scale_hundredths: int) -> int {
    match v.unit {
        LengthUnit::Percentage => clamp_i32(div_trunc(v.amount_hundredths * total_px, 100)),
        LengthUnit::Pixel => clamp_i32(
            div_trunc(v.amount_hundredths * scale_hundredths, 10000),
        ),
    }
}

/// A length as a share of `total_px`: the amount itself for a percentage,
/// the amount over `total_px` for pixels (amounts are in hundredths).
pub open spec fn fraction_of(v: LengthValue, total_px: int) -> Fraction {
    Fraction {
        numer: v.amount_hundredths,
        denom: match v.unit {
            LengthUnit::Percentage => 100,
            LengthUnit::Pixel => (100 * total_px) as i64,
        },
    }
}

fn div_trunc_exec(a: i128, b: i128) -> (r: i128)
    requires
        b > 0,
        a > i128::MIN,
    ensures
        r == div_trunc(a as int, b as int),
{
    if a >= 0 {
        a / b
    } else {
        -((-a) / b)
    }
}

fn clamp_i32_exec(a: i128) -> (r: i32)
    ensures
        r == clamp_i32(a as int),
{
    if a > i32::MAX as i128 {
        i32::MAX
    } else if a < i32::MIN as i128 {
        i32::MIN
    } else {
        a as i32
    }
}

impl LengthValue {
    /// A pixel length of `px`.
    pub fn from_px(px: i32) -> (r: LengthValue)
        ensures
            r.unit == LengthUnit::Pixel,
            r.amount_hundredths == px as int * 100,
    {
        LengthValue { amount_hundredths: px as i64 * 100, unit: LengthUnit::Pixel }
    }

    /// Pixels that this length stands for: a percentage of `total_px`, or an
    /// amount of pixels at the scale factor `scale_hundredths / 100` (one when
    /// absent). The result is truncated toward zero and clamped to `i32`.
    pub fn to_px(&self, total_px: i32, scale_hundredths: Option<i32>) -> (r: i32)
        ensures
            r == px_of(
                *self,
                total_px as int,
                match scale_hundredths {
                    Some(s) => s as int,
                    None => 100,
                },
            ),
    {
        let scale: i32 = match scale_hundredths {
            Some(s) => s,
            None => 100,
        };
        let amount = self.amount_hundredths as i128;
        match self.unit {
            LengthUnit::Percentage => {
                let t = total_px as i128;
                proof {
                    lemma_product_bound(amount as int, t as int);
                }
                clamp_i32_exec(div_trunc_exec(amount * t, 100))
            },
            LengthUnit::Pixel => {
                let t = scale as i128;
                proof {
                    lemma_product_bound(amount as int, t as int);
                }
                clamp_i32_exec(div_trunc_exec(amount * t, 10000))
            },
        }
    }

    /// This length as a fraction of `total_px`: a percentage as it is, an
    /// amount of pixels divided by `total_px`.
    pub fn to_percentage(&self, total_px: i32) -> (r: Fraction)
        ensures
            r == fraction_of(*self, total_px as int),
    {
        match self.unit {
            LengthUnit::Percentage => Fraction { numer: self.amount_hundredths, denom: 100 },
            LengthUnit::Pixel => Fraction {
                numer: self.amount_hundredths,
                denom: 100 * total_px as i64,
            },
        }
    }

    /// Parses `[+|-]digits[px|%]`: no unit means pixels, and a percentage
    /// is stored as a fraction of one. Anything else, or a magnitude above
    /// `MAX_MAGNITUDE`, is a parse error that echoes the input.
    pub fn parse(s: &str) -> (r: Result<LengthValue, WmError>)
        ensures
            match parse_length(s@) {
                Some(v) => r == Ok::<LengthValue, WmError>(v),
                None => r matches Err(WmError::Parse(t)) && t@ == s@,
            },
    {
        let len = s.unicode_len();
        let mut i: usize = 0;
        let mut negative = false;
        if len > 0 {
            let c = s.get_char(0);
            if c == '+' || c == '-' {
                i = 1;
                negative = c == '-';
            }
        }
        let start = i;
        let ghost body = s@.skip(start as int);
        let mut acc: i64 = 0;
        while i < len && '0' <= s.get_char(i) && s.get_char(i) <= '9'
            invariant
                start <= i <= len,
                len == s@.len(),
                start == sign_len(s@),
                body == s@.skip(start as int),
                forall|j: int| start <= j < i ==> is_digit(#[trigger] s@[j]),
                0 <= acc <= DIGIT_CAP,
                acc == (if digits_value(body.take(i - start)) > DIGIT_CAP {
                    DIGIT_CAP as int
                } else {
                    digits_value(body.take(i - start))
                }),
            decreases len - i,
        {
            let d = (s.get_char(i) as u32 - '0' as u32) as i64;
            let ghost prev = digits_value(body.take(i - start));
            assert(body.take(i + 1 - start).drop_last() =~= body.take(i - start));
            assert(body.take(i + 1 - start).last() == s@[i as int]);
            let next = acc * 10 + d;
            acc = if next > DIGIT_CAP {
                DIGIT_CAP
            } else {
                next
            };
            assert(digits_value(body.take(i + 1 - start)) == prev * 10 + d);
            assert(prev >= 0) by {
                lemma_digits_value_nonneg(body.take(i - start));
            }
            assert(acc == (if prev * 10 + d > DIGIT_CAP {
                DIGIT_CAP as int
            } else {
                prev * 10 + d
            })) by (nonlinear_arith)
                requires
                    next == (if prev > DIGIT_CAP {
                        DIGIT_CAP as int
                    } else {
                        prev
                    }) * 10 + d,
                    acc == (if next > DIGIT_CAP {
                        DIGIT_CAP as int
                    } else {
                        next as int
                    }),
                    0 <= d <= 9,
                    prev >= 0,
            ;
            i = i + 1;
        }
        proof {
            lemma_digit_run(body, (i - start) as int);
        }
        let k = i - start;
        let rest = s.substring_char(i, len);
        assert(rest@ =~= body.skip(k as int));
        let unit = if rest.unicode_len() == 0 {
            Some(LengthUnit::Pixel)
        } else if rest.unicode_len() == 2 && rest.get_char(0) == 'p' && rest.get_char(1) == 'x' {
            assert(rest@ =~= seq!['p', 'x']);
            Some(LengthUnit::Pixel)
        } else if rest.unicode_len() == 1 && rest.get_char(0) == '%' {
            assert(rest@ =~= seq!['%']);
            Some(LengthUnit::Percentage)
        } else {
            None
        };
        assert(unit == unit_of_suffix(body.skip(k as int)));
        if k == 0 || acc > MAX_MAGNITUDE {
            return Err(WmError::Parse(s.to_string()));
        }
        let n: i64 = if negative {
            -acc
        } else {
            acc
        };
        match unit {
            None => Err(WmError::Parse(s.to_string())),
            Some(LengthUnit::Pixel) => Ok(
                LengthValue { amount_hundredths: n * 100, unit: LengthUnit::Pixel },
            ),
            Some(LengthUnit::Percentage) => Ok(
                LengthValue { amount_hundredths: n, unit: LengthUnit::Percentage },
            ),
        }
    }
}

/// The product of an `i64` and an `i32` stays far inside `i128`.
proof fn lemma_product_bound(a: int, b: int)
    requires
        -0x8000_0000_0000_0000 <= a <= 0x7fff_ffff_ffff_ffff,
        -0x8000_0000 <= b <= 0x7fff_ffff,
    ensures
        -0x1_0000_0000_0000_0000_0000_0000 < a * b < 0x1_0000_0000_0000_0000_0000_0000,
{
    let x = if a >= 0 { a } else { -a };
    let y = if b >= 0 { b } else { -b };
    vstd::arithmetic::mul::lemma_mul_upper_bound(x, 0x8000_0000_0000_0000 as int, y, 0x8000_0000 as int);
    assert((0x8000_0000_0000_0000 as int) * (0x8000_0000 as int) == 0x4000_0000_0000_0000_0000_0000 as int) by (nonlinear_arith);
    assert(x * y <= 0x4000_0000_0000_0000_0000_0000);
    assert(x * y == a * b || x * y == -(a * b)) by (nonlinear_arith)
        requires
            x == (if a >= 0 { a } else { -a }),
            y == (if b >= 0 { b } else { -b }),
    ;
}

impl std::str::FromStr for LengthValue {
    type Err = WmError;

    fn from_str(s: &str) -> Result<LengthValue, WmError> {
        LengthValue::parse(s)
    }
}

proof fn lemma_digits_value_nonneg(s: Seq<char>)
    requires
        forall|j: int| 0 <= j < s.len() ==> is_digit(#[trigger] s[j]),
    ensures
        digits_value(s) >= 0,
    decreases s.len(),
{
    if s.len() > 0 {
        lemma_digits_value_nonneg(s.drop_last());
    }
}

/// A prefix of `k` digits that is not followed by a digit is the whole run.
proof fn lemma_digit_run(s: Seq<char>, k: int)
    requires
        0 <= k <= s.len(),
        forall|j: int| 0 <= j < k ==> is_digit(#[trigger] s[j]),
        k == s.len() || !is_digit(s[k]),
    ensures
        digit_run(s) == k,
    decreases k,
{
    if k > 0 {
        assert forall|j: int| 0 <= j < k - 1 implies is_digit(#[trigger] s.drop_first()[j]) by {
            assert(s.drop_first()[j] == s[j + 1]);
        }
        lemma_digit_run(s.drop_first(), k - 1);
    }
}

} // verus!

verus! {

/// A pixel length string of the number `n` converts back to `n` pixels at
/// a scale factor of one, whatever the total.
pub proof fn lemma_px_round_trip(s: Seq<char>, total_px: int)
    requires
        parse_length(s) is Some,
        parse_length(s).unwrap().unit == LengthUnit::Pixel,
    ensures
        px_of(parse_length(s).unwrap(), total_px, 100) == length_number(s),
{
    let n = length_number(s);
    let v = parse_length(s).unwrap();
    assert(v.amount_hundredths == n * 100);
    assert(v.amount_hundredths * 100 == n * 10000) by (nonlinear_arith)
        requires
            v.amount_hundredths == n * 100,
    ;
    if n >= 0 {
        assert((n * 10000) / 10000 == n) by (nonlinear_arith);
    } else {
        assert(-(n * 10000) == (-n) * 10000) by (nonlinear_arith);
        assert(((-n) * 10000) / 10000 == -n) by (nonlinear_arith);
    }
}

/// A percentage string of the number `n` holds the amount `n / 100`, that
/// is `n` hundredths; a pixel length, taken as a share of `total_px`, is its
/// amount divided by `total_px`.
pub proof fn lemma_percentage_amount(s: Seq<char>, v: LengthValue, total_px: i32)
    requires
        v.unit == LengthUnit::Pixel,
    ensures
        parse_length(s) is Some && parse_length(s).unwrap().unit == LengthUnit::Percentage
            ==> parse_length(s).unwrap().amount_hundredths == length_number(s),
        fraction_of(v, total_px as int) == (Fraction {
            numer: v.amount_hundredths,
            denom: (100 * total_px) as i64,
        }),
{
}

} // verus!
