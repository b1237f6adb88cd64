//! The parameters of a NACA 4-digit section and its four-digit code.

use vstd::prelude::*;
use vstd::string::*;
use crate::single::Single;

verus! {

/// The number of points per surface of a section made without saying so.
pub const DEFAULT_NUM_POINTS: usize = 160;

/// An angle of attack of smaller magnitude than this counts as zero when a
/// reference is looked up: 1e-3.
pub const REFERENCE_ALPHA_BITS: u32 = 0x3a83_126f;

/// Reference lift coefficient of NACA 2412 at zero angle of attack: 0.2554.
pub const REFERENCE_CL_BITS: u32 = 0x3e82_c3ca;

/// Reference moment coefficient about the quarter chord: -0.0557.
pub const REFERENCE_CM_BITS: u32 = 0xbd64_25af;

/// Reference profile drag: -0.00119.
pub const REFERENCE_CDP_BITS: u32 = 0xba9b_f9c6;

/// Parameters of a NACA 4-digit airfoil.
#[derive(Clone, Copy, Debug, PartialEq, Eq, Structural)]
pub struct NacaParams {
    /// First digit: maximum camber in percent of the chord.
    pub m_digit: u8,
    /// Second digit: position of the maximum camber in tenths of the chord.
    pub p_digit: u8,
    /// Last two digits: thickness in percent of the chord.
    pub t_digits: u8,
    /// Sampling points per surface.
    pub num_points: usize,
}

/// The character of a decimal digit.
pub open spec fn digit_char(d: int) -> char {
    if d == 0 {
        '0'
    } else if d == 1 {
        '1'
    } else if d == 2 {
        '2'
    } else if d == 3 {
        '3'
    } else if d == 4 {
        '4'
    } else if d == 5 {
        '5'
    } else if d == 6 {
        '6'
    } else if d == 7 {
        '7'
    } else if d == 8 {
        '8'
    } else {
        '9'
    }
}

/// The value of a character that is an ASCII decimal digit.
pub open spec fn digit_value(c: char) -> Option<u8> {
    if c == '0' {
        Some(0u8)
    } else if c == '1' {
        Some(1u8)
    } else if c == '2' {
        Some(2u8)
    } else if c == '3' {
        Some(3u8)
    } else if c == '4' {
        Some(4u8)
    } else if c == '5' {
        Some(5u8)
    } else if c == '6' {
        Some(6u8)
    } else if c == '7' {
        Some(7u8)
    } else if c == '8' {
        Some(8u8)
    } else if c == '9' {
        Some(9u8)
    } else {
        None
    }
}

/// A number in decimal, without leading zeros.
pub open spec fn decimal(v: int) -> Seq<char>
    decreases v,
{
    if v < 10 {
        seq![digit_char(v)]
    } else {
        decimal(v / 10).push(digit_char(v % 10))
    }
}

/// A number in decimal, with a leading zero where it has one digit.
pub open spec fn decimal_two(v: int) -> Seq<char> {
    if v < 10 {
        seq!['0', digit_char(v)]
    } else {
        decimal(v)
    }
}

/// The parameters that a string of exactly four ASCII digits stands for.
pub open spec fn parse_code(code: Seq<char>) -> Option<NacaParams> {
    if code.len() != 4 {
        None
    } else {
        match (
            digit_value(code[0]),
            digit_value(code[1]),
            digit_value(code[2]),
            digit_value(code[3]),
        ) {
            (Some(m), Some(p), Some(t1), Some(t0)) => Some(
                NacaParams {
                    m_digit: m,
                    p_digit: p,
                    t_digits: (t1 * 10 + t0) as u8,
                    num_points: DEFAULT_NUM_POINTS,
                },
            ),
            _ => None,
        }
    }
}

/// Whether every character of a string is an ASCII decimal digit.
pub open spec fn all_digits(s: Seq<char>) -> bool {
    forall|i: int| 0 <= i < s.len() ==> digit_value(#[trigger] s[i]) is Some
}

/// What `str::trim` returns for a string: the string without its leading
/// and trailing whitespace.
pub uninterp spec fn trimmed(s: Seq<char>) -> Seq<char>;

/// Calls `str::trim`, which returns the part of the string that is left
/// when the whitespace at both ends is taken off. The contract gives that
/// part its name, and claims of it only that a string made of decimal
/// digits, in which there is no whitespace to take off, comes back whole.
#[verifier::external_body]
fn trim_whitespace<'a>(s: &'a str) -> (r: &'a str)
    ensures
        r@ == trimmed(s@),
        all_digits(s@) ==> r@ == s@,
{
    s.trim()
}

fn digit_str(d: u8) -> (r: &'static str)
    requires
        d < 10,
    ensures
        r@ == seq![digit_char(d as int)],
{
    proof {
        reveal_strlit("0");
        reveal_strlit("1");
        reveal_strlit("2");
        reveal_strlit("3");
        reveal_strlit("4");
        reveal_strlit("5");
        reveal_strlit("6");
        reveal_strlit("7");
        reveal_strlit("8");
        reveal_strlit("9");
    }
    let r = if d == 0 {
        "0"
    } else if d == 1 {
        "1"
    } else if d == 2 {
        "2"
    } else if d == 3 {
        "3"
    } else if d == 4 {
        "4"
    } else if d == 5 {
        "5"
    } else if d == 6 {
        "6"
    } else if d == 7 {
        "7"
    } else if d == 8 {
        "8"
    } else {
        "9"
    };
    assert(r@ =~= seq![digit_char(d as int)]);
    r
}

fn digit_of(c: char) -> (r: Option<u8>)
    ensures
        r == digit_value(c),
{
    if c == '0' {
        Some(0)
    } else if c == '1' {
        Some(1)
    } else if c == '2' {
        Some(2)
    } else if c == '3' {
        Some(3)
    } else if c == '4' {
        Some(4)
    } else if c == '5' {
        Some(5)
    } else if c == '6' {
        Some(6)
    } else if c == '7' {
        Some(7)
    } else if c == '8' {
        Some(8)
    } else if c == '9' {
        Some(9)
    } else {
        None
    }
}

fn push_decimal(out: &mut String, v: u8)
    ensures
        final(out)@ == old(out)@ + decimal(v as int),
{
    let ghost before = out@;
    if v >= 100 {
        out.append(digit_str(v / 100));
    }
    if v >= 10 {
        out.append(digit_str((v / 10) % 10));
    }
    out.append(digit_str(v % 10));
    proof {
        let n = v as int;
        if n >= 100 {
            assert(decimal(n / 100) == seq![digit_char(n / 100)]);
            assert(decimal(n / 10) == decimal(n / 100).push(digit_char((n / 10) % 10)));
            assert(decimal(n) == decimal(n / 10).push(digit_char(n % 10)));
        } else if n >= 10 {
            assert(decimal(n / 10) == seq![digit_char(n / 10)]);
            assert(decimal(n) == decimal(n / 10).push(digit_char(n % 10)));
        }
        assert(out@ =~= before + decimal(n));
    }
}

impl NacaParams {
    /// Whether the digits fit a four-digit code: one digit each for camber
    /// and its position, two for the thickness.
    pub open spec fn fits_code(self) -> bool {
        self.m_digit <= 9 && self.p_digit <= 9 && self.t_digits <= 99
    }

    /// The code of a section: camber, position of the camber, and thickness
    /// on two digits.
    pub open spec fn code_spec(self) -> Seq<char> {
        decimal(self.m_digit as int) + decimal(self.p_digit as int) + decimal_two(
            self.t_digits as int,
        )
    }

    /// Whether the section has no camber: its camber line and the slope of
    /// it are zero all along the chord, and nothing is divided by the
    /// position of a camber that is not there.
    pub open spec fn is_symmetric_spec(self) -> bool {
        self.m_digit == 0 || self.p_digit == 0
    }

    /// Whether the section has no camber.
    pub fn is_symmetric(&self) -> (r: bool)
        ensures
            r == self.is_symmetric_spec(),
    {
        self.m_digit == 0 || self.p_digit == 0
    }

    /// The section that stands in for a missing one: NACA 2412 with 160
    /// points per surface.
    pub open spec fn default_spec() -> NacaParams {
        NacaParams { m_digit: 2, p_digit: 4, t_digits: 12, num_points: DEFAULT_NUM_POINTS }
    }

    /// The code of the section, such as `2412`: four digits where the
    /// digits fit.
    pub fn code(&self) -> (r: String)
        ensures
            r@ == self.code_spec(),
            self.fits_code() ==> r@.len() == 4 && parse_code(r@) == Some(
                NacaParams { num_points: DEFAULT_NUM_POINTS, ..*self },
            ),
    {
        let mut out = String::new();
        push_decimal(&mut out, self.m_digit);
        push_decimal(&mut out, self.p_digit);
        if self.t_digits < 10 {
            out.append(digit_str(0));
        }
        push_decimal(&mut out, self.t_digits);
        proof {
            let t = self.t_digits as int;
            assert(decimal_two(t) =~= if t < 10 {
                seq!['0'] + decimal(t)
            } else {
                decimal(t)
            });
            assert(out@ =~= self.code_spec());
            if self.fits_code() {
                lemma_code_round_trip(*self);
            }
        }
        out
    }

    /// Reads a code of exactly four ASCII digits, such as `2412`. Anything
    /// else gives `None`. The number of points is the default one.
    pub fn from_digits(code: &str) -> (r: Option<NacaParams>)
        ensures
            r == parse_code(code@),
    {
        if code.unicode_len() != 4 {
            return None;
        }
        let d0 = digit_of(code.get_char(0));
        let d1 = digit_of(code.get_char(1));
        let d2 = digit_of(code.get_char(2));
        let d3 = digit_of(code.get_char(3));
        match (d0, d1, d2, d3) {
            (Some(m), Some(p), Some(t1), Some(t0)) => Some(
                NacaParams {
                    m_digit: m,
                    p_digit: p,
                    t_digits: t1 * 10 + t0,
                    num_points: DEFAULT_NUM_POINTS,
                },
            ),
            _ => None,
        }
    }

    /// Reads a four-digit code, whitespace around it left aside. A code of
    /// four digits and nothing else is always read.
    pub fn from_naca4(code: &str) -> (r: Option<NacaParams>)
        ensures
            r == parse_code(trimmed(code@)),
            parse_code(code@) is Some ==> r == parse_code(code@),
    {
        NacaParams::from_digits(trim_whitespace(code))
    }
}

impl Default for NacaParams {
    fn default() -> (r: NacaParams)
        ensures
            r == NacaParams::default_spec(),
    {
        NacaParams { m_digit: 2, p_digit: 4, t_digits: 12, num_points: DEFAULT_NUM_POINTS }
    }
}

/// Reading the code of a section whose digits fit gives the section back,
/// with the default number of points.
pub proof fn lemma_code_round_trip(params: NacaParams)
    requires
        params.fits_code(),
    ensures
        params.code_spec().len() == 4,
        parse_code(params.code_spec()) == Some(
            NacaParams { num_points: DEFAULT_NUM_POINTS, ..params },
        ),
{
    let m = params.m_digit as int;
    let p = params.p_digit as int;
    let t = params.t_digits as int;
    let code = params.code_spec();
    assert(decimal(m) == seq![digit_char(m)]);
    assert(decimal(p) == seq![digit_char(p)]);
    if t >= 10 {
        assert(decimal(t / 10) == seq![digit_char(t / 10)]);
        assert(decimal(t) == decimal(t / 10).push(digit_char(t % 10)));
    }
    assert(decimal_two(t) =~= seq![digit_char(t / 10), digit_char(t % 10)]);
    assert(code =~= seq![digit_char(m), digit_char(p), digit_char(t / 10), digit_char(t % 10)]);
    assert(digit_value(digit_char(m)) == Some(params.m_digit));
    assert(digit_value(digit_char(p)) == Some(params.p_digit));
    assert(digit_value(digit_char(t / 10)) == Some((t / 10) as u8));
    assert(digit_value(digit_char(t % 10)) == Some((t % 10) as u8));
}

/// Whether a reference is on record for a section at an angle of attack:
/// only for NACA 2412 at an angle within 1e-3 of zero.
pub open spec fn has_reference(params: NacaParams, alpha_deg: Single) -> bool {
    params.m_digit == 2 && params.p_digit == 4 && params.t_digits == 12 && alpha_deg.abs_spec().less(
        Single { bits: REFERENCE_ALPHA_BITS },
    )
}

/// Reference coefficients from known data, as lift, moment about the
/// quarter chord, and profile drag.
pub fn reference_coeffs(params: &NacaParams, alpha_deg: Single) -> (r: Option<
    (Single, Single, Single),
>)
    ensures
        r == if has_reference(*params, alpha_deg) {
            Some(
                (
                    Single { bits: REFERENCE_CL_BITS },
                    Single { bits: REFERENCE_CM_BITS },
                    Single { bits: REFERENCE_CDP_BITS },
                ),
            )
        } else {
            None
        },
{
    if params.m_digit == 2 && params.p_digit == 4 && params.t_digits == 12 && alpha_deg.abs().lt(
        Single { bits: REFERENCE_ALPHA_BITS },
    ) {
        Some(
            (
                Single { bits: REFERENCE_CL_BITS },
                Single { bits: REFERENCE_CM_BITS },
                Single { bits: REFERENCE_CDP_BITS },
            ),
        )
    } else {
        None
    }
}

} // verus!
