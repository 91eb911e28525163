use vstd::prelude::*;
use vstd::string::StringExecFns;

verus! {

/// Fractional units per whole unit: numbers carry six decimal places.
pub const SCALE: u128 = 1_000_000;

/// A runtime number: a signed fixed-point value with six decimal places,
/// saturating to an infinity when an operation leaves the representable
/// range, plus the two infinities and a not-a-number value. Division by
/// zero yields an infinity (or not-a-number for zero over zero), never an
/// error.
#[derive(Clone, Copy, Debug, PartialEq, Eq, Structural)]
pub enum Number {
    /// `mag` counts millionths; `neg` is the sign.
    Finite { neg: bool, mag: u128 },
    PosInf,
    NegInf,
    Nan,
}

impl Number {
    /// The whole number `n` (saturating to an infinity when out of range).
    pub fn from_units(neg: bool, units: u64) -> (r: Number)
        ensures
            r == spec_from_units(neg, units as int),
    {
        match (units as u128).checked_mul(SCALE) {
            Some(mag) => Number::Finite { neg: neg && mag != 0, mag },
            None => inf_signed_exec(neg),
        }
    }

    /// The signed integer this number stands for, in millionths.
    pub open spec fn spec_val(self) -> int
        recommends
            self is Finite,
    {
        match self {
            Number::Finite { neg, mag } => if neg {
                -(mag as int)
            } else {
                mag as int
            },
            _ => 0,
        }
    }
}

/// The number standing for `units` whole units (saturating to an infinity
/// beyond `u128::MAX` millionths).
pub open spec fn spec_from_units(neg: bool, units: int) -> Number {
    if units * SCALE > u128::MAX {
        inf_signed(neg)
    } else {
        fin(if neg {
            -(units * SCALE)
        } else {
            units * SCALE
        })
    }
}

/// The finite number of scaled value `v` (the sign of a zero is dropped).
pub open spec fn fin(v: int) -> Number {
    Number::Finite { neg: v < 0, mag: abs_int(v) as u128 }
}

pub open spec fn abs_int(v: int) -> int {
    if v < 0 {
        -v
    } else {
        v
    }
}

pub open spec fn inf_signed(neg: bool) -> Number {
    if neg {
        Number::NegInf
    } else {
        Number::PosInf
    }
}

/// Addition: exact on scaled values, saturating to an infinity beyond
/// `u128::MAX` millionths; opposite infinities give not-a-number.
pub open spec fn spec_add(a: Number, b: Number) -> Number {
    match (a, b) {
        (Number::Nan, _) => Number::Nan,
        (_, Number::Nan) => Number::Nan,
        (Number::PosInf, Number::NegInf) => Number::Nan,
        (Number::NegInf, Number::PosInf) => Number::Nan,
        (Number::PosInf, _) => Number::PosInf,
        (_, Number::PosInf) => Number::PosInf,
        (Number::NegInf, _) => Number::NegInf,
        (_, Number::NegInf) => Number::NegInf,
        (Number::Finite { .. }, Number::Finite { .. }) => {
            let s = a.spec_val() + b.spec_val();
            if s > u128::MAX {
                Number::PosInf
            } else if s < -(u128::MAX as int) {
                Number::NegInf
            } else {
                fin(s)
            }
        },
    }
}

/// Multiplication of the scaled values, truncating toward zero; a product
/// of magnitudes beyond `u128::MAX` saturates to an infinity; an infinity
/// times zero is not-a-number.
pub open spec fn spec_mul(a: Number, b: Number) -> Number {
    match (a, b) {
        (Number::Nan, _) => Number::Nan,
        (_, Number::Nan) => Number::Nan,
        (Number::PosInf, Number::PosInf) => Number::PosInf,
        (Number::NegInf, Number::NegInf) => Number::PosInf,
        (Number::PosInf, Number::NegInf) => Number::NegInf,
        (Number::NegInf, Number::PosInf) => Number::NegInf,
        (Number::PosInf, Number::Finite { neg, mag }) => if mag == 0 {
            Number::Nan
        } else {
            inf_signed(neg)
        },
        (Number::Finite { neg, mag }, Number::PosInf) => if mag == 0 {
            Number::Nan
        } else {
            inf_signed(neg)
        },
        (Number::NegInf, Number::Finite { neg, mag }) => if mag == 0 {
            Number::Nan
        } else {
            inf_signed(!neg)
        },
        (Number::Finite { neg, mag }, Number::NegInf) => if mag == 0 {
            Number::Nan
        } else {
            inf_signed(!neg)
        },
        (Number::Finite { neg: na, mag: ma }, Number::Finite { neg: nb, mag: mb }) => {
            let p = (ma as int) * (mb as int);
            if p > u128::MAX {
                inf_signed(na != nb)
            } else {
                let q = p / (SCALE as int);
                fin(if na != nb {
                    -q
                } else {
                    q
                })
            }
        },
    }
}

/// The scaled magnitude of a finite quotient: `ma` divided by `mb`,
/// truncated to millionths. When the remainder is too large to rescale
/// exactly, the fraction is divided at whole-unit precision instead.
pub open spec fn spec_div_mag(ma: int, mb: int) -> int
    recommends
        mb > 0,
{
    (ma / mb) * SCALE + spec_div_frac(ma, mb)
}

pub open spec fn spec_div_frac(ma: int, mb: int) -> int
    recommends
        mb > 0,
{
    let r = ma % mb;
    if r <= (u128::MAX as int) / (SCALE as int) {
        (r * SCALE) / mb
    } else {
        r / (mb / (SCALE as int))
    }
}

/// Division of the scaled values, truncating toward zero. A zero divisor
/// gives an infinity by the dividend's sign, or not-a-number for zero over
/// zero; a quotient beyond `u128::MAX` millionths saturates.
pub open spec fn spec_div(a: Number, b: Number) -> Number {
    match (a, b) {
        (Number::Nan, _) => Number::Nan,
        (_, Number::Nan) => Number::Nan,
        (Number::PosInf, Number::PosInf) => Number::Nan,
        (Number::PosInf, Number::NegInf) => Number::Nan,
        (Number::NegInf, Number::PosInf) => Number::Nan,
        (Number::NegInf, Number::NegInf) => Number::Nan,
        (Number::PosInf, Number::Finite { neg, .. }) => inf_signed(neg),
        (Number::NegInf, Number::Finite { neg, .. }) => inf_signed(!neg),
        (Number::Finite { .. }, Number::PosInf) => fin(0),
        (Number::Finite { .. }, Number::NegInf) => fin(0),
        (Number::Finite { neg: na, mag: ma }, Number::Finite { neg: nb, mag: mb }) => {
            if mb == 0 {
                if ma == 0 {
                    Number::Nan
                } else {
                    inf_signed(na)
                }
            } else {
                let m = spec_div_mag(ma as int, mb as int);
                if m > u128::MAX {
                    inf_signed(na != nb)
                } else {
                    fin(if na != nb {
                        -m
                    } else {
                        m
                    })
                }
            }
        },
    }
}

/// The additive inverse (used to derive subtraction).
pub open spec fn spec_neg(a: Number) -> Number {
    match a {
        Number::Nan => Number::Nan,
        Number::PosInf => Number::NegInf,
        Number::NegInf => Number::PosInf,
        Number::Finite { .. } => fin(-a.spec_val()),
    }
}

/// Subtraction: adding the negated right operand.
pub open spec fn spec_sub(a: Number, b: Number) -> Number {
    spec_add(a, spec_neg(b))
}

/// Numeric equality: not-a-number equals nothing, a negative zero equals a
/// positive one, infinities equal themselves.
pub open spec fn spec_num_eq(a: Number, b: Number) -> bool {
    match (a, b) {
        (Number::Nan, _) => false,
        (_, Number::Nan) => false,
        (Number::PosInf, Number::PosInf) => true,
        (Number::NegInf, Number::NegInf) => true,
        (Number::Finite { .. }, Number::Finite { .. }) => a.spec_val() == b.spec_val(),
        _ => false,
    }
}

/// Strictly-less comparison: false whenever not-a-number is involved.
pub open spec fn spec_num_lt(a: Number, b: Number) -> bool {
    match (a, b) {
        (Number::Nan, _) => false,
        (_, Number::Nan) => false,
        (Number::NegInf, Number::NegInf) => false,
        (Number::NegInf, _) => true,
        (_, Number::NegInf) => false,
        (Number::PosInf, _) => false,
        (_, Number::PosInf) => true,
        (Number::Finite { .. }, Number::Finite { .. }) => a.spec_val() < b.spec_val(),
    }
}

pub open spec fn spec_num_le(a: Number, b: Number) -> bool {
    spec_num_lt(a, b) || spec_num_eq(a, b)
}

pub open spec fn spec_num_is_zero(n: Number) -> bool {
    match n {
        Number::Finite { mag, .. } => mag == 0,
        _ => false,
    }
}

impl Number {
    pub fn add(self, other: Number) -> (r: Number)
        ensures
            r == spec_add(self, other),
    {
        match (self, other) {
            (Number::Nan, _) => Number::Nan,
            (_, Number::Nan) => Number::Nan,
            (Number::PosInf, Number::NegInf) => Number::Nan,
            (Number::NegInf, Number::PosInf) => Number::Nan,
            (Number::PosInf, _) => Number::PosInf,
            (_, Number::PosInf) => Number::PosInf,
            (Number::NegInf, _) => Number::NegInf,
            (_, Number::NegInf) => Number::NegInf,
            (Number::Finite { neg: na, mag: ma }, Number::Finite { neg: nb, mag: mb }) => {
                if na == nb {
                    match ma.checked_add(mb) {
                        Some(m) => Number::Finite { neg: na && m != 0, mag: m },
                        None => inf_signed_exec(na),
                    }
                } else if ma >= mb {
                    let m = ma - mb;
                    Number::Finite { neg: na && m != 0, mag: m }
                } else {
                    let m = mb - ma;
                    Number::Finite { neg: nb && m != 0, mag: m }
                }
            },
        }
    }

    pub fn neg(self) -> (r: Number)
        ensures
            r == spec_neg(self),
    {
        match self {
            Number::Nan => Number::Nan,
            Number::PosInf => Number::NegInf,
            Number::NegInf => Number::PosInf,
            Number::Finite { neg, mag } => Number::Finite { neg: !neg && mag != 0, mag },
        }
    }

    pub fn sub(self, other: Number) -> (r: Number)
        ensures
            r == spec_sub(self, other),
    {
        self.add(other.neg())
    }

    pub fn mul(self, other: Number) -> (r: Number)
        ensures
            r == spec_mul(self, other),
    {
        match (self, other) {
            (Number::Nan, _) => Number::Nan,
            (_, Number::Nan) => Number::Nan,
            (Number::PosInf, Number::PosInf) => Number::PosInf,
            (Number::NegInf, Number::NegInf) => Number::PosInf,
            (Number::PosInf, Number::NegInf) => Number::NegInf,
            (Number::NegInf, Number::PosInf) => Number::NegInf,
            (Number::PosInf, Number::Finite { neg, mag }) => if mag == 0 {
                Number::Nan
            } else {
                inf_signed_exec(neg)
            },
            (Number::Finite { neg, mag }, Number::PosInf) => if mag == 0 {
                Number::Nan
            } else {
                inf_signed_exec(neg)
            },
            (Number::NegInf, Number::Finite { neg, mag }) => if mag == 0 {
                Number::Nan
            } else {
                inf_signed_exec(!neg)
            },
            (Number::Finite { neg, mag }, Number::NegInf) => if mag == 0 {
                Number::Nan
            } else {
                inf_signed_exec(!neg)
            },
            (Number::Finite { neg: na, mag: ma }, Number::Finite { neg: nb, mag: mb }) => {
                match ma.checked_mul(mb) {
                    Some(p) => {
                        let q = p / SCALE;
                        Number::Finite { neg: (na != nb) && q != 0, mag: q }
                    },
                    None => inf_signed_exec(na != nb),
                }
            },
        }
    }

    pub fn div(self, other: Number) -> (r: Number)
        ensures
            r == spec_div(self, other),
    {
        match (self, other) {
            (Number::Nan, _) => Number::Nan,
            (_, Number::Nan) => Number::Nan,
            (Number::PosInf, Number::PosInf) => Number::Nan,
            (Number::PosInf, Number::NegInf) => Number::Nan,
            (Number::NegInf, Number::PosInf) => Number::Nan,
            (Number::NegInf, Number::NegInf) => Number::Nan,
            (Number::PosInf, Number::Finite { neg, .. }) => inf_signed_exec(neg),
            (Number::NegInf, Number::Finite { neg, .. }) => inf_signed_exec(!neg),
            (Number::Finite { .. }, Number::PosInf) => Number::Finite { neg: false, mag: 0 },
            (Number::Finite { .. }, Number::NegInf) => Number::Finite { neg: false, mag: 0 },
            (Number::Finite { neg: na, mag: ma }, Number::Finite { neg: nb, mag: mb }) => {
                if mb == 0 {
                    if ma == 0 {
                        Number::Nan
                    } else {
                        inf_signed_exec(na)
                    }
                } else {
                    let q = ma / mb;
                    let r = ma % mb;
                    let f: u128 = if r <= u128::MAX / SCALE {
                        proof {
                            lemma_rescale_fits(r as int, mb as int);
                        }
                        (r * SCALE) / mb
                    } else {
                        proof {
                            lemma_big_divisor(r as int, mb as int);
                        }
                        r / (mb / SCALE)
                    };
                    proof {
                        lemma_div_parts_nonneg(ma as int, mb as int);
                    }
                    match q.checked_mul(SCALE) {
                        Some(qs) => match qs.checked_add(f) {
                            Some(m) => Number::Finite { neg: (na != nb) && m != 0, mag: m },
                            None => inf_signed_exec(na != nb),
                        },
                        None => inf_signed_exec(na != nb),
                    }
                }
            },
        }
    }

    pub fn num_eq(self, other: Number) -> (r: bool)
        ensures
            r == spec_num_eq(self, other),
    {
        match (self, other) {
            (Number::Nan, _) => false,
            (_, Number::Nan) => false,
            (Number::PosInf, Number::PosInf) => true,
            (Number::NegInf, Number::NegInf) => true,
            (Number::Finite { neg: na, mag: ma }, Number::Finite { neg: nb, mag: mb }) => {
                if ma == 0 && mb == 0 {
                    true
                } else {
                    na == nb && ma == mb
                }
            },
            _ => false,
        }
    }

    pub fn lt(self, other: Number) -> (r: bool)
        ensures
            r == spec_num_lt(self, other),
    {
        match (self, other) {
            (Number::Nan, _) => false,
            (_, Number::Nan) => false,
            (Number::NegInf, Number::NegInf) => false,
            (Number::NegInf, _) => true,
            (_, Number::NegInf) => false,
            (Number::PosInf, _) => false,
            (_, Number::PosInf) => true,
            (Number::Finite { neg: na, mag: ma }, Number::Finite { neg: nb, mag: mb }) => {
                if na && nb {
                    ma > mb
                } else if na {
                    ma != 0 || mb != 0
                } else if nb {
                    false
                } else {
                    ma < mb
                }
            },
        }
    }

    pub fn le(self, other: Number) -> (r: bool)
        ensures
            r == spec_num_le(self, other),
    {
        let lt = self.lt(other);
        let eq = self.num_eq(other);
        lt || eq
    }

    /// Truthiness of a number: false exactly for (either) zero.
    pub fn is_zero(self) -> (r: bool)
        ensures
            r == spec_num_is_zero(self),
    {
        match self {
            Number::Finite { mag, .. } => mag == 0,
            _ => false,
        }
    }
}

pub fn inf_signed_exec(neg: bool) -> (r: Number)
    ensures
        r == inf_signed(neg),
{
    if neg {
        Number::NegInf
    } else {
        Number::PosInf
    }
}

/// The decimal digit character for `d` (zero for anything else).
pub open spec fn digit_char(d: int) -> char {
    if d == 1 {
        '1'
    } else if d == 2 {
        '2'
    } else if d == 3 {
        '3'
    } else if d == 4 {
        '4'
    } else if d == 5 {
        '5'
    } else if d == 6 {
        '6'
    } else if d == 7 {
        '7'
    } else if d == 8 {
        '8'
    } else if d == 9 {
        '9'
    } else {
        '0'
    }
}

/// The decimal digits of a non-negative integer, most significant first.
pub open spec fn spec_digits(n: int) -> Seq<char>
    decreases n,
{
    if n < 10 {
        seq![digit_char(n)]
    } else {
        spec_digits(n / 10).push(digit_char(n % 10))
    }
}

/// The last `w` decimal digits of `n`, zero-padded to width `w`.
pub open spec fn spec_digits_width(n: int, w: nat) -> Seq<char>
    decreases w,
{
    if w == 0 {
        Seq::empty()
    } else {
        spec_digits_width(n / 10, (w - 1) as nat).push(digit_char(n % 10))
    }
}

/// The last `w` digits of `n` with trailing zeros dropped.
pub open spec fn spec_frac_seq(f: int, w: nat) -> Seq<char>
    decreases w,
{
    if w == 0 {
        Seq::empty()
    } else if f % 10 == 0 {
        spec_frac_seq(f / 10, (w - 1) as nat)
    } else {
        spec_digits_width(f, w)
    }
}

/// How a number prints: the fixed-point value in decimal with trailing
/// fractional zeros (and the point itself, for whole values) left out;
/// `inf`, `-inf` and `NaN` for the special values. A zero prints without a
/// sign.
pub open spec fn spec_render_number(n: Number) -> Seq<char> {
    match n {
        Number::Finite { neg, mag } => {
            let sign: Seq<char> = if neg && mag != 0 {
                seq!['-']
            } else {
                Seq::empty()
            };
            let whole = spec_digits(mag as int / SCALE as int);
            let frac: Seq<char> = if mag as int % SCALE as int == 0 {
                Seq::empty()
            } else {
                seq!['.'] + spec_frac_seq(mag as int % SCALE as int, 6)
            };
            sign + whole + frac
        },
        Number::PosInf => seq!['i', 'n', 'f'],
        Number::NegInf => seq!['-', 'i', 'n', 'f'],
        Number::Nan => seq!['N', 'a', 'N'],
    }
}

/// A one-character string for the decimal digit `d`.
fn digit_str(d: u128) -> (s: &'static str)
    ensures
        s@ =~= seq![digit_char(d as int)],
{
    proof {
        reveal_strlit("0");
        reveal_strlit("1");
        reveal_strlit("2");
        reveal_strlit("3");
        reveal_strlit("4");
        reveal_strlit("5");
        reveal_strlit("6");
        reveal_strlit("7");
        reveal_strlit("8");
        reveal_strlit("9");
    }
    if d == 1 {
        "1"
    } else if d == 2 {
        "2"
    } else if d == 3 {
        "3"
    } else if d == 4 {
        "4"
    } else if d == 5 {
        "5"
    } else if d == 6 {
        "6"
    } else if d == 7 {
        "7"
    } else if d == 8 {
        "8"
    } else if d == 9 {
        "9"
    } else {
        "0"
    }
}

/// The decimal digits of `n` as a string.
pub fn digits_str(n: u128) -> (s: String)
    ensures
        s@ =~= spec_digits(n as int),
    decreases n,
{
    if n < 10 {
        String::from_str(digit_str(n))
    } else {
        let mut s = digits_str(n / 10);
        s.append(digit_str(n % 10));
        s
    }
}

fn digits_width_str(n: u128, w: u8) -> (s: String)
    ensures
        s@ =~= spec_digits_width(n as int, w as nat),
    decreases w,
{
    if w == 0 {
        String::new()
    } else {
        let mut s = digits_width_str(n / 10, w - 1);
        s.append(digit_str(n % 10));
        s
    }
}

fn frac_str(f: u128, w: u8) -> (s: String)
    ensures
        s@ =~= spec_frac_seq(f as int, w as nat),
    decreases w,
{
    if w == 0 {
        String::new()
    } else if f % 10 == 0 {
        frac_str(f / 10, w - 1)
    } else {
        digits_width_str(f, w)
    }
}

impl Number {
    /// This number as the text the `print` builtin shows.
    pub fn to_text(&self) -> (s: String)
        ensures
            s@ =~= spec_render_number(*self),
    {
        proof {
            reveal_strlit("-");
            reveal_strlit(".");
            reveal_strlit("inf");
            reveal_strlit("-inf");
            reveal_strlit("NaN");
        }
        match self {
            Number::Finite { neg, mag } => {
                let mut s = if *neg && *mag != 0 {
                    String::from_str("-")
                } else {
                    String::new()
                };
                let whole = digits_str(*mag / SCALE);
                s.append(whole.as_str());
                let f = *mag % SCALE;
                if f != 0 {
                    s.append(".");
                    let fr = frac_str(f, 6);
                    s.append(fr.as_str());
                }
                s
            },
            Number::PosInf => String::from_str("inf"),
            Number::NegInf => String::from_str("-inf"),
            Number::Nan => String::from_str("NaN"),
        }
    }
}

/// The value of a run of decimal digit characters, most significant first.
pub open spec fn spec_digits_val(s: Seq<char>) -> int
    decreases s.len(),
{
    if s.len() == 0 {
        0
    } else {
        spec_digits_val(s.drop_last()) * 10 + (s.last() as u32 - 48)
    }
}

pub open spec fn pow10(z: nat) -> int
    decreases z,
{
    if z == 0 {
        1
    } else {
        10 * pow10((z - 1) as nat)
    }
}

/// The scaled value of a numeric literal: whole digits `ws`, fractional
/// digits `fs` of which only the first six count (the rest are dropped).
pub open spec fn spec_literal_val(ws: Seq<char>, fs: Seq<char>) -> int {
    spec_digits_val(ws) * SCALE + spec_digits_val(fs.take(if fs.len() < 6 {
        fs.len() as int
    } else {
        6
    })) * pow10((if fs.len() < 6 {
        6 - fs.len() as int
    } else {
        0
    }) as nat)
}

/// The number a literal with whole digits `ws` and fractional digits `fs`
/// stands for: its scaled value, saturating to infinity out of range.
pub open spec fn spec_literal_number(ws: Seq<char>, fs: Seq<char>) -> Number {
    if spec_literal_val(ws, fs) > u128::MAX {
        Number::PosInf
    } else {
        fin(spec_literal_val(ws, fs))
    }
}

/// A magnitude under `u128::MAX / SCALE` can be rescaled without
/// overflow.
pub proof fn lemma_mag_rescale(m: int)
    requires
        0 <= m <= (u128::MAX as int) / (SCALE as int),
    ensures
        m * SCALE <= u128::MAX,
{
    assert(m * SCALE <= ((u128::MAX as int) / (SCALE as int)) * SCALE <= u128::MAX)
        by (nonlinear_arith)
        requires
            0 <= m,
            m <= (u128::MAX as int) / (SCALE as int),
    ;
}

/// If the remainder fits under `u128::MAX / SCALE`, rescaling it cannot
/// overflow.
proof fn lemma_rescale_fits(r: int, mb: int)
    requires
        0 <= r,
        mb > 0,
        r <= (u128::MAX as int) / (SCALE as int),
    ensures
        r * SCALE <= u128::MAX,
        0 <= (r * SCALE) / mb <= u128::MAX,
{
    assert(r * SCALE <= ((u128::MAX as int) / (SCALE as int)) * SCALE <= u128::MAX) by (nonlinear_arith)
        requires
            0 <= r,
            r <= (u128::MAX as int) / (SCALE as int),
    ;
    assert(0 <= (r * SCALE) / mb <= r * SCALE) by (nonlinear_arith)
        requires
            mb > 0,
            0 <= r * SCALE,
    ;
}

/// When the remainder is too large to rescale, the divisor is at least a
/// whole unit, so dividing it down to units cannot hit zero.
proof fn lemma_big_divisor(r: int, mb: int)
    requires
        0 <= r < mb,
        r > (u128::MAX as int) / (SCALE as int),
    ensures
        mb / (SCALE as int) >= 1,
        0 <= r / (mb / (SCALE as int)) <= r,
{
    assert(mb > (u128::MAX as int) / (SCALE as int) >= SCALE);
    assert(mb / (SCALE as int) >= 1) by (nonlinear_arith)
        requires
            mb >= SCALE,
    ;
    assert(0 <= r / (mb / (SCALE as int)) <= r) by (nonlinear_arith)
        requires
            mb / (SCALE as int) >= 1,
            r >= 0,
    ;
}

/// Both parts of the scaled quotient are non-negative.
proof fn lemma_div_parts_nonneg(ma: int, mb: int)
    requires
        0 <= ma <= u128::MAX,
        0 < mb <= u128::MAX,
    ensures
        (ma / mb) * SCALE >= 0,
        spec_div_frac(ma, mb) >= 0,
        spec_div_mag(ma, mb) == (ma / mb) * SCALE + spec_div_frac(ma, mb),
{
    vstd::arithmetic::div_mod::lemma_div_pos_is_pos(ma, mb);
    vstd::arithmetic::div_mod::lemma_mod_bound(ma, mb);
    let q = ma / mb;
    let r = ma % mb;
    assert(q * SCALE >= 0) by (nonlinear_arith)
        requires
            q >= 0,
    ;
    if r <= (u128::MAX as int) / (SCALE as int) {
        lemma_rescale_fits(r, mb);
    } else {
        lemma_big_divisor(r, mb);
    }
}

} // verus!
