//! Bounded integer values and their arithmetic.
use vstd::prelude::*;

verus! {

/// Positive results are kept below this bound (the low 48 bits).
pub const VARIABLE_LIMIT: i128 = 0x1_0000_0000_0000;

/// The ceiling applied after every producing operation: a positive result is
/// reduced to its low 48 bits, anything else is kept.
pub open spec fn ceiling(v: int) -> int {
    if v > 0 {
        v % (VARIABLE_LIMIT as int)
    } else {
        v
    }
}

/// Truncated division, as the machine divides (rounds toward zero).
pub open spec fn trunc_div(x: int, m: int) -> int {
    if x >= 0 {
        x / m
    } else {
        -((-x) / m)
    }
}

/// The remainder of `a` by `b`: Euclidean, taken modulo `|b|`; zero when `b` is zero.
pub open spec fn rem_value(a: i128, b: i128) -> int {
    if b == 0 {
        0
    } else {
        ceiling((a as int) % abs(b as int))
    }
}

/// The absolute value.
pub open spec fn abs(v: int) -> int {
    if v < 0 {
        -v
    } else {
        v
    }
}

/// The quotient matching `rem_value`: `(a - rem) / |b|`; zero when `b` is zero.
pub open spec fn div_value(a: i128, b: i128) -> int {
    if b == 0 {
        0
    } else {
        ceiling(trunc_div(ceiling(a.wrapping_sub(rem_value(a, b) as i128) as int), abs(b as int)))
    }
}

/// A value of the language: a signed integer whose positive values stay
/// under the 48-bit ceiling.
#[derive(Clone, Copy, PartialEq, Eq, Structural)]
pub struct Variable {
    pub data: i128,
}

impl Variable {
    /// A value is well formed when it is not a positive number at or above the ceiling.
    pub open spec fn wf(self) -> bool {
        self.data > 0 ==> self.data < VARIABLE_LIMIT
    }

    /// Makes a value from a raw result, applying the ceiling.
    pub fn from(val: i128) -> (r: Variable)
        ensures
            r.data == ceiling(val as int),
            r.wf(),
    {
        if val > 0 {
            let m = ((val as u128) % (VARIABLE_LIMIT as u128)) as i128;
            Variable { data: m }
        } else {
            Variable { data: val }
        }
    }

    /// `+`: the sum, wrapped to 128 bits, under the ceiling.
    pub fn plus(self, other: Variable) -> (r: Variable)
        ensures
            r.data == ceiling(self.data.wrapping_add(other.data) as int),
            r.wf(),
    {
        Variable::from(self.data.wrapping_add(other.data))
    }

    /// `-`: the difference, wrapped to 128 bits, under the ceiling.
    pub fn minus(self, other: Variable) -> (r: Variable)
        ensures
            r.data == ceiling(self.data.wrapping_sub(other.data) as int),
            r.wf(),
    {
        Variable::from(self.data.wrapping_sub(other.data))
    }

    /// `*`: the product, wrapped to 128 bits, under the ceiling.
    pub fn times(self, other: Variable) -> (r: Variable)
        ensures
            r.data == ceiling(self.data.wrapping_mul(other.data) as int),
            r.wf(),
    {
        Variable::from(self.data.wrapping_mul(other.data))
    }

    /// `|b|` as an unsigned number; it fits, including for the least `i128`.
    fn magnitude(b: i128) -> (m: u128)
        ensures
            m as int == abs(b as int),
    {
        if b >= 0 {
            b as u128
        } else {
            ((-(b + 1)) as u128) + 1
        }
    }

    /// `%`: the Euclidean remainder modulo `|other|`; zero for a zero divisor.
    pub fn modulo(self, other: Variable) -> (r: Variable)
        ensures
            r.data == rem_value(self.data, other.data),
            r.wf(),
    {
        if other.data == 0 {
            return Variable::from(0);
        }
        let a = self.data;
        let m = Variable::magnitude(other.data);
        let r: u128 = if a >= 0 {
            (a as u128) % m
        } else {
            let n = (-(a + 1)) as u128;
            proof {
                let ai = a as int;
                let mi = m as int;
                let ni = n as int;
                assert(ai == -1 - ni);
                assert((ai % mi) == mi - 1 - (ni % mi)) by {
                    lemma_neg_mod(ni, mi);
                }
            }
            m - 1 - (n % m)
        };
        Variable::from(r as i128)
    }

    /// `/`: `(self - self % other) / |other|`; zero for a zero divisor.
    pub fn quotient(self, other: Variable) -> (r: Variable)
        ensures
            r.data == div_value(self.data, other.data),
            r.wf(),
    {
        if other.data == 0 {
            return Variable::from(0);
        }
        let m = Variable::magnitude(other.data);
        let x = self.minus(self.modulo(other)).data;
        let q: i128 = if x >= 0 {
            proof {
                assert((x as int) / (m as int) <= x as int) by (nonlinear_arith)
                    requires x >= 0, m >= 1;
            }
            ((x as u128) / m) as i128
        } else {
            let n: u128 = ((-(x + 1)) as u128) + 1;
            let d = n / m;
            proof {
                assert((n as int) / (m as int) <= n as int) by (nonlinear_arith)
                    requires n >= 0, m >= 1;
            }
            if d == 0 {
                0
            } else {
                -((d - 1) as i128) - 1
            }
        };
        Variable::from(q)
    }
}

/// `(-1 - n) mod m == m - 1 - (n mod m)`.
pub(crate) proof fn lemma_neg_mod(n: int, m: int)
    requires
        n >= 0,
        m >= 1,
    ensures
        (-1 - n) % m == m - 1 - (n % m),
{
    let q = n / m;
    let r = n % m;
    assert(n == q * m + r && 0 <= r < m) by {
        vstd::arithmetic::div_mod::lemma_fundamental_div_mod(n, m);
    }
    let k = -1 - n;
    assert(k == (-q - 1) * m + (m - 1 - r)) by (nonlinear_arith)
        requires n == q * m + r, k == -1 - n;
    vstd::arithmetic::div_mod::lemma_fundamental_div_mod_converse(k, m, -q - 1, m - 1 - r);
}

} // verus!
