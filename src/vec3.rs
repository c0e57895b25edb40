//! Three-component vectors of fixed-point reals, used both as points and as
//! directions.

use crate::fixed::{
    div_trunc, fadd, fdiv, fmul, fneg, fnorm, fsqrt, fsub, fx_add, fx_div, fx_mul, fx_neg, fx_norm, fx_sqrt, fx_sub,
    in_range, lemma_fadd_neg, lemma_fdiv_in_range, lemma_fmul_comm, lemma_fmul_in_range, lemma_fmul_neg,
    LIMIT,
};
use vstd::arithmetic::div_mod::lemma_div_nonincreasing;
use vstd::prelude::*;
use vstd::string::*;

verus! {

/// A triple of raw fixed-point components (see `fixed`).
#[derive(Debug, Clone, Copy, PartialEq, Eq, Structural)]
pub struct Vec3 {
    pub x: i64,
    pub y: i64,
    pub z: i64,
}

/// The vector with the given components, each cast to a raw value.
pub open spec fn vec3(x: int, y: int, z: int) -> Vec3 {
    Vec3 { x: x as i64, y: y as i64, z: z as i64 }
}

/// Largest channel value before quantisation, just under one whole unit.
pub const CHANNEL_MAX: i64 = 65470;

/// The byte for one colour channel: the mean over `samples` samples,
/// gamma-corrected by a square root, held in `[0, CHANNEL_MAX]` and scaled to
/// `0..256`.
pub open spec fn channel_byte(c: int, samples: int) -> int {
    let s = fsqrt(div_trunc(c, samples));
    let m = if s > CHANNEL_MAX {
        CHANNEL_MAX as int
    } else {
        s
    };
    m / 256
}

impl Vec3 {
    /// All components lie in `[-LIMIT, LIMIT]`.
    pub open spec fn wf(self) -> bool {
        in_range(self.x as int) && in_range(self.y as int) && in_range(self.z as int)
    }

    pub open spec fn spec_add(self, v: Vec3) -> Vec3 {
        vec3(fadd(self.x as int, v.x as int), fadd(self.y as int, v.y as int), fadd(self.z as int, v.z as int))
    }

    pub open spec fn spec_sub(self, v: Vec3) -> Vec3 {
        vec3(fsub(self.x as int, v.x as int), fsub(self.y as int, v.y as int), fsub(self.z as int, v.z as int))
    }

    pub open spec fn spec_mul(self, v: Vec3) -> Vec3 {
        vec3(fmul(self.x as int, v.x as int), fmul(self.y as int, v.y as int), fmul(self.z as int, v.z as int))
    }

    pub open spec fn spec_scale(self, t: int) -> Vec3 {
        vec3(fmul(self.x as int, t), fmul(self.y as int, t), fmul(self.z as int, t))
    }

    pub open spec fn spec_div_by(self, t: int) -> Vec3 {
        vec3(fdiv(self.x as int, t), fdiv(self.y as int, t), fdiv(self.z as int, t))
    }

    pub open spec fn spec_neg(self) -> Vec3 {
        vec3(fneg(self.x as int), fneg(self.y as int), fneg(self.z as int))
    }

    pub open spec fn spec_dot(self, v: Vec3) -> int {
        fadd(fadd(fmul(self.x as int, v.x as int), fmul(self.y as int, v.y as int)), fmul(self.z as int, v.z as int))
    }

    pub open spec fn spec_cross(self, v: Vec3) -> Vec3 {
        vec3(
            fsub(fmul(self.y as int, v.z as int), fmul(self.z as int, v.y as int)),
            fsub(fmul(self.z as int, v.x as int), fmul(self.x as int, v.z as int)),
            fsub(fmul(self.x as int, v.y as int), fmul(self.y as int, v.x as int)),
        )
    }

    pub open spec fn spec_length_squared(self) -> int {
        self.spec_dot(self)
    }

    /// The exact Euclidean length, rounded down.
    pub open spec fn spec_length(self) -> int {
        fnorm(self.x as int, self.y as int, self.z as int)
    }

    /// The vector divided by its length; the zero vector stays zero.
    pub open spec fn spec_unit(self) -> Vec3 {
        self.spec_div_by(self.spec_length())
    }

    /// Tests `wf` at run time.
    pub fn in_range(&self) -> (r: bool)
        ensures
            r == self.wf(),
    {
        -LIMIT <= self.x && self.x <= LIMIT && -LIMIT <= self.y && self.y <= LIMIT && -LIMIT <= self.z
            && self.z <= LIMIT
    }

    pub fn new(x: i64, y: i64, z: i64) -> (r: Vec3)
        ensures
            r == (Vec3 { x, y, z }),
    {
        Vec3 { x, y, z }
    }

    pub fn x(&self) -> (r: i64)
        ensures
            r == self.x,
    {
        self.x
    }

    pub fn y(&self) -> (r: i64)
        ensures
            r == self.y,
    {
        self.y
    }

    pub fn z(&self) -> (r: i64)
        ensures
            r == self.z,
    {
        self.z
    }

    pub fn add(&self, v: Vec3) -> (r: Vec3)
        ensures
            r == self.spec_add(v),
            r.wf(),
    {
        Vec3 { x: fx_add(self.x, v.x), y: fx_add(self.y, v.y), z: fx_add(self.z, v.z) }
    }

    pub fn sub(&self, v: Vec3) -> (r: Vec3)
        ensures
            r == self.spec_sub(v),
            r.wf(),
    {
        Vec3 { x: fx_sub(self.x, v.x), y: fx_sub(self.y, v.y), z: fx_sub(self.z, v.z) }
    }

    /// Component-wise product.
    pub fn mul(&self, v: Vec3) -> (r: Vec3)
        ensures
            r == self.spec_mul(v),
            r.wf(),
    {
        Vec3 { x: fx_mul(self.x, v.x), y: fx_mul(self.y, v.y), z: fx_mul(self.z, v.z) }
    }

    /// Product with the scalar `t`.
    pub fn scale(&self, t: i64) -> (r: Vec3)
        ensures
            r == self.spec_scale(t as int),
            r.wf(),
    {
        Vec3 { x: fx_mul(self.x, t), y: fx_mul(self.y, t), z: fx_mul(self.z, t) }
    }

    /// Quotient by the scalar `t`.
    pub fn div_by(&self, t: i64) -> (r: Vec3)
        ensures
            r == self.spec_div_by(t as int),
            r.wf(),
    {
        Vec3 { x: fx_div(self.x, t), y: fx_div(self.y, t), z: fx_div(self.z, t) }
    }

    pub fn neg(&self) -> (r: Vec3)
        ensures
            r == self.spec_neg(),
            r.wf(),
    {
        Vec3 { x: fx_neg(self.x), y: fx_neg(self.y), z: fx_neg(self.z) }
    }

    pub fn dot(&self, v: Vec3) -> (r: i64)
        ensures
            r == self.spec_dot(v),
            in_range(r as int),
    {
        fx_add(fx_add(fx_mul(self.x, v.x), fx_mul(self.y, v.y)), fx_mul(self.z, v.z))
    }

    pub fn cross(&self, v: Vec3) -> (r: Vec3)
        ensures
            r == self.spec_cross(v),
            r.wf(),
    {
        Vec3 {
            x: fx_sub(fx_mul(self.y, v.z), fx_mul(self.z, v.y)),
            y: fx_sub(fx_mul(self.z, v.x), fx_mul(self.x, v.z)),
            z: fx_sub(fx_mul(self.x, v.y), fx_mul(self.y, v.x)),
        }
    }

    pub fn length_squared(&self) -> (r: i64)
        ensures
            r == self.spec_length_squared(),
            in_range(r as int),
    {
        self.dot(*self)
    }

    pub fn length(&self) -> (r: i64)
        ensures
            r == self.spec_length(),
            0 <= r <= LIMIT,
    {
        fx_norm(self.x, self.y, self.z)
    }

    pub fn unit_vector(&self) -> (r: Vec3)
        ensures
            r == self.spec_unit(),
            r.wf(),
    {
        let l = self.length();
        self.div_by(l)
    }

    /// The colour's three bytes (as `to_rgb` gives them) in decimal,
    /// separated by spaces.
    pub fn to_string(&self, samples_per_pixel: usize) -> (r: String)
        requires
            samples_per_pixel > 0,
        ensures
            r@ == decimal(channel_byte(self.x as int, samples_per_pixel as int) as nat) + seq![' '] + decimal(
                channel_byte(self.y as int, samples_per_pixel as int) as nat,
            ) + seq![' '] + decimal(channel_byte(self.z as int, samples_per_pixel as int) as nat),
    {
        let r = channel(self.x, samples_per_pixel);
        let g = channel(self.y, samples_per_pixel);
        let b = channel(self.z, samples_per_pixel);
        rgb_text(r, g, b)
    }

    /// The colour as three bytes, averaged over `samples_per_pixel` samples
    /// and gamma-corrected.
    pub fn to_rgb(&self, samples_per_pixel: usize) -> (r: Vec<u8>)
        requires
            samples_per_pixel > 0,
        ensures
            r@ == seq![
                channel_byte(self.x as int, samples_per_pixel as int) as u8,
                channel_byte(self.y as int, samples_per_pixel as int) as u8,
                channel_byte(self.z as int, samples_per_pixel as int) as u8,
            ],
            channel_byte(self.x as int, samples_per_pixel as int) < 256,
            channel_byte(self.y as int, samples_per_pixel as int) < 256,
            channel_byte(self.z as int, samples_per_pixel as int) < 256,
    {
        let r = channel(self.x, samples_per_pixel);
        let g = channel(self.y, samples_per_pixel);
        let b = channel(self.z, samples_per_pixel);
        vec![r, g, b]
    }
}

/// Every operation yields a vector whose components lie in range.
pub proof fn lemma_ops_wf(u: Vec3, v: Vec3, t: int)
    ensures
        u.spec_add(v).wf(),
        u.spec_sub(v).wf(),
        u.spec_mul(v).wf(),
        u.spec_scale(t).wf(),
        u.spec_div_by(t).wf(),
        u.spec_neg().wf(),
        u.spec_cross(v).wf(),
        in_range(u.spec_dot(v)),
{
    lemma_fmul_in_range(u.x as int, v.x as int);
    lemma_fmul_in_range(u.y as int, v.y as int);
    lemma_fmul_in_range(u.z as int, v.z as int);
    lemma_fmul_in_range(u.x as int, t);
    lemma_fmul_in_range(u.y as int, t);
    lemma_fmul_in_range(u.z as int, t);
    lemma_fdiv_in_range(u.x as int, t);
    lemma_fdiv_in_range(u.y as int, t);
    lemma_fdiv_in_range(u.z as int, t);
}

/// Negating either side of a dot product negates it.
pub proof fn lemma_dot_neg(u: Vec3, v: Vec3)
    requires
        v.wf(),
    ensures
        u.spec_dot(v.spec_neg()) == -u.spec_dot(v),
        v.spec_neg().spec_dot(u) == -u.spec_dot(v),
{
    lemma_fmul_neg(u.x as int, v.x as int);
    lemma_fmul_neg(u.y as int, v.y as int);
    lemma_fmul_neg(u.z as int, v.z as int);
    lemma_fmul_comm(u.x as int, fneg(v.x as int));
    lemma_fmul_comm(u.y as int, fneg(v.y as int));
    lemma_fmul_comm(u.z as int, fneg(v.z as int));
    let a = fmul(u.x as int, v.x as int);
    let b = fmul(u.y as int, v.y as int);
    let c = fmul(u.z as int, v.z as int);
    lemma_fadd_neg(a, b);
    lemma_fadd_neg(fadd(a, b), c);
}

/// Negation keeps the squared length.
pub proof fn lemma_neg_length_squared(u: Vec3)
    requires
        u.wf(),
    ensures
        u.spec_neg().spec_length_squared() == u.spec_length_squared(),
{
    lemma_fmul_neg(u.x as int, u.x as int);
    lemma_fmul_neg(u.y as int, u.y as int);
    lemma_fmul_neg(u.z as int, u.z as int);
    lemma_fmul_comm(u.x as int, fneg(u.x as int));
    lemma_fmul_comm(u.y as int, fneg(u.y as int));
    lemma_fmul_comm(u.z as int, fneg(u.z as int));
    lemma_fmul_neg(fneg(u.x as int), u.x as int);
    lemma_fmul_neg(fneg(u.y as int), u.y as int);
    lemma_fmul_neg(fneg(u.z as int), u.z as int);
}

/// The decimal digit `d`.
pub open spec fn digit(d: nat) -> char {
    if d == 0 {
        '0'
    } else if d == 1 {
        '1'
    } else if d == 2 {
        '2'
    } else if d == 3 {
        '3'
    } else if d == 4 {
        '4'
    } else if d == 5 {
        '5'
    } else if d == 6 {
        '6'
    } else if d == 7 {
        '7'
    } else if d == 8 {
        '8'
    } else {
        '9'
    }
}

/// Decimal digits of `n`, without leading zeros.
pub open spec fn decimal(n: nat) -> Seq<char>
    decreases n,
{
    if n < 10 {
        seq![digit(n)]
    } else {
        decimal(n / 10) + seq![digit(n % 10)]
    }
}

/// The decimal digit `d` as text.
fn digit_text(d: u8) -> (r: &'static str)
    requires
        d < 10,
    ensures
        r@ == seq![digit(d as nat)],
{
    if d == 0 {
        proof {
            reveal_strlit("0");
        }
        "0"
    } else if d == 1 {
        proof {
            reveal_strlit("1");
        }
        "1"
    } else if d == 2 {
        proof {
            reveal_strlit("2");
        }
        "2"
    } else if d == 3 {
        proof {
            reveal_strlit("3");
        }
        "3"
    } else if d == 4 {
        proof {
            reveal_strlit("4");
        }
        "4"
    } else if d == 5 {
        proof {
            reveal_strlit("5");
        }
        "5"
    } else if d == 6 {
        proof {
            reveal_strlit("6");
        }
        "6"
    } else if d == 7 {
        proof {
            reveal_strlit("7");
        }
        "7"
    } else if d == 8 {
        proof {
            reveal_strlit("8");
        }
        "8"
    } else {
        proof {
            reveal_strlit("9");
        }
        "9"
    }
}

/// Appends the decimal digits of `n`.
fn append_decimal(s: &mut String, n: u8)
    ensures
        final(s)@ == old(s)@ + decimal(n as nat),
{
    reveal_with_fuel(decimal, 3);
    if n >= 100 {
        s.append(digit_text(n / 100));
        s.append(digit_text(n / 10 % 10));
        s.append(digit_text(n % 10));
        assert(decimal(n as nat) =~= decimal((n / 10) as nat) + seq![digit((n % 10) as nat)]);
        assert(decimal((n / 10) as nat) =~= seq![digit((n / 100) as nat), digit((n / 10 % 10) as nat)]);
    } else if n >= 10 {
        s.append(digit_text(n / 10));
        s.append(digit_text(n % 10));
    } else {
        s.append(digit_text(n));
    }
    assert(s@ =~= old(s)@ + decimal(n as nat));
}

/// Three bytes in decimal, separated by spaces.
fn rgb_text(r: u8, g: u8, b: u8) -> (s: String)
    ensures
        s@ == decimal(r as nat) + seq![' '] + decimal(g as nat) + seq![' '] + decimal(b as nat),
{
    proof {
        reveal_strlit("");
        reveal_strlit(" ");
    }
    let mut s = String::from_str("");
    append_decimal(&mut s, r);
    s.append(" ");
    append_decimal(&mut s, g);
    s.append(" ");
    append_decimal(&mut s, b);
    proof {
        assert(s@ =~= decimal(r as nat) + seq![' '] + decimal(g as nat) + seq![' '] + decimal(b as nat));
    }
    s
}

fn channel(c: i64, samples: usize) -> (r: u8)
    requires
        samples > 0,
    ensures
        r == channel_byte(c as int, samples as int),
        channel_byte(c as int, samples as int) < 256,
{
    let n: i128 = samples as i128;
    let w: i128 = c as i128;
    let q: i128 = if w >= 0 {
        w / n
    } else {
        -((-w) / n)
    };
    proof {
        lemma_div_nonincreasing(if w >= 0 { w as int } else { -w }, n as int);
    }
    let mean: i64 = q as i64;
    let s = fx_sqrt(mean);
    let m = if s > CHANNEL_MAX {
        CHANNEL_MAX
    } else {
        s
    };
    (m / 256) as u8
}

} // verus!
