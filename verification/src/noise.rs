//! Deterministic gradient noise in 16.16 fixed point.
//!
//! Heights are sampled from a simplex-style gradient noise over a fixed
//! 256-entry permutation table. Everything here is integer arithmetic: a
//! coordinate or a noise value `v` stands for the real number `v / 65536`.
//! Every sampling function is a pure function of its arguments, so two calls
//! with the same inputs return the same value.

use vstd::prelude::*;

verus! {

/// One whole unit in 16.16 fixed point.
pub const NOISE_ONE: i64 = 65536;

/// The fixed permutation table that drives gradient hashing.
pub const PERM: [u8; 256] = [
    151, 160, 137, 91, 90, 15, 131, 13, 201, 95, 96, 53, 194, 233, 7, 225, 140, 36, 103, 30,
    69, 142, 8, 99, 37, 240, 21, 10, 23, 190, 6, 148, 247, 120, 234, 75, 0, 26, 197, 62, 94,
    252, 219, 203, 117, 35, 11, 32, 57, 177, 33, 88, 237, 149, 56, 87, 174, 20, 125, 136, 171,
    168, 68, 175, 74, 165, 71, 134, 139, 48, 27, 166, 77, 146, 158, 231, 83, 111, 229, 122, 60,
    211, 133, 230, 220, 105, 92, 41, 55, 46, 245, 40, 244, 102, 143, 54, 65, 25, 63, 161, 1,
    216, 80, 73, 209, 76, 132, 187, 208, 89, 18, 169, 200, 196, 135, 130, 116, 188, 159, 86,
    164, 100, 109, 198, 173, 186, 3, 64, 52, 217, 226, 250, 124, 123, 5, 202, 38, 147, 118,
    126, 255, 82, 85, 212, 207, 206, 59, 227, 47, 16, 58, 17, 182, 189, 28, 42, 223, 183, 170,
    213, 119, 248, 152, 2, 44, 154, 163, 70, 221, 153, 101, 155, 167, 43, 172, 9, 129, 22, 39,
    253, 19, 98, 108, 110, 79, 113, 224, 232, 178, 185, 112, 104, 218, 246, 97, 228, 251, 34,
    242, 193, 238, 210, 144, 12, 191, 179, 162, 241, 81, 51, 145, 235, 249, 14, 239, 107, 49,
    192, 214, 31, 181, 199, 106, 157, 184, 84, 204, 176, 115, 121, 50, 45, 127, 4, 150, 254,
    138, 236, 205, 93, 222, 114, 67, 29, 24, 72, 243, 141, 128, 195, 78, 66, 215, 61, 156, 180,
];

/// Largest magnitude the division helpers accept; loose, far above any value
/// the samplers produce.
pub const NOISE_DIV_LIMIT: i64 = 0x7000_0000_0000_0000;

/// Largest coordinate magnitude `two_d` accepts, about `2^30` world units.
pub const NOISE_COORD_LIMIT: i64 = 0x4000_0000_0000;

/// Quotient of `a` and one fixed-point unit, rounded toward negative
/// infinity (the lattice-cell floor).
pub open spec fn spec_floor_unit(a: int) -> int {
    a / 65536
}

/// Quotient of `a` and `b`, rounded toward zero (the rescale after a
/// fixed-point multiplication).
pub open spec fn spec_div_trunc(a: int, b: int) -> int {
    if a >= 0 {
        a / b
    } else {
        -((-a) / b)
    }
}

/// Quotient of `a` and one fixed-point unit, rounded toward zero.
pub open spec fn spec_trunc_unit(a: int) -> int {
    spec_div_trunc(a, 65536)
}

/// `v` clamped into `[lo, hi]`.
pub open spec fn spec_clamp(v: int, lo: int, hi: int) -> int {
    if v < lo {
        lo
    } else if v > hi {
        hi
    } else {
        v
    }
}

fn floor_unit(a: i64) -> (q: i64)
    requires
        -NOISE_DIV_LIMIT <= a <= NOISE_DIV_LIMIT,
    ensures
        q == spec_floor_unit(a as int),
{
    if a >= 0 {
        a / 65536
    } else {
        let m: i64 = -a;
        let q0: i64 = (m + 65535) / 65536;
        proof {
            vstd::arithmetic::div_mod::lemma_fundamental_div_mod_converse(
                a as int,
                65536,
                -(q0 as int),
                q0 as int * 65536 - m,
            );
        }
        -q0
    }
}

fn div_trunc(a: i64, b: i64) -> (q: i64)
    requires
        -NOISE_DIV_LIMIT <= a <= NOISE_DIV_LIMIT,
        0 < b <= NOISE_DIV_LIMIT,
    ensures
        q == spec_div_trunc(a as int, b as int),
        a >= 0 ==> 0 <= q <= a,
        a < 0 ==> a <= q <= 0,
{
    if a >= 0 {
        proof {
            vstd::arithmetic::div_mod::lemma_div_pos_is_pos(a as int, b as int);
            vstd::arithmetic::div_mod::lemma_div_nonincreasing(a as int, b as int);
        }
        a / b
    } else {
        let m: i64 = -a;
        proof {
            vstd::arithmetic::div_mod::lemma_div_pos_is_pos(m as int, b as int);
            vstd::arithmetic::div_mod::lemma_div_nonincreasing(m as int, b as int);
        }
        -(m / b)
    }
}

fn trunc_unit(a: i64) -> (q: i64)
    requires
        -NOISE_DIV_LIMIT <= a <= NOISE_DIV_LIMIT,
    ensures
        q == spec_trunc_unit(a as int),
{
    div_trunc(a, 65536)
}

/// A truncating rescale keeps the bound of its argument, shrunk by one
/// fixed-point unit.
proof fn lemma_trunc_unit_bound(a: int, m: int)
    requires
        -m <= a <= m,
        0 <= m,
    ensures
        -(m / 65536) <= spec_trunc_unit(a) <= m / 65536,
{
    if a >= 0 {
        vstd::arithmetic::div_mod::lemma_div_is_ordered(a, m, 65536);
        vstd::arithmetic::div_mod::lemma_div_pos_is_pos(a, 65536);
    } else {
        vstd::arithmetic::div_mod::lemma_div_is_ordered(-a, m, 65536);
        vstd::arithmetic::div_mod::lemma_div_pos_is_pos(-a, 65536);
    }
}

fn clamp(v: i64, lo: i64, hi: i64) -> (r: i64)
    requires
        lo <= hi,
    ensures
        r == spec_clamp(v as int, lo as int, hi as int),
{
    if v < lo {
        lo
    } else if v > hi {
        hi
    } else {
        v
    }
}

/// Simplex-style noise sampler over the fixed permutation table.
pub struct SimplexNoise {}

impl SimplexNoise {
    /// Table lookup of the low byte of `i`.
    pub open spec fn spec_hash(i: u32) -> u8 {
        PERM[(i % 256) as int]
    }

    /// Table lookup of the low byte of `i`.
    pub fn hash(i: u32) -> (r: u8)
        ensures
            r == SimplexNoise::spec_hash(i),
    {
        let idx: usize = (i % 256) as usize;
        PERM[idx]
    }

    /// Pseudo-random 1-D gradient: a magnitude of one to eight from the low
    /// hash bits, negated by bit three, applied to the offset `x`.
    pub open spec fn spec_grad(hash: u32, x: int) -> int {
        let h = hash & 0x0F;
        let g: int = 1 + (h & 7);
        if h & 8 != 0 {
            -(g * x)
        } else {
            g * x
        }
    }

    /// 1-D gradient in fixed point.
    pub fn grad(hash: u32, x: i64) -> (r: i64)
        requires
            -65536 <= x <= 65536,
        ensures
            r == SimplexNoise::spec_grad(hash, x as int),
            -524288 <= r <= 524288,
    {
        let h: u32 = hash & 0x0F;
        proof {
            assert((hash & 0x0F) & 7 <= 7) by (bit_vector);
        }
        let g: i64 = 1 + (h & 7) as i64;
        assert(-524288 <= g * x <= 524288) by (nonlinear_arith)
            requires
                1 <= g <= 8,
                -65536 <= x <= 65536,
        ;
        if h & 8 != 0 {
            -(g * x)
        } else {
            g * x
        }
    }

    /// One sample of the 1-D noise: the two surrounding lattice corners'
    /// gradients, weighted by the fourth power of the radial falloff and
    /// rescaled to roughly unit range. The lattice byte wraps, so every
    /// coordinate hashes into the table.
    pub open spec fn spec_one_d(x: int) -> int {
        let i0 = spec_floor_unit(x);
        let x0 = x - i0 * 65536;
        let x1 = x0 - 65536;
        let t0 = 65536 - (x0 * x0) / 65536;
        let t0q = (t0 * t0) / 65536;
        let n0 = spec_trunc_unit(
            ((t0q * t0q) / 65536) * SimplexNoise::spec_grad(
                SimplexNoise::spec_hash(SimplexNoise::spec_low_byte(i0) as u32) as u32,
                x0,
            ),
        );
        let t1 = 65536 - (x1 * x1) / 65536;
        let t1q = (t1 * t1) / 65536;
        let n1 = spec_trunc_unit(
            ((t1q * t1q) / 65536) * SimplexNoise::spec_grad(
                SimplexNoise::spec_hash(SimplexNoise::spec_low_byte(i0 + 1) as u32) as u32,
                x1,
            ),
        );
        spec_trunc_unit((n0 + n1) * 25887)
    }

    /// 1-D noise sample at the fixed-point coordinate `x`.
    pub fn one_d(x: i64) -> (r: i64)
        requires
            -NOISE_COORD_LIMIT <= x <= NOISE_COORD_LIMIT,
        ensures
            r == SimplexNoise::spec_one_d(x as int),
            -600000 <= r <= 600000,
    {
        let i0: i64 = floor_unit(x);
        proof {
            vstd::arithmetic::div_mod::lemma_fundamental_div_mod(x as int, 65536);
        }
        let x0: i64 = x - i0 * 65536;
        let x1: i64 = x0 - 65536;
        assert(0 <= x0 * x0 <= 0x1_0000_0000 && 0 <= x1 * x1 <= 0x1_0000_0000) by (nonlinear_arith)
            requires
                0 <= x0 < 65536,
                -65536 <= x1 <= 0,
        ;
        let t0: i64 = 65536 - (x0 * x0) / 65536;
        assert(0 <= t0 * t0 <= 0x1_0000_0000) by (nonlinear_arith)
            requires
                0 <= t0 <= 65536,
        ;
        let t0q: i64 = (t0 * t0) / 65536;
        assert(0 <= t0q * t0q <= 0x1_0000_0000) by (nonlinear_arith)
            requires
                0 <= t0q <= 65536,
        ;
        let g0: i64 = Self::grad(Self::hash(Self::low_byte(i0)) as u32, x0);
        assert(-0x8_0000_0000 <= ((t0q * t0q) / 65536) * g0 <= 0x8_0000_0000) by (nonlinear_arith)
            requires
                0 <= (t0q * t0q) / 65536 <= 65536,
                -524288 <= g0 <= 524288,
        ;
        let n0: i64 = trunc_unit(((t0q * t0q) / 65536) * g0);
        proof {
            lemma_trunc_unit_bound((((t0q * t0q) / 65536) * g0) as int, 0x8_0000_0000int);
        }
        let t1: i64 = 65536 - (x1 * x1) / 65536;
        assert(0 <= t1 * t1 <= 0x1_0000_0000) by (nonlinear_arith)
            requires
                0 <= t1 <= 65536,
        ;
        let t1q: i64 = (t1 * t1) / 65536;
        assert(0 <= t1q * t1q <= 0x1_0000_0000) by (nonlinear_arith)
            requires
                0 <= t1q <= 65536,
        ;
        let g1: i64 = Self::grad(Self::hash(Self::low_byte(i0 + 1)) as u32, x1);
        assert(-0x8_0000_0000 <= ((t1q * t1q) / 65536) * g1 <= 0x8_0000_0000) by (nonlinear_arith)
            requires
                0 <= (t1q * t1q) / 65536 <= 65536,
                -524288 <= g1 <= 524288,
        ;
        let n1: i64 = trunc_unit(((t1q * t1q) / 65536) * g1);
        proof {
            lemma_trunc_unit_bound((((t1q * t1q) / 65536) * g1) as int, 0x8_0000_0000int);
            assert(-524288 <= n0 <= 524288);
            assert(-524288 <= n1 <= 524288);
            lemma_trunc_unit_bound((n0 + n1) * 25887, 1048576int * 25887);
        }
        trunc_unit((n0 + n1) * 25887)
    }

    /// Pseudo-random gradient of one lattice corner, applied to the offset
    /// `(x, y)` from that corner. The low six hash bits pick axis order and
    /// signs.
    pub open spec fn spec_grad_2d(hash: u32, x: int, y: int) -> int {
        let h = hash & 0x3F;
        let u = if h < 4 {
            y
        } else {
            x
        };
        let v = if h < 4 {
            x
        } else {
            y
        };
        let u2 = if h & 1 == 1 {
            -u
        } else {
            u
        };
        if h & 2 == 2 {
            u2 - 2 * v
        } else {
            u2 + 2 * v
        }
    }

    /// Gradient of one lattice corner in fixed point.
    pub fn grad_2d(hash: u32, x: i64, y: i64) -> (r: i64)
        requires
            -131072 <= x <= 131072,
            -131072 <= y <= 131072,
        ensures
            r == SimplexNoise::spec_grad_2d(hash, x as int, y as int),
            -393216 <= r <= 393216,
    {
        let h: u32 = hash & 0x3F;
        let u: i64 = if h < 4 {
            y
        } else {
            x
        };
        let v: i64 = if h < 4 {
            x
        } else {
            y
        };
        let u2: i64 = if h & 1 == 1 {
            -u
        } else {
            u
        };
        if h & 2 == 2 {
            u2 - 2 * v
        } else {
            u2 + 2 * v
        }
    }

    /// Falloff-weighted gradient contribution of one simplex corner: offsets
    /// are clamped to the two surrounding cells (far outside that range the
    /// falloff is zero anyway), then weighted by the fourth power of the
    /// radial falloff `1/2 - dx^2 - dy^2`.
    pub open spec fn spec_corner(gi: u8, dx: int, dy: int) -> int {
        let cx = spec_clamp(dx, -131072, 131072);
        let cy = spec_clamp(dy, -131072, 131072);
        let t0 = 32768 - (cx * cx) / 65536 - (cy * cy) / 65536;
        if t0 < 0 {
            0
        } else {
            let t2 = (t0 * t0) / 65536;
            let t4 = (t2 * t2) / 65536;
            spec_trunc_unit(t4 * SimplexNoise::spec_grad_2d(gi as u32, cx, cy))
        }
    }

    fn corner(gi: u8, dx: i64, dy: i64) -> (n: i64)
        ensures
            n == SimplexNoise::spec_corner(gi, dx as int, dy as int),
            -24576 <= n <= 24576,
    {
        let cx: i64 = clamp(dx, -131072, 131072);
        let cy: i64 = clamp(dy, -131072, 131072);
        assert(0 <= cx * cx <= 0x400000000 && 0 <= cy * cy <= 0x400000000) by (nonlinear_arith)
            requires
                -131072 <= cx <= 131072,
                -131072 <= cy <= 131072,
        ;
        let t0: i64 = 32768 - (cx * cx) / 65536 - (cy * cy) / 65536;
        if t0 < 0 {
            0
        } else {
            assert(0 <= t0 * t0 <= 0x40000000) by (nonlinear_arith)
                requires
                    0 <= t0 <= 32768,
            ;
            let t2: i64 = (t0 * t0) / 65536;
            assert(0 <= t2 * t2 <= 0x10000000) by (nonlinear_arith)
                requires
                    0 <= t2 <= 16384,
            ;
            let t4: i64 = (t2 * t2) / 65536;
            let g: i64 = SimplexNoise::grad_2d(gi as u32, cx, cy);
            assert(-0x60000000000 <= t4 * g <= 0x60000000000 && -1610612736 <= t4 * g <= 1610612736)
                by (nonlinear_arith)
                requires
                    0 <= t4 <= 4096,
                    -393216 <= g <= 393216,
            ;
            trunc_unit(t4 * g)
        }
    }

    /// `v` reduced to its lattice byte, the representative of `v` modulo 256.
    pub open spec fn spec_low_byte(v: int) -> int {
        v % 256
    }

    fn low_byte(v: i64) -> (r: u32)
        requires
            -NOISE_DIV_LIMIT <= v <= NOISE_DIV_LIMIT,
        ensures
            r == SimplexNoise::spec_low_byte(v as int),
            r < 256,
    {
        if v >= 0 {
            (v % 256) as u32
        } else {
            let m: i64 = (-v) % 256;
            proof {
                vstd::arithmetic::div_mod::lemma_fundamental_div_mod_converse(
                    v as int,
                    256,
                    if m == 0 {
                        (v as int) / 256
                    } else {
                        -((-v as int) / 256) - 1
                    },
                    if m == 0 {
                        0
                    } else {
                        256 - m as int
                    },
                );
            }
            if m == 0 {
                0
            } else {
                (256 - m) as u32
            }
        }
    }

    /// Gradient hash of the lattice cell `(i, j)`: the table folded over both
    /// cell coordinates.
    pub open spec fn spec_lattice_hash(i: int, j: int) -> u8 {
        SimplexNoise::spec_hash(
            (SimplexNoise::spec_low_byte(i) + SimplexNoise::spec_hash(
                SimplexNoise::spec_low_byte(j) as u32,
            )) as u32,
        )
    }

    fn lattice_hash(i: i64, j: i64) -> (r: u8)
        requires
            -NOISE_DIV_LIMIT < i < NOISE_DIV_LIMIT,
            -NOISE_DIV_LIMIT < j < NOISE_DIV_LIMIT,
        ensures
            r == SimplexNoise::spec_lattice_hash(i as int, j as int),
    {
        let jb: u32 = Self::low_byte(j);
        let hj: u8 = Self::hash(jb);
        let ib: u32 = Self::low_byte(i);
        Self::hash(ib + hj as u32)
    }

    /// One sample of the 2-D simplex-style noise. Mirrored exactly by
    /// `spec_two_d`, so the sample is a pure function of `(x, y)` and the
    /// fixed table.
    #[verifier::opaque]
    pub open spec fn spec_two_d(x: int, y: int) -> int {
        let s = spec_trunc_unit((x + y) * 23991);
        let i = spec_floor_unit(x + s);
        let j = spec_floor_unit(y + s);
        let t = (i + j) * 13849;
        let x0 = x - i * 65536 + t;
        let y0 = y - j * 65536 + t;
        let i1: int = if x0 > y0 {
            1
        } else {
            0
        };
        let j1: int = if x0 > y0 {
            0
        } else {
            -1
        };
        let x1 = x0 - i1 * 65536 + 13849;
        let y1 = y0 - j1 * 65536 + 13849;
        let x2 = x0 - 65536 + 27698;
        let y2 = y0 - 65536 + 27698;
        let n0 = SimplexNoise::spec_corner(SimplexNoise::spec_lattice_hash(i, j), x0, y0);
        let n1 = SimplexNoise::spec_corner(
            SimplexNoise::spec_lattice_hash(i + i1, j + j1),
            x1,
            y1,
        );
        let n2 = SimplexNoise::spec_corner(SimplexNoise::spec_lattice_hash(i + 1, j + 1), x2, y2);
        spec_clamp(spec_trunc_unit((n0 + n1 + n2) * 2964098), -65536, 65536)
    }

    /// 2-D noise sample at the fixed-point coordinate `(x, y)`, within one
    /// unit either way. The skew constants are the usual simplex pair in
    /// 16.16 fixed point; the final factor rescales the three corner
    /// contributions to roughly unit range, and the sample saturates at the
    /// unit bounds.
    #[verifier::rlimit(60)]
    pub fn two_d(x: i64, y: i64) -> (r: i64)
        requires
            -NOISE_COORD_LIMIT <= x <= NOISE_COORD_LIMIT,
            -NOISE_COORD_LIMIT <= y <= NOISE_COORD_LIMIT,
        ensures
            r == SimplexNoise::spec_two_d(x as int, y as int),
            -65536 <= r <= 65536,
    {
        proof {
            reveal(SimplexNoise::spec_two_d);
        }
        let s: i64 = trunc_unit((x + y) * 23991);
        let i: i64 = floor_unit(x + s);
        let j: i64 = floor_unit(y + s);
        let t: i64 = (i + j) * 13849;
        let x0: i64 = x - i * 65536 + t;
        let y0: i64 = y - j * 65536 + t;
        let i1: i64 = if x0 > y0 {
            1
        } else {
            0
        };
        let j1: i64 = if x0 > y0 {
            0
        } else {
            -1
        };
        let x1: i64 = x0 - i1 * 65536 + 13849;
        let y1: i64 = y0 - j1 * 65536 + 13849;
        let x2: i64 = x0 - 65536 + 27698;
        let y2: i64 = y0 - 65536 + 27698;
        let gi0: u8 = Self::lattice_hash(i, j);
        let gi1: u8 = Self::lattice_hash(i + i1, j + j1);
        let gi2: u8 = Self::lattice_hash(i + 1, j + 1);
        let n0: i64 = Self::corner(gi0, x0, y0);
        let n1: i64 = Self::corner(gi1, x1, y1);
        let n2: i64 = Self::corner(gi2, x2, y2);
        clamp(trunc_unit((n0 + n1 + n2) * 2964098), -65536, 65536)
    }

    /// Amplitude of octave `k`: one unit decayed `k` times by `persistence`.
    pub open spec fn spec_amp_at(persistence: int, k: nat) -> int
        decreases k,
    {
        if k == 0 {
            65536
        } else {
            spec_trunc_unit(SimplexNoise::spec_amp_at(persistence, (k - 1) as nat) * persistence)
        }
    }

    /// Frequency multiplier of octave `k`.
    pub open spec fn spec_pow2(k: nat) -> int {
        vstd::arithmetic::power2::pow2(k) as int
    }

    proof fn lemma_pow2_bound(k: nat)
        ensures
            SimplexNoise::spec_pow2(k) >= 1,
            k <= 7 ==> SimplexNoise::spec_pow2(k) <= 128,
            k <= 14 ==> SimplexNoise::spec_pow2(k) <= 16384,
            k >= 1 ==> SimplexNoise::spec_pow2(k) == 2 * SimplexNoise::spec_pow2((k - 1) as nat),
    {
        vstd::arithmetic::power2::lemma_pow2_pos(k);
        vstd::arithmetic::power2::lemma2_to64();
        if k < 7 {
            vstd::arithmetic::power2::lemma_pow2_strictly_increases(k, 7);
        }
        if k < 14 {
            vstd::arithmetic::power2::lemma_pow2_strictly_increases(k, 14);
        }
        if k >= 1 {
            vstd::arithmetic::power2::lemma_pow2_unfold(k);
        }
    }

    /// Amplitude-weighted sum of the first `k` octaves.
    pub open spec fn spec_fractal_total(x: int, y: int, persistence: int, k: nat) -> int
        decreases k,
    {
        if k == 0 {
            0
        } else {
            let f = SimplexNoise::spec_pow2((k - 1) as nat);
            let a = SimplexNoise::spec_amp_at(persistence, (k - 1) as nat);
            SimplexNoise::spec_fractal_total(x, y, persistence, (k - 1) as nat)
                + spec_trunc_unit(SimplexNoise::spec_two_d(x * f, y * f) * a)
        }
    }

    /// Sum of the amplitudes of the first `k` octaves, the normalizer of the
    /// fractal sum.
    pub open spec fn spec_fractal_maxval(persistence: int, k: nat) -> int
        decreases k,
    {
        if k == 0 {
            0
        } else {
            SimplexNoise::spec_fractal_maxval(persistence, (k - 1) as nat)
                + SimplexNoise::spec_amp_at(persistence, (k - 1) as nat)
        }
    }

    /// The fractal sample: octave sum, normalized by the total amplitude and
    /// remapped from `[-1, 1]` to `[0, 1]` (saturating at the unit bounds).
    pub open spec fn spec_generate_noise(x: int, y: int, octaves: u32, persistence: int) -> int {
        let total = SimplexNoise::spec_fractal_total(x, y, persistence, octaves as nat);
        let maxv = SimplexNoise::spec_fractal_maxval(persistence, octaves as nat);
        let norm = spec_div_trunc(total * 65536, maxv);
        let v = norm + 65536;
        if v < 0 {
            0
        } else if v / 2 > 65536 {
            65536
        } else {
            v / 2
        }
    }

    /// Fractal noise in `[0, 1]`: `octaves` samples of `two_d` at doubling
    /// frequency and decaying amplitude, normalized by the summed amplitudes
    /// and remapped from `[-1, 1]` to `[0, 1]`.
    pub fn generate_noise(x: i64, y: i64, octaves: u32, persistence: i64) -> (r: i64)
        requires
            -0x80000000 <= x <= 0x80000000,
            -0x80000000 <= y <= 0x80000000,
            1 <= octaves <= 15,
            0 <= persistence <= 65536,
        ensures
            r == SimplexNoise::spec_generate_noise(x as int, y as int, octaves, persistence as int),
            0 <= r <= 65536,
    {
        proof {
            vstd::arithmetic::power2::lemma2_to64();
        }
        let mut total: i64 = 0;
        let mut frequency: i64 = 1;
        let mut amplitude: i64 = 65536;
        let mut max_value: i64 = 0;
        let mut k: u32 = 0;
        while k < octaves
            invariant
                0 <= k <= octaves,
                1 <= octaves <= 15,
                -0x80000000 <= x <= 0x80000000,
                -0x80000000 <= y <= 0x80000000,
                0 <= persistence <= 65536,
                frequency == SimplexNoise::spec_pow2(k as nat),
                1 <= frequency <= 32768,
                amplitude == SimplexNoise::spec_amp_at(persistence as int, k as nat),
                0 <= amplitude <= 65536,
                total == SimplexNoise::spec_fractal_total(
                    x as int,
                    y as int,
                    persistence as int,
                    k as nat,
                ),
                -3400000 * (k as int) <= total <= 3400000 * (k as int),
                max_value == SimplexNoise::spec_fractal_maxval(persistence as int, k as nat),
                0 <= max_value <= 65536 * (k as int),
                k >= 1 ==> max_value >= 65536,
            decreases octaves - k,
        {
            proof {
                SimplexNoise::lemma_pow2_bound(k as nat);
                SimplexNoise::lemma_pow2_bound((k + 1) as nat);
            }
            assert(-0x4000_0000_0000 <= x * frequency <= 0x4000_0000_0000 && -0x4000_0000_0000 <= y
                * frequency <= 0x4000_0000_0000) by (nonlinear_arith)
                requires
                    -0x80000000 <= x <= 0x80000000,
                    -0x80000000 <= y <= 0x80000000,
                    1 <= frequency <= 32768,
            ;
            let n: i64 = Self::two_d(x * frequency, y * frequency);
            assert(-3400000 * 65536 <= n * amplitude <= 3400000 * 65536) by (nonlinear_arith)
                requires
                    -3400000 <= n <= 3400000,
                    0 <= amplitude <= 65536,
            ;
            let contribution: i64 = trunc_unit(n * amplitude);
            assert(-3400000 <= contribution <= 3400000) by {
                assert(n * amplitude >= 0 ==> contribution <= (3400000 * 65536) / 65536);
                assert(n * amplitude < 0 ==> contribution >= -((3400000 * 65536) / 65536));
            }
            total = total + contribution;
            max_value = max_value + amplitude;
            assert(0 <= amplitude * persistence <= 65536 * 65536) by (nonlinear_arith)
                requires
                    0 <= amplitude <= 65536,
                    0 <= persistence <= 65536,
            ;
            amplitude = trunc_unit(amplitude * persistence);
            frequency = frequency * 2;
            k = k + 1;
        }
        let norm: i64 = div_trunc(total * 65536, max_value);
        let v: i64 = norm + 65536;
        if v < 0 {
            0
        } else if v / 2 > 65536 {
            65536
        } else {
            v / 2
        }
    }

    /// The sampling coordinate of octave `k` of the stepped fractal: the
    /// cell coordinate scaled by the base frequency, the octave's doubling
    /// and its fixed offset, shifted by the seed.
    pub open spec fn spec_stepped_arg(c: int, frequency: int, seed: int, offs: int, k: nat) -> int {
        spec_trunc_unit(
            (spec_trunc_unit((c * 65536) * frequency) * SimplexNoise::spec_pow2(k)) * (offs * k),
        ) + seed * 65536
    }

    /// Amplitude-weighted octave sum of the stepped fractal.
    pub open spec fn spec_stepped_total(
        x: int,
        y: int,
        frequency: int,
        seed: int,
        persistence: int,
        k: nat,
    ) -> int
        decreases k,
    {
        if k == 0 {
            0
        } else {
            let p = (k - 1) as nat;
            SimplexNoise::spec_stepped_total(x, y, frequency, seed, persistence, p)
                + spec_trunc_unit(
                SimplexNoise::spec_two_d(
                    SimplexNoise::spec_stepped_arg(x, frequency, seed, 353894, p),
                    SimplexNoise::spec_stepped_arg(y, frequency, seed, 157286, p),
                ) * SimplexNoise::spec_amp_at(persistence, p),
            )
        }
    }

    /// The stepped fractal sample: the octave sum normalized and remapped
    /// to `[0, 1]` as in `spec_generate_noise`, then snapped to one of five
    /// hill steps and scaled by the amplitude.
    pub open spec fn spec_noise_2d(
        x: int,
        y: int,
        frequency: int,
        seed: int,
        amplitude: int,
        persistence: int,
        octaves: u32,
    ) -> int {
        let total = SimplexNoise::spec_stepped_total(
            x,
            y,
            frequency,
            seed,
            persistence,
            octaves as nat,
        );
        let maxv = SimplexNoise::spec_fractal_maxval(persistence, octaves as nat);
        let norm = spec_div_trunc(total * 65536, maxv);
        let v = norm + 65536;
        let u = if v < 0 {
            0
        } else if v / 2 > 65536 {
            65536
        } else {
            v / 2
        };
        let s = (u * 5 + 32768) / 65536;
        spec_trunc_unit(((s * 65536) / 5) * amplitude)
    }

    /// Stepped fractal noise in `[0, amplitude]`: octaves of `two_d` at
    /// fixed per-octave coordinate offsets, normalized, remapped to the
    /// unit range, rounded to one of five hill steps and scaled.
    #[verifier::rlimit(100)]
    pub fn noise_2d(
        x: u32,
        y: u32,
        frequency: i64,
        seed: u32,
        amplitude: i64,
        persistence: i64,
        octaves_count: u32,
    ) -> (r: i64)
        requires
            x <= 65536,
            y <= 65536,
            0 <= frequency <= 65536,
            seed <= 16384,
            0 <= amplitude <= 0x10_0000,
            0 <= persistence <= 65536,
            1 <= octaves_count <= 8,
        ensures
            r == SimplexNoise::spec_noise_2d(
                x as int,
                y as int,
                frequency as int,
                seed as int,
                amplitude as int,
                persistence as int,
                octaves_count,
            ),
            0 <= r <= amplitude,
    {
        assert(0 <= ((x as i64) * 65536) * frequency <= 0x1_0000_0000_0000 && 0 <= ((y as i64)
            * 65536) * frequency <= 0x1_0000_0000_0000) by (nonlinear_arith)
            requires
                0 <= x <= 65536,
                0 <= y <= 65536,
                0 <= frequency <= 65536,
        ;
        let base_x: i64 = trunc_unit(((x as i64) * 65536) * frequency);
        let base_y: i64 = trunc_unit(((y as i64) * 65536) * frequency);
        proof {
            lemma_trunc_unit_bound(((x as i64) * 65536) * frequency, 0x1_0000_0000_0000int);
            lemma_trunc_unit_bound(((y as i64) * 65536) * frequency, 0x1_0000_0000_0000int);
        }
        let seed_fp: i64 = (seed as i64) * 65536;
        proof {
            vstd::arithmetic::power2::lemma2_to64();
        }
        let mut total: i64 = 0;
        let mut inner_freq: i64 = 1;
        let mut inner_amplitude: i64 = 65536;
        let mut total_amplitude: i64 = 0;
        let mut k: u32 = 0;
        while k < octaves_count
            invariant
                0 <= k <= octaves_count,
                1 <= octaves_count <= 8,
                0 <= persistence <= 65536,
                seed <= 16384,
                seed_fp == seed * 65536,
                -0x1_0000_0000 <= base_x <= 0x1_0000_0000,
                -0x1_0000_0000 <= base_y <= 0x1_0000_0000,
                base_x == spec_trunc_unit((x * 65536) * frequency),
                base_y == spec_trunc_unit((y * 65536) * frequency),
                inner_freq == SimplexNoise::spec_pow2(k as nat),
                1 <= inner_freq <= 256,
                inner_amplitude == SimplexNoise::spec_amp_at(persistence as int, k as nat),
                0 <= inner_amplitude <= 65536,
                total == SimplexNoise::spec_stepped_total(
                    x as int,
                    y as int,
                    frequency as int,
                    seed as int,
                    persistence as int,
                    k as nat,
                ),
                -3400000 * (k as int) <= total <= 3400000 * (k as int),
                total_amplitude == SimplexNoise::spec_fractal_maxval(
                    persistence as int,
                    k as nat,
                ),
                0 <= total_amplitude <= 65536 * (k as int),
                k >= 1 ==> total_amplitude >= 65536,
            decreases octaves_count - k,
        {
            proof {
                SimplexNoise::lemma_pow2_bound(k as nat);
                SimplexNoise::lemma_pow2_bound((k + 1) as nat);
            }
            assert(-0x80_0000_0000 <= base_x * inner_freq <= 0x80_0000_0000 && -0x80_0000_0000
                <= base_y * inner_freq <= 0x80_0000_0000) by (nonlinear_arith)
                requires
                    -0x1_0000_0000 <= base_x <= 0x1_0000_0000,
                    -0x1_0000_0000 <= base_y <= 0x1_0000_0000,
                    1 <= inner_freq <= 128,
            ;
            let offs_x: i64 = 353894 * (k as i64);
            let offs_y: i64 = 157286 * (k as i64);
            assert(-0x2000_0000_0000_0000 <= (base_x * inner_freq) * offs_x
                <= 0x2000_0000_0000_0000 && -0x2000_0000_0000_0000 <= (base_y * inner_freq)
                * offs_y <= 0x2000_0000_0000_0000) by (nonlinear_arith)
                requires
                    -0x80_0000_0000 <= base_x * inner_freq <= 0x80_0000_0000,
                    -0x80_0000_0000 <= base_y * inner_freq <= 0x80_0000_0000,
                    0 <= offs_x <= 2830000,
                    0 <= offs_y <= 2830000,
            ;
            let arg_x: i64 = trunc_unit((base_x * inner_freq) * offs_x) + seed_fp;
            let arg_y: i64 = trunc_unit((base_y * inner_freq) * offs_y) + seed_fp;
            proof {
                lemma_trunc_unit_bound(
                    ((base_x * inner_freq) * offs_x) as int,
                    0x2000_0000_0000_0000int,
                );
                lemma_trunc_unit_bound(
                    ((base_y * inner_freq) * offs_y) as int,
                    0x2000_0000_0000_0000int,
                );
            }
            let n: i64 = Self::two_d(arg_x, arg_y);
            assert(-3400000 * 65536 <= n * inner_amplitude <= 3400000 * 65536) by (nonlinear_arith)
                requires
                    -3400000 <= n <= 3400000,
                    0 <= inner_amplitude <= 65536,
            ;
            let contribution: i64 = trunc_unit(n * inner_amplitude);
            proof {
                lemma_trunc_unit_bound((n * inner_amplitude) as int, 3400000int * 65536);
            }
            total = total + contribution;
            total_amplitude = total_amplitude + inner_amplitude;
            assert(0 <= inner_amplitude * persistence <= 65536 * 65536) by (nonlinear_arith)
                requires
                    0 <= inner_amplitude <= 65536,
                    0 <= persistence <= 65536,
            ;
            inner_amplitude = trunc_unit(inner_amplitude * persistence);
            inner_freq = inner_freq * 2;
            k = k + 1;
        }
        let norm: i64 = div_trunc(total * 65536, total_amplitude);
        let v: i64 = norm + 65536;
        let u: i64 = if v < 0 {
            0
        } else if v / 2 > 65536 {
            65536
        } else {
            v / 2
        };
        let s: i64 = (u * 5 + 32768) / 65536;
        let v2: i64 = (s * 65536) / 5;
        assert(0 <= v2 * amplitude <= 65536 * 0x10_0000) by (nonlinear_arith)
            requires
                0 <= v2 <= 65536,
                0 <= amplitude <= 0x10_0000,
        ;
        let r: i64 = trunc_unit(v2 * amplitude);
        proof {
            if v2 * amplitude >= 0 {
                vstd::arithmetic::div_mod::lemma_div_pos_is_pos(v2 * amplitude, 65536);
                assert(v2 * amplitude <= 65536 * amplitude) by (nonlinear_arith)
                    requires
                        0 <= v2 <= 65536,
                        0 <= amplitude,
                ;
                vstd::arithmetic::div_mod::lemma_div_is_ordered(
                    v2 * amplitude,
                    65536 * amplitude,
                    65536,
                );
                vstd::arithmetic::div_mod::lemma_div_multiples_vanish(amplitude as int, 65536);
            }
        }
        r
    }

    /// Fractal sampling is deterministic: the sample is a function of the
    /// coordinates, octave count and persistence alone, so any two results
    /// obtained from identical inputs are equal.
    pub proof fn lemma_generate_noise_deterministic(
        x: int,
        y: int,
        octaves: u32,
        persistence: int,
        r1: int,
        r2: int,
    )
        requires
            r1 == SimplexNoise::spec_generate_noise(x, y, octaves, persistence),
            r2 == SimplexNoise::spec_generate_noise(x, y, octaves, persistence),
        ensures
            r1 == r2,
    {
    }
}

} // verus!
