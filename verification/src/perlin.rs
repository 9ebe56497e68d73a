//! Lattice permutation tables for Perlin gradient noise.
//!
//! Perlin noise hashes every integer lattice corner to one of 256 gradient
//! vectors through three shuffled index tables.  The gradient vectors
//! themselves are floating-point data owned by the shading code; this module
//! owns the tables and the corner hash, and guarantees that every hash lands
//! inside the gradient table.

use vstd::prelude::*;

use crate::rng::rng_index;
use crate::rng::rng_new;

verus! {

/// `s` is a permutation of `0 .. n`: right length, every entry in range,
/// no entry repeated.
pub open spec fn is_perm(s: Seq<i32>, n: int) -> bool {
    &&& s.len() == n
    &&& forall|i: int| 0 <= i < s.len() ==> 0 <= #[trigger] s[i] < n
    &&& forall|i: int, j: int| 0 <= i < j < s.len() ==> s[i] != s[j]
}

/// Three 256-entry permutation tables, one per axis, fixed at construction.
#[derive(Clone, Debug, PartialEq, Eq)]
pub struct PerlinNoise {
    perm_x: Vec<i32>,
    perm_y: Vec<i32>,
    perm_z: Vec<i32>,
}

impl PerlinNoise {
    /// Each table is a permutation of `0 .. 256`.
    pub closed spec fn wf(self) -> bool {
        &&& is_perm(self.perm_x@, 256)
        &&& is_perm(self.perm_y@, 256)
        &&& is_perm(self.perm_z@, 256)
    }

    /// Which entry of the gradient table the lattice corner
    /// `(i + di, j + dj, k + dk)` uses: each coordinate is folded into
    /// `0 .. 256` by its low eight bits, sent through its axis table, and
    /// the three table entries are combined by exclusive or.
    pub closed spec fn corner_index_spec(self, i: int, j: int, k: int, di: int, dj: int, dk: int) -> int {
        let xi = (((i + di) as i64) & 255) as int;
        let yj = (((j + dj) as i64) & 255) as int;
        let zk = (((k + dk) as i64) & 255) as int;
        ((((self.perm_x@[xi] as u32) ^ (self.perm_y@[yj] as u32)) ^ (self.perm_z@[zk] as u32)) as int)
    }

    /// Fresh tables drawn from the thread-local generator.
    pub fn default() -> (p: PerlinNoise)
        ensures
            p.wf(),
    {
        let mut rng = rng_new();
        Self::generate(&mut rng)
    }

    /// Fresh tables drawn from the given generator; a fixed seed gives
    /// fixed tables.
    pub fn generate(rng: &mut fastrand::Rng) -> (p: PerlinNoise)
        ensures
            p.wf(),
    {
        PerlinNoise {
            perm_x: Self::gen_perm(256, rng),
            perm_y: Self::gen_perm(256, rng),
            perm_z: Self::gen_perm(256, rng),
        }
    }

    /// A uniformly shuffled permutation of `0 .. c` (empty when `c <= 0`),
    /// built by a Fisher-Yates walk over an identity table.
    pub fn gen_perm(c: i32, rng: &mut fastrand::Rng) -> (r: Vec<i32>)
        ensures
            is_perm(r@, if c > 0 { c as int } else { 0 }),
    {
        let n: usize = if c > 0 {
            c as usize
        } else {
            0
        };
        let mut ps: Vec<i32> = Vec::new();
        let mut i: usize = 0;
        while i < n
            invariant
                i <= n,
                n <= 0x7fff_ffff,
                ps@.len() == i,
                forall|t: int| 0 <= t < i ==> #[trigger] ps@[t] == t,
            decreases n - i,
        {
            ps.push(i as i32);
            i = i + 1;
        }

        let mut k: usize = n;
        while k > 1
            invariant
                k <= n,
                ps@.len() == n,
                forall|t: int| 0 <= t < n ==> 0 <= #[trigger] ps@[t] < n,
                forall|t1: int, t2: int| 0 <= t1 < t2 < n ==> ps@[t1] != ps@[t2],
            decreases k,
        {
            let j = rng_index(rng, k);
            let ghost s0 = ps@;
            let a = ps[k - 1];
            let b = ps[j];
            ps.set(k - 1, b);
            ps.set(j, a);
            proof {
                let km = k - 1;
                assert forall|t1: int, t2: int| 0 <= t1 < t2 < n implies ps@[t1] != ps@[t2] by {
                    let m1 = if t1 == km {
                        j as int
                    } else if t1 == j {
                        km as int
                    } else {
                        t1
                    };
                    let m2 = if t2 == km {
                        j as int
                    } else if t2 == j {
                        km as int
                    } else {
                        t2
                    };
                    assert(ps@[t1] == s0[m1]);
                    assert(ps@[t2] == s0[m2]);
                    assert(m1 != m2);
                    if m1 < m2 {
                        assert(s0[m1] != s0[m2]);
                    } else {
                        assert(s0[m2] != s0[m1]);
                    }
                }
            }
            k = k - 1;
        }
        ps
    }

    /// The x-axis table.
    pub closed spec fn spec_perm_x(self) -> Seq<i32> {
        self.perm_x@
    }

    /// The y-axis table.
    pub closed spec fn spec_perm_y(self) -> Seq<i32> {
        self.perm_y@
    }

    /// The z-axis table.
    pub closed spec fn spec_perm_z(self) -> Seq<i32> {
        self.perm_z@
    }

    /// The x-axis table.
    pub fn perm_x(&self) -> (r: &Vec<i32>)
        ensures
            r@ == self.spec_perm_x(),
    {
        &self.perm_x
    }

    /// The y-axis table.
    pub fn perm_y(&self) -> (r: &Vec<i32>)
        ensures
            r@ == self.spec_perm_y(),
    {
        &self.perm_y
    }

    /// The z-axis table.
    pub fn perm_z(&self) -> (r: &Vec<i32>)
        ensures
            r@ == self.spec_perm_z(),
    {
        &self.perm_z
    }

    /// The corner hash, as an index into the 256-entry gradient table.
    pub fn corner_index(&self, i: i32, j: i32, k: i32, di: u8, dj: u8, dk: u8) -> (r: usize)
        requires
            self.wf(),
        ensures
            r == self.corner_index_spec(i as int, j as int, k as int, di as int, dj as int, dk as int),
            r < 256,
    {
        let sx: i64 = (i as i64) + (di as i64);
        let sy: i64 = (j as i64) + (dj as i64);
        let sz: i64 = (k as i64) + (dk as i64);
        proof {
            assert(0 <= (sx & 255) < 256) by (bit_vector);
            assert(0 <= (sy & 255) < 256) by (bit_vector);
            assert(0 <= (sz & 255) < 256) by (bit_vector);
        }
        let xi = (sx & 255) as usize;
        let yj = (sy & 255) as usize;
        let zk = (sz & 255) as usize;
        let a = self.perm_x[xi];
        let b = self.perm_y[yj];
        let c = self.perm_z[zk];
        let ab: u32 = (a as u32) ^ (b as u32);
        proof {
            assert(((a as u32) < 256 && (b as u32) < 256) ==> ((a as u32) ^ (b as u32)) < 256)
                by (bit_vector);
            assert((ab < 256 && (c as u32) < 256) ==> (ab ^ (c as u32)) < 256) by (bit_vector);
        }
        let h: u32 = ab ^ (c as u32);
        h as usize
    }
}

} // verus!
