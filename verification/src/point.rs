//! Coordinates on the D-dimensional integer lattice, and the Moore
//! neighborhood enumeration.
//!
//! A candidate neighbor offset is encoded as a base-3 number with one digit
//! per axis: digit values 0, 1, 2 stand for per-axis deltas -1, 0, +1.
//! Enumerating all `3^D` encodings and decoding each one yields the full
//! neighborhood; the all-zero-delta decoding is the point itself.

use vstd::prelude::*;
use vstd::arithmetic::div_mod::lemma_div_denominator;
use vstd::arithmetic::div_mod::lemma_div_pos_is_pos;
use vstd::arithmetic::div_mod::lemma_fundamental_div_mod;
use vstd::arithmetic::div_mod::lemma_fundamental_div_mod_converse;
use vstd::arithmetic::div_mod::lemma_mod_division_less_than_divisor;
use vstd::arithmetic::div_mod::lemma_multiply_divide_lt;

verus! {

/// `3^d`: the number of candidate offsets (center included) in `d` dimensions.
pub open spec fn pow3(d: nat) -> nat
    decreases d,
{
    if d == 0 {
        1
    } else {
        3 * pow3((d - 1) as nat)
    }
}

pub proof fn lemma_pow3_pos(d: nat)
    ensures
        pow3(d) >= 1,
    decreases d,
{
    if d > 0 {
        lemma_pow3_pos((d - 1) as nat);
    }
}

pub proof fn lemma_pow3_mono(a: nat, b: nat)
    requires
        a <= b,
    ensures
        pow3(a) <= pow3(b),
    decreases b,
{
    if a < b {
        lemma_pow3_mono(a, (b - 1) as nat);
    }
}

/// Base-3 digit `i` of the nonnegative encoding `n`.
pub open spec fn digit3(n: int, i: int) -> int {
    (n / (pow3(i as nat) as int)) % 3
}

/// The per-axis delta carried by digit `i` of `n`: one of -1, 0, +1.
pub open spec fn delta3(n: int, i: int) -> int {
    digit3(n, i) - 1
}

/// The candidate neighbor obtained by applying the deltas encoded in `n`
/// to the coordinate `p`, axis by axis.
pub open spec fn nbr_at(p: Seq<i32>, n: int) -> Seq<i32> {
    Seq::new(p.len(), |i: int| (p[i] + delta3(n, i)) as i32)
}

/// `q` lies within Chebyshev distance 1 of `p` (`q` may equal `p`).
pub open spec fn is_adjacent(p: Seq<i32>, q: Seq<i32>) -> bool {
    &&& q.len() == p.len()
    &&& forall|i: int| 0 <= i < p.len() ==> -1 <= #[trigger] q[i] - p[i] <= 1
}

/// `q` is a proper Moore neighbor of `p`: adjacent and distinct from `p`.
pub open spec fn is_neighbor(p: Seq<i32>, q: Seq<i32>) -> bool {
    is_adjacent(p, q) && q != p
}

/// Every axis value leaves room for a +/-1 offset without leaving `i32`.
pub open spec fn in_bounds(p: Seq<i32>) -> bool {
    forall|i: int| 0 <= i < p.len() ==> i32::MIN < #[trigger] p[i] < i32::MAX
}

/// Every axis value leaves room for a +/-2 offset without leaving `i32`,
/// so every coordinate adjacent to `p` is still `in_bounds`.
pub open spec fn in_interior(p: Seq<i32>) -> bool {
    forall|i: int| 0 <= i < p.len() ==> i32::MIN + 1 < #[trigger] p[i] < i32::MAX - 1
}

pub proof fn lemma_adjacent_in_bounds(p: Seq<i32>, q: Seq<i32>)
    requires
        in_interior(p),
        is_adjacent(p, q),
    ensures
        in_bounds(q),
{
    assert forall|i: int| 0 <= i < q.len() implies i32::MIN < #[trigger] q[i] < i32::MAX by {
        assert(-1 <= q[i] - p[i] <= 1);
        assert(i32::MIN + 1 < p[i] < i32::MAX - 1);
    }
}

/// The base-3 encoding of the offset from `p` to an adjacent `q`,
/// starting at axis `i` (least significant digit first).
pub open spec fn encode_from(p: Seq<i32>, q: Seq<i32>, i: int) -> int
    decreases p.len() as int - i,
{
    if i < 0 || i >= p.len() {
        0
    } else {
        (q[i] - p[i] + 1) + 3 * encode_from(p, q, i + 1)
    }
}

/// The base-3 encoding of the offset from `p` to an adjacent `q`.
pub open spec fn encode(p: Seq<i32>, q: Seq<i32>) -> int {
    encode_from(p, q, 0)
}

proof fn lemma_encode_range(p: Seq<i32>, q: Seq<i32>, i: int)
    requires
        is_adjacent(p, q),
        0 <= i <= p.len(),
    ensures
        0 <= encode_from(p, q, i) < pow3((p.len() - i) as nat),
    decreases p.len() as int - i,
{
    if i == p.len() {
    } else {
        lemma_encode_range(p, q, i + 1);
    }
}

proof fn lemma_encode_digit(p: Seq<i32>, q: Seq<i32>, i: int, j: int)
    requires
        is_adjacent(p, q),
        0 <= i <= j < p.len(),
    ensures
        digit3(encode_from(p, q, i), j - i) == q[j] - p[j] + 1,
    decreases j - i,
{
    let e = encode_from(p, q, i);
    let d = q[i] - p[i] + 1;
    let e2 = encode_from(p, q, i + 1);
    lemma_encode_range(p, q, i + 1);
    lemma_encode_range(p, q, i);
    assert(e == 3 * e2 + d);
    lemma_fundamental_div_mod_converse(e, 3, e2, d);
    if j == i {
        assert(pow3(0) == 1);
        assert(e / 1int == e) by (nonlinear_arith);
        assert(digit3(e, 0) == e % 3);
    } else {
        lemma_encode_digit(p, q, i + 1, j);
        let k = (j - i - 1) as nat;
        lemma_pow3_pos(k);
        lemma_div_denominator(e, 3, pow3(k) as int);
        assert(3 * pow3(k) == pow3((j - i) as nat));
        assert(e / (pow3((j - i) as nat) as int) == e2 / (pow3(k) as int));
    }
}

proof fn lemma_digits_unique(d: nat, a: int, b: int)
    requires
        0 <= a < pow3(d),
        0 <= b < pow3(d),
        forall|i: int| 0 <= i < d ==> #[trigger] digit3(a, i) == digit3(b, i),
    ensures
        a == b,
    decreases d,
{
    if d == 0 {
    } else {
        let a1 = a / 3;
        let b1 = b / 3;
        assert(pow3(0) == 1);
        assert(a / 1int == a && b / 1int == b) by (nonlinear_arith);
        assert(digit3(a, 0) == a % 3 && digit3(b, 0) == b % 3);
        assert(a % 3 == b % 3);
        lemma_multiply_divide_lt(a, 3, pow3((d - 1) as nat) as int);
        lemma_multiply_divide_lt(b, 3, pow3((d - 1) as nat) as int);
        lemma_div_pos_is_pos(a, 3);
        lemma_div_pos_is_pos(b, 3);
        assert forall|i: int| 0 <= i < d - 1 implies #[trigger] digit3(a1, i) == digit3(b1, i) by {
            lemma_pow3_pos(i as nat);
            lemma_div_denominator(a, 3, pow3(i as nat) as int);
            lemma_div_denominator(b, 3, pow3(i as nat) as int);
            assert(3 * pow3(i as nat) == pow3((i + 1) as nat));
            assert(digit3(a, i + 1) == digit3(a1, i));
            assert(digit3(b, i + 1) == digit3(b1, i));
            assert(digit3(a, i + 1) == digit3(b, i + 1));
        }
        lemma_digits_unique((d - 1) as nat, a1, b1);
        lemma_fundamental_div_mod(a, 3);
        lemma_fundamental_div_mod(b, 3);
    }
}

/// Each digit of a nonnegative encoding is 0, 1 or 2, so each decoded axis
/// delta is -1, 0 or +1.
proof fn lemma_digit3_bound(n: int, i: int)
    requires
        0 <= n,
        0 <= i,
    ensures
        0 <= digit3(n, i) <= 2,
{
    lemma_pow3_pos(i as nat);
    lemma_div_pos_is_pos(n, pow3(i as nat) as int);
    lemma_mod_division_less_than_divisor(n / (pow3(i as nat) as int), 3);
}

/// Decoding any in-range encoding yields a coordinate adjacent to `p`.
pub proof fn lemma_nbr_at_adjacent(p: Seq<i32>, n: int)
    requires
        in_bounds(p),
        0 <= n,
    ensures
        is_adjacent(p, nbr_at(p, n)),
{
    assert forall|i: int| 0 <= i < p.len() implies -1 <= #[trigger] nbr_at(p, n)[i] - p[i] <= 1 by {
        lemma_digit3_bound(n, i);
        assert(i32::MIN <= p[i] + delta3(n, i) <= i32::MAX);
    }
}

/// Every coordinate adjacent to `p` is the decoding of exactly its own
/// encoding, which lies in range.
pub proof fn lemma_encode_decode(p: Seq<i32>, q: Seq<i32>)
    requires
        is_adjacent(p, q),
    ensures
        0 <= encode(p, q) < pow3(p.len()),
        nbr_at(p, encode(p, q)) == q,
{
    lemma_encode_range(p, q, 0);
    let e = encode(p, q);
    assert forall|i: int| 0 <= i < p.len() implies #[trigger] nbr_at(p, e)[i] == q[i] by {
        lemma_encode_digit(p, q, 0, i);
        assert(delta3(e, i) == q[i] - p[i]);
        assert(p[i] + delta3(e, i) == q[i]);
    }
    assert(nbr_at(p, e) =~= q);
}

/// Distinct in-range encodings decode to distinct coordinates.
pub proof fn lemma_nbr_at_injective(p: Seq<i32>, a: int, b: int)
    requires
        in_bounds(p),
        0 <= a < pow3(p.len()),
        0 <= b < pow3(p.len()),
        nbr_at(p, a) == nbr_at(p, b),
    ensures
        a == b,
{
    assert forall|i: int| 0 <= i < p.len() implies #[trigger] digit3(a, i) == digit3(b, i) by {
        lemma_digit3_bound(a, i);
        lemma_digit3_bound(b, i);
        assert(nbr_at(p, a)[i] == nbr_at(p, b)[i]);
        let va = p[i] + delta3(a, i);
        let vb = p[i] + delta3(b, i);
        assert(i32::MIN <= va <= i32::MAX);
        assert(i32::MIN <= vb <= i32::MAX);
        assert(nbr_at(p, a)[i] == va as i32);
        assert(nbr_at(p, b)[i] == vb as i32);
        assert((va as i32) as int == va);
        assert((vb as i32) as int == vb);
        assert(va == vb);
    }
    lemma_digits_unique(p.len(), a, b);
}

/// An immutable point of the lattice: one signed integer per axis.
pub struct Point {
    pub x: Vec<i32>,
}

impl View for Point {
    type V = Seq<i32>;

    open spec fn view(&self) -> Seq<i32> {
        self.x@
    }
}

impl PartialEq for Point {
    fn eq(&self, other: &Self) -> (r: bool) {
        let r = self.x == other.x;
        proof {
            if r {
                assert(self.x@ =~= other.x@);
            }
        }
        r
    }
}

impl Eq for Point {

}

impl vstd::std_specs::cmp::PartialEqSpecImpl for Point {
    open spec fn obeys_eq_spec() -> bool {
        true
    }

    open spec fn eq_spec(&self, other: &Self) -> bool {
        self.x@ == other.x@
    }
}

impl Clone for Point {
    /// A clone is the same lattice cell: equal on every axis.
    fn clone(&self) -> (res: Self)
        ensures
            res@ == self@,
    {
        let mut x: Vec<i32> = Vec::new();
        let mut i: usize = 0;
        while i < self.x.len()
            invariant
                i <= self.x.len(),
                x@ =~= self.x@.subrange(0, i as int),
            decreases self.x.len() - i,
        {
            x.push(self.x[i]);
            i += 1;
        }
        proof {
            assert(x@ =~= self.x@);
        }
        Point { x }
    }
}

/// `3^d`, computed at run time.
pub fn pow3_exec(d: usize) -> (r: usize)
    requires
        pow3(d as nat) <= usize::MAX,
    ensures
        r == pow3(d as nat),
{
    let mut r: usize = 1;
    let mut i: usize = 0;
    while i < d
        invariant
            i <= d,
            r == pow3(i as nat),
            pow3(d as nat) <= usize::MAX,
        decreases d - i,
    {
        proof {
            lemma_pow3_mono((i + 1) as nat, d as nat);
        }
        r = r * 3;
        i += 1;
    }
    r
}

/// Whether `3^d` fits the machine word, decided at run time.
pub fn pow3_fits(d: usize) -> (b: bool)
    ensures
        b == (pow3(d as nat) <= usize::MAX),
{
    let mut r: usize = 1;
    let mut i: usize = 0;
    while i < d
        invariant
            i <= d,
            r == pow3(i as nat),
        decreases d - i,
    {
        if r > usize::MAX / 3 {
            proof {
                lemma_fundamental_div_mod(usize::MAX as int, 3);
                assert(3 * r > usize::MAX);
                assert(pow3((i + 1) as nat) > usize::MAX);
                lemma_pow3_mono((i + 1) as nat, d as nat);
            }
            return false;
        }
        proof {
            lemma_fundamental_div_mod(usize::MAX as int, 3);
            assert(3 * r <= usize::MAX);
        }
        r = r * 3;
        i += 1;
    }
    true
}

impl Point {
    /// The dimensionality this point lives in.
    pub open spec fn dim(&self) -> nat {
        self.x@.len()
    }

    /// A point with the two leading axes set and every further axis zero:
    /// how a 2-axis position is embedded into a `dim`-dimensional lattice.
    pub fn from_duple(dim: usize, x0: i32, x1: i32) -> (r: Point)
        requires
            dim >= 2,
        ensures
            r@.len() == dim,
            r@[0] == x0,
            r@[1] == x1,
            forall|i: int| 2 <= i < dim ==> r@[i] == 0i32,
    {
        let mut x: Vec<i32> = Vec::new();
        x.push(x0);
        x.push(x1);
        let mut i: usize = 2;
        while i < dim
            invariant
                2 <= i <= dim,
                x@.len() == i,
                x@[0] == x0,
                x@[1] == x1,
                forall|j: int| 2 <= j < i ==> x@[j] == 0i32,
            decreases dim - i,
        {
            x.push(0);
            i += 1;
        }
        Point { x }
    }

    /// Axis-wise sum, for composing displacement vectors.
    pub fn add(&self, rhs: &Point) -> (r: Point)
        requires
            self@.len() == rhs@.len(),
            forall|i: int| 0 <= i < self@.len()
                ==> i32::MIN <= #[trigger] (self@[i] + rhs@[i]) <= i32::MAX,
        ensures
            r@.len() == self@.len(),
            forall|i: int| 0 <= i < self@.len() ==> #[trigger] r@[i] as int == self@[i] + rhs@[i],
    {
        let mut x: Vec<i32> = Vec::new();
        let mut i: usize = 0;
        while i < self.x.len()
            invariant
                i <= self.x.len(),
                self.x@.len() == rhs.x@.len(),
                x@.len() == i,
                forall|j: int| 0 <= j < i ==> #[trigger] x@[j] as int == self.x@[j] + rhs.x@[j],
                forall|j: int| 0 <= j < self.x@.len()
                    ==> i32::MIN <= #[trigger] (self.x@[j] + rhs.x@[j]) <= i32::MAX,
            decreases self.x.len() - i,
        {
            x.push(self.x[i] + rhs.x[i]);
            i += 1;
        }
        Point { x }
    }

    /// Decode encoding `n`: the candidate neighbor whose axis `i` is offset
    /// from this point's by base-3 digit `i` of `n`, minus one.
    fn decoded(&self, n: usize) -> (r: Point)
        requires
            in_bounds(self@),
            pow3(self@.len()) <= usize::MAX,
        ensures
            r@ == nbr_at(self@, n as int),
    {
        let d = self.x.len();
        let mut coords: Vec<i32> = Vec::new();
        let mut i: usize = 0;
        let mut pw: usize = 1;
        while i < d
            invariant
                i <= d,
                d == self@.len(),
                in_bounds(self@),
                pow3(d as nat) <= usize::MAX,
                pw == pow3(i as nat),
                coords@.len() == i,
                forall|j: int| 0 <= j < i
                    ==> #[trigger] coords@[j] as int == self@[j] + delta3(n as int, j),
            decreases d - i,
        {
            proof {
                lemma_pow3_pos(i as nat);
                lemma_digit3_bound(n as int, i as int);
            }
            let digit = (n / pw) % 3;
            let delta: i32 = (digit as i32) - 1;
            let c = self.x[i] + delta;
            coords.push(c);
            proof {
                lemma_pow3_mono((i + 1) as nat, d as nat);
            }
            pw = pw * 3;
            i += 1;
        }
        proof {
            assert forall|j: int| 0 <= j < d implies coords@[j] == #[trigger] nbr_at(
                self@,
                n as int,
            )[j] by {
                lemma_digit3_bound(n as int, j);
                assert(coords@[j] as int == self@[j] + delta3(n as int, j));
            }
            assert(coords@ =~= nbr_at(self@, n as int));
        }
        Point { x: coords }
    }

    /// All `3^D` coordinates at Chebyshev distance at most 1 of this point,
    /// the point itself included exactly once.
    pub fn neighbors_with_self(&self) -> (r: Vec<Point>)
        requires
            in_bounds(self@),
            pow3(self@.len()) <= usize::MAX,
        ensures
            r@.len() == pow3(self@.len()),
            forall|k: int| 0 <= k < r@.len() ==> (#[trigger] r@[k])@ == nbr_at(self@, k),
            forall|k: int| 0 <= k < r@.len() ==> is_adjacent(self@, (#[trigger] r@[k])@),
            forall|j: int, k: int|
                #![trigger r@[j], r@[k]]
                0 <= j < k < r@.len() ==> r@[j]@ != r@[k]@,
            forall|q: Seq<i32>|
                is_adjacent(self@, q) ==> exists|k: int|
                    0 <= k < r@.len() && (#[trigger] r@[k])@ == q,
            exists|k: int| 0 <= k < r@.len() && (#[trigger] r@[k])@ == self@,
    {
        let d = self.x.len();
        let total = pow3_exec(d);
        let mut r: Vec<Point> = Vec::new();
        let mut n: usize = 0;
        while n < total
            invariant
                n <= total,
                d == self@.len(),
                total == pow3(d as nat),
                in_bounds(self@),
                pow3(d as nat) <= usize::MAX,
                r@.len() == n,
                forall|k: int| 0 <= k < n ==> (#[trigger] r@[k])@ == nbr_at(self@, k),
            decreases total - n,
        {
            let p = self.decoded(n);
            r.push(p);
            n += 1;
        }
        proof {
            assert forall|k: int| 0 <= k < r@.len() implies is_adjacent(
                self@,
                (#[trigger] r@[k])@,
            ) by {
                lemma_nbr_at_adjacent(self@, k);
            }
            assert forall|j: int, k: int|
                #![trigger r@[j], r@[k]]
                0 <= j < k < r@.len() implies r@[j]@ != r@[k]@ by {
                if r@[j]@ == r@[k]@ {
                    lemma_nbr_at_injective(self@, j, k);
                }
            }
            assert forall|q: Seq<i32>| is_adjacent(self@, q) implies exists|k: int|
                0 <= k < r@.len() && (#[trigger] r@[k])@ == q by {
                lemma_encode_decode(self@, q);
                let e = encode(self@, q);
                assert(0 <= e < r@.len() && (r@[e])@ == q);
            }
            assert(is_adjacent(self@, self@));
        }
        r
    }

    /// All `3^D - 1` proper Moore neighbors of this point: every coordinate
    /// at Chebyshev distance exactly 1, the point itself excluded.
    pub fn neighbors(&self) -> (r: Vec<Point>)
        requires
            in_bounds(self@),
            pow3(self@.len()) <= usize::MAX,
        ensures
            r@.len() == pow3(self@.len()) - 1,
            forall|k: int| 0 <= k < r@.len() ==> is_neighbor(self@, (#[trigger] r@[k])@),
            forall|j: int, k: int|
                #![trigger r@[j], r@[k]]
                0 <= j < k < r@.len() ==> r@[j]@ != r@[k]@,
            forall|q: Seq<i32>|
                is_neighbor(self@, q) ==> exists|k: int|
                    0 <= k < r@.len() && (#[trigger] r@[k])@ == q,
    {
        let ghost c: int = encode(self@, self@);
        proof {
            assert(is_adjacent(self@, self@));
            lemma_encode_decode(self@, self@);
        }
        let d = self.x.len();
        let total = pow3_exec(d);
        let mut r: Vec<Point> = Vec::new();
        let mut n: usize = 0;
        while n < total
            invariant
                n <= total,
                d == self@.len(),
                total == pow3(d as nat),
                in_bounds(self@),
                pow3(d as nat) <= usize::MAX,
                0 <= c < total,
                nbr_at(self@, c) == self@,
                r@.len() as int == (if c < n { n - 1 } else { n as int }),
                forall|k: int|
                    0 <= k < r@.len() ==> (#[trigger] r@[k])@ == nbr_at(
                        self@,
                        if k < c {
                            k
                        } else {
                            k + 1
                        },
                    ),
            decreases total - n,
        {
            let p = self.decoded(n);
            let same = p == *self;
            proof {
                if same {
                    lemma_nbr_at_injective(self@, n as int, c);
                }
            }
            if !same {
                r.push(p);
            }
            n += 1;
        }
        proof {
            assert forall|k: int| 0 <= k < r@.len() implies is_neighbor(
                self@,
                (#[trigger] r@[k])@,
            ) by {
                let m: int = if k < c {
                    k
                } else {
                    k + 1
                };
                lemma_nbr_at_adjacent(self@, m);
                if r@[k]@ == self@ {
                    lemma_nbr_at_injective(self@, m, c);
                    assert(false);
                }
            }
            assert forall|j: int, k: int|
                #![trigger r@[j], r@[k]]
                0 <= j < k < r@.len() implies r@[j]@ != r@[k]@ by {
                let mj: int = if j < c {
                    j
                } else {
                    j + 1
                };
                let mk: int = if k < c {
                    k
                } else {
                    k + 1
                };
                if r@[j]@ == r@[k]@ {
                    lemma_nbr_at_injective(self@, mj, mk);
                }
            }
            assert forall|q: Seq<i32>| is_neighbor(self@, q) implies exists|k: int|
                0 <= k < r@.len() && (#[trigger] r@[k])@ == q by {
                lemma_encode_decode(self@, q);
                let e = encode(self@, q);
                if e == c {
                    assert(q == self@);
                    assert(false);
                }
                let k: int = if e < c {
                    e
                } else {
                    e - 1
                };
                assert(0 <= k < r@.len() && (r@[k])@ == q);
            }
        }
        r
    }
}

} // verus!
