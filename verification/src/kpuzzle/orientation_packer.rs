use vstd::prelude::*;

verus! {

/// An orientation together with its modulus. A modulus of 0 means the
/// orbit's full orientation count; a nonzero modulus must divide that
/// count, and marks a piece that looks the same after that fraction of a
/// full turn.
#[derive(Debug, Clone, Copy, PartialEq, Eq, Structural)]
pub struct OrientationWithMod {
    pub orientation: u8,
    pub orientation_mod: u8,
}

impl OrientationWithMod {
    /// An orientation under the orbit's full count (modulus 0).
    pub fn new_using_default_orientation_mod(orientation: u8) -> (r: Self)
        ensures
            r.orientation == orientation,
            r.orientation_mod == 0,
    {
        Self { orientation, orientation_mod: 0 }
    }
}

/// The sum of the divisors of `n` that are at least 1 and below `m`.
pub open spec fn divisor_sum_below(n: int, m: int) -> int
    decreases m,
{
    if m <= 1 {
        0
    } else {
        divisor_sum_below(n, m - 1) + if n % (m - 1) == 0 {
            m - 1
        } else {
            0
        }
    }
}

/// The first packed code of the class for modulus `m` (0 is the full-count
/// class, which comes first; divisor classes follow in increasing order).
pub open spec fn code_start(n: int, m: int) -> int {
    if m == 0 {
        0
    } else {
        n + divisor_sum_below(n, m)
    }
}

/// The modulus that arithmetic on an orientation actually uses: the
/// piece's own modulus if nonzero, else the orbit's full count.
pub open spec fn effective_modulus(n: int, m: int) -> int {
    if m == 0 {
        n
    } else {
        m
    }
}

/// Whether `m` is a legal orientation modulus for an orbit with `n`
/// orientations: 0, or a divisor of `n`.
pub open spec fn valid_orientation_mod(n: int, m: int) -> bool {
    m == 0 || (1 <= m <= n && n % m == 0)
}

/// Whether `(m, ori)` is a legal (modulus, orientation) pair.
pub open spec fn valid_orientation_pair(n: int, m: int, ori: int) -> bool {
    valid_orientation_mod(n, m) && 0 <= ori < effective_modulus(n, m)
}

/// The packed code of a pair: its class start plus the orientation.
pub open spec fn pair_code(n: int, m: int, ori: int) -> int {
    code_start(n, m) + ori
}

/// How many codes the packer for `n` orientations assigns, considering
/// the modulus classes from `m` up: classes are assigned in increasing
/// modulus order until one would not fit in one byte.
pub open spec fn packer_capacity_from(n: int, m: int) -> int
    decreases n + 1 - m,
{
    if m > n || m < 1 {
        code_start(n, m)
    } else if n % m == 0 && code_start(n, m) + m > 256 {
        code_start(n, m)
    } else {
        packer_capacity_from(n, m + 1)
    }
}

/// How many codes the packer for `n` orientations assigns in all.
pub open spec fn packer_capacity(n: int) -> int {
    packer_capacity_from(n, 1)
}

pub proof fn divisor_sum_monotone(n: int, a: int, b: int)
    requires
        a <= b,
    ensures
        divisor_sum_below(n, a) <= divisor_sum_below(n, b),
    decreases b - a,
{
    if a < b {
        divisor_sum_monotone(n, a, b - 1);
    }
}

pub proof fn divisor_sum_nonneg(n: int, m: int)
    ensures
        divisor_sum_below(n, m) >= 0,
{
    if m > 1 {
        divisor_sum_monotone(n, 1, m);
    }
}

/// Distinct classes occupy disjoint code ranges: a class for a larger
/// modulus starts at or after the end of a smaller one's range.
pub proof fn class_ranges_disjoint(n: int, m1: int, m2: int)
    requires
        valid_orientation_mod(n, m1),
        valid_orientation_mod(n, m2),
        n >= 1,
        m1 == 0 || m1 < m2,
        m2 != 0,
        m1 != m2,
    ensures
        code_start(n, m1) + effective_modulus(n, m1) <= code_start(n, m2),
{
    if m1 == 0 {
        divisor_sum_nonneg(n, m2);
    } else {
        assert(divisor_sum_below(n, m1 + 1) == divisor_sum_below(n, m1) + m1);
        divisor_sum_monotone(n, m1 + 1, m2);
    }
}

/// Distinct valid pairs pack to distinct codes.
pub proof fn pair_code_injective(n: int, ma: int, oa: int, mb: int, ob: int)
    requires
        n >= 1,
        valid_orientation_pair(n, ma, oa),
        valid_orientation_pair(n, mb, ob),
        !(ma == mb && oa == ob),
    ensures
        pair_code(n, ma, oa) != pair_code(n, mb, ob),
{
    if ma == mb {
    } else if ma == 0 || (mb != 0 && ma < mb) {
        class_ranges_disjoint(n, ma, mb);
    } else {
        class_ranges_disjoint(n, mb, ma);
    }
}

/// Packs a (orientation, modulus) pair into one byte per orbit and back,
/// and composes orientation changes directly on packed bytes. Codes
/// 0 to n-1 are the full-count class; each divisor's class follows, in
/// increasing divisor order, as far as one byte can number them.
#[derive(Debug)]
pub struct OrientationPacker {
    num_orientations: u8,
    unpack_orientation: Vec<u8>,
    unpack_mod: Vec<u8>,
}

impl OrientationPacker {
    /// The orientation count this packer was built for.
    pub closed spec fn num_orientations_spec(self) -> int {
        self.num_orientations as int
    }

    /// How many codes the packer assigns; every byte below this is a
    /// valid packed value.
    pub closed spec fn code_count(self) -> int {
        self.unpack_orientation@.len() as int
    }

    /// The modulus of a packed code.
    pub closed spec fn code_mod(self, c: int) -> int {
        self.unpack_mod@[c] as int
    }

    /// The orientation of a packed code.
    pub closed spec fn code_orientation(self, c: int) -> int {
        self.unpack_orientation@[c] as int
    }

    /// Whether a byte is one of the assigned codes.
    pub open spec fn valid_code(self, c: int) -> bool {
        0 <= c < self.code_count()
    }

    pub closed spec fn wf(self) -> bool {
        &&& 1 <= self.num_orientations <= 107
        &&& self.unpack_mod@.len() == self.unpack_orientation@.len()
        &&& self.unpack_orientation@.len() <= 256
        &&& forall|c: int|
            0 <= c < self.code_count() ==> valid_orientation_pair(
                self.num_orientations as int,
                #[trigger] self.code_mod(c),
                self.code_orientation(c),
            ) && pair_code(self.num_orientations as int, self.code_mod(c), self.code_orientation(c))
                == c
        &&& forall|m: int|
            valid_orientation_mod(self.num_orientations as int, m) ==> (#[trigger] code_start(
                self.num_orientations as int,
                m,
            ) + effective_modulus(self.num_orientations as int, m) <= self.code_count()
                || code_start(self.num_orientations as int, m) >= self.code_count())
    }

    /// The code that adding `delta` to a packed orientation produces: the
    /// same class, with the orientation advanced modulo the effective
    /// modulus.
    pub open spec fn transform_code(self, c: int, delta: int) -> int {
        pair_code(
            self.num_orientations_spec(),
            self.code_mod(c),
            (self.code_orientation(c) + delta) % effective_modulus(
                self.num_orientations_spec(),
                self.code_mod(c),
            ),
        )
    }

    /// The packer's code table fits in one byte, and covers at least the
    /// full-count class.
    pub proof fn lemma_code_count_bound(self)
        requires
            self.wf(),
        ensures
            self.code_count() <= 256,
            1 <= self.num_orientations_spec() <= 107,
    {
    }

    /// The codec round-trips: for every valid (orientation, modulus)
    /// pair with an assigned code, unpacking the packed byte gives the
    /// pair back exactly.
    pub proof fn lemma_pack_unpack_round_trip(self, m: int, ori: int)
        requires
            self.wf(),
            valid_orientation_pair(self.num_orientations_spec(), m, ori),
            pair_code(self.num_orientations_spec(), m, ori) < self.code_count(),
        ensures
            self.code_mod(pair_code(self.num_orientations_spec(), m, ori)) == m,
            self.code_orientation(pair_code(self.num_orientations_spec(), m, ori)) == ori,
    {
        self.lemma_code_lookup(m, ori);
    }

    /// A valid pair whose code is among the assigned ones unpacks from
    /// that code to exactly itself: the codec round-trips.
    pub proof fn lemma_code_lookup(self, m: int, ori: int)
        requires
            self.wf(),
            valid_orientation_pair(self.num_orientations_spec(), m, ori),
            pair_code(self.num_orientations_spec(), m, ori) < self.code_count(),
        ensures
            pair_code(self.num_orientations_spec(), m, ori) >= 0,
            self.code_mod(pair_code(self.num_orientations_spec(), m, ori)) == m,
            self.code_orientation(pair_code(self.num_orientations_spec(), m, ori)) == ori,
    {
        let n = self.num_orientations_spec();
        if m != 0 {
            divisor_sum_nonneg(n, m);
        }
        let c = pair_code(n, m, ori);
        assert(valid_orientation_pair(n, self.code_mod(c), self.code_orientation(c)));
        if !(self.code_mod(c) == m && self.code_orientation(c) == ori) {
            pair_code_injective(n, self.code_mod(c), self.code_orientation(c), m, ori);
        }
    }

    /// A whole class is assigned codes as soon as one of its codes is: a
    /// transform can never leave the assigned range.
    pub proof fn lemma_class_closed(self, c: int)
        requires
            self.wf(),
            self.valid_code(c),
        ensures
            code_start(self.num_orientations_spec(), self.code_mod(c)) + effective_modulus(
                self.num_orientations_spec(),
                self.code_mod(c),
            ) <= self.code_count(),
    {
        let n = self.num_orientations_spec();
        let m = self.code_mod(c);
        if m != 0 {
            divisor_sum_nonneg(n, m);
        }
    }

    /// Builds the packer for an orbit's orientation count.
    pub fn new(num_orientations: u8) -> (r: OrientationPacker)
        requires
            1 <= num_orientations <= 107,
        ensures
            r.wf(),
            r.num_orientations_spec() == num_orientations as int,
            r.code_count() >= num_orientations as int,
            r.code_count() == packer_capacity(num_orientations as int),
    {
        let n = num_orientations;
        let ghost ni = n as int;
        let mut unpack_orientation: Vec<u8> = Vec::new();
        let mut unpack_mod: Vec<u8> = Vec::new();
        let mut ori: u8 = 0;
        while ori < n
            invariant
                0 <= ori <= n,
                n >= 1,
                unpack_orientation@.len() == ori as int,
                unpack_mod@.len() == ori as int,
                forall|c: int|
                    0 <= c < ori as int ==> (#[trigger] unpack_mod@[c]) == 0
                        && unpack_orientation@[c] == c,
            decreases n - ori,
        {
            unpack_orientation.push(ori);
            unpack_mod.push(0);
            ori = ori + 1;
        }
        let mut m: u8 = 1;
        let mut full: bool = false;
        while m <= n
            invariant
                1 <= m <= n + 1,
                1 <= n <= 107,
                ni == n as int,
                unpack_mod@.len() == unpack_orientation@.len(),
                unpack_orientation@.len() <= 256,
                unpack_orientation@.len() >= n as int,
                forall|c: int|
                    0 <= c < unpack_orientation@.len() ==> valid_orientation_pair(
                        ni,
                        #[trigger] unpack_mod@[c] as int,
                        unpack_orientation@[c] as int,
                    ) && pair_code(ni, unpack_mod@[c] as int, unpack_orientation@[c] as int) == c,
                !full ==> unpack_orientation@.len() == code_start(ni, m as int) && forall|d: int|
                    valid_orientation_mod(ni, d) && d < m as int ==> #[trigger] code_start(ni, d)
                        + effective_modulus(ni, d) <= unpack_orientation@.len(),
                full ==> code_start(ni, m as int) >= unpack_orientation@.len() && forall|d: int|
                    valid_orientation_mod(ni, d) && d < m as int ==> (#[trigger] code_start(ni, d)
                        + effective_modulus(ni, d) <= unpack_orientation@.len() || code_start(ni, d)
                        >= unpack_orientation@.len()),
                packer_capacity(ni) == (if full {
                    unpack_orientation@.len() as int
                } else {
                    packer_capacity_from(ni, m as int)
                }),
            decreases n - m + 1,
        {
            proof {
                divisor_sum_nonneg(ni, m as int);
                assert(divisor_sum_below(ni, m as int + 1) == divisor_sum_below(ni, m as int) + (
                if ni % (m as int) == 0 {
                    m as int
                } else {
                    0
                }));
            }
            if n % m == 0 {
                if !full && unpack_orientation.len() + (m as usize) <= 256 {
                    let ghost start = unpack_orientation@.len();
                    let mut o: u8 = 0;
                    while o < m
                        invariant
                            0 <= o <= m,
                            1 <= m <= n <= 107,
                            ni == n as int,
                            ni % (m as int) == 0,
                            unpack_mod@.len() == unpack_orientation@.len(),
                            unpack_orientation@.len() == start + o as int,
                            start + m as int <= 256,
                            start == code_start(ni, m as int),
                            forall|c: int|
                                0 <= c < unpack_orientation@.len() ==> valid_orientation_pair(
                                    ni,
                                    #[trigger] unpack_mod@[c] as int,
                                    unpack_orientation@[c] as int,
                                ) && pair_code(
                                    ni,
                                    unpack_mod@[c] as int,
                                    unpack_orientation@[c] as int,
                                ) == c,
                        decreases m - o,
                    {
                        unpack_orientation.push(o);
                        unpack_mod.push(m);
                        o = o + 1;
                    }
                } else {
                    full = true;
                }
            }
            m = m + 1;
        }
        let r = OrientationPacker { num_orientations: n, unpack_orientation, unpack_mod };
        proof {
            assert forall|mm: int| valid_orientation_mod(ni, mm) implies (#[trigger] code_start(
                ni,
                mm,
            ) + effective_modulus(ni, mm) <= r.code_count() || code_start(ni, mm)
                >= r.code_count()) by {
                assert(mm < m as int);
            }
        }
        r
    }

    /// How many packed codes exist for this orbit.
    pub fn num_codes(&self) -> (r: usize)
        ensures
            r as int == self.code_count(),
    {
        self.unpack_orientation.len()
    }

    /// Packs a pair into its byte code, if the pair is valid for this
    /// orbit and its class fits in one byte.
    pub fn try_pack(&self, orientation_with_mod: &OrientationWithMod) -> (r: Option<u8>)
        requires
            self.wf(),
        ensures
            r matches Some(c) ==> {
                &&& valid_orientation_pair(
                    self.num_orientations_spec(),
                    orientation_with_mod.orientation_mod as int,
                    orientation_with_mod.orientation as int,
                )
                &&& c as int == pair_code(
                    self.num_orientations_spec(),
                    orientation_with_mod.orientation_mod as int,
                    orientation_with_mod.orientation as int,
                )
                &&& self.valid_code(c as int)
            },
            r is None ==> !(valid_orientation_pair(
                self.num_orientations_spec(),
                orientation_with_mod.orientation_mod as int,
                orientation_with_mod.orientation as int,
            ) && pair_code(
                self.num_orientations_spec(),
                orientation_with_mod.orientation_mod as int,
                orientation_with_mod.orientation as int,
            ) < self.code_count()),
    {
        let len = self.unpack_orientation.len();
        let ghost n = self.num_orientations_spec();
        let ghost gm = orientation_with_mod.orientation_mod as int;
        let ghost go = orientation_with_mod.orientation as int;
        let mut c: usize = 0;
        while c < len
            invariant
                0 <= c <= len,
                self.wf(),
                len as int == self.code_count(),
                n == self.num_orientations_spec(),
                gm == orientation_with_mod.orientation_mod as int,
                go == orientation_with_mod.orientation as int,
                forall|i: int|
                    0 <= i < c as int ==> !(#[trigger] self.code_mod(i) == gm
                        && self.code_orientation(i) == go),
            decreases len - c,
        {
            if self.unpack_mod[c] == orientation_with_mod.orientation_mod
                && self.unpack_orientation[c] == orientation_with_mod.orientation {
                proof {
                    assert(self.code_mod(c as int) == gm);
                    assert(self.code_orientation(c as int) == go);
                }
                return Some(c as u8);
            }
            c = c + 1;
        }
        proof {
            if valid_orientation_pair(n, gm, go) && pair_code(n, gm, go) < self.code_count() {
                self.lemma_code_lookup(gm, go);
            }
        }
        None
    }

    /// Packs a valid pair whose class fits; the caller owes those
    /// conditions, as checked accessors assert them.
    pub fn pack(&self, orientation_with_mod: &OrientationWithMod) -> (r: u8)
        requires
            self.wf(),
            valid_orientation_pair(
                self.num_orientations_spec(),
                orientation_with_mod.orientation_mod as int,
                orientation_with_mod.orientation as int,
            ),
            pair_code(
                self.num_orientations_spec(),
                orientation_with_mod.orientation_mod as int,
                orientation_with_mod.orientation as int,
            ) < self.code_count(),
        ensures
            r as int == pair_code(
                self.num_orientations_spec(),
                orientation_with_mod.orientation_mod as int,
                orientation_with_mod.orientation as int,
            ),
            self.valid_code(r as int),
    {
        match self.try_pack(orientation_with_mod) {
            Some(c) => c,
            None => vstd::pervasive::unreached(),
        }
    }

    /// Unpacks a byte code into its (orientation, modulus) pair.
    pub fn unpack(&self, packed_orientation_with_mod: u8) -> (r: OrientationWithMod)
        requires
            self.wf(),
            self.valid_code(packed_orientation_with_mod as int),
        ensures
            r.orientation as int == self.code_orientation(packed_orientation_with_mod as int),
            r.orientation_mod as int == self.code_mod(packed_orientation_with_mod as int),
            valid_orientation_pair(
                self.num_orientations_spec(),
                r.orientation_mod as int,
                r.orientation as int,
            ),
    {
        let c = packed_orientation_with_mod as usize;
        proof {
            let ci = c as int;
            assert(valid_orientation_pair(
                self.num_orientations as int,
                self.code_mod(ci),
                self.code_orientation(ci),
            ) && pair_code(self.num_orientations as int, self.code_mod(ci), self.code_orientation(ci))
                == ci);
        }
        OrientationWithMod {
            orientation: self.unpack_orientation[c],
            orientation_mod: self.unpack_mod[c],
        }
    }

    /// Adds an orientation change to a packed byte, modulo the piece's
    /// effective modulus, keeping the modulus component.
    pub fn transform(&self, packed_orientation_with_mod: u8, orientation_delta: u8) -> (r: u8)
        requires
            self.wf(),
            self.valid_code(packed_orientation_with_mod as int),
            (orientation_delta as int) < self.num_orientations_spec(),
        ensures
            r as int == self.transform_code(
                packed_orientation_with_mod as int,
                orientation_delta as int,
            ),
            self.valid_code(r as int),
            self.code_mod(r as int) == self.code_mod(packed_orientation_with_mod as int),
            self.code_orientation(r as int) == (self.code_orientation(
                packed_orientation_with_mod as int,
            ) + orientation_delta as int) % effective_modulus(
                self.num_orientations_spec(),
                self.code_mod(packed_orientation_with_mod as int),
            ),
    {
        let ghost n = self.num_orientations_spec();
        let c = packed_orientation_with_mod as usize;
        proof {
            let ci = c as int;
            assert(valid_orientation_pair(n, self.code_mod(ci), self.code_orientation(ci))
                && pair_code(n, self.code_mod(ci), self.code_orientation(ci)) == ci);
            divisor_sum_nonneg(n, self.code_mod(ci));
        }
        let o = self.unpack_orientation[c];
        let m = self.unpack_mod[c];
        let eff = if m == 0 {
            self.num_orientations
        } else {
            m
        };
        let new_orientation = (o + orientation_delta) % eff;
        let target = c - (o as usize) + (new_orientation as usize);
        proof {
            let gm = self.code_mod(c as int);
            self.lemma_class_closed(c as int);
            assert(c as int - o as int == code_start(n, gm));
            self.lemma_code_lookup(gm, new_orientation as int);
        }
        target as u8
    }
}


impl OrientationPacker {
    /// Adding 0 to a packed orientation leaves it unchanged.
    pub proof fn lemma_transform_zero(self, c: int)
        requires
            self.wf(),
            self.valid_code(c),
        ensures
            self.transform_code(c, 0) == c,
    {
        let n = self.num_orientations_spec();
        let m = self.code_mod(c);
        let ori = self.code_orientation(c);
        assert(valid_orientation_pair(n, m, ori) && pair_code(n, m, ori) == c);
        let eff = effective_modulus(n, m);
        vstd::arithmetic::div_mod::lemma_small_mod(ori as nat, eff as nat);
    }

    /// Two successive orientation changes equal one change by their sum
    /// modulo the orbit's full count: the piece's effective modulus
    /// divides the full count, so the wrap-around agrees.
    pub proof fn lemma_transform_transform(self, c: int, d1: int, d2: int)
        requires
            self.wf(),
            self.valid_code(c),
            0 <= d1 < self.num_orientations_spec(),
            0 <= d2 < self.num_orientations_spec(),
        ensures
            self.valid_code(self.transform_code(c, d1)),
            self.transform_code(self.transform_code(c, d1), d2) == self.transform_code(
                c,
                (d1 + d2) % self.num_orientations_spec(),
            ),
    {
        let n = self.num_orientations_spec();
        let m = self.code_mod(c);
        let ori = self.code_orientation(c);
        assert(valid_orientation_pair(n, m, ori) && pair_code(n, m, ori) == c);
        let eff = effective_modulus(n, m);
        assert(eff >= 1);
        vstd::arithmetic::div_mod::lemma_mod_division_less_than_divisor(ori + d1, eff);
        let c1 = self.transform_code(c, d1);
        self.lemma_class_closed(c);
        self.lemma_code_lookup(m, (ori + d1) % eff);
        assert(self.code_mod(c1) == m);
        assert(self.code_orientation(c1) == (ori + d1) % eff);
        // left side: ((ori + d1) % eff + d2) % eff == (ori + d1 + d2) % eff
        vstd::arithmetic::div_mod::lemma_add_mod_noop((ori + d1), d2, eff);
        vstd::arithmetic::div_mod::lemma_mod_twice(d2, eff);
        vstd::arithmetic::div_mod::lemma_add_mod_noop((ori + d1) % eff, d2, eff);
        assert(((ori + d1) % eff + d2) % eff == ((ori + d1) % eff % eff + d2 % eff) % eff);
        assert(((ori + d1) % eff % eff + d2 % eff) % eff == ((ori + d1) % eff + d2 % eff) % eff) by {
            vstd::arithmetic::div_mod::lemma_mod_twice(ori + d1, eff);
        }
        assert(((ori + d1) + d2) % eff == ((ori + d1) % eff + d2 % eff) % eff);
        // right side: (d1 + d2) % n reduced modulo eff equals (d1 + d2) % eff
        assert(n % eff == 0) by {
            if m == 0 {
                vstd::arithmetic::div_mod::lemma_mod_self_0(n);
            }
        }
        let q = n / eff;
        vstd::arithmetic::div_mod::lemma_fundamental_div_mod(n, eff);
        assert(n == eff * q + n % eff);
        assert(n == eff * q);
        assert(q >= 1) by (nonlinear_arith)
            requires
                n == eff * q,
                n >= 1,
                eff >= 1,
        ;
        assert(q * eff == n) by (nonlinear_arith)
            requires
                n == eff * q,
        ;
        vstd::arithmetic::div_mod::lemma_mod_mod(d1 + d2, eff, q);
        assert(((d1 + d2) % (eff * q)) % eff == (d1 + d2) % eff);
        assert(((d1 + d2) % n) % eff == (d1 + d2) % eff);
        // combine
        vstd::arithmetic::div_mod::lemma_mod_division_less_than_divisor(d1 + d2, n);
        vstd::arithmetic::div_mod::lemma_add_mod_noop(ori, (d1 + d2) % n, eff);
        vstd::arithmetic::div_mod::lemma_add_mod_noop(ori, d1 + d2, eff);
        vstd::arithmetic::div_mod::lemma_mod_twice(ori, eff);
        assert((ori + (d1 + d2) % n) % eff == (ori % eff + ((d1 + d2) % n) % eff) % eff);
        assert((ori + d1 + d2) % eff == (ori % eff + (d1 + d2) % eff) % eff);
    }
}

} // verus!
