//! Wave function collapse for zoning and land use assignment.

use crate::rng::random_below;
use rand::rngs::StdRng;
use vstd::prelude::*;

verus! {

/// Zone types for land use.
#[derive(Clone, Copy, Debug, PartialEq, Eq, Hash, Structural)]
pub enum ZoneType {
    Residential,
    Commercial,
    Industrial,
    Park,
    Civic,
    Empty,
}

/// Position of a zone type in the canonical order of `ZoneType::all`.
pub open spec fn zone_index(z: ZoneType) -> u8 {
    match z {
        ZoneType::Residential => 0,
        ZoneType::Commercial => 1,
        ZoneType::Industrial => 2,
        ZoneType::Park => 3,
        ZoneType::Civic => 4,
        ZoneType::Empty => 5,
    }
}

/// The zone type at a position of the canonical order.
pub open spec fn zone_at(i: u8) -> ZoneType {
    if i == 0 {
        ZoneType::Residential
    } else if i == 1 {
        ZoneType::Commercial
    } else if i == 2 {
        ZoneType::Industrial
    } else if i == 3 {
        ZoneType::Park
    } else if i == 4 {
        ZoneType::Civic
    } else {
        ZoneType::Empty
    }
}

/// All zone types in canonical order.
pub open spec fn all_zones() -> Seq<ZoneType> {
    seq![
        ZoneType::Residential,
        ZoneType::Commercial,
        ZoneType::Industrial,
        ZoneType::Park,
        ZoneType::Civic,
        ZoneType::Empty,
    ]
}

pub proof fn lemma_zone_index_roundtrip()
    ensures
        forall|z: ZoneType| #[trigger] zone_index(z) < 6 && zone_at(zone_index(z)) == z,
        forall|i: u8| i < 6 ==> #[trigger] zone_index(zone_at(i)) == i,
        forall|i: int| 0 <= i < 6 ==> #[trigger] zone_index(all_zones()[i]) == i,
{
}

impl ZoneType {
    /// Get all zone types.
    pub fn all() -> (r: &'static [ZoneType])
        ensures
            r@ == all_zones(),
    {
        &[
            ZoneType::Residential,
            ZoneType::Commercial,
            ZoneType::Industrial,
            ZoneType::Park,
            ZoneType::Civic,
            ZoneType::Empty,
        ]
    }

    fn index(self) -> (r: u8)
        ensures
            r == zone_index(self),
            r < 6,
    {
        match self {
            ZoneType::Residential => 0,
            ZoneType::Commercial => 1,
            ZoneType::Industrial => 2,
            ZoneType::Park => 3,
            ZoneType::Civic => 4,
            ZoneType::Empty => 5,
        }
    }

    fn from_index(i: u8) -> (r: ZoneType)
        requires
            i < 6,
        ensures
            r == zone_at(i),
            zone_index(r) == i,
    {
        if i == 0 {
            ZoneType::Residential
        } else if i == 1 {
            ZoneType::Commercial
        } else if i == 2 {
            ZoneType::Industrial
        } else if i == 3 {
            ZoneType::Park
        } else if i == 4 {
            ZoneType::Civic
        } else {
            ZoneType::Empty
        }
    }
}

// ---------------------------------------------------------------------------
// Bit masks over the six zone positions
// ---------------------------------------------------------------------------

/// Whether bit `i` of `b` is set.
pub open spec fn bit(b: u8, i: u8) -> bool {
    (b >> i) & 1u8 == 1u8
}

/// Number of set bits among the six zone positions.
pub open spec fn count6(b: u8) -> int {
    (b & 1u8) + ((b >> 1u8) & 1u8) + ((b >> 2u8) & 1u8) + ((b >> 3u8) & 1u8) + ((b >> 4u8) & 1u8)
        + ((b >> 5u8) & 1u8)
}

/// `a` has no zone position outside `b`.
pub open spec fn subset6(a: u8, b: u8) -> bool {
    a & !b & 63u8 == 0u8
}

proof fn lemma_bit_and(a: u8, b: u8, i: u8)
    by (bit_vector)
    requires
        i < 8,
    ensures
        bit(a & b, i) == (bit(a, i) && bit(b, i)),
{
}

proof fn lemma_bit_or(a: u8, b: u8, i: u8)
    by (bit_vector)
    requires
        i < 8,
    ensures
        bit(a | b, i) == (bit(a, i) || bit(b, i)),
{
}

proof fn lemma_bit_single(i: u8, j: u8)
    by (bit_vector)
    requires
        i < 8,
        j < 8,
    ensures
        bit(1u8 << i, j) == (i == j),
{
}

proof fn lemma_bit_zero(i: u8)
    by (bit_vector)
    requires
        i < 8,
    ensures
        !bit(0u8, i),
{
}

proof fn lemma_bit_full(i: u8)
    by (bit_vector)
    requires
        i < 6,
    ensures
        bit(63u8, i),
{
}

proof fn lemma_subset6_bits(a: u8, b: u8)
    by (bit_vector)
    ensures
        subset6(a, b) == ((bit(a, 0) ==> bit(b, 0)) && (bit(a, 1) ==> bit(b, 1)) && (bit(a, 2)
            ==> bit(b, 2)) && (bit(a, 3) ==> bit(b, 3)) && (bit(a, 4) ==> bit(b, 4)) && (bit(a, 5)
            ==> bit(b, 5))),
{
}

proof fn lemma_count6_bits(a: u8)
    by (bit_vector)
    ensures
        count6(a) == (if bit(a, 0) { 1int } else { 0int }) + (if bit(a, 1) { 1int } else { 0int })
            + (if bit(a, 2) { 1int } else { 0int }) + (if bit(a, 3) { 1int } else { 0int }) + (if bit(a, 4) {
            1int
        } else {
            0int
        }) + (if bit(a, 5) { 1int } else { 0int }),
{
}

/// Intersecting with a mask never adds zone positions, and the number of zone
/// positions drops exactly when some position is lost.
proof fn lemma_count6_and(a: u8, b: u8)
    by (bit_vector)
    ensures
        count6(a & b) <= count6(a),
        subset6(a & b, a),
        count6(a & b) == count6(a) ==> subset6(a, a & b),
        count6(a & b) == 0 <==> (a & b) & 63u8 == 0u8,
{
}

proof fn lemma_count6_zero(a: u8)
    by (bit_vector)
    ensures
        count6(a) == 0 <==> a & 63u8 == 0u8,
        0 <= count6(a) <= 6,
{
}

proof fn lemma_subset6_positions(a: u8, b: u8)
    ensures
        subset6(a, b) <==> (forall|i: u8| i < 6 ==> (bit(a, i) ==> bit(b, i))),
{
    lemma_subset6_bits(a, b);
    if subset6(a, b) {
        assert forall|i: u8| i < 6 && bit(a, i) implies bit(b, i) by {
            if i == 0 {
            } else if i == 1 {
            } else if i == 2 {
            } else if i == 3 {
            } else if i == 4 {
            } else {
            }
        }
    }
    if forall|i: u8| i < 6 ==> (bit(a, i) ==> bit(b, i)) {
        assert(bit(a, 0) ==> bit(b, 0));
        assert(bit(a, 1) ==> bit(b, 1));
        assert(bit(a, 2) ==> bit(b, 2));
        assert(bit(a, 3) ==> bit(b, 3));
        assert(bit(a, 4) ==> bit(b, 4));
        assert(bit(a, 5) ==> bit(b, 5));
    }
}


/// Zone types listed in canonical order, keeping those whose position is set
/// among the first `k` positions of `b`.
pub open spec fn members_upto(b: u8, k: u8) -> Seq<ZoneType>
    decreases k,
{
    if k == 0 {
        Seq::empty()
    } else {
        let prev = members_upto(b, (k - 1) as u8);
        if bit(b, (k - 1) as u8) {
            prev.push(zone_at((k - 1) as u8))
        } else {
            prev
        }
    }
}

proof fn lemma_members_upto(b: u8, k: u8)
    requires
        k <= 6,
    ensures
        members_upto(b, k).no_duplicates(),
        forall|z: ZoneType|
            #[trigger] members_upto(b, k).contains(z) <==> (zone_index(z) < k && bit(b, zone_index(z))),
        members_upto(b, k).len() == (if k >= 1 && bit(b, 0) { 1int } else { 0int }) + (if k >= 2 && bit(
            b,
            1,
        ) {
            1int
        } else {
            0int
        }) + (if k >= 3 && bit(b, 2) { 1int } else { 0int }) + (if k >= 4 && bit(b, 3) {
            1int
        } else {
            0int
        }) + (if k >= 5 && bit(b, 4) { 1int } else { 0int }) + (if k >= 6 && bit(b, 5) {
            1int
        } else {
            0int
        }),
    decreases k,
{
    lemma_zone_index_roundtrip();
    if k > 0 {
        lemma_members_upto(b, (k - 1) as u8);
        let prev = members_upto(b, (k - 1) as u8);
        if bit(b, (k - 1) as u8) {
            let z = zone_at((k - 1) as u8);
            assert(!prev.contains(z));
            assert forall|w: ZoneType|
                #[trigger] members_upto(b, k).contains(w) <==> (zone_index(w) < k && bit(
                    b,
                    zone_index(w),
                )) by {
                if members_upto(b, k).contains(w) {
                    let i = choose|i: int| 0 <= i < members_upto(b, k).len() && members_upto(b, k)[i] == w;
                    if i < prev.len() {
                        assert(prev[i] == w);
                        assert(prev.contains(w));
                    }
                }
                if zone_index(w) < k && bit(b, zone_index(w)) {
                    if zone_index(w) == k - 1 {
                        assert(members_upto(b, k)[prev.len() as int] == w);
                    } else {
                        assert(prev.contains(w));
                        let i = choose|i: int| 0 <= i < prev.len() && prev[i] == w;
                        assert(members_upto(b, k)[i] == w);
                    }
                }
            }
        }
    }
}

proof fn lemma_subset6_trans(a: u8, b: u8, c: u8)
    by (bit_vector)
    requires
        subset6(a, b),
        subset6(b, c),
    ensures
        subset6(a, c),
{
}

proof fn lemma_subset6_and(a: u8, b: u8)
    by (bit_vector)
    ensures
        subset6(a & b, a),
        subset6(a & b, b),
        subset6(a, a),
{
}

/// A set of zone types, held as a mask over the canonical positions.
#[derive(Clone, Copy, Debug, PartialEq, Eq, Structural)]
pub struct ZoneSet {
    bits: u8,
}

impl View for ZoneSet {
    type V = Set<ZoneType>;

    closed spec fn view(&self) -> Set<ZoneType> {
        Set::new(|z: ZoneType| bit(self.bits, zone_index(z)))
    }
}

impl ZoneSet {
    /// The mask behind the set.
    pub closed spec fn mask(self) -> u8 {
        self.bits
    }

    /// The members in canonical order.
    pub closed spec fn members(self) -> Seq<ZoneType> {
        members_upto(self.bits, 6)
    }

    /// The set is finite, its size is the number of set positions and its
    /// members listed in canonical order have no repetition.
    pub proof fn lemma_size(self)
        ensures
            self@.finite(),
            self@.len() == count6(self.mask()),
            self.members().no_duplicates(),
            self.members().len() == self@.len(),
            self.members().to_set() == self@,
            forall|z: ZoneType| #[trigger] self@.contains(z) == bit(self.mask(), zone_index(z)),
    {
        lemma_members_upto(self.bits, 6);
        lemma_count6_bits(self.bits);
        lemma_zone_index_roundtrip();
        let m = self.members();
        assert(m.to_set() =~= self@);
        m.unique_seq_to_set();
        broadcast use vstd::seq_lib::seq_to_set_is_finite;
    }

    /// The empty set.
    pub fn empty() -> (r: ZoneSet)
        ensures
            r@ == Set::<ZoneType>::empty(),
    {
        proof {
            assert forall|i: u8| i < 8 implies !bit(0u8, i) by {
                lemma_bit_zero(i);
            }
            lemma_zone_index_roundtrip();
        }
        let r = ZoneSet { bits: 0 };
        assert(r@ =~= Set::<ZoneType>::empty());
        r
    }

    /// The set of every zone type.
    pub fn full() -> (r: ZoneSet)
        ensures
            r@ == Set::<ZoneType>::full(),
    {
        proof {
            assert forall|i: u8| i < 6 implies bit(63u8, i) by {
                lemma_bit_full(i);
            }
            lemma_zone_index_roundtrip();
        }
        let r = ZoneSet { bits: 63 };
        assert(r@ =~= Set::<ZoneType>::full());
        r
    }

    /// The set holding one zone type.
    pub fn single(z: ZoneType) -> (r: ZoneSet)
        ensures
            r@ == set![z],
    {
        let i = z.index();
        proof {
            lemma_zone_index_roundtrip();
            assert forall|w: ZoneType| bit(1u8 << i, zone_index(w)) == (w == z) by {
                lemma_bit_single(i, zone_index(w));
            }
        }
        let r = ZoneSet { bits: 1u8 << i };
        assert(r@ =~= set![z]);
        r
    }

    /// Whether the set holds a zone type.
    pub fn contains(&self, z: ZoneType) -> (r: bool)
        ensures
            r == self@.contains(z),
    {
        let i = z.index();
        (self.bits >> i) & 1 == 1
    }

    /// Add a zone type to the set.
    pub fn insert(&mut self, z: ZoneType)
        ensures
            final(self)@ == old(self)@.insert(z),
    {
        let i = z.index();
        let old_bits = self.bits;
        self.bits = old_bits | (1u8 << i);
        proof {
            lemma_zone_index_roundtrip();
            assert forall|w: ZoneType|
                bit(old_bits | (1u8 << i), zone_index(w)) == (bit(old_bits, zone_index(w)) || w
                    == z) by {
                lemma_bit_or(old_bits, 1u8 << i, zone_index(w));
                lemma_bit_single(i, zone_index(w));
            }
        }
        assert(self@ =~= old(self)@.insert(z));
    }

    /// Keep only the zone types that are also in `other`.
    pub fn intersect(&self, other: &ZoneSet) -> (r: ZoneSet)
        ensures
            r@ == self@.intersect(other@),
            r.mask() == self.mask() & other.mask(),
    {
        let r = ZoneSet { bits: self.bits & other.bits };
        proof {
            lemma_zone_index_roundtrip();
            assert forall|w: ZoneType|
                bit(self.bits & other.bits, zone_index(w)) == (bit(self.bits, zone_index(w)) && bit(
                    other.bits,
                    zone_index(w),
                )) by {
                lemma_bit_and(self.bits, other.bits, zone_index(w));
            }
        }
        assert(r@ =~= self@.intersect(other@));
        r
    }

    /// All zone types that are in either set.
    pub fn union(&self, other: &ZoneSet) -> (r: ZoneSet)
        ensures
            r@ == self@.union(other@),
            r.mask() == self.mask() | other.mask(),
    {
        let r = ZoneSet { bits: self.bits | other.bits };
        proof {
            lemma_zone_index_roundtrip();
            assert forall|w: ZoneType|
                bit(self.bits | other.bits, zone_index(w)) == (bit(self.bits, zone_index(w)) || bit(
                    other.bits,
                    zone_index(w),
                )) by {
                lemma_bit_or(self.bits, other.bits, zone_index(w));
            }
        }
        assert(r@ =~= self@.union(other@));
        r
    }

    /// Number of zone types in the set.
    pub fn len(&self) -> (r: usize)
        ensures
            r == self@.len(),
            r <= 6,
    {
        proof {
            self.lemma_size();
            lemma_count6_zero(self.bits);
        }
        let b = self.bits;
        ((b & 1) + ((b >> 1) & 1) + ((b >> 2) & 1) + ((b >> 3) & 1) + ((b >> 4) & 1) + ((b >> 5)
            & 1)) as usize
    }

    /// Whether the set holds no zone type.
    pub fn is_empty(&self) -> (r: bool)
        ensures
            r == (self@.len() == 0),
    {
        self.len() == 0
    }

    /// The members in canonical order.
    pub fn to_vec(&self) -> (r: Vec<ZoneType>)
        ensures
            r@ == self.members(),
            r@.no_duplicates(),
            r@.to_set() == self@,
            r@.len() == self@.len(),
    {
        let mut r: Vec<ZoneType> = Vec::new();
        let mut k: u8 = 0;
        while k < 6
            invariant
                k <= 6,
                r@ == members_upto(self.bits, k),
            decreases 6 - k,
        {
            if (self.bits >> k) & 1 == 1 {
                r.push(ZoneType::from_index(k));
            }
            k = k + 1;
        }
        proof {
            self.lemma_size();
        }
        r
    }
}


/// The neighbour pairs that the default zoning rules allow: industry never
/// borders housing, parks or civic buildings; every other pair is allowed.
pub open spec fn default_allowed(source: ZoneType, neighbor: ZoneType) -> bool {
    match source {
        ZoneType::Residential => neighbor != ZoneType::Industrial,
        ZoneType::Commercial => true,
        ZoneType::Industrial => neighbor == ZoneType::Commercial || neighbor == ZoneType::Industrial
            || neighbor == ZoneType::Empty,
        ZoneType::Park => neighbor != ZoneType::Industrial,
        ZoneType::Civic => neighbor != ZoneType::Industrial,
        ZoneType::Empty => true,
    }
}

proof fn lemma_default_masks(i: u8)
    by (bit_vector)
    requires
        i < 6,
    ensures
        bit(59u8, i) == (i != 2),
        bit(63u8, i),
        bit(38u8, i) == (i == 1 || i == 2 || i == 5),
{
}

/// Adjacency rules for WFC.
#[derive(Clone, Copy, Debug)]
pub struct AdjacencyRules {
    /// For each source zone (by canonical position), the zones allowed next to it.
    allowed: [ZoneSet; 6],
}

impl AdjacencyRules {
    /// Whether `neighbor` may stand next to `source`.
    pub closed spec fn allows(self, source: ZoneType, neighbor: ZoneType) -> bool {
        self.allowed@[zone_index(source) as int]@.contains(neighbor)
    }

    /// Mask of the zones allowed next to the zone at canonical position `i`.
    pub closed spec fn allowed_mask(self, i: u8) -> u8 {
        self.allowed@[i as int].mask()
    }

    pub proof fn lemma_allowed_mask(self, source: ZoneType, neighbor: ZoneType)
        ensures
            self.allows(source, neighbor) == bit(
                self.allowed_mask(zone_index(source)),
                zone_index(neighbor),
            ),
    {
        self.allowed@[zone_index(source) as int].lemma_size();
    }

    /// Union of the masks allowed next to the zones set among the first `k`
    /// positions of `s`.
    pub open spec fn support_upto(self, s: u8, k: u8) -> u8
        decreases k,
    {
        if k == 0 {
            0u8
        } else {
            let prev = self.support_upto(s, (k - 1) as u8);
            if bit(s, (k - 1) as u8) {
                prev | self.allowed_mask((k - 1) as u8)
            } else {
                prev
            }
        }
    }

    /// Mask of every zone allowed next to at least one zone of mask `s`.
    pub open spec fn support(self, s: u8) -> u8 {
        self.support_upto(s, 6)
    }

    proof fn lemma_support_upto(self, s: u8, k: u8, j: u8)
        requires
            k <= 6,
            j < 8,
        ensures
            bit(self.support_upto(s, k), j) <==> exists|p: u8|
                p < k && #[trigger] bit(s, p) && bit(self.allowed_mask(p), j),
        decreases k,
    {
        if k == 0 {
            lemma_bit_zero(j);
        } else {
            self.lemma_support_upto(s, (k - 1) as u8, j);
            let prev = self.support_upto(s, (k - 1) as u8);
            if bit(s, (k - 1) as u8) {
                lemma_bit_or(prev, self.allowed_mask((k - 1) as u8), j);
            }
            if exists|p: u8| p < k && #[trigger] bit(s, p) && bit(self.allowed_mask(p), j) {
                let p = choose|p: u8| p < k && #[trigger] bit(s, p) && bit(self.allowed_mask(p), j);
                if p < k - 1 {
                } else {
                    assert(p == k - 1);
                }
            }
        }
    }

    /// A zone position is in the support of `s` exactly when some zone of `s`
    /// allows it.
    pub proof fn lemma_support(self, s: u8, j: u8)
        requires
            j < 6,
        ensures
            bit(self.support(s), j) <==> exists|p: u8|
                p < 6 && #[trigger] bit(s, p) && bit(self.allowed_mask(p), j),
    {
        self.lemma_support_upto(s, 6, j);
    }

    /// The support of a single zone is the set of zones it allows.
    pub proof fn lemma_support_single(self, z: ZoneType, s: u8)
        requires
            forall|i: u8| i < 6 ==> #[trigger] bit(s, i) == (i == zone_index(z)),
        ensures
            forall|w: ZoneType|
                #[trigger] bit(self.support(s), zone_index(w)) == self.allows(z, w),
    {
        lemma_zone_index_roundtrip();
        assert forall|w: ZoneType| #[trigger]
            bit(self.support(s), zone_index(w)) == self.allows(z, w) by {
            self.lemma_support(s, zone_index(w));
            self.lemma_allowed_mask(z, w);
            if self.allows(z, w) {
                assert(bit(s, zone_index(z)));
            }
        }
    }

    /// Masks that agree on every zone position have the same support.
    proof fn lemma_support_positions(self, a: u8, b: u8)
        requires
            forall|i: u8| i < 6 ==> bit(a, i) == bit(b, i),
        ensures
            self.support(a) == self.support(b),
    {
        assert forall|k: u8| k <= 6 implies #[trigger] self.support_upto(a, k) == self.support_upto(
            b,
            k,
        ) by {
            self.lemma_support_positions_upto(a, b, k);
        }
    }

    proof fn lemma_support_positions_upto(self, a: u8, b: u8, k: u8)
        requires
            k <= 6,
            forall|i: u8| i < 6 ==> bit(a, i) == bit(b, i),
        ensures
            self.support_upto(a, k) == self.support_upto(b, k),
        decreases k,
    {
        if k > 0 {
            self.lemma_support_positions_upto(a, b, (k - 1) as u8);
            assert(bit(a, (k - 1) as u8) == bit(b, (k - 1) as u8));
        }
    }

    /// Fewer zones are allowed next to fewer zones.
    proof fn lemma_support_monotone(self, a: u8, b: u8, k: u8)
        requires
            subset6(a, b),
            k < 6,
        ensures
            bit(self.support(a), k) ==> bit(self.support(b), k),
    {
        self.lemma_support(a, k);
        self.lemma_support(b, k);
        lemma_subset6_positions(a, b);
        if bit(self.support(a), k) {
            let p = choose|p: u8| p < 6 && #[trigger] bit(a, p) && bit(self.allowed_mask(p), k);
            assert(bit(b, p));
        }
    }

    /// Predicate form of `allows` for a fixed source zone.
    pub open spec fn allowed_from(self, source: ZoneType) -> spec_fn(ZoneType) -> bool {
        |n: ZoneType| self.allows(source, n)
    }

    /// Every zone allowed next to at least one zone of `s`.
    pub fn support_set(&self, s: &ZoneSet) -> (r: ZoneSet)
        ensures
            r.mask() == self.support(s.mask()),
    {
        let mut acc = ZoneSet { bits: 0 };
        let mut k: u8 = 0;
        while k < 6
            invariant
                k <= 6,
                acc.mask() == self.support_upto(s.mask(), k),
            decreases 6 - k,
        {
            if (s.bits >> k) & 1 == 1 {
                acc = acc.union(&self.allowed[k as usize]);
            }
            k = k + 1;
        }
        acc
    }

    pub fn is_allowed(&self, source: ZoneType, neighbor: ZoneType) -> (r: bool)
        ensures
            r == self.allows(source, neighbor),
    {
        self.allowed[source.index() as usize].contains(neighbor)
    }

    /// The zones allowed next to `source`, as a set.
    pub fn valid_neighbor_set(&self, source: ZoneType) -> (r: ZoneSet)
        ensures
            forall|z: ZoneType| #[trigger] r@.contains(z) == self.allows(source, z),
            r.mask() == self.allowed_mask(zone_index(source)),
    {
        self.allowed[source.index() as usize]
    }

    /// Get valid neighbors for a zone type, in canonical order.
    pub fn valid_neighbors(&self, source: ZoneType) -> (r: Vec<ZoneType>)
        ensures
            r@ == all_zones().filter(self.allowed_from(source)),
    {
        let all = ZoneType::all();
        let mut r: Vec<ZoneType> = Vec::new();
        let mut k: usize = 0;
        while k < all.len()
            invariant
                all@ == all_zones(),
                k <= all@.len(),
                r@ == all_zones().take(k as int).filter(self.allowed_from(source)),
            decreases all@.len() - k,
        {
            let n = all[k];
            if self.is_allowed(source, n) {
                r.push(n);
            }
            proof {
                let t = all_zones().take(k + 1);
                assert(t.drop_last() =~= all_zones().take(k as int));
                assert(t.last() == n);
                reveal_with_fuel(Seq::filter, 1);
            }
            k = k + 1;
        }
        proof {
            assert(all_zones().take(6) =~= all_zones());
        }
        r
    }
}

impl Default for AdjacencyRules {
    fn default() -> (r: Self)
        ensures
            forall|s: ZoneType, n: ZoneType| #[trigger] r.allows(s, n) == default_allowed(s, n),
    {
        let open_rules = ZoneSet { bits: 59 };
        let all = ZoneSet { bits: 63 };
        let industrial = ZoneSet { bits: 38 };
        let r = AdjacencyRules { allowed: [open_rules, all, industrial, open_rules, open_rules, all] };
        proof {
            lemma_zone_index_roundtrip();
            assert forall|s: ZoneType, n: ZoneType| #[trigger]
                r.allows(s, n) == default_allowed(s, n) by {
                r.lemma_allowed_mask(s, n);
                lemma_default_masks(zone_index(n));
            }
        }
        r
    }
}

/// The default zoning rules are symmetric: a pair is allowed in one order
/// exactly when it is allowed in the other.
pub proof fn lemma_default_rules_symmetric(source: ZoneType, neighbor: ZoneType)
    ensures
        default_allowed(source, neighbor) == default_allowed(neighbor, source),
{
}

/// Under the default rules no industrial zone may border a residential one,
/// in either direction.
pub proof fn lemma_default_rules_keep_industry_from_housing()
    ensures
        !default_allowed(ZoneType::Residential, ZoneType::Industrial),
        !default_allowed(ZoneType::Industrial, ZoneType::Residential),
        forall|z: ZoneType| default_allowed(ZoneType::Empty, z) && default_allowed(z, ZoneType::Empty),
{
}


// ---------------------------------------------------------------------------
// Grid cells
// ---------------------------------------------------------------------------

/// A cell in the WFC grid (superposition of possible states).
#[derive(Clone, Copy, Debug)]
pub struct WfcCell {
    pub possibilities: ZoneSet,
    pub collapsed: Option<ZoneType>,
}

impl Default for WfcCell {
    fn default() -> (r: Self)
        ensures
            r.possibilities@ == Set::<ZoneType>::full(),
            r.collapsed is None,
    {
        WfcCell { possibilities: ZoneSet::full(), collapsed: None }
    }
}

impl WfcCell {
    pub fn entropy(&self) -> (r: usize)
        ensures
            r == (if self.collapsed is Some { 0 } else { self.possibilities@.len() }),
    {
        if self.collapsed.is_some() {
            0
        } else {
            self.possibilities.len()
        }
    }

    pub fn is_collapsed(&self) -> (r: bool)
        ensures
            r == self.collapsed is Some,
    {
        self.collapsed.is_some()
    }
}

// ---------------------------------------------------------------------------
// Grid geometry
// ---------------------------------------------------------------------------

/// Cells `i` and `j` of a grid `w` cells wide holding `n` cells share an edge.
pub open spec fn adjacent(w: int, n: int, i: int, j: int) -> bool {
    &&& 0 <= i < n
    &&& 0 <= j < n
    &&& ((i / w == j / w && (i % w + 1 == j % w || j % w + 1 == i % w)) || (i % w == j % w && (i
        / w + 1 == j / w || j / w + 1 == i / w)))
}

/// The 4-connected neighbours of `(x, y)` in a `w` by `h` grid, in the order
/// left, right, up, down.
pub open spec fn neighbor_coords(w: usize, h: usize, x: usize, y: usize) -> Seq<(usize, usize)> {
    let s0 = Seq::<(usize, usize)>::empty();
    let s1 = if x > 0 { s0.push(((x - 1) as usize, y)) } else { s0 };
    let s2 = if x < w - 1 { s1.push(((x + 1) as usize, y)) } else { s1 };
    let s3 = if y > 0 { s2.push((x, (y - 1) as usize)) } else { s2 };
    if y < h - 1 { s3.push((x, (y + 1) as usize)) } else { s3 }
}

proof fn lemma_index(w: int, h: int, x: int, y: int)
    requires
        w > 0,
        0 <= x < w,
        0 <= y < h,
    ensures
        (y * w + x) % w == x,
        (y * w + x) / w == y,
        0 <= y * w + x < w * h,
{
    vstd::arithmetic::div_mod::lemma_fundamental_div_mod_converse(y * w + x, w, y, x);
    assert(0 <= y * w + x < w * h) by (nonlinear_arith)
        requires
            w > 0,
            0 <= x < w,
            0 <= y < h,
    ;
}

proof fn lemma_coords(w: int, h: int, i: int)
    requires
        w > 0,
        0 <= i < w * h,
    ensures
        0 <= i % w < w,
        0 <= i / w < h,
        i == (i / w) * w + i % w,
{
    vstd::arithmetic::div_mod::lemma_fundamental_div_mod(i, w);
    vstd::arithmetic::div_mod::lemma_mod_pos_bound(i, w);
    vstd::arithmetic::mul::lemma_mul_is_commutative(w, i / w);
    vstd::arithmetic::div_mod::lemma_div_pos_is_pos(i, w);
    assert(i / w < h) by {
        vstd::arithmetic::div_mod::lemma_multiply_divide_lt(i, w, h);
    }
}

/// The neighbour list of a cell holds exactly the cells adjacent to it, each
/// once, and never the cell itself.
proof fn lemma_neighbor_coords(w: usize, h: usize, x: usize, y: usize)
    requires
        w > 0,
        x < w,
        y < h,
    ensures
        ({
            let nb = neighbor_coords(w, h, x, y);
            let n = w as int * h as int;
            let i = y as int * w as int + x as int;
            &&& nb.len() <= 4
            &&& forall|k: int|
                0 <= k < nb.len() ==> {
                    &&& (#[trigger] nb[k]).0 < w
                    &&& nb[k].1 < h
                    &&& adjacent(w as int, n, i, nb[k].1 as int * w as int + nb[k].0 as int)
                }
            &&& forall|k: int, m: int|
                0 <= k < nb.len() && 0 <= m < nb.len() && k != m ==> (#[trigger] nb[k]).1 as int
                    * w as int + nb[k].0 as int != (#[trigger] nb[m]).1 as int * w as int + nb[m].0 as int
            &&& forall|j: int|
                #[trigger] adjacent(w as int, n, i, j) ==> exists|k: int|
                    0 <= k < nb.len() && j == (#[trigger] nb[k]).1 as int * w as int + nb[k].0 as int
        }),
{
    let nb = neighbor_coords(w, h, x, y);
    let wi = w as int;
    let hi = h as int;
    let xi = x as int;
    let yi = y as int;
    let n = wi * hi;
    let i = yi * wi + xi;
    lemma_index(wi, hi, xi, yi);
    assert forall|k: int| 0 <= k < nb.len() implies {
        &&& (#[trigger] nb[k]).0 < w
        &&& nb[k].1 < h
        &&& adjacent(wi, n, i, nb[k].1 as int * wi + nb[k].0 as int)
    } by {
        lemma_index(wi, hi, nb[k].0 as int, nb[k].1 as int);
    }
    assert forall|k: int, m: int|
        0 <= k < nb.len() && 0 <= m < nb.len() && k != m implies (#[trigger] nb[k]).1 as int * wi
        + nb[k].0 as int != (#[trigger] nb[m]).1 as int * wi + nb[m].0 as int by {
        lemma_index(wi, hi, nb[k].0 as int, nb[k].1 as int);
        lemma_index(wi, hi, nb[m].0 as int, nb[m].1 as int);
    }
    assert forall|j: int| #[trigger] adjacent(wi, n, i, j) implies exists|k: int|
        0 <= k < nb.len() && j == (#[trigger] nb[k]).1 as int * wi + nb[k].0 as int by {
        lemma_coords(wi, hi, j);
        let jx = j % wi;
        let jy = j / wi;
        let s0 = Seq::<(usize, usize)>::empty();
        let s1 = if x > 0 { s0.push(((x - 1) as usize, y)) } else { s0 };
        let s2 = if x < w - 1 { s1.push(((x + 1) as usize, y)) } else { s1 };
        let s3 = if y > 0 { s2.push((x, (y - 1) as usize)) } else { s2 };
        if jy == yi && jx + 1 == xi {
            assert(nb[0] == ((x - 1) as usize, y));
            assert(j == nb[0].1 as int * wi + nb[0].0 as int);
        } else if jy == yi && xi + 1 == jx {
            let k = s1.len() as int;
            assert(nb[k] == ((x + 1) as usize, y));
            assert(j == nb[k].1 as int * wi + nb[k].0 as int);
        } else if jx == xi && jy + 1 == yi {
            let k = s2.len() as int;
            assert(nb[k] == (x, (y - 1) as usize));
            assert(j == nb[k].1 as int * wi + nb[k].0 as int);
        } else {
            assert(jx == xi && yi + 1 == jy);
            let k = s3.len() as int;
            assert(nb[k] == (x, (y + 1) as usize));
            assert(j == nb[k].1 as int * wi + nb[k].0 as int);
        }
    }
}


// ---------------------------------------------------------------------------
// Solver state predicates
// ---------------------------------------------------------------------------

/// Mask of the zones still possible in cell `i`.
pub open spec fn poss_mask(cells: Seq<WfcCell>, i: int) -> u8 {
    cells[i].possibilities.mask()
}

/// The constraint from cell `i` to its neighbour `j` holds: either `j` is
/// collapsed, or every zone still possible in `j` is allowed next to some zone
/// still possible in `i`.
pub open spec fn arc_ok(rules: AdjacencyRules, cells: Seq<WfcCell>, i: int, j: int) -> bool {
    cells[j].collapsed is Some || subset6(poss_mask(cells, j), rules.support(poss_mask(cells, i)))
}

/// Every constraint between neighbours holds, except possibly those leaving
/// cell `skip` (pass a negative `skip` to demand all of them).
pub open spec fn arcs_ok_except(w: int, rules: AdjacencyRules, cells: Seq<WfcCell>, skip: int) -> bool {
    forall|i: int, j: int|
        #[trigger] adjacent(w, cells.len() as int, i, j) && i != skip ==> arc_ok(rules, cells, i, j)
}

/// Some neighbour of cell `j` allows zone position `k` for none of its
/// remaining zones.
pub open spec fn loss_forced(w: int, rules: AdjacencyRules, cells: Seq<WfcCell>, j: int, k: u8) -> bool {
    exists|i: int|
        #[trigger] adjacent(w, cells.len() as int, i, j) && !bit(rules.support(poss_mask(cells, i)), k)
}

/// Every zone that a cell still open in `after` lost since `before` is ruled
/// out by some neighbour's remaining zones in `after`.
pub open spec fn losses_forced(
    w: int,
    rules: AdjacencyRules,
    before: Seq<WfcCell>,
    after: Seq<WfcCell>,
) -> bool {
    forall|j: int, k: u8|
        0 <= j < after.len() && after[j].collapsed is None && k < 6 && bit(poss_mask(before, j), k)
            && !#[trigger] bit(poss_mask(after, j), k) ==> loss_forced(w, rules, after, j, k)
}

/// A collapsed cell keeps exactly its chosen zone as its only possibility.
pub open spec fn collapsed_are_single(cells: Seq<WfcCell>) -> bool {
    forall|i: int|
        0 <= i < cells.len() && (#[trigger] cells[i]).collapsed is Some ==> forall|k: u8|
            k < 6 ==> #[trigger] bit(cells[i].possibilities.mask(), k) == (k == zone_index(
                cells[i].collapsed->0,
            ))
}

/// Neighbouring collapsed cells hold zones that the rules allow next to each
/// other, in at least one direction.
pub open spec fn collapsed_pairs_allowed(w: int, rules: AdjacencyRules, cells: Seq<WfcCell>) -> bool {
    forall|i: int, j: int|
        #[trigger] adjacent(w, cells.len() as int, i, j) && cells[i].collapsed is Some
            && cells[j].collapsed is Some ==> rules.allows(cells[i].collapsed->0, cells[j].collapsed->0)
            || rules.allows(cells[j].collapsed->0, cells[i].collapsed->0)
}

/// Sum over the cells of the number of zones still possible.
pub open spec fn total_count(cells: Seq<WfcCell>) -> int
    decreases cells.len(),
{
    if cells.len() == 0 {
        0
    } else {
        total_count(cells.drop_last()) + count6(cells.last().possibilities.mask())
    }
}

/// Number of cells not yet collapsed.
pub open spec fn open_cells(cells: Seq<WfcCell>) -> int
    decreases cells.len(),
{
    if cells.len() == 0 {
        0
    } else {
        open_cells(cells.drop_last()) + if cells.last().collapsed is None { 1int } else { 0int }
    }
}

proof fn lemma_total_count_update(cells: Seq<WfcCell>, i: int, c: WfcCell)
    requires
        0 <= i < cells.len(),
    ensures
        total_count(cells.update(i, c)) == total_count(cells) - count6(cells[i].possibilities.mask())
            + count6(c.possibilities.mask()),
    decreases cells.len(),
{
    if i < cells.len() - 1 {
        lemma_total_count_update(cells.drop_last(), i, c);
        assert(cells.update(i, c).drop_last() =~= cells.drop_last().update(i, c));
    } else {
        assert(cells.update(i, c).drop_last() =~= cells.drop_last());
    }
}

proof fn lemma_total_count_nonneg(cells: Seq<WfcCell>)
    ensures
        total_count(cells) >= 0,
    decreases cells.len(),
{
    if cells.len() > 0 {
        lemma_total_count_nonneg(cells.drop_last());
        lemma_count6_zero(cells.last().possibilities.mask());
    }
}

proof fn lemma_open_cells_update(cells: Seq<WfcCell>, i: int, c: WfcCell)
    requires
        0 <= i < cells.len(),
    ensures
        open_cells(cells.update(i, c)) == open_cells(cells) - (if cells[i].collapsed is None {
            1int
        } else {
            0int
        }) + (if c.collapsed is None { 1int } else { 0int }),
    decreases cells.len(),
{
    if i < cells.len() - 1 {
        lemma_open_cells_update(cells.drop_last(), i, c);
        assert(cells.update(i, c).drop_last() =~= cells.drop_last().update(i, c));
    } else {
        assert(cells.update(i, c).drop_last() =~= cells.drop_last());
    }
}

proof fn lemma_open_cells_nonneg(cells: Seq<WfcCell>)
    ensures
        open_cells(cells) >= 0,
    decreases cells.len(),
{
    if cells.len() > 0 {
        lemma_open_cells_nonneg(cells.drop_last());
    }
}

/// Cell `i` may be picked next: it is open, still has a possibility, and no
/// open cell with a possibility has fewer of them.
pub open spec fn lowest_entropy_candidate(cells: Seq<WfcCell>, i: int) -> bool {
    &&& 0 <= i < cells.len()
    &&& cells[i].collapsed is None
    &&& cells[i].possibilities@.len() > 0
    &&& forall|j: int|
        0 <= j < cells.len() && (#[trigger] cells[j]).collapsed is None
            && cells[j].possibilities@.len() > 0 ==> cells[i].possibilities@.len()
            <= cells[j].possibilities@.len()
}

/// Narrowing the possibilities of an open cell keeps every constraint that
/// does not leave that cell, and also those that leave it when no zone
/// position was lost.
proof fn lemma_narrowing_keeps_arc(
    w: int,
    rules: AdjacencyRules,
    cells: Seq<WfcCell>,
    c: int,
    new_cell: WfcCell,
    i: int,
    j: int,
)
    requires
        adjacent(w, cells.len() as int, i, j),
        0 <= c < cells.len(),
        cells[c].collapsed is None,
        new_cell.collapsed is None,
        subset6(new_cell.possibilities.mask(), poss_mask(cells, c)),
        arc_ok(rules, cells, i, j),
        i == c ==> forall|k: u8|
            k < 6 ==> bit(new_cell.possibilities.mask(), k) == bit(poss_mask(cells, c), k),
    ensures
        arc_ok(rules, cells.update(c, new_cell), i, j),
{
    let cells2 = cells.update(c, new_cell);
    assert(i != j);
    if j == c {
        assert(poss_mask(cells2, i) == poss_mask(cells, i));
        lemma_subset6_trans(
            new_cell.possibilities.mask(),
            poss_mask(cells, c),
            rules.support(poss_mask(cells, i)),
        );
    } else if i == c {
        rules.lemma_support_positions(new_cell.possibilities.mask(), poss_mask(cells, c));
        assert(cells2[j] == cells[j]);
    } else {
        assert(cells2[i] == cells[i]);
        assert(cells2[j] == cells[j]);
    }
}

proof fn lemma_open_cells_same_flags(a: Seq<WfcCell>, b: Seq<WfcCell>)
    requires
        a.len() == b.len(),
        forall|i: int| 0 <= i < a.len() ==> (#[trigger] a[i]).collapsed == b[i].collapsed,
    ensures
        open_cells(a) == open_cells(b),
    decreases a.len(),
{
    if a.len() > 0 {
        lemma_open_cells_same_flags(a.drop_last(), b.drop_last());
    }
}

/// Collapsing an open cell to one of its possibilities keeps the solver
/// consistent everywhere except on the constraints leaving that cell.
proof fn lemma_collapse_keeps_consistency(
    w: int,
    rules: AdjacencyRules,
    before: Seq<WfcCell>,
    after: Seq<WfcCell>,
    c: int,
    z: ZoneType,
)
    requires
        0 <= c < before.len(),
        after.len() == before.len(),
        before[c].collapsed is None,
        before[c].possibilities@.contains(z),
        after[c].collapsed == Some(z),
        forall|k: u8| k < 6 ==> #[trigger] bit(after[c].possibilities.mask(), k) == (k == zone_index(z)),
        forall|i: int| 0 <= i < after.len() && i != c ==> #[trigger] after[i] == before[i],
        arcs_ok_except(w, rules, before, -1),
        collapsed_are_single(before),
        collapsed_pairs_allowed(w, rules, before),
    ensures
        arcs_ok_except(w, rules, after, c),
        collapsed_are_single(after),
        collapsed_pairs_allowed(w, rules, after),
{
    let n = before.len() as int;
    lemma_zone_index_roundtrip();
    before[c].possibilities.lemma_size();
    assert forall|i: int, j: int| #[trigger] adjacent(w, n, i, j) && i != c implies arc_ok(
        rules,
        after,
        i,
        j,
    ) by {
        assert(arc_ok(rules, before, i, j));
        if j != c {
            assert(after[i] == before[i]);
            assert(after[j] == before[j]);
        }
    }
    assert forall|i: int|
        0 <= i < after.len() && (#[trigger] after[i]).collapsed is Some implies forall|k: u8|
        k < 6 ==> #[trigger] bit(after[i].possibilities.mask(), k) == (k == zone_index(
            after[i].collapsed->0,
        )) by {
        if i != c {
            assert(after[i] == before[i]);
        }
    }
    assert forall|i: int, j: int|
        #[trigger] adjacent(w, n, i, j) && after[i].collapsed is Some && after[j].collapsed is Some implies rules.allows(
        after[i].collapsed->0,
        after[j].collapsed->0,
    ) || rules.allows(after[j].collapsed->0, after[i].collapsed->0) by {
        if i == c || j == c {
            let a = if i == c { j } else { i };
            assert(adjacent(w, n, a, c));
            assert(after[a] == before[a]);
            let za = before[a].collapsed->0;
            assert(arc_ok(rules, before, a, c));
            assert(subset6(poss_mask(before, c), rules.support(poss_mask(before, a))));
            rules.lemma_support_single(za, poss_mask(before, a));
            lemma_subset6_positions(poss_mask(before, c), rules.support(poss_mask(before, a)));
            assert(bit(poss_mask(before, c), zone_index(z)));
            assert(rules.allows(za, z));
        } else {
            assert(after[i] == before[i]);
            assert(after[j] == before[j]);
        }
    }
}

/// Narrowing possibilities without touching collapsed cells keeps collapsed
/// cells single and their pairs allowed.
proof fn lemma_narrowing_keeps_collapsed(
    w: int,
    rules: AdjacencyRules,
    before: Seq<WfcCell>,
    after: Seq<WfcCell>,
)
    requires
        after.len() == before.len(),
        forall|i: int| 0 <= i < after.len() ==> (#[trigger] after[i]).collapsed == before[i].collapsed,
        forall|i: int|
            0 <= i < after.len() && before[i].collapsed is Some ==> (#[trigger] after[i]) == before[i],
        collapsed_are_single(before),
        collapsed_pairs_allowed(w, rules, before),
    ensures
        collapsed_are_single(after),
        collapsed_pairs_allowed(w, rules, after),
{
    let n = before.len() as int;
    assert forall|i: int|
        0 <= i < after.len() && (#[trigger] after[i]).collapsed is Some implies forall|k: u8|
        k < 6 ==> #[trigger] bit(after[i].possibilities.mask(), k) == (k == zone_index(
            after[i].collapsed->0,
        )) by {
        assert(after[i] == before[i]);
    }
    assert forall|i: int, j: int|
        #[trigger] adjacent(w, n, i, j) && after[i].collapsed is Some && after[j].collapsed is Some implies rules.allows(
        after[i].collapsed->0,
        after[j].collapsed->0,
    ) || rules.allows(after[j].collapsed->0, after[i].collapsed->0) by {
        assert(after[i] == before[i]);
        assert(after[j] == before[j]);
    }
}

/// Wave Function Collapse solver for zoning.
pub struct WfcSolver {
    pub width: usize,
    pub height: usize,
    pub cells: Vec<WfcCell>,
    pub rules: AdjacencyRules,
}

impl WfcSolver {
    /// The grid holds one cell per position.
    pub open spec fn wf(&self) -> bool {
        self.cells@.len() == self.width as int * self.height as int
    }

    /// Every constraint between neighbours holds and collapsed cells keep
    /// only their chosen zone.
    pub open spec fn consistent(&self) -> bool {
        &&& self.wf()
        &&& arcs_ok_except(self.width as int, self.rules, self.cells@, -1)
        &&& collapsed_are_single(self.cells@)
        &&& collapsed_pairs_allowed(self.width as int, self.rules, self.cells@)
    }

    pub fn new(width: usize, height: usize) -> (r: Self)
        requires
            width as int * height as int <= usize::MAX,
        ensures
            r.width == width,
            r.height == height,
            r.wf(),
            forall|i: int|
                0 <= i < r.cells@.len() ==> (#[trigger] r.cells@[i]).possibilities@ == Set::<
                    ZoneType,
                >::full() && r.cells@[i].collapsed is None,
            forall|s: ZoneType, n: ZoneType| #[trigger] r.rules.allows(s, n) == default_allowed(s, n),
            r.consistent(),
    {
        let n = width * height;
        let mut cells: Vec<WfcCell> = Vec::new();
        let mut k: usize = 0;
        while k < n
            invariant
                k <= n,
                cells@.len() == k,
                forall|i: int|
                    0 <= i < cells@.len() ==> (#[trigger] cells@[i]).possibilities@ == Set::<
                        ZoneType,
                    >::full() && cells@[i].collapsed is None,
            decreases n - k,
        {
            cells.push(WfcCell::default());
            k = k + 1;
        }
        let rules = AdjacencyRules::default();
        let r = WfcSolver { width, height, cells, rules };
        proof {
            lemma_zone_index_roundtrip();
            assert forall|i: int, j: int| #[trigger]
                adjacent(width as int, r.cells@.len() as int, i, j) && i != -1 implies arc_ok(
                rules,
                r.cells@,
                i,
                j,
            ) by {
                let pi = r.cells@[i].possibilities;
                let pj = r.cells@[j].possibilities;
                pi.lemma_size();
                assert(pi@.contains(ZoneType::Empty));
                assert forall|k: u8| k < 6 && bit(pj.mask(), k) implies bit(
                    rules.support(pi.mask()),
                    k,
                ) by {
                    rules.lemma_support(pi.mask(), k);
                    rules.lemma_allowed_mask(ZoneType::Empty, zone_at(k));
                    assert(bit(pi.mask(), 5u8) && bit(rules.allowed_mask(5u8), k));
                }
                lemma_subset6_positions(pj.mask(), rules.support(pi.mask()));
            }
        }
        r
    }

    fn index(&self, x: usize, y: usize) -> (r: usize)
        requires
            x < self.width,
            y < self.height,
            self.wf(),
        ensures
            r == y * self.width + x,
            r < self.cells@.len(),
            r as int % self.width as int == x,
            r as int / self.width as int == y,
    {
        let n = self.cells.len();
        proof {
            lemma_index(self.width as int, self.height as int, x as int, y as int);
            assert(y * self.width <= y * self.width + x);
        }
        y * self.width + x
    }

    fn coords(&self, idx: usize) -> (r: (usize, usize))
        requires
            idx < self.cells@.len(),
            self.wf(),
        ensures
            r.0 == idx as int % self.width as int,
            r.1 == idx as int / self.width as int,
            r.0 < self.width,
            r.1 < self.height,
            r.1 * self.width + r.0 == idx,
    {
        proof {
            assert(self.width > 0) by (nonlinear_arith)
                requires
                    idx < self.width as int * self.height as int,
                    self.width >= 0,
                    self.height >= 0,
            ;
            lemma_coords(self.width as int, self.height as int, idx as int);
        }
        (idx % self.width, idx / self.width)
    }

    /// Get neighbors of a cell (4-connected).
    fn neighbors(&self, x: usize, y: usize) -> (r: Vec<(usize, usize)>)
        requires
            x < self.width,
            y < self.height,
        ensures
            r@ == neighbor_coords(self.width, self.height, x, y),
    {
        let mut result: Vec<(usize, usize)> = Vec::new();
        if x > 0 {
            result.push((x - 1, y));
        }
        if x < self.width - 1 {
            result.push((x + 1, y));
        }
        if y > 0 {
            result.push((x, y - 1));
        }
        if y < self.height - 1 {
            result.push((x, y + 1));
        }
        result
    }

    /// Get the resulting zone grid.
    pub fn result(&self) -> (r: Vec<Option<ZoneType>>)
        ensures
            r@.len() == self.cells@.len(),
            forall|i: int| 0 <= i < r@.len() ==> #[trigger] r@[i] == self.cells@[i].collapsed,
    {
        let mut r: Vec<Option<ZoneType>> = Vec::new();
        let mut k: usize = 0;
        while k < self.cells.len()
            invariant
                k <= self.cells@.len(),
                r@.len() == k,
                forall|i: int| 0 <= i < k ==> #[trigger] r@[i] == self.cells@[i].collapsed,
            decreases self.cells@.len() - k,
        {
            r.push(self.cells[k].collapsed);
            k = k + 1;
        }
        r
    }

    /// Indices of every open cell with the fewest remaining possibilities
    /// (at least one), in increasing order.
    pub fn lowest_entropy_candidates(&self) -> (r: Vec<usize>)
        ensures
            forall|a: int, b: int| 0 <= a < b < r@.len() ==> r@[a] < r@[b],
            forall|i: int| 0 <= i < r@.len() ==> lowest_entropy_candidate(self.cells@, #[trigger] r@[i] as int),
            forall|i: int| lowest_entropy_candidate(self.cells@, i) ==> #[trigger] r@.contains(i as usize),
            r@.len() == 0 <==> forall|j: int|
                0 <= j < self.cells@.len() ==> (#[trigger] self.cells@[j]).collapsed is Some
                    || self.cells@[j].possibilities@.len() == 0,
    {
        let ghost cells = self.cells@;
        let mut candidates: Vec<usize> = Vec::new();
        let mut min_entropy: usize = usize::MAX;
        let n = self.cells.len();
        let mut k: usize = 0;
        while k < n
            invariant
                n == cells.len(),
                cells == self.cells@,
                k <= n,
                forall|a: int, b: int| 0 <= a < b < candidates@.len() ==> candidates@[a] < candidates@[b],
                forall|a: int| 0 <= a < candidates@.len() ==> #[trigger] candidates@[a] < k,
                forall|a: int|
                    0 <= a < candidates@.len() ==> {
                        let j = #[trigger] candidates@[a] as int;
                        &&& cells[j].collapsed is None
                        &&& cells[j].possibilities@.len() > 0
                        &&& cells[j].possibilities@.len() == min_entropy
                    },
                forall|j: int|
                    0 <= j < k && (#[trigger] cells[j]).collapsed is None
                        && cells[j].possibilities@.len() > 0 ==> min_entropy
                        <= cells[j].possibilities@.len(),
                forall|j: int|
                    0 <= j < k && (#[trigger] cells[j]).collapsed is None
                        && cells[j].possibilities@.len() > 0 && cells[j].possibilities@.len()
                        == min_entropy ==> candidates@.contains(j as usize),
                min_entropy == usize::MAX <==> forall|j: int|
                    0 <= j < k ==> (#[trigger] cells[j]).collapsed is Some
                        || cells[j].possibilities@.len() == 0,
                min_entropy != usize::MAX ==> candidates@.len() > 0,
            decreases n - k,
        {
            let cell = &self.cells[k];
            if !cell.is_collapsed() {
                let entropy = cell.entropy();
                proof {
                    cell.possibilities.lemma_size();
                    lemma_count6_zero(cell.possibilities.mask());
                }
                if entropy != 0 {
                    if entropy < min_entropy {
                        min_entropy = entropy;
                        candidates = Vec::new();
                        candidates.push(k);
                        proof {
                            assert forall|j: int|
                                0 <= j < k + 1 && (#[trigger] cells[j]).collapsed is None
                                    && cells[j].possibilities@.len() > 0 && cells[j].possibilities@.len()
                                    == min_entropy implies candidates@.contains(j as usize) by {
                                if j < k {
                                }
                                assert(candidates@[0] == k);
                            }
                        }
                    } else if entropy == min_entropy {
                        let ghost old_c = candidates@;
                        candidates.push(k);
                        proof {
                            assert forall|j: int|
                                0 <= j < k + 1 && (#[trigger] cells[j]).collapsed is None
                                    && cells[j].possibilities@.len() > 0 && cells[j].possibilities@.len()
                                    == min_entropy implies candidates@.contains(j as usize) by {
                                if j < k {
                                    assert(old_c.contains(j as usize));
                                    let a = choose|a: int| 0 <= a < old_c.len() && old_c[a] == j as usize;
                                    assert(candidates@[a] == j as usize);
                                } else {
                                    assert(candidates@[old_c.len() as int] == k);
                                }
                            }
                        }
                    }
                }
            }
            k = k + 1;
        }
        proof {
            assert forall|i: int| lowest_entropy_candidate(cells, i) implies #[trigger] candidates@.contains(
                i as usize,
            ) by {
                if min_entropy < cells[i].possibilities@.len() {
                    let a = 0int;
                    let j = candidates@[a] as int;
                    assert(cells[i].possibilities@.len() <= cells[j].possibilities@.len());
                }
            }
            if candidates@.len() > 0 {
                let j = candidates@[0] as int;
                assert(cells[j].collapsed is None && cells[j].possibilities@.len() > 0);
            }
        }
        candidates
    }

    /// Find the cell with lowest entropy (most constrained); ties are broken
    /// at random.
    fn find_lowest_entropy(&self, rng: &mut StdRng) -> (r: Option<usize>)
        ensures
            r is None <==> forall|j: int|
                0 <= j < self.cells@.len() ==> (#[trigger] self.cells@[j]).collapsed is Some
                    || self.cells@[j].possibilities@.len() == 0,
            r matches Some(i) ==> lowest_entropy_candidate(self.cells@, i as int),
    {
        let candidates = self.lowest_entropy_candidates();
        if candidates.len() == 0 {
            None
        } else {
            let pick = random_below(rng, candidates.len());
            Some(candidates[pick])
        }
    }

    /// Collapse cell `idx` to the `pick`-th of its remaining possibilities in
    /// canonical order.
    pub fn collapse_to_choice(&mut self, idx: usize, pick: usize)
        requires
            idx < old(self).cells@.len(),
            pick < old(self).cells@[idx as int].possibilities@.len(),
        ensures
            ({
                let z = old(self).cells@[idx as int].possibilities.members()[pick as int];
                &&& old(self).cells@[idx as int].possibilities@.contains(z)
                &&& final(self).cells@[idx as int].collapsed == Some(z)
                &&& final(self).cells@[idx as int].possibilities@ == set![z]
                &&& forall|k: u8|
                    k < 6 ==> #[trigger] bit(final(self).cells@[idx as int].possibilities.mask(), k) == (k
                        == zone_index(z))
            }),
            final(self).cells@.len() == old(self).cells@.len(),
            forall|i: int|
                0 <= i < final(self).cells@.len() && i != idx ==> #[trigger] final(self).cells@[i] == old(
                    self,
                ).cells@[i],
            final(self).width == old(self).width,
            final(self).height == old(self).height,
            final(self).rules == old(self).rules,
    {
        let choices = self.cells[idx].possibilities.to_vec();
        let choice = choices[pick];
        let single = ZoneSet::single(choice);
        proof {
            old(self).cells@[idx as int].possibilities.lemma_size();
            assert(choices@.contains(choice));
            lemma_zone_index_roundtrip();
            single.lemma_size();
            assert forall|k: u8| k < 6 implies #[trigger] bit(single.mask(), k) == (k == zone_index(
                choice,
            )) by {
                assert(single@.contains(zone_at(k)) == (zone_at(k) == choice));
            }
        }
        self.cells.set(idx, WfcCell { possibilities: single, collapsed: Some(choice) });
    }

    /// Collapse a cell to one of its remaining possibilities, chosen at
    /// random. Fails, changing nothing, when the cell has no possibility left.
    fn collapse(&mut self, idx: usize, rng: &mut StdRng) -> (r: bool)
        requires
            idx < old(self).cells@.len(),
        ensures
            r == (old(self).cells@[idx as int].possibilities@.len() > 0),
            !r ==> final(self).cells@ == old(self).cells@,
            r ==> exists|z: ZoneType|
                {
                    &&& old(self).cells@[idx as int].possibilities@.contains(z)
                    &&& final(self).cells@[idx as int].collapsed == Some(z)
                    &&& final(self).cells@[idx as int].possibilities@ == set![z]
                    &&& forall|k: u8|
                        k < 6 ==> #[trigger] bit(final(self).cells@[idx as int].possibilities.mask(), k)
                            == (k == zone_index(z))
                },
            final(self).cells@.len() == old(self).cells@.len(),
            forall|i: int|
                0 <= i < final(self).cells@.len() && i != idx ==> #[trigger] final(self).cells@[i] == old(
                    self,
                ).cells@[i],
            final(self).width == old(self).width,
            final(self).height == old(self).height,
            final(self).rules == old(self).rules,
    {
        let count = self.cells[idx].possibilities.len();
        if count == 0 {
            return false;
        }
        let pick = random_below(rng, count);
        self.collapse_to_choice(idx, pick);
        true
    }

    /// Propagate constraints after a collapse: every open neighbour of a
    /// changed cell keeps only the zones that some remaining zone of that cell
    /// allows. Returns false as soon as an open cell loses its last
    /// possibility. Only zones that some neighbour rules out are removed.
    fn propagate(&mut self, start_idx: usize) -> (r: bool)
        requires
            old(self).wf(),
            start_idx < old(self).cells@.len(),
        ensures
            final(self).width == old(self).width,
            final(self).height == old(self).height,
            final(self).rules == old(self).rules,
            final(self).cells@.len() == old(self).cells@.len(),
            forall|i: int|
                0 <= i < final(self).cells@.len() ==> (#[trigger] final(self).cells@[i]).collapsed == old(
                    self,
                ).cells@[i].collapsed,
            forall|i: int|
                0 <= i < final(self).cells@.len() && old(self).cells@[i].collapsed is Some ==> (
                #[trigger] final(self).cells@[i]) == old(self).cells@[i],
            forall|i: int|
                0 <= i < final(self).cells@.len() ==> subset6(
                    #[trigger] poss_mask(final(self).cells@, i),
                    poss_mask(old(self).cells@, i),
                ),
            r && arcs_ok_except(
                old(self).width as int,
                old(self).rules,
                old(self).cells@,
                start_idx as int,
            ) ==> arcs_ok_except(final(self).width as int, final(self).rules, final(self).cells@, -1),
            !r ==> exists|i: int|
                0 <= i < final(self).cells@.len() && (#[trigger] final(self).cells@[i]).collapsed is None
                    && final(self).cells@[i].possibilities@.len() == 0,
            losses_forced(old(self).width as int, old(self).rules, old(self).cells@, final(self).cells@),
    {
        let ghost w = self.width as int;
        let ghost orig = self.cells@;
        let ghost n = orig.len() as int;
        let ghost rules = self.rules;
        let ghost good = arcs_ok_except(w, rules, orig, start_idx as int);
        let cell_count = self.cells.len();
        let mut stack: Vec<usize> = Vec::new();
        stack.push(start_idx);
        proof {
            lemma_losses_forced_refl(w, rules, orig);
            lemma_total_count_nonneg(self.cells@);
            if good {
                assert forall|i: int, j: int|
                    #[trigger] adjacent(w, n, i, j) && !stack@.contains(i as usize) implies arc_ok(
                    rules,
                    self.cells@,
                    i,
                    j,
                ) by {
                    if i == start_idx as int {
                        assert(stack@[0] == start_idx);
                    }
                }
            }
            assert forall|i: int| 0 <= i < n implies subset6(
                #[trigger] poss_mask(self.cells@, i),
                poss_mask(orig, i),
            ) by {
                lemma_subset6_and(poss_mask(orig, i), poss_mask(orig, i));
            }
        }
        while stack.len() > 0
            invariant
                self.wf(),
                self.width == old(self).width,
                self.height == old(self).height,
                self.rules == rules,
                rules == old(self).rules,
                orig == old(self).cells@,
                w == self.width as int,
                n == orig.len(),
                n == cell_count,
                self.cells@.len() == n,
                good == arcs_ok_except(w, rules, orig, start_idx as int),
                forall|i: int|
                    0 <= i < n ==> (#[trigger] self.cells@[i]).collapsed == orig[i].collapsed,
                forall|i: int|
                    0 <= i < n && orig[i].collapsed is Some ==> (#[trigger] self.cells@[i]) == orig[i],
                forall|i: int|
                    0 <= i < n ==> subset6(#[trigger] poss_mask(self.cells@, i), poss_mask(orig, i)),
                forall|a: int| 0 <= a < stack@.len() ==> #[trigger] stack@[a] < n,
                good ==> forall|i: int, j: int|
                    #[trigger] adjacent(w, n, i, j) && !stack@.contains(i as usize) ==> arc_ok(
                        rules,
                        self.cells@,
                        i,
                        j,
                    ),
                losses_forced(w, rules, orig, self.cells@),
            decreases 5 * total_count(self.cells@) + stack@.len(),
        {
            let ghost stack_before = stack@;
            let ghost measure_before = 5 * total_count(self.cells@) + stack@.len();
            let idx = stack.pop().unwrap();
            proof {
                assert(stack_before.last() == idx);
                assert(stack@ =~= stack_before.drop_last());
            }
            let (x, y) = self.coords(idx);
            let current = self.cells[idx].possibilities;
            let valid = self.rules.support_set(&current);
            let nbs = self.neighbors(x, y);
            let ghost cells0 = self.cells@;
            let ghost stack0 = stack@;
            proof {
                lemma_neighbor_coords(self.width, self.height, x, y);
                lemma_total_count_nonneg(self.cells@);
                if good {
                    assert forall|i: int, j: int|
                        #[trigger] adjacent(w, n, i, j) && !stack@.contains(i as usize) && i != idx
                            implies arc_ok(rules, self.cells@, i, j) by {
                        if stack_before.contains(i as usize) {
                            let a = choose|a: int|
                                0 <= a < stack_before.len() && stack_before[a] == i as usize;
                            if a < stack@.len() {
                                assert(stack@[a] == stack_before[a]);
                                assert(stack@.contains(i as usize));
                            } else {
                                assert(a == stack_before.len() - 1);
                                assert(stack_before[a] == idx);
                                assert(0 <= i);
                                assert(i == idx);
                            }
                        }
                        assert(!stack_before.contains(i as usize));
                    }
                }
            }
            let mut k: usize = 0;
            while k < nbs.len()
                invariant
                    self.wf(),
                    self.width == old(self).width,
                    self.height == old(self).height,
                    self.rules == rules,
                    rules == old(self).rules,
                    orig == old(self).cells@,
                    w == self.width as int,
                    n == orig.len(),
                    self.cells@.len() == n,
                    good == arcs_ok_except(w, rules, orig, start_idx as int),
                    x < self.width,
                    y < self.height,
                    idx == y * self.width + x,
                    0 <= idx < n,
                    nbs@ == neighbor_coords(self.width, self.height, x, y),
                    k <= nbs@.len(),
                    current == cells0[idx as int].possibilities,
                    self.cells@[idx as int] == cells0[idx as int],
                    valid.mask() == rules.support(current.mask()),
                    forall|m: int|
                        k <= m < nbs@.len() ==> #[trigger] self.cells@[nbs@[m].1 * self.width
                            + nbs@[m].0] == cells0[nbs@[m].1 * self.width + nbs@[m].0],
                    forall|i: int|
                        0 <= i < n ==> (#[trigger] self.cells@[i]).collapsed == orig[i].collapsed,
                    forall|i: int|
                        0 <= i < n && orig[i].collapsed is Some ==> (#[trigger] self.cells@[i])
                            == orig[i],
                    forall|i: int|
                        0 <= i < n ==> subset6(#[trigger] poss_mask(self.cells@, i), poss_mask(orig, i)),
                    stack@.len() >= stack0.len(),
                    forall|a: int| 0 <= a < stack0.len() ==> #[trigger] stack@[a] == stack0[a],
                    forall|a: int| 0 <= a < stack@.len() ==> #[trigger] stack@[a] < n,
                    5 * total_count(self.cells@) + stack@.len() <= 5 * total_count(cells0)
                        + stack0.len(),
                    measure_before == 5 * total_count(cells0) + stack0.len() + 1,
                    losses_forced(w, rules, orig, self.cells@),
                    good ==> forall|i: int, j: int|
                        #[trigger] adjacent(w, n, i, j) && !stack@.contains(i as usize) && i != idx
                            ==> arc_ok(rules, self.cells@, i, j),
                    good ==> forall|m: int|
                        0 <= m < k ==> arc_ok(
                            rules,
                            self.cells@,
                            idx as int,
                            (#[trigger] nbs@[m]).1 * self.width + nbs@[m].0,
                        ),
                decreases nbs@.len() - k,
            {
                let (nx, ny) = nbs[k];
                let nidx = self.index(nx, ny);
                let ghost cells1 = self.cells@;
                let ghost stack1 = stack@;
                proof {
                    lemma_neighbor_coords(self.width, self.height, x, y);
                    assert(nidx as int == nbs@[k as int].1 * self.width + nbs@[k as int].0);
                    assert(adjacent(w, n, idx as int, nidx as int));
                    assert(nidx != idx);
                }
                if !self.cells[nidx].is_collapsed() {
                    let old_poss = self.cells[nidx].possibilities;
                    let before = old_poss.len();
                    let new_poss = old_poss.intersect(&valid);
                    let after = new_poss.len();
                    let ghost new_cell = WfcCell { possibilities: new_poss, collapsed: None };
                    self.cells.set(nidx, WfcCell { possibilities: new_poss, collapsed: None });
                    proof {
                        old_poss.lemma_size();
                        new_poss.lemma_size();
                        lemma_count6_and(old_poss.mask(), valid.mask());
                        lemma_subset6_and(old_poss.mask(), valid.mask());
                        lemma_total_count_update(cells1, nidx as int, new_cell);
                        assert(subset6(poss_mask(cells1, nidx as int), poss_mask(orig, nidx as int)));
                        lemma_subset6_trans(
                            new_poss.mask(),
                            old_poss.mask(),
                            poss_mask(orig, nidx as int),
                        );
                    }
                    proof {
                        assert(self.cells@ == cells1.update(nidx as int, new_cell));
                        assert forall|i: int|
                            0 <= i < n implies subset6(
                            #[trigger] poss_mask(self.cells@, i),
                            poss_mask(orig, i),
                        ) by {
                            if i != nidx as int {
                                assert(poss_mask(self.cells@, i) == poss_mask(cells1, i));
                            }
                        }
                        let fin = self.cells@;
                        assert(fin[idx as int] == cells0[idx as int]);
                        assert forall|j: int, kk: u8|
                            0 <= j < fin.len() && fin[j].collapsed is None && kk < 6 && bit(
                                poss_mask(cells1, j),
                                kk,
                            ) && !#[trigger] bit(poss_mask(fin, j), kk) implies loss_forced(
                            w,
                            rules,
                            fin,
                            j,
                            kk,
                        ) by {
                            if j == nidx as int {
                                lemma_bit_and(old_poss.mask(), valid.mask(), kk);
                                assert(!bit(rules.support(poss_mask(fin, idx as int)), kk));
                                assert(adjacent(w, fin.len() as int, idx as int, j));
                            } else {
                                assert(fin[j] == cells1[j]);
                            }
                        }
                        assert forall|i: int| 0 <= i < fin.len() implies subset6(
                            #[trigger] poss_mask(fin, i),
                            poss_mask(cells1, i),
                        ) by {
                            lemma_subset6_and(poss_mask(cells1, i), poss_mask(cells1, i));
                            if i != nidx as int {
                                assert(fin[i] == cells1[i]);
                            }
                        }
                        lemma_losses_forced_trans(w, rules, orig, cells1, fin);
                    }
                    if after == 0 {
                        assert(self.cells@[nidx as int].collapsed is None
                            && self.cells@[nidx as int].possibilities@.len() == 0);
                        return false;
                    }
                    if after < before {
                        stack.push(nidx);
                    }
                    proof {
                        assert forall|a: int| 0 <= a < stack0.len() implies #[trigger] stack@[a]
                            == stack0[a] by {
                            assert(stack1[a] == stack0[a]);
                        }
                        assert forall|i: int|
                            0 <= i < n implies subset6(
                            #[trigger] poss_mask(self.cells@, i),
                            poss_mask(orig, i),
                        ) by {
                            if i != nidx as int {
                                assert(poss_mask(self.cells@, i) == poss_mask(cells1, i));
                            }
                        }
                        if !(after < before) {
                            lemma_subset6_positions(old_poss.mask(), new_poss.mask());
                            lemma_subset6_positions(new_poss.mask(), old_poss.mask());
                        }
                        if good {
                            assert forall|i: int, j: int|
                                #[trigger] adjacent(w, n, i, j) && !stack@.contains(i as usize) && i
                                    != idx implies arc_ok(rules, self.cells@, i, j) by {
                                if stack1.contains(i as usize) {
                                    let a = choose|a: int|
                                        0 <= a < stack1.len() && stack1[a] == i as usize;
                                    assert(stack@[a] == i as usize);
                                }
                                assert(!stack1.contains(i as usize));
                                assert(arc_ok(rules, cells1, i, j));
                                if i == nidx as int {
                                    assert(!(after < before)) by {
                                        if after < before {
                                            assert(stack@[stack@.len() - 1] == nidx);
                                        }
                                    }
                                    assert forall|kk: u8| kk < 6 implies bit(
                                        new_poss.mask(),
                                        kk,
                                    ) == bit(poss_mask(cells1, nidx as int), kk) by {
                                        assert(bit(old_poss.mask(), kk) ==> bit(new_poss.mask(), kk));
                                        assert(bit(new_poss.mask(), kk) ==> bit(old_poss.mask(), kk));
                                    }
                                }
                                lemma_narrowing_keeps_arc(w, rules, cells1, nidx as int, new_cell, i, j);
                            }
                            assert forall|m: int| 0 <= m < k + 1 implies arc_ok(
                                rules,
                                self.cells@,
                                idx as int,
                                (#[trigger] nbs@[m]).1 * self.width + nbs@[m].0,
                            ) by {
                                if m < k {
                                    assert(arc_ok(
                                        rules,
                                        cells1,
                                        idx as int,
                                        nbs@[m].1 * self.width + nbs@[m].0,
                                    ));
                                }
                            }
                        }
                    }
                } else {
                    proof {
                        if good {
                            assert forall|m: int| 0 <= m < k + 1 implies arc_ok(
                                rules,
                                self.cells@,
                                idx as int,
                                (#[trigger] nbs@[m]).1 * self.width + nbs@[m].0,
                            ) by {
                                if m < k {
                                    assert(arc_ok(
                                        rules,
                                        cells1,
                                        idx as int,
                                        nbs@[m].1 * self.width + nbs@[m].0,
                                    ));
                                }
                            }
                        }
                    }
                }
                k = k + 1;
            }
            proof {
                assert(5 * total_count(self.cells@) + stack@.len() < measure_before);
                lemma_total_count_nonneg(self.cells@);
                if good {
                    assert forall|i: int, j: int|
                        #[trigger] adjacent(w, n, i, j) && !stack@.contains(i as usize) implies arc_ok(
                        rules,
                        self.cells@,
                        i,
                        j,
                    ) by {
                        if i == idx as int {
                            let m = choose|m: int|
                                0 <= m < nbs@.len() && j == (#[trigger] nbs@[m]).1 as int
                                    * self.width as int + nbs@[m].0 as int;
                            assert(arc_ok(
                                rules,
                                self.cells@,
                                idx as int,
                                nbs@[m].1 * self.width + nbs@[m].0,
                            ));
                        }
                    }
                }
            }
        }
        proof {
            if good {
                assert forall|i: int, j: int|
                    #[trigger] adjacent(w, n, i, j) && i != -1 implies arc_ok(rules, self.cells@, i, j) by {
                    assert(stack@.len() == 0);
                    assert(!stack@.contains(i as usize));
                }
            }
        }
        true
    }

    /// Run the WFC algorithm to completion. Returns true when every cell has
    /// been collapsed; false when some open cell ran out of possibilities.
    /// Cells only lose zones; a zone lost by a cell that is still open at the
    /// end is ruled out by some neighbour's remaining zones, so a failure is
    /// a genuine contradiction of the rules.
    pub fn solve(&mut self, rng: &mut StdRng) -> (r: bool)
        requires
            old(self).wf(),
        ensures
            final(self).width == old(self).width,
            final(self).height == old(self).height,
            final(self).rules == old(self).rules,
            final(self).wf(),
            forall|i: int|
                0 <= i < old(self).cells@.len() && old(self).cells@[i].collapsed is Some ==> (
                #[trigger] final(self).cells@[i]) == old(self).cells@[i],
            r ==> forall|i: int|
                0 <= i < final(self).cells@.len() ==> (#[trigger] final(self).cells@[i]).collapsed is Some,
            !r ==> exists|i: int|
                0 <= i < final(self).cells@.len() && (#[trigger] final(self).cells@[i]).collapsed is None
                    && final(self).cells@[i].possibilities@.len() == 0,
            r && old(self).consistent() ==> final(self).consistent(),
            forall|i: int|
                0 <= i < final(self).cells@.len() ==> (#[trigger] final(self).cells@[i]).possibilities@.subset_of(
                    old(self).cells@[i].possibilities@,
                ),
            forall|i: int|
                0 <= i < final(self).cells@.len() && old(self).cells@[i].collapsed is None && (
                #[trigger] final(self).cells@[i]).collapsed is Some ==> old(
                    self,
                ).cells@[i].possibilities@.contains(final(self).cells@[i].collapsed->0),
            losses_forced(old(self).width as int, old(self).rules, old(self).cells@, final(self).cells@),
    {
        let ghost start = self.cells@;
        proof {
            lemma_losses_forced_refl(self.width as int, self.rules, start);
            assert forall|i: int| 0 <= i < start.len() implies subset6(
                #[trigger] poss_mask(self.cells@, i),
                poss_mask(start, i),
            ) by {
                lemma_subset6_and(poss_mask(start, i), poss_mask(start, i));
            }
        }
        let ghost was_consistent = old(self).consistent();
        loop
            invariant
                self.wf(),
                self.width == old(self).width,
                self.height == old(self).height,
                self.rules == old(self).rules,
                start == old(self).cells@,
                self.cells@.len() == start.len(),
                was_consistent == old(self).consistent(),
                forall|i: int|
                    0 <= i < start.len() && start[i].collapsed is Some ==> (#[trigger] self.cells@[i])
                        == start[i],
                was_consistent ==> self.consistent(),
                forall|i: int|
                    0 <= i < start.len() ==> subset6(#[trigger] poss_mask(self.cells@, i), poss_mask(start, i)),
                forall|i: int|
                    0 <= i < start.len() && start[i].collapsed is None && (
                    #[trigger] self.cells@[i]).collapsed is Some ==> bit(
                        poss_mask(self.cells@, i),
                        zone_index(self.cells@[i].collapsed->0),
                    ),
                losses_forced(self.width as int, self.rules, start, self.cells@),
            decreases open_cells(self.cells@),
        {
            let ghost before = self.cells@;
            match self.find_lowest_entropy(rng) {
                None => {
                    let mut k: usize = 0;
                    #[verifier::loop_isolation(false)]
                    while k < self.cells.len()
                        invariant
                            k <= self.cells@.len(),
                            forall|i: int| 0 <= i < k ==> (#[trigger] self.cells@[i]).collapsed is Some,
                        decreases self.cells@.len() - k,
                    {
                        if !self.cells[k].is_collapsed() {
                            assert(self.cells@[k as int].possibilities@.len() == 0);
                            proof {
                                lemma_narrowed_views(start, self.cells@);
                            }
                            return false;
                        }
                        k = k + 1;
                    }
                    proof {
                        lemma_narrowed_views(start, self.cells@);
                    }
                    return true;
                },
                Some(idx) => {
                    proof {
                        self.cells@[idx as int].possibilities.lemma_size();
                    }
                    if !self.collapse(idx, rng) {
                        proof {
                            lemma_narrowed_views(start, self.cells@);
                        }
                        return false;
                    }
                    let ghost collapsed_cells = self.cells@;
                    proof {
                        let z = collapsed_cells[idx as int].collapsed->0;
                        lemma_zone_index_roundtrip();
                        assert(bit(poss_mask(before, idx as int), zone_index(z))) by {
                            before[idx as int].possibilities.lemma_size();
                        }
                        assert forall|k: u8|
                            k < 6 && bit(poss_mask(collapsed_cells, idx as int), k) implies bit(
                            poss_mask(before, idx as int),
                            k,
                        ) by {
                            assert(bit(collapsed_cells[idx as int].possibilities.mask(), k) == (k
                                == zone_index(z)));
                        }
                        lemma_subset6_positions(poss_mask(collapsed_cells, idx as int), poss_mask(before, idx as int));
                        assert forall|i: int| 0 <= i < start.len() implies subset6(
                            #[trigger] poss_mask(collapsed_cells, i),
                            poss_mask(before, i),
                        ) by {
                            if i != idx as int {
                                assert(collapsed_cells[i] == before[i]);
                                lemma_subset6_and(poss_mask(before, i), poss_mask(before, i));
                            }
                        }
                        assert forall|i: int| 0 <= i < start.len() implies subset6(
                            #[trigger] poss_mask(collapsed_cells, i),
                            poss_mask(start, i),
                        ) by {
                            lemma_subset6_trans(
                                poss_mask(collapsed_cells, i),
                                poss_mask(before, i),
                                poss_mask(start, i),
                            );
                        }
                        assert forall|j: int, kk: u8|
                            0 <= j < collapsed_cells.len() && collapsed_cells[j].collapsed is None && kk < 6
                                && bit(poss_mask(before, j), kk) && !#[trigger] bit(
                                poss_mask(collapsed_cells, j),
                                kk,
                            ) implies loss_forced(
                            self.width as int,
                            self.rules,
                            collapsed_cells,
                            j,
                            kk,
                        ) by {
                            assert(collapsed_cells[j] == before[j]);
                        }
                        lemma_losses_forced_trans(
                            self.width as int,
                            self.rules,
                            start,
                            before,
                            collapsed_cells,
                        );
                        assert forall|i: int|
                            0 <= i < start.len() && start[i].collapsed is None && (
                            #[trigger] collapsed_cells[i]).collapsed is Some implies bit(
                            poss_mask(collapsed_cells, i),
                            zone_index(collapsed_cells[i].collapsed->0),
                        ) by {
                            if i != idx as int {
                                assert(collapsed_cells[i] == before[i]);
                            }
                        }
                        lemma_open_cells_update(before, idx as int, collapsed_cells[idx as int]);
                        assert(collapsed_cells =~= before.update(idx as int, collapsed_cells[idx as int]));
                        lemma_open_cells_nonneg(collapsed_cells);
                        if was_consistent {
                            let z = collapsed_cells[idx as int].collapsed->0;
                            lemma_collapse_keeps_consistency(
                                self.width as int,
                                self.rules,
                                before,
                                collapsed_cells,
                                idx as int,
                                z,
                            );
                        }
                    }
                    let propagated = self.propagate(idx);
                    proof {
                        assert forall|i: int| 0 <= i < start.len() implies subset6(
                            #[trigger] poss_mask(self.cells@, i),
                            poss_mask(start, i),
                        ) by {
                            lemma_subset6_trans(
                                poss_mask(self.cells@, i),
                                poss_mask(collapsed_cells, i),
                                poss_mask(start, i),
                            );
                        }
                        assert forall|i: int|
                            0 <= i < start.len() && start[i].collapsed is None && (
                            #[trigger] self.cells@[i]).collapsed is Some implies bit(
                            poss_mask(self.cells@, i),
                            zone_index(self.cells@[i].collapsed->0),
                        ) by {
                            assert(self.cells@[i] == collapsed_cells[i]);
                        }
                        lemma_losses_forced_trans(
                            self.width as int,
                            self.rules,
                            start,
                            collapsed_cells,
                            self.cells@,
                        );
                    }
                    if !propagated {
                        proof {
                            lemma_narrowed_views(start, self.cells@);
                        }
                        return false;
                    }
                    proof {
                        lemma_open_cells_same_flags(self.cells@, collapsed_cells);
                        if was_consistent {
                            lemma_narrowing_keeps_collapsed(
                                self.width as int,
                                self.rules,
                                collapsed_cells,
                                self.cells@,
                            );
                        }
                    }
                },
            }
        }
    }
}

/// Forced losses compose: losses forced from `base` to `mid` stay forced
/// when every cell narrows further to `fin`, since a neighbour with fewer
/// zones allows no more.
proof fn lemma_losses_forced_trans(
    w: int,
    rules: AdjacencyRules,
    base: Seq<WfcCell>,
    mid: Seq<WfcCell>,
    fin: Seq<WfcCell>,
)
    requires
        mid.len() == base.len(),
        fin.len() == base.len(),
        losses_forced(w, rules, base, mid),
        losses_forced(w, rules, mid, fin),
        forall|i: int| 0 <= i < fin.len() ==> subset6(#[trigger] poss_mask(fin, i), poss_mask(mid, i)),
        forall|j: int| 0 <= j < fin.len() && (#[trigger] fin[j]).collapsed is None ==> mid[j].collapsed is None,
    ensures
        losses_forced(w, rules, base, fin),
{
    assert forall|j: int, k: u8|
        0 <= j < fin.len() && fin[j].collapsed is None && k < 6 && bit(poss_mask(base, j), k)
            && !#[trigger] bit(poss_mask(fin, j), k) implies loss_forced(w, rules, fin, j, k) by {
        assert(mid[j].collapsed is None);
        if !bit(poss_mask(mid, j), k) {
            assert(loss_forced(w, rules, mid, j, k));
            let i = choose|i: int|
                #[trigger] adjacent(w, mid.len() as int, i, j) && !bit(rules.support(poss_mask(mid, i)), k);
            rules.lemma_support_monotone(poss_mask(fin, i), poss_mask(mid, i), k);
            assert(adjacent(w, fin.len() as int, i, j));
        }
    }
}

/// Nothing is lost between a grid and itself.
proof fn lemma_losses_forced_refl(w: int, rules: AdjacencyRules, cells: Seq<WfcCell>)
    ensures
        losses_forced(w, rules, cells, cells),
{
}

/// Cells whose masks only lost positions, and whose newly collapsed zone is
/// still a set position, only lost zones: every remaining possibility, and
/// every newly chosen zone, was possible at the start.
proof fn lemma_narrowed_views(start: Seq<WfcCell>, cells: Seq<WfcCell>)
    requires
        cells.len() == start.len(),
        forall|i: int| 0 <= i < start.len() ==> subset6(#[trigger] poss_mask(cells, i), poss_mask(start, i)),
        forall|i: int|
            0 <= i < start.len() && start[i].collapsed is None && (#[trigger] cells[i]).collapsed is Some
                ==> bit(poss_mask(cells, i), zone_index(cells[i].collapsed->0)),
    ensures
        forall|i: int|
            0 <= i < cells.len() ==> (#[trigger] cells[i]).possibilities@.subset_of(start[i].possibilities@),
        forall|i: int|
            0 <= i < cells.len() && start[i].collapsed is None && (#[trigger] cells[i]).collapsed is Some
                ==> start[i].possibilities@.contains(cells[i].collapsed->0),
{
    lemma_zone_index_roundtrip();
    assert forall|i: int| 0 <= i < cells.len() implies (#[trigger] cells[i]).possibilities@.subset_of(
        start[i].possibilities@,
    ) by {
        cells[i].possibilities.lemma_size();
        start[i].possibilities.lemma_size();
        lemma_subset6_positions(poss_mask(cells, i), poss_mask(start, i));
        assert forall|z: ZoneType| cells[i].possibilities@.contains(z) implies start[i].possibilities@.contains(
            z,
        ) by {
            assert(zone_index(z) < 6);
        }
    }
    assert forall|i: int|
        0 <= i < cells.len() && start[i].collapsed is None && (#[trigger] cells[i]).collapsed is Some implies start[i].possibilities@.contains(
        cells[i].collapsed->0,
    ) by {
        let z = cells[i].collapsed->0;
        cells[i].possibilities.lemma_size();
        start[i].possibilities.lemma_size();
        lemma_subset6_positions(poss_mask(cells, i), poss_mask(start, i));
        assert(zone_index(z) < 6);
    }
}

/// After a successful solve from a consistent state, every pair of
/// neighbouring cells holds zones allowed next to each other; under the
/// default rules, which are symmetric, in both directions.
pub proof fn lemma_solved_grid_respects_rules(solver: WfcSolver, i: int, j: int)
    requires
        solver.consistent(),
        forall|k: int| 0 <= k < solver.cells@.len() ==> (#[trigger] solver.cells@[k]).collapsed is Some,
        forall|s: ZoneType, n: ZoneType| #[trigger] solver.rules.allows(s, n) == default_allowed(s, n),
        adjacent(solver.width as int, solver.cells@.len() as int, i, j),
    ensures
        default_allowed(solver.cells@[i].collapsed->0, solver.cells@[j].collapsed->0),
        default_allowed(solver.cells@[j].collapsed->0, solver.cells@[i].collapsed->0),
{
    lemma_default_rules_symmetric(solver.cells@[i].collapsed->0, solver.cells@[j].collapsed->0);
}

} // verus!
