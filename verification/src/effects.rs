//! Closed effect summaries carried by callable types.
use vstd::prelude::*;

verus! {

/// One observable effect a callable may have.
#[derive(Clone, Copy, Debug, PartialEq, Eq, Structural, Hash, PartialOrd, Ord)]
pub enum Effect {
    Allocates,
    WritesManagedReference,
    Synchronizes,
    MayTrap,
    MayUnwind,
    Suspends,
    Blocks,
    UnsafeMemory,
    ForeignFunction,
    AmbientIo,
    CompilerQuery,
    GcSafePoint,
    Roots,
}

/// Bit position of each effect inside a summary, in declaration order.
pub open spec fn effect_index(effect: Effect) -> u16 {
    match effect {
        Effect::Allocates => 0,
        Effect::WritesManagedReference => 1,
        Effect::Synchronizes => 2,
        Effect::MayTrap => 3,
        Effect::MayUnwind => 4,
        Effect::Suspends => 5,
        Effect::Blocks => 6,
        Effect::UnsafeMemory => 7,
        Effect::ForeignFunction => 8,
        Effect::AmbientIo => 9,
        Effect::CompilerQuery => 10,
        Effect::GcSafePoint => 11,
        Effect::Roots => 12,
    }
}

/// Whether bit `i` of `bits` is set.
pub open spec fn bit_set(bits: u16, i: u16) -> bool {
    (bits >> i) & 1u16 == 1u16
}

/// Number of distinct effects; summaries only ever use bits below it.
pub open spec fn effect_count() -> u16 {
    13
}

proof fn lemma_effect_index_injective(a: Effect, b: Effect)
    ensures
        effect_index(a) == effect_index(b) ==> a == b,
        effect_index(a) < 13,
{
}

proof fn lemma_bit_or_single(a: u16, i: u16, j: u16)
    by (bit_vector)
    requires
        i < 16,
        j < 16,
    ensures
        bit_set(a | (1u16 << i), j) == (bit_set(a, j) || i == j),
{
}

proof fn lemma_bit_or(a: u16, b: u16, j: u16)
    by (bit_vector)
    requires
        j < 16,
    ensures
        bit_set(a | b, j) == (bit_set(a, j) || bit_set(b, j)),
{
}

proof fn lemma_bit_and_single(a: u16, i: u16)
    by (bit_vector)
    requires
        i < 16,
    ensures
        (a & (1u16 << i) != 0u16) == bit_set(a, i),
{
}

proof fn lemma_bit_zero(j: u16)
    by (bit_vector)
    requires
        j < 16,
    ensures
        !bit_set(0u16, j),
{
}

proof fn lemma_bit_subset(a: u16, b: u16)
    by (bit_vector)
    requires
        a < 8192u16,
        b < 8192u16,
    ensures
        (a & !b == 0u16) == ((bit_set(a, 0) ==> bit_set(b, 0)) && (bit_set(a, 1) ==> bit_set(b, 1))
            && (bit_set(a, 2) ==> bit_set(b, 2)) && (bit_set(a, 3) ==> bit_set(b, 3)) && (bit_set(
            a,
            4,
        ) ==> bit_set(b, 4)) && (bit_set(a, 5) ==> bit_set(b, 5)) && (bit_set(a, 6) ==> bit_set(
            b,
            6,
        )) && (bit_set(a, 7) ==> bit_set(b, 7)) && (bit_set(a, 8) ==> bit_set(b, 8)) && (bit_set(
            a,
            9,
        ) ==> bit_set(b, 9)) && (bit_set(a, 10) ==> bit_set(b, 10)) && (bit_set(a, 11) ==> bit_set(
            b,
            11,
        )) && (bit_set(a, 12) ==> bit_set(b, 12))),
{
}

proof fn lemma_bits_extensional(a: u16, b: u16)
    by (bit_vector)
    requires
        a < 8192u16,
        b < 8192u16,
        bit_set(a, 0) == bit_set(b, 0),
        bit_set(a, 1) == bit_set(b, 1),
        bit_set(a, 2) == bit_set(b, 2),
        bit_set(a, 3) == bit_set(b, 3),
        bit_set(a, 4) == bit_set(b, 4),
        bit_set(a, 5) == bit_set(b, 5),
        bit_set(a, 6) == bit_set(b, 6),
        bit_set(a, 7) == bit_set(b, 7),
        bit_set(a, 8) == bit_set(b, 8),
        bit_set(a, 9) == bit_set(b, 9),
        bit_set(a, 10) == bit_set(b, 10),
        bit_set(a, 11) == bit_set(b, 11),
        bit_set(a, 12) == bit_set(b, 12),
    ensures
        a == b,
{
}

proof fn lemma_or_low(a: u16, b: u16)
    by (bit_vector)
    requires
        a < 8192u16,
        b < 8192u16,
    ensures
        a | b < 8192u16,
{
}

proof fn lemma_single_low(i: u16)
    by (bit_vector)
    requires
        i < 13,
    ensures
        (1u16 << i) < 8192u16,
{
}

proof fn lemma_mask_low(a: u16)
    by (bit_vector)
    ensures
        (a & !8191u16 == 0u16) == (a < 8192u16),
{
}

/// The set of effects of a callable, as a 13-bit mask.
#[derive(Clone, Copy, Debug, PartialEq, Eq, Structural, Hash, PartialOrd, Ord)]
pub struct EffectSummary(u16);

impl Effect {
    /// The mask bit of the effect.
    pub fn bit(self) -> (r: u16)
        ensures
            r == 1u16 << effect_index(self),
    {
        let index: u16 = match self {
            Effect::Allocates => 0,
            Effect::WritesManagedReference => 1,
            Effect::Synchronizes => 2,
            Effect::MayTrap => 3,
            Effect::MayUnwind => 4,
            Effect::Suspends => 5,
            Effect::Blocks => 6,
            Effect::UnsafeMemory => 7,
            Effect::ForeignFunction => 8,
            Effect::AmbientIo => 9,
            Effect::CompilerQuery => 10,
            Effect::GcSafePoint => 11,
            Effect::Roots => 12,
        };
        1u16 << index
    }
}

impl EffectSummary {
    #[verifier::type_invariant]
    closed spec fn low(self) -> bool {
        self.0 < 8192u16
    }

    /// The raw mask.
    pub closed spec fn mask(self) -> u16 {
        self.0
    }

    /// The effects in the summary.
    pub closed spec fn view(self) -> Set<Effect> {
        Set::new(|e: Effect| bit_set(self.0, effect_index(e)))
    }

    proof fn lemma_view_bits(self)
        ensures
            self@.contains(Effect::Allocates) == bit_set(self.0, 0),
            self@.contains(Effect::WritesManagedReference) == bit_set(self.0, 1),
            self@.contains(Effect::Synchronizes) == bit_set(self.0, 2),
            self@.contains(Effect::MayTrap) == bit_set(self.0, 3),
            self@.contains(Effect::MayUnwind) == bit_set(self.0, 4),
            self@.contains(Effect::Suspends) == bit_set(self.0, 5),
            self@.contains(Effect::Blocks) == bit_set(self.0, 6),
            self@.contains(Effect::UnsafeMemory) == bit_set(self.0, 7),
            self@.contains(Effect::ForeignFunction) == bit_set(self.0, 8),
            self@.contains(Effect::AmbientIo) == bit_set(self.0, 9),
            self@.contains(Effect::CompilerQuery) == bit_set(self.0, 10),
            self@.contains(Effect::GcSafePoint) == bit_set(self.0, 11),
            self@.contains(Effect::Roots) == bit_set(self.0, 12),
    {
    }

    /// Two summaries with the same mask are the same summary.
    pub proof fn lemma_mask_determines(self, other: Self)
        requires
            self.mask() == other.mask(),
        ensures
            self == other,
    {
    }

    /// Two summaries with the same effects are the same summary.
    pub proof fn lemma_view_determines(self, other: Self)
        requires
            self.mask() < 8192,
            other.mask() < 8192,
            self@ == other@,
        ensures
            self == other,
    {
        let a = self.0;
        let b = other.0;
        self.lemma_view_bits();
        other.lemma_view_bits();
        lemma_bits_extensional(a, b);
    }

    pub fn empty() -> (r: Self)
        ensures
            r@ == Set::<Effect>::empty(),
            r.mask() == 0,
    {
        let r = EffectSummary(0);
        assert forall|e: Effect| !r@.contains(e) by {
            lemma_bit_zero(effect_index(e));
        }
        assert(r@ =~= Set::<Effect>::empty());
        r
    }

    /// The summary with one more effect.
    pub fn with(self, effect: Effect) -> (r: Self)
        ensures
            r@ == self@.insert(effect),
            r.mask() == self.mask() | (1u16 << effect_index(effect)),
    {
        proof {
            use_type_invariant(&self);
            lemma_single_low(effect_index(effect));
            lemma_or_low(self.0, 1u16 << effect_index(effect));
        }
        let r = EffectSummary(self.0 | effect.bit());
        assert forall|e: Effect| #[trigger] r@.contains(e) == self@.insert(effect).contains(e) by {
            lemma_bit_or_single(self.0, effect_index(effect), effect_index(e));
            lemma_effect_index_injective(e, effect);
        }
        assert(r@ =~= self@.insert(effect));
        r
    }

    /// The summary holding the effects of both.
    pub fn union(self, other: Self) -> (r: Self)
        ensures
            r@ == self@.union(other@),
            r.mask() == self.mask() | other.mask(),
    {
        proof {
            use_type_invariant(&self);
            use_type_invariant(&other);
            lemma_or_low(self.0, other.0);
        }
        let r = EffectSummary(self.0 | other.0);
        assert forall|e: Effect| #[trigger] r@.contains(e) == self@.union(other@).contains(e) by {
            lemma_effect_index_injective(e, e);
            lemma_bit_or(self.0, other.0, effect_index(e));
        }
        assert(r@ =~= self@.union(other@));
        r
    }

    /// Whether every effect of `self` is an effect of `other`.
    pub fn is_subset_of(self, other: Self) -> (r: bool)
        ensures
            r == self@.subset_of(other@),
    {
        proof {
            use_type_invariant(&self);
            use_type_invariant(&other);
            lemma_bit_subset(self.0, other.0);
            self.lemma_view_bits();
            other.lemma_view_bits();
        }
        self.0 & !other.0 == 0
    }

    /// Whether the summary has `effect`.
    pub fn contains(self, effect: Effect) -> (r: bool)
        ensures
            r == self@.contains(effect),
    {
        proof {
            lemma_bit_and_single(self.0, effect_index(effect));
        }
        self.0 & effect.bit() != 0
    }

    /// The raw mask of the summary.
    pub fn bits(self) -> (r: u16)
        ensures
            r == self.mask(),
            r < 8192,
    {
        proof {
            use_type_invariant(&self);
        }
        self.0
    }

    /// The summary with mask `bits`, when no bit beyond the known effects is set.
    pub fn from_bits(bits: u16) -> (r: Option<Self>)
        ensures
            r is Some <==> bits < 8192,
            r matches Some(s) ==> s.mask() == bits,
    {
        let supported: u16 = 8191;
        proof {
            lemma_mask_low(bits);
        }
        if bits & !supported == 0 {
            Some(EffectSummary(bits))
        } else {
            None
        }
    }
}

} // verus!

verus! {

impl Default for EffectSummary {
    /// No effects.
    fn default() -> (r: Self)
        ensures
            r@ == Set::<Effect>::empty(),
    {
        EffectSummary::empty()
    }
}

} // verus!
