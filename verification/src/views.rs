//! Non-owning value families.
use vstd::prelude::*;

use crate::arena::TypeArena;
use crate::ids::{AllocationSiteId, BuiltinTypeId, LifetimeId, TypeId};
use crate::kinds::PrimitiveType;
use crate::semantic::{SemanticType, SemanticTypeView};

verus! {

/// The only public non-owning value families.
#[derive(Clone, Copy, Debug, PartialEq, Eq, Structural, Hash, PartialOrd, Ord)]
pub enum ViewKind {
    Bytes,
    Text,
}

impl ViewKind {
    /// The built-in type constructor of the view family.
    pub fn type_definition(self) -> (r: BuiltinTypeId)
        ensures
            r.0 == match self {
                ViewKind::Bytes => 122u32,
                ViewKind::Text => 123u32,
            },
    {
        match self {
            ViewKind::Bytes => BuiltinTypeId(122),
            ViewKind::Text => BuiltinTypeId(123),
        }
    }
}

/// Stable provenance of the immutable storage designated by a view.
#[derive(Clone, Copy, Debug, PartialEq, Eq, Hash, PartialOrd, Ord)]
pub enum ViewLenderProvenance {
    Allocation { site: AllocationSiteId },
    Parameter { index: u32 },
    Constant { fingerprint: [u8; 32] },
}

/// One compiler-proven view value's lender and non-lexical borrow identity.
#[derive(Clone, Copy, Debug, PartialEq, Eq, Hash, PartialOrd, Ord)]
pub struct ViewBorrow {
    lender: ViewLenderProvenance,
    lifetime: LifetimeId,
}

impl ViewBorrow {
    pub closed spec fn spec_lender(self) -> ViewLenderProvenance {
        self.lender
    }

    pub closed spec fn spec_lifetime(self) -> LifetimeId {
        self.lifetime
    }

    pub fn new(lender: ViewLenderProvenance, lifetime: LifetimeId) -> (r: Self)
        ensures
            r.spec_lender() == lender,
            r.spec_lifetime() == lifetime,
    {
        ViewBorrow { lender, lifetime }
    }

    pub fn lender(self) -> (r: ViewLenderProvenance)
        ensures
            r == self.spec_lender(),
    {
        self.lender
    }

    pub fn lifetime(self) -> (r: LifetimeId)
        ensures
            r == self.spec_lifetime(),
    {
        self.lifetime
    }
}

/// The 64-bit FNV-1a hash of `bytes` started from `seed`.
pub open spec fn fnv1a(bytes: Seq<u8>, seed: u64) -> u64
    decreases bytes.len(),
{
    if bytes.len() == 0 {
        seed
    } else {
        let h = fnv1a(bytes.drop_last(), seed) ^ (bytes.last() as u64);
        ((h as nat * 0x100_0000_01b3nat) % 0x1_0000_0000_0000_0000nat) as u64
    }
}

/// Quarter `q` of the fingerprint of a view constant: the hash from the
/// FNV offset basis mixed with `q`.
pub open spec fn fingerprint_quarter(bytes: Seq<u8>, q: u64) -> u64 {
    fnv1a(bytes, 0xcbf2_9ce4_8422_2325u64 ^ q)
}

/// Byte `k` (most significant first) of the big-endian encoding of `x`.
pub open spec fn big_endian_byte(x: u64, k: int) -> u8 {
    ((x >> ((8 * (7 - k)) as u64)) & 0xff) as u8
}

/// The 32-byte fingerprint of a view constant's bytes: four FNV-1a hashes,
/// the `q`-th started from the offset basis mixed with `q`, each written
/// big-endian.
pub fn view_constant_fingerprint(bytes: &[u8]) -> (r: [u8; 32])
    ensures
        forall|j: int| 0 <= j < 32 ==> #[trigger] r[j] == big_endian_byte(fingerprint_quarter(bytes@, (j / 8) as u64), j % 8),
{
    let mut result = [0u8; 32];
    let mut quarter: u64 = 0;
    while quarter < 4
        invariant
            quarter <= 4,
            forall|j: int| 0 <= j < 8 * quarter ==> #[trigger] result[j] == big_endian_byte(fingerprint_quarter(bytes@, (j / 8) as u64), j % 8),
        decreases 4 - quarter,
    {
        let seed: u64 = 0xcbf2_9ce4_8422_2325u64 ^ quarter;
        let mut hash: u64 = seed;
        let mut i: usize = 0;
        while i < bytes.len()
            invariant
                i <= bytes@.len(),
                hash == fnv1a(bytes@.take(i as int), seed),
            decreases bytes.len() - i,
        {
            proof {
                assert(bytes@.take(i as int + 1).drop_last() =~= bytes@.take(i as int));
            }
            hash = (hash ^ (bytes[i] as u64)).wrapping_mul(0x0000_0100_0000_01b3);
            i = i + 1;
        }
        proof {
            assert(bytes@.take(bytes@.len() as int) =~= bytes@);
        }
        let start: usize = (quarter as usize) * 8;
        let mut k: usize = 0;
        while k < 8
            invariant
                k <= 8,
                quarter < 4,
                start == quarter * 8,
                hash == fingerprint_quarter(bytes@, quarter),
                forall|j: int| 0 <= j < 8 * quarter ==> #[trigger] result[j] == big_endian_byte(fingerprint_quarter(bytes@, (j / 8) as u64), j % 8),
                forall|j: int| 8 * quarter <= j < 8 * quarter + k ==> #[trigger] result[j] == big_endian_byte(fingerprint_quarter(bytes@, (j / 8) as u64), j % 8),
            decreases 8 - k,
        {
            let shift: u64 = 8 * (7 - k as u64);
            result[start + k] = ((hash >> shift) & 0xff) as u8;
            k = k + 1;
        }
        quarter = quarter + 1;
    }
    result
}

/// Whether values of `type_id` can lend views: `String`, and the built-in
/// `Bytes` type (whose constructor is `bytes`, when the schema has one)
/// without arguments.
pub open spec fn lends_views(types: Seq<SemanticTypeView>, bytes: Option<BuiltinTypeId>, type_id: TypeId) -> bool {
    (type_id.0 as int) < types.len() && ({
        ||| types[type_id.0 as int] == SemanticTypeView::Primitive(PrimitiveType::String)
        ||| bytes matches Some(b) && types[type_id.0 as int] == SemanticTypeView::Builtin {
            definition: b,
            arguments: Seq::empty(),
        }
    })
}

/// Whether values of `type_id` can lend views; `bytes` is the constructor
/// of the built-in `Bytes` type, when the schema has one.
pub fn type_is_view_lender(arena: &TypeArena, bytes: Option<BuiltinTypeId>, type_id: TypeId) -> (r: bool)
    ensures
        r == lends_views(arena.types(), bytes, type_id),
{
    match arena.get(type_id) {
        Some(SemanticType::Primitive(PrimitiveType::String)) => true,
        Some(SemanticType::Builtin { definition, arguments }) => match bytes {
            Some(b) => {
                let r = *definition == b && arguments.len() == 0;
                proof {
                    if r {
                        assert(arguments@ =~= Seq::<TypeId>::empty());
                    }
                }
                r
            },
            None => false,
        },
        _ => false,
    }
}

} // verus!
