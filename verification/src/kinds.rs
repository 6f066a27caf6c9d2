//! The closed primitive type vocabulary.
use vstd::prelude::*;

use crate::text::str_eq;

verus! {

/// One fixed-width integer kind of the language.
#[derive(Clone, Copy, Debug, PartialEq, Eq, Structural, Hash, PartialOrd, Ord)]
pub enum IntegerKind {
    Int8,
    Int16,
    Int32,
    Int64,
    UInt8,
    UInt16,
    UInt32,
    UInt64,
}

/// What happens when an integer operation leaves its kind's range.
#[derive(Clone, Copy, Debug, PartialEq, Eq, Structural)]
pub enum IntegerOverflow {
    Trap,
    WrapExplicitly,
}

impl IntegerKind {
    /// Number of bits of the kind.
    pub open spec fn width(self) -> nat {
        match self {
            IntegerKind::Int8 | IntegerKind::UInt8 => 8,
            IntegerKind::Int16 | IntegerKind::UInt16 => 16,
            IntegerKind::Int32 | IntegerKind::UInt32 => 32,
            IntegerKind::Int64 | IntegerKind::UInt64 => 64,
        }
    }

    /// Whether the kind is two's-complement signed.
    pub open spec fn signed_kind(self) -> bool {
        match self {
            IntegerKind::Int8 | IntegerKind::Int16 | IntegerKind::Int32 | IntegerKind::Int64 => true,
            _ => false,
        }
    }

    /// `2^width`: the number of distinct bit patterns of the kind.
    pub open spec fn modulus(self) -> int {
        match self {
            IntegerKind::Int8 | IntegerKind::UInt8 => 0x100,
            IntegerKind::Int16 | IntegerKind::UInt16 => 0x1_0000,
            IntegerKind::Int32 | IntegerKind::UInt32 => 0x1_0000_0000,
            IntegerKind::Int64 | IntegerKind::UInt64 => 0x1_0000_0000_0000_0000,
        }
    }

    /// Smallest value representable by the kind.
    pub open spec fn min_value(self) -> int {
        if self.signed_kind() {
            -(self.modulus() / 2)
        } else {
            0
        }
    }

    /// Largest value representable by the kind.
    pub open spec fn max_value(self) -> int {
        if self.signed_kind() {
            self.modulus() / 2 - 1
        } else {
            self.modulus() - 1
        }
    }

    /// Whether `value` is representable by the kind.
    pub open spec fn holds(self, value: int) -> bool {
        self.min_value() <= value <= self.max_value()
    }

    pub fn bit_width(self) -> (r: u16)
        ensures
            r == self.width(),
    {
        match self {
            IntegerKind::Int8 | IntegerKind::UInt8 => 8,
            IntegerKind::Int16 | IntegerKind::UInt16 => 16,
            IntegerKind::Int32 | IntegerKind::UInt32 => 32,
            IntegerKind::Int64 | IntegerKind::UInt64 => 64,
        }
    }

    pub fn is_signed(self) -> (r: bool)
        ensures
            r == self.signed_kind(),
    {
        match self {
            IntegerKind::Int8 | IntegerKind::Int16 | IntegerKind::Int32 | IntegerKind::Int64 => true,
            _ => false,
        }
    }

    /// Every integer kind traps on overflow unless wrapping is asked for explicitly.
    pub fn default_overflow(self) -> (r: IntegerOverflow)
        ensures
            r == IntegerOverflow::Trap,
    {
        IntegerOverflow::Trap
    }
}

/// The primitive types of the language.
#[derive(Clone, Copy, Debug, PartialEq, Eq, Structural, Hash, PartialOrd, Ord)]
pub enum PrimitiveType {
    Nil,
    Boolean,
    Integer(IntegerKind),
    Float32,
    Float64,
    String,
    Never,
}

/// One source spelling of a primitive type and the canonical name it stands for.
#[derive(Clone, Copy, Debug, PartialEq, Eq)]
pub struct PrimitiveSchemaEntry {
    source_name: &'static str,
    canonical_name: &'static str,
    primitive: PrimitiveType,
}

/// The primitive schema in declaration order: source spelling, canonical name, type.
pub open spec fn primitive_schema() -> Seq<(Seq<char>, Seq<char>, PrimitiveType)> {
    seq![
        ("nil"@, "nil"@, PrimitiveType::Nil),
        ("Boolean"@, "Boolean"@, PrimitiveType::Boolean),
        ("Int8"@, "Int8"@, PrimitiveType::Integer(IntegerKind::Int8)),
        ("Int16"@, "Int16"@, PrimitiveType::Integer(IntegerKind::Int16)),
        ("Int32"@, "Int32"@, PrimitiveType::Integer(IntegerKind::Int32)),
        ("Int64"@, "Int64"@, PrimitiveType::Integer(IntegerKind::Int64)),
        ("UInt8"@, "UInt8"@, PrimitiveType::Integer(IntegerKind::UInt8)),
        ("UInt16"@, "UInt16"@, PrimitiveType::Integer(IntegerKind::UInt16)),
        ("UInt32"@, "UInt32"@, PrimitiveType::Integer(IntegerKind::UInt32)),
        ("UInt64"@, "UInt64"@, PrimitiveType::Integer(IntegerKind::UInt64)),
        ("Int"@, "Int64"@, PrimitiveType::Integer(IntegerKind::Int64)),
        ("Float32"@, "Float32"@, PrimitiveType::Float32),
        ("Float64"@, "Float64"@, PrimitiveType::Float64),
        ("Float"@, "Float64"@, PrimitiveType::Float64),
        ("Byte"@, "UInt8"@, PrimitiveType::Integer(IntegerKind::UInt8)),
        ("String"@, "String"@, PrimitiveType::String),
        ("Never"@, "Never"@, PrimitiveType::Never),
    ]
}

/// Whether `i` is the first schema position spelled `name`.
pub open spec fn first_schema_match(name: Seq<char>, i: int) -> bool {
    &&& 0 <= i < primitive_schema().len()
    &&& primitive_schema()[i].0 == name
    &&& forall|j: int| 0 <= j < i ==> primitive_schema()[j].0 != name
}

/// The primitive spelled `name` in source, taken from its first schema entry.
pub open spec fn primitive_for_source_name(name: Seq<char>) -> Option<PrimitiveType> {
    if exists|i: int| first_schema_match(name, i) {
        Some(primitive_schema()[choose|i: int| first_schema_match(name, i)].2)
    } else {
        None
    }
}

impl PrimitiveSchemaEntry {
    /// The entry as (source spelling, canonical name, type).
    pub closed spec fn view(self) -> (Seq<char>, Seq<char>, PrimitiveType) {
        (self.source_name@, self.canonical_name@, self.primitive)
    }

    pub fn source_name(self) -> (r: &'static str)
        ensures
            r@ == self@.0,
    {
        self.source_name
    }

    pub fn canonical_name(self) -> (r: &'static str)
        ensures
            r@ == self@.1,
    {
        self.canonical_name
    }

    pub fn primitive(self) -> (r: PrimitiveType)
        ensures
            r == self@.2,
    {
        self.primitive
    }

    /// Whether the source spelling differs from the canonical name.
    pub fn is_alias(self) -> (r: bool)
        ensures
            r == (self@.0 != self@.1),
    {
        !str_eq(self.source_name, self.canonical_name)
    }
}

fn schema_entry(
    source_name: &'static str,
    canonical_name: &'static str,
    primitive: PrimitiveType,
) -> (r: PrimitiveSchemaEntry)
    ensures
        r@ == (source_name@, canonical_name@, primitive),
{
    PrimitiveSchemaEntry { source_name, canonical_name, primitive }
}

impl PrimitiveType {
    /// The whole primitive schema, in order.
    pub fn source_schema() -> (r: Vec<PrimitiveSchemaEntry>)
        ensures
            r@.len() == primitive_schema().len(),
            forall|i: int| 0 <= i < r@.len() ==> #[trigger] r@[i]@ == primitive_schema()[i],
    {
        let mut v: Vec<PrimitiveSchemaEntry> = Vec::new();
        v.push(schema_entry("nil", "nil", PrimitiveType::Nil));
        v.push(schema_entry("Boolean", "Boolean", PrimitiveType::Boolean));
        v.push(schema_entry("Int8", "Int8", PrimitiveType::Integer(IntegerKind::Int8)));
        v.push(schema_entry("Int16", "Int16", PrimitiveType::Integer(IntegerKind::Int16)));
        v.push(schema_entry("Int32", "Int32", PrimitiveType::Integer(IntegerKind::Int32)));
        v.push(schema_entry("Int64", "Int64", PrimitiveType::Integer(IntegerKind::Int64)));
        v.push(schema_entry("UInt8", "UInt8", PrimitiveType::Integer(IntegerKind::UInt8)));
        v.push(schema_entry("UInt16", "UInt16", PrimitiveType::Integer(IntegerKind::UInt16)));
        v.push(schema_entry("UInt32", "UInt32", PrimitiveType::Integer(IntegerKind::UInt32)));
        v.push(schema_entry("UInt64", "UInt64", PrimitiveType::Integer(IntegerKind::UInt64)));
        v.push(schema_entry("Int", "Int64", PrimitiveType::Integer(IntegerKind::Int64)));
        v.push(schema_entry("Float32", "Float32", PrimitiveType::Float32));
        v.push(schema_entry("Float64", "Float64", PrimitiveType::Float64));
        v.push(schema_entry("Float", "Float64", PrimitiveType::Float64));
        v.push(schema_entry("Byte", "UInt8", PrimitiveType::Integer(IntegerKind::UInt8)));
        v.push(schema_entry("String", "String", PrimitiveType::String));
        v.push(schema_entry("Never", "Never", PrimitiveType::Never));
        assert(v@.map_values(|e: PrimitiveSchemaEntry| e@) =~= primitive_schema());
        assert forall|i: int| 0 <= i < v@.len() implies #[trigger] v@[i]@ == primitive_schema()[i] by {
            assert(v@.map_values(|e: PrimitiveSchemaEntry| e@)[i] == v@[i]@);
        }
        v
    }

    /// The primitive type that a source spelling names, if any.
    pub fn from_source_name(name: &str) -> (r: Option<PrimitiveType>)
        ensures
            r == primitive_for_source_name(name@),
    {
        let schema = Self::source_schema();
        let mut i: usize = 0;
        while i < schema.len()
            invariant
                schema@.len() == primitive_schema().len(),
                forall|k: int| 0 <= k < schema@.len() ==> #[trigger] schema@[k]@ == primitive_schema()[k],
                i <= schema@.len(),
                forall|j: int| 0 <= j < i ==> primitive_schema()[j].0 != name@,
            decreases schema.len() - i,
        {
            let entry = schema[i];
            if str_eq(entry.source_name(), name) {
                proof {
                    assert(schema@[i as int]@ == primitive_schema()[i as int]);
                    assert(first_schema_match(name@, i as int));
                    let c = choose|k: int| first_schema_match(name@, k);
                    if c < i {
                        assert(primitive_schema()[c].0 != name@);
                    }
                    if c > i {
                        assert(primitive_schema()[i as int].0 != name@);
                    }
                }
                return Some(entry.primitive());
            }
            proof {
                assert(schema@[i as int]@ == primitive_schema()[i as int]);
            }
            i = i + 1;
        }
        proof {
            if exists|k: int| first_schema_match(name@, k) {
                let c = choose|k: int| first_schema_match(name@, k);
                assert(primitive_schema()[c].0 != name@);
            }
        }
        None
    }
}

} // verus!
