//! Stable numeric identities of the semantic model.
use vstd::prelude::*;

verus! {

/// Index of one interned semantic type inside a [`crate::TypeArena`].
#[derive(Clone, Copy, Debug, PartialEq, Eq, Structural, Hash, PartialOrd, Ord)]
pub struct TypeId(pub u32);

impl TypeId {
    pub fn from_raw(raw: u32) -> (r: Self)
        ensures r.0 == raw,
    {
        TypeId(raw)
    }

    pub fn raw(self) -> (r: u32)
        ensures r == self.0,
    {
        self.0
    }
}

/// Identity of one class declaration.
#[derive(Clone, Copy, Debug, PartialEq, Eq, Structural, Hash, PartialOrd, Ord)]
pub struct ClassId(pub u32);

/// Identity of one interface declaration.
#[derive(Clone, Copy, Debug, PartialEq, Eq, Structural, Hash, PartialOrd, Ord)]
pub struct InterfaceId(pub u32);

/// Identity of one generic type parameter.
#[derive(Clone, Copy, Debug, PartialEq, Eq, Structural, Hash, PartialOrd, Ord)]
pub struct ParameterId(pub u32);

/// Identity of one resolved declaration.
#[derive(Clone, Copy, Debug, PartialEq, Eq, Structural, Hash, PartialOrd, Ord)]
pub struct SymbolId(pub u32);

/// Identity of one error-union declaration.
#[derive(Clone, Copy, Debug, PartialEq, Eq, Structural, Hash, PartialOrd, Ord)]
pub struct ErrorId(pub u32);

/// Identity of one user-defined attribute declaration.
#[derive(Clone, Copy, Debug, PartialEq, Eq, Structural, Hash, PartialOrd, Ord)]
pub struct AttributeId(pub u32);

/// Identity of one opaque type.
#[derive(Clone, Copy, Debug, PartialEq, Eq, Structural, Hash, PartialOrd, Ord)]
pub struct OpaqueId(pub u32);

/// Identity of one field of a record or class.
#[derive(Clone, Copy, Debug, PartialEq, Eq, Structural, Hash, PartialOrd, Ord)]
pub struct FieldId(pub u32);

/// Identity of one function declaration.
#[derive(Clone, Copy, Debug, PartialEq, Eq, Structural, Hash, PartialOrd, Ord)]
pub struct FunctionId(pub u32);

/// Identity of one independently compiled unit ("Bubble").
#[derive(Clone, Copy, Debug, PartialEq, Eq, Structural, Hash, PartialOrd, Ord)]
pub struct BubbleId(pub u32);

/// Stable compiler-known identity of one bootstrap type constructor.
#[derive(Clone, Copy, Debug, PartialEq, Eq, Structural, Hash, PartialOrd, Ord)]
pub struct BuiltinTypeId(pub u32);

impl BuiltinTypeId {
    pub fn from_raw(raw: u32) -> (r: Self)
        ensures r.0 == raw,
    {
        BuiltinTypeId(raw)
    }

    pub fn raw(self) -> (r: u32)
        ensures r == self.0,
    {
        self.0
    }
}

/// Identity of one case of a closed enum.
#[derive(Clone, Copy, Debug, PartialEq, Eq, Structural, Hash, PartialOrd, Ord)]
pub struct EnumCaseId(pub u32);

/// Identity of one case of the iteration result protocol.
#[derive(Clone, Copy, Debug, PartialEq, Eq, Structural, Hash, PartialOrd, Ord)]
pub struct IterationCaseId(pub u32);

/// Identity of one method of the iteration protocol.
#[derive(Clone, Copy, Debug, PartialEq, Eq, Structural, Hash, PartialOrd, Ord)]
pub struct IterationProtocolMethodId(pub u32);

/// Identity of one standard-library function.
#[derive(Clone, Copy, Debug, PartialEq, Eq, Structural, Hash, PartialOrd, Ord)]
pub struct StandardFunctionId(pub u32);

/// A declaration identity that stays stable across independent compilation.
#[derive(Clone, Copy, Debug, PartialEq, Eq, Structural, Hash, PartialOrd, Ord)]
pub struct SymbolIdentity {
    pub bubble: BubbleId,
    pub symbol: SymbolId,
}

/// Byte range of one source construct.
#[derive(Clone, Copy, Debug, PartialEq, Eq, Structural, Hash, PartialOrd, Ord)]
pub struct SourceSpan {
    pub start: u32,
    pub end: u32,
}

/// Identity of one allocation site of a checked body.
#[derive(Clone, Copy, Debug, PartialEq, Eq, Structural, Hash, PartialOrd, Ord)]
pub struct AllocationSiteId(pub u32);

/// Identity of one non-lexical view borrow.
#[derive(Clone, Copy, Debug, PartialEq, Eq, Structural, Hash, PartialOrd, Ord)]
pub struct LifetimeId(pub u32);

/// Identity of one module of the resolved program.
#[derive(Clone, Copy, Debug, PartialEq, Eq, Structural, Hash, PartialOrd, Ord)]
pub struct ModuleId(pub u32);

/// A copy of a vector of plain values.
pub fn copy_vec<T: Copy>(v: &Vec<T>) -> (r: Vec<T>)
    ensures
        r@ == v@,
{
    let mut r: Vec<T> = Vec::new();
    let mut i: usize = 0;
    while i < v.len()
        invariant
            i <= v@.len(),
            r@ == v@.take(i as int),
        decreases v.len() - i,
    {
        r.push(v[i]);
        i = i + 1;
        assert(r@ =~= v@.take(i as int));
    }
    assert(v@.take(i as int) =~= v@);
    r
}

} // verus!
