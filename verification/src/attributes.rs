//! User-defined attributes: constant values, where an attribute may be
//! attached, and the validation of a target's attachments.
use vstd::prelude::*;

use crate::ids::{AttributeId, FunctionId, SourceSpan, SymbolId, TypeId};
use crate::numeric::{FloatValue, IntegerValue};
use crate::attribute_arguments::{constant_view, AttributeParameterDefinition, ConstantView};

verus! {

/// A compile-time constant carried by an attribute argument.
#[derive(Debug)]
pub enum AttributeConstant {
    Nil,
    Boolean(bool),
    Integer(IntegerValue),
    Float(FloatValue),
    String(String),
    Tuple(Vec<AttributeConstant>),
}

/// The closed set of source targets that can carry an attribute: every
/// item kind and the file-scoped namespace declaration, which stays
/// distinct from declarations that merely live at namespace scope.
#[derive(Clone, Copy, Debug, PartialEq, Eq, Structural, Hash, PartialOrd, Ord)]
pub enum AttributeTarget {
    Namespace,
    Function,
    Constant,
    TypeAlias,
    Attribute,
    Record,
    Union,
    Class,
    Interface,
    Enum,
    Field,
    Case,
    Method,
}

/// The position of a target in declaration order, which is its order.
pub open spec fn target_rank(t: AttributeTarget) -> int {
    match t {
        AttributeTarget::Namespace => 0,
        AttributeTarget::Function => 1,
        AttributeTarget::Constant => 2,
        AttributeTarget::TypeAlias => 3,
        AttributeTarget::Attribute => 4,
        AttributeTarget::Record => 5,
        AttributeTarget::Union => 6,
        AttributeTarget::Class => 7,
        AttributeTarget::Interface => 8,
        AttributeTarget::Enum => 9,
        AttributeTarget::Field => 10,
        AttributeTarget::Case => 11,
        AttributeTarget::Method => 12,
    }
}

/// Distinct targets have distinct positions.
pub proof fn lemma_rank_injective(a: AttributeTarget, b: AttributeTarget)
    requires
        target_rank(a) == target_rank(b),
    ensures
        a == b,
{
}

/// Every target, in declaration order.
pub open spec fn all_targets() -> Seq<AttributeTarget> {
    seq![
        AttributeTarget::Namespace,
        AttributeTarget::Function,
        AttributeTarget::Constant,
        AttributeTarget::TypeAlias,
        AttributeTarget::Attribute,
        AttributeTarget::Record,
        AttributeTarget::Union,
        AttributeTarget::Class,
        AttributeTarget::Interface,
        AttributeTarget::Enum,
        AttributeTarget::Field,
        AttributeTarget::Case,
        AttributeTarget::Method,
    ]
}

/// Sorted by declaration order and free of duplicates.
pub open spec fn targets_ascending(s: Seq<AttributeTarget>) -> bool {
    forall|i: int, j: int| 0 <= i < j < s.len() ==> target_rank(#[trigger] s[i]) < target_rank(#[trigger] s[j])
}

impl AttributeTarget {
    /// Every target, in declaration order.
    pub fn all() -> (r: Vec<Self>)
        ensures
            r@ == all_targets(),
    {
        let mut v: Vec<Self> = Vec::new();
        v.push(AttributeTarget::Namespace);
        v.push(AttributeTarget::Function);
        v.push(AttributeTarget::Constant);
        v.push(AttributeTarget::TypeAlias);
        v.push(AttributeTarget::Attribute);
        v.push(AttributeTarget::Record);
        v.push(AttributeTarget::Union);
        v.push(AttributeTarget::Class);
        v.push(AttributeTarget::Interface);
        v.push(AttributeTarget::Enum);
        v.push(AttributeTarget::Field);
        v.push(AttributeTarget::Case);
        v.push(AttributeTarget::Method);
        assert(v@ =~= all_targets());
        v
    }

    fn rank(self) -> (r: u8)
        ensures
            r == target_rank(self),
    {
        match self {
            AttributeTarget::Namespace => 0,
            AttributeTarget::Function => 1,
            AttributeTarget::Constant => 2,
            AttributeTarget::TypeAlias => 3,
            AttributeTarget::Attribute => 4,
            AttributeTarget::Record => 5,
            AttributeTarget::Union => 6,
            AttributeTarget::Class => 7,
            AttributeTarget::Interface => 8,
            AttributeTarget::Enum => 9,
            AttributeTarget::Field => 10,
            AttributeTarget::Case => 11,
            AttributeTarget::Method => 12,
        }
    }
}

/// The canonical target and repeatability policy of one attribute.
#[derive(Debug)]
pub struct AttributeUsage {
    targets: Vec<AttributeTarget>,
    repeatable: bool,
}

impl AttributeUsage {
    #[verifier::type_invariant]
    closed spec fn canonical(&self) -> bool {
        targets_ascending(self.targets@)
    }

    /// (allowed targets in declaration order, repeatable).
    pub closed spec fn view(&self) -> (Seq<AttributeTarget>, bool) {
        (self.targets@, self.repeatable)
    }

    /// A policy for the given targets, sorted and without duplicates.
    pub fn new(targets: Vec<AttributeTarget>, repeatable: bool) -> (r: Self)
        ensures
            targets_ascending(r@.0),
            forall|t: AttributeTarget| r@.0.contains(t) <==> targets@.contains(t),
            r@.1 == repeatable,
    {
        let mut out: Vec<AttributeTarget> = Vec::new();
        let mut i: usize = 0;
        while i < targets.len()
            invariant
                i <= targets@.len(),
                targets_ascending(out@),
                forall|t: AttributeTarget| out@.contains(t) <==> targets@.take(i as int).contains(t),
            decreases targets.len() - i,
        {
            let x = targets[i];
            let ghost before = out@;
            let mut pos: usize = 0;
            while pos < out.len()
                invariant
                    pos <= out@.len(),
                    before == out@,
                    forall|k: int| 0 <= k < pos ==> target_rank(#[trigger] before[k]) < target_rank(x),
                ensures
                    pos <= out@.len(),
                    before == out@,
                    forall|k: int| 0 <= k < pos ==> target_rank(#[trigger] before[k]) < target_rank(x),
                    pos < out@.len() ==> target_rank(before[pos as int]) >= target_rank(x),
                decreases out.len() - pos,
            {
                if out[pos].rank() >= x.rank() {
                    break;
                }
                pos = pos + 1;
            }
            let ghost nxt = targets@.take(i + 1);
            let ghost prev = targets@.take(i as int);
            proof {
                assert(nxt =~= prev.push(x));
            }
            if pos < out.len() && out[pos].rank() == x.rank() {
                proof {
                    lemma_rank_injective(out@[pos as int], x);
                    assert(out@[pos as int] == x);
                    assert forall|t: AttributeTarget| out@.contains(t) <==> nxt.contains(t) by {
                        if nxt.contains(t) {
                            let k = choose|k: int| 0 <= k < nxt.len() && nxt[k] == t;
                            if k == i {
                                assert(out@[pos as int] == t);
                            } else {
                                assert(prev[k] == t);
                            }
                        }
                        if out@.contains(t) {
                            assert(prev.contains(t));
                            let k = choose|k: int| 0 <= k < prev.len() && prev[k] == t;
                            assert(nxt[k] == t);
                        }
                    }
                }
            } else {
                out.insert(pos, x);
                proof {
                    assert(out@ =~= before.insert(pos as int, x));
                    assert forall|a: int, b: int| 0 <= a < b < out@.len() implies target_rank(#[trigger] out@[a])
                        < target_rank(#[trigger] out@[b]) by {
                        if b < pos {
                        } else if b == pos {
                        } else if a < pos {
                            assert(out@[b] == before[b - 1]);
                        } else if a == pos {
                            assert(out@[b] == before[b - 1]);
                        } else {
                            assert(out@[a] == before[a - 1]);
                            assert(out@[b] == before[b - 1]);
                        }
                    }
                    assert forall|t: AttributeTarget| out@.contains(t) <==> nxt.contains(t) by {
                        if out@.contains(t) {
                            let k = choose|k: int| 0 <= k < out@.len() && out@[k] == t;
                            if k < pos {
                                assert(before[k] == t);
                                assert(before.contains(t));
                                assert(prev.contains(t));
                                let m = choose|m: int| 0 <= m < prev.len() && prev[m] == t;
                                assert(nxt[m] == t);
                            } else if k > pos {
                                assert(before[k - 1] == t);
                                assert(before.contains(t));
                                assert(prev.contains(t));
                                let m = choose|m: int| 0 <= m < prev.len() && prev[m] == t;
                                assert(nxt[m] == t);
                            } else {
                                assert(nxt[i as int] == t);
                            }
                        }
                        if nxt.contains(t) {
                            let k = choose|k: int| 0 <= k < nxt.len() && nxt[k] == t;
                            if k == i {
                                assert(out@[pos as int] == t);
                            } else {
                                assert(prev[k] == t);
                                assert(before.contains(t));
                                let m = choose|m: int| 0 <= m < before.len() && before[m] == t;
                                if m < pos {
                                    assert(out@[m] == t);
                                } else {
                                    assert(out@[m + 1] == t);
                                }
                            }
                        }
                    }
                }
            }
            i = i + 1;
        }
        proof {
            assert(targets@.take(targets@.len() as int) =~= targets@);
        }
        AttributeUsage { targets: out, repeatable }
    }

    /// The allowed targets, in declaration order.
    pub fn targets(&self) -> (r: &[AttributeTarget])
        ensures
            r@ == self@.0,
            targets_ascending(r@),
    {
        proof {
            use_type_invariant(self);
        }
        self.targets.as_slice()
    }

    /// Whether the attribute may be attached to `target`.
    pub fn allows(&self, target: AttributeTarget) -> (r: bool)
        ensures
            r == self@.0.contains(target),
    {
        proof {
            use_type_invariant(self);
        }
        let mut low: usize = 0;
        let mut high: usize = self.targets.len();
        let key = target.rank();
        while low < high
            invariant
                low <= high <= self.targets@.len(),
                key == target_rank(target),
                targets_ascending(self.targets@),
                forall|k: int| 0 <= k < low ==> target_rank(#[trigger] self.targets@[k]) < key,
                forall|k: int| high <= k < self.targets@.len() ==> target_rank(#[trigger] self.targets@[k]) > key,
            decreases high - low,
        {
            let mid = low + (high - low) / 2;
            let here = self.targets[mid].rank();
            if here == key {
                proof {
                    lemma_rank_injective(self.targets@[mid as int], target);
                }
                return true;
            } else if here < key {
                proof {
                    assert forall|k: int| 0 <= k < mid + 1 implies target_rank(#[trigger] self.targets@[k]) < key by {
                        if k < mid {
                            assert(target_rank(self.targets@[k]) < target_rank(self.targets@[mid as int]));
                        }
                    }
                }
                low = mid + 1;
            } else {
                proof {
                    assert forall|k: int| mid <= k < self.targets@.len() implies target_rank(#[trigger] self.targets@[k]) > key by {
                        if k > mid {
                            assert(target_rank(self.targets@[mid as int]) < target_rank(self.targets@[k]));
                        }
                    }
                }
                high = mid;
            }
        }
        proof {
            if self.targets@.contains(target) {
                let k = choose|k: int| 0 <= k < self.targets@.len() && self.targets@[k] == target;
                assert(target_rank(self.targets@[k]) == key);
            }
        }
        false
    }

    pub fn is_repeatable(&self) -> (r: bool)
        ensures
            r == self@.1,
    {
        self.repeatable
    }
}

impl Default for AttributeUsage {
    /// The restrictive default: namespaces only, not repeatable.
    fn default() -> (r: Self)
        ensures
            r@ == (seq![AttributeTarget::Namespace], false),
    {
        let mut targets: Vec<AttributeTarget> = Vec::new();
        targets.push(AttributeTarget::Namespace);
        AttributeUsage { targets, repeatable: false }
    }
}

/// An already-resolved validator function.
#[derive(Clone, Copy, Debug, PartialEq, Eq, Structural, Hash, PartialOrd, Ord)]
pub struct AttributeValidator {
    function: FunctionId,
}

impl AttributeValidator {
    pub closed spec fn view(self) -> FunctionId {
        self.function
    }

    pub fn new(function: FunctionId) -> (r: Self)
        ensures
            r@ == function,
    {
        AttributeValidator { function }
    }

    pub fn function(self) -> (r: FunctionId)
        ensures
            r == self@,
    {
        self.function
    }
}

/// Why installing an attribute's usage or validator was refused.
#[derive(Clone, Copy, Debug, PartialEq, Eq, Structural)]
pub enum AttributeContractError {
    UnknownDefinition { definition: SymbolId },
    UsageAlreadySpecified { definition: SymbolId },
    ValidatorAlreadySpecified { definition: SymbolId, original: FunctionId },
}

/// Why an attachment was refused.
#[derive(Clone, Copy, Debug, PartialEq, Eq, Structural)]
pub enum AttributeAttachmentError {
    UnknownAttribute { attribute: AttributeId, span: SourceSpan },
    WrongTarget { attribute: AttributeId, target: AttributeTarget, span: SourceSpan },
    NonRepeatableDuplicate { attribute: AttributeId, first: SourceSpan, duplicate: SourceSpan },
}

/// A compile-time query operand after ordinary resolution.
#[derive(Clone, Copy, Debug, PartialEq, Eq, Structural, Hash, PartialOrd, Ord)]
pub enum AttributeQuerySubject {
    Symbol(SymbolId),
    Type(TypeId),
}

/// One argument of a resolved attribute use.
#[derive(Debug)]
pub struct ResolvedAttributeArgument {
    name: String,
    value: AttributeConstant,
    value_type: TypeId,
    origin: SourceSpan,
    defaulted: bool,
}

impl ResolvedAttributeArgument {
    /// (name, value type, origin, defaulted).
    pub closed spec fn view(&self) -> (Seq<char>, TypeId, SourceSpan, bool) {
        (self.name@, self.value_type, self.origin, self.defaulted)
    }

    /// The value of the argument.
    pub closed spec fn spec_value(&self) -> &AttributeConstant {
        &self.value
    }

    pub fn new(
        name: String,
        value: AttributeConstant,
        value_type: TypeId,
        origin: SourceSpan,
        defaulted: bool,
    ) -> (r: Self)
        ensures
            r@ == (name@, value_type, origin, defaulted),
            *r.spec_value() == value,
    {
        ResolvedAttributeArgument { name, value, value_type, origin, defaulted }
    }

    pub fn name(&self) -> (r: &str)
        ensures
            r@ == self@.0,
    {
        self.name.as_str()
    }

    pub fn value(&self) -> (r: &AttributeConstant)
        ensures
            r == self.spec_value(),
    {
        &self.value
    }

    pub fn value_type(&self) -> (r: TypeId)
        ensures
            r == self@.1,
    {
        self.value_type
    }

    pub fn origin(&self) -> (r: SourceSpan)
        ensures
            r == self@.2,
    {
        self.origin
    }

    pub fn is_defaulted(&self) -> (r: bool)
        ensures
            r == self@.3,
    {
        self.defaulted
    }
}

/// One resolved attribute use.
#[derive(Debug)]
pub struct ResolvedAttribute {
    attribute: AttributeId,
    definition: SymbolId,
    arguments: Vec<ResolvedAttributeArgument>,
    span: SourceSpan,
}

impl ResolvedAttribute {
    /// (attribute, definition, span).
    pub closed spec fn view(&self) -> (AttributeId, SymbolId, SourceSpan) {
        (self.attribute, self.definition, self.span)
    }

    /// The arguments, in parameter order.
    pub closed spec fn spec_arguments(&self) -> Seq<ResolvedAttributeArgument> {
        self.arguments@
    }

    pub fn new(
        attribute: AttributeId,
        definition: SymbolId,
        arguments: Vec<ResolvedAttributeArgument>,
        span: SourceSpan,
    ) -> (r: Self)
        ensures
            r@ == (attribute, definition, span),
            r.spec_arguments() == arguments@,
    {
        ResolvedAttribute { attribute, definition, arguments, span }
    }

    pub fn attribute(&self) -> (r: AttributeId)
        ensures
            r == self@.0,
    {
        self.attribute
    }

    pub fn definition(&self) -> (r: SymbolId)
        ensures
            r == self@.1,
    {
        self.definition
    }

    pub fn arguments(&self) -> (r: &[ResolvedAttributeArgument])
        ensures
            r@ == self.spec_arguments(),
    {
        self.arguments.as_slice()
    }

    pub fn span(&self) -> (r: SourceSpan)
        ensures
            r == self@.2,
    {
        self.span
    }
}

/// The (attribute, span) of each attachment.
pub open spec fn attachment_keys(v: Seq<ResolvedAttribute>) -> Seq<(AttributeId, SourceSpan)> {
    v.map_values(|a: ResolvedAttribute| (a@.0, a@.2))
}

/// A target's validated attributes in their source order.
#[derive(Debug)]
pub struct AttributeAttachmentSet {
    attachments: Vec<ResolvedAttribute>,
}

impl AttributeAttachmentSet {
    /// The attachments, in source order.
    pub closed spec fn view(&self) -> Seq<ResolvedAttribute> {
        self.attachments@
    }

    pub fn attachments(&self) -> (r: &[ResolvedAttribute])
        ensures
            r@ == self@,
    {
        self.attachments.as_slice()
    }

    /// The attachments of one attribute, in source order.
    pub fn attributes(&self, attribute: AttributeId) -> (r: Vec<&ResolvedAttribute>)
        ensures
            r@.len() == attachments_of(self@, attribute).len(),
            forall|k: int| 0 <= k < r@.len() ==> *(#[trigger] r@[k]) == attachments_of(self@, attribute)[k],
    {
        let ghost all = self@;
        let mut out: Vec<&ResolvedAttribute> = Vec::new();
        let mut i: usize = 0;
        while i < self.attachments.len()
            invariant
                i <= self.attachments@.len(),
                all == self.attachments@,
                out@.len() == attachments_of(all.take(i as int), attribute).len(),
                forall|k: int| 0 <= k < out@.len() ==> *(#[trigger] out@[k]) == attachments_of(all.take(i as int), attribute)[k],
            decreases self.attachments.len() - i,
        {
            let a = &self.attachments[i];
            proof {
                assert(all.take(i + 1).drop_last() =~= all.take(i as int));
                assert(all.take(i + 1).last() == *a);
            }
            if a.attribute == attribute {
                out.push(a);
            }
            i = i + 1;
        }
        assert(all.take(i as int) =~= all);
        out
    }
}

/// The attachments of one attribute, in order.
pub open spec fn attachments_of(v: Seq<ResolvedAttribute>, attribute: AttributeId) -> Seq<ResolvedAttribute>
    decreases v.len(),
{
    if v.len() == 0 {
        Seq::empty()
    } else {
        let rest = attachments_of(v.drop_last(), attribute);
        if v.last()@.0 == attribute {
            rest.push(v.last())
        } else {
            rest
        }
    }
}

/// The outcome of validating a target's attachments: the attachment set
/// when nothing was refused, and every refusal in source order.
#[derive(Debug)]
pub struct AttributeAttachmentResult {
    attachment_set: Option<AttributeAttachmentSet>,
    errors: Vec<AttributeAttachmentError>,
}

impl AttributeAttachmentResult {
    /// (attachments accepted as a set, if any; refusals).
    pub closed spec fn view(&self) -> (Option<Seq<ResolvedAttribute>>, Seq<AttributeAttachmentError>) {
        (
            match self.attachment_set {
                Some(s) => Some(s@),
                None => None,
            },
            self.errors@,
        )
    }

    pub fn attachment_set(&self) -> (r: Option<&AttributeAttachmentSet>)
        ensures
            match r {
                Some(s) => self@.0 == Some(s@),
                None => self@.0 is None,
            },
    {
        match &self.attachment_set {
            Some(s) => Some(s),
            None => None,
        }
    }

    /// The accepted attachment set, taken out of the result.
    pub fn into_attachment_set(self) -> (r: Option<AttributeAttachmentSet>)
        ensures
            match r {
                Some(s) => self@.0 == Some(s@),
                None => self@.0 is None,
            },
    {
        self.attachment_set
    }

    pub fn errors(&self) -> (r: &[AttributeAttachmentError])
        ensures
            r@ == self@.1,
    {
        self.errors.as_slice()
    }
}

/// One nominal attribute definition: its identity, declaration, usage
/// policy, whether the policy was given explicitly, and its validator.
#[derive(Debug)]
pub struct AttributeDefinition {
    attribute: AttributeId,
    symbol: SymbolId,
    parameters: Vec<AttributeParameterDefinition>,
    usage: AttributeUsage,
    explicit_usage: bool,
    validator: Option<AttributeValidator>,
    span: SourceSpan,
}

/// The content of an attribute definition.
pub struct AttributeDefinitionView {
    pub attribute: AttributeId,
    pub symbol: SymbolId,
    pub usage: (Seq<AttributeTarget>, bool),
    pub explicit_usage: bool,
    pub validator: Option<FunctionId>,
    pub span: SourceSpan,
}

impl AttributeDefinition {
    pub closed spec fn view(&self) -> AttributeDefinitionView {
        AttributeDefinitionView {
            attribute: self.attribute,
            symbol: self.symbol,
            usage: self.usage@,
            explicit_usage: self.explicit_usage,
            validator: match self.validator {
                Some(v) => Some(v@),
                None => None,
            },
            span: self.span,
        }
    }

    pub fn attribute(&self) -> (r: AttributeId)
        ensures
            r == self@.attribute,
    {
        self.attribute
    }

    /// The declared parameters, in declaration order.
    pub closed spec fn spec_parameters(&self) -> Seq<AttributeParameterDefinition> {
        self.parameters@
    }

    pub fn parameters(&self) -> (r: &[AttributeParameterDefinition])
        ensures
            r@ == self.spec_parameters(),
    {
        self.parameters.as_slice()
    }

    pub fn symbol(&self) -> (r: SymbolId)
        ensures
            r == self@.symbol,
    {
        self.symbol
    }

    pub fn usage(&self) -> (r: &AttributeUsage)
        ensures
            r@ == self@.usage,
    {
        &self.usage
    }

    pub fn has_explicit_usage(&self) -> (r: bool)
        ensures
            r == self@.explicit_usage,
    {
        self.explicit_usage
    }

    pub fn validator(&self) -> (r: Option<AttributeValidator>)
        ensures
            match r {
                Some(v) => self@.validator == Some(v@),
                None => self@.validator is None,
            },
    {
        self.validator
    }

    pub fn span(&self) -> (r: SourceSpan)
        ensures
            r == self@.span,
    {
        self.span
    }
}

} // verus!

verus! {

/// The first definition with this declaration symbol, if any.
pub open spec fn definition_with_symbol(s: Seq<AttributeDefinitionView>, symbol: SymbolId) -> Option<AttributeDefinitionView>
    decreases s.len(),
{
    if s.len() == 0 {
        None
    } else if s[0].symbol == symbol {
        Some(s[0])
    } else {
        definition_with_symbol(s.drop_first(), symbol)
    }
}

/// The first definition of this attribute, if any.
pub open spec fn definition_for_attribute(s: Seq<AttributeDefinitionView>, attribute: AttributeId) -> Option<AttributeDefinitionView>
    decreases s.len(),
{
    if s.len() == 0 {
        None
    } else if s[0].attribute == attribute {
        Some(s[0])
    } else {
        definition_for_attribute(s.drop_first(), attribute)
    }
}

/// The span of the first attachment of this attribute, if any.
pub open spec fn first_span_of(atts: Seq<(AttributeId, SourceSpan)>, attribute: AttributeId) -> Option<SourceSpan>
    decreases atts.len(),
{
    if atts.len() == 0 {
        None
    } else if atts[0].0 == attribute {
        Some(atts[0].1)
    } else {
        first_span_of(atts.drop_first(), attribute)
    }
}

/// What attachment `i` is refused for, if anything: an unknown attribute,
/// a target its usage does not allow, or a second use of a non-repeatable
/// attribute (naming the first).
pub open spec fn attachment_error(
    defs: Seq<AttributeDefinitionView>,
    target: AttributeTarget,
    atts: Seq<(AttributeId, SourceSpan)>,
    i: int,
) -> Option<AttributeAttachmentError> {
    let (attribute, span) = atts[i];
    match definition_for_attribute(defs, attribute) {
        None => Some(AttributeAttachmentError::UnknownAttribute { attribute, span }),
        Some(d) => if !d.usage.0.contains(target) {
            Some(AttributeAttachmentError::WrongTarget { attribute, target, span })
        } else {
            match first_span_of(atts.take(i), attribute) {
                Some(first) => if !d.usage.1 {
                    Some(AttributeAttachmentError::NonRepeatableDuplicate { attribute, first, duplicate: span })
                } else {
                    None
                },
                None => None,
            }
        },
    }
}

/// The refusals of the first `n` attachments, in order.
pub open spec fn attachment_errors(
    defs: Seq<AttributeDefinitionView>,
    target: AttributeTarget,
    atts: Seq<(AttributeId, SourceSpan)>,
    n: int,
) -> Seq<AttributeAttachmentError>
    decreases n,
{
    if n <= 0 {
        Seq::empty()
    } else {
        let before = attachment_errors(defs, target, atts, n - 1);
        match attachment_error(defs, target, atts, n - 1) {
            Some(e) => before.push(e),
            None => before,
        }
    }
}

/// The attribute definitions of a compilation, keyed by declaration symbol
/// and kept in symbol order.
#[derive(Debug)]
pub struct AttributeDefinitions {
    definitions: Vec<AttributeDefinition>,
}

/// The contents of definitions.
pub open spec fn definition_views(v: Seq<AttributeDefinition>) -> Seq<AttributeDefinitionView> {
    v.map_values(|d: AttributeDefinition| d@)
}

/// Symbols strictly ascending, so each symbol is defined once.
pub open spec fn symbols_ascending(s: Seq<AttributeDefinitionView>) -> bool {
    forall|i: int, j: int| 0 <= i < j < s.len() ==> (#[trigger] s[i]).symbol.0 < (#[trigger] s[j]).symbol.0
}

/// The position of the definition with this symbol.
pub open spec fn symbol_position(s: Seq<AttributeDefinitionView>, symbol: SymbolId) -> int {
    choose|i: int| 0 <= i < s.len() && s[i].symbol == symbol
}

proof fn lemma_definition_with_symbol(s: Seq<AttributeDefinitionView>, symbol: SymbolId, p: int)
    requires
        0 <= p <= s.len(),
        forall|k: int| 0 <= k < p ==> (#[trigger] s[k]).symbol != symbol,
        p < s.len() ==> s[p].symbol == symbol,
    ensures
        definition_with_symbol(s, symbol) == if p < s.len() {
            Some(s[p])
        } else {
            None::<AttributeDefinitionView>
        },
    decreases s.len(),
{
    if s.len() > 0 && p > 0 {
        assert forall|k: int| 0 <= k < p - 1 implies (#[trigger] s.drop_first()[k]).symbol != symbol by {
            assert(s.drop_first()[k] == s[k + 1]);
        }
        if p < s.len() {
            assert(s.drop_first()[p - 1] == s[p]);
        }
        lemma_definition_with_symbol(s.drop_first(), symbol, p - 1);
    }
}

/// In symbol order, a symbol stands at one position only.
proof fn lemma_symbol_position(s: Seq<AttributeDefinitionView>, symbol: SymbolId, p: int)
    requires
        symbols_ascending(s),
        0 <= p < s.len(),
        s[p].symbol == symbol,
    ensures
        symbol_position(s, symbol) == p,
{
    let c = symbol_position(s, symbol);
    assert(0 <= c < s.len() && s[c].symbol == symbol);
    if c < p {
        assert(s[c].symbol.0 < s[p].symbol.0);
    } else if c > p {
        assert(s[p].symbol.0 < s[c].symbol.0);
    }
}

impl AttributeDefinitions {
    /// The parameters declared by the definition at `symbol`, if there is one.
    pub closed spec fn parameters_of(&self, symbol: SymbolId) -> Option<Seq<AttributeParameterDefinition>> {
        if exists|i: int| 0 <= i < self@.len() && self@[i].symbol == symbol {
            Some(self.definitions@[symbol_position(self@, symbol)].spec_parameters())
        } else {
            None
        }
    }

    #[verifier::type_invariant]
    closed spec fn ordered(&self) -> bool {
        symbols_ascending(definition_views(self.definitions@))
    }

    /// The definitions, in symbol order.
    pub closed spec fn view(&self) -> Seq<AttributeDefinitionView> {
        definition_views(self.definitions@)
    }

    /// The queryable facts of the definitions: (attribute, declaration,
    /// repeatable), in symbol order.
    pub(crate) fn query_facts(&self) -> (r: Vec<(AttributeId, SymbolId, bool)>)
        ensures
            r@ == crate::attribute_queries::query_definitions(self@),
    {
        let ghost all = self@;
        let mut out: Vec<(AttributeId, SymbolId, bool)> = Vec::new();
        let mut i: usize = 0;
        while i < self.definitions.len()
            invariant
                i <= self.definitions@.len(),
                all == definition_views(self.definitions@),
                out@ == crate::attribute_queries::query_definitions(all.take(i as int)),
            decreases self.definitions.len() - i,
        {
            let d = &self.definitions[i];
            out.push((d.attribute, d.symbol, d.usage.is_repeatable()));
            proof {
                assert(all[i as int] == d@);
                assert(crate::attribute_queries::query_definitions(all.take(i + 1)) =~= crate::attribute_queries::query_definitions(all.take(i as int)).push((d@.attribute, d@.symbol, d@.usage.1)));
            }
            i = i + 1;
        }
        proof {
            assert(all.take(i as int) =~= all);
        }
        out
    }

    /// No definitions.
    pub fn new() -> (r: Self)
        ensures
            r@ == Seq::<AttributeDefinitionView>::empty(),
    {
        let r = AttributeDefinitions { definitions: Vec::new() };
        assert(definition_views(r.definitions@) =~= Seq::<AttributeDefinitionView>::empty());
        r
    }

    /// The position of `symbol`, or where it would go, and whether it is there.
    fn locate(&self, symbol: SymbolId) -> (r: (usize, bool))
        ensures
            r.0 <= self@.len(),
            forall|k: int| 0 <= k < r.0 ==> (#[trigger] self@[k]).symbol.0 < symbol.0,
            r.1 ==> r.0 < self@.len() && self@[r.0 as int].symbol == symbol,
            !r.1 ==> r.0 < self@.len() ==> self@[r.0 as int].symbol.0 > symbol.0,
            symbols_ascending(self@),
    {
        proof {
            use_type_invariant(self);
        }
        let ghost s = self@;
        let mut i: usize = 0;
        while i < self.definitions.len()
            invariant
                i <= self.definitions@.len(),
                s == definition_views(self.definitions@),
                symbols_ascending(s),
                forall|k: int| 0 <= k < i ==> (#[trigger] s[k]).symbol.0 < symbol.0,
            decreases self.definitions.len() - i,
        {
            assert(s[i as int] == self.definitions@[i as int]@);
            if self.definitions[i].symbol.0 >= symbol.0 {
                return (i, self.definitions[i].symbol.0 == symbol.0);
            }
            i = i + 1;
        }
        (i, false)
    }

    /// Adds the definition of an attribute declared at `symbol` with its
    /// parameters, the restrictive default usage and no validator, replacing
    /// an earlier definition at the same symbol.
    pub fn define(
        &mut self,
        attribute: AttributeId,
        symbol: SymbolId,
        parameters: Vec<AttributeParameterDefinition>,
        span: SourceSpan,
    )
        ensures
            final(self).parameters_of(symbol) == Some(parameters@),
            forall|other: SymbolId| other != symbol ==> #[trigger] final(self).parameters_of(other)
                == old(self).parameters_of(other),
            symbols_ascending(final(self)@),
            definition_with_symbol(final(self)@, symbol) == Some(
                AttributeDefinitionView {
                    attribute,
                    symbol,
                    usage: (seq![AttributeTarget::Namespace], false),
                    explicit_usage: false,
                    validator: None,
                    span,
                },
            ),
            forall|other: SymbolId| other != symbol ==> #[trigger] definition_with_symbol(final(self)@, other)
                == definition_with_symbol(old(self)@, other),
    {
        let (pos, present) = self.locate(symbol);
        let ghost before = self@;
        let ghost before_definitions = self.definitions@;
        let ghost parameter_list = parameters@;
        let definition = AttributeDefinition {
            attribute,
            symbol,
            parameters,
            usage: AttributeUsage::default(),
            explicit_usage: false,
            validator: None,
            span,
        };
        let ghost d = definition@;
        let mut definitions: Vec<AttributeDefinition> = Vec::new();
        std::mem::swap(&mut definitions, &mut self.definitions);
        if present {
            definitions.set(pos, definition);
        } else {
            definitions.insert(pos, definition);
        }
        proof {
            let after = definition_views(definitions@);
            if present {
                assert(after =~= before.update(pos as int, d));
            } else {
                assert(after =~= before.insert(pos as int, d));
            }
            assert forall|a: int, b: int| 0 <= a < b < after.len() implies (#[trigger] after[a]).symbol.0
                < (#[trigger] after[b]).symbol.0 by {
                if present {
                    assert(before[a].symbol.0 < before[b].symbol.0 || a == pos as int || b == pos as int);
                    if a != pos as int && b != pos as int {
                    } else if a == pos as int {
                        assert(before[a].symbol.0 < before[b].symbol.0);
                    } else {
                        assert(before[a].symbol.0 < before[b].symbol.0);
                    }
                } else {
                    if b < pos {
                    } else if b == pos {
                    } else if a < pos {
                        assert(after[b] == before[b - 1]);
                    } else if a == pos {
                        assert(after[b] == before[b - 1]);
                    } else {
                        assert(after[a] == before[a - 1] && after[b] == before[b - 1]);
                    }
                }
            }
            lemma_definition_with_symbol(after, symbol, pos as int);
            assert forall|other: SymbolId| other != symbol implies #[trigger] definition_with_symbol(after, other)
                == definition_with_symbol(before, other) by {
                if exists|k: int| 0 <= k < before.len() && before[k].symbol == other {
                    let k = choose|k: int| 0 <= k < before.len() && before[k].symbol == other;
                    assert forall|m: int| 0 <= m < k implies (#[trigger] before[m]).symbol != other by {
                        assert(before[m].symbol.0 < before[k].symbol.0);
                    }
                    lemma_definition_with_symbol(before, other, k);
                    let k2 = if !present && k >= pos { k + 1 } else { k };
                    assert(after[k2] == before[k]);
                    assert forall|m: int| 0 <= m < k2 implies (#[trigger] after[m]).symbol != other by {
                        assert(after[m].symbol.0 < after[k2].symbol.0);
                    }
                    lemma_definition_with_symbol(after, other, k2);
                } else {
                    lemma_definition_with_symbol(before, other, before.len() as int);
                    assert forall|m: int| 0 <= m < after.len() implies (#[trigger] after[m]).symbol != other by {
                        if m != pos as int {
                            if !present && m > pos {
                                assert(after[m] == before[m - 1]);
                            } else {
                                assert(after[m] == before[m]);
                            }
                        }
                    }
                    lemma_definition_with_symbol(after, other, after.len() as int);
                }
            }
        }
        self.definitions = definitions;
        proof {
            let after = self@;
            let after_definitions = self.definitions@;
            if present {
                assert(after_definitions =~= before_definitions.update(pos as int, definition));
            } else {
                assert(after_definitions =~= before_definitions.insert(pos as int, definition));
            }
            assert(after[pos as int].symbol == symbol);
            lemma_symbol_position(after, symbol, pos as int);
            assert(after_definitions[pos as int].spec_parameters() == parameter_list);
            assert forall|other: SymbolId| other != symbol implies #[trigger] self.parameters_of(other)
                == old(self).parameters_of(other) by {
                if exists|k: int| 0 <= k < before.len() && before[k].symbol == other {
                    let k = choose|k: int| 0 <= k < before.len() && before[k].symbol == other;
                    lemma_symbol_position(before, other, k);
                    let k2 = if !present && k >= pos { k + 1 } else { k };
                    assert(after_definitions[k2] == before_definitions[k]);
                    assert(after[k2].symbol == other);
                    lemma_symbol_position(after, other, k2);
                } else {
                    assert forall|m: int| 0 <= m < after.len() implies (#[trigger] after[m]).symbol != other by {
                        if m != pos as int {
                            if !present && m > pos {
                                assert(after[m] == before[m - 1]);
                            } else {
                                assert(after[m] == before[m]);
                            }
                        }
                    }
                }
            }
        }
    }

    /// The definition declared at `symbol`, if any.
    pub fn attribute_definition(&self, symbol: SymbolId) -> (r: Option<&AttributeDefinition>)
        ensures
            match definition_with_symbol(self@, symbol) {
                None => r is None,
                Some(v) => r matches Some(d) && d@ == v,
            },
            r matches Some(d) ==> self.parameters_of(symbol) == Some(d.spec_parameters()),
    {
        let (pos, present) = self.locate(symbol);
        proof {
            if present {
                lemma_definition_with_symbol(self@, symbol, pos as int);
            } else {
                assert forall|k: int| 0 <= k < self@.len() implies (#[trigger] self@[k]).symbol != symbol by {
                    if k >= pos {
                        if k > pos {
                            assert(self@[pos as int].symbol.0 < self@[k].symbol.0);
                        }
                    }
                }
                lemma_definition_with_symbol(self@, symbol, self@.len() as int);
            }
        }
        if present {
            proof {
                lemma_symbol_position(self@, symbol, pos as int);
            }
            Some(&self.definitions[pos])
        } else {
            None
        }
    }

    /// Replaces the restrictive default usage of the definition at
    /// `definition` with an explicit one; refused for an unknown definition
    /// or a second explicit usage.
    pub fn install_attribute_usage(&mut self, definition: SymbolId, usage: AttributeUsage) -> (r: Result<
        (),
        AttributeContractError,
    >)
        ensures
            match definition_with_symbol(old(self)@, definition) {
                None => r == Err::<(), AttributeContractError>(
                    AttributeContractError::UnknownDefinition { definition },
                ) && final(self)@ == old(self)@,
                Some(d) => if d.explicit_usage {
                    r == Err::<(), AttributeContractError>(
                        AttributeContractError::UsageAlreadySpecified { definition },
                    ) && final(self)@ == old(self)@
                } else {
                    r is Ok && final(self)@ == old(self)@.update(
                        symbol_position(old(self)@, definition),
                        AttributeDefinitionView { usage: usage@, explicit_usage: true, ..d },
                    )
                },
            },
            forall|other: SymbolId| #[trigger] final(self).parameters_of(other) == old(self).parameters_of(other),
    {
        let ghost before = self@;
        let ghost before_definitions = self.definitions@;
        let (pos, present) = self.locate(definition);
        proof {
            if present {
                lemma_definition_with_symbol(before, definition, pos as int);
                let c = symbol_position(before, definition);
                if c != pos as int {
                    if c < pos {
                        assert(before[c].symbol.0 < before[pos as int].symbol.0);
                    } else {
                        assert(before[pos as int].symbol.0 < before[c].symbol.0);
                    }
                }
            } else {
                assert forall|k: int| 0 <= k < before.len() implies (#[trigger] before[k]).symbol != definition by {
                    if k > pos {
                        assert(before[pos as int].symbol.0 < before[k].symbol.0);
                    }
                }
                lemma_definition_with_symbol(before, definition, before.len() as int);
            }
        }
        if !present {
            return Err(AttributeContractError::UnknownDefinition { definition });
        }
        if self.definitions[pos].explicit_usage {
            return Err(AttributeContractError::UsageAlreadySpecified { definition });
        }
        let ghost usage_view = usage@;
        let mut definitions: Vec<AttributeDefinition> = Vec::new();
        std::mem::swap(&mut definitions, &mut self.definitions);
        let mut entry = definitions.remove(pos);
        entry.usage = usage;
        entry.explicit_usage = true;
        definitions.insert(pos, entry);
        proof {
            let after = definition_views(definitions@);
            assert(after =~= before.update(pos as int, AttributeDefinitionView {
                usage: usage_view,
                explicit_usage: true,
                ..before[pos as int]
            }));
            assert forall|a: int, b: int| 0 <= a < b < after.len() implies (#[trigger] after[a]).symbol.0
                < (#[trigger] after[b]).symbol.0 by {
                assert(before[a].symbol.0 < before[b].symbol.0);
            }
        }
        self.definitions = definitions;
        proof {
            let after = self@;
            assert(self.definitions@ =~= before_definitions.update(pos as int, self.definitions@[pos as int]));
            assert forall|other: SymbolId| #[trigger] self.parameters_of(other) == old(self).parameters_of(other) by {
                assert forall|m: int| 0 <= m < after.len() implies (#[trigger] after[m]).symbol == before[m].symbol by {
                }
                if exists|k: int| 0 <= k < before.len() && before[k].symbol == other {
                    let k = choose|k: int| 0 <= k < before.len() && before[k].symbol == other;
                    lemma_symbol_position(before, other, k);
                    assert(after[k].symbol == other);
                    lemma_symbol_position(after, other, k);
                } else {
                    assert forall|m: int| 0 <= m < after.len() implies (#[trigger] after[m]).symbol != other by {
                        assert(after[m].symbol == before[m].symbol);
                    }
                }
            }
        }
        Ok(())
    }

    /// Installs the validator of the definition at `definition`; refused for
    /// an unknown definition or a second validator.
    pub fn install_attribute_validator(&mut self, definition: SymbolId, validator: AttributeValidator) -> (r:
        Result<(), AttributeContractError>)
        ensures
            match definition_with_symbol(old(self)@, definition) {
                None => r == Err::<(), AttributeContractError>(
                    AttributeContractError::UnknownDefinition { definition },
                ) && final(self)@ == old(self)@,
                Some(d) => match d.validator {
                    Some(original) => r == Err::<(), AttributeContractError>(
                        AttributeContractError::ValidatorAlreadySpecified { definition, original },
                    ) && final(self)@ == old(self)@,
                    None => r is Ok && final(self)@ == old(self)@.update(
                        symbol_position(old(self)@, definition),
                        AttributeDefinitionView { validator: Some(validator@), ..d },
                    ),
                },
            },
            forall|other: SymbolId| #[trigger] final(self).parameters_of(other) == old(self).parameters_of(other),
    {
        let ghost before = self@;
        let ghost before_definitions = self.definitions@;
        let (pos, present) = self.locate(definition);
        proof {
            if present {
                lemma_definition_with_symbol(before, definition, pos as int);
                let c = symbol_position(before, definition);
                if c != pos as int {
                    if c < pos {
                        assert(before[c].symbol.0 < before[pos as int].symbol.0);
                    } else {
                        assert(before[pos as int].symbol.0 < before[c].symbol.0);
                    }
                }
            } else {
                assert forall|k: int| 0 <= k < before.len() implies (#[trigger] before[k]).symbol != definition by {
                    if k > pos {
                        assert(before[pos as int].symbol.0 < before[k].symbol.0);
                    }
                }
                lemma_definition_with_symbol(before, definition, before.len() as int);
            }
        }
        if !present {
            return Err(AttributeContractError::UnknownDefinition { definition });
        }
        if let Some(original) = self.definitions[pos].validator {
            return Err(
                AttributeContractError::ValidatorAlreadySpecified { definition, original: original.function() },
            );
        }
        let mut definitions: Vec<AttributeDefinition> = Vec::new();
        std::mem::swap(&mut definitions, &mut self.definitions);
        let mut entry = definitions.remove(pos);
        entry.validator = Some(validator);
        definitions.insert(pos, entry);
        proof {
            let after = definition_views(definitions@);
            assert(after =~= before.update(pos as int, AttributeDefinitionView {
                validator: Some(validator@),
                ..before[pos as int]
            }));
            assert forall|a: int, b: int| 0 <= a < b < after.len() implies (#[trigger] after[a]).symbol.0
                < (#[trigger] after[b]).symbol.0 by {
                assert(before[a].symbol.0 < before[b].symbol.0);
            }
        }
        self.definitions = definitions;
        proof {
            let after = self@;
            assert(self.definitions@ =~= before_definitions.update(pos as int, self.definitions@[pos as int]));
            assert forall|other: SymbolId| #[trigger] self.parameters_of(other) == old(self).parameters_of(other) by {
                assert forall|m: int| 0 <= m < after.len() implies (#[trigger] after[m]).symbol == before[m].symbol by {
                }
                if exists|k: int| 0 <= k < before.len() && before[k].symbol == other {
                    let k = choose|k: int| 0 <= k < before.len() && before[k].symbol == other;
                    lemma_symbol_position(before, other, k);
                    assert(after[k].symbol == other);
                    lemma_symbol_position(after, other, k);
                } else {
                    assert forall|m: int| 0 <= m < after.len() implies (#[trigger] after[m]).symbol != other by {
                        assert(after[m].symbol == before[m].symbol);
                    }
                }
            }
        }
        Ok(())
    }

    /// The first definition of `attribute`, in symbol order.
    fn definition_of(&self, attribute: AttributeId) -> (r: Option<&AttributeDefinition>)
        ensures
            match definition_for_attribute(self@, attribute) {
                None => r is None,
                Some(v) => r matches Some(d) && d@ == v,
            },
    {
        let ghost s = self@;
        let mut i: usize = 0;
        assert(s.skip(0) =~= s);
        while i < self.definitions.len()
            invariant
                i <= self.definitions@.len(),
                s == definition_views(self.definitions@),
                definition_for_attribute(s, attribute) == definition_for_attribute(s.skip(i as int), attribute),
            decreases self.definitions.len() - i,
        {
            assert(s.skip(i as int)[0] == self.definitions@[i as int]@);
            if self.definitions[i].attribute == attribute {
                return Some(&self.definitions[i]);
            }
            assert(s.skip(i as int).drop_first() =~= s.skip(i + 1));
            i = i + 1;
        }
        None
    }

    /// Checks target permissions and repeatability of a target's
    /// attachments, without reordering or dropping any: the set is given
    /// back only when nothing is refused.
    pub fn validate_attribute_attachments(&self, target: AttributeTarget, attachments: Vec<ResolvedAttribute>) -> (r:
        AttributeAttachmentResult)
        ensures
            r@.1 == attachment_errors(self@, target, attachment_keys(attachments@), attachments@.len() as int),
            r@.0 == if r@.1.len() == 0 {
                Some(attachments@)
            } else {
                None::<Seq<ResolvedAttribute>>
            },
    {
        let ghost keys = attachment_keys(attachments@);
        let ghost defs = self@;
        let mut errors: Vec<AttributeAttachmentError> = Vec::new();
        let mut seen: Vec<(AttributeId, SourceSpan)> = Vec::new();
        let mut i: usize = 0;
        while i < attachments.len()
            invariant
                i <= attachments@.len(),
                keys == attachment_keys(attachments@),
                defs == self@,
                errors@ == attachment_errors(defs, target, keys, i as int),
                forall|a: AttributeId| #[trigger] first_span_of(seen@, a) == if definition_for_attribute(defs, a) matches Some(d)
                    && d.usage.0.contains(target) {
                    first_span_of(keys.take(i as int), a)
                } else {
                    None::<SourceSpan>
                },
            decreases attachments.len() - i,
        {
            let attribute = attachments[i].attribute;
            let span = attachments[i].span;
            let ghost prefix = keys.take(i as int);
            let ghost next = keys.take(i + 1);
            proof {
                assert(keys[i as int] == (attribute, span));
                assert(next =~= prefix.push((attribute, span)));
                lemma_first_span_push(prefix, (attribute, span));
            }
            match self.definition_of(attribute) {
                None => {
                    errors.push(AttributeAttachmentError::UnknownAttribute { attribute, span });
                    proof {
                        assert forall|a: AttributeId| #[trigger] first_span_of(seen@, a) == if definition_for_attribute(defs, a) matches Some(d)
                            && d.usage.0.contains(target) {
                            first_span_of(next, a)
                        } else {
                            None::<SourceSpan>
                        } by {
                        }
                    }
                },
                Some(definition) => {
                    if !definition.usage.allows(target) {
                        errors.push(AttributeAttachmentError::WrongTarget { attribute, target, span });
                    } else {
                        let mut k: usize = 0;
                        let mut found: Option<SourceSpan> = None;
                        assert(seen@.skip(0) =~= seen@);
                        while k < seen.len()
                            invariant_except_break
                                found is None,
                            invariant
                                k <= seen@.len(),
                                first_span_of(seen@, attribute) == first_span_of(seen@.skip(k as int), attribute),
                            ensures
                                found is Some ==> found == first_span_of(seen@, attribute),
                                found is None ==> k == seen@.len(),
                            decreases seen.len() - k,
                        {
                            assert(seen@.skip(k as int)[0] == seen@[k as int]);
                            if seen[k].0 == attribute {
                                found = Some(seen[k].1);
                                assert(found == first_span_of(seen@, attribute));
                                break;
                            }
                            assert(seen@.skip(k as int).drop_first() =~= seen@.skip(k + 1));
                            k = k + 1;
                        }
                        proof {
                            if found is None {
                                assert(seen@.skip(k as int).len() == 0);
                            }
                        }
                        assert(found == first_span_of(seen@, attribute));
                        match found {
                            Some(first) => {
                                if !definition.usage.is_repeatable() {
                                    errors.push(
                                        AttributeAttachmentError::NonRepeatableDuplicate {
                                            attribute,
                                            first,
                                            duplicate: span,
                                        },
                                    );
                                }
                            },
                            None => {
                                let ghost seen_before = seen@;
                                seen.push((attribute, span));
                                proof {
                                    lemma_first_span_push(seen_before, (attribute, span));
                                }
                            },
                        }
                    }
                },
            }
            i = i + 1;
        }
        proof {
            assert(keys.len() == attachments@.len());
        }
        if errors.len() == 0 {
            AttributeAttachmentResult {
                attachment_set: Some(AttributeAttachmentSet { attachments }),
                errors,
            }
        } else {
            AttributeAttachmentResult { attachment_set: None, errors }
        }
    }
}

proof fn lemma_first_span_push(s: Seq<(AttributeId, SourceSpan)>, x: (AttributeId, SourceSpan))
    ensures
        forall|a: AttributeId| #[trigger] first_span_of(s.push(x), a) == match first_span_of(s, a) {
            Some(sp) => Some(sp),
            None => if x.0 == a {
                Some(x.1)
            } else {
                None
            },
        },
    decreases s.len(),
{
    if s.len() > 0 {
        lemma_first_span_push(s.drop_first(), x);
        assert(s.push(x).drop_first() =~= s.drop_first().push(x));
        assert(s.push(x)[0] == s[0]);
        assert forall|a: AttributeId| #[trigger] first_span_of(s.push(x), a) == match first_span_of(s, a) {
            Some(sp) => Some(sp),
            None => if x.0 == a {
                Some(x.1)
            } else {
                None
            },
        } by {
            assert(first_span_of(s.drop_first().push(x), a) == match first_span_of(s.drop_first(), a) {
                Some(sp) => Some(sp),
                None => if x.0 == a {
                    Some(x.1)
                } else {
                    None
                },
            });
        }
    } else {
        assert(s.push(x).drop_first() =~= Seq::<(AttributeId, SourceSpan)>::empty());
        assert forall|a: AttributeId| #[trigger] first_span_of(s.push(x), a) == match first_span_of(s, a) {
            Some(sp) => Some(sp),
            None => if x.0 == a {
                Some(x.1)
            } else {
                None
            },
        } by {
            assert(s.push(x)[0] == x);
            assert(first_span_of(s.push(x).drop_first(), a) is None);
            assert(first_span_of(s, a) is None);
        }
    }
}

impl Clone for AttributeUsage {
    fn clone(&self) -> (r: Self)
        ensures
            r@ == self@,
    {
        proof {
            use_type_invariant(self);
        }
        AttributeUsage { targets: crate::ids::copy_vec(&self.targets), repeatable: self.repeatable }
    }
}

/// What a list of parameter definitions holds: each one's (parameter,
/// name, type, span) and the value of its default, if any.
pub open spec fn parameter_contents(s: Seq<AttributeParameterDefinition>) -> Seq<
    ((crate::constants::AttributeParameterId, Seq<char>, TypeId, SourceSpan), Option<ConstantView>),
> {
    s.map_values(
        |p: AttributeParameterDefinition|
            (
                p@,
                match p.spec_default() {
                    Some(c) => Some(constant_view(c)),
                    None => None,
                },
            ),
    )
}

fn copy_parameters(parameters: &Vec<AttributeParameterDefinition>) -> (r: Vec<AttributeParameterDefinition>)
    ensures
        parameter_contents(r@) == parameter_contents(parameters@),
{
    let mut out: Vec<AttributeParameterDefinition> = Vec::new();
    let mut i: usize = 0;
    while i < parameters.len()
        invariant
            i <= parameters@.len(),
            out@.len() == i,
            forall|k: int|
                0 <= k < i ==> (#[trigger] out@[k])@ == parameters@[k]@ && match (
                    out@[k].spec_default(),
                    parameters@[k].spec_default(),
                ) {
                    (Some(a), Some(b)) => constant_view(a) == constant_view(b),
                    (None, None) => true,
                    _ => false,
                },
        decreases parameters.len() - i,
    {
        out.push(parameters[i].clone());
        i = i + 1;
    }
    assert(parameter_contents(out@) =~= parameter_contents(parameters@));
    out
}

impl Clone for AttributeDefinition {
    fn clone(&self) -> (r: Self)
        ensures
            r@ == self@,
            parameter_contents(r.spec_parameters()) == parameter_contents(self.spec_parameters()),
    {
        AttributeDefinition {
            attribute: self.attribute,
            symbol: self.symbol,
            parameters: copy_parameters(&self.parameters),
            usage: self.usage.clone(),
            explicit_usage: self.explicit_usage,
            validator: self.validator,
            span: self.span,
        }
    }
}

impl Clone for ResolvedAttributeArgument {
    fn clone(&self) -> (r: Self)
        ensures
            r@ == self@,
            crate::attribute_arguments::constant_view(*r.spec_value())
                == crate::attribute_arguments::constant_view(*self.spec_value()),
    {
        ResolvedAttributeArgument {
            name: String::from_str(self.name.as_str()),
            value: self.value.clone(),
            value_type: self.value_type,
            origin: self.origin,
            defaulted: self.defaulted,
        }
    }
}

impl Clone for ResolvedAttribute {
    fn clone(&self) -> (r: Self)
        ensures
            r@ == self@,
            crate::attribute_arguments::argument_views(r.spec_arguments())
                == crate::attribute_arguments::argument_views(self.spec_arguments()),
    {
        let mut arguments: Vec<ResolvedAttributeArgument> = Vec::new();
        let mut i: usize = 0;
        while i < self.arguments.len()
            invariant
                i <= self.arguments@.len(),
                arguments@.len() == i,
                forall|k: int|
                    0 <= k < i ==> crate::attribute_arguments::argument_view(#[trigger] arguments@[k])
                        == crate::attribute_arguments::argument_view(self.arguments@[k]),
            decreases self.arguments.len() - i,
        {
            arguments.push(self.arguments[i].clone());
            i = i + 1;
        }
        assert(crate::attribute_arguments::argument_views(arguments@) =~= crate::attribute_arguments::argument_views(
            self.arguments@,
        ));
        ResolvedAttribute { attribute: self.attribute, definition: self.definition, arguments, span: self.span }
    }
}

/// What a sequence of resolved attributes holds: each one's (attribute,
/// definition, span) and its arguments.
pub open spec fn attachment_contents(v: Seq<ResolvedAttribute>) -> Seq<
    (
        (AttributeId, SymbolId, SourceSpan),
        Seq<(Seq<char>, TypeId, SourceSpan, bool, crate::attribute_arguments::ConstantView)>,
    ),
> {
    v.map_values(|a: ResolvedAttribute| (a@, crate::attribute_arguments::argument_views(a.spec_arguments())))
}

impl Clone for AttributeAttachmentSet {
    fn clone(&self) -> (r: Self)
        ensures
            attachment_contents(r@) == attachment_contents(self@),
    {
        let mut attachments: Vec<ResolvedAttribute> = Vec::new();
        let mut i: usize = 0;
        while i < self.attachments.len()
            invariant
                i <= self.attachments@.len(),
                attachments@.len() == i,
                forall|k: int|
                    0 <= k < i ==> (#[trigger] attachments@[k])@ == self.attachments@[k]@
                        && crate::attribute_arguments::argument_views(attachments@[k].spec_arguments())
                        == crate::attribute_arguments::argument_views(self.attachments@[k].spec_arguments()),
            decreases self.attachments.len() - i,
        {
            attachments.push(self.attachments[i].clone());
            i = i + 1;
        }
        assert(attachment_contents(attachments@) =~= attachment_contents(self.attachments@));
        AttributeAttachmentSet { attachments }
    }
}

impl Clone for AttributeAttachmentResult {
    fn clone(&self) -> (r: Self)
        ensures
            r@.1 == self@.1,
            match (r@.0, self@.0) {
                (Some(a), Some(b)) => attachment_contents(a) == attachment_contents(b),
                (None, None) => true,
                _ => false,
            },
    {
        AttributeAttachmentResult {
            attachment_set: match &self.attachment_set {
                Some(set) => Some(set.clone()),
                None => None,
            },
            errors: crate::ids::copy_vec(&self.errors),
        }
    }
}

} // verus!

