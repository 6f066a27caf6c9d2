//! Compile-time attribute queries: `attribute<<A>>(subject)` and
//! `hasAttribute<<A>>(subject)` over validated attachments, restricted to
//! what is visible from the querying module.
use vstd::prelude::*;

use crate::attributes::{
    attachments_of, AttributeAttachmentSet, AttributeDefinitions, AttributeDefinitionView,
    AttributeQuerySubject, ResolvedAttribute,
};
use crate::ids::{AttributeId, ModuleId, SymbolId, TypeId};

verus! {

/// The facts of the resolved program that queries read: the known modules,
/// the known declarations, and which declarations each module may see.
#[derive(Debug)]
pub struct ResolutionFacts {
    modules: Vec<ModuleId>,
    declarations: Vec<SymbolId>,
    accessible: Vec<(SymbolId, ModuleId)>,
}

/// The content of resolution facts.
pub struct ResolutionFactsView {
    pub modules: Seq<ModuleId>,
    pub declarations: Seq<SymbolId>,
    pub accessible: Seq<(SymbolId, ModuleId)>,
}

impl ResolutionFacts {
    pub closed spec fn view(&self) -> ResolutionFactsView {
        ResolutionFactsView {
            modules: self.modules@,
            declarations: self.declarations@,
            accessible: self.accessible@,
        }
    }

    pub fn new(
        modules: Vec<ModuleId>,
        declarations: Vec<SymbolId>,
        accessible: Vec<(SymbolId, ModuleId)>,
    ) -> (r: Self)
        ensures
            r@ == (ResolutionFactsView {
                modules: modules@,
                declarations: declarations@,
                accessible: accessible@,
            }),
    {
        ResolutionFacts { modules, declarations, accessible }
    }
}

impl Clone for ResolutionFacts {
    fn clone(&self) -> (r: Self)
        ensures
            r@ == self@,
    {
        ResolutionFacts {
            modules: crate::ids::copy_vec(&self.modules),
            declarations: crate::ids::copy_vec(&self.declarations),
            accessible: crate::ids::copy_vec(&self.accessible),
        }
    }
}

fn contains_module(s: &[ModuleId], m: ModuleId) -> (r: bool)
    ensures
        r == s@.contains(m),
{
    let mut i: usize = 0;
    while i < s.len()
        invariant
            i <= s@.len(),
            forall|k: int| 0 <= k < i ==> s@[k] != m,
        decreases s.len() - i,
    {
        if s[i] == m {
            return true;
        }
        i = i + 1;
    }
    false
}

fn contains_symbol(s: &[SymbolId], d: SymbolId) -> (r: bool)
    ensures
        r == s@.contains(d),
{
    let mut i: usize = 0;
    while i < s.len()
        invariant
            i <= s@.len(),
            forall|k: int| 0 <= k < i ==> s@[k] != d,
        decreases s.len() - i,
    {
        if s[i] == d {
            return true;
        }
        i = i + 1;
    }
    false
}

fn contains_access(s: &[(SymbolId, ModuleId)], d: SymbolId, m: ModuleId) -> (r: bool)
    ensures
        r == s@.contains((d, m)),
{
    let mut i: usize = 0;
    while i < s.len()
        invariant
            i <= s@.len(),
            forall|k: int| 0 <= k < i ==> s@[k] != (d, m),
        decreases s.len() - i,
    {
        if s[i].0 == d && s[i].1 == m {
            return true;
        }
        i = i + 1;
    }
    false
}

/// Why a query was refused.
#[derive(Clone, Copy, Debug, PartialEq, Eq, Structural)]
pub enum AttributeQueryError {
    UnknownModule { module: ModuleId },
    UnknownSubject { subject: AttributeQuerySubject },
    UnknownAttribute { attribute: AttributeId },
    MissingVisibilityDefinition { definition: SymbolId },
    InaccessibleSubject { subject: AttributeQuerySubject, definition: SymbolId },
    InaccessibleAttribute { attribute: AttributeId, definition: SymbolId },
}

/// Why registering a subject was refused.
#[derive(Clone, Copy, Debug, PartialEq, Eq, Structural)]
pub enum AttributeQueryIndexError {
    MissingVisibilityDefinition { definition: SymbolId },
    DuplicateSubject { subject: AttributeQuerySubject },
}

/// The statically selected return shape of `attribute<<A>>(subject)`: the
/// one attachment of a non-repeatable attribute, if any, or every
/// attachment of a repeatable one.
#[derive(Debug)]
pub enum AttributeQueryValue<'a> {
    Optional(Option<&'a ResolvedAttribute>),
    ImmutableSequence(Vec<&'a ResolvedAttribute>),
}

impl<'a> Clone for AttributeQueryValue<'a> {
    fn clone(&self) -> (r: Self)
        ensures
            match (r, *self) {
                (AttributeQueryValue::Optional(a), AttributeQueryValue::Optional(b)) => a == b,
                (
                    AttributeQueryValue::ImmutableSequence(a),
                    AttributeQueryValue::ImmutableSequence(b),
                ) => a@ == b@,
                _ => false,
            },
    {
        match self {
            AttributeQueryValue::Optional(o) => AttributeQueryValue::Optional(*o),
            AttributeQueryValue::ImmutableSequence(v) => AttributeQueryValue::ImmutableSequence(
                crate::ids::copy_vec(v),
            ),
        }
    }
}

/// Queryable attribute facts, indexed by resolved identities.
#[derive(Debug)]
pub struct AttributeQueryIndex {
    facts: ResolutionFacts,
    definitions: Vec<(AttributeId, SymbolId, bool)>,
    entries: Vec<(AttributeQuerySubject, SymbolId, AttributeAttachmentSet)>,
}

/// One registered subject: its visibility declaration and attachments.
pub struct QueryEntryView {
    pub subject: AttributeQuerySubject,
    pub visibility: SymbolId,
    pub attachments: Seq<ResolvedAttribute>,
}

/// The contents of registered entries.
pub open spec fn entry_views(v: Seq<(AttributeQuerySubject, SymbolId, AttributeAttachmentSet)>) -> Seq<QueryEntryView> {
    v.map_values(|e: (AttributeQuerySubject, SymbolId, AttributeAttachmentSet)| QueryEntryView {
        subject: e.0,
        visibility: e.1,
        attachments: e.2@,
    })
}

/// The queryable definition of each attribute: (attribute, declaration,
/// repeatable), in the definitions' symbol order.
pub open spec fn query_definitions(defs: Seq<AttributeDefinitionView>) -> Seq<(AttributeId, SymbolId, bool)> {
    defs.map_values(|d: AttributeDefinitionView| (d.attribute, d.symbol, d.usage.1))
}

/// The last definition of `attribute`, if any: a later definition of the
/// same attribute replaces an earlier one.
pub open spec fn last_definition(defs: Seq<(AttributeId, SymbolId, bool)>, attribute: AttributeId) -> Option<(SymbolId, bool)>
    decreases defs.len(),
{
    if defs.len() == 0 {
        None
    } else if defs.last().0 == attribute {
        Some((defs.last().1, defs.last().2))
    } else {
        last_definition(defs.drop_last(), attribute)
    }
}

/// The position of the entry registered for `subject`, if any.
pub open spec fn entry_position(entries: Seq<QueryEntryView>, subject: AttributeQuerySubject) -> Option<int> {
    if exists|i: int| 0 <= i < entries.len() && #[trigger] entries[i].subject == subject {
        Some(choose|i: int| 0 <= i < entries.len() && #[trigger] entries[i].subject == subject)
    } else {
        None
    }
}

/// Each subject is registered once.
pub open spec fn subjects_distinct(entries: Seq<QueryEntryView>) -> bool {
    forall|i: int, j: int|
        0 <= i < j < entries.len() ==> (#[trigger] entries[i]).subject != (#[trigger] entries[j]).subject
}

/// Whether `declaration` is known and visible from `module`.
pub open spec fn visible(facts: ResolutionFactsView, declaration: SymbolId, module: ModuleId) -> bool {
    facts.accessible.contains((declaration, module))
}

/// The outcome of the access checks of a query, in order: the module, the
/// attribute's definition and its visibility, then the subject and its
/// visibility. On success: whether the attribute is repeatable, and the
/// position of the subject's entry.
pub open spec fn query_access(
    facts: ResolutionFactsView,
    defs: Seq<(AttributeId, SymbolId, bool)>,
    entries: Seq<QueryEntryView>,
    module: ModuleId,
    subject: AttributeQuerySubject,
    attribute: AttributeId,
) -> Result<(bool, int), AttributeQueryError> {
    if !facts.modules.contains(module) {
        Err(AttributeQueryError::UnknownModule { module })
    } else {
        match last_definition(defs, attribute) {
            None => Err(AttributeQueryError::UnknownAttribute { attribute }),
            Some((definition, repeatable)) => if !facts.declarations.contains(definition) {
                Err(AttributeQueryError::MissingVisibilityDefinition { definition })
            } else if !visible(facts, definition, module) {
                Err(AttributeQueryError::InaccessibleAttribute { attribute, definition })
            } else {
                match entry_position(entries, subject) {
                    None => Err(AttributeQueryError::UnknownSubject { subject }),
                    Some(i) => if !facts.declarations.contains(entries[i].visibility) {
                        Err(
                            AttributeQueryError::MissingVisibilityDefinition {
                                definition: entries[i].visibility,
                            },
                        )
                    } else if !visible(facts, entries[i].visibility, module) {
                        Err(
                            AttributeQueryError::InaccessibleSubject {
                                subject,
                                definition: entries[i].visibility,
                            },
                        )
                    } else {
                        Ok((repeatable, i))
                    },
                }
            },
        }
    }
}

impl AttributeDefinitions {
    /// An empty query index over every known attribute definition.
    pub fn attribute_query_index(&self, facts: ResolutionFacts) -> (r: AttributeQueryIndex)
        ensures
            r@.0 == facts@,
            r@.1 == query_definitions(self@),
            r@.2 == Seq::<QueryEntryView>::empty(),
    {
        let defs = self.query_facts();
        let r = AttributeQueryIndex { facts, definitions: defs, entries: Vec::new() };
        assert(entry_views(r.entries@) =~= Seq::<QueryEntryView>::empty());
        r
    }
}

impl AttributeQueryIndex {
    #[verifier::type_invariant]
    closed spec fn distinct(&self) -> bool {
        subjects_distinct(entry_views(self.entries@))
    }

    /// (resolution facts, definitions, registered subjects).
    pub closed spec fn view(&self) -> (ResolutionFactsView, Seq<(AttributeId, SymbolId, bool)>, Seq<QueryEntryView>) {
        (self.facts@, self.definitions@, entry_views(self.entries@))
    }

    /// Whether two indexes hold the same facts, definitions and subjects,
    /// with attachments of the same contents.
    pub open spec fn same_contents(&self, other: &Self) -> bool {
        &&& self@.0 == other@.0
        &&& self@.1 == other@.1
        &&& self@.2.len() == other@.2.len()
        &&& forall|k: int|
            0 <= k < self@.2.len() ==> (#[trigger] self@.2[k]).subject == other@.2[k].subject
                && self@.2[k].visibility == other@.2[k].visibility
                && crate::attributes::attachment_contents(self@.2[k].attachments)
                == crate::attributes::attachment_contents(other@.2[k].attachments)
    }

    fn find_definition(&self, attribute: AttributeId) -> (r: Option<(SymbolId, bool)>)
        ensures
            r == last_definition(self@.1, attribute),
    {
        let ghost defs = self.definitions@;
        let mut i: usize = self.definitions.len();
        assert(defs.take(i as int) =~= defs);
        while i > 0
            invariant
                i <= defs.len(),
                defs == self.definitions@,
                last_definition(defs, attribute) == last_definition(defs.take(i as int), attribute),
            decreases i,
        {
            let e = self.definitions[i - 1];
            assert(defs.take(i as int).last() == e);
            if e.0 == attribute {
                return Some((e.1, e.2));
            }
            assert(defs.take(i as int).drop_last() =~= defs.take(i - 1));
            i = i - 1;
        }
        None
    }

    fn find_entry(&self, subject: AttributeQuerySubject) -> (r: Option<usize>)
        ensures
            match entry_position(self@.2, subject) {
                None => r is None,
                Some(i) => r matches Some(k) && k == i,
            },
            r matches Some(k) ==> k < self@.2.len() && self@.2[k as int].subject == subject,
    {
        proof {
            use_type_invariant(self);
        }
        let ghost entries = self@.2;
        let mut i: usize = 0;
        while i < self.entries.len()
            invariant
                i <= self.entries@.len(),
                entries == entry_views(self.entries@),
                subjects_distinct(entries),
                forall|k: int| 0 <= k < i ==> (#[trigger] entries[k]).subject != subject,
            decreases self.entries.len() - i,
        {
            assert(entries[i as int].subject == self.entries@[i as int].0);
            if self.entries[i].0 == subject {
                proof {
                    let c = choose|c: int| 0 <= c < entries.len() && #[trigger] entries[c].subject == subject;
                    if c != i {
                        assert(entries[c].subject != entries[i as int].subject);
                    }
                }
                return Some(i);
            }
            i = i + 1;
        }
        None
    }

    fn register(
        &mut self,
        subject: AttributeQuerySubject,
        visibility: SymbolId,
        attachments: AttributeAttachmentSet,
    ) -> (r: Result<(), AttributeQueryIndexError>)
        ensures
            final(self)@.0 == old(self)@.0,
            final(self)@.1 == old(self)@.1,
            registration(old(self)@, subject, visibility, attachments@, r, final(self)@.2),
    {
        proof {
            use_type_invariant(&*self);
        }
        if !contains_symbol(self.facts.declarations.as_slice(), visibility) {
            return Err(AttributeQueryIndexError::MissingVisibilityDefinition { definition: visibility });
        }
        if let Some(_) = self.find_entry(subject) {
            return Err(AttributeQueryIndexError::DuplicateSubject { subject });
        }
        let ghost before = self@.2;
        let ghost added = attachments@;
        let mut entries: Vec<(AttributeQuerySubject, SymbolId, AttributeAttachmentSet)> = Vec::new();
        proof {
            assert(entry_views(entries@) =~= Seq::<QueryEntryView>::empty());
        }
        std::mem::swap(&mut entries, &mut self.entries);
        entries.push((subject, visibility, attachments));
        proof {
            let after = entry_views(entries@);
            assert(after =~= before.push(QueryEntryView { subject, visibility, attachments: added }));
            assert forall|i: int, j: int| 0 <= i < j < after.len() implies (#[trigger] after[i]).subject != (#[trigger] after[j]).subject by {
                if j == before.len() {
                    assert(after[i] == before[i]);
                    assert(before[i].subject != subject) by {
                        if before[i].subject == subject {
                            assert(exists|k: int| 0 <= k < before.len() && #[trigger] before[k].subject == subject);
                        }
                    }
                } else {
                    assert(after[i] == before[i] && after[j] == before[j]);
                }
            }
        }
        self.entries = entries;
        Ok(())
    }

    /// Registers a symbol operand, whose own declaration decides its
    /// visibility, with its validated attachments.
    pub fn insert_symbol(&mut self, symbol: SymbolId, attachments: AttributeAttachmentSet) -> (r: Result<
        (),
        AttributeQueryIndexError,
    >)
        ensures
            final(self)@.0 == old(self)@.0,
            final(self)@.1 == old(self)@.1,
            registration(old(self)@, AttributeQuerySubject::Symbol(symbol), symbol, attachments@, r, final(self)@.2),
    {
        self.register(AttributeQuerySubject::Symbol(symbol), symbol, attachments)
    }

    /// Registers a type operand with the declaration that owns its
    /// visibility.
    pub fn insert_type(&mut self, type_id: TypeId, definition: SymbolId, attachments: AttributeAttachmentSet) -> (r:
        Result<(), AttributeQueryIndexError>)
        ensures
            final(self)@.0 == old(self)@.0,
            final(self)@.1 == old(self)@.1,
            registration(old(self)@, AttributeQuerySubject::Type(type_id), definition, attachments@, r, final(self)@.2),
    {
        self.register(AttributeQuerySubject::Type(type_id), definition, attachments)
    }

    fn check_query_access(&self, module: ModuleId, subject: AttributeQuerySubject, attribute: AttributeId) -> (r:
        Result<(bool, usize), AttributeQueryError>)
        ensures
            match r {
                Ok((repeatable, k)) => query_access(self@.0, self@.1, self@.2, module, subject, attribute)
                    == Ok::<(bool, int), AttributeQueryError>((repeatable, k as int)) && k < self@.2.len(),
                Err(e) => query_access(self@.0, self@.1, self@.2, module, subject, attribute) == Err::<
                    (bool, int),
                    AttributeQueryError,
                >(e),
            },
    {
        proof {
            use_type_invariant(self);
        }
        if !contains_module(self.facts.modules.as_slice(), module) {
            return Err(AttributeQueryError::UnknownModule { module });
        }
        let (definition, repeatable) = match self.find_definition(attribute) {
            None => {
                return Err(AttributeQueryError::UnknownAttribute { attribute });
            },
            Some(d) => d,
        };
        if !contains_symbol(self.facts.declarations.as_slice(), definition) {
            return Err(AttributeQueryError::MissingVisibilityDefinition { definition });
        }
        if !contains_access(self.facts.accessible.as_slice(), definition, module) {
            return Err(AttributeQueryError::InaccessibleAttribute { attribute, definition });
        }
        let i = match self.find_entry(subject) {
            None => {
                return Err(AttributeQueryError::UnknownSubject { subject });
            },
            Some(i) => i,
        };
        let visibility = self.entries[i].1;
        if !contains_symbol(self.facts.declarations.as_slice(), visibility) {
            return Err(AttributeQueryError::MissingVisibilityDefinition { definition: visibility });
        }
        if !contains_access(self.facts.accessible.as_slice(), visibility, module) {
            return Err(AttributeQueryError::InaccessibleSubject { subject, definition: visibility });
        }
        Ok((repeatable, i))
    }

    /// `hasAttribute<<A>>(subject)` from `module`: whether the subject
    /// carries the attribute, once every access check passes.
    pub fn has_attribute(&self, module: ModuleId, subject: AttributeQuerySubject, attribute: AttributeId) -> (r:
        Result<bool, AttributeQueryError>)
        ensures
            match query_access(self@.0, self@.1, self@.2, module, subject, attribute) {
                Ok((_, i)) => r == Ok::<bool, AttributeQueryError>(
                    attachments_of(self@.2[i].attachments, attribute).len() > 0,
                ),
                Err(e) => r == Err::<bool, AttributeQueryError>(e),
            },
    {
        match self.check_query_access(module, subject, attribute) {
            Err(e) => Err(e),
            Ok((_, i)) => {
                let found = self.entries[i].2.attributes(attribute);
                assert(self@.2[i as int].attachments == self.entries@[i as int].2@);
                Ok(found.len() > 0)
            },
        }
    }

    /// `attribute<<A>>(subject)` from `module`: every attachment of a
    /// repeatable attribute, or the attachment of a non-repeatable one if
    /// there is one, once every access check passes.
    pub fn attribute(&self, module: ModuleId, subject: AttributeQuerySubject, attribute: AttributeId) -> (r:
        Result<AttributeQueryValue<'_>, AttributeQueryError>)
        ensures
            match query_access(self@.0, self@.1, self@.2, module, subject, attribute) {
                Ok((true, i)) => r matches Ok(AttributeQueryValue::ImmutableSequence(v)) && v@.len()
                    == attachments_of(self@.2[i].attachments, attribute).len() && forall|k: int|
                    0 <= k < v@.len() ==> *(#[trigger] v@[k]) == attachments_of(self@.2[i].attachments, attribute)[k],
                Ok((false, i)) => r matches Ok(AttributeQueryValue::Optional(o)) && if attachments_of(
                    self@.2[i].attachments,
                    attribute,
                ).len() == 0 {
                    o is None
                } else {
                    o matches Some(a) && *a == attachments_of(self@.2[i].attachments, attribute)[0]
                },
                Err(e) => r matches Err(x) && x == e,
            },
    {
        match self.check_query_access(module, subject, attribute) {
            Err(e) => Err(e),
            Ok((repeatable, i)) => {
                let found = self.entries[i].2.attributes(attribute);
                assert(self@.2[i as int].attachments == self.entries@[i as int].2@);
                if repeatable {
                    Ok(AttributeQueryValue::ImmutableSequence(found))
                } else if found.len() == 0 {
                    Ok(AttributeQueryValue::Optional(None))
                } else {
                    Ok(AttributeQueryValue::Optional(Some(found[0])))
                }
            },
        }
    }
}

impl Clone for AttributeQueryIndex {
    fn clone(&self) -> (r: Self)
        ensures
            r.same_contents(self),
    {
        proof {
            use_type_invariant(self);
        }
        let mut entries: Vec<(AttributeQuerySubject, SymbolId, AttributeAttachmentSet)> = Vec::new();
        let mut i: usize = 0;
        while i < self.entries.len()
            invariant
                i <= self.entries@.len(),
                entries@.len() == i,
                subjects_distinct(entry_views(self.entries@)),
                forall|k: int|
                    0 <= k < i ==> (#[trigger] entries@[k]).0 == self.entries@[k].0
                        && entries@[k].1 == self.entries@[k].1
                        && crate::attributes::attachment_contents(entries@[k].2@)
                        == crate::attributes::attachment_contents(self.entries@[k].2@),
            decreases self.entries.len() - i,
        {
            let entry = &self.entries[i];
            entries.push((entry.0, entry.1, entry.2.clone()));
            i = i + 1;
        }
        assert(subjects_distinct(entry_views(entries@))) by {
            assert forall|a: int, b: int|
                0 <= a < b < entry_views(entries@).len() implies (#[trigger] entry_views(
                    entries@,
                )[a]).subject != (#[trigger] entry_views(entries@)[b]).subject by {
                assert(entry_views(self.entries@)[a].subject != entry_views(self.entries@)[b].subject);
            }
        }
        AttributeQueryIndex {
            facts: self.facts.clone(),
            definitions: crate::ids::copy_vec(&self.definitions),
            entries,
        }
    }
}

/// What registering `subject` does: refuse an unknown visibility
/// declaration, then a subject registered before; else add the entry.
pub open spec fn registration(
    before: (ResolutionFactsView, Seq<(AttributeId, SymbolId, bool)>, Seq<QueryEntryView>),
    subject: AttributeQuerySubject,
    visibility: SymbolId,
    attachments: Seq<ResolvedAttribute>,
    r: Result<(), AttributeQueryIndexError>,
    after: Seq<QueryEntryView>,
) -> bool {
    if !before.0.declarations.contains(visibility) {
        r == Err::<(), AttributeQueryIndexError>(
            AttributeQueryIndexError::MissingVisibilityDefinition { definition: visibility },
        ) && after == before.2
    } else if entry_position(before.2, subject) is Some {
        r == Err::<(), AttributeQueryIndexError>(AttributeQueryIndexError::DuplicateSubject { subject })
            && after == before.2
    } else {
        r == Ok::<(), AttributeQueryIndexError>(()) && after == before.2.push(
            QueryEntryView { subject, visibility, attachments },
        )
    }
}

} // verus!
