//! Keyed tables of the arena: concrete class specializations, and the
//! assignment of types to generic parameters.
use vstd::prelude::*;

use crate::id_sets::{ids_lt, lemma_ids_lt_irreflexive, lemma_ids_lt_total, lemma_ids_lt_transitive, type_ids_lt};
use crate::ids::{ClassId, ParameterId, TypeId};
use crate::semantic::{copy_type_ids, type_ids_eq};

verus! {

/// One recorded class specialization: a generic class, its arguments, and the
/// concrete nominal type chosen for them.
#[derive(Debug)]
pub struct ClassSpecialization {
    pub class: ClassId,
    pub arguments: Vec<TypeId>,
    pub concrete: TypeId,
}

/// The key order of specializations: by class, then by argument list.
pub open spec fn class_key_lt(a: (ClassId, Seq<TypeId>), b: (ClassId, Seq<TypeId>)) -> bool {
    a.0.0 < b.0.0 || (a.0 == b.0 && ids_lt(a.1, b.1))
}

/// The key of a specialization entry.
pub open spec fn entry_key(e: (ClassId, Seq<TypeId>, TypeId)) -> (ClassId, Seq<TypeId>) {
    (e.0, e.1)
}

/// Entries in strictly ascending key order, so no key occurs twice.
pub open spec fn keys_ascending(s: Seq<(ClassId, Seq<TypeId>, TypeId)>) -> bool {
    forall|i: int, j: int|
        0 <= i < j < s.len() ==> class_key_lt(entry_key(#[trigger] s[i]), entry_key(#[trigger] s[j]))
}

/// The concrete type recorded for `class` and `arguments`, if any.
pub open spec fn class_lookup(s: Seq<(ClassId, Seq<TypeId>, TypeId)>, class: ClassId, arguments: Seq<TypeId>) -> Option<TypeId>
    decreases s.len(),
{
    if s.len() == 0 {
        None
    } else if s[0].0 == class && s[0].1 == arguments {
        Some(s[0].2)
    } else {
        class_lookup(s.drop_first(), class, arguments)
    }
}

/// The class of the first entry, in key order, whose concrete type is `concrete`.
pub open spec fn first_class_of_instance(s: Seq<(ClassId, Seq<TypeId>, TypeId)>, concrete: TypeId) -> Option<ClassId>
    decreases s.len(),
{
    if s.len() == 0 {
        None
    } else if s[0].2 == concrete {
        Some(s[0].0)
    } else {
        first_class_of_instance(s.drop_first(), concrete)
    }
}

proof fn lemma_class_key_lt_transitive(a: (ClassId, Seq<TypeId>), b: (ClassId, Seq<TypeId>), c: (ClassId, Seq<TypeId>))
    requires
        class_key_lt(a, b),
        class_key_lt(b, c),
    ensures
        class_key_lt(a, c),
{
    if a.0 == b.0 && b.0 == c.0 {
        lemma_ids_lt_transitive(a.1, b.1, c.1);
    }
}

pub proof fn lemma_class_key_lt_irreflexive(a: (ClassId, Seq<TypeId>))
    ensures
        !class_key_lt(a, a),
{
    lemma_ids_lt_irreflexive(a.1);
}

pub proof fn lemma_class_lookup_index(s: Seq<(ClassId, Seq<TypeId>, TypeId)>, i: int)
    requires
        keys_ascending(s),
        0 <= i < s.len(),
    ensures
        class_lookup(s, s[i].0, s[i].1) == Some(s[i].2),
    decreases s.len(),
{
    if i > 0 {
        lemma_class_key_lt_irreflexive(entry_key(s[0]));
        assert(class_key_lt(entry_key(s[0]), entry_key(s[i])));
        if s[0].0 == s[i].0 && s[0].1 == s[i].1 {
            assert(entry_key(s[0]) == entry_key(s[i]));
        }
        assert forall|a: int, b: int| 0 <= a < b < s.drop_first().len() implies class_key_lt(
            entry_key(#[trigger] s.drop_first()[a]),
            entry_key(#[trigger] s.drop_first()[b]),
        ) by {
            assert(s.drop_first()[a] == s[a + 1] && s.drop_first()[b] == s[b + 1]);
        }
        assert(s.drop_first()[i - 1] == s[i]);
        lemma_class_lookup_index(s.drop_first(), i - 1);
    }
}

pub proof fn lemma_class_lookup_absent(s: Seq<(ClassId, Seq<TypeId>, TypeId)>, class: ClassId, arguments: Seq<TypeId>)
    requires
        forall|i: int| 0 <= i < s.len() ==> !((#[trigger] s[i]).0 == class && s[i].1 == arguments),
    ensures
        class_lookup(s, class, arguments) is None,
    decreases s.len(),
{
    if s.len() > 0 {
        assert(!(s[0].0 == class && s[0].1 == arguments));
        assert forall|i: int| 0 <= i < s.drop_first().len() implies !((#[trigger] s.drop_first()[i]).0 == class
            && s.drop_first()[i].1 == arguments) by {
            assert(s.drop_first()[i] == s[i + 1]);
        }
        lemma_class_lookup_absent(s.drop_first(), class, arguments);
    }
}

proof fn lemma_lookup_after_replace(
    before: Seq<(ClassId, Seq<TypeId>, TypeId)>,
    after: Seq<(ClassId, Seq<TypeId>, TypeId)>,
    pos: int,
    class: ClassId,
    arguments: Seq<TypeId>,
    concrete: TypeId,
)
    requires
        keys_ascending(before),
        keys_ascending(after),
        0 <= pos < before.len(),
        before[pos].0 == class && before[pos].1 == arguments,
        after == before.update(pos, (class, arguments, concrete)),
    ensures
        forall|c: ClassId, a: Seq<TypeId>| #[trigger] class_lookup(after, c, a) == if c == class && a
            == arguments {
            Some(concrete)
        } else {
            class_lookup(before, c, a)
        },
{
    assert forall|c: ClassId, a: Seq<TypeId>| #[trigger] class_lookup(after, c, a) == if c == class && a
        == arguments {
        Some(concrete)
    } else {
        class_lookup(before, c, a)
    } by {
        lemma_class_lookup_index(after, pos);
        if !(c == class && a == arguments) {
            if exists|i: int| 0 <= i < before.len() && before[i].0 == c && before[i].1 == a {
                let i = choose|i: int| 0 <= i < before.len() && before[i].0 == c && before[i].1 == a;
                lemma_class_lookup_index(before, i);
                assert(after[i] == before[i]);
                lemma_class_lookup_index(after, i);
            } else {
                lemma_class_lookup_absent(before, c, a);
                assert forall|i: int| 0 <= i < after.len() implies !((#[trigger] after[i]).0 == c
                    && after[i].1 == a) by {
                    if i != pos {
                        assert(after[i] == before[i]);
                    }
                }
                lemma_class_lookup_absent(after, c, a);
            }
        }
    }
}

/// The concrete types chosen for generic class templates, keyed by template
/// and argument list and kept in key order.
#[derive(Debug)]
pub struct ClassSpecializations {
    entries: Vec<ClassSpecialization>,
}

/// The abstract content of specialization entries.
pub open spec fn specialization_views(v: Seq<ClassSpecialization>) -> Seq<(ClassId, Seq<TypeId>, TypeId)> {
    v.map_values(|s: ClassSpecialization| (s.class, s.arguments@, s.concrete))
}

impl View for ClassSpecializations {
    type V = Seq<(ClassId, Seq<TypeId>, TypeId)>;

    closed spec fn view(&self) -> Seq<(ClassId, Seq<TypeId>, TypeId)> {
        specialization_views(self.entries@)
    }
}

impl ClassSpecializations {
    #[verifier::type_invariant]
    closed spec fn ordered(&self) -> bool {
        keys_ascending(specialization_views(self.entries@))
    }

    /// An empty table.
    pub fn new() -> (r: Self)
        ensures
            r@ == Seq::<(ClassId, Seq<TypeId>, TypeId)>::empty(),
    {
        let r = ClassSpecializations { entries: Vec::new() };
        assert(specialization_views(r.entries@) =~= Seq::<(ClassId, Seq<TypeId>, TypeId)>::empty());
        r
    }

    /// Number of entries.
    pub fn len(&self) -> (r: usize)
        ensures
            r == self@.len(),
    {
        self.entries.len()
    }

    /// The concrete type recorded for `class` and `arguments`, if any.
    pub fn get(&self, class: ClassId, arguments: &[TypeId]) -> (r: Option<TypeId>)
        ensures
            r == class_lookup(self@, class, arguments@),
    {
        let mut i: usize = 0;
        let ghost s = self@;
        assert(s.skip(0) =~= s);
        while i < self.entries.len()
            invariant
                i <= self.entries@.len(),
                s == self@,
                s.len() == self.entries@.len(),
                class_lookup(s, class, arguments@) == class_lookup(s.skip(i as int), class, arguments@),
            decreases self.entries.len() - i,
        {
            let e = &self.entries[i];
            assert(s.skip(i as int)[0] == s[i as int]);
            if e.class == class && type_ids_eq(e.arguments.as_slice(), arguments) {
                return Some(e.concrete);
            }
            assert(s.skip(i as int).drop_first() =~= s.skip(i + 1));
            i = i + 1;
        }
        None
    }

    /// The class of the first entry, in key order, whose concrete type is `concrete`.
    pub fn first_class_of_instance(&self, concrete: TypeId) -> (r: Option<ClassId>)
        ensures
            r == first_class_of_instance(self@, concrete),
    {
        let mut i: usize = 0;
        let ghost s = self@;
        assert(s.skip(0) =~= s);
        while i < self.entries.len()
            invariant
                i <= self.entries@.len(),
                s == self@,
                s.len() == self.entries@.len(),
                first_class_of_instance(s, concrete) == first_class_of_instance(s.skip(i as int), concrete),
            decreases self.entries.len() - i,
        {
            assert(s.skip(i as int)[0] == s[i as int]);
            if self.entries[i].concrete == concrete {
                return Some(self.entries[i].class);
            }
            assert(s.skip(i as int).drop_first() =~= s.skip(i + 1));
            i = i + 1;
        }
        None
    }

    /// Records `concrete` for `class` and `arguments`, replacing an earlier
    /// entry with the same key.
    pub fn insert(&mut self, class: ClassId, arguments: Vec<TypeId>, concrete: TypeId)
        ensures
            keys_ascending(final(self)@),
            forall|i: int|
                0 <= i < final(self)@.len() ==> #[trigger] final(self)@[i] == (class, arguments@, concrete)
                    || old(self)@.contains(final(self)@[i]),
            forall|c: ClassId, a: Seq<TypeId>| #[trigger] class_lookup(final(self)@, c, a) == if c == class && a
                == arguments@ {
                Some(concrete)
            } else {
                class_lookup(old(self)@, c, a)
            },
    {
        proof {
            use_type_invariant(&*self);
        }
        let ghost before = self@;
        let ghost key = (class, arguments@);
        let mut pos: usize = 0;
        while pos < self.entries.len()
            invariant
                pos <= self.entries@.len(),
                key == (class, arguments@),
                before == self@,
                before.len() == self.entries@.len(),
                keys_ascending(before),
                forall|k: int| 0 <= k < pos ==> class_key_lt(entry_key(#[trigger] before[k]), key),
            ensures
                pos <= self.entries@.len(),
                before == self@,
                before.len() == self.entries@.len(),
                forall|k: int| 0 <= k < pos ==> class_key_lt(entry_key(#[trigger] before[k]), key),
                pos < before.len() ==> !class_key_lt(entry_key(before[pos as int]), key),
            decreases self.entries.len() - pos,
        {
            let e = &self.entries[pos];
            assert(entry_key(before[pos as int]) == (e.class, e.arguments@));
            let less = e.class.0 < class.0 || (e.class == class && type_ids_lt(
                e.arguments.as_slice(),
                arguments.as_slice(),
            ));
            if !less {
                break;
            }
            pos = pos + 1;
        }
        let replace = pos < self.entries.len() && self.entries[pos].class == class && type_ids_eq(
            self.entries[pos].arguments.as_slice(),
            arguments.as_slice(),
        );
        let ghost new_entry = (class, arguments@, concrete);
        let mut entries: Vec<ClassSpecialization> = Vec::new();
        std::mem::swap(&mut entries, &mut self.entries);
        if replace {
            entries.set(pos, ClassSpecialization { class, arguments, concrete });
            proof {
                let after = specialization_views(entries@);
                assert(after =~= before.update(pos as int, new_entry));
                assert(entry_key(before[pos as int]) == key);
                assert forall|i: int, j: int| 0 <= i < j < after.len() implies class_key_lt(
                    entry_key(#[trigger] after[i]),
                    entry_key(#[trigger] after[j]),
                ) by {
                    assert(class_key_lt(entry_key(before[i]), entry_key(before[j])));
                }
                lemma_lookup_after_replace(before, after, pos as int, class, arguments@, concrete);
            }
        } else {
            entries.insert(pos, ClassSpecialization { class, arguments, concrete });
            proof {
                let after = specialization_views(entries@);
                assert(after =~= before.insert(pos as int, new_entry));
                if pos < before.len() {
                    lemma_ids_lt_total(before[pos as int].1, key.1);
                    assert(class_key_lt(key, entry_key(before[pos as int])));
                }
                assert forall|i: int, j: int| 0 <= i < j < after.len() implies class_key_lt(
                    entry_key(#[trigger] after[i]),
                    entry_key(#[trigger] after[j]),
                ) by {
                    if j < pos {
                        assert(class_key_lt(entry_key(before[i]), entry_key(before[j])));
                    } else if j == pos {
                        assert(after[j] == new_entry);
                    } else if i < pos {
                        assert(after[j] == before[j - 1]);
                        if j - 1 > pos {
                            assert(class_key_lt(entry_key(before[pos as int]), entry_key(before[j - 1])));
                            lemma_class_key_lt_transitive(key, entry_key(before[pos as int]), entry_key(before[j - 1]));
                        }
                        lemma_class_key_lt_transitive(entry_key(before[i]), key, entry_key(before[j - 1]));
                    } else if i == pos {
                        assert(after[j] == before[j - 1]);
                        if j - 1 > pos {
                            assert(class_key_lt(entry_key(before[pos as int]), entry_key(before[j - 1])));
                            lemma_class_key_lt_transitive(key, entry_key(before[pos as int]), entry_key(before[j - 1]));
                        }
                    } else {
                        assert(after[i] == before[i - 1] && after[j] == before[j - 1]);
                        assert(class_key_lt(entry_key(before[i - 1]), entry_key(before[j - 1])));
                    }
                }
                assert forall|i: int| 0 <= i < after.len() implies #[trigger] after[i] == new_entry
                    || before.contains(after[i]) by {
                    if i < pos {
                        assert(after[i] == before[i]);
                    } else if i > pos {
                        assert(after[i] == before[i - 1]);
                    }
                }
                assert forall|c: ClassId, a: Seq<TypeId>| #[trigger] class_lookup(after, c, a) == if c == class && a
                    == key.1 {
                    Some(concrete)
                } else {
                    class_lookup(before, c, a)
                } by {
                    lemma_class_lookup_index(after, pos as int);
                    if !(c == class && a == key.1) {
                        if exists|i: int| 0 <= i < before.len() && before[i].0 == c && before[i].1 == a {
                            let i = choose|i: int| 0 <= i < before.len() && before[i].0 == c && before[i].1 == a;
                            lemma_class_lookup_index(before, i);
                            if i < pos {
                                assert(after[i] == before[i]);
                                lemma_class_lookup_index(after, i);
                            } else {
                                assert(after[i + 1] == before[i]);
                                lemma_class_lookup_index(after, i + 1);
                            }
                        } else {
                            lemma_class_lookup_absent(before, c, a);
                            assert forall|i: int| 0 <= i < after.len() implies !((#[trigger] after[i]).0 == c
                                && after[i].1 == a) by {
                                if i < pos {
                                    assert(after[i] == before[i]);
                                } else if i > pos {
                                    assert(after[i] == before[i - 1]);
                                }
                            }
                            lemma_class_lookup_absent(after, c, a);
                        }
                    }
                }
            }
        }
        self.entries = entries;
    }

    /// The entries, in key order.
    pub fn entries(&self) -> (r: Vec<(ClassId, Vec<TypeId>, TypeId)>)
        ensures
            keys_ascending(self@),
            r@.len() == self@.len(),
            forall|i: int| 0 <= i < r@.len() ==> (#[trigger] r@[i]).0 == self@[i].0 && r@[i].1@ == self@[i].1
                && r@[i].2 == self@[i].2,
    {
        proof {
            use_type_invariant(self);
        }
        let mut out: Vec<(ClassId, Vec<TypeId>, TypeId)> = Vec::new();
        let mut i: usize = 0;
        while i < self.entries.len()
            invariant
                i <= self.entries@.len(),
                out@.len() == i,
                forall|k: int| 0 <= k < i ==> (#[trigger] out@[k]).0 == self@[k].0 && out@[k].1@ == self@[k].1
                    && out@[k].2 == self@[k].2,
            decreases self.entries.len() - i,
        {
            let e = &self.entries[i];
            out.push((e.class, copy_type_ids(e.arguments.as_slice()), e.concrete));
            i = i + 1;
        }
        out
    }
}

/// Types assigned to generic parameters; each parameter at most once.
#[derive(Debug)]
pub struct TypeSubstitutions {
    entries: Vec<(ParameterId, TypeId)>,
}

/// The assignment held by a list of distinct parameter entries.
pub open spec fn substitution_map(s: Seq<(ParameterId, TypeId)>) -> Map<ParameterId, TypeId> {
    Map::new(
        |p: ParameterId| exists|i: int| 0 <= i < s.len() && s[i].0 == p,
        |p: ParameterId| s[choose|i: int| 0 <= i < s.len() && s[i].0 == p].1,
    )
}

impl View for TypeSubstitutions {
    type V = Map<ParameterId, TypeId>;

    closed spec fn view(&self) -> Map<ParameterId, TypeId> {
        substitution_map(self.entries@)
    }
}

impl TypeSubstitutions {
    #[verifier::type_invariant]
    closed spec fn distinct(&self) -> bool {
        forall|i: int, j: int|
            0 <= i < j < self.entries@.len() ==> (#[trigger] self.entries@[i]).0 != (#[trigger] self.entries@[j]).0
    }

    /// No parameter assigned.
    pub fn new() -> (r: Self)
        ensures
            r@ == Map::<ParameterId, TypeId>::empty(),
    {
        let r = TypeSubstitutions { entries: Vec::new() };
        assert(substitution_map(r.entries@) =~= Map::<ParameterId, TypeId>::empty());
        r
    }

    /// Assigns `value` to `parameter`, replacing an earlier assignment.
    pub fn insert(&mut self, parameter: ParameterId, value: TypeId)
        ensures
            final(self)@ == old(self)@.insert(parameter, value),
    {
        proof {
            use_type_invariant(&*self);
        }
        let ghost before = self.entries@;
        let mut i: usize = 0;
        while i < self.entries.len()
            invariant
                i <= self.entries@.len(),
                before == self.entries@,
                forall|k: int| 0 <= k < i ==> (#[trigger] before[k]).0 != parameter,
            ensures
                i <= self.entries@.len(),
                before == self.entries@,
                forall|k: int| 0 <= k < i ==> (#[trigger] before[k]).0 != parameter,
                i < before.len() ==> before[i as int].0 == parameter,
            decreases self.entries.len() - i,
        {
            if self.entries[i].0 == parameter {
                break;
            }
            i = i + 1;
        }
        let mut entries: Vec<(ParameterId, TypeId)> = Vec::new();
        std::mem::swap(&mut entries, &mut self.entries);
        if i < entries.len() {
            entries.set(i, (parameter, value));
            proof {
                let after = entries@;
                assert(after =~= before.update(i as int, (parameter, value)));
                assert forall|a: int, b: int| 0 <= a < b < after.len() implies (#[trigger] after[a]).0
                    != (#[trigger] after[b]).0 by {
                    assert(before[a].0 != before[b].0);
                }
                assert(substitution_map(after) =~= substitution_map(before).insert(parameter, value)) by {
                    assert forall|p: ParameterId| #[trigger] substitution_map(after).contains_key(p)
                        implies substitution_map(after)[p] == substitution_map(before).insert(parameter, value)[p] by {
                        let c = choose|c: int| 0 <= c < after.len() && after[c].0 == p;
                        if p == parameter {
                            if c != i {
                                assert(after[c].0 != after[i as int].0);
                            }
                        } else {
                            let d = choose|d: int| 0 <= d < before.len() && before[d].0 == p;
                            if c != d {
                                assert(before[c] == after[c]);
                                if c < d {
                                    assert(before[c].0 != before[d].0);
                                } else {
                                    assert(before[d].0 != before[c].0);
                                }
                            }
                        }
                    }
                    assert forall|p: ParameterId| substitution_map(before).insert(parameter, value).contains_key(p)
                        implies #[trigger] substitution_map(after).contains_key(p) by {
                        if p == parameter {
                            assert(after[i as int].0 == p);
                        } else {
                            let d = choose|d: int| 0 <= d < before.len() && before[d].0 == p;
                            assert(after[d].0 == p);
                        }
                    }
                }
            }
        } else {
            entries.push((parameter, value));
            proof {
                let after = entries@;
                assert(after =~= before.push((parameter, value)));
                assert forall|a: int, b: int| 0 <= a < b < after.len() implies (#[trigger] after[a]).0
                    != (#[trigger] after[b]).0 by {
                    if b < before.len() {
                        assert(before[a].0 != before[b].0);
                    } else {
                        assert(after[a] == before[a]);
                    }
                }
                assert(substitution_map(after) =~= substitution_map(before).insert(parameter, value)) by {
                    assert forall|p: ParameterId| #[trigger] substitution_map(after).contains_key(p)
                        implies substitution_map(after)[p] == substitution_map(before).insert(parameter, value)[p] by {
                        let c = choose|c: int| 0 <= c < after.len() && after[c].0 == p;
                        if p == parameter {
                            assert(c == before.len());
                        } else {
                            let d = choose|d: int| 0 <= d < before.len() && before[d].0 == p;
                            assert(after[d] == before[d]);
                            if c != d {
                                if c < d {
                                    assert(after[c].0 != after[d].0);
                                } else {
                                    assert(after[d].0 != after[c].0);
                                }
                            }
                        }
                    }
                    assert forall|p: ParameterId| substitution_map(before).insert(parameter, value).contains_key(p)
                        implies #[trigger] substitution_map(after).contains_key(p) by {
                        if p == parameter {
                            assert(after[before.len() as int].0 == p);
                        } else {
                            let d = choose|d: int| 0 <= d < before.len() && before[d].0 == p;
                            assert(after[d].0 == p);
                        }
                    }
                }
            }
        }
        self.entries = entries;
    }

    /// The type assigned to `parameter`, if any.
    pub fn get(&self, parameter: ParameterId) -> (r: Option<TypeId>)
        ensures
            r == if self@.contains_key(parameter) {
                Some(self@[parameter])
            } else {
                None
            },
    {
        proof {
            use_type_invariant(self);
        }
        let mut i: usize = 0;
        while i < self.entries.len()
            invariant
                i <= self.entries@.len(),
                forall|a: int, b: int|
                    0 <= a < b < self.entries@.len() ==> (#[trigger] self.entries@[a]).0 != (
                    #[trigger] self.entries@[b]).0,
                forall|k: int| 0 <= k < i ==> (#[trigger] self.entries@[k]).0 != parameter,
            decreases self.entries.len() - i,
        {
            if self.entries[i].0 == parameter {
                proof {
                    let s = self.entries@;
                    assert(substitution_map(s).contains_key(parameter));
                    let c = choose|c: int| 0 <= c < s.len() && s[c].0 == parameter;
                    if c != i {
                        if c < i {
                            assert(s[c].0 != s[i as int].0);
                        } else {
                            assert(s[i as int].0 != s[c].0);
                        }
                    }
                }
                return Some(self.entries[i].1);
            }
            i = i + 1;
        }
        None
    }
}

impl Clone for ClassSpecializations {
    fn clone(&self) -> (r: Self)
        ensures
            r@ == self@,
    {
        proof {
            use_type_invariant(self);
        }
        let mut entries: Vec<ClassSpecialization> = Vec::new();
        let mut i: usize = 0;
        while i < self.entries.len()
            invariant
                i <= self.entries@.len(),
                entries@.len() == i,
                forall|k: int|
                    0 <= k < i ==> (#[trigger] entries@[k]).class == self.entries@[k].class
                        && entries@[k].arguments@ == self.entries@[k].arguments@
                        && entries@[k].concrete == self.entries@[k].concrete,
            decreases self.entries.len() - i,
        {
            let e = &self.entries[i];
            entries.push(
                ClassSpecialization {
                    class: e.class,
                    arguments: crate::ids::copy_vec(&e.arguments),
                    concrete: e.concrete,
                },
            );
            i = i + 1;
        }
        assert(specialization_views(entries@) =~= specialization_views(self.entries@));
        ClassSpecializations { entries }
    }
}

} // verus!
