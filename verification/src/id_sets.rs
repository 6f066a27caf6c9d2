//! Canonical sets of type identities: strictly ascending lists.
use vstd::prelude::*;

use crate::ids::TypeId;

verus! {

/// Sorted by raw identity and free of duplicates.
pub open spec fn strictly_ascending_ids(s: Seq<TypeId>) -> bool {
    forall|i: int, j: int| 0 <= i < j < s.len() ==> (#[trigger] s[i]).0 < (#[trigger] s[j]).0
}

/// Two strictly ascending lists with the same members are the same list.
pub proof fn lemma_ascending_ids_unique(a: Seq<TypeId>, b: Seq<TypeId>)
    requires
        strictly_ascending_ids(a),
        strictly_ascending_ids(b),
        forall|t: TypeId| a.contains(t) <==> b.contains(t),
    ensures
        a == b,
    decreases a.len(),
{
    if a.len() == 0 {
        if b.len() > 0 {
            assert(b.contains(b[0]));
        }
        assert(a =~= b);
    } else if b.len() == 0 {
        assert(a.contains(a[0]));
    } else {
        assert(a.contains(a[0]));
        assert(b.contains(b[0]));
        let i = choose|i: int| 0 <= i < a.len() && a[i] == b[0];
        let j = choose|j: int| 0 <= j < b.len() && b[j] == a[0];
        if i > 0 {
            assert(a[0].0 < a[i].0);
        }
        if j > 0 {
            assert(b[0].0 < b[j].0);
        }
        assert(a[0] == b[0]);
        let ta = a.drop_first();
        let tb = b.drop_first();
        assert forall|t: TypeId| ta.contains(t) <==> tb.contains(t) by {
            if ta.contains(t) {
                let k = choose|k: int| 0 <= k < ta.len() && ta[k] == t;
                assert(a[k + 1] == t);
                assert(a.contains(t));
                let m = choose|m: int| 0 <= m < b.len() && b[m] == t;
                if m == 0 {
                    assert(a[0].0 < a[k + 1].0);
                }
                assert(tb[m - 1] == t);
            }
            if tb.contains(t) {
                let k = choose|k: int| 0 <= k < tb.len() && tb[k] == t;
                assert(b[k + 1] == t);
                assert(b.contains(t));
                let m = choose|m: int| 0 <= m < a.len() && a[m] == t;
                if m == 0 {
                    assert(b[0].0 < b[k + 1].0);
                }
                assert(ta[m - 1] == t);
            }
        }
        lemma_ascending_ids_unique(ta, tb);
        assert(a =~= seq![a[0]] + ta);
        assert(b =~= seq![b[0]] + tb);
    }
}

/// `after` holds exactly the members of `before` and `x`.
pub open spec fn same_members_plus(after: Seq<TypeId>, before: Seq<TypeId>, x: TypeId) -> bool {
    forall|t: TypeId| after.contains(t) <==> (before.contains(t) || t == x)
}

/// Adds `x` to the strictly ascending list `v`, keeping it strictly ascending.
pub fn insert_sorted_id(v: &mut Vec<TypeId>, x: TypeId)
    requires
        strictly_ascending_ids(old(v)@),
    ensures
        strictly_ascending_ids(final(v)@),
        same_members_plus(final(v)@, old(v)@, x),
{
    let ghost before = v@;
    let mut pos: usize = 0;
    while pos < v.len()
        invariant
            pos <= v@.len(),
            before == v@,
            forall|k: int| 0 <= k < pos ==> (#[trigger] before[k]).0 < x.0,
        ensures
            pos <= v@.len(),
            before == v@,
            forall|k: int| 0 <= k < pos ==> (#[trigger] before[k]).0 < x.0,
            pos < v@.len() ==> before[pos as int].0 >= x.0,
        decreases v.len() - pos,
    {
        if v[pos].0 >= x.0 {
            break;
        }
        pos = pos + 1;
    }
    if pos < v.len() && v[pos].0 == x.0 {
        proof {
            assert(v@[pos as int] == x);
            assert forall|t: TypeId| v@.contains(t) <==> (before.contains(t) || t == x) by {
                if t == x {
                    assert(v@[pos as int] == t);
                }
            }
        }
        return;
    }
    v.insert(pos, x);
    proof {
        assert(v@ =~= before.insert(pos as int, x));
        assert forall|a: int, b: int| 0 <= a < b < v@.len() implies (#[trigger] v@[a]).0 < (
        #[trigger] v@[b]).0 by {
            if b < pos {
            } else if b == pos {
            } else if a < pos {
                assert(v@[b] == before[b - 1]);
            } else if a == pos {
                assert(v@[b] == before[b - 1]);
            } else {
                assert(v@[a] == before[a - 1]);
                assert(v@[b] == before[b - 1]);
            }
        }
        assert forall|t: TypeId| v@.contains(t) <==> (before.contains(t) || t == x) by {
            if v@.contains(t) {
                let k = choose|k: int| 0 <= k < v@.len() && v@[k] == t;
                if k < pos {
                    assert(before[k] == t);
                } else if k > pos {
                    assert(before[k - 1] == t);
                }
            }
            if before.contains(t) {
                let m = choose|m: int| 0 <= m < before.len() && before[m] == t;
                if m < pos {
                    assert(v@[m] == t);
                } else {
                    assert(v@[m + 1] == t);
                }
            }
            if t == x {
                assert(v@[pos as int] == t);
            }
        }
        assert(same_members_plus(v@, before, x));
    }
}

/// The first identity of `ids` that is not below `count`, if any.
pub open spec fn first_unknown(count: int, ids: Seq<TypeId>) -> Option<TypeId>
    decreases ids.len(),
{
    if ids.len() == 0 {
        None
    } else if ids[0].0 >= count {
        Some(ids[0])
    } else {
        first_unknown(count, ids.drop_first())
    }
}

/// The last identity of `ids` that is not below `count`, if any.
pub open spec fn last_unknown(count: int, ids: Seq<TypeId>) -> Option<TypeId>
    decreases ids.len(),
{
    if ids.len() == 0 {
        None
    } else if ids.last().0 >= count {
        Some(ids.last())
    } else {
        last_unknown(count, ids.drop_last())
    }
}

pub proof fn lemma_first_unknown_none(count: int, ids: Seq<TypeId>)
    ensures
        first_unknown(count, ids) is None <==> forall|k: int| 0 <= k < ids.len() ==> (#[trigger] ids[k]).0 < count,
    decreases ids.len(),
{
    if ids.len() > 0 {
        lemma_first_unknown_none(count, ids.drop_first());
        if ids[0].0 < count {
            assert forall|k: int| 0 <= k < ids.len() && (forall|j: int| 0 <= j < ids.drop_first().len() ==> (#[trigger] ids.drop_first()[j]).0 < count) implies (#[trigger] ids[k]).0 < count by {
                if k > 0 {
                    assert(ids[k] == ids.drop_first()[k - 1]);
                }
            }
            assert forall|j: int| 0 <= j < ids.drop_first().len() && (forall|k: int| 0 <= k < ids.len() ==> (#[trigger] ids[k]).0 < count) implies (#[trigger] ids.drop_first()[j]).0 < count by {
                assert(ids[j + 1] == ids.drop_first()[j]);
            }
        }
    }
}

pub proof fn lemma_last_unknown_none(count: int, ids: Seq<TypeId>)
    ensures
        last_unknown(count, ids) is None <==> forall|k: int| 0 <= k < ids.len() ==> (#[trigger] ids[k]).0 < count,
    decreases ids.len(),
{
    if ids.len() > 0 {
        lemma_last_unknown_none(count, ids.drop_last());
        if ids.last().0 < count {
            assert forall|k: int| 0 <= k < ids.len() && (forall|j: int| 0 <= j < ids.drop_last().len() ==> (#[trigger] ids.drop_last()[j]).0 < count) implies (#[trigger] ids[k]).0 < count by {
                if k < ids.len() - 1 {
                    assert(ids[k] == ids.drop_last()[k]);
                }
            }
        }
    }
}

/// The first identity of `ids` that is not below `count`, if any.
pub fn find_first_unknown(count: usize, ids: &[TypeId]) -> (r: Option<TypeId>)
    ensures
        r == first_unknown(count as int, ids@),
{
    let mut i: usize = 0;
    assert(ids@.skip(0) =~= ids@);
    while i < ids.len()
        invariant
            i <= ids@.len(),
            first_unknown(count as int, ids@) == first_unknown(count as int, ids@.skip(i as int)),
        decreases ids.len() - i,
    {
        assert(ids@.skip(i as int)[0] == ids@[i as int]);
        if (ids[i].0 as usize) >= count {
            return Some(ids[i]);
        }
        assert(ids@.skip(i as int).drop_first() =~= ids@.skip(i + 1));
        i = i + 1;
    }
    assert(ids@.skip(i as int).len() == 0);
    None
}

/// The last identity of `ids` that is not below `count`, if any.
pub fn find_last_unknown(count: usize, ids: &[TypeId]) -> (r: Option<TypeId>)
    ensures
        r == last_unknown(count as int, ids@),
{
    let mut i: usize = ids.len();
    assert(ids@.take(ids@.len() as int) =~= ids@);
    while i > 0
        invariant
            i <= ids@.len(),
            last_unknown(count as int, ids@) == last_unknown(count as int, ids@.take(i as int)),
        decreases i,
    {
        assert(ids@.take(i as int).last() == ids@[i - 1]);
        if (ids[i - 1].0 as usize) >= count {
            return Some(ids[i - 1]);
        }
        assert(ids@.take(i as int).drop_last() =~= ids@.take(i - 1));
        i = i - 1;
    }
    assert(ids@.take(0).len() == 0);
    None
}

} // verus!

verus! {

/// Lexicographic "less than" on identity lists, the order of `Vec<TypeId>`:
/// element by element, a proper prefix first.
pub open spec fn ids_lt(a: Seq<TypeId>, b: Seq<TypeId>) -> bool
    decreases a.len(),
{
    if a.len() == 0 {
        b.len() > 0
    } else if b.len() == 0 {
        false
    } else if a[0] != b[0] {
        a[0].0 < b[0].0
    } else {
        ids_lt(a.drop_first(), b.drop_first())
    }
}

pub proof fn lemma_ids_lt_irreflexive(a: Seq<TypeId>)
    ensures
        !ids_lt(a, a),
    decreases a.len(),
{
    if a.len() > 0 {
        lemma_ids_lt_irreflexive(a.drop_first());
    }
}

pub proof fn lemma_ids_lt_transitive(a: Seq<TypeId>, b: Seq<TypeId>, c: Seq<TypeId>)
    requires
        ids_lt(a, b),
        ids_lt(b, c),
    ensures
        ids_lt(a, c),
    decreases a.len(),
{
    if a.len() > 0 && b.len() > 0 && c.len() > 0 {
        if a[0] == b[0] && b[0] == c[0] {
            lemma_ids_lt_transitive(a.drop_first(), b.drop_first(), c.drop_first());
        }
    }
}

pub proof fn lemma_ids_lt_total(a: Seq<TypeId>, b: Seq<TypeId>)
    ensures
        a == b || ids_lt(a, b) || ids_lt(b, a),
    decreases a.len(),
{
    if a.len() > 0 && b.len() > 0 {
        if a[0] == b[0] {
            lemma_ids_lt_total(a.drop_first(), b.drop_first());
            if a.drop_first() == b.drop_first() {
                assert(a =~= seq![a[0]] + a.drop_first());
                assert(b =~= seq![b[0]] + b.drop_first());
            }
        }
    } else if a.len() == 0 && b.len() == 0 {
        assert(a =~= b);
    }
}

/// Whether `a` orders before `b`.
pub fn type_ids_lt(a: &[TypeId], b: &[TypeId]) -> (r: bool)
    ensures
        r == ids_lt(a@, b@),
{
    let mut i: usize = 0;
    assert(a@.skip(0) =~= a@);
    assert(b@.skip(0) =~= b@);
    while i < a.len() && i < b.len()
        invariant
            i <= a@.len(),
            i <= b@.len(),
            ids_lt(a@, b@) == ids_lt(a@.skip(i as int), b@.skip(i as int)),
        decreases a.len() - i,
    {
        assert(a@.skip(i as int)[0] == a@[i as int]);
        assert(b@.skip(i as int)[0] == b@[i as int]);
        if a[i] != b[i] {
            return a[i].0 < b[i].0;
        }
        assert(a@.skip(i as int).drop_first() =~= a@.skip(i + 1));
        assert(b@.skip(i as int).drop_first() =~= b@.skip(i + 1));
        i = i + 1;
    }
    i < b.len()
}

} // verus!
