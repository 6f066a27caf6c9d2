//! Lexicographic order on character sequences and canonical (sorted,
//! duplicate-free) lists.
use vstd::prelude::*;
use vstd::string::*;

use crate::ids::InterfaceId;

verus! {

/// Lexicographic "less than" on character sequences, by code point. It is
/// the order of Rust's `str` comparison, since UTF-8 preserves code point order.
pub open spec fn char_seq_lt(a: Seq<char>, b: Seq<char>) -> bool
    decreases a.len(),
{
    if a.len() == 0 {
        b.len() > 0
    } else if b.len() == 0 {
        false
    } else if a[0] != b[0] {
        (a[0] as int) < (b[0] as int)
    } else {
        char_seq_lt(a.drop_first(), b.drop_first())
    }
}

pub proof fn lemma_char_seq_lt_irreflexive(a: Seq<char>)
    ensures
        !char_seq_lt(a, a),
    decreases a.len(),
{
    if a.len() > 0 {
        lemma_char_seq_lt_irreflexive(a.drop_first());
    }
}

pub proof fn lemma_char_seq_lt_transitive(a: Seq<char>, b: Seq<char>, c: Seq<char>)
    requires
        char_seq_lt(a, b),
        char_seq_lt(b, c),
    ensures
        char_seq_lt(a, c),
    decreases a.len(),
{
    if a.len() > 0 && b.len() > 0 && c.len() > 0 {
        if a[0] == b[0] && b[0] == c[0] {
            lemma_char_seq_lt_transitive(a.drop_first(), b.drop_first(), c.drop_first());
        }
    }
}

pub proof fn lemma_char_seq_lt_total(a: Seq<char>, b: Seq<char>)
    ensures
        a == b || char_seq_lt(a, b) || char_seq_lt(b, a),
    decreases a.len(),
{
    if a.len() > 0 && b.len() > 0 {
        if a[0] == b[0] {
            lemma_char_seq_lt_total(a.drop_first(), b.drop_first());
            if a.drop_first() == b.drop_first() {
                assert(a =~= seq![a[0]] + a.drop_first());
                assert(b =~= seq![b[0]] + b.drop_first());
            }
        } else {
            assert((a[0] as int) != (b[0] as int));
        }
    } else if a.len() == 0 && b.len() == 0 {
        assert(a =~= b);
    }
}

pub proof fn lemma_char_seq_lt_asymmetric(a: Seq<char>, b: Seq<char>)
    requires
        char_seq_lt(a, b),
    ensures
        !char_seq_lt(b, a),
{
    if char_seq_lt(b, a) {
        lemma_char_seq_lt_transitive(a, b, a);
        lemma_char_seq_lt_irreflexive(a);
    }
}

/// Whether `a` orders before `b`.
pub fn str_lt(a: &str, b: &str) -> (r: bool)
    ensures
        r == char_seq_lt(a@, b@),
{
    let n = a.unicode_len();
    let m = b.unicode_len();
    let mut i: usize = 0;
    assert(a@.skip(0) =~= a@);
    assert(b@.skip(0) =~= b@);
    while i < n && i < m
        invariant
            n == a@.len(),
            m == b@.len(),
            i <= n,
            i <= m,
            char_seq_lt(a@, b@) == char_seq_lt(a@.skip(i as int), b@.skip(i as int)),
        decreases n - i,
    {
        let x = a.get_char(i);
        let y = b.get_char(i);
        assert(a@.skip(i as int)[0] == x);
        assert(b@.skip(i as int)[0] == y);
        if x != y {
            return (x as u32) < (y as u32);
        }
        assert(a@.skip(i as int).drop_first() =~= a@.skip(i + 1));
        assert(b@.skip(i as int).drop_first() =~= b@.skip(i + 1));
        i = i + 1;
    }
    i < m
}

proof fn lemma_push_contains(s: Seq<Seq<char>>, x: Seq<char>, t: Seq<char>)
    ensures
        s.push(x).contains(t) <==> (s.contains(t) || t == x),
{
    if s.push(x).contains(t) {
        let k = choose|k: int| 0 <= k < s.push(x).len() && s.push(x)[k] == t;
        if k < s.len() {
            assert(s[k] == t);
        }
    }
    if s.contains(t) {
        let k = choose|k: int| 0 <= k < s.len() && s[k] == t;
        assert(s.push(x)[k] == t);
    }
    assert(s.push(x)[s.len() as int] == x);
}

/// The character contents of a list of strings.
pub open spec fn string_views(v: Seq<String>) -> Seq<Seq<char>> {
    v.map_values(|s: String| s@)
}

/// Strictly ascending lexicographically: sorted and free of duplicates.
pub open spec fn strictly_ascending_text(s: Seq<Seq<char>>) -> bool {
    forall|i: int, j: int| 0 <= i < j < s.len() ==> char_seq_lt(#[trigger] s[i], #[trigger] s[j])
}

/// The strings of `v`, sorted and with duplicates removed.
pub fn sort_unique_strings(v: Vec<String>) -> (r: Vec<String>)
    ensures
        strictly_ascending_text(string_views(r@)),
        forall|t: Seq<char>| string_views(r@).contains(t) <==> string_views(v@).contains(t),
{
    let mut out: Vec<String> = Vec::new();
    let mut i: usize = 0;
    while i < v.len()
        invariant
            i <= v@.len(),
            strictly_ascending_text(string_views(out@)),
            forall|t: Seq<char>|
                string_views(out@).contains(t) <==> string_views(v@.take(i as int)).contains(t),
        decreases v.len() - i,
    {
        let x = v[i].clone();
        let ghost xs = x@;
        let ghost before = string_views(out@);
        let mut pos: usize = 0;
        while pos < out.len()
            invariant
                pos <= out@.len(),
                before == string_views(out@),
                xs == x@,
                forall|k: int| 0 <= k < pos ==> char_seq_lt(#[trigger] before[k], xs),
            ensures
                pos <= out@.len(),
                forall|k: int| 0 <= k < pos ==> char_seq_lt(#[trigger] before[k], xs),
                pos < out@.len() ==> !char_seq_lt(before[pos as int], xs),
            decreases out.len() - pos,
        {
            assert(before[pos as int] == out@[pos as int]@);
            if !str_lt(out[pos].as_str(), x.as_str()) {
                break;
            }
            pos = pos + 1;
        }
        let duplicate = pos < out.len() && crate::text::str_eq(out[pos].as_str(), x.as_str());
        proof {
            assert(v@.take(i + 1) =~= v@.take(i as int).push(v@[i as int]));
            assert(string_views(v@.take(i + 1)) =~= string_views(v@.take(i as int)).push(xs));
        }
        if !duplicate {
            proof {
                if pos < out.len() {
                    lemma_char_seq_lt_total(before[pos as int], xs);
                }
            }
            out.insert(pos, x);
            proof {
                let after = string_views(out@);
                assert(after =~= before.insert(pos as int, xs));
                assert forall|a: int, b: int| 0 <= a < b < after.len() implies char_seq_lt(
                    #[trigger] after[a],
                    #[trigger] after[b],
                ) by {
                    if b < pos {
                    } else if b == pos {
                    } else if a < pos {
                        lemma_char_seq_lt_transitive(after[a], xs, before[pos as int]);
                        if b - 1 > pos {
                            lemma_char_seq_lt_transitive(after[a], before[pos as int], after[b]);
                        }
                    } else if a == pos {
                        if b - 1 > pos {
                            lemma_char_seq_lt_transitive(xs, before[pos as int], after[b]);
                        }
                    } else {
                        assert(after[a] == before[a - 1]);
                        assert(after[b] == before[b - 1]);
                    }
                }
                assert forall|t: Seq<char>| after.contains(t) <==> before.push(xs).contains(t) by {
                    if after.contains(t) {
                        let k = choose|k: int| 0 <= k < after.len() && after[k] == t;
                        if k < pos {
                            assert(before.push(xs)[k] == t);
                        } else if k > pos {
                            assert(before.push(xs)[k - 1] == t);
                        } else {
                            assert(before.push(xs)[before.len() as int] == t);
                        }
                    }
                    if before.push(xs).contains(t) {
                        let k = choose|k: int| 0 <= k < before.push(xs).len() && before.push(xs)[k] == t;
                        if k == before.len() {
                            assert(after[pos as int] == t);
                        } else if k < pos {
                            assert(after[k] == t);
                        } else {
                            assert(after[k + 1] == t);
                        }
                    }
                }
            }
        } else {
            proof {
                assert forall|t: Seq<char>| before.contains(t) <==> before.push(xs).contains(t) by {
                    if before.push(xs).contains(t) {
                        let k = choose|k: int| 0 <= k < before.push(xs).len() && before.push(xs)[k] == t;
                        if k == before.len() {
                            assert(before[pos as int] == t);
                        } else {
                            assert(before[k] == t);
                        }
                    }
                    if before.contains(t) {
                        let k = choose|k: int| 0 <= k < before.len() && before[k] == t;
                        assert(before.push(xs)[k] == t);
                    }
                }
            }
        }
        proof {
            let now = string_views(out@);
            let prefix = string_views(v@.take(i as int));
            assert forall|t: Seq<char>| now.contains(t) <==> string_views(v@.take(i + 1)).contains(t) by {
                lemma_push_contains(before, xs, t);
                lemma_push_contains(prefix, xs, t);
            }
        }
        i = i + 1;
    }
    proof {
        assert(v@.take(v@.len() as int) =~= v@);
    }
    out
}

/// Strictly ascending by raw identity: sorted and free of duplicates.
pub open spec fn strictly_ascending_interfaces(s: Seq<InterfaceId>) -> bool {
    forall|i: int, j: int| 0 <= i < j < s.len() ==> (#[trigger] s[i]).0 < (#[trigger] s[j]).0
}

/// The interfaces of `v`, sorted by identity and with duplicates removed.
pub fn sort_unique_interfaces(v: Vec<InterfaceId>) -> (r: Vec<InterfaceId>)
    ensures
        strictly_ascending_interfaces(r@),
        forall|t: InterfaceId| r@.contains(t) <==> v@.contains(t),
{
    let mut out: Vec<InterfaceId> = Vec::new();
    let mut i: usize = 0;
    while i < v.len()
        invariant
            i <= v@.len(),
            strictly_ascending_interfaces(out@),
            forall|t: InterfaceId| out@.contains(t) <==> v@.take(i as int).contains(t),
        decreases v.len() - i,
    {
        let x = v[i];
        let ghost before = out@;
        let mut pos: usize = 0;
        while pos < out.len()
            invariant
                pos <= out@.len(),
                before == out@,
                forall|k: int| 0 <= k < pos ==> (#[trigger] before[k]).0 < x.0,
            ensures
                pos <= out@.len(),
                forall|k: int| 0 <= k < pos ==> (#[trigger] before[k]).0 < x.0,
                pos < out@.len() ==> before[pos as int].0 >= x.0,
            decreases out.len() - pos,
        {
            if out[pos].0 >= x.0 {
                break;
            }
            pos = pos + 1;
        }
        let ghost nxt = v@.take(i + 1);
        let ghost prev = v@.take(i as int);
        proof {
            assert(nxt =~= prev.push(x));
        }
        if pos < out.len() && out[pos].0 == x.0 {
            proof {
                assert forall|t: InterfaceId| out@.contains(t) <==> nxt.contains(t) by {
                    if nxt.contains(t) {
                        let k = choose|k: int| 0 <= k < nxt.len() && nxt[k] == t;
                        if k == i {
                            assert(out@[pos as int] == t);
                        } else {
                            assert(prev[k] == t);
                        }
                    }
                    if out@.contains(t) {
                        assert(prev.contains(t));
                        let k = choose|k: int| 0 <= k < prev.len() && prev[k] == t;
                        assert(nxt[k] == t);
                    }
                }
            }
        } else {
            out.insert(pos, x);
            proof {
                assert(out@ =~= before.insert(pos as int, x));
                assert forall|a: int, b: int| 0 <= a < b < out@.len() implies (#[trigger] out@[a]).0
                    < (#[trigger] out@[b]).0 by {
                    if b < pos {
                    } else if b == pos {
                    } else if a < pos {
                        assert(out@[b] == before[b - 1]);
                    } else if a == pos {
                        assert(out@[b] == before[b - 1]);
                    } else {
                        assert(out@[a] == before[a - 1]);
                        assert(out@[b] == before[b - 1]);
                    }
                }
                assert forall|t: InterfaceId| out@.contains(t) <==> nxt.contains(t) by {
                    if out@.contains(t) {
                        let k = choose|k: int| 0 <= k < out@.len() && out@[k] == t;
                        if k < pos {
                            assert(before[k] == t);
                            assert(before.contains(t));
                            assert(prev.contains(t));
                            let m = choose|m: int| 0 <= m < prev.len() && prev[m] == t;
                            assert(nxt[m] == t);
                        } else if k > pos {
                            assert(before[k - 1] == t);
                            assert(before.contains(t));
                            assert(prev.contains(t));
                            let m = choose|m: int| 0 <= m < prev.len() && prev[m] == t;
                            assert(nxt[m] == t);
                        } else {
                            assert(nxt[i as int] == t);
                        }
                    }
                    if nxt.contains(t) {
                        let k = choose|k: int| 0 <= k < nxt.len() && nxt[k] == t;
                        if k == i {
                            assert(out@[pos as int] == t);
                        } else {
                            assert(prev[k] == t);
                            assert(before.contains(t));
                            let m = choose|m: int| 0 <= m < before.len() && before[m] == t;
                            if m < pos {
                                assert(out@[m] == t);
                            } else {
                                assert(out@[m + 1] == t);
                            }
                        }
                    }
                }
            }
        }
        i = i + 1;
    }
    proof {
        assert(v@.take(v@.len() as int) =~= v@);
    }
    out
}

} // verus!
