//! Text ordering and stable sorting. Texts are ordered character by
//! character by code point, which is the order of std's `String` (byte-wise
//! UTF-8 order coincides with code-point order).
use crate::text::chars_of;
use vstd::prelude::*;

verus! {

/// `a` sorts strictly before `b`.
pub open spec fn lex_less(a: Seq<char>, b: Seq<char>) -> bool
    decreases a.len(),
{
    if a.len() == 0 {
        b.len() > 0
    } else if b.len() == 0 {
        false
    } else if (a[0] as int) < (b[0] as int) {
        true
    } else if a[0] == b[0] {
        lex_less(a.drop_first(), b.drop_first())
    } else {
        false
    }
}

pub proof fn lemma_lex_irreflexive(a: Seq<char>)
    ensures
        !lex_less(a, a),
    decreases a.len(),
{
    if a.len() > 0 {
        lemma_lex_irreflexive(a.drop_first());
    }
}

pub proof fn lemma_lex_total(a: Seq<char>, b: Seq<char>)
    ensures
        a == b || lex_less(a, b) || lex_less(b, a),
        !(lex_less(a, b) && lex_less(b, a)),
    decreases a.len(),
{
    if a.len() > 0 && b.len() > 0 {
        lemma_lex_total(a.drop_first(), b.drop_first());
        if a[0] == b[0] && a.drop_first() == b.drop_first() {
            assert(a =~= seq![a[0]] + a.drop_first());
            assert(b =~= seq![b[0]] + b.drop_first());
        }
        if a[0] != b[0] {
            assert((a[0] as int) != (b[0] as int));
        }
    } else if a.len() == 0 && b.len() == 0 {
        assert(a =~= b);
    }
}

pub proof fn lemma_lex_transitive(a: Seq<char>, b: Seq<char>, c: Seq<char>)
    requires
        lex_less(a, b),
        lex_less(b, c),
    ensures
        lex_less(a, c),
    decreases a.len(),
{
    if a.len() > 0 && b.len() > 0 && c.len() > 0 {
        if a[0] == b[0] && b[0] == c[0] {
            lemma_lex_transitive(a.drop_first(), b.drop_first(), c.drop_first());
        }
    }
}

/// Index `i` comes before index `j` in a stable sort of `keys`
/// (descending by key when `desc`): its key sorts first, or the keys are
/// equal and `i` was first.
pub open spec fn sorts_before(keys: Seq<Seq<char>>, desc: bool, i: int, j: int) -> bool {
    (if desc {
        lex_less(keys[j], keys[i])
    } else {
        lex_less(keys[i], keys[j])
    }) || (keys[i] == keys[j] && i < j)
}

/// `order` lists every index of `keys` once, in stable sorted order.
pub open spec fn is_stable_order(keys: Seq<Seq<char>>, desc: bool, order: Seq<usize>) -> bool {
    &&& order.len() == keys.len()
    &&& forall|p: int| 0 <= p < order.len() ==> (#[trigger] order[p]) < keys.len()
    &&& forall|p: int, q: int|
        0 <= p < q < order.len() ==> sorts_before(keys, desc, #[trigger] order[p] as int, #[trigger] order[q] as int)
}

proof fn lemma_before_total(keys: Seq<Seq<char>>, desc: bool, i: int, j: int)
    requires
        i != j,
    ensures
        sorts_before(keys, desc, i, j) || sorts_before(keys, desc, j, i),
        !(sorts_before(keys, desc, i, j) && sorts_before(keys, desc, j, i)),
{
    lemma_lex_total(keys[i], keys[j]);
    if keys[i] == keys[j] {
        lemma_lex_irreflexive(keys[i]);
    }
}

proof fn lemma_before_transitive(keys: Seq<Seq<char>>, desc: bool, i: int, j: int, k: int)
    requires
        sorts_before(keys, desc, i, j),
        sorts_before(keys, desc, j, k),
    ensures
        sorts_before(keys, desc, i, k),
{
    if keys[i] == keys[j] && keys[j] == keys[k] {
    } else if keys[i] == keys[j] {
    } else if keys[j] == keys[k] {
    } else if desc {
        lemma_lex_transitive(keys[k], keys[j], keys[i]);
    } else {
        lemma_lex_transitive(keys[i], keys[j], keys[k]);
    }
}

/// Whether `a` sorts strictly before `b`.
pub fn text_less(a: &Vec<char>, b: &Vec<char>) -> (r: bool)
    ensures
        r == lex_less(a@, b@),
{
    let mut i: usize = 0;
    assert(a@.skip(0) =~= a@);
    assert(b@.skip(0) =~= b@);
    while i < a.len() && i < b.len()
        invariant
            i <= a.len(),
            i <= b.len(),
            lex_less(a@, b@) == lex_less(a@.skip(i as int), b@.skip(i as int)),
        decreases a.len() - i,
    {
        let x = a[i];
        let y = b[i];
        assert(a@.skip(i as int)[0] == x);
        assert(b@.skip(i as int)[0] == y);
        if x < y {
            return true;
        }
        if x != y {
            return false;
        }
        assert(a@.skip(i as int).drop_first() =~= a@.skip(i + 1));
        assert(b@.skip(i as int).drop_first() =~= b@.skip(i + 1));
        i = i + 1;
    }
    assert(a@.skip(i as int).len() == a.len() - i);
    assert(b@.skip(i as int).len() == b.len() - i);
    i < b.len()
}

fn key_precedes(keys: &Vec<Vec<char>>, desc: bool, i: usize, j: usize) -> (r: bool)
    requires
        i < keys.len(),
        j < keys.len(),
    ensures
        r == (if desc {
            lex_less(keys@[j as int]@, keys@[i as int]@)
        } else {
            lex_less(keys@[i as int]@, keys@[j as int]@)
        }),
{
    if desc {
        text_less(&keys[j], &keys[i])
    } else {
        text_less(&keys[i], &keys[j])
    }
}

/// Positions into `keys` in stable sorted order (ascending, or descending
/// when `descending`); equal keys keep their original order.
pub fn stable_order(keys: &Vec<Vec<char>>, descending: bool) -> (order: Vec<usize>)
    ensures
        is_stable_order(keys@.map_values(|k: Vec<char>| k@), descending, order@),
{
    let ghost ks = keys@.map_values(|k: Vec<char>| k@);
    let mut order: Vec<usize> = Vec::new();
    let mut i: usize = 0;
    while i < keys.len()
        invariant
            ks == keys@.map_values(|k: Vec<char>| k@),
            i <= keys.len(),
            order.len() == i,
            forall|p: int| 0 <= p < order.len() ==> (#[trigger] order@[p]) < i,
            forall|p: int, q: int|
                0 <= p < q < order.len() ==> sorts_before(ks, descending, #[trigger] order@[p] as int, #[trigger] order@[q] as int),
        decreases keys.len() - i,
    {
        // first position whose entry the new index sorts before
        let mut pos: usize = 0;
        while pos < order.len() && !key_precedes(keys, descending, i, order[pos])
            invariant
                ks == keys@.map_values(|k: Vec<char>| k@),
                i < keys.len(),
                pos <= order.len(),
                order.len() == i,
                forall|p: int| 0 <= p < order.len() ==> (#[trigger] order@[p]) < i,
                forall|p: int| 0 <= p < pos ==> !sorts_before(ks, descending, i as int, #[trigger] order@[p] as int),
            decreases order.len() - pos,
        {
            pos = pos + 1;
        }
        proof {
            if pos < order.len() {
                assert(ks[order@[pos as int] as int] == keys@[order@[pos as int] as int]@);
                assert(ks[i as int] == keys@[i as int]@);
                assert(sorts_before(ks, descending, i as int, order@[pos as int] as int));
            }
        }
        let ghost old_order = order@;
        order.insert(pos, i);
        proof {
            assert forall|p: int, q: int| 0 <= p < q < order.len() implies sorts_before(
                ks,
                descending,
                #[trigger] order@[p] as int,
                #[trigger] order@[q] as int,
            ) by {
                if p < pos && q < pos {
                    assert(order@[p] == old_order[p] && order@[q] == old_order[q]);
                } else if p < pos && q == pos {
                    assert(order@[p] == old_order[p]);
                    lemma_before_total(ks, descending, i as int, old_order[p] as int);
                } else if p < pos && q > pos {
                    assert(order@[p] == old_order[p] && order@[q] == old_order[q - 1]);
                } else if p == pos {
                    assert(order@[q] == old_order[q - 1]);
                    if q - 1 > pos {
                        lemma_before_transitive(
                            ks,
                            descending,
                            i as int,
                            old_order[pos as int] as int,
                            old_order[q - 1] as int,
                        );
                    }
                } else {
                    assert(order@[p] == old_order[p - 1] && order@[q] == old_order[q - 1]);
                }
            }
        }
        i = i + 1;
    }
    order
}

} // verus!
