//! Ordering texts by code point, and sorting rows by a text key.

use vstd::prelude::*;

verus! {

/// Whether `a` comes before `b` or equals it, comparing character by
/// character by code point; a prefix comes before its extensions.
pub open spec fn lex_le(a: Seq<char>, b: Seq<char>) -> bool
    decreases a.len(),
{
    if a.len() == 0 {
        true
    } else if b.len() == 0 {
        false
    } else if (a[0] as u32) < (b[0] as u32) {
        true
    } else if (a[0] as u32) > (b[0] as u32) {
        false
    } else {
        lex_le(a.drop_first(), b.drop_first())
    }
}

/// Of two texts one comes before the other or equals it.
pub proof fn lemma_lex_total(a: Seq<char>, b: Seq<char>)
    ensures
        lex_le(a, b) || lex_le(b, a),
    decreases a.len(),
{
    if a.len() > 0 && b.len() > 0 && a[0] as u32 == b[0] as u32 {
        lemma_lex_total(a.drop_first(), b.drop_first());
    }
}

/// The order is transitive.
pub proof fn lemma_lex_trans(a: Seq<char>, b: Seq<char>, c: Seq<char>)
    requires
        lex_le(a, b),
        lex_le(b, c),
    ensures
        lex_le(a, c),
    decreases a.len(),
{
    if a.len() > 0 && b.len() > 0 && c.len() > 0 {
        if a[0] as u32 == b[0] as u32 && b[0] as u32 == c[0] as u32 {
            lemma_lex_trans(a.drop_first(), b.drop_first(), c.drop_first());
        }
    }
}

/// Every text equals itself in the order.
pub proof fn lemma_lex_refl(a: Seq<char>)
    ensures
        lex_le(a, a),
    decreases a.len(),
{
    if a.len() > 0 {
        lemma_lex_refl(a.drop_first());
    }
}

/// Whether `order` lists the indices of `keys`, each once, by ascending
/// key, with equal keys in their old order.
pub open spec fn is_sorted_order(order: Seq<int>, keys: Seq<Seq<char>>) -> bool {
    &&& order.len() == keys.len()
    &&& forall|a: int| 0 <= a < order.len() ==> 0 <= #[trigger] order[a] < keys.len()
    &&& forall|a: int, b: int|
        0 <= a < b < order.len() ==> #[trigger] order[a] != #[trigger] order[b]
    &&& forall|a: int, b: int|
        0 <= a < b < order.len() ==> lex_le(keys[#[trigger] order[a]], keys[#[trigger] order[b]])
    &&& forall|a: int, b: int|
        0 <= a < b < order.len() && keys[#[trigger] order[a]] == keys[#[trigger] order[b]]
            ==> order[a] < order[b]
}

/// Whether `out` holds the elements of `input` by ascending key, with
/// elements of equal key in their old order.
pub open spec fn is_sorted_by<T>(out: Seq<T>, input: Seq<T>, key: spec_fn(T) -> Seq<char>) -> bool {
    exists|order: Seq<int>|
        #![trigger is_sorted_order(order, input.map_values(key))]
        is_sorted_order(order, input.map_values(key)) && out.len() == input.len() && forall|
            a: int,
        |
            0 <= a < out.len() ==> #[trigger] out[a] == input[order[a]]
}

/// The views of a sequence of keys.
pub open spec fn key_views(keys: Seq<Vec<char>>) -> Seq<Seq<char>> {
    Seq::new(keys.len(), |i: int| keys[i]@)
}

/// The views of a sequence of indices.
pub open spec fn index_views(order: Seq<usize>) -> Seq<int> {
    Seq::new(order.len(), |i: int| order[i] as int)
}

/// Whether `a` comes before `b` or equals it.
pub fn lex_le_chars(a: &Vec<char>, b: &Vec<char>) -> (r: bool)
    ensures
        r == lex_le(a@, b@),
{
    let mut i: usize = 0;
    assert(a@.subrange(0, a.len() as int) == a@);
    assert(b@.subrange(0, b.len() as int) == b@);
    while i < a.len()
        invariant
            i <= a.len(),
            i <= b.len(),
            lex_le(a@, b@) == lex_le(
                a@.subrange(i as int, a.len() as int),
                b@.subrange(i as int, b.len() as int),
            ),
        decreases a.len() - i,
    {
        if i >= b.len() {
            return false;
        }
        let x: u32 = a[i] as u32;
        let y: u32 = b[i] as u32;
        assert(a@.subrange(i as int, a.len() as int)[0] == a@[i as int]);
        assert(b@.subrange(i as int, b.len() as int)[0] == b@[i as int]);
        if x < y {
            return true;
        }
        if x > y {
            return false;
        }
        assert(a@.subrange(i as int, a.len() as int).drop_first() == a@.subrange(
            i + 1,
            a.len() as int,
        ));
        assert(b@.subrange(i as int, b.len() as int).drop_first() == b@.subrange(
            i + 1,
            b.len() as int,
        ));
        i = i + 1;
    }
    true
}

/// The indices of `keys` by ascending key, with equal keys in their old
/// order.
pub fn sorted_order(keys: &Vec<Vec<char>>) -> (order: Vec<usize>)
    ensures
        is_sorted_order(index_views(order@), key_views(keys@)),
{
    let ghost all = key_views(keys@);
    let mut order: Vec<usize> = Vec::new();
    let mut i: usize = 0;
    while i < keys.len()
        invariant
            i <= keys.len(),
            all == key_views(keys@),
            order.len() == i,
            forall|a: int| 0 <= a < order.len() ==> #[trigger] order@[a] < i,
            forall|a: int, b: int|
                0 <= a < b < order.len() ==> #[trigger] order@[a] != #[trigger] order@[b],
            forall|a: int, b: int|
                0 <= a < b < order.len() ==> lex_le(
                    all[#[trigger] order@[a] as int],
                    all[#[trigger] order@[b] as int],
                ),
            forall|a: int, b: int|
                0 <= a < b < order.len() && all[#[trigger] order@[a] as int]
                    == all[#[trigger] order@[b] as int] ==> order@[a] < order@[b],
        decreases keys.len() - i,
    {
        let mut pos: usize = 0;
        while pos < order.len() && lex_le_chars(&keys[order[pos]], &keys[i])
            invariant
                pos <= order.len(),
                order.len() == i,
                i < keys.len(),
                all == key_views(keys@),
                forall|a: int| 0 <= a < order.len() ==> #[trigger] order@[a] < i,
                forall|a: int| 0 <= a < pos ==> lex_le(all[#[trigger] order@[a] as int], all[i as int]),
            decreases order.len() - pos,
        {
            pos = pos + 1;
        }
        let ghost prev = order@;
        proof {
            if pos < order.len() {
                lemma_lex_total(all[prev[pos as int] as int], all[i as int]);
                assert forall|b: int| pos <= b < prev.len() implies lex_le(
                    all[i as int],
                    all[#[trigger] prev[b] as int],
                ) && all[prev[b] as int] != all[i as int] by {
                    if b > pos {
                        assert(lex_le(all[prev[pos as int] as int], all[prev[b] as int]));
                        lemma_lex_trans(
                            all[i as int],
                            all[prev[pos as int] as int],
                            all[prev[b] as int],
                        );
                    }
                    if all[prev[b] as int] == all[i as int] {
                        if b > pos {
                            assert(lex_le(all[prev[pos as int] as int], all[prev[b] as int]));
                        }
                    }
                }
            }
        }
        order.insert(pos, i);
        assert forall|a: int| 0 <= a < order.len() implies #[trigger] order@[a] < i + 1 by {
            if a < pos {
                assert(order@[a] == prev[a]);
            } else if a > pos {
                assert(order@[a] == prev[a - 1]);
            }
        }
        assert forall|a: int, b: int| 0 <= a < b < order.len() implies #[trigger] order@[a]
            != #[trigger] order@[b] && lex_le(all[order@[a] as int], all[order@[b] as int]) && (
        all[order@[a] as int] == all[order@[b] as int] ==> order@[a] < order@[b]) by {
            let pa = if a < pos { a } else { a - 1 };
            let pb = if b < pos { b } else { b - 1 };
            if a == pos {
                assert(order@[b] == prev[pb]);
                assert(prev[pb] < i);
            } else if b == pos {
                assert(order@[a] == prev[pa]);
                assert(prev[pa] < i);
            } else {
                assert(order@[a] == prev[pa]);
                assert(order@[b] == prev[pb]);
                assert(pa < pb);
            }
        }
        i = i + 1;
    }
    assert(index_views(order@).len() == all.len());
    order
}

} // verus!
