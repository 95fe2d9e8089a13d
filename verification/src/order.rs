//! The order of texts by their bytes, which is the order of `String`, and
//! tables put into the order of their names.

use crate::table::Table;
use crate::tags::PlayerTag;
use vstd::prelude::*;
use vstd::string::*;

verus! {

/// `a` comes before `b`: at the first place where they differ `a` has the
/// smaller byte, or `a` ends there and `b` goes on.
pub open spec fn precedes(a: Seq<u8>, b: Seq<u8>) -> bool
    decreases a.len(),
{
    if b.len() == 0 {
        false
    } else if a.len() == 0 {
        true
    } else if a[0] != b[0] {
        a[0] < b[0]
    } else {
        precedes(a.drop_first(), b.drop_first())
    }
}

/// `a` comes before `b` or is `b`.
pub open spec fn precedes_or_is(a: Seq<u8>, b: Seq<u8>) -> bool {
    precedes(a, b) || a == b
}

/// No text comes before itself.
pub proof fn lemma_precedes_irreflexive(a: Seq<u8>)
    ensures
        !precedes(a, a),
    decreases a.len(),
{
    if a.len() > 0 {
        lemma_precedes_irreflexive(a.drop_first());
    }
}

/// What comes before a text comes before everything that the text comes
/// before.
pub proof fn lemma_precedes_transitive(a: Seq<u8>, b: Seq<u8>, c: Seq<u8>)
    requires
        precedes(a, b),
        precedes(b, c),
    ensures
        precedes(a, c),
    decreases a.len(),
{
    if a.len() > 0 && a[0] == b[0] && b[0] == c[0] {
        lemma_precedes_transitive(a.drop_first(), b.drop_first(), c.drop_first());
    }
}

/// Of two different texts one comes before the other.
pub proof fn lemma_precedes_total(a: Seq<u8>, b: Seq<u8>)
    ensures
        precedes(a, b) || precedes(b, a) || a == b,
        !(precedes(a, b) && precedes(b, a)),
    decreases a.len(),
{
    if a.len() > 0 && b.len() > 0 && a[0] == b[0] {
        lemma_precedes_total(a.drop_first(), b.drop_first());
        if a.drop_first() == b.drop_first() {
            assert(a =~= seq![a[0]] + a.drop_first());
            assert(b =~= seq![b[0]] + b.drop_first());
        }
    } else if a.len() == 0 && b.len() == 0 {
        assert(a =~= b);
    }
}

/// Two texts with the same bytes are the same text.
pub proof fn lemma_same_bytes_same_text(a: Seq<char>, b: Seq<char>)
    requires
        vstd::utf8::encode_utf8(a) == vstd::utf8::encode_utf8(b),
    ensures
        a == b,
{
    vstd::utf8::encode_utf8_decode_utf8(a);
    vstd::utf8::encode_utf8_decode_utf8(b);
}

/// Whether `a` comes before `b`.
pub fn bytes_precede(a: &[u8], b: &[u8]) -> (before: bool)
    ensures
        before == precedes(a@, b@),
{
    let mut i: usize = 0;
    proof {
        assert(a@.subrange(0, a@.len() as int) =~= a@);
        assert(b@.subrange(0, b@.len() as int) =~= b@);
    }
    while i < a.len() && i < b.len() && a[i] == b[i]
        invariant
            i <= a@.len(),
            i <= b@.len(),
            precedes(a@, b@) == precedes(
                a@.subrange(i as int, a@.len() as int),
                b@.subrange(i as int, b@.len() as int),
            ),
        decreases a@.len() - i,
    {
        proof {
            let rest_a = a@.subrange(i as int, a@.len() as int);
            let rest_b = b@.subrange(i as int, b@.len() as int);
            assert(rest_a.drop_first() =~= a@.subrange(i + 1, a@.len() as int));
            assert(rest_b.drop_first() =~= b@.subrange(i + 1, b@.len() as int));
        }
        i = i + 1;
    }
    if i >= b.len() {
        false
    } else if i >= a.len() {
        true
    } else {
        a[i] < b[i]
    }
}

/// The bytes of the name that stands at `index` in `names`.
pub open spec fn name_bytes(names: Seq<(Seq<char>, Seq<char>)>, index: int) -> Seq<u8> {
    vstd::utf8::encode_utf8(names[index].1)
}

/// `index` stands at place `place` of `order`.
pub open spec fn stands_at(order: Seq<usize>, index: int, place: int) -> bool {
    0 <= place < order.len() && order[place] == index
}

/// `order` lists every index below `count` once, and no other.
pub open spec fn lists_each_once(order: Seq<usize>, count: nat) -> bool {
    &&& order.len() == count
    &&& forall|j: int| 0 <= j < order.len() ==> #[trigger] order[j] < count
    &&& forall|j: int, k: int| 0 <= j < k < order.len() ==> #[trigger] order[j] != #[trigger] order[k]
    &&& forall|index: int| 0 <= index < count ==> #[trigger] lists(order, index)
}

/// `index` stands somewhere in `order`.
pub open spec fn lists(order: Seq<usize>, index: int) -> bool {
    exists|place: int| #[trigger] stands_at(order, index, place)
}

/// The names at the indices of `order` stand in the order of their bytes,
/// and where two of them are the same name, the smaller index stands first.
pub open spec fn in_name_order(order: Seq<usize>, names: Seq<(Seq<char>, Seq<char>)>) -> bool {
    forall|j: int, k: int|
        0 <= j < k < order.len() ==> {
            let first = name_bytes(names, #[trigger] order[j] as int);
            let second = name_bytes(names, #[trigger] order[k] as int);
            precedes(first, second) || (first == second && order[j] < order[k])
        }
}

/// The indices of the entries of `names`, put into the order of the names.
/// Entries with the same name keep the order in which they stand in
/// `names`.
pub fn name_order(names: &Table<PlayerTag, String>) -> (order: Vec<usize>)
    ensures
        lists_each_once(order@, names@.len()),
        in_name_order(order@, names@),
{
    let mut order: Vec<usize> = Vec::new();
    let mut i: usize = 0;
    while i < names.len()
        invariant
            i <= names@.len(),
            lists_each_once(order@, i as nat),
            in_name_order(order@, names@),
        decreases names@.len() - i,
    {
        let name = names.value_at(i).as_str().as_bytes();
        let mut at: usize = 0;
        while at < order.len() && !bytes_precede(
            name,
            names.value_at(order[at]).as_str().as_bytes(),
        )
            invariant
                at <= order@.len(),
                i < names@.len(),
                name@ == name_bytes(names@, i as int),
                lists_each_once(order@, i as nat),
                forall|j: int|
                    0 <= j < at ==> precedes_or_is(
                        name_bytes(names@, #[trigger] order@[j] as int),
                        name@,
                    ),
            decreases order@.len() - at,
        {
            proof {
                lemma_precedes_total(name@, name_bytes(names@, order@[at as int] as int));
            }
            at = at + 1;
        }
        let ghost before = order@;
        order.insert(at, i);
        proof {
            assert forall|j: int, k: int| 0 <= j < k < order@.len() implies ({
                let first = name_bytes(names@, #[trigger] order@[j] as int);
                let second = name_bytes(names@, #[trigger] order@[k] as int);
                precedes(first, second) || (first == second && order@[j] < order@[k])
            }) by {
                if k < at {
                    assert(order@[j] == before[j] && order@[k] == before[k]);
                } else if k == at {
                    assert(order@[j] == before[j]);
                    assert(before[j] < i);
                } else if j > at {
                    assert(order@[j] == before[j - 1] && order@[k] == before[k - 1]);
                } else if j == at {
                    // the new name comes before the name that stood at `at`, and
                    // that one before all that follow it
                    assert(order@[k] == before[k - 1]);
                    let next = name_bytes(names@, before[at as int] as int);
                    assert(precedes(name@, next));
                    if k - 1 > at {
                        let later = name_bytes(names@, before[k - 1] as int);
                        assert(precedes(next, later) || next == later);
                        if precedes(next, later) {
                            lemma_precedes_transitive(name@, next, later);
                        }
                    }
                } else {
                    assert(order@[j] == before[j] && order@[k] == before[k - 1]);
                }
            }
            assert forall|j: int, k: int| 0 <= j < k < order@.len() implies #[trigger] order@[j]
                != #[trigger] order@[k] by {
                if j != at && k != at {
                    let old_j = if j < at { j } else { j - 1 };
                    let old_k = if k < at { k } else { k - 1 };
                    assert(order@[j] == before[old_j] && order@[k] == before[old_k]);
                } else if j == at {
                    assert(order@[k] == before[k - 1]);
                } else {
                    assert(order@[j] == before[j]);
                }
            }
            assert forall|index: int| 0 <= index < i + 1 implies #[trigger] lists(
                order@,
                index,
            ) by {
                if index == i {
                    assert(stands_at(order@, index, at as int));
                } else {
                    assert(lists(before, index));
                    let place = choose|place: int| #[trigger] stands_at(before, index, place);
                    if place < at {
                        assert(stands_at(order@, index, place));
                    } else {
                        assert(stands_at(order@, index, place + 1));
                    }
                }
            }
            assert forall|j: int| 0 <= j < order@.len() implies #[trigger] order@[j] < i + 1 by {
                if j < at {
                    assert(order@[j] == before[j]);
                } else if j > at {
                    assert(order@[j] == before[j - 1]);
                }
            }
        }
        i = i + 1;
    }
    order
}

} // verus!
