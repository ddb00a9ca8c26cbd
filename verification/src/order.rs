//! The painting order: ascending by depth, and among entities of one depth
//! the order in which they were given.

use crate::components::EntityDepth;
use vstd::prelude::*;

verus! {

/// The test for an entry of depth `z`.
pub open spec fn at_depth(z: i32) -> spec_fn(EntityDepth) -> bool {
    |entry: EntityDepth| entry.z == z
}

/// No entry comes before one of a lower depth.
pub open spec fn ascending(entries: Seq<EntityDepth>) -> bool {
    forall|i: int, j: int| 0 <= i < j < entries.len() ==> entries[i].z <= entries[j].z
}

/// `output` holds the entries of `input` in ascending order of depth, and
/// those of any one depth in the order that they have in `input`.
pub open spec fn is_stable_sort(input: Seq<EntityDepth>, output: Seq<EntityDepth>) -> bool {
    &&& ascending(output)
    &&& forall|z: i32| #[trigger] output.filter(at_depth(z)) == input.filter(at_depth(z))
}

/// Putting `entry` behind the entries that are at most as deep, and before
/// those that are deeper, adds it at the end of the entries of its own depth
/// and leaves those of every other depth as they were.
proof fn lemma_insert_by_depth(sorted: Seq<EntityDepth>, at: int, entry: EntityDepth, z: i32)
    requires
        0 <= at <= sorted.len(),
        forall|k: int| at <= k < sorted.len() ==> sorted[k].z > entry.z,
    ensures
        sorted.insert(at, entry).filter(at_depth(z)) == if entry.z == z {
            sorted.filter(at_depth(z)).push(entry)
        } else {
            sorted.filter(at_depth(z))
        },
{
    let test = at_depth(z);
    let before = sorted.subrange(0, at);
    let after = sorted.subrange(at, sorted.len() as int);
    assert(sorted =~= before + after);
    assert(sorted.insert(at, entry) =~= before.push(entry) + after);
    Seq::filter_distributes_over_add(before, after, test);
    Seq::filter_distributes_over_add(before.push(entry), after, test);
    before.lemma_filter_push(entry, test);
    if entry.z == z {
        assert forall|k: int| 0 <= k < after.len() implies !test(#[trigger] after[k]) by {
            assert(after[k] == sorted[at + k]);
        }
        after.lemma_all_neg_filter_empty(test);
        assert(after.filter(test) =~= Seq::<EntityDepth>::empty());
        assert(before.filter(test).push(entry) + after.filter(test) =~= (before.filter(test)
            + after.filter(test)).push(entry));
    }
}

/// An entry occurs among the entries of its own depth as often as it occurs
/// at all.
proof fn lemma_count_at_own_depth(entries: Seq<EntityDepth>, entry: EntityDepth)
    ensures
        entries.filter(at_depth(entry.z)).to_multiset().count(entry)
            == entries.to_multiset().count(entry),
    decreases entries.len(),
{
    broadcast use vstd::seq_lib::group_to_multiset_ensures;

    let test = at_depth(entry.z);
    if entries.len() == 0 {
        reveal(Seq::filter);
    } else {
        let front = entries.drop_last();
        let last = entries.last();
        assert(entries =~= front.push(last));
        lemma_count_at_own_depth(front, entry);
        front.lemma_filter_push(last, test);
    }
}

/// Sorting neither adds an entry nor loses one: every entry occurs in the
/// output as often as in the input, and the two are equally long.
pub proof fn lemma_stable_sort_permutes(input: Seq<EntityDepth>, output: Seq<EntityDepth>)
    requires
        is_stable_sort(input, output),
    ensures
        output.to_multiset() == input.to_multiset(),
        output.len() == input.len(),
        forall|entry: EntityDepth| output.contains(entry) <==> input.contains(entry),
{
    broadcast use vstd::seq_lib::group_to_multiset_ensures;

    assert forall|entry: EntityDepth|
        output.to_multiset().count(entry) == input.to_multiset().count(entry) by {
        lemma_count_at_own_depth(input, entry);
        lemma_count_at_own_depth(output, entry);
        assert(output.filter(at_depth(entry.z)) == input.filter(at_depth(entry.z)));
    }
    assert(output.to_multiset() =~= input.to_multiset());
    input.to_multiset_ensures();
    output.to_multiset_ensures();
    assert forall|entry: EntityDepth| output.contains(entry) <==> input.contains(entry) by {
        assert(output.contains(entry) <==> output.to_multiset().count(entry) > 0);
        assert(input.contains(entry) <==> input.to_multiset().count(entry) > 0);
    }
}

/// Of a list without its first entry, the entries of a depth are those of the
/// whole list without the first of them, if the first entry has that depth.
proof fn lemma_filter_drop_first(entries: Seq<EntityDepth>, z: i32)
    requires
        entries.len() > 0,
    ensures
        entries.drop_first().filter(at_depth(z)) == if entries[0].z == z {
            entries.filter(at_depth(z)).drop_first()
        } else {
            entries.filter(at_depth(z))
        },
        entries[0].z == z ==> entries.filter(at_depth(z)).len() > 0 && entries.filter(
            at_depth(z),
        )[0] == entries[0],
{
    let rest = entries.drop_first();
    assert(entries =~= seq![entries[0]] + rest);
    rest.lemma_filter_prepend(entries[0], at_depth(z));
    if entries[0].z == z {
        assert((seq![entries[0]] + rest.filter(at_depth(z))).drop_first() =~= rest.filter(
            at_depth(z),
        ));
    } else {
        assert(Seq::<EntityDepth>::empty() + rest.filter(at_depth(z)) =~= rest.filter(
            at_depth(z),
        ));
    }
}

/// The painting order is fixed by what is painted: two lists that both hold
/// the entries of `input` in ascending order of depth, those of one depth in
/// the order that they have in `input`, are the same list.
pub proof fn lemma_stable_sort_is_unique(
    input: Seq<EntityDepth>,
    one: Seq<EntityDepth>,
    other: Seq<EntityDepth>,
)
    requires
        is_stable_sort(input, one),
        is_stable_sort(input, other),
    ensures
        one == other,
    decreases one.len(),
{
    lemma_stable_sort_permutes(input, one);
    lemma_stable_sort_permutes(input, other);
    if one.len() == 0 {
        assert(one =~= other);
    } else {
        let z = one[0].z;
        assert(other.contains(one[0])) by {
            assert(one.contains(one[0]));
        }
        assert(one.contains(other[0])) by {
            assert(other.contains(other[0]));
        }
        let i = choose|i: int| 0 <= i < other.len() && other[i] == one[0];
        let j = choose|j: int| 0 <= j < one.len() && one[j] == other[0];
        assert(other[0].z <= other[i].z);
        assert(one[0].z <= one[j].z);
        assert(other[0].z == z);
        lemma_filter_drop_first(one, z);
        lemma_filter_drop_first(other, z);
        assert(one.filter(at_depth(z)) == other.filter(at_depth(z)));
        assert(one[0] == other[0]);
        let rest = one.drop_first();
        let other_rest = other.drop_first();
        assert forall|depth: i32| #[trigger]
            other_rest.filter(at_depth(depth)) == rest.filter(at_depth(depth)) by {
            lemma_filter_drop_first(one, depth);
            lemma_filter_drop_first(other, depth);
            assert(one.filter(at_depth(depth)) == other.filter(at_depth(depth)));
        }
        assert(ascending(rest)) by {
            assert forall|a: int, b: int| 0 <= a < b < rest.len() implies rest[a].z <= rest[b].z by {
                assert(rest[a] == one[a + 1] && rest[b] == one[b + 1]);
            }
        }
        assert(ascending(other_rest)) by {
            assert forall|a: int, b: int| 0 <= a < b < other_rest.len() implies other_rest[a].z
                <= other_rest[b].z by {
                assert(other_rest[a] == other[a + 1] && other_rest[b] == other[b + 1]);
            }
        }
        lemma_stable_sort_is_unique(rest, rest, other_rest);
        assert(one =~= seq![one[0]] + rest);
        assert(other =~= seq![other[0]] + other_rest);
    }
}

/// Sorts `entries` by depth, ascending. Entries of the same depth keep their
/// order.
pub fn sort_by_depth(entries: &mut Vec<EntityDepth>)
    ensures
        is_stable_sort(old(entries)@, final(entries)@),
{
    let ghost input = entries@;
    let mut sorted: Vec<EntityDepth> = Vec::new();
    let mut i: usize = 0;
    proof {
        assert(input.take(0) =~= Seq::<EntityDepth>::empty());
        assert forall|z: i32| #[trigger]
            sorted@.filter(at_depth(z)) == input.take(0).filter(at_depth(z)) by {
            assert(sorted@ =~= input.take(0));
        }
    }
    while i < entries.len()
        invariant
            i <= entries.len(),
            entries@ == input,
            ascending(sorted@),
            sorted@.len() == i,
            forall|z: i32| #[trigger]
                sorted@.filter(at_depth(z)) == input.take(i as int).filter(at_depth(z)),
        decreases entries.len() - i,
    {
        let entry: EntityDepth = entries[i];
        let mut at: usize = sorted.len();
        while at > 0 && sorted[at - 1].z > entry.z
            invariant
                at <= sorted.len(),
                forall|k: int| at <= k < sorted@.len() ==> sorted@[k].z > entry.z,
            decreases at,
        {
            at -= 1;
        }
        proof {
            let ghost before = sorted@;
            assert forall|z: i32| #[trigger]
                before.insert(at as int, entry).filter(at_depth(z)) == input.take(
                    i as int + 1,
                ).filter(at_depth(z)) by {
                lemma_insert_by_depth(before, at as int, entry, z);
                assert(input.take(i as int + 1) =~= input.take(i as int).push(entry));
                input.take(i as int).lemma_filter_push(entry, at_depth(z));
            }
            assert(ascending(before.insert(at as int, entry))) by {
                let after = before.insert(at as int, entry);
                assert forall|a: int, b: int| 0 <= a < b < after.len() implies after[a].z
                    <= after[b].z by {
                    if at > 0 {
                        assert(before[at as int - 1].z <= entry.z);
                    }
                    if a < at && b > at {
                        assert(after[a] == before[a] && after[b] == before[b - 1]);
                    }
                }
            }
        }
        sorted.insert(at, entry);
        i += 1;
    }
    proof {
        assert(input.take(i as int) =~= input);
    }
    *entries = sorted;
}

} // verus!
