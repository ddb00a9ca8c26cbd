//! Which entities a frame uncovers: those that lie where a changed entity
//! was, and, in turn, those that lie where such an entity was.

use crate::components::{Entity, PreviousEntityDetails, PreviousPosition, PreviousSize};
use crate::spatial::{is_hit, BoundingBox, Rect, SpatialIndex};
use std::collections::HashSet;
use vstd::prelude::*;
use vstd::set_lib::lemma_len_subset;

verus! {

/// What is remembered of each entity: where it was and how large it was when
/// it was last painted.
pub type History = Map<Entity, (PreviousPosition, PreviousSize)>;

/// The rectangle that an entity covered when it was last painted.
pub open spec fn previous_rect(details: (PreviousPosition, PreviousSize)) -> Rect {
    Rect::spec_at(details.0.x, details.0.y, details.1.width, details.1.height)
}

/// Whether `under` has a bounding box where `over` was last painted, so that
/// erasing what `over` left behind damages `under`. No entity uncovers
/// itself, and one that was never painted uncovers nothing.
pub open spec fn uncovers(
    history: History,
    boxes: Set<BoundingBox>,
    over: Entity,
    under: Entity,
) -> bool {
    &&& over != under
    &&& history.contains_key(over)
    &&& exists|b: BoundingBox|
        boxes.contains(b) && #[trigger] is_hit(b, under, previous_rect(history[over]))
}

/// `chain` leads from one of `seeds` to its last entity: each entity of it
/// uncovers the next, and none after the first is in `initial`.
pub open spec fn is_chain(
    history: History,
    boxes: Set<BoundingBox>,
    seeds: Set<Entity>,
    initial: Set<Entity>,
    chain: Seq<Entity>,
) -> bool {
    &&& chain.len() >= 2
    &&& seeds.contains(chain[0])
    &&& forall|i: int|
        0 <= i < chain.len() - 1 ==> uncovers(history, boxes, #[trigger] chain[i], chain[i + 1])
    &&& forall|i: int| 1 <= i < chain.len() ==> !initial.contains(#[trigger] chain[i])
}

/// The entities outside `initial` that erasing the `seeds` damages, directly
/// or through other such entities: those at the end of a chain.
pub open spec fn uncovered(
    history: History,
    boxes: Set<BoundingBox>,
    seeds: Set<Entity>,
    initial: Set<Entity>,
) -> Set<Entity> {
    Set::new(
        |entity: Entity|
            exists|chain: Seq<Entity>|
                #[trigger] is_chain(history, boxes, seeds, initial, chain) && chain.last()
                    == entity,
    )
}

/// The boxes of the entities that are not in `drawn`.
pub open spec fn boxes_outside(boxes: Set<BoundingBox>, drawn: Set<Entity>) -> Set<BoundingBox> {
    boxes.filter(|b: BoundingBox| !drawn.contains(b.entity))
}

/// Every entity of a chain has been found, once every found entity has been
/// looked at.
proof fn lemma_chain_is_found(
    history: History,
    boxes: Set<BoundingBox>,
    seeds: Set<Entity>,
    initial: Set<Entity>,
    queue: Seq<Entity>,
    drawn: Set<Entity>,
    chain: Seq<Entity>,
    i: int,
)
    requires
        is_chain(history, boxes, seeds, initial, chain),
        0 <= i < chain.len(),
        forall|s: Entity| seeds.contains(s) ==> queue.contains(s),
        forall|k: int, under: Entity|
            0 <= k < queue.len() && uncovers(history, boxes, #[trigger] queue[k], under)
                ==> #[trigger] drawn.contains(under),
        forall|e: Entity| #[trigger] drawn.contains(e) ==> initial.contains(e) || queue.contains(e),
    ensures
        queue.contains(chain[i]),
        i >= 1 ==> drawn.contains(chain[i]),
    decreases i,
{
    if i > 0 {
        lemma_chain_is_found(history, boxes, seeds, initial, queue, drawn, chain, i - 1);
        let k = choose|k: int| 0 <= k < queue.len() && queue[k] == chain[i - 1];
        assert(uncovers(history, boxes, chain[i - 1], chain[i]));
        assert(drawn.contains(chain[i]));
        assert(!initial.contains(chain[i]));
    }
}

/// Marking one more entity that has a box leaves fewer boxes unmarked.
proof fn lemma_fewer_boxes_outside(boxes: Set<BoundingBox>, drawn: Set<Entity>, b: BoundingBox)
    requires
        boxes.finite(),
        boxes.contains(b),
        !drawn.contains(b.entity),
    ensures
        boxes_outside(boxes, drawn.insert(b.entity)).len() < boxes_outside(boxes, drawn).len(),
        boxes_outside(boxes, drawn).finite(),
{
    let before = boxes_outside(boxes, drawn);
    let after = boxes_outside(boxes, drawn.insert(b.entity));
    boxes.lemma_len_filter(|b: BoundingBox| !drawn.contains(b.entity));
    assert(before.contains(b));
    assert(after.subset_of(before.remove(b)));
    lemma_len_subset(after, before.remove(b));
}

/// Damage spreads: whatever lies where a seed or a damaged entity was last
/// painted is painted too, be it as one of the initial entities or as a
/// damaged one.
pub proof fn lemma_damage_spreads(
    history: History,
    boxes: Set<BoundingBox>,
    seeds: Set<Entity>,
    initial: Set<Entity>,
    over: Entity,
    under: Entity,
)
    requires
        seeds.contains(over) || uncovered(history, boxes, seeds, initial).contains(over),
        uncovers(history, boxes, over, under),
    ensures
        initial.union(uncovered(history, boxes, seeds, initial)).contains(under),
{
    if !initial.contains(under) {
        let chain = if seeds.contains(over) {
            seq![over, under]
        } else {
            let found = choose|chain: Seq<Entity>|
                #[trigger] is_chain(history, boxes, seeds, initial, chain) && chain.last()
                    == over;
            found.push(under)
        };
        assert(is_chain(history, boxes, seeds, initial, chain));
        assert(chain.last() == under);
    }
}

/// Nothing is damaged without a cause: a damaged entity lies where a seed or
/// another damaged entity was last painted.
pub proof fn lemma_damage_has_a_cause(
    history: History,
    boxes: Set<BoundingBox>,
    seeds: Set<Entity>,
    initial: Set<Entity>,
    under: Entity,
)
    requires
        uncovered(history, boxes, seeds, initial).contains(under),
    ensures
        !initial.contains(under),
        exists|over: Entity|
            (seeds.contains(over) || uncovered(history, boxes, seeds, initial).contains(over))
                && #[trigger] uncovers(history, boxes, over, under),
{
    let chain = choose|chain: Seq<Entity>|
        #[trigger] is_chain(history, boxes, seeds, initial, chain) && chain.last() == under;
    let over = chain[chain.len() - 2];
    assert(uncovers(history, boxes, chain[chain.len() - 2], chain[chain.len() - 2 + 1]));
    if chain.len() > 2 {
        let front = chain.drop_last();
        assert(is_chain(history, boxes, seeds, initial, front)) by {
            assert forall|i: int| 0 <= i < front.len() - 1 implies uncovers(
                history,
                boxes,
                #[trigger] front[i],
                front[i + 1],
            ) by {
                assert(uncovers(history, boxes, chain[i], chain[i + 1]));
            }
            assert forall|i: int| 1 <= i < front.len() implies !initial.contains(
                #[trigger] front[i],
            ) by {
                assert(!initial.contains(chain[i]));
            }
        }
        assert(front.last() == over);
    }
    assert(uncovers(history, boxes, over, under));
}

/// The rectangle that an entity covered when it was last painted.
pub fn previous_rect_of(details: &(PreviousPosition, PreviousSize)) -> (rect: Rect)
    ensures
        rect == previous_rect(*details),
{
    Rect::at(details.0.x, details.0.y, details.1.width, details.1.height)
}

/// Adds to `drawn` every entity that erasing the `seeds` damages: each one
/// that has a box where a seed was last painted, then each one that has a box
/// where one of those was, and so on until nothing new is found.
pub fn expand_by_collisions(
    history: &PreviousEntityDetails,
    index: &mut SpatialIndex,
    seeds: &Vec<Entity>,
    drawn: &mut HashSet<Entity>,
)
    ensures
        final(index).boxes() == old(index).boxes(),
        final(drawn)@ == old(drawn)@.union(
            uncovered(history@, old(index).boxes().dom(), seeds@.to_set(), old(drawn)@),
        ),
{
    broadcast use vstd::std_specs::hash::group_hash_axioms;

    let ghost past = history@;
    let ghost held = index.boxes();
    let ghost boxes = held.dom();
    let ghost initial = drawn@;
    let ghost seed_set = seeds@.to_set();
    proof {
        vstd::multiset::axiom_multiset_always_finite(held);
        boxes.lemma_len_filter(|b: BoundingBox| !initial.contains(b.entity));
    }
    let mut queue: Vec<Entity> = Vec::new();
    let mut s: usize = 0;
    while s < seeds.len()
        invariant
            s <= seeds.len(),
            queue@ == seeds@.take(s as int),
        decreases seeds.len() - s,
    {
        queue.push(seeds[s]);
        assert(seeds@.take(s as int + 1) =~= seeds@.take(s as int).push(seeds@[s as int]));
        s += 1;
    }
    assert(seeds@.take(s as int) =~= seeds@);
    let mut next: usize = 0;
    while next < queue.len()
        invariant
            past == history@,
            index.boxes() == held,
            boxes == held.dom(),
            boxes.finite(),
            seed_set == seeds@.to_set(),
            next <= queue.len(),
            seeds@.len() <= queue@.len(),
            queue@.take(seeds@.len() as int) == seeds@,
            forall|e: Entity|
                drawn@.contains(e) <==> initial.contains(e) || exists|k: int|
                    seeds@.len() <= k < queue@.len() && queue@[k] == e,
            forall|k: int|
                seeds@.len() <= k < queue@.len() ==> uncovered(
                    past,
                    boxes,
                    seed_set,
                    initial,
                ).contains(#[trigger] queue@[k]),
            forall|k: int, under: Entity|
                0 <= k < next && uncovers(past, boxes, #[trigger] queue@[k], under)
                    ==> #[trigger] drawn@.contains(under),
        decreases boxes_outside(boxes, drawn@).len() + queue@.len() - next,
    {
        let entity: Entity = queue[next];
        next += 1;
        match history.0.get(&entity) {
            None => {},
            Some(details) => {
                let area = previous_rect_of(details);
                let hits = index.overlapping(area);
                let ghost bound = boxes_outside(boxes, drawn@).len() + queue@.len();
                let mut h: usize = 0;
                while h < hits.len()
                    invariant
                        past == history@,
                        index.boxes() == held,
                        boxes == held.dom(),
                        boxes.finite(),
                        seed_set == seeds@.to_set(),
                        0 < next <= queue.len(),
                        entity == queue@[next - 1],
                        past.contains_key(entity),
                        area == previous_rect(past[entity]),
                        h <= hits.len(),
                        forall|e: Entity|
                            hits@.contains(e) <==> exists|b: BoundingBox|
                                held.count(b) > 0 && #[trigger] is_hit(b, e, area),
                        seeds@.len() <= queue@.len(),
                        queue@.take(seeds@.len() as int) == seeds@,
                                    forall|e: Entity|
                            drawn@.contains(e) <==> initial.contains(e) || exists|k: int|
                                seeds@.len() <= k < queue@.len() && queue@[k] == e,
                        forall|k: int|
                            seeds@.len() <= k < queue@.len() ==> uncovered(
                                past,
                                boxes,
                                seed_set,
                                initial,
                            ).contains(#[trigger] queue@[k]),
                        forall|k: int, under: Entity|
                            0 <= k < next - 1 && uncovers(past, boxes, #[trigger] queue@[k], under)
                                ==> #[trigger] drawn@.contains(under),
                        forall|j: int|
                            0 <= j < h ==> hits@[j] == entity || drawn@.contains(#[trigger] hits@[j]),
                        boxes_outside(boxes, drawn@).len() + queue@.len() <= bound,
                    decreases hits.len() - h,
                {
                    let hit: Entity = hits[h];
                    if hit != entity && !drawn.contains(&hit) {
                        proof {
                            assert(hits@.contains(hit));
                            let b = choose|b: BoundingBox|
                                held.count(b) > 0 && #[trigger] is_hit(b, hit, area);
                            assert(boxes.contains(b));
                            assert(uncovers(past, boxes, entity, hit));
                            lemma_fewer_boxes_outside(boxes, drawn@, b);
                            let chain = if next - 1 < seeds@.len() {
                                seq![entity, hit]
                            } else {
                                let found = choose|chain: Seq<Entity>|
                                    #[trigger] is_chain(past, boxes, seed_set, initial, chain)
                                        && chain.last() == entity;
                                found.push(hit)
                            };
                            if next - 1 < seeds@.len() {
                                assert(seeds@[next - 1] == queue@.take(seeds@.len() as int)[next
                                    - 1]);
                                assert(seeds@.contains(entity));
                            }
                            assert(is_chain(past, boxes, seed_set, initial, chain));
                            assert(chain.last() == hit);
                        }
                        let ghost queued = queue@;
                        drawn.insert(hit);
                        queue.push(hit);
                        proof {
                            assert(queue@.take(seeds@.len() as int) =~= queued.take(
                                seeds@.len() as int,
                            ));
                            assert(queue@[queued.len() as int] == hit);
                            assert forall|e: Entity|
                                drawn@.contains(e) <==> initial.contains(e) || exists|k: int|
                                    seeds@.len() <= k < queue@.len() && queue@[k] == e by {
                                if exists|k: int|
                                    seeds@.len() <= k < queued.len() && queued[k] == e {
                                    let k = choose|k: int|
                                        seeds@.len() <= k < queued.len() && queued[k] == e;
                                    assert(queue@[k] == e);
                                }
                            }
                        }
                    }
                    h += 1;
                }
                proof {
                    assert forall|under: Entity|
                        uncovers(past, boxes, entity, under) implies drawn@.contains(under) by {
                        let b = choose|b: BoundingBox|
                            boxes.contains(b) && #[trigger] is_hit(b, under, area);
                        assert(held.count(b) > 0);
                        assert(hits@.contains(under));
                        let j = choose|j: int| 0 <= j < hits@.len() && hits@[j] == under;
                        assert(hits@[j] == entity || drawn@.contains(hits@[j]));
                    }
                }
            },
        }
    }
    proof {
        let found = uncovered(past, boxes, seed_set, initial);
        assert forall|e: Entity| drawn@.contains(e) <==> initial.union(found).contains(e) by {
            if found.contains(e) {
                let chain = choose|chain: Seq<Entity>|
                    #[trigger] is_chain(past, boxes, seed_set, initial, chain) && chain.last()
                        == e;
                assert forall|s: Entity| seed_set.contains(s) implies queue@.contains(s) by {
                    let k = choose|k: int| 0 <= k < seeds@.len() && seeds@[k] == s;
                    assert(queue@.take(seeds@.len() as int)[k] == s);
                    assert(queue@[k] == s);
                }
                lemma_chain_is_found(
                    past,
                    boxes,
                    seed_set,
                    initial,
                    queue@,
                    drawn@,
                    chain,
                    chain.len() - 1,
                );
            }
        }
        assert(drawn@ =~= initial.union(found));
    }
}

} // verus!
