//! Keeping track of where each entity was last painted.

use crate::collision::History;
use crate::components::{
    Entity, LiveEntity, PreviousEntityDetails, PreviousPosition, PreviousSize,
};
use std::collections::HashSet;
use vstd::prelude::*;

verus! {

/// Where an entity with a loaded sprite is, and how large it is.
pub open spec fn footprint(entity: LiveEntity) -> (PreviousPosition, PreviousSize)
    recommends
        entity.sprite is Some,
{
    (
        PreviousPosition { x: entity.position.x, y: entity.position.y, z: entity.position.z },
        PreviousSize {
            width: entity.sprite->0.spec_width(),
            height: entity.sprite->0.spec_height(),
        },
    )
}

/// What is remembered, and which entities wait for their sprite, once
/// `entity` has been looked at. An entity that is new or waits is remembered
/// where its sprite has loaded, and waits on where it has not. Any other
/// entity changes nothing.
pub open spec fn noticed(history: History, waiting: Set<Entity>, entity: LiveEntity) -> (
    History,
    Set<Entity>,
) {
    if entity.added || waiting.contains(entity.entity) {
        if entity.sprite is Some {
            (history.insert(entity.entity, footprint(entity)), waiting.remove(entity.entity))
        } else {
            (history, waiting.insert(entity.entity))
        }
    } else {
        (history, waiting)
    }
}

/// What is remembered, and which entities wait, once the entities of `all`
/// have been looked at one after the other.
pub open spec fn noticed_all(history: History, waiting: Set<Entity>, all: Seq<LiveEntity>) -> (
    History,
    Set<Entity>,
)
    decreases all.len(),
{
    if all.len() == 0 {
        (history, waiting)
    } else {
        let (front_history, front_waiting) = noticed_all(history, waiting, all.drop_last());
        noticed(front_history, front_waiting, all.last())
    }
}

/// What is remembered once `entity` has been painted: where it is now, if it
/// has a loaded sprite and was remembered before.
pub open spec fn repainted(history: History, entity: LiveEntity) -> History {
    if entity.sprite is Some && history.contains_key(entity.entity) {
        history.insert(entity.entity, footprint(entity))
    } else {
        history
    }
}

/// What is remembered once the entities of `all` have been painted.
pub open spec fn repainted_all(history: History, all: Seq<LiveEntity>) -> History
    decreases all.len(),
{
    if all.len() == 0 {
        history
    } else {
        repainted(repainted_all(history, all.drop_last()), all.last())
    }
}

/// Where an entity with the given sprite is, and how large it is.
fn footprint_of(entity: &LiveEntity) -> (details: (PreviousPosition, PreviousSize))
    requires
        entity.sprite is Some,
    ensures
        details == footprint(*entity),
{
    let sprite = entity.sprite.unwrap();
    (
        PreviousPosition { x: entity.position.x, y: entity.position.y, z: entity.position.z },
        PreviousSize { width: sprite.width(), height: sprite.height() },
    )
}

/// Starts to remember the entities that are new. One whose sprite has not
/// loaded yet is kept in `entities_without_assets` and looked at again in
/// every frame until it has.
pub fn add_previous_position(
    entities_without_assets: &mut HashSet<Entity>,
    previous_details: &mut PreviousEntityDetails,
    all: &Vec<LiveEntity>,
)
    ensures
        (final(previous_details)@, final(entities_without_assets)@) == noticed_all(
            old(previous_details)@,
            old(entities_without_assets)@,
            all@,
        ),
{
    broadcast use vstd::std_specs::hash::group_hash_axioms;

    let ghost history = previous_details@;
    let ghost waiting = entities_without_assets@;
    let mut i: usize = 0;
    assert(all@.take(0) =~= Seq::<LiveEntity>::empty());
    while i < all.len()
        invariant
            i <= all.len(),
            (previous_details@, entities_without_assets@) == noticed_all(
                history,
                waiting,
                all@.take(i as int),
            ),
        decreases all.len() - i,
    {
        let entity = &all[i];
        proof {
            assert(all@.take(i as int + 1).drop_last() =~= all@.take(i as int));
        }
        if entity.added || entities_without_assets.contains(&entity.entity) {
            if entity.sprite.is_some() {
                previous_details.0.insert(entity.entity, footprint_of(entity));
                entities_without_assets.remove(&entity.entity);
            } else {
                entities_without_assets.insert(entity.entity);
            }
        }
        i += 1;
    }
    assert(all@.take(i as int) =~= all@);
}

/// Remembers where each entity is now that it has been painted. An entity
/// that was not remembered before stays so.
pub fn update_previous_position(previous_details: &mut PreviousEntityDetails, all: &Vec<LiveEntity>)
    ensures
        final(previous_details)@ == repainted_all(old(previous_details)@, all@),
{
    broadcast use vstd::std_specs::hash::group_hash_axioms;

    let ghost history = previous_details@;
    let mut i: usize = 0;
    assert(all@.take(0) =~= Seq::<LiveEntity>::empty());
    while i < all.len()
        invariant
            i <= all.len(),
            previous_details@ == repainted_all(history, all@.take(i as int)),
        decreases all.len() - i,
    {
        let entity = &all[i];
        proof {
            assert(all@.take(i as int + 1).drop_last() =~= all@.take(i as int));
        }
        if entity.sprite.is_some() && previous_details.0.contains_key(&entity.entity) {
            previous_details.0.insert(entity.entity, footprint_of(entity));
        }
        i += 1;
    }
    assert(all@.take(i as int) =~= all@);
}

/// Forgets the entities that are gone: neither remembered nor waited for
/// any longer.
pub fn forget_removed(
    entities_without_assets: &mut HashSet<Entity>,
    previous_details: &mut PreviousEntityDetails,
    removed: &Vec<Entity>,
)
    ensures
        final(previous_details)@ == old(previous_details)@.remove_keys(removed@.to_set()),
        final(entities_without_assets)@ == old(entities_without_assets)@.difference(
            removed@.to_set(),
        ),
{
    broadcast use vstd::std_specs::hash::group_hash_axioms;

    let ghost history = previous_details@;
    let ghost waiting = entities_without_assets@;
    let mut i: usize = 0;
    assert(removed@.take(0).to_set() =~= Set::<Entity>::empty());
    assert(history.remove_keys(Set::<Entity>::empty()) =~= history);
    assert(waiting.difference(Set::<Entity>::empty()) =~= waiting);
    while i < removed.len()
        invariant
            i <= removed.len(),
            previous_details@ == history.remove_keys(removed@.take(i as int).to_set()),
            entities_without_assets@ == waiting.difference(removed@.take(i as int).to_set()),
        decreases removed.len() - i,
    {
        let entity: Entity = removed[i];
        let ghost gone = removed@.take(i as int).to_set();
        previous_details.0.remove(&entity);
        entities_without_assets.remove(&entity);
        proof {
            assert(removed@.take(i as int + 1) =~= removed@.take(i as int).push(entity));
            removed@.take(i as int).lemma_push_to_set_commute(entity);
            assert(previous_details@ =~= history.remove_keys(gone.insert(entity)));
            assert(entities_without_assets@ =~= waiting.difference(gone.insert(entity)));
        }
        i += 1;
    }
    assert(removed@.take(i as int) =~= removed@);
}

} // verus!
