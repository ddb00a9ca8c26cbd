//! What a frame has to erase and to paint, worked out from what changed
//! since the frame before.

use crate::collision::{expand_by_collisions, uncovered, History};
use crate::components::{
    AssetEvent, AssetId, EntitiesToRedraw, Entity, EntityDepth, LiveEntity, PreviousEntityDetails,
    PreviousWindowColors,
};
use crate::order::{is_stable_sort, sort_by_depth};
use crate::spatial::{BoundingBox, Rect, SpatialIndex};
use crate::window::CrosstermWindow;
use std::collections::HashSet;
use vstd::prelude::*;

verus! {

/// Whether the content of the asset `handle` was replaced in the frame.
pub open spec fn is_modified(events: Seq<AssetEvent>, handle: AssetId) -> bool {
    events.contains(AssetEvent::Modified { handle })
}

/// Whether the asset `handle` became available in the frame.
pub open spec fn is_created(events: Seq<AssetEvent>, handle: AssetId) -> bool {
    events.contains(AssetEvent::Created { handle })
}

/// Whether what is on the screen of the entity is out of date, so that it is
/// erased and painted again: the entity itself changed, or the content of
/// one of its assets was replaced.
pub open spec fn is_stale(
    entity: LiveEntity,
    sprite_events: Seq<AssetEvent>,
    stylemap_events: Seq<AssetEvent>,
) -> bool {
    ||| entity.changed
    ||| is_modified(sprite_events, entity.sprite_id)
    ||| is_modified(stylemap_events, entity.stylemap_id)
}

/// Whether the entity appears for the first time, so that it is painted
/// without anything to erase: it was created in the frame, or one of its
/// assets became available.
pub open spec fn is_fresh(
    entity: LiveEntity,
    sprite_events: Seq<AssetEvent>,
    stylemap_events: Seq<AssetEvent>,
) -> bool {
    ||| entity.added
    ||| is_created(sprite_events, entity.sprite_id)
    ||| is_created(stylemap_events, entity.stylemap_id)
}

/// The stale entities, in the order of `all`.
pub open spec fn stale_entities(
    all: Seq<LiveEntity>,
    sprite_events: Seq<AssetEvent>,
    stylemap_events: Seq<AssetEvent>,
) -> Seq<Entity> {
    all.filter(|entity: LiveEntity| is_stale(entity, sprite_events, stylemap_events)).map_values(
        |entity: LiveEntity| entity.entity,
    )
}

/// `entities` without the later occurrences of an entity that occurs more
/// than once.
pub open spec fn without_repeats(entities: Seq<Entity>) -> Seq<Entity>
    decreases entities.len(),
{
    if entities.len() == 0 {
        entities
    } else {
        let front = without_repeats(entities.drop_last());
        if front.contains(entities.last()) {
            front
        } else {
            front.push(entities.last())
        }
    }
}

/// The entities to erase: the stale ones, then the removed ones, each once.
pub open spec fn clear_list(
    all: Seq<LiveEntity>,
    sprite_events: Seq<AssetEvent>,
    stylemap_events: Seq<AssetEvent>,
    removed: Seq<Entity>,
) -> Seq<Entity> {
    without_repeats(stale_entities(all, sprite_events, stylemap_events) + removed)
}

/// The stale entities, as a set.
pub open spec fn stale_set(
    all: Seq<LiveEntity>,
    sprite_events: Seq<AssetEvent>,
    stylemap_events: Seq<AssetEvent>,
) -> Set<Entity> {
    Set::new(
        |id: Entity|
            exists|i: int|
                0 <= i < all.len() && (#[trigger] all[i]).entity == id && is_stale(
                    all[i],
                    sprite_events,
                    stylemap_events,
                ),
    )
}

/// The entities that are painted whatever lies around them: the stale ones
/// and the fresh ones.
pub open spec fn initial_draw_set(
    all: Seq<LiveEntity>,
    sprite_events: Seq<AssetEvent>,
    stylemap_events: Seq<AssetEvent>,
) -> Set<Entity> {
    Set::new(
        |id: Entity|
            exists|i: int|
                0 <= i < all.len() && (#[trigger] all[i]).entity == id && (is_stale(
                    all[i],
                    sprite_events,
                    stylemap_events,
                ) || is_fresh(all[i], sprite_events, stylemap_events)),
    )
}

/// The rectangle that the entity covers now. It has one only once its sprite
/// has loaded.
pub open spec fn current_box(entity: LiveEntity) -> BoundingBox
    recommends
        entity.sprite is Some,
{
    BoundingBox {
        rect: Rect::spec_at(
            entity.position.x,
            entity.position.y,
            entity.sprite->0.spec_width(),
            entity.sprite->0.spec_height(),
        ),
        entity: entity.entity,
    }
}

/// The rectangles that the entities with a loaded sprite cover now.
pub open spec fn current_boxes(all: Seq<LiveEntity>) -> Set<BoundingBox> {
    Set::new(
        |b: BoundingBox|
            exists|i: int|
                0 <= i < all.len() && (#[trigger] all[i]).sprite is Some && current_box(all[i])
                    == b,
    )
}

/// The entities to paint: the stale and the fresh ones, and every entity that
/// erasing a stale one damages, directly or through other damaged entities.
pub open spec fn draw_set(
    history: History,
    all: Seq<LiveEntity>,
    sprite_events: Seq<AssetEvent>,
    stylemap_events: Seq<AssetEvent>,
) -> Set<Entity> {
    let initial = initial_draw_set(all, sprite_events, stylemap_events);
    initial.union(
        uncovered(
            history,
            current_boxes(all),
            stale_set(all, sprite_events, stylemap_events),
            initial,
        ),
    )
}

/// An entity with its depth.
pub open spec fn depth_of(entity: LiveEntity) -> EntityDepth {
    EntityDepth { entity: entity.entity, z: entity.position.z }
}

/// The entities of `all` that are in `chosen`, each with its depth, in the
/// order of `all`.
pub open spec fn candidates(all: Seq<LiveEntity>, chosen: Set<Entity>) -> Seq<EntityDepth> {
    all.filter(|entity: LiveEntity| chosen.contains(entity.entity)).map_values(
        |entity: LiveEntity| depth_of(entity),
    )
}

/// Whether the whole screen is painted anew: the terminal was resized, or its
/// colors are not those of the frame before.
pub open spec fn needs_full_redraw(
    resized: bool,
    window: &CrosstermWindow,
    prev_colors: PreviousWindowColors,
) -> bool {
    resized || window.spec_colors() != prev_colors.0
}

proof fn lemma_stale_entities_push(
    front: Seq<LiveEntity>,
    entity: LiveEntity,
    sprite_events: Seq<AssetEvent>,
    stylemap_events: Seq<AssetEvent>,
)
    ensures
        stale_entities(front.push(entity), sprite_events, stylemap_events) == if is_stale(
            entity,
            sprite_events,
            stylemap_events,
        ) {
            stale_entities(front, sprite_events, stylemap_events).push(entity.entity)
        } else {
            stale_entities(front, sprite_events, stylemap_events)
        },
{
    let test = |entity: LiveEntity| is_stale(entity, sprite_events, stylemap_events);
    front.lemma_filter_push(entity, test);
    assert(front.filter(test).push(entity).map_values(|entity: LiveEntity| entity.entity)
        =~= front.filter(test).map_values(|entity: LiveEntity| entity.entity).push(
        entity.entity,
    ));
}

proof fn lemma_candidates_push(front: Seq<LiveEntity>, entity: LiveEntity, chosen: Set<Entity>)
    ensures
        candidates(front.push(entity), chosen) == if chosen.contains(entity.entity) {
            candidates(front, chosen).push(depth_of(entity))
        } else {
            candidates(front, chosen)
        },
{
    let test = |entity: LiveEntity| chosen.contains(entity.entity);
    front.lemma_filter_push(entity, test);
    assert(front.filter(test).push(entity).map_values(|entity: LiveEntity| depth_of(entity))
        =~= front.filter(test).map_values(|entity: LiveEntity| depth_of(entity)).push(
        depth_of(entity),
    ));
}

proof fn lemma_without_repeats_push(front: Seq<Entity>, entity: Entity)
    ensures
        without_repeats(front.push(entity)) == if without_repeats(front).contains(entity) {
            without_repeats(front)
        } else {
            without_repeats(front).push(entity)
        },
{
    assert(front.push(entity).drop_last() =~= front);
}

/// The assets that the events report as created, and those that they report
/// as modified.
pub fn changed_assets(events: &Vec<AssetEvent>) -> (changed: (HashSet<AssetId>, HashSet<AssetId>))
    ensures
        forall|handle: AssetId| changed.0@.contains(handle) <==> is_created(events@, handle),
        forall|handle: AssetId| changed.1@.contains(handle) <==> is_modified(events@, handle),
{
    broadcast use vstd::std_specs::hash::group_hash_axioms;

    let mut created: HashSet<AssetId> = HashSet::new();
    let mut modified: HashSet<AssetId> = HashSet::new();
    let mut i: usize = 0;
    while i < events.len()
        invariant
            i <= events.len(),
            forall|handle: AssetId|
                created@.contains(handle) <==> is_created(events@.take(i as int), handle),
            forall|handle: AssetId|
                modified@.contains(handle) <==> is_modified(events@.take(i as int), handle),
        decreases events.len() - i,
    {
        let ghost seen = events@.take(i as int);
        let event: AssetEvent = events[i];
        match event {
            AssetEvent::Created { handle } => {
                created.insert(handle);
            },
            AssetEvent::Modified { handle } => {
                modified.insert(handle);
            },
            AssetEvent::Removed { handle } => {},
        }
        proof {
            assert(events@.take(i as int + 1) =~= seen.push(event));
            assert forall|other: AssetEvent|
                seen.push(event).contains(other) <==> seen.contains(other) || other == event by {
                if seen.contains(other) {
                    let k = choose|k: int| 0 <= k < seen.len() && seen[k] == other;
                    assert(seen.push(event)[k] == other);
                }
                assert(seen.push(event)[seen.len() as int] == event);
            }
        }
        i += 1;
    }
    assert(events@.take(i as int) =~= events@);
    (created, modified)
}

/// The entities of `all` to paint, each with its depth, in the order of
/// `all`: every one where `everything` is set, else those in `drawn`.
pub fn depths_of(all: &Vec<LiveEntity>, drawn: &HashSet<Entity>, everything: bool) -> (depths: Vec<
    EntityDepth,
>)
    ensures
        depths@ == candidates(
            all@,
            if everything {
                Set::full()
            } else {
                drawn@
            },
        ),
{
    broadcast use vstd::std_specs::hash::group_hash_axioms;

    let ghost chosen: Set<Entity> = if everything {
        Set::full()
    } else {
        drawn@
    };
    let mut depths: Vec<EntityDepth> = Vec::new();
    let mut i: usize = 0;
    proof {
        reveal(Seq::filter);
        assert(all@.take(0) =~= Seq::<LiveEntity>::empty());
        assert(candidates(all@.take(0), chosen) =~= Seq::<EntityDepth>::empty());
    }
    while i < all.len()
        invariant
            i <= all.len(),
            chosen == if everything {
                Set::<Entity>::full()
            } else {
                drawn@
            },
            depths@ == candidates(all@.take(i as int), chosen),
        decreases all.len() - i,
    {
        let entity = &all[i];
        proof {
            assert(all@.take(i as int + 1) =~= all@.take(i as int).push(*entity));
            lemma_candidates_push(all@.take(i as int), *entity, chosen);
        }
        if everything || drawn.contains(&entity.entity) {
            depths.push(EntityDepth { entity: entity.entity, z: entity.position.z });
        }
        i += 1;
    }
    assert(all@.take(i as int) =~= all@);
    depths
}

/// Works out what the frame has to erase and to paint, and leaves it in
/// `entities`.
///
/// Where the terminal was resized or its colors changed, the whole screen is
/// painted anew: every entity is painted and none is erased one by one.
/// Otherwise the stale and the removed entities are erased, and the stale,
/// the fresh and the damaged entities are painted. In both cases the entities
/// are painted in ascending order of depth, those of one depth in the order
/// of `all`.
pub fn calculate_entities_to_redraw(
    prev_colors: &mut PreviousWindowColors,
    entities: &mut EntitiesToRedraw,
    previous_details: &PreviousEntityDetails,
    window: &CrosstermWindow,
    resized: bool,
    sprite_asset_events: &Vec<AssetEvent>,
    stylemap_asset_events: &Vec<AssetEvent>,
    all: &Vec<LiveEntity>,
    removed: &Vec<Entity>,
)
    ensures
        final(prev_colors).0 == window.spec_colors(),
        final(entities).full_redraw == needs_full_redraw(resized, window, *old(prev_colors)),
        final(entities).full_redraw ==> {
            &&& final(entities).to_clear@ == Seq::<Entity>::empty()
            &&& is_stable_sort(candidates(all@, Set::full()), final(entities).to_draw@)
        },
        !final(entities).full_redraw ==> {
            &&& final(entities).to_clear@ == clear_list(
                all@,
                sprite_asset_events@,
                stylemap_asset_events@,
                removed@,
            )
            &&& is_stable_sort(
                candidates(
                    all@,
                    draw_set(
                        previous_details@,
                        all@,
                        sprite_asset_events@,
                        stylemap_asset_events@,
                    ),
                ),
                final(entities).to_draw@,
            )
        },
{
    broadcast use vstd::std_specs::hash::group_hash_axioms;

    let ghost sprite_events = sprite_asset_events@;
    let ghost stylemap_events = stylemap_asset_events@;
    let mut drawn: HashSet<Entity> = HashSet::new();

    // A resize or new colors invalidate the whole screen.
    if resized || window.colors() != prev_colors.0 {
        prev_colors.0 = window.colors();
        let mut to_draw = depths_of(all, &drawn, true);
        sort_by_depth(&mut to_draw);
        entities.full_redraw = true;
        entities.to_clear = Vec::new();
        entities.to_draw = to_draw;
        return ;
    }
    let (created_sprites, modified_sprites) = changed_assets(sprite_asset_events);
    let (created_stylemaps, modified_stylemaps) = changed_assets(stylemap_asset_events);

    // The entities that changed, and those that are new.
    let mut to_clear: Vec<Entity> = Vec::new();
    let mut cleared: HashSet<Entity> = HashSet::new();
    let mut i: usize = 0;
    proof {
        reveal(Seq::filter);
        assert(all@.take(0) =~= Seq::<LiveEntity>::empty());
        assert(stale_entities(all@.take(0), sprite_events, stylemap_events) =~= Seq::<
            Entity,
        >::empty());
    }
    while i < all.len()
        invariant
            i <= all.len(),
            sprite_events == sprite_asset_events@,
            stylemap_events == stylemap_asset_events@,
            forall|handle: AssetId|
                created_sprites@.contains(handle) <==> is_created(sprite_events, handle),
            forall|handle: AssetId|
                modified_sprites@.contains(handle) <==> is_modified(sprite_events, handle),
            forall|handle: AssetId|
                created_stylemaps@.contains(handle) <==> is_created(stylemap_events, handle),
            forall|handle: AssetId|
                modified_stylemaps@.contains(handle) <==> is_modified(stylemap_events, handle),
            to_clear@ == without_repeats(
                stale_entities(all@.take(i as int), sprite_events, stylemap_events),
            ),
            forall|id: Entity| cleared@.contains(id) <==> to_clear@.contains(id),
            forall|id: Entity|
                cleared@.contains(id) <==> exists|k: int|
                    0 <= k < i && (#[trigger] all@[k]).entity == id && is_stale(
                        all@[k],
                        sprite_events,
                        stylemap_events,
                    ),
            forall|id: Entity|
                drawn@.contains(id) <==> exists|k: int|
                    0 <= k < i && (#[trigger] all@[k]).entity == id && (is_stale(
                        all@[k],
                        sprite_events,
                        stylemap_events,
                    ) || is_fresh(all@[k], sprite_events, stylemap_events)),
        decreases all.len() - i,
    {
        let entity = &all[i];
        let ghost front = all@.take(i as int);
        let ghost listed = to_clear@;
        proof {
            assert(all@.take(i as int + 1) =~= front.push(*entity));
            lemma_stale_entities_push(front, *entity, sprite_events, stylemap_events);
            lemma_without_repeats_push(
                stale_entities(front, sprite_events, stylemap_events),
                entity.entity,
            );
        }
        let stale = entity.changed || modified_sprites.contains(&entity.sprite_id)
            || modified_stylemaps.contains(&entity.stylemap_id);
        let fresh = entity.added || created_sprites.contains(&entity.sprite_id)
            || created_stylemaps.contains(&entity.stylemap_id);
        assert(stale == is_stale(*entity, sprite_events, stylemap_events));
        assert(fresh == is_fresh(*entity, sprite_events, stylemap_events));
        if stale {
            if !cleared.contains(&entity.entity) {
                cleared.insert(entity.entity);
                to_clear.push(entity.entity);
                proof {
                    assert forall|id: Entity|
                        to_clear@.contains(id) <==> listed.contains(id) || id
                            == entity.entity by {
                        if listed.contains(id) {
                            let k = choose|k: int| 0 <= k < listed.len() && listed[k] == id;
                            assert(to_clear@[k] == id);
                        }
                        assert(to_clear@[listed.len() as int] == entity.entity);
                    }
                }
            }
        }
        if stale || fresh {
            drawn.insert(entity.entity);
        }
        i += 1;
    }
    assert(all@.take(i as int) =~= all@);

    // Where every entity with a loaded sprite is now.
    let mut boxes: Vec<BoundingBox> = Vec::new();
    let mut i: usize = 0;
    while i < all.len()
        invariant
            i <= all.len(),
            forall|b: BoundingBox|
                boxes@.contains(b) <==> exists|k: int|
                    0 <= k < i && (#[trigger] all@[k]).sprite is Some && current_box(all@[k])
                        == b,
        decreases all.len() - i,
    {
        let entity = &all[i];
        let ghost found = boxes@;
        match entity.sprite {
            Some(sprite) => {
                let rect = Rect::at(
                    entity.position.x,
                    entity.position.y,
                    sprite.width(),
                    sprite.height(),
                );
                boxes.push(BoundingBox { rect, entity: entity.entity });
                proof {
                    assert(boxes@[found.len() as int] == current_box(*entity));
                    assert forall|b: BoundingBox|
                        boxes@.contains(b) <==> found.contains(b) || b == current_box(
                            *entity,
                        ) by {
                        if found.contains(b) {
                            let k = choose|k: int| 0 <= k < found.len() && found[k] == b;
                            assert(boxes@[k] == b);
                        }
                    }
                }
            },
            None => {},
        }
        proof {
            assert forall|b: BoundingBox|
                boxes@.contains(b) <==> exists|k: int|
                    0 <= k < i + 1 && (#[trigger] all@[k]).sprite is Some && current_box(all@[k])
                        == b by {
                if found.contains(b) {
                    let k = choose|k: int|
                        0 <= k < i && (#[trigger] all@[k]).sprite is Some && current_box(all@[k])
                            == b;
                    assert(all@[k].sprite is Some && current_box(all@[k]) == b);
                }
                if entity.sprite is Some && b == current_box(*entity) {
                    assert(all@[i as int].sprite is Some && current_box(all@[i as int]) == b);
                }
            }
        }
        i += 1;
    }
    let mut index = SpatialIndex::new(&boxes);

    // Whatever lies where a stale entity was is damaged when that place is
    // erased, and so is whatever lies where a damaged entity was.
    proof {
        broadcast use vstd::seq_lib::group_to_multiset_ensures;

        assert(index.boxes().dom() =~= current_boxes(all@));
        assert(to_clear@.to_set() =~= stale_set(all@, sprite_events, stylemap_events));
        assert(drawn@ =~= initial_draw_set(all@, sprite_events, stylemap_events));
    }
    expand_by_collisions(previous_details, &mut index, &to_clear, &mut drawn);
    assert(drawn@ == draw_set(previous_details@, all@, sprite_events, stylemap_events));

    // What is gone is erased as well.
    let ghost stale_list = stale_entities(all@, sprite_events, stylemap_events);
    let mut i: usize = 0;
    assert(stale_list + removed@.take(0) =~= stale_list);
    while i < removed.len()
        invariant
            i <= removed.len(),
            to_clear@ == without_repeats(stale_list + removed@.take(i as int)),
            forall|id: Entity| cleared@.contains(id) <==> to_clear@.contains(id),
        decreases removed.len() - i,
    {
        let entity: Entity = removed[i];
        let ghost listed = to_clear@;
        proof {
            assert(stale_list + removed@.take(i as int + 1) =~= (stale_list + removed@.take(
                i as int,
            )).push(entity));
            lemma_without_repeats_push(stale_list + removed@.take(i as int), entity);
        }
        if !cleared.contains(&entity) {
            cleared.insert(entity);
            to_clear.push(entity);
            proof {
                assert forall|id: Entity|
                    to_clear@.contains(id) <==> listed.contains(id) || id == entity by {
                    if listed.contains(id) {
                        let k = choose|k: int| 0 <= k < listed.len() && listed[k] == id;
                        assert(to_clear@[k] == id);
                    }
                    assert(to_clear@[listed.len() as int] == entity);
                }
            }
        }
        i += 1;
    }
    assert(removed@.take(i as int) =~= removed@);

    let mut to_draw = depths_of(all, &drawn, false);
    sort_by_depth(&mut to_draw);
    entities.full_redraw = false;
    entities.to_clear = to_clear;
    entities.to_draw = to_draw;
}


/// A frame in which nothing changed erases nothing and paints nothing: where
/// no entity is new or changed, no asset was created or modified and no
/// entity was removed, the list of entities to erase is empty, and so is
/// every painting order of the entities to paint.
pub proof fn lemma_quiet_frame_is_empty(
    history: History,
    all: Seq<LiveEntity>,
    sprite_events: Seq<AssetEvent>,
    stylemap_events: Seq<AssetEvent>,
    to_draw: Seq<EntityDepth>,
)
    requires
        forall|i: int| 0 <= i < all.len() ==> !(#[trigger] all[i]).changed && !all[i].added,
        forall|handle: AssetId|
            !is_created(sprite_events, handle) && !is_modified(sprite_events, handle),
        forall|handle: AssetId|
            !is_created(stylemap_events, handle) && !is_modified(stylemap_events, handle),
        is_stable_sort(
            candidates(all, draw_set(history, all, sprite_events, stylemap_events)),
            to_draw,
        ),
    ensures
        clear_list(all, sprite_events, stylemap_events, Seq::empty()) == Seq::<Entity>::empty(),
        draw_set(history, all, sprite_events, stylemap_events) == Set::<Entity>::empty(),
        to_draw == Seq::<EntityDepth>::empty(),
{
    let stale = |entity: LiveEntity| is_stale(entity, sprite_events, stylemap_events);
    all.lemma_all_neg_filter_empty(stale);
    let listed = stale_entities(all, sprite_events, stylemap_events);
    assert(listed =~= Seq::<Entity>::empty());
    assert(listed + Seq::<Entity>::empty() =~= Seq::<Entity>::empty());
    let initial = initial_draw_set(all, sprite_events, stylemap_events);
    let seeds = stale_set(all, sprite_events, stylemap_events);
    assert(initial =~= Set::<Entity>::empty());
    assert(seeds =~= Set::<Entity>::empty());
    let chosen = draw_set(history, all, sprite_events, stylemap_events);
    assert(chosen =~= Set::<Entity>::empty());
    let wanted = |entity: LiveEntity| chosen.contains(entity.entity);
    all.lemma_all_neg_filter_empty(wanted);
    let input = candidates(all, chosen);
    assert(input =~= Seq::<EntityDepth>::empty());
    crate::order::lemma_stable_sort_permutes(input, to_draw);
    assert(to_draw =~= Seq::<EntityDepth>::empty());
}

/// A frame that paints the whole screen anew paints every entity, in
/// ascending order of depth: the painting order holds each entity of `all`
/// with its depth, as often as `all` holds it, and nothing else.
pub proof fn lemma_full_redraw_paints_all(all: Seq<LiveEntity>, to_draw: Seq<EntityDepth>)
    requires
        is_stable_sort(candidates(all, Set::full()), to_draw),
    ensures
        crate::order::ascending(to_draw),
        to_draw.to_multiset() == all.map_values(|entity: LiveEntity| depth_of(entity)).to_multiset(),
        to_draw.len() == all.len(),
        forall|i: int| 0 <= i < all.len() ==> to_draw.contains(depth_of(#[trigger] all[i])),
{
    let everything = Set::<Entity>::full();
    let wanted = |entity: LiveEntity| everything.contains(entity.entity);
    lemma_filter_keeps_all(all, wanted);
    let input = candidates(all, everything);
    assert(input == all.map_values(|entity: LiveEntity| depth_of(entity)));
    crate::order::lemma_stable_sort_permutes(input, to_draw);
    assert forall|i: int| 0 <= i < all.len() implies to_draw.contains(
        depth_of(#[trigger] all[i]),
    ) by {
        assert(input[i] == depth_of(all[i]));
        assert(input.contains(depth_of(all[i])));
    }
}

/// A test that every entity passes lets every entity through.
proof fn lemma_filter_keeps_all(all: Seq<LiveEntity>, test: spec_fn(LiveEntity) -> bool)
    requires
        forall|i: int| 0 <= i < all.len() ==> test(#[trigger] all[i]),
    ensures
        all.filter(test) == all,
    decreases all.len(),
{
    reveal(Seq::filter);
    if all.len() > 0 {
        lemma_filter_keeps_all(all.drop_last(), test);
        assert(all.drop_last().push(all.last()) =~= all);
    }
}

} // verus!
