//! Rectangles on the screen, and an index that finds the rectangles that
//! overlap a given one.

use crate::components::Entity;
use broccoli::aabb::pin::AabbPin;
use broccoli::aabb::BBox;
use broccoli::{Tree, TreeData};
use vstd::multiset::Multiset;
use vstd::prelude::*;

verus! {

/// The cells of column `x1` up to, not including, column `x2`, in row `y1`
/// up to, not including, row `y2`.
#[derive(Copy, Clone, Debug, PartialEq, Eq, Structural)]
pub struct Rect {
    pub x1: i128,
    pub x2: i128,
    pub y1: i128,
    pub y2: i128,
}

impl Rect {
    /// Whether a cell lies in the rectangle.
    pub open spec fn contains(self, x: int, y: int) -> bool {
        self.x1 <= x < self.x2 && self.y1 <= y < self.y2
    }

    /// Whether the two rectangles have at least one cell in common: in both
    /// directions, the later start lies before the earlier end.
    pub open spec fn spec_intersects(self, other: Rect) -> bool {
        &&& self.x1 < other.x2 && other.x1 < self.x2 && self.x1 < self.x2 && other.x1 < other.x2
        &&& self.y1 < other.y2 && other.y1 < self.y2 && self.y1 < self.y2 && other.y1 < other.y2
    }

    /// The rectangle of the given width and height whose top left cell is at
    /// column `x` of row `y`.
    pub open spec fn spec_at(x: i32, y: i32, width: usize, height: usize) -> Rect {
        Rect {
            x1: x as i128,
            x2: (x + width) as i128,
            y1: y as i128,
            y2: (y + height) as i128,
        }
    }

    /// The rectangle of the given width and height whose top left cell is at
    /// column `x` of row `y`.
    pub fn at(x: i32, y: i32, width: usize, height: usize) -> (rect: Rect)
        ensures
            rect == Rect::spec_at(x, y, width, height),
            rect.x2 == x + width,
            rect.y2 == y + height,
    {
        let left: i128 = x as i128;
        let top: i128 = y as i128;
        let across: i128 = width as i128;
        let down: i128 = height as i128;
        Rect { x1: left, x2: left + across, y1: top, y2: top + down }
    }

    /// Whether the two rectangles have at least one cell in common.
    pub fn intersects(&self, other: &Rect) -> (overlap: bool)
        ensures
            overlap == self.spec_intersects(*other),
    {
        self.x1 < other.x2 && other.x1 < self.x2 && self.x1 < self.x2 && other.x1 < other.x2
            && self.y1 < other.y2 && other.y1 < self.y2 && self.y1 < self.y2 && other.y1
            < other.y2
    }
}

/// Two rectangles intersect exactly when some cell lies in both.
pub proof fn lemma_intersects_is_common_cell(a: Rect, b: Rect)
    ensures
        a.spec_intersects(b) <==> exists|x: int, y: int| a.contains(x, y) && b.contains(x, y),
{
    if a.spec_intersects(b) {
        let x = if a.x1 < b.x1 {
            b.x1 as int
        } else {
            a.x1 as int
        };
        let y = if a.y1 < b.y1 {
            b.y1 as int
        } else {
            a.y1 as int
        };
        assert(a.contains(x, y) && b.contains(x, y));
    }
}

/// The rectangle that an entity covers.
#[derive(Copy, Clone, Debug, PartialEq, Eq, Structural)]
pub struct BoundingBox {
    pub rect: Rect,
    pub entity: Entity,
}

/// A set of bounding boxes, laid out so that those that overlap a given
/// rectangle are found without looking at all of them. It holds a tree of the
/// crate `broccoli`: the boxes in the tree's order, and the shape of the tree.
#[verifier::external_body]
pub struct SpatialIndex {
    boxes: Vec<BBox<i128, Entity>>,
    shape: TreeData<i128>,
}

/// The bounding boxes that an index holds.
pub uninterp spec fn indexed_boxes(index: SpatialIndex) -> Multiset<BoundingBox>;

/// Whether `bounding_box` belongs to `entity` and overlaps `area`.
pub open spec fn is_hit(bounding_box: BoundingBox, entity: Entity, area: Rect) -> bool {
    bounding_box.entity == entity && area.spec_intersects(bounding_box.rect)
}

/// Builds the tree with `broccoli::Tree::new` over one `broccoli::bbox` for
/// each of `boxes`, and keeps what `Tree::get_tree_data` gives of it. Not
/// proved: that the index holds the boxes it was given, each as often as it
/// was given.
#[verifier::external_body]
fn build_index(boxes: &Vec<BoundingBox>) -> (index: SpatialIndex)
    ensures
        indexed_boxes(index) == boxes@.to_multiset(),
{
    let mut boxes: Vec<BBox<i128, Entity>> = boxes.iter().map(
        |b| broccoli::bbox(broccoli::rect(b.rect.x1, b.rect.x2, b.rect.y1, b.rect.y2), b.entity),
    ).collect();
    let shape = Tree::new(&mut boxes).get_tree_data();
    SpatialIndex { boxes, shape }
}

/// Puts the tree together again with `broccoli::Tree::from_tree_data` and
/// calls `Tree::find_all_intersect_rect` on it. Not proved: that the index
/// holds afterwards what it held before, and that the result names the entity
/// of each box that the index holds and that overlaps `area`, once for each
/// such box, and nothing else.
#[verifier::external_body]
fn find_intersecting(index: &mut SpatialIndex, area: Rect) -> (hits: Vec<Entity>)
    ensures
        indexed_boxes(*final(index)) == indexed_boxes(*old(index)),
        forall|entity: Entity|
            #![trigger hits@.to_multiset().count(entity)]
            hits@.to_multiset().count(entity) == indexed_boxes(*old(index)).filter(
                |b: BoundingBox| is_hit(b, entity, area),
            ).len(),
{
    let mut hits: Vec<Entity> = Vec::new();
    let mut area = broccoli::rect(area.x1, area.x2, area.y1, area.y2);
    let mut tree = Tree::from_tree_data(&mut index.boxes, &index.shape);
    tree.find_all_intersect_rect(AabbPin::new(&mut area), |_, hit| hits.push(hit.into_ref().inner));
    hits
}

impl SpatialIndex {
    /// The bounding boxes that the index holds.
    pub open spec fn boxes(self) -> Multiset<BoundingBox> {
        indexed_boxes(self)
    }

    /// An index of the given bounding boxes.
    pub fn new(boxes: &Vec<BoundingBox>) -> (index: SpatialIndex)
        ensures
            index.boxes() == boxes@.to_multiset(),
    {
        build_index(boxes)
    }

    /// The entities of the boxes that overlap `area`. An entity is named as
    /// often as it has such boxes; the order is not fixed.
    pub fn overlapping(&mut self, area: Rect) -> (hits: Vec<Entity>)
        ensures
            final(self).boxes() == old(self).boxes(),
            forall|entity: Entity|
                hits@.contains(entity) <==> exists|b: BoundingBox|
                    old(self).boxes().count(b) > 0 && #[trigger] is_hit(b, entity, area),
            forall|entity: Entity|
                #![trigger hits@.to_multiset().count(entity)]
                hits@.to_multiset().count(entity) == old(self).boxes().filter(
                    |b: BoundingBox| is_hit(b, entity, area),
                ).len(),
    {
        let ghost held = self.boxes();
        let hits = find_intersecting(self, area);
        proof {
            broadcast use vstd::seq_lib::group_to_multiset_ensures;

            assert forall|entity: Entity|
                hits@.contains(entity) <==> exists|b: BoundingBox|
                    held.count(b) > 0 && #[trigger] is_hit(b, entity, area) by {
                let matching = held.filter(|b: BoundingBox| is_hit(b, entity, area));
                assert(hits@.contains(entity) <==> hits@.to_multiset().count(entity) > 0);
                if matching.len() > 0 {
                    let b = matching.choose();
                    assert(matching.count(b) > 0);
                    assert(held.count(b) > 0 && is_hit(b, entity, area));
                }
                if exists|b: BoundingBox| held.count(b) > 0 && #[trigger] is_hit(b, entity, area) {
                    let b = choose|b: BoundingBox|
                        held.count(b) > 0 && #[trigger] is_hit(b, entity, area);
                    assert(matching.count(b) > 0);
                    assert(matching.count(b) <= matching.len());
                }
            }
        }
        hits
    }
}

} // verus!
