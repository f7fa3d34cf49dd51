//! What holds of every collage, proved from the definitions of placement and
//! of the builder.

use crate::builder::{
    arranged, canvas_after, collage_of, insertion_point, position_of, sort_keys, stable_order,
    views, CollageConfig, PlacementOrder,
};
use crate::canvas::Canvas;
use crate::grid::Grid;
use crate::occupancy::{
    lemma_occupied_at_most_area, lemma_occupied_grown, lemma_occupied_pasted, lemma_occupied_solid,
    occupied,
};
use crate::placement::{lemma_placement, lemma_placement_keeps, placement};
use vstd::prelude::*;

verus! {

/// Every raster of the sequence is well-formed.
pub open spec fn all_wf(rects: Seq<Grid>) -> bool {
    forall|i: int| 0 <= i < rects.len() ==> (#[trigger] rects[i]).wf()
}

/// No raster of the sequence holds a pixel of the background colour.
pub open spec fn all_solid(rects: Seq<Grid>) -> bool {
    forall|i: int| 0 <= i < rects.len() ==> (#[trigger] rects[i]).solid()
}

/// The model of every canvas is well-formed.
pub proof fn lemma_views_wf(canvases: Seq<Canvas>)
    ensures
        all_wf(views(canvases)),
{
    assert forall|i: int| 0 <= i < canvases.len() implies (#[trigger] views(canvases)[i]).wf() by {
        assert(canvases[i]@.wf());
    }
}

/// Two boxes, each given by its top-left corner and its size, share a pixel.
pub open spec fn boxes_overlap(
    x1: int,
    y1: int,
    w1: int,
    h1: int,
    x2: int,
    y2: int,
    w2: int,
    h2: int,
) -> bool {
    &&& 0 < w1 && 0 < h1 && 0 < w2 && 0 < h2
    &&& x1 < x2 + w2 && x2 < x1 + w1
    &&& y1 < y2 + h2 && y2 < y1 + h1
}

/// Every canvas that the builder reaches is well-formed, and so were all
/// the canvases before it.
pub proof fn lemma_canvas_after_wf(rects: Seq<Grid>, k: nat, fuel: nat)
    requires
        all_wf(rects),
        k < rects.len(),
        canvas_after(rects, k, fuel) is Some,
    ensures
        canvas_after(rects, k, fuel)->0.wf(),
        forall|m: nat| m <= k ==> (#[trigger] canvas_after(rects, m, fuel)) is Some,
    decreases k,
{
    if k > 0 {
        let prev = (k - 1) as nat;
        lemma_canvas_after_wf(rects, prev, fuel);
        assert(rects[k as int].wf());
        lemma_placement(canvas_after(rects, prev, fuel)->0, rects[k as int], fuel);
        assert forall|m: nat| m <= k implies (#[trigger] canvas_after(rects, m, fuel)) is Some by {
            if m < k {
                assert(m <= prev);
            }
        }
    }
}

/// The canvas never shrinks: after each insertion it is at least as wide and
/// as high as before.
pub proof fn lemma_canvas_never_shrinks(rects: Seq<Grid>, k: nat, fuel: nat)
    requires
        all_wf(rects),
        k + 1 < rects.len(),
        canvas_after(rects, (k + 1) as nat, fuel) is Some,
    ensures
        canvas_after(rects, k, fuel) is Some,
        canvas_after(rects, k, fuel)->0.width <= canvas_after(rects, (k + 1) as nat, fuel)->0.width,
        canvas_after(rects, k, fuel)->0.height <= canvas_after(rects, (k + 1) as nat, fuel)->0.height,
{
    lemma_canvas_after_wf(rects, (k + 1) as nat, fuel);
    assert(canvas_after(rects, k, fuel) is Some);
    lemma_canvas_after_wf(rects, k, fuel);
    lemma_placement(canvas_after(rects, k, fuel)->0, rects[(k + 1) as int], fuel);
}

/// Growth and later insertions leave a placed image alone: an image without
/// background-coloured pixels stands, pixel for pixel, at its position on
/// every later canvas.
pub proof fn lemma_placed_image_stays(rects: Seq<Grid>, i: nat, k: nat, fuel: nat)
    requires
        all_wf(rects),
        all_solid(rects),
        i <= k < rects.len(),
        canvas_after(rects, k, fuel) is Some,
    ensures
        ({
            let canvas = canvas_after(rects, k, fuel)->0;
            let (left, top) = position_of(rects, i, fuel);
            &&& canvas.covers(left, top, rects[i as int].width, rects[i as int].height)
            &&& forall|x: int, y: int|
                rects[i as int].contains(x, y) ==> canvas.at(left + x, top + y)
                    == #[trigger] rects[i as int].at(x, y)
        }),
    decreases k,
{
    let rect = rects[i as int];
    lemma_canvas_after_wf(rects, k, fuel);
    if k > 0 {
        let prev = (k - 1) as nat;
        let before = canvas_after(rects, prev, fuel)->0;
        lemma_canvas_after_wf(rects, prev, fuel);
        let placed = rects[k as int];
        lemma_placement(before, placed, fuel);
        lemma_placement_keeps(before, placed, fuel);
        if i < k {
            lemma_placed_image_stays(rects, i, prev, fuel);
            let (left, top) = position_of(rects, i, fuel);
            let canvas = canvas_after(rects, k, fuel)->0;
            assert forall|x: int, y: int| rect.contains(x, y) implies canvas.at(left + x, top + y)
                == #[trigger] rect.at(x, y) by {}
        }
    }
}

/// No two placed images overlap, provided that no image holds a pixel of the
/// background colour.
pub proof fn lemma_no_overlap(rects: Seq<Grid>, i: nat, j: nat, fuel: nat)
    requires
        all_wf(rects),
        all_solid(rects),
        i < j < rects.len(),
        canvas_after(rects, j, fuel) is Some,
    ensures
        !boxes_overlap(
            position_of(rects, i, fuel).0,
            position_of(rects, i, fuel).1,
            rects[i as int].width,
            rects[i as int].height,
            position_of(rects, j, fuel).0,
            position_of(rects, j, fuel).1,
            rects[j as int].width,
            rects[j as int].height,
        ),
{
    let prev = (j - 1) as nat;
    lemma_canvas_after_wf(rects, j, fuel);
    assert(canvas_after(rects, prev, fuel) is Some);
    lemma_canvas_after_wf(rects, prev, fuel);
    let before = canvas_after(rects, prev, fuel)->0;
    let first = rects[i as int];
    let second = rects[j as int];
    lemma_placed_image_stays(rects, i, prev, fuel);
    lemma_placement(before, second, fuel);
    let p = placement(before, second, fuel)->0;
    let base = before.grown(p.canvas.width, p.canvas.height);
    let (x1, y1) = position_of(rects, i, fuel);
    let (x2, y2) = position_of(rects, j, fuel);
    assert(x2 == p.x && y2 == p.y);
    if boxes_overlap(x1, y1, first.width, first.height, x2, y2, second.width, second.height) {
        let x = if x1 < x2 { x2 } else { x1 };
        let y = if y1 < y2 { y2 } else { y1 };
        assert(first.contains(x - x1, y - y1));
        assert(before.at(x1 + (x - x1), y1 + (y - y1)) == first.at(x - x1, y - y1));
        assert(base.contains(x, y));
        assert(base.at(x, y) == before.at(x, y));
        assert(base.at(x, y).is_background());
    }
}

/// The same images in the same order give the same collage and the same
/// canvas after every insertion.
pub proof fn lemma_same_images_same_collage(a: Seq<Grid>, b: Seq<Grid>, config: CollageConfig)
    requires
        all_wf(a),
        all_wf(b),
        a.len() == b.len(),
        forall|i: int| 0 <= i < a.len() ==> (#[trigger] a[i]).same_content(b[i]),
    ensures
        collage_of(a, config) == collage_of(b, config),
        forall|k: nat|
            canvas_after(arranged(a, config.order), k, config.max_growth_steps as nat)
                == canvas_after(arranged(b, config.order), k, config.max_growth_steps as nat),
{
    assert forall|i: int| 0 <= i < a.len() implies a[i] == b[i] by {
        a[i].lemma_same_content_equal(b[i]);
    }
    assert(a =~= b);
}

/// The areas of the rasters of a sequence, added up.
pub open spec fn total_area(rects: Seq<Grid>) -> int
    decreases rects.len(),
{
    if rects.len() == 0 {
        0
    } else {
        total_area(rects.drop_last()) + rects.last().area()
    }
}

/// When no image holds a pixel of the background colour, the occupied pixels
/// of the canvas are exactly the pixels of the images placed so far.
pub proof fn lemma_occupied_is_placed_area(rects: Seq<Grid>, k: nat, fuel: nat)
    requires
        all_wf(rects),
        all_solid(rects),
        k < rects.len(),
        canvas_after(rects, k, fuel) is Some,
    ensures
        occupied(canvas_after(rects, k, fuel)->0) == total_area(rects.take(k as int + 1)),
    decreases k,
{
    let placed = rects.take(k as int + 1);
    assert(placed.drop_last() =~= rects.take(k as int));
    let rect = rects[k as int];
    if k == 0 {
        assert(total_area(rects.take(0)) == 0);
        lemma_occupied_solid(rect);
    } else {
        let prev = (k - 1) as nat;
        lemma_canvas_after_wf(rects, k, fuel);
        assert(canvas_after(rects, prev, fuel) is Some);
        lemma_canvas_after_wf(rects, prev, fuel);
        lemma_occupied_is_placed_area(rects, prev, fuel);
        let before = canvas_after(rects, prev, fuel)->0;
        lemma_placement(before, rect, fuel);
        let p = placement(before, rect, fuel)->0;
        let base = before.grown(p.canvas.width, p.canvas.height);
        lemma_occupied_grown(before, p.canvas.width, p.canvas.height);
        lemma_occupied_pasted(base, rect, p.x, p.y);
    }
}

/// The canvas is at least as large as the images on it taken together,
/// provided that no image holds a pixel of the background colour.
pub proof fn lemma_area_lower_bound(rects: Seq<Grid>, k: nat, fuel: nat)
    requires
        all_wf(rects),
        all_solid(rects),
        k < rects.len(),
        canvas_after(rects, k, fuel) is Some,
    ensures
        canvas_after(rects, k, fuel)->0.area() >= total_area(rects.take(k as int + 1)),
{
    lemma_occupied_is_placed_area(rects, k, fuel);
    lemma_canvas_after_wf(rects, k, fuel);
    lemma_occupied_at_most_area(canvas_after(rects, k, fuel)->0);
}

/// What it means for `order` to list the indices of `keys` largest key first,
/// equal keys in the order in which they stand: every index occurs, and of
/// two entries the earlier has the larger key or, with equal keys, the
/// smaller index.
pub open spec fn is_stable_descending(keys: Seq<int>, order: Seq<int>) -> bool {
    &&& order.len() == keys.len()
    &&& forall|i: int| 0 <= i < order.len() ==> 0 <= #[trigger] order[i] < keys.len()
    &&& forall|k: int| 0 <= k < keys.len() ==> #[trigger] order.contains(k)
    &&& forall|i: int, j: int|
        0 <= i < j < order.len() ==> keys[#[trigger] order[i]] > keys[#[trigger] order[j]] || (
        keys[order[i]] == keys[order[j]] && order[i] < order[j])
}

/// The insertion point lies behind the entries whose keys are at least `key`
/// and before the first whose key is smaller.
pub proof fn lemma_insertion_point_splits(keys: Seq<int>, order: Seq<int>, key: int)
    ensures
        0 <= insertion_point(keys, order, key) <= order.len(),
        forall|k: int|
            0 <= k < insertion_point(keys, order, key) ==> keys[#[trigger] order[k]] >= key,
        insertion_point(keys, order, key) < order.len() ==> keys[order[insertion_point(
            keys,
            order,
            key,
        )]] < key,
    decreases order.len(),
{
    if order.len() > 0 && keys[order[0]] >= key {
        let rest = order.drop_first();
        lemma_insertion_point_splits(keys, rest, key);
        let p = insertion_point(keys, order, key);
        assert forall|k: int| 0 <= k < p implies keys[#[trigger] order[k]] >= key by {
            if k > 0 {
                assert(order[k] == rest[k - 1]);
            }
        }
        if p < order.len() {
            assert(order[p] == rest[p - 1]);
        }
    }
}

/// The order in which the builder places the images is a stable sort: the
/// largest key first, equal keys in the order in which they were given.
pub proof fn lemma_stable_order_sorts(keys: Seq<int>)
    ensures
        is_stable_descending(keys, stable_order(keys)),
    decreases keys.len(),
{
    let n = keys.len() as int;
    if n > 0 {
        let shorter = keys.drop_last();
        let rest = stable_order(shorter);
        let key = keys.last();
        lemma_stable_order_sorts(shorter);
        lemma_insertion_point_splits(keys, rest, key);
        let p = insertion_point(keys, rest, key);
        let order = stable_order(keys);
        assert(order == rest.insert(p, n - 1));
        assert forall|k: int| 0 <= k < n implies #[trigger] order.contains(k) by {
            if k < n - 1 {
                assert(rest.contains(k));
                let i = choose|i: int| 0 <= i < rest.len() && rest[i] == k;
                if i < p {
                    assert(order[i] == k);
                } else {
                    assert(order[i + 1] == k);
                }
            }
        }
        assert forall|i: int, j: int| 0 <= i < j < order.len() implies keys[#[trigger] order[i]]
            > keys[#[trigger] order[j]] || (keys[order[i]] == keys[order[j]] && order[i]
            < order[j]) by {}
    }
}

/// Inserting a raster into a sequence adds its area to the total.
proof fn lemma_total_area_insert(rects: Seq<Grid>, at: int, rect: Grid)
    requires
        0 <= at <= rects.len(),
    ensures
        total_area(rects.insert(at, rect)) == total_area(rects) + rect.area(),
    decreases rects.len(),
{
    let longer = rects.insert(at, rect);
    if at == rects.len() {
        assert(longer.drop_last() =~= rects);
    } else {
        assert(longer.drop_last() =~= rects.drop_last().insert(at, rect));
        lemma_total_area_insert(rects.drop_last(), at, rect);
    }
}

/// Ordering the images changes neither which images there are nor what
/// their areas add up to.
pub proof fn lemma_arranged_same_images(rects: Seq<Grid>, order: PlacementOrder)
    ensures
        arranged(rects, order).len() == rects.len(),
        all_wf(rects) ==> all_wf(arranged(rects, order)),
        all_solid(rects) ==> all_solid(arranged(rects, order)),
        total_area(arranged(rects, order)) == total_area(rects),
    decreases rects.len(),
{
    let keys = sort_keys(rects, order);
    lemma_stable_order_sorts(keys);
    let sorted = arranged(rects, order);
    if rects.len() > 0 {
        let shorter = rects.drop_last();
        lemma_arranged_same_images(shorter, order);
        let shorter_keys = sort_keys(shorter, order);
        assert(keys.drop_last() =~= shorter_keys);
        let rest = stable_order(shorter_keys);
        lemma_stable_order_sorts(shorter_keys);
        let p = insertion_point(keys, rest, keys.last());
        lemma_insertion_point_splits(keys, rest, keys.last());
        assert(sorted =~= arranged(shorter, order).insert(p, rects.last()));
        lemma_total_area_insert(arranged(shorter, order), p, rects.last());
    }
}

/// The collage is at least as large as all the images taken together,
/// provided that no image holds a pixel of the background colour.
pub proof fn lemma_collage_area_lower_bound(rects: Seq<Grid>, config: CollageConfig)
    requires
        all_wf(rects),
        all_solid(rects),
        rects.len() > 0,
        collage_of(rects, config) is Some,
    ensures
        collage_of(rects, config)->0.area() >= total_area(rects),
{
    let sorted = arranged(rects, config.order);
    lemma_arranged_same_images(rects, config.order);
    let last = (rects.len() - 1) as nat;
    lemma_area_lower_bound(sorted, last, config.max_growth_steps as nat);
    assert(sorted.take(last as int + 1) =~= sorted);
}

/// On the finished collage every image stands, pixel for pixel, where it was
/// placed, and no two of them overlap, provided that no image holds a pixel of
/// the background colour. The images are counted in the order in which they
/// were placed.
pub proof fn lemma_collage_keeps_images_apart(
    rects: Seq<Grid>,
    config: CollageConfig,
    i: nat,
    j: nat,
)
    requires
        all_wf(rects),
        all_solid(rects),
        i < j < rects.len(),
        collage_of(rects, config) is Some,
    ensures
        ({
            let placed = arranged(rects, config.order);
            let fuel = config.max_growth_steps as nat;
            let collage = collage_of(rects, config)->0;
            let (x1, y1) = position_of(placed, i, fuel);
            let (x2, y2) = position_of(placed, j, fuel);
            &&& collage.covers(x1, y1, placed[i as int].width, placed[i as int].height)
            &&& collage.covers(x2, y2, placed[j as int].width, placed[j as int].height)
            &&& forall|x: int, y: int|
                placed[i as int].contains(x, y) ==> collage.at(x1 + x, y1 + y)
                    == #[trigger] placed[i as int].at(x, y)
            &&& forall|x: int, y: int|
                placed[j as int].contains(x, y) ==> collage.at(x2 + x, y2 + y)
                    == #[trigger] placed[j as int].at(x, y)
            &&& !boxes_overlap(
                x1,
                y1,
                placed[i as int].width,
                placed[i as int].height,
                x2,
                y2,
                placed[j as int].width,
                placed[j as int].height,
            )
        }),
{
    let placed = arranged(rects, config.order);
    let fuel = config.max_growth_steps as nat;
    let last = (rects.len() - 1) as nat;
    lemma_arranged_same_images(rects, config.order);
    lemma_canvas_after_wf(placed, last, fuel);
    lemma_placed_image_stays(placed, i, last, fuel);
    lemma_placed_image_stays(placed, j, last, fuel);
    lemma_no_overlap(placed, i, j, fuel);
}

} // verus!
