//! Building a collage: put the images in order, seed the canvas with the
//! first, and place the others one after another.

use crate::canvas::Canvas;
use crate::error::CollageError;
use crate::grid::Grid;
use crate::placement::{place_image, placement};
use vstd::prelude::*;

verus! {

/// By what the images are ordered before they are placed, largest first.
#[derive(Clone, Copy, Debug, PartialEq, Eq, Structural)]
pub enum PlacementOrder {
    /// By width times height.
    Area,
    /// By width alone.
    Width,
}

/// The settings of a collage.
#[derive(Clone, Copy, Debug, PartialEq, Eq, Structural)]
pub struct CollageConfig {
    /// The order in which the images are placed.
    pub order: PlacementOrder,
    /// The width of the white padding put around each image.
    pub border_size: u32,
    /// The width to which each image is scaled before it is padded.
    pub standard_width: u32,
    /// How often the canvas may grow for one image.
    pub max_growth_steps: u32,
}

impl Default for CollageConfig {
    fn default() -> (config: CollageConfig)
        ensures
            config == (CollageConfig {
                order: PlacementOrder::Area,
                border_size: 5,
                standard_width: 500,
                max_growth_steps: 64,
            }),
    {
        CollageConfig {
            order: PlacementOrder::Area,
            border_size: 5,
            standard_width: 500,
            max_growth_steps: 64,
        }
    }
}

/// The models of a sequence of canvases.
pub open spec fn views(canvases: Seq<Canvas>) -> Seq<Grid> {
    Seq::new(canvases.len(), |i: int| canvases[i]@)
}

/// The number by which an image is ordered.
pub open spec fn sort_key(g: Grid, order: PlacementOrder) -> int {
    match order {
        PlacementOrder::Area => g.width * g.height,
        PlacementOrder::Width => g.width,
    }
}

/// The numbers by which the images of a sequence are ordered.
pub open spec fn sort_keys(rects: Seq<Grid>, order: PlacementOrder) -> Seq<int> {
    Seq::new(rects.len(), |i: int| sort_key(rects[i], order))
}

/// Where an item with the given key goes into `order`, a sequence of indices
/// into `keys`: behind every leading entry whose key is not smaller.
pub open spec fn insertion_point(keys: Seq<int>, order: Seq<int>, key: int) -> int
    decreases order.len(),
{
    if order.len() == 0 {
        0
    } else if keys[order[0]] < key {
        0
    } else {
        1 + insertion_point(keys, order.drop_first(), key)
    }
}

/// The indices of `keys`, largest key first; equal keys keep the order in
/// which they stand in `keys`.
pub open spec fn stable_order(keys: Seq<int>) -> Seq<int>
    decreases keys.len(),
{
    if keys.len() == 0 {
        Seq::empty()
    } else {
        let rest = stable_order(keys.drop_last());
        rest.insert(insertion_point(keys, rest, keys.last()), keys.len() - 1)
    }
}

/// The images in the order in which they are placed.
pub open spec fn arranged(rects: Seq<Grid>, order: PlacementOrder) -> Seq<Grid> {
    let indices = stable_order(sort_keys(rects, order));
    Seq::new(rects.len(), |i: int| rects[indices[i]])
}

/// The canvas after the first `k + 1` of `rects` have been placed in the
/// order given: the first is the canvas, each later one is placed on what
/// the ones before it left. `None` once a placement has failed.
pub open spec fn canvas_after(rects: Seq<Grid>, k: nat, fuel: nat) -> Option<Grid>
    decreases k,
{
    if k == 0 {
        Some(rects[0])
    } else {
        match canvas_after(rects, (k - 1) as nat, fuel) {
            Some(canvas) => match placement(canvas, rects[k as int], fuel) {
                Some(p) => Some(p.canvas),
                None => None,
            },
            None => None,
        }
    }
}

/// Where the rectangle `k` of `rects` stands on the canvas: the first at the
/// origin, each later one where its placement put it.
pub open spec fn position_of(rects: Seq<Grid>, k: nat, fuel: nat) -> (int, int) {
    if k == 0 {
        (0, 0)
    } else {
        match canvas_after(rects, (k - 1) as nat, fuel) {
            Some(canvas) => match placement(canvas, rects[k as int], fuel) {
                Some(p) => (p.x, p.y),
                None => (0, 0),
            },
            None => (0, 0),
        }
    }
}

/// The collage of a non-empty sequence of images.
pub open spec fn collage_of(rects: Seq<Grid>, config: CollageConfig) -> Option<Grid> {
    canvas_after(
        arranged(rects, config.order),
        (rects.len() - 1) as nat,
        config.max_growth_steps as nat,
    )
}

/// The insertion point is the length of the longest prefix of `order` whose
/// keys are all at least `key`.
pub proof fn lemma_insertion_point(keys: Seq<int>, order: Seq<int>, key: int, p: int)
    requires
        0 <= p <= order.len(),
        forall|k: int| 0 <= k < p ==> keys[#[trigger] order[k]] >= key,
        p < order.len() ==> keys[order[p]] < key,
    ensures
        insertion_point(keys, order, key) == p,
    decreases order.len(),
{
    if order.len() > 0 && p > 0 {
        lemma_insertion_point(keys, order.drop_first(), key, p - 1);
    }
}

/// Once a placement has failed, every later canvas is missing too.
pub proof fn lemma_failure_is_final(rects: Seq<Grid>, k: nat, m: nat, fuel: nat)
    requires
        k <= m,
        canvas_after(rects, k, fuel) is None,
    ensures
        canvas_after(rects, m, fuel) is None,
    decreases m,
{
    if k < m {
        lemma_failure_is_final(rects, k, (m - 1) as nat, fuel);
    }
}

fn key_of(canvas: &Canvas, order: PlacementOrder) -> (key: u64)
    ensures
        key == sort_key(canvas@, order),
{
    let width: u32 = canvas.width();
    let height: u32 = canvas.height();
    match order {
        PlacementOrder::Area => {
            assert(width * height <= 0xffff_ffff * 0xffff_ffff) by (nonlinear_arith)
                requires
                    width <= 0xffff_ffff,
                    height <= 0xffff_ffff,
            ;
            (width as u64) * (height as u64)
        },
        PlacementOrder::Width => width as u64,
    }
}

/// Puts the images in the order in which they are placed: largest first,
/// equals in the order in which they came.
pub fn arrange(images: &mut Vec<Canvas>, order: PlacementOrder)
    ensures
        final(images)@.len() == old(images)@.len(),
        forall|k: int|
            0 <= k < old(images)@.len() ==> #[trigger] final(images)@[k] == old(images)@[stable_order(
                sort_keys(views(old(images)@), order),
            )[k]],
        views(final(images)@) == arranged(views(old(images)@), order),
{
    let n: usize = images.len();
    let ghost orig = images@;
    let ghost keys = sort_keys(views(orig), order);
    let ghost mut perm: Seq<int> = Seq::empty();
    let mut i: usize = 0;
    while i < n
        invariant
            orig == old(images)@,
            keys == sort_keys(views(orig), order),
            images@.len() == n,
            orig.len() == n,
            i <= n,
            perm.len() == i,
            perm == stable_order(keys.take(i as int)),
            forall|k: int| 0 <= k < i ==> 0 <= #[trigger] perm[k] < i,
            forall|k: int| 0 <= k < i ==> #[trigger] images@[k] == orig[perm[k]],
            forall|k: int| i <= k < n ==> #[trigger] images@[k] == orig[k],
        decreases n - i,
    {
        let key: u64 = key_of(&images[i], order);
        let mut j: usize = 0;
        let mut searching: bool = true;
        while searching && j < i
            invariant
                orig == old(images)@,
                keys == sort_keys(views(orig), order),
                images@.len() == n,
                orig.len() == n,
                i < n,
                j <= i,
                perm.len() == i,
                key == keys[i as int],
                forall|k: int| 0 <= k < i ==> 0 <= #[trigger] perm[k] < i,
                forall|k: int| 0 <= k < i ==> #[trigger] images@[k] == orig[perm[k]],
                forall|k: int| 0 <= k < j ==> keys[#[trigger] perm[k]] >= key,
                !searching ==> j < i && keys[perm[j as int]] < key,
            decreases (if searching { 1int } else { 0int }), i - j,
        {
            let other: u64 = key_of(&images[j], order);
            if other < key {
                searching = false;
            } else {
                j += 1;
            }
        }
        proof {
            let prefix = keys.take(i + 1);
            assert(prefix.drop_last() =~= keys.take(i as int));
            lemma_insertion_point(prefix, perm, key as int, j as int);
        }
        let item = images.remove(i);
        images.insert(j, item);
        proof {
            perm = perm.insert(j as int, i as int);
        }
        i += 1;
    }
    proof {
        assert(keys.take(n as int) =~= keys);
    }
}

/// Builds the collage of `images`: orders them as `config` says, takes the
/// first as the canvas and places each of the others on it in turn.
pub fn create_collage(images: Vec<Canvas>, config: &CollageConfig) -> (result: Result<
    Canvas,
    CollageError,
>)
    ensures
        match result {
            Ok(canvas) => images@.len() > 0 && collage_of(views(images@), *config) == Some(canvas@),
            Err(CollageError::EmptyInput) => images@.len() == 0,
            Err(CollageError::PlacementFailure) => images@.len() > 0 && collage_of(
                views(images@),
                *config,
            ) is None,
        },
{
    let mut queue = images;
    if queue.len() == 0 {
        return Err(CollageError::EmptyInput);
    }
    let ghost given = views(images@);
    arrange(&mut queue, config.order);
    let ghost rects = views(queue@);
    let ghost fuel = config.max_growth_steps as nat;
    let mut canvas = queue.remove(0);
    let rest: usize = queue.len();
    let mut i: usize = 0;
    while i < rest
        invariant
            given == views(images@),
            rects == arranged(given, config.order),
            rects.len() == rest + 1,
            fuel == config.max_growth_steps as nat,
            queue@.len() == rest,
            i <= rest,
            forall|k: int| 0 <= k < rest ==> (#[trigger] queue@[k])@ == rects[k + 1],
            canvas_after(rects, i as nat, fuel) == Some(canvas@),
        decreases rest - i,
    {
        match place_image(canvas, &queue[i], config.max_growth_steps) {
            Ok(next) => {
                canvas = next;
            },
            Err(e) => {
                proof {
                    lemma_failure_is_final(rects, (i + 1) as nat, rest as nat, fuel);
                }
                return Err(e);
            },
        }
        i += 1;
    }
    Ok(canvas)
}

} // verus!
