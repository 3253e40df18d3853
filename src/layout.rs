use vstd::prelude::*;

verus! {

/// Spacing kept between packed rectangles, per axis, in pixels.
#[derive(Debug, Clone, Copy, Default, PartialEq, Eq, Hash, Structural)]
pub struct Padding {
    pub x: u32,
    pub y: u32,
}

impl Padding {
    pub fn new(x: u32, y: u32) -> (r: Padding)
        ensures
            r.x == x,
            r.y == y,
    {
        Padding { x, y }
    }
}

/// A placed rectangle: its top-left corner `min` (inclusive) and its
/// bottom-right corner `max` (exclusive), in pixels.
#[derive(Debug, Clone, Copy, PartialEq, Eq, Hash, Structural)]
pub struct Rect {
    pub min_x: u32,
    pub min_y: u32,
    pub max_x: u32,
    pub max_y: u32,
}

impl Rect {
    pub fn new(min_x: u32, min_y: u32, max_x: u32, max_y: u32) -> (r: Rect)
        ensures
            r == (Rect { min_x, min_y, max_x, max_y }),
    {
        Rect { min_x, min_y, max_x, max_y }
    }
}

/// The rectangle, with the padding kept to its right and below it, fits in
/// a composite of the given size.
pub open spec fn within(r: Rect, width: u32, height: u32, pad: Padding) -> bool {
    &&& r.min_x <= r.max_x
    &&& r.min_y <= r.max_y
    &&& r.max_x + pad.x <= width
    &&& r.max_y + pad.y <= height
}

/// On at least one axis the two rectangles are apart by `pad` pixels or more.
pub open spec fn separated(a: Rect, b: Rect, pad: Padding) -> bool {
    ||| a.max_x + pad.x <= b.min_x
    ||| b.max_x + pad.x <= a.min_x
    ||| a.max_y + pad.y <= b.min_y
    ||| b.max_y + pad.y <= a.min_y
}

/// The two rectangles share no pixel.
pub open spec fn disjoint(a: Rect, b: Rect) -> bool {
    separated(a, b, Padding { x: 0, y: 0 })
}

/// A packing of `rects` into a `width` x `height` composite that keeps the
/// padding between rectangles and towards the far edges.
pub open spec fn layout_ok(rects: Seq<Rect>, width: u32, height: u32, pad: Padding) -> bool {
    &&& width > 0
    &&& height > 0
    &&& forall|i: int| 0 <= i < rects.len() ==> within(#[trigger] rects[i], width, height, pad)
    &&& forall|i: int, j: int|
        0 <= i < rects.len() && 0 <= j < rects.len() && i != j ==> separated(
            #[trigger] rects[i],
            #[trigger] rects[j],
            pad,
        )
}

fn within_exec(r: Rect, width: u32, height: u32, pad: Padding) -> (b: bool)
    ensures
        b == within(r, width, height, pad),
{
    r.min_x <= r.max_x && r.min_y <= r.max_y && (r.max_x as u64) + (pad.x as u64) <= width as u64
        && (r.max_y as u64) + (pad.y as u64) <= height as u64
}

fn separated_exec(a: Rect, b: Rect, pad: Padding) -> (r: bool)
    ensures
        r == separated(a, b, pad),
{
    let (px, py) = (pad.x as u64, pad.y as u64);
    a.max_x as u64 + px <= b.min_x as u64 || b.max_x as u64 + px <= a.min_x as u64
        || a.max_y as u64 + py <= b.min_y as u64 || b.max_y as u64 + py <= a.min_y as u64
}

/// Checks a packing: every rectangle inside the composite with its padding,
/// and every pair of rectangles kept `pad` apart.
pub fn check_layout(rects: &Vec<Rect>, width: u32, height: u32, pad: Padding) -> (r: bool)
    ensures
        r == layout_ok(rects@, width, height, pad),
{
    if width == 0 || height == 0 {
        return false;
    }
    let n = rects.len();
    let mut i: usize = 0;
    while i < n
        invariant
            i <= n,
            n == rects@.len(),
            forall|k: int| 0 <= k < i ==> within(#[trigger] rects@[k], width, height, pad),
            forall|k: int, j: int|
                0 <= k < i && 0 <= j < n && k != j ==> separated(
                    #[trigger] rects@[k],
                    #[trigger] rects@[j],
                    pad,
                ),
        decreases n - i,
    {
        if !within_exec(rects[i], width, height, pad) {
            return false;
        }
        let mut j: usize = 0;
        while j < n
            invariant
                i < n,
                j <= n,
                n == rects@.len(),
                forall|m: int| 0 <= m < j && m != i ==> separated(rects@[i as int], #[trigger] rects@[m], pad),
            decreases n - j,
        {
            if j != i && !separated_exec(rects[i], rects[j], pad) {
                return false;
            }
            j = j + 1;
        }
        i = i + 1;
    }
    true
}

/// A padding-respecting packing places every rectangle fully inside the
/// composite, and no two rectangles share a pixel.
pub proof fn lemma_layout_inside_and_disjoint(rects: Seq<Rect>, width: u32, height: u32, pad: Padding)
    requires
        layout_ok(rects, width, height, pad),
    ensures
        forall|i: int|
            0 <= i < rects.len() ==> (#[trigger] rects[i]).min_x <= rects[i].max_x <= width
                && rects[i].min_y <= rects[i].max_y <= height,
        forall|i: int, j: int|
            0 <= i < rects.len() && 0 <= j < rects.len() && i != j ==> disjoint(
                #[trigger] rects[i],
                #[trigger] rects[j],
            ),
{
    assert forall|i: int| 0 <= i < rects.len() implies (#[trigger] rects[i]).min_x
        <= rects[i].max_x <= width && rects[i].min_y <= rects[i].max_y <= height by {
        assert(within(rects[i], width, height, pad));
    }
    assert forall|i: int, j: int|
        0 <= i < rects.len() && 0 <= j < rects.len() && i != j implies disjoint(
        #[trigger] rects[i],
        #[trigger] rects[j],
    ) by {
        assert(separated(rects[i], rects[j], pad));
    }
}

/// In a padding-respecting packing, any two rectangles are at least the
/// padding apart along some axis, and every rectangle is at least the
/// padding away from the right and bottom edges of the composite.
pub proof fn lemma_layout_keeps_padding(rects: Seq<Rect>, width: u32, height: u32, pad: Padding)
    requires
        layout_ok(rects, width, height, pad),
    ensures
        forall|i: int, j: int|
            0 <= i < rects.len() && 0 <= j < rects.len() && i != j ==> (#[trigger] rects[i]).max_x
                + pad.x <= (#[trigger] rects[j]).min_x || rects[j].max_x + pad.x <= rects[i].min_x
                || rects[i].max_y + pad.y <= rects[j].min_y || rects[j].max_y + pad.y
                <= rects[i].min_y,
        forall|i: int|
            0 <= i < rects.len() ==> width - (#[trigger] rects[i]).max_x >= pad.x && height
                - rects[i].max_y >= pad.y,
{
    assert forall|i: int| 0 <= i < rects.len() implies width - (#[trigger] rects[i]).max_x
        >= pad.x && height - rects[i].max_y >= pad.y by {
        assert(within(rects[i], width, height, pad));
    }
}

} // verus!
