use vstd::prelude::*;
use crate::region::{Region, UDimensions};
use crate::vec::{uvec2, UVec2};

verus! {

/// The depth of a pixel that nothing has been drawn on: any write passes the
/// depth test against it. Depths are order-preserving keys, smaller is nearer.
pub const FAR_DEPTH: u32 = 0xFFFF_FFFF;

/// `p` addresses a pixel of a grid of the given size.
pub open spec fn in_grid(size: UDimensions, p: UVec2) -> bool {
    p.x < size.x && p.y < size.y
}

/// Row-major position of the pixel `p` in a grid of the given size.
pub open spec fn grid_index(size: UDimensions, p: UVec2) -> int {
    p.y * size.x + p.x
}

/// A pixel's color and depth after a depth-tested write of `color` at
/// `depth`: the write is refused when the stored depth is strictly nearer,
/// and wins ties.
pub open spec fn depth_tested<C>(stored: (C, u32), color: C, depth: u32) -> (C, u32) {
    if stored.1 < depth {
        stored
    } else {
        (color, depth)
    }
}

/// A pixel after a sequence of depth-tested writes, applied first to last.
pub open spec fn after_writes<C>(stored: (C, u32), writes: Seq<(C, u32)>) -> (C, u32)
    decreases writes.len(),
{
    if writes.len() == 0 {
        stored
    } else {
        let w = writes.last();
        depth_tested(after_writes(stored, writes.drop_last()), w.0, w.1)
    }
}

/// `last` is what a pixel holds after `writes` from `stored`: the nearest
/// depth seen, its starting depth included, with the color that came with
/// it, either from the start or from an accepted write that no later write
/// matched or beat.
pub open spec fn nearest_kept<C>(stored: (C, u32), writes: Seq<(C, u32)>, last: (C, u32)) -> bool {
    &&& last.1 <= stored.1
    &&& forall|k: int| 0 <= k < writes.len() ==> last.1 <= #[trigger] writes[k].1
    &&& last == stored || exists|k: int|
        0 <= k < writes.len() && last == #[trigger] writes[k] && forall|m: int| k < m < writes.len()
            ==> writes[m].1 > last.1
}

/// After any sequence of depth-tested writes to one pixel, the pixel holds
/// the nearest depth seen, its starting depth included, and its color came
/// with that depth: from the start, or from an accepted write that no later
/// write matched or beat.
pub proof fn lemma_depth_test_keeps_nearest<C>(stored: (C, u32), writes: Seq<(C, u32)>)
    ensures
        after_writes(stored, writes).1 <= stored.1,
        forall|k: int| 0 <= k < writes.len() ==> after_writes(stored, writes).1 <= #[trigger] writes[k].1,
        after_writes(stored, writes) == stored || exists|k: int|
            0 <= k < writes.len() && after_writes(stored, writes) == #[trigger] writes[k]
                && forall|m: int| k < m < writes.len() ==> writes[m].1 > after_writes(stored, writes).1,
    decreases writes.len(),
{
    if writes.len() > 0 {
        let prefix = writes.drop_last();
        lemma_depth_test_keeps_nearest(stored, prefix);
        let before = after_writes(stored, prefix);
        let w = writes.last();
        let r = after_writes(stored, writes);
        assert(forall|k: int| 0 <= k < prefix.len() ==> prefix[k] == writes[k]);
        if before.1 < w.1 {
            assert(r == before);
            if before != stored {
                let k = choose|k: int|
                    0 <= k < prefix.len() && before == #[trigger] prefix[k]
                        && forall|m: int| k < m < prefix.len() ==> prefix[m].1 > before.1;
                assert(writes[k] == before);
                assert(forall|m: int| k < m < writes.len() ==> writes[m].1 > r.1);
            }
        } else {
            assert(r == w);
            assert(writes[writes.len() - 1] == r);
        }
    }
}

/// Distinct pixels of a grid sit at distinct positions.
proof fn lemma_grid_index_injective(size: UDimensions, p: UVec2, q: UVec2)
    requires
        in_grid(size, p),
        in_grid(size, q),
        grid_index(size, p) == grid_index(size, q),
    ensures
        p == q,
{
    let w = size.x as int;
    if p.y < q.y {
        assert(p.y * w + p.x < q.y * w + q.x) by (nonlinear_arith)
            requires
                p.y < q.y,
                0 <= p.x < w,
                0 <= q.x,
        ;
    } else if q.y < p.y {
        assert(q.y * w + q.x < p.y * w + p.x) by (nonlinear_arith)
            requires
                q.y < p.y,
                0 <= q.x < w,
                0 <= p.x,
        ;
    }
}

/// Where a copy of `region` placed at `to_pos` takes the pixel `p` from:
/// `None` for pixels outside the placed copy.
pub open spec fn copy_source(region: Region, to_pos: UVec2, p: UVec2) -> Option<UVec2> {
    if to_pos.x <= p.x < to_pos.x + region.size.x && to_pos.y <= p.y < to_pos.y + region.size.y {
        Some(UVec2 { x: (region.pos.x + (p.x - to_pos.x)) as u32, y: (region.pos.y + (p.y - to_pos.y)) as u32 })
    } else {
        None
    }
}

/// The writes, in order, that go to the pixel `p`.
pub open spec fn writes_to<C>(writes: Seq<(UVec2, C, u32)>, p: UVec2) -> Seq<(C, u32)>
    decreases writes.len(),
{
    if writes.len() == 0 {
        Seq::empty()
    } else {
        let w = writes.last();
        let before = writes_to(writes.drop_last(), p);
        if w.0 == p {
            before.push((w.1, w.2))
        } else {
            before
        }
    }
}

/// Writes to distinct pixels, each nearer than the far depth, drawn over a
/// cleared pixel: the pixel ends with the write aimed at it, or unchanged
/// where no write is. So drawing a triangle's fragments, which name each
/// pixel once, into a cleared band changes exactly the triangle's pixels.
pub proof fn lemma_distinct_writes_land<C>(writes: Seq<(UVec2, C, u32)>, stored: (C, u32), p: UVec2)
    requires
        stored.1 == FAR_DEPTH,
        forall|k: int| 0 <= k < writes.len() ==> (#[trigger] writes[k]).2 < FAR_DEPTH,
        forall|k1: int, k2: int| 0 <= k1 < k2 < writes.len() ==> (#[trigger] writes[k1]).0
            != (#[trigger] writes[k2]).0,
    ensures
        forall|k: int| 0 <= k < writes.len() && (#[trigger] writes[k]).0 == p ==> after_writes(stored,
            writes_to(writes, p)) == (writes[k].1, writes[k].2),
        (forall|k: int| 0 <= k < writes.len() ==> (#[trigger] writes[k]).0 != p) ==> after_writes(stored,
            writes_to(writes, p)) == stored,
    decreases writes.len(),
{
    if writes.len() > 0 {
        let pre = writes.drop_last();
        assert forall|k1: int, k2: int| 0 <= k1 < k2 < pre.len() implies (#[trigger] pre[k1]).0
            != (#[trigger] pre[k2]).0 by {
            assert(pre[k1] == writes[k1] && pre[k2] == writes[k2]);
        }
        assert forall|k: int| 0 <= k < pre.len() implies (#[trigger] pre[k]).2 < FAR_DEPTH by {
            assert(pre[k] == writes[k]);
        }
        lemma_distinct_writes_land(pre, stored, p);
        let last = writes.last();
        let n = writes.len() - 1;
        if last.0 == p {
            assert forall|k: int| 0 <= k < pre.len() implies (#[trigger] pre[k]).0 != p by {
                assert(pre[k] == writes[k]);
                assert(writes[k].0 != writes[n].0);
            }
            assert(writes_to(writes, p) == writes_to(pre, p).push((last.1, last.2)));
            assert(writes_to(writes, p).drop_last() =~= writes_to(pre, p));
            assert forall|k: int| 0 <= k < writes.len() && (#[trigger] writes[k]).0 == p implies k == n by {
                if k < n {
                    assert(writes[k].0 != writes[n].0);
                }
            }
        } else {
            assert(writes_to(writes, p) == writes_to(pre, p));
            assert forall|k: int| 0 <= k < writes.len() && (#[trigger] writes[k]).0 == p implies after_writes(
                stored, writes_to(writes, p)) == (writes[k].1, writes[k].2) by {
                assert(k < n);
                assert(pre[k] == writes[k]);
            }
            if forall|k: int| 0 <= k < writes.len() ==> (#[trigger] writes[k]).0 != p {
                assert forall|k: int| 0 <= k < pre.len() implies (#[trigger] pre[k]).0 != p by {
                    assert(pre[k] == writes[k]);
                }
            }
        }
    }
}

/// The sizes that a buffer accepts: no side is empty, every pixel has `u32`
/// coordinates, and the pixel count fits in `usize`.
pub open spec fn valid_size(size: UDimensions) -> bool {
    1 <= size.x <= 0x1_0000_0000 && 1 <= size.y <= 0x1_0000_0000 && size.x * size.y <= usize::MAX
}

proof fn lemma_index_in_grid(size: UDimensions, p: UVec2)
    requires
        in_grid(size, p),
    ensures
        0 <= grid_index(size, p) < size.x * size.y,
{
    assert(0 <= p.y * size.x + p.x < size.x * size.y) by (nonlinear_arith)
        requires
            p.x < size.x,
            p.y < size.y,
    ;
}

/// A grid of colors with a depth for each pixel, stored row by row.
pub struct RenderBuffer<C> {
    colors: Vec<C>,
    depths: Vec<u32>,
    size: UDimensions,
    background: C,
}

impl<C: Copy> RenderBuffer<C> {
    pub closed spec fn dims(&self) -> UDimensions {
        self.size
    }

    pub closed spec fn colors_view(&self) -> Seq<C> {
        self.colors@
    }

    pub closed spec fn depths_view(&self) -> Seq<u32> {
        self.depths@
    }

    /// The color that clearing writes.
    pub closed spec fn background_color(&self) -> C {
        self.background
    }

    pub open spec fn wf(&self) -> bool {
        valid_size(self.dims())
            && self.colors_view().len() == self.dims().x * self.dims().y
            && self.depths_view().len() == self.dims().x * self.dims().y
    }

    pub open spec fn color_at(&self, p: UVec2) -> C {
        self.colors_view()[grid_index(self.dims(), p)]
    }

    pub open spec fn depth_at(&self, p: UVec2) -> u32 {
        self.depths_view()[grid_index(self.dims(), p)]
    }

    /// Every pixel holds the background color at the far depth.
    pub open spec fn is_cleared(&self) -> bool {
        &&& forall|i: int| 0 <= i < self.colors_view().len() ==> self.colors_view()[i] == self.background_color()
        &&& forall|i: int| 0 <= i < self.depths_view().len() ==> self.depths_view()[i] == FAR_DEPTH
    }

    /// A cleared buffer of the given size, or `None` where the size is not
    /// one that a buffer accepts (a side of zero, above all).
    pub fn new(size: UDimensions, background: C) -> (r: Option<Self>)
        ensures
            r.is_some() == valid_size(size),
            r matches Some(b) ==> b.wf() && b.dims() == size && b.background_color() == background
                && b.is_cleared(),
    {
        if size.x == 0 || size.y == 0 || size.x as u64 > 0x1_0000_0000 || size.y as u64 > 0x1_0000_0000 {
            return None;
        }
        if size.x > usize::MAX / size.y {
            proof {
                assert(size.x * size.y > usize::MAX) by (nonlinear_arith)
                    requires
                        size.x > usize::MAX / size.y,
                        size.y >= 1,
                ;
            }
            return None;
        }
        proof {
            assert(size.x * size.y <= usize::MAX) by (nonlinear_arith)
                requires
                    size.x <= usize::MAX / size.y,
                    size.y >= 1,
            ;
        }
        let len = size.x * size.y;
        let mut colors: Vec<C> = Vec::new();
        let mut depths: Vec<u32> = Vec::new();
        let mut i: usize = 0;
        while i < len
            invariant
                i <= len,
                colors@.len() == i,
                depths@.len() == i,
                forall|j: int| 0 <= j < i ==> colors@[j] == background,
                forall|j: int| 0 <= j < i ==> depths@[j] == FAR_DEPTH,
            decreases len - i,
        {
            colors.push(background);
            depths.push(FAR_DEPTH);
            i += 1;
        }
        Some(RenderBuffer { colors, depths, size, background })
    }

    pub fn coords_exists(&self, coords: UVec2) -> (r: bool)
        ensures
            r == in_grid(self.dims(), coords),
    {
        (coords.x as usize) < self.size.x && (coords.y as usize) < self.size.y
    }

    /// The row-major position of a pixel of the buffer.
    pub fn coords_index(&self, coords: UVec2) -> (r: usize)
        requires
            self.wf(),
            in_grid(self.dims(), coords),
        ensures
            r == grid_index(self.dims(), coords),
            r < self.colors_view().len(),
    {
        proof {
            lemma_index_in_grid(self.size, coords);
        }
        coords.y as usize * self.size.x + coords.x as usize
    }

    /// The pixel at a row-major position.
    pub fn index_coords(&self, index: usize) -> (r: UVec2)
        requires
            self.wf(),
            index < self.colors_view().len(),
        ensures
            in_grid(self.dims(), r),
            grid_index(self.dims(), r) == index,
    {
        let w = self.size.x;
        proof {
            assert(index / w < self.size.y) by (nonlinear_arith)
                requires
                    index < w * self.size.y,
                    w >= 1,
            ;
            assert(index == (index / w) * w + index % w) by (nonlinear_arith)
                requires
                    w >= 1,
            ;
        }
        uvec2((index % w) as u32, (index / w) as u32)
    }

    pub fn size(&self) -> (r: UDimensions)
        ensures
            r == self.dims(),
    {
        self.size
    }

    pub fn width(&self) -> (r: usize)
        ensures
            r == self.dims().x,
    {
        self.size.x
    }

    pub fn height(&self) -> (r: usize)
        ensures
            r == self.dims().y,
    {
        self.size.y
    }

    pub fn background(&self) -> (r: C)
        ensures
            r == self.background_color(),
    {
        self.background
    }

    pub fn pixel_color(&self, coords: UVec2) -> (r: Option<C>)
        requires
            self.wf(),
        ensures
            r == if in_grid(self.dims(), coords) { Some(self.color_at(coords)) } else { None },
    {
        if !self.coords_exists(coords) {
            return None;
        }
        Some(self.colors[self.coords_index(coords)])
    }

    pub fn pixel_depth(&self, coords: UVec2) -> (r: Option<u32>)
        requires
            self.wf(),
        ensures
            r == if in_grid(self.dims(), coords) { Some(self.depth_at(coords)) } else { None },
    {
        if !self.coords_exists(coords) {
            return None;
        }
        Some(self.depths[self.coords_index(coords)])
    }

    /// Writes the pixel whatever its depth; `None` outside the buffer.
    pub fn overwrite_pixel_color(&mut self, coords: UVec2, color: C, depth: u32) -> (r: Option<()>)
        requires
            old(self).wf(),
        ensures
            final(self).wf(),
            final(self).dims() == old(self).dims(),
            final(self).background_color() == old(self).background_color(),
            r.is_some() == in_grid(old(self).dims(), coords),
            r.is_some() ==> final(self).colors_view() == old(self).colors_view().update(
                grid_index(old(self).dims(), coords), color),
            r.is_some() ==> final(self).depths_view() == old(self).depths_view().update(
                grid_index(old(self).dims(), coords), depth),
            r.is_none() ==> *final(self) == *old(self),
    {
        if !self.coords_exists(coords) {
            return None;
        }
        let index = self.coords_index(coords);
        self.colors.set(index, color);
        self.depths.set(index, depth);
        Some(())
    }

    /// A depth-tested write: `Some(false)` where the stored depth is strictly
    /// nearer and nothing changes, `Some(true)` where the pixel now holds
    /// `color` and `depth`, `None` outside the buffer.
    pub fn set_pixel_color(&mut self, coords: UVec2, color: C, depth: u32) -> (r: Option<bool>)
        requires
            old(self).wf(),
        ensures
            final(self).wf(),
            final(self).dims() == old(self).dims(),
            final(self).background_color() == old(self).background_color(),
            r == if in_grid(old(self).dims(), coords) {
                Some(!(old(self).depth_at(coords) < depth))
            } else {
                None
            },
            r != Some(true) ==> *final(self) == *old(self),
            r == Some(true) ==> final(self).colors_view() == old(self).colors_view().update(
                grid_index(old(self).dims(), coords), color),
            r == Some(true) ==> final(self).depths_view() == old(self).depths_view().update(
                grid_index(old(self).dims(), coords), depth),
            in_grid(old(self).dims(), coords) ==> (final(self).color_at(coords), final(self).depth_at(
                coords)) == depth_tested((old(self).color_at(coords), old(self).depth_at(coords)),
                color, depth),
    {
        let current_depth = match self.pixel_depth(coords) {
            Some(d) => d,
            None => return None,
        };
        if current_depth < depth {
            return Some(false);
        }
        proof {
            lemma_index_in_grid(self.size, coords);
        }
        self.overwrite_pixel_color(coords, color, depth);
        Some(true)
    }

    /// Copies the pixels of `from_region` in `from_buffer`, colors and
    /// depths, to the rectangle of the same size at `to_pos`; pixels that
    /// either buffer lacks are left out.
    pub fn copy_region_from_other(&mut self, from_buffer: &RenderBuffer<C>, from_region: Region, to_pos: UVec2)
        requires
            old(self).wf(),
            from_buffer.wf(),
            from_region.within_grid(),
            to_pos.x + from_region.size.x <= 0x1_0000_0000,
            to_pos.y + from_region.size.y <= 0x1_0000_0000,
        ensures
            final(self).wf(),
            final(self).dims() == old(self).dims(),
            final(self).background_color() == old(self).background_color(),
            forall|p: UVec2| #[trigger] in_grid(old(self).dims(), p) ==> {
                let copied = match copy_source(from_region, to_pos, p) {
                    Some(q) => in_grid(from_buffer.dims(), q),
                    None => false,
                };
                &&& final(self).color_at(p) == if copied {
                    from_buffer.color_at(copy_source(from_region, to_pos, p).unwrap())
                } else {
                    old(self).color_at(p)
                }
                &&& final(self).depth_at(p) == if copied {
                    from_buffer.depth_at(copy_source(from_region, to_pos, p).unwrap())
                } else {
                    old(self).depth_at(p)
                }
            },
    {
        let mut y: usize = 0;
        while y < from_region.size.y
            invariant
                self.wf(),
                self.dims() == old(self).dims(),
                self.background_color() == old(self).background_color(),
                from_buffer.wf(),
                from_region.within_grid(),
                to_pos.x + from_region.size.x <= 0x1_0000_0000,
                to_pos.y + from_region.size.y <= 0x1_0000_0000,
                y <= from_region.size.y,
                forall|p: UVec2| #[trigger] in_grid(old(self).dims(), p) ==> {
                    let done = match copy_source(from_region, to_pos, p) {
                        Some(q) => in_grid(from_buffer.dims(), q) && p.y - to_pos.y < y,
                        None => false,
                    };
                    &&& self.color_at(p) == if done {
                        from_buffer.color_at(copy_source(from_region, to_pos, p).unwrap())
                    } else {
                        old(self).color_at(p)
                    }
                    &&& self.depth_at(p) == if done {
                        from_buffer.depth_at(copy_source(from_region, to_pos, p).unwrap())
                    } else {
                        old(self).depth_at(p)
                    }
                },
            decreases from_region.size.y - y,
        {
            let mut x: usize = 0;
            while x < from_region.size.x
                invariant
                    self.wf(),
                    self.dims() == old(self).dims(),
                    self.background_color() == old(self).background_color(),
                    from_buffer.wf(),
                    from_region.within_grid(),
                    to_pos.x + from_region.size.x <= 0x1_0000_0000,
                    to_pos.y + from_region.size.y <= 0x1_0000_0000,
                    y < from_region.size.y,
                    x <= from_region.size.x,
                    forall|p: UVec2| #[trigger] in_grid(old(self).dims(), p) ==> {
                        let done = match copy_source(from_region, to_pos, p) {
                            Some(q) => in_grid(from_buffer.dims(), q) && (p.y - to_pos.y < y || (p.y
                                - to_pos.y == y && p.x - to_pos.x < x)),
                            None => false,
                        };
                        &&& self.color_at(p) == if done {
                            from_buffer.color_at(copy_source(from_region, to_pos, p).unwrap())
                        } else {
                            old(self).color_at(p)
                        }
                        &&& self.depth_at(p) == if done {
                            from_buffer.depth_at(copy_source(from_region, to_pos, p).unwrap())
                        } else {
                            old(self).depth_at(p)
                        }
                    },
                decreases from_region.size.x - x,
            {
                let from = uvec2(from_region.pos.x + x as u32, from_region.pos.y + y as u32);
                let to = uvec2(to_pos.x + x as u32, to_pos.y + y as u32);
                let color = from_buffer.pixel_color(from);
                let depth = from_buffer.pixel_depth(from);
                if let (Some(color), Some(depth)) = (color, depth) {
                    let ghost before = *self;
                    let written = self.overwrite_pixel_color(to, color, depth);
                    proof {
                        if written.is_some() {
                            lemma_index_in_grid(self.dims(), to);
                            assert(copy_source(from_region, to_pos, to) == Some(from));
                            assert forall|p: UVec2| #[trigger] in_grid(old(self).dims(), p) && p != to
                                implies self.color_at(p) == before.color_at(p) && self.depth_at(p)
                                == before.depth_at(p) by {
                                lemma_index_in_grid(self.dims(), p);
                                if grid_index(self.dims(), p) == grid_index(self.dims(), to) {
                                    lemma_grid_index_injective(self.dims(), p, to);
                                }
                            }
                        }
                    }
                }
                x += 1;
            }
            y += 1;
        }
    }

    /// Resets every pixel to the background color at the far depth.
    pub fn clear(&mut self)
        requires
            old(self).wf(),
        ensures
            final(self).wf(),
            final(self).dims() == old(self).dims(),
            final(self).background_color() == old(self).background_color(),
            final(self).is_cleared(),
    {
        let len = self.colors.len();
        let mut i: usize = 0;
        while i < len
            invariant
                self.wf(),
                self.dims() == old(self).dims(),
                self.background_color() == old(self).background_color(),
                len == self.colors_view().len(),
                i <= len,
                forall|j: int| 0 <= j < i ==> self.colors_view()[j] == self.background_color(),
                forall|j: int| 0 <= j < i ==> self.depths_view()[j] == FAR_DEPTH,
            decreases len - i,
        {
            let bg = self.background;
            self.colors.set(i, bg);
            self.depths.set(i, FAR_DEPTH);
            i += 1;
        }
    }

    /// Splits the buffer into horizontal bands of `segment_heights` rows,
    /// from the top down; the last band holds the rows that are left.
    ///
    /// Each band owns its rows, split off the buffer's one backing vector
    /// in order, rather than borrowing a range of it: a verified struct
    /// cannot hold a mutable slice here, and an owned band moves to its
    /// worker thread whole. `from_segments` appends the bands back, in
    /// order, into one vector.
    pub fn separate_into_segments(self, segment_heights: usize) -> (r: Vec<RenderBufferSegment<C>>)
        requires
            self.wf(),
            segment_heights >= 1,
        ensures
            split_of(r@, self, segment_heights as int),
    {
        let w = self.size.x;
        let height = self.size.y;
        let h = segment_heights;
        let count = (height - 1) / h + 1;
        let ghost orig_c = self.colors@;
        let ghost orig_d = self.depths@;
        let ghost total = orig_c.len() as int;
        let RenderBuffer { colors, depths, size, background } = self;
        let mut colors = colors;
        let mut depths = depths;
        let mut segments: Vec<RenderBufferSegment<C>> = Vec::new();
        let mut i: usize = 0;
        proof {
            assert(colors@ =~= orig_c.subrange(0 * h * w, total));
            assert(depths@ =~= orig_d.subrange(0 * h * w, total));
        }
        while i < count
            invariant
                valid_size(size),
                size == self.dims(),
                w == size.x,
                height == size.y,
                h == segment_heights,
                h >= 1,
                count == segment_count(height as int, h as int),
                total == w * height,
                orig_c.len() == total,
                orig_d.len() == total,
                i <= count,
                i < count ==> colors@ == orig_c.subrange(i * h * w, total),
                i < count ==> depths@ == orig_d.subrange(i * h * w, total),
                segments@.len() == i,
                forall|j: int| 0 <= j < i ==> {
                    let s = #[trigger] segments@[j];
                    &&& s.wf()
                    &&& s.band_index() == j
                    &&& s.band_height() == h
                    &&& s.parent_dims() == size
                    &&& s.background_color() == background
                    &&& s.colors_view() == orig_c.subrange(s.top() * w, (s.top() + s.rows()) * w)
                    &&& s.depths_view() == orig_d.subrange(s.top() * w, (s.top() + s.rows()) * w)
                },
            decreases count - i,
        {
            proof {
                lemma_band_bounds(height as int, h as int, i as int);
                assert(i * h * w == (i * h) * w);
                assert(height * w == w * height) by (nonlinear_arith);
                assert((i * h + band_rows(height as int, h as int, i as int)) * w <= height * w)
                    by (nonlinear_arith)
                    requires
                        i * h + band_rows(height as int, h as int, i as int) <= height,
                        w >= 0,
                ;
                assert(0 <= band_rows(height as int, h as int, i as int) * w <= (i * h + band_rows(
                    height as int, h as int, i as int)) * w) by (nonlinear_arith)
                    requires
                        i * h >= 0,
                        band_rows(height as int, h as int, i as int) >= 0,
                        w >= 0,
                ;
                assert((i * h + band_rows(height as int, h as int, i as int)) * w == i * h * w
                    + band_rows(height as int, h as int, i as int) * w) by (nonlinear_arith);
            }
            let top = i * h;
            let own_height = if h <= height - top {
                h
            } else {
                height - top
            };
            assert(own_height == band_rows(height as int, h as int, i as int));
            let slice_len = own_height * w;
            let mut seg_colors = colors;
            colors = seg_colors.split_off(slice_len);
            let mut seg_depths = depths;
            depths = seg_depths.split_off(slice_len);
            let segment = RenderBufferSegment {
                colors: seg_colors,
                depths: seg_depths,
                vertical_index: i,
                own_height,
                segment_heights: h,
                parent_size: size,
                background,
            };
            proof {
                assert(segment.colors_view() =~= orig_c.subrange(segment.top() * w,
                    (segment.top() + segment.rows()) * w));
                assert(segment.depths_view() =~= orig_d.subrange(segment.top() * w,
                    (segment.top() + segment.rows()) * w));
                if i + 1 < count {
                    assert((i + 1) * h * w == i * h * w + h * w) by (nonlinear_arith);
                    assert(colors@ =~= orig_c.subrange((i + 1) * h * w, total));
                    assert(depths@ =~= orig_d.subrange((i + 1) * h * w, total));
                }
            }
            segments.push(segment);
            i += 1;
        }
        segments
    }

    /// Stitches the bands of a split back into one buffer; `None` where the
    /// bands are not, in order, all the bands of one split of one buffer.
    pub fn from_segments(segments: Vec<RenderBufferSegment<C>>) -> (r: Option<Self>)
        ensures
            r.is_some() == is_full_split(segments@),
            r matches Some(b) ==> {
                &&& b.wf()
                &&& b.dims() == segments@[0].parent_dims()
                &&& b.background_color() == segments@[0].background_color()
                &&& b.colors_view() == joined_colors(segments@)
                &&& b.depths_view() == joined_depths(segments@)
            },
    {
        let n = segments.len();
        if n == 0 {
            return None;
        }
        let size = segments[0].parent_size;
        let h = segments[0].segment_heights;
        let background = segments[0].background;
        if size.x == 0 || size.y == 0 || size.x as u64 > 0x1_0000_0000 || size.y as u64 > 0x1_0000_0000
            || size.x > usize::MAX / size.y || h == 0 {
            proof {
                if size.y >= 1 && size.x > usize::MAX / size.y {
                    assert(size.x * size.y > usize::MAX) by (nonlinear_arith)
                        requires
                            size.x > usize::MAX / size.y,
                            size.y >= 1,
                    ;
                }
            }
            return None;
        }
        proof {
            assert(size.x * size.y <= usize::MAX) by (nonlinear_arith)
                requires
                    size.x <= usize::MAX / size.y,
                    size.y >= 1,
            ;
        }
        let count = (size.y - 1) / h + 1;
        if n != count {
            return None;
        }
        let mut i: usize = 0;
        while i < n
            invariant
                n == segments@.len(),
                n == count,
                count == segment_count(size.y as int, h as int),
                valid_size(size),
                h >= 1,
                size == segments@[0].parent_dims(),
                h == segments@[0].band_height(),
                i <= n,
                forall|j: int| 0 <= j < i ==> split_member(#[trigger] segments@[j], j, size, h as int),
            decreases n - i,
        {
            let seg = &segments[i];
            proof {
                lemma_band_bounds(size.y as int, h as int, i as int);
            }
            let top = i * h;
            let rows = if h <= size.y - top {
                h
            } else {
                size.y - top
            };
            proof {
                assert(rows == band_rows(size.y as int, h as int, i as int));
                assert(rows * size.x <= size.y * size.x) by (nonlinear_arith)
                    requires
                        rows <= size.y,
                ;
                assert(size.y * size.x == size.x * size.y) by (nonlinear_arith);
            }
            if seg.vertical_index != i || seg.segment_heights != h || seg.parent_size != size
                || seg.own_height != rows || seg.colors.len() != rows * size.x
                || seg.depths.len() != rows * size.x {
                proof {
                    assert(!split_member(segments@[i as int], i as int, size, h as int));
                }
                return None;
            }
            i += 1;
        }
        proof {
            assert(is_full_split(segments@));
        }
        let ghost orig = segments@;
        let mut rest = segments;
        let mut colors: Vec<C> = Vec::new();
        let mut depths: Vec<u32> = Vec::new();
        let mut k: usize = 0;
        while k < n
            invariant
                n == orig.len(),
                k <= n,
                rest@ == orig.subrange(k as int, n as int),
                colors@ == joined_colors(orig.subrange(0, k as int)),
                depths@ == joined_depths(orig.subrange(0, k as int)),
            decreases n - k,
        {
            let mut seg = rest.remove(0);
            proof {
                assert(seg == orig[k as int]);
                let next = orig.subrange(0, k + 1);
                assert(next.drop_last() =~= orig.subrange(0, k as int));
                assert(next.last() == seg);
            }
            colors.append(&mut seg.colors);
            depths.append(&mut seg.depths);
            proof {
                assert(rest@ =~= orig.subrange(k + 1, n as int));
            }
            k += 1;
        }
        proof {
            assert(orig.subrange(0, n as int) =~= orig);
            lemma_joined_len(orig, size, h as int);
        }
        Some(RenderBuffer { colors, depths, size, background })
    }

    /// The colors, row by row.
    pub fn colors(&self) -> (r: &Vec<C>)
        ensures
            r@ == self.colors_view(),
    {
        &self.colors
    }

    /// The depths, row by row.
    pub fn depths(&self) -> (r: &Vec<u32>)
        ensures
            r@ == self.depths_view(),
    {
        &self.depths
    }
}


/// How many bands of `h` rows a grid of `height` rows splits into; the last
/// band may be shorter.
pub open spec fn segment_count(height: int, h: int) -> int {
    (height - 1) / h + 1
}

/// Where band `i` starts and how far it reaches.
pub proof fn lemma_band_bounds(height: int, h: int, i: int)
    requires
        height >= 1,
        h >= 1,
        0 <= i < segment_count(height, h),
    ensures
        0 <= i * h < height,
        1 <= band_rows(height, h, i) <= h,
        i * h + band_rows(height, h, i) <= height,
        i + 1 < segment_count(height, h) ==> band_rows(height, h, i) == h,
        i + 1 == segment_count(height, h) ==> i * h + band_rows(height, h, i) == height,
{
    let q = (height - 1) / h;
    vstd::arithmetic::div_mod::lemma_fundamental_div_mod(height - 1, h);
    assert(0 <= (height - 1) % h < h);
    assert(0 <= i * h <= q * h) by (nonlinear_arith)
        requires
            0 <= i <= q,
            h >= 1,
    ;
    assert(h * q == q * h) by (nonlinear_arith);
    assert((i + 1) * h == i * h + h) by (nonlinear_arith);
    if i + 1 < segment_count(height, h) {
        assert((i + 1) * h <= q * h) by (nonlinear_arith)
            requires
                i + 1 <= q,
                h >= 1,
        ;
    } else {
        assert(i == q);
    }
}

/// The number of rows of band `i`.
pub open spec fn band_rows(height: int, h: int, i: int) -> int {
    if (i + 1) * h <= height {
        h
    } else {
        height - i * h
    }
}

/// Band `i` of height `h` holds the pixel `p` of a grid of the given size.
pub open spec fn band_contains(size: UDimensions, h: int, i: int, p: UVec2) -> bool {
    p.x < size.x && i * h <= p.y < i * h + band_rows(size.y as int, h, i)
}

/// The bands of any split cover each pixel of the buffer exactly once, and
/// nothing outside it.
pub proof fn lemma_segments_partition(size: UDimensions, h: int, p: UVec2)
    requires
        valid_size(size),
        h >= 1,
    ensures
        in_grid(size, p) <==> exists|i: int|
            0 <= i < segment_count(size.y as int, h) && #[trigger] band_contains(size, h, i, p),
        forall|i: int, j: int|
            0 <= i < segment_count(size.y as int, h) && 0 <= j < segment_count(size.y as int, h)
                && #[trigger] band_contains(size, h, i, p) && #[trigger] band_contains(size, h, j, p)
                ==> i == j,
{
    let height = size.y as int;
    assert forall|i: int| 0 <= i < segment_count(height, h) && #[trigger] band_contains(size, h, i, p)
        implies in_grid(size, p) && i == (p.y as int) / h by {
        lemma_band_bounds(height, h, i);
        vstd::arithmetic::div_mod::lemma_fundamental_div_mod_converse_div(p.y as int, h, i,
            p.y - i * h);
    }
    if in_grid(size, p) {
        let y = p.y as int;
        let i = y / h;
        vstd::arithmetic::div_mod::lemma_fundamental_div_mod(p.y as int, h);
        vstd::arithmetic::div_mod::lemma_fundamental_div_mod(height - 1, h);
        assert(0 <= y % h < h);
        assert(h * i == i * h) by (nonlinear_arith);
        assert(0 <= i <= (height - 1) / h) by (nonlinear_arith)
            requires
                h >= 1,
                y <= height - 1,
                0 <= y,
                i == y / h,
        {
            vstd::arithmetic::div_mod::lemma_div_is_ordered(y, height - 1, h);
        }
        lemma_band_bounds(height, h, i);
        assert((i + 1) * h == i * h + h) by (nonlinear_arith);
        assert(band_contains(size, h, i, p));
    }
}

/// The band height that splits `height` rows among at most `thread_count`
/// workers, as evenly as whole bands allow: the height divided by the
/// thread count, rounded up.
pub fn segment_heights(height: usize, thread_count: usize) -> (r: usize)
    requires
        height >= 1,
        thread_count >= 1,
    ensures
        r >= 1,
        r as int == (height - 1) / (thread_count as int) + 1,
        segment_count(height as int, r as int) <= thread_count,
{
    let r = (height - 1) / thread_count + 1;
    proof {
        let q = (height - 1) / (thread_count as int);
        vstd::arithmetic::div_mod::lemma_fundamental_div_mod(height - 1, thread_count as int);
        assert(0 <= (height - 1) % (thread_count as int) < thread_count);
        assert(thread_count * q == q * thread_count) by (nonlinear_arith);
        assert(height - 1 < thread_count * (r as int)) by (nonlinear_arith)
            requires
                height - 1 == q * thread_count + (height - 1) % (thread_count as int),
                (height - 1) % (thread_count as int) < thread_count,
                r == q + 1,
        ;
        assert((height - 1) / (r as int) < thread_count) by (nonlinear_arith)
            requires
                height - 1 < thread_count * r,
                r >= 1,
                height >= 1,
        {
            vstd::arithmetic::div_mod::lemma_fundamental_div_mod(height - 1, r as int);
            assert(0 <= (height - 1) % (r as int));
            let d = (height - 1) / (r as int);
            if d >= thread_count {
                assert(r * d >= r * thread_count) by (nonlinear_arith)
                    requires
                        d >= thread_count,
                        r >= 1,
                ;
            }
        }
    }
    r
}

/// `segs` are the bands of `b` split every `h` rows: band `i` is told its
/// place and holds the colors and depths of its rows.
pub open spec fn split_of<C: Copy>(segs: Seq<RenderBufferSegment<C>>, b: RenderBuffer<C>, h: int) -> bool {
    &&& segs.len() == segment_count(b.dims().y as int, h)
    &&& forall|i: int| 0 <= i < segs.len() ==> {
        let s = #[trigger] segs[i];
        &&& s.wf()
        &&& s.band_index() == i
        &&& s.band_height() == h
        &&& s.parent_dims() == b.dims()
        &&& s.background_color() == b.background_color()
        &&& s.colors_view() == b.colors_view().subrange(s.top() * b.dims().x, (s.top() + s.rows())
            * b.dims().x)
        &&& s.depths_view() == b.depths_view().subrange(s.top() * b.dims().x, (s.top() + s.rows())
            * b.dims().x)
    }
}

/// Splitting a buffer into bands and stitching the bands back together
/// gives the buffer back: its size, background, colors and depths.
pub proof fn lemma_split_then_join<C: Copy>(b: RenderBuffer<C>, h: int, segs: Seq<RenderBufferSegment<C>>)
    requires
        b.wf(),
        h >= 1,
        split_of(segs, b, h),
    ensures
        is_full_split(segs),
        segs[0].parent_dims() == b.dims(),
        segs[0].background_color() == b.background_color(),
        joined_colors(segs) == b.colors_view(),
        joined_depths(segs) == b.depths_view(),
{
    let n = segs.len() as int;
    let size = b.dims();
    lemma_band_bounds(size.y as int, h, 0);
    assert(segs[0].band_height() == h);
    assert forall|i: int| 0 <= i < n implies split_member(#[trigger] segs[i], i, segs[0].parent_dims(),
        segs[0].band_height()) by {}
    lemma_split_prefix(b, h, segs, n);
    lemma_band_bounds(size.y as int, h, n - 1);
    assert(segs.subrange(0, n) =~= segs);
    assert(((n - 1) * h + band_rows(size.y as int, h, n - 1)) * size.x == size.x * size.y)
        by (nonlinear_arith)
        requires
            (n - 1) * h + band_rows(size.y as int, h, n - 1) == size.y,
    ;
    assert(b.colors_view().subrange(0, size.x * size.y) =~= b.colors_view());
    assert(b.depths_view().subrange(0, size.x * size.y) =~= b.depths_view());
}

proof fn lemma_split_prefix<C: Copy>(b: RenderBuffer<C>, h: int, segs: Seq<RenderBufferSegment<C>>, k: int)
    requires
        b.wf(),
        h >= 1,
        split_of(segs, b, h),
        1 <= k <= segs.len(),
    ensures
        joined_colors(segs.subrange(0, k)) == b.colors_view().subrange(0, ((k - 1) * h + band_rows(
            b.dims().y as int, h, k - 1)) * b.dims().x),
        joined_depths(segs.subrange(0, k)) == b.depths_view().subrange(0, ((k - 1) * h + band_rows(
            b.dims().y as int, h, k - 1)) * b.dims().x),
    decreases k,
{
    let size = b.dims();
    let w = size.x as int;
    let pre = segs.subrange(0, k);
    let s = segs[k - 1];
    assert(pre.drop_last() =~= segs.subrange(0, k - 1));
    assert(pre.last() == s);
    lemma_band_bounds(size.y as int, h, k - 1);
    let end = ((k - 1) * h + band_rows(size.y as int, h, k - 1)) * w;
    assert(s.top() == (k - 1) * h);
    assert(0 <= (k - 1) * h * w <= end <= size.y * w) by (nonlinear_arith)
        requires
            0 <= (k - 1) * h,
            (k - 1) * h + band_rows(size.y as int, h, k - 1) <= size.y,
            band_rows(size.y as int, h, k - 1) >= 1,
            w >= 1,
            end == ((k - 1) * h + band_rows(size.y as int, h, k - 1)) * w,
    ;
    assert(size.y * w == w * size.y) by (nonlinear_arith);
    if k == 1 {
        assert(segs.subrange(0, 0) =~= Seq::<RenderBufferSegment<C>>::empty());
        assert(0 * h * w == 0);
        assert(joined_colors(pre) =~= b.colors_view().subrange(0, end));
        assert(joined_depths(pre) =~= b.depths_view().subrange(0, end));
    } else {
        lemma_split_prefix(b, h, segs, k - 1);
        lemma_band_bounds(size.y as int, h, k - 2);
        assert(((k - 2) * h + band_rows(size.y as int, h, k - 2)) * w == (k - 1) * h * w)
            by (nonlinear_arith)
            requires
                band_rows(size.y as int, h, k - 2) == h,
        ;
        assert(joined_colors(pre) == joined_colors(segs.subrange(0, k - 1)) + s.colors_view());
        assert(joined_depths(pre) == joined_depths(segs.subrange(0, k - 1)) + s.depths_view());
        assert(s.rows() == band_rows(size.y as int, h, k - 1));
        assert((s.top() + s.rows()) * w == end);
        assert(s.top() * w == (k - 1) * h * w);
        assert(joined_colors(pre) =~= b.colors_view().subrange(0, end));
        assert(joined_depths(pre) =~= b.depths_view().subrange(0, end));
    }
}

/// The bands that splitting a buffer gives cover each of its pixels exactly
/// once, and hold no pixel outside it.
pub proof fn lemma_split_covers_each_pixel_once<C: Copy>(
    b: RenderBuffer<C>,
    h: int,
    segs: Seq<RenderBufferSegment<C>>,
    p: UVec2,
)
    requires
        b.wf(),
        h >= 1,
        split_of(segs, b, h),
    ensures
        in_grid(b.dims(), p) <==> exists|i: int| 0 <= i < segs.len() && (#[trigger] segs[i]).holds(p),
        forall|i: int, j: int|
            0 <= i < segs.len() && 0 <= j < segs.len() && (#[trigger] segs[i]).holds(p)
                && (#[trigger] segs[j]).holds(p) ==> i == j,
{
    lemma_segments_partition(b.dims(), h, p);
    assert forall|i: int| 0 <= i < segs.len() implies (#[trigger] segs[i]).holds(p) == band_contains(
        b.dims(), h, i, p) by {}
    if in_grid(b.dims(), p) {
        let i = choose|i: int| 0 <= i < segment_count(b.dims().y as int, h) && #[trigger] band_contains(
            b.dims(), h, i, p);
        assert(segs[i].holds(p));
    }
}

/// `s` is band `i` of the split of a buffer of the given size into bands of
/// `h` rows.
pub open spec fn split_member<C: Copy>(s: RenderBufferSegment<C>, i: int, size: UDimensions, h: int) -> bool {
    &&& s.wf()
    &&& s.band_index() == i
    &&& s.band_height() == h
    &&& s.parent_dims() == size
}

/// The bands are, in order, all the bands of one split of one buffer.
pub open spec fn is_full_split<C: Copy>(segs: Seq<RenderBufferSegment<C>>) -> bool {
    &&& segs.len() > 0
    &&& segs.len() == segment_count(segs[0].parent_dims().y as int, segs[0].band_height())
    &&& forall|i: int| 0 <= i < segs.len() ==> split_member(#[trigger] segs[i], i,
        segs[0].parent_dims(), segs[0].band_height())
}

/// The colors of the bands, one band after the other.
pub open spec fn joined_colors<C: Copy>(segs: Seq<RenderBufferSegment<C>>) -> Seq<C>
    decreases segs.len(),
{
    if segs.len() == 0 {
        Seq::empty()
    } else {
        joined_colors(segs.drop_last()) + segs.last().colors_view()
    }
}

/// The depths of the bands, one band after the other.
pub open spec fn joined_depths<C: Copy>(segs: Seq<RenderBufferSegment<C>>) -> Seq<u32>
    decreases segs.len(),
{
    if segs.len() == 0 {
        Seq::empty()
    } else {
        joined_depths(segs.drop_last()) + segs.last().depths_view()
    }
}

/// The bands of a full split hold, together, exactly the buffer's pixels.
proof fn lemma_joined_len<C: Copy>(segs: Seq<RenderBufferSegment<C>>, size: UDimensions, h: int)
    requires
        segs.len() == segment_count(size.y as int, h),
        valid_size(size),
        h >= 1,
        forall|i: int| 0 <= i < segs.len() ==> split_member(#[trigger] segs[i], i, size, h),
    ensures
        joined_colors(segs).len() == size.x * size.y,
        joined_depths(segs).len() == size.x * size.y,
{
    lemma_joined_prefix_len(segs, size, h, segs.len() as int);
    let last = segs.len() - 1;
    lemma_band_bounds(size.y as int, h, last);
    assert(segs.subrange(0, segs.len() as int) =~= segs);
    assert((last * h + band_rows(size.y as int, h, last)) * size.x == size.x * size.y)
        by (nonlinear_arith)
        requires
            last * h + band_rows(size.y as int, h, last) == size.y,
    ;
}

proof fn lemma_joined_prefix_len<C: Copy>(
    segs: Seq<RenderBufferSegment<C>>,
    size: UDimensions,
    h: int,
    k: int,
)
    requires
        segs.len() == segment_count(size.y as int, h),
        valid_size(size),
        h >= 1,
        1 <= k <= segs.len(),
        forall|i: int| 0 <= i < segs.len() ==> split_member(#[trigger] segs[i], i, size, h),
    ensures
        joined_colors(segs.subrange(0, k)).len() == ((k - 1) * h + band_rows(size.y as int, h, k
            - 1)) * size.x,
        joined_depths(segs.subrange(0, k)).len() == ((k - 1) * h + band_rows(size.y as int, h, k
            - 1)) * size.x,
    decreases k,
{
    let pre = segs.subrange(0, k);
    assert(pre.drop_last() =~= segs.subrange(0, k - 1));
    assert(pre.last() == segs[k - 1]);
    assert(split_member(segs[k - 1], k - 1, size, h));
    assert(joined_colors(pre) == joined_colors(segs.subrange(0, k - 1)) + segs[k - 1].colors_view());
    assert(joined_depths(pre) == joined_depths(segs.subrange(0, k - 1)) + segs[k - 1].depths_view());
    lemma_band_bounds(size.y as int, h, k - 1);
    if k == 1 {
        assert(segs.subrange(0, 0) =~= Seq::<RenderBufferSegment<C>>::empty());
        assert(0 * h == 0);
        assert(joined_colors(segs.subrange(0, 0)).len() == 0);
        assert(joined_depths(segs.subrange(0, 0)).len() == 0);
    } else {
        lemma_joined_prefix_len(segs, size, h, k - 1);
        lemma_band_bounds(size.y as int, h, k - 2);
        assert(band_rows(size.y as int, h, k - 2) == h);
        assert(((k - 2) * h + h) * size.x + band_rows(size.y as int, h, k - 1) * size.x == ((k - 1)
            * h + band_rows(size.y as int, h, k - 1)) * size.x) by (nonlinear_arith);
    }
}

/// A horizontal band of a frame buffer, owning its rows of pixels, so that
/// the bands of one buffer can be drawn on independently.
pub struct RenderBufferSegment<C> {
    colors: Vec<C>,
    depths: Vec<u32>,
    vertical_index: usize,
    own_height: usize,
    segment_heights: usize,
    parent_size: UDimensions,
    background: C,
}

impl<C: Copy> RenderBufferSegment<C> {
    pub closed spec fn colors_view(&self) -> Seq<C> {
        self.colors@
    }

    pub closed spec fn depths_view(&self) -> Seq<u32> {
        self.depths@
    }

    /// Which band of the parent buffer this is, counted from the top.
    pub closed spec fn band_index(&self) -> int {
        self.vertical_index as int
    }

    /// The rows that this band holds.
    pub closed spec fn rows(&self) -> int {
        self.own_height as int
    }

    /// The rows of every band but perhaps the last.
    pub closed spec fn band_height(&self) -> int {
        self.segment_heights as int
    }

    pub closed spec fn parent_dims(&self) -> UDimensions {
        self.parent_size
    }

    pub closed spec fn background_color(&self) -> C {
        self.background
    }

    /// The first row of the parent buffer that this band holds.
    pub open spec fn top(&self) -> int {
        self.band_index() * self.band_height()
    }

    pub open spec fn wf(&self) -> bool {
        &&& valid_size(self.parent_dims())
        &&& self.band_height() >= 1
        &&& 0 <= self.band_index() < segment_count(self.parent_dims().y as int, self.band_height())
        &&& self.rows() == band_rows(self.parent_dims().y as int, self.band_height(), self.band_index())
        &&& self.colors_view().len() == self.rows() * self.parent_dims().x
        &&& self.depths_view().len() == self.rows() * self.parent_dims().x
    }

    /// The pixel `p` of the parent buffer lies in this band.
    pub open spec fn holds(&self, p: UVec2) -> bool {
        band_contains(self.parent_dims(), self.band_height(), self.band_index(), p)
    }

    /// Where the pixel `p` of the parent buffer sits in this band's storage.
    pub open spec fn local_index(&self, p: UVec2) -> int {
        (p.y - self.top()) * self.parent_dims().x + p.x
    }

    pub open spec fn color_at(&self, p: UVec2) -> C {
        self.colors_view()[self.local_index(p)]
    }

    pub open spec fn depth_at(&self, p: UVec2) -> u32 {
        self.depths_view()[self.local_index(p)]
    }

    proof fn lemma_bounds(&self)
        requires
            self.wf(),
        ensures
            self.top() + self.rows() <= self.parent_dims().y,
            1 <= self.rows() <= self.band_height(),
            self.top() >= 0,
    {
        lemma_band_bounds(self.parent_dims().y as int, self.band_height(), self.band_index());
    }

    proof fn lemma_local_index(&self, p: UVec2)
        requires
            self.wf(),
            self.holds(p),
        ensures
            0 <= self.local_index(p) < self.colors_view().len(),
    {
        self.lemma_bounds();
        let w = self.parent_dims().x as int;
        let dy = p.y - self.top();
        assert(0 <= dy * w + p.x < self.rows() * w) by (nonlinear_arith)
            requires
                0 <= dy < self.rows(),
                0 <= p.x < w,
        ;
    }

    /// The band's top left pixel in the parent buffer.
    pub fn position(&self) -> (r: UVec2)
        requires
            self.wf(),
        ensures
            r.x == 0,
            r.y == self.top(),
    {
        proof {
            self.lemma_bounds();
            assert(self.top() <= 0x1_0000_0000);
        }
        let y = self.vertical_index * self.segment_heights;
        uvec2(0, y as u32)
    }

    /// The band's own width and height.
    pub fn size(&self) -> (r: UDimensions)
        ensures
            r.x == self.parent_dims().x,
            r.y == self.rows(),
    {
        UDimensions { x: self.parent_size.x, y: self.own_height }
    }

    pub fn parent_size(&self) -> (r: UDimensions)
        ensures
            r == self.parent_dims(),
    {
        self.parent_size
    }

    /// The pixels of the parent buffer that this band holds.
    pub fn region(&self) -> (r: Region)
        requires
            self.wf(),
        ensures
            r.pos.x == 0,
            r.pos.y == self.top(),
            r.size.x == self.parent_dims().x,
            r.size.y == self.rows(),
            r.within_grid(),
            forall|p: UVec2| r.contains(p) == self.holds(p),
    {
        proof {
            self.lemma_bounds();
        }
        Region { pos: self.position(), size: self.size() }
    }

    pub fn coords_inside(&self, coords: UVec2) -> (r: bool)
        requires
            self.wf(),
        ensures
            r == self.holds(coords),
    {
        self.region().includes_point(coords)
    }

    fn coords_index(&self, coords: UVec2) -> (r: Option<usize>)
        requires
            self.wf(),
        ensures
            r.is_some() == self.holds(coords),
            r matches Some(i) ==> i == self.local_index(coords) && i < self.colors_view().len(),
    {
        if !self.coords_inside(coords) {
            return None;
        }
        let n = self.colors.len();
        let pos = self.position();
        let dy = (coords.y - pos.y) as usize;
        proof {
            self.lemma_local_index(coords);
            self.lemma_bounds();
            assert(dy * self.parent_dims().x >= 0) by (nonlinear_arith)
                requires
                    dy >= 0,
            ;
            assert(dy * self.parent_dims().x + coords.x == self.local_index(coords));
        }
        Some(dy * self.parent_size.x + coords.x as usize)
    }

    pub fn pixel_color(&self, coords: UVec2) -> (r: Option<C>)
        requires
            self.wf(),
        ensures
            r == if self.holds(coords) { Some(self.color_at(coords)) } else { None },
    {
        match self.coords_index(coords) {
            Some(index) => Some(self.colors[index]),
            None => None,
        }
    }

    pub fn pixel_depth(&self, coords: UVec2) -> (r: Option<u32>)
        requires
            self.wf(),
        ensures
            r == if self.holds(coords) { Some(self.depth_at(coords)) } else { None },
    {
        match self.coords_index(coords) {
            Some(index) => Some(self.depths[index]),
            None => None,
        }
    }

    /// Writes the pixel whatever its depth; `None` outside the band.
    pub fn overwrite_pixel(&mut self, coords: UVec2, color: C, depth: u32) -> (r: Option<()>)
        requires
            old(self).wf(),
        ensures
            final(self).wf(),
            final(self).same_band(*old(self)),
            r.is_some() == old(self).holds(coords),
            r.is_some() ==> final(self).colors_view() == old(self).colors_view().update(
                old(self).local_index(coords), color),
            r.is_some() ==> final(self).depths_view() == old(self).depths_view().update(
                old(self).local_index(coords), depth),
            r.is_none() ==> *final(self) == *old(self),
    {
        match self.coords_index(coords) {
            Some(index) => {
                self.colors.set(index, color);
                self.depths.set(index, depth);
                Some(())
            },
            None => None,
        }
    }

    /// A depth-tested write, as `RenderBuffer::set_pixel_color` does it, on
    /// the pixels of this band.
    pub fn set_pixel(&mut self, coords: UVec2, color: C, depth: u32) -> (r: Option<bool>)
        requires
            old(self).wf(),
        ensures
            final(self).wf(),
            final(self).same_band(*old(self)),
            r == if old(self).holds(coords) {
                Some(!(old(self).depth_at(coords) < depth))
            } else {
                None
            },
            r != Some(true) ==> *final(self) == *old(self),
            r == Some(true) ==> final(self).colors_view() == old(self).colors_view().update(
                old(self).local_index(coords), color),
            r == Some(true) ==> final(self).depths_view() == old(self).depths_view().update(
                old(self).local_index(coords), depth),
            old(self).holds(coords) ==> (final(self).color_at(coords), final(self).depth_at(coords))
                == depth_tested((old(self).color_at(coords), old(self).depth_at(coords)), color, depth),
    {
        let current_depth = match self.pixel_depth(coords) {
            Some(d) => d,
            None => return None,
        };
        if current_depth < depth {
            return Some(false);
        }
        proof {
            self.lemma_local_index(coords);
        }
        self.overwrite_pixel(coords, color, depth);
        Some(true)
    }

    /// Depth-tested writes of each `(pixel, color, depth)` in turn; writes
    /// to pixels outside the band are ignored. Each pixel of the band ends as
    /// the depth test leaves it after the writes to it, in their order.
    pub fn set_pixels(&mut self, writes: &[(UVec2, C, u32)])
        requires
            old(self).wf(),
        ensures
            final(self).wf(),
            final(self).same_band(*old(self)),
            forall|p: UVec2| #[trigger] old(self).holds(p) ==> (final(self).color_at(p), final(
                self).depth_at(p)) == after_writes((old(self).color_at(p), old(self).depth_at(p)),
                writes_to(writes@, p)),
            forall|p: UVec2| #[trigger] old(self).holds(p) ==> nearest_kept(
                (old(self).color_at(p), old(self).depth_at(p)), writes_to(writes@, p),
                (final(self).color_at(p), final(self).depth_at(p))),
    {
        let mut i: usize = 0;
        while i < writes.len()
            invariant
                self.wf(),
                self.same_band(*old(self)),
                i <= writes@.len(),
                forall|p: UVec2| #[trigger] old(self).holds(p) ==> (self.color_at(p), self.depth_at(p))
                    == after_writes((old(self).color_at(p), old(self).depth_at(p)), writes_to(
                    writes@.subrange(0, i as int), p)),
            decreases writes@.len() - i,
        {
            let (pixel, color, depth) = writes[i];
            let ghost before = *self;
            self.set_pixel(pixel, color, depth);
            proof {
                let pre = writes@.subrange(0, i as int);
                let next = writes@.subrange(0, i + 1);
                assert(next.drop_last() =~= pre);
                assert(next.last() == (pixel, color, depth));
                assert forall|p: UVec2| #[trigger] old(self).holds(p) implies (self.color_at(p),
                    self.depth_at(p)) == after_writes((old(self).color_at(p), old(self).depth_at(p)),
                    writes_to(next, p)) by {
                    assert(before.holds(p));
                    if p == pixel {
                        assert(writes_to(next, p) == writes_to(pre, p).push((color, depth)));
                        assert(writes_to(next, p).drop_last() =~= writes_to(pre, p));
                    } else {
                        assert(writes_to(next, p) == writes_to(pre, p));
                        before.lemma_local_index(p);
                        if before.holds(pixel) {
                            before.lemma_local_index(pixel);
                            if before.local_index(p) == before.local_index(pixel) {
                                before.lemma_local_index_injective(p, pixel);
                            }
                        }
                    }
                }
            }
            i += 1;
        }
        proof {
            assert(writes@.subrange(0, writes@.len() as int) =~= writes@);
            assert forall|p: UVec2| #[trigger] old(self).holds(p) implies nearest_kept(
                (old(self).color_at(p), old(self).depth_at(p)), writes_to(writes@, p), (
                self.color_at(p), self.depth_at(p))) by {
                lemma_depth_test_keeps_nearest((old(self).color_at(p), old(self).depth_at(p)),
                    writes_to(writes@, p));
            }
        }
    }

    proof fn lemma_local_index_injective(&self, p: UVec2, q: UVec2)
        requires
            self.wf(),
            self.holds(p),
            self.holds(q),
            self.local_index(p) == self.local_index(q),
        ensures
            p == q,
    {
        let w = self.parent_dims().x as int;
        let (a, b) = (p.y - self.top(), q.y - self.top());
        if a < b {
            assert(a * w + p.x < b * w + q.x) by (nonlinear_arith)
                requires
                    a < b,
                    0 <= p.x < w,
                    0 <= q.x,
            ;
        } else if b < a {
            assert(b * w + q.x < a * w + p.x) by (nonlinear_arith)
                requires
                    b < a,
                    0 <= q.x < w,
                    0 <= p.x,
            ;
        }
    }

    /// The two values describe the same band of the same buffer.
    pub open spec fn same_band(&self, other: Self) -> bool {
        &&& self.band_index() == other.band_index()
        &&& self.rows() == other.rows()
        &&& self.band_height() == other.band_height()
        &&& self.parent_dims() == other.parent_dims()
        &&& self.background_color() == other.background_color()
    }

    /// Resets every pixel of the band to the background color at the far depth.
    pub fn clear(&mut self)
        requires
            old(self).wf(),
        ensures
            final(self).wf(),
            final(self).same_band(*old(self)),
            forall|j: int| 0 <= j < final(self).colors_view().len()
                ==> final(self).colors_view()[j] == final(self).background_color(),
            forall|j: int| 0 <= j < final(self).depths_view().len()
                ==> final(self).depths_view()[j] == FAR_DEPTH,
    {
        let len = self.colors.len();
        let mut i: usize = 0;
        while i < len
            invariant
                self.wf(),
                self.same_band(*old(self)),
                len == self.colors_view().len(),
                i <= len,
                forall|j: int| 0 <= j < i ==> self.colors_view()[j] == self.background_color(),
                forall|j: int| 0 <= j < i ==> self.depths_view()[j] == FAR_DEPTH,
            decreases len - i,
        {
            let bg = self.background;
            self.colors.set(i, bg);
            self.depths.set(i, FAR_DEPTH);
            i += 1;
        }
    }

    /// The band's colors, row by row.
    pub fn colors(&self) -> (r: &Vec<C>)
        ensures
            r@ == self.colors_view(),
    {
        &self.colors
    }

    /// The band's depths, row by row.
    pub fn depths(&self) -> (r: &Vec<u32>)
        ensures
            r@ == self.depths_view(),
    {
        &self.depths
    }
}

} // verus!
