use vstd::prelude::*;
use crate::coords::{Dimensions, Position};
use crate::params::Spread;
use crate::pixmap::{pixel_index, Pixmap};

verus! {

/// The positions of an image of dimensions `dim`, row by row from the top,
/// each row from left to right.
pub open spec fn raster_seq(dim: Dimensions) -> Seq<Position> {
    Seq::new(
        dim.area() as nat,
        |k: int| Position { x: (k % dim.width as int) as usize, y: (k / dim.width as int) as usize },
    )
}

/// The box of offsets that the window of `spread` can take at `pos`: the
/// bounding box of the shape, clipped so that no offset reaches past `pos`.
pub open spec fn window_dims(spread: Spread, pos: Position) -> Dimensions {
    Dimensions {
        width: if spread.reach() + 1 <= pos.x + 1 { (spread.reach() + 1) as usize } else { (pos.x + 1) as usize },
        height: if spread.reach() + 1 <= pos.y + 1 { (spread.reach() + 1) as usize } else { (pos.y + 1) as usize },
    }
}

/// Whether the offset `delta` takes part in the average: it is not the
/// pixel itself, and it lies in the shape.
pub open spec fn accepts(spread: Spread) -> spec_fn(Position) -> bool {
    |delta: Position| !(delta.x == 0 && delta.y == 0) && spread.admits(delta)
}

/// The offsets whose pixels are averaged to fill `pos`, in the order in
/// which they are summed.
pub open spec fn window_offsets(spread: Spread, pos: Position) -> Seq<Position> {
    raster_seq(window_dims(spread, pos)).filter(accepts(spread))
}

/// A pixel that contributes to the average at some position.
#[derive(Clone, Copy, Debug, PartialEq, Eq, Structural)]
pub struct Neighbor {
    /// How far up and to the left of the filled pixel it lies.
    pub offset: Position,
    /// Where it lies in the image.
    pub position: Position,
}

/// The neighbours whose colours are averaged to fill `pos`, in summing
/// order, each with its offset and its place in the image. The list is
/// empty where the window holds no other pixel: at a spread of size 0.
pub fn neighbors(spread: Spread, dimensions: Dimensions, pos: Position) -> (r: Vec<Neighbor>)
    requires
        spread.valid(),
        dimensions.contains(pos),
        dimensions.area() <= usize::MAX,
    ensures
        r@.map_values(|n: Neighbor| n.offset) == window_offsets(spread, pos),
        forall|i: int| 0 <= i < r@.len() ==> (#[trigger] r@[i]).offset.x <= pos.x
            && r@[i].offset.y <= pos.y
            && r@[i].position.x == pos.x - r@[i].offset.x
            && r@[i].position.y == pos.y - r@[i].offset.y,
{
    let ghost wd = window_dims(spread, pos);
    let one = Position::new(1, 1);
    let window = spread.bounds().min(Dimensions::from(pos + one));
    assert(window == wd);
    proof {
        assert(window.area() <= dimensions.area()) by (nonlinear_arith)
            requires
                window.width <= dimensions.width,
                window.height <= dimensions.height,
        {
        }
    }
    let n = window.count();
    let reach = spread.extent() as u128;
    proof {
        assert(reach * reach <= 0xffff_ffff_ffff_ffffu128 * 0xffff_ffff_ffff_ffffu128)
            by (nonlinear_arith)
            requires
                reach <= 0xffff_ffff_ffff_ffffu128,
        {
        }
    }
    let radius_sq: u128 = reach * reach;
    let mut r: Vec<Neighbor> = Vec::new();
    let mut k: usize = 0;
    while k < n
        invariant
            k <= n,
            n == wd.area(),
            window == wd,
            wd.width >= 1,
            wd.width <= pos.x + 1,
            wd.height <= pos.y + 1,
            wd.width <= spread.reach() + 1,
            wd.height <= spread.reach() + 1,
            radius_sq == spread.reach() * spread.reach(),
            r@.map_values(|n: Neighbor| n.offset) == raster_seq(wd).take(k as int).filter(accepts(spread)),
            forall|i: int| 0 <= i < r@.len() ==> (#[trigger] r@[i]).offset.x <= pos.x
                && r@[i].offset.y <= pos.y
                && r@[i].position.x == pos.x - r@[i].offset.x
                && r@[i].position.y == pos.y - r@[i].offset.y,
        decreases n - k,
    {
        let delta = Position::new(k % window.width, k / window.width);
        proof {
            assert(delta == raster_seq(wd)[k as int]);
            let q = k as int / wd.width as int;
            vstd::arithmetic::div_mod::lemma_fundamental_div_mod(k as int, wd.width as int);
            assert(q < wd.height) by (nonlinear_arith)
                requires
                    k < wd.width * wd.height,
                    k == wd.width * q + k as int % wd.width as int,
                    0 <= k as int % wd.width as int,
                    wd.width >= 1,
            {
            }
        }
        let inside = if delta.x == 0 && delta.y == 0 {
            false
        } else {
            match spread {
                Spread::Square { .. } => true,
                Spread::QuarterCircle { .. } => {
                    let dx = delta.x as u128;
                    let dy = delta.y as u128;
                    proof {
                        assert(dx * dx <= radius_sq) by (nonlinear_arith)
                            requires
                                dx <= spread.reach(),
                                radius_sq == spread.reach() * spread.reach(),
                        {
                        }
                        assert(dy * dy <= radius_sq) by (nonlinear_arith)
                            requires
                                dy <= spread.reach(),
                                radius_sq == spread.reach() * spread.reach(),
                        {
                        }
                    }
                    dy * dy <= radius_sq - dx * dx
                },
            }
        };
        assert(inside == accepts(spread)(delta));
        let ghost before = r@;
        if inside {
            r.push(Neighbor { offset: delta, position: pos - delta });
        }
        proof {
            let s = raster_seq(wd);
            assert(s.take(k + 1).drop_last() =~= s.take(k as int));
            assert(s.take(k + 1).last() == delta);
            reveal(Seq::filter);
            assert(r@.map_values(|n: Neighbor| n.offset) =~= s.take(k + 1).filter(accepts(spread)));
        }
        k += 1;
    }
    assert(raster_seq(wd).take(n as int) =~= raster_seq(wd));
    r
}

/// Every pixel averaged to fill `pos` lies inside the image and comes
/// before `pos` in row-major order, so it has been filled already.
pub proof fn lemma_window_precedes(spread: Spread, dim: Dimensions, pos: Position, i: int)
    requires
        dim.contains(pos),
        0 <= i < window_offsets(spread, pos).len(),
    ensures
        ({
            let o = window_offsets(spread, pos)[i];
            let n = Position { x: (pos.x - o.x) as usize, y: (pos.y - o.y) as usize };
            &&& o.x <= pos.x
            &&& o.y <= pos.y
            &&& !(o.x == 0 && o.y == 0)
            &&& dim.contains(n)
            &&& pixel_index(dim, n) < pixel_index(dim, pos)
        }),
{
    let wd = window_dims(spread, pos);
    let s = raster_seq(wd);
    let o = window_offsets(spread, pos)[i];
    s.lemma_filter_pred(accepts(spread), i);
    assert(window_offsets(spread, pos).contains(o));
    s.lemma_filter_contains_rev(accepts(spread), o);
    let k = choose|k: int| 0 <= k < s.len() && s[k] == o;
    assert(wd.width >= 1);
    assert(o.x < wd.width) by {
        vstd::arithmetic::div_mod::lemma_mod_bound(k, wd.width as int);
    }
    assert(k / (wd.width as int) < wd.height) by {
        vstd::arithmetic::div_mod::lemma_fundamental_div_mod(k, wd.width as int);
        let q = k / (wd.width as int);
        assert(q < wd.height) by (nonlinear_arith)
            requires
                k < wd.width * wd.height,
                k == wd.width * q + k % wd.width as int,
                0 <= k % wd.width as int,
                wd.width >= 1,
        {
        }
    }
    let n = Position { x: (pos.x - o.x) as usize, y: (pos.y - o.y) as usize };
    assert(pixel_index(dim, n) < pixel_index(dim, pos)) by (nonlinear_arith)
        requires
            o.x <= pos.x,
            o.y <= pos.y,
            !(o.x == 0 && o.y == 0),
            n.x == pos.x - o.x,
            n.y == pos.y - o.y,
            pos.x < dim.width,
    {
        if o.y == 0 {
        } else {
            assert(n.y * dim.width + dim.width <= pos.y * dim.width) by (nonlinear_arith)
                requires
                    n.y + 1 <= pos.y,
                    dim.width >= 0,
            {
                assert(n.y * dim.width + dim.width == (n.y + 1) * dim.width);
            }
        }
    }
}

/// The positions that the fill pass visits, in the order in which it
/// visits them: every position in row-major order but the first, which
/// holds the starting colour.
pub fn fill_order(dimensions: Dimensions) -> (r: Vec<Position>)
    requires
        dimensions.area() <= usize::MAX,
    ensures
        dimensions.area() == 0 ==> r@.len() == 0,
        dimensions.area() > 0 ==> r@ == raster_seq(dimensions).skip(1),
{
    let n = dimensions.count();
    let mut r: Vec<Position> = Vec::new();
    if n == 0 {
        return r;
    }
    let mut k: usize = 1;
    while k < n
        invariant
            1 <= k <= n,
            n == dimensions.area(),
            r@ == raster_seq(dimensions).subrange(1, k as int),
        decreases n - k,
    {
        proof {
            vstd::arithmetic::div_mod::lemma_fundamental_div_mod(k as int, dimensions.width as int);
            assert(dimensions.width > 0) by (nonlinear_arith)
                requires
                    k < dimensions.width * dimensions.height,
            {
            }
        }
        r.push(Position::new(k % dimensions.width, k / dimensions.width));
        k += 1;
        assert(r@ =~= raster_seq(dimensions).subrange(1, k as int));
    }
    r
}

/// The image before the fill pass: the starting colour at the origin and
/// `blank` everywhere else.
pub fn initial_pixmap<T: Copy>(dimensions: Dimensions, blank: T, start_color: T) -> (r: Pixmap<T>)
    requires
        dimensions.area() <= usize::MAX,
        dimensions.width >= 1,
        dimensions.height >= 1,
    ensures
        r.dims() == dimensions,
        r@.len() == dimensions.area(),
        r.at(Position { x: 0, y: 0 }) == start_color,
        forall|i: int| 0 < i < r@.len() ==> r@[i] == blank,
{
    assert(dimensions.area() >= 1) by (nonlinear_arith)
        requires
            dimensions.width >= 1,
            dimensions.height >= 1,
    {
    }
    let mut data = Pixmap::new(dimensions, blank);
    let origin = Position::new(0, 0);
    assert(pixel_index(dimensions, origin) == 0);
    data.set(origin, start_color);
    data
}

/// Row-major order reaches every position of the image, at the place where
/// the pixel buffer stores it.
pub proof fn lemma_raster_seq_covers(dim: Dimensions, pos: Position)
    requires
        dim.contains(pos),
    ensures
        0 <= pixel_index(dim, pos) < raster_seq(dim).len(),
        raster_seq(dim)[pixel_index(dim, pos)] == pos,
{
    crate::pixmap::lemma_pixel_index_bounds(dim, pos);
    vstd::arithmetic::div_mod::lemma_fundamental_div_mod_converse(
        pixel_index(dim, pos),
        dim.width as int,
        pos.y as int,
        pos.x as int,
    );
}

/// The fill pass never visits the origin, so the starting colour stays
/// there until the gamma pass.
pub proof fn lemma_fill_skips_origin(dim: Dimensions, i: int)
    requires
        dim.area() > 0,
        0 <= i < dim.area() - 1,
    ensures
        raster_seq(dim).skip(1)[i] != (Position { x: 0, y: 0 }),
        dim.contains(raster_seq(dim).skip(1)[i]),
{
    let k = i + 1;
    let w = dim.width as int;
    if dim.width == 0 {
        assert(dim.width * dim.height == 0 * dim.height);
    }
    assert(raster_seq(dim).skip(1)[i] == raster_seq(dim)[k]);
    vstd::arithmetic::div_mod::lemma_fundamental_div_mod(k, w);
    vstd::arithmetic::div_mod::lemma_mod_bound(k, w);
    let q = k / w;
    assert(q < dim.height) by (nonlinear_arith)
        requires
            k < w * dim.height,
            k == w * q + k % w,
            0 <= k % w,
            w >= 1,
    {
    }
    assert(q >= 0) by (nonlinear_arith)
        requires
            k == w * q + k % w,
            k % w < w,
            k >= 1,
            w >= 1,
    {
    }
    if q == 0 {
        assert(w * q == 0) by (nonlinear_arith)
            requires
                q == 0,
        {
        }
        assert(k == k % w);
    }
}


} // verus!
