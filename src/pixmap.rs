use vstd::prelude::*;
use crate::coords::{Dimensions, Position};

verus! {

/// Where the pixel at `pos` is kept in the row-major storage of an image
/// with dimensions `dim`.
pub open spec fn pixel_index(dim: Dimensions, pos: Position) -> int {
    pos.y * dim.width + pos.x
}

/// A two-dimensional array of pixels, stored row by row.
pub struct Pixmap<T> {
    dimensions: Dimensions,
    data: Vec<T>,
}

impl<T> View for Pixmap<T> {
    type V = Seq<T>;

    /// The pixels in row-major order.
    closed spec fn view(&self) -> Seq<T> {
        self.data@
    }
}

impl<T> Pixmap<T> {
    #[verifier::type_invariant]
    spec fn inv(&self) -> bool {
        self.data@.len() == self.dimensions.width * self.dimensions.height
    }

    /// The dimensions of the image.
    pub closed spec fn dims(&self) -> Dimensions {
        self.dimensions
    }

    /// The pixel at `pos`.
    pub open spec fn at(&self, pos: Position) -> T {
        self@[pixel_index(self.dims(), pos)]
    }

    /// Creates an image of `dimensions` whose pixels are all `fill`.
    pub fn new(dimensions: Dimensions, fill: T) -> (r: Self)
        where
            T: Copy,
        requires
            dimensions.area() <= usize::MAX,
        ensures
            r.dims() == dimensions,
            r@ == Seq::new(dimensions.area() as nat, |i: int| fill),
    {
        let n = dimensions.count();
        let mut data: Vec<T> = Vec::with_capacity(n);
        let mut i: usize = 0;
        while i < n
            invariant
                i <= n,
                data@ == Seq::new(i as nat, |k: int| fill),
            decreases n - i,
        {
            data.push(fill);
            i += 1;
            assert(data@ =~= Seq::new(i as nat, |k: int| fill));
        }
        Pixmap { dimensions, data }
    }

    /// The dimensions of the image.
    pub fn dimensions(&self) -> (r: Dimensions)
        ensures
            r == self.dims(),
    {
        self.dimensions
    }

    /// The number of pixels in the image.
    pub fn count(&self) -> (r: usize)
        ensures
            r == self.dims().area(),
            r == self@.len(),
    {
        proof {
            use_type_invariant(self);
        }
        self.data.len()
    }

    /// The pixels in row-major order.
    pub fn data(&self) -> (r: &[T])
        ensures
            r@ == self@,
    {
        self.data.as_slice()
    }

    /// Takes ownership of the pixels, in row-major order.
    pub fn into_data(self) -> (r: Vec<T>)
        ensures
            r@ == self@,
    {
        self.data
    }

    /// The pixel at `pos`, which must lie inside the image.
    pub fn get_unchecked(&self, pos: Position) -> (r: T)
        where
            T: Copy,
        requires
            self.dims().contains(pos),
        ensures
            r == self.at(pos),
    {
        let i = self.pos_index(pos);
        self.data[i]
    }

    /// The pixel at `pos`, or `None` where `pos` lies outside the image.
    pub fn get(&self, pos: Position) -> (r: Option<T>)
        where
            T: Copy,
        ensures
            self.dims().contains(pos) ==> r == Some(self.at(pos)),
            !self.dims().contains(pos) ==> r is None,
    {
        if pos.x < self.dimensions.width && pos.y < self.dimensions.height {
            Some(self.get_unchecked(pos))
        } else {
            None
        }
    }

    /// A mutable reference to the pixel at `pos`, which must lie inside the
    /// image.
    pub fn get_unchecked_mut(&mut self, pos: Position) -> (r: &mut T)
        requires
            old(self).dims().contains(pos),
        ensures
            *r == old(self).at(pos),
            final(self).dims() == old(self).dims(),
            final(self)@ == old(self)@.update(pixel_index(old(self).dims(), pos), *final(r)),
    {
        proof {
            use_type_invariant(&*self);
        }
        let i = self.pos_index(pos);
        &mut self.data[i]
    }

    /// Replaces the pixel at `pos`, which must lie inside the image.
    pub fn set(&mut self, pos: Position, value: T)
        requires
            old(self).dims().contains(pos),
        ensures
            final(self).dims() == old(self).dims(),
            final(self)@ == old(self)@.update(pixel_index(old(self).dims(), pos), value),
    {
        proof {
            use_type_invariant(&*self);
        }
        let i = self.pos_index(pos);
        self.data[i] = value;
    }

    /// The image of the same dimensions whose every pixel is `f` applied to
    /// the pixel at the same place.
    pub fn map<U, F: Fn(T) -> U>(&self, f: F) -> (r: Pixmap<U>)
        where
            T: Copy,
        requires
            forall|i: int| 0 <= i < self@.len() ==> call_requires(f, (self@[i],)),
        ensures
            r.dims() == self.dims(),
            r@.len() == self@.len(),
            forall|i: int| 0 <= i < self@.len() ==> call_ensures(f, (self@[i],), #[trigger] r@[i]),
    {
        proof {
            use_type_invariant(self);
        }
        let n = self.data.len();
        let mut data: Vec<U> = Vec::with_capacity(n);
        let mut i: usize = 0;
        while i < n
            invariant
                i <= n,
                n == self@.len(),
                data@.len() == i,
                forall|k: int| 0 <= k < self@.len() ==> call_requires(f, (self@[k],)),
                forall|k: int| 0 <= k < i ==> call_ensures(f, (self@[k],), #[trigger] data@[k]),
            decreases n - i,
        {
            data.push(f(self.data[i]));
            i += 1;
        }
        Pixmap { dimensions: self.dimensions, data }
    }

    /// Where `pos` is kept in the storage.
    fn pos_index(&self, pos: Position) -> (r: usize)
        requires
            self.dims().contains(pos),
        ensures
            r == pixel_index(self.dims(), pos),
            r < self@.len(),
    {
        let n = self.data.len();
        proof {
            use_type_invariant(self);
            lemma_pixel_index_bounds(self.dimensions, pos);
            assert(pos.y * self.dimensions.width <= pixel_index(self.dimensions, pos));
        }
        pos.y * self.dimensions.width + pos.x
    }
}

/// Every position inside an image has its own place in the storage: two
/// distinct positions never share one.
pub proof fn lemma_pixel_index_distinct(dim: Dimensions, p: Position, q: Position)
    requires
        dim.contains(p),
        dim.contains(q),
        p != q,
    ensures
        pixel_index(dim, p) != pixel_index(dim, q),
        0 <= pixel_index(dim, p) < dim.area(),
        0 <= pixel_index(dim, q) < dim.area(),
{
    lemma_pixel_index_bounds(dim, p);
    lemma_pixel_index_bounds(dim, q);
    if pixel_index(dim, p) == pixel_index(dim, q) {
        vstd::arithmetic::div_mod::lemma_fundamental_div_mod_converse(
            pixel_index(dim, p), dim.width as int, p.y as int, p.x as int);
        vstd::arithmetic::div_mod::lemma_fundamental_div_mod_converse(
            pixel_index(dim, q), dim.width as int, q.y as int, q.x as int);
    }
}

/// Every position inside the image has a place in the storage.
pub proof fn lemma_pixel_index_bounds(dim: Dimensions, pos: Position)
    requires
        dim.contains(pos),
    ensures
        0 <= pixel_index(dim, pos) < dim.area(),
{
    assert(pos.y * dim.width + pos.x < dim.width * dim.height) by (nonlinear_arith)
        requires
            pos.x < dim.width,
            pos.y < dim.height,
    {
        assert(pos.y * dim.width + dim.width == (pos.y + 1) * dim.width);
        assert((pos.y + 1) * dim.width <= dim.height * dim.width);
    }
}

} // verus!
