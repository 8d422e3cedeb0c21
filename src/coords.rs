use vstd::prelude::*;

verus! {

/// The dimensions of an image.
#[derive(Clone, Copy, Debug, PartialEq, Eq, Structural)]
pub struct Dimensions {
    pub width: usize,
    pub height: usize,
}

/// A position within an image.
#[derive(Clone, Copy, Debug, PartialEq, Eq, Structural)]
pub struct Position {
    pub x: usize,
    pub y: usize,
}

impl Dimensions {
    /// The number of pixels of an image of these dimensions.
    pub open spec fn area(self) -> int {
        self.width * self.height
    }

    /// Whether `pos` lies inside an image of these dimensions.
    pub open spec fn contains(self, pos: Position) -> bool {
        pos.x < self.width && pos.y < self.height
    }

    /// Creates a new set of dimensions.
    pub fn new(width: usize, height: usize) -> (r: Self)
        ensures
            r.width == width,
            r.height == height,
    {
        Dimensions { width, height }
    }

    /// A square of side `width`.
    pub fn square(width: usize) -> (r: Self)
        ensures
            r.width == width,
            r.height == width,
    {
        Self::new(width, width)
    }

    /// The total number of pixels in the image.
    pub fn count(&self) -> (r: usize)
        requires
            self.area() <= usize::MAX,
        ensures
            r == self.area(),
    {
        self.width * self.height
    }

    /// Calls `f` on each position of the image, row by row from the top,
    /// each row from left to right.
    pub fn for_each<F: Fn(Position)>(self, f: F)
        requires
            forall|p: Position| self.contains(p) ==> call_requires(f, (p,)),
    {
        let mut y: usize = 0;
        while y < self.height
            invariant
                y <= self.height,
                forall|p: Position| self.contains(p) ==> call_requires(f, (p,)),
            decreases self.height - y,
        {
            let mut x: usize = 0;
            while x < self.width
                invariant
                    x <= self.width,
                    y < self.height,
                    forall|p: Position| self.contains(p) ==> call_requires(f, (p,)),
                decreases self.width - x,
            {
                let p = Position::new(x, y);
                assert(self.contains(p));
                f(p);
                x += 1;
            }
            y += 1;
        }
    }

    /// The smaller of the two extents along each axis.
    pub fn min(self, other: Self) -> (r: Self)
        ensures
            r.width == if self.width <= other.width { self.width } else { other.width },
            r.height == if self.height <= other.height { self.height } else { other.height },
    {
        Dimensions {
            width: if self.width <= other.width { self.width } else { other.width },
            height: if self.height <= other.height { self.height } else { other.height },
        }
    }

    /// The larger of the two extents along each axis.
    pub fn max(self, other: Self) -> (r: Self)
        ensures
            r.width == if self.width >= other.width { self.width } else { other.width },
            r.height == if self.height >= other.height { self.height } else { other.height },
    {
        Dimensions {
            width: if self.width >= other.width { self.width } else { other.width },
            height: if self.height >= other.height { self.height } else { other.height },
        }
    }
}

impl Position {
    /// Creates a new position.
    pub fn new(x: usize, y: usize) -> (r: Self)
        ensures
            r.x == x,
            r.y == y,
    {
        Position { x, y }
    }
}

impl From<Position> for Dimensions {
    /// The extents that reach from the origin up to, not including, `pos`.
    fn from(pos: Position) -> (r: Self)
        ensures
            r.width == pos.x,
            r.height == pos.y,
    {
        Dimensions { width: pos.x, height: pos.y }
    }
}

impl vstd::std_specs::convert::FromSpecImpl<Position> for Dimensions {
    open spec fn obeys_from_spec() -> bool {
        true
    }

    open spec fn from_spec(pos: Position) -> Self {
        Dimensions { width: pos.x, height: pos.y }
    }
}

impl From<Dimensions> for Position {
    /// The position just past the far corner of an image of dimensions `dim`.
    fn from(dim: Dimensions) -> (r: Self)
        ensures
            r.x == dim.width,
            r.y == dim.height,
    {
        Position { x: dim.width, y: dim.height }
    }
}

impl vstd::std_specs::convert::FromSpecImpl<Dimensions> for Position {
    open spec fn obeys_from_spec() -> bool {
        true
    }

    open spec fn from_spec(dim: Dimensions) -> Self {
        Position { x: dim.width, y: dim.height }
    }
}

impl core::ops::Add for Position {
    type Output = Position;

    fn add(self, rhs: Position) -> (r: Position) {
        Position { x: self.x + rhs.x, y: self.y + rhs.y }
    }
}

impl vstd::std_specs::ops::AddSpecImpl for Position {
    open spec fn obeys_add_spec() -> bool {
        true
    }

    open spec fn add_req(self, rhs: Position) -> bool {
        self.x + rhs.x <= usize::MAX && self.y + rhs.y <= usize::MAX
    }

    open spec fn add_spec(self, rhs: Position) -> Position {
        Position { x: (self.x + rhs.x) as usize, y: (self.y + rhs.y) as usize }
    }
}

impl core::ops::Sub for Position {
    type Output = Position;

    fn sub(self, rhs: Position) -> (r: Position) {
        Position { x: self.x - rhs.x, y: self.y - rhs.y }
    }
}

impl vstd::std_specs::ops::SubSpecImpl for Position {
    open spec fn obeys_sub_spec() -> bool {
        true
    }

    open spec fn sub_req(self, rhs: Position) -> bool {
        rhs.x <= self.x && rhs.y <= self.y
    }

    open spec fn sub_spec(self, rhs: Position) -> Position {
        Position { x: (self.x - rhs.x) as usize, y: (self.y - rhs.y) as usize }
    }
}

} // verus!
