use vstd::prelude::*;
use crate::coords::{Dimensions, Position};

verus! {

/// The number of bytes in a generator seed.
pub const SEED_LEN: usize = 32;

/// The seed of the pseudo-random sequence that drives the jitter.
pub type Seed = [u8; 32];

/// Shape of the area of neighbouring pixels considered when averaging.
#[derive(Clone, Copy, Debug, PartialEq, Eq, Structural)]
pub enum Spread {
    /// Every pixel at most `width` columns to the left and `width` rows up.
    Square { width: usize },
    /// The pixels of the `Square` window of side `radius` whose Euclidean
    /// distance is at most `radius`.
    QuarterCircle { radius: usize },
}

impl Spread {
    /// How far the window reaches along each axis.
    pub open spec fn reach(self) -> nat {
        match self {
            Spread::Square { width } => width as nat,
            Spread::QuarterCircle { radius } => radius as nat,
        }
    }

    /// Whether the window reach fits a bounding box in `usize`.
    pub open spec fn valid(self) -> bool {
        self.reach() < usize::MAX
    }

    /// Whether the offset `delta` belongs to the shape, the bounding box aside.
    pub open spec fn admits(self, delta: Position) -> bool {
        match self {
            Spread::Square { .. } => true,
            Spread::QuarterCircle { radius } =>
                delta.x * delta.x + delta.y * delta.y <= radius * radius,
        }
    }

    /// How far the window reaches along each axis: the square's width or
    /// the circle's radius.
    pub fn extent(self) -> (r: usize)
        ensures
            r == self.reach(),
    {
        match self {
            Spread::Square { width } => width,
            Spread::QuarterCircle { radius } => radius,
        }
    }

    /// The size of the bounding box (in full pixels) that holds the shape.
    pub fn bounds(self) -> (r: Dimensions)
        requires
            self.valid(),
        ensures
            r.width == self.reach() + 1,
            r.height == self.reach() + 1,
    {
        match self {
            Spread::Square { width } => Dimensions::square(width + 1),
            Spread::QuarterCircle { radius } => Dimensions::square(radius + 1),
        }
    }
}

/// The dimensions used when none are given: 3840 by 2160.
pub fn default_dimensions() -> (r: Dimensions)
    ensures
        r.width == 3840,
        r.height == 2160,
{
    Dimensions::new(3840, 2160)
}

/// The spread used when none is given: a square of width 5.
pub fn default_spread() -> (r: Spread)
    ensures
        r == (Spread::Square { width: 5 }),
{
    Spread::Square { width: 5 }
}

/// Relies on `rand::thread_rng` and `rand::Rng::fill`: overwrites the
/// seed with bytes from the thread's generator, which the operating system
/// seeds. Nothing is known of the bytes.
#[verifier::external_body]
fn fill_from_thread_rng(seed: &mut Seed) {
    rand::Rng::fill(&mut rand::thread_rng(), seed)
}

/// A fresh seed, for a run whose parameters name none. Any seed may come
/// back.
pub fn default_seed() -> (r: Seed) {
    let mut seed: Seed = [0u8; 32];
    fill_from_thread_rng(&mut seed);
    seed
}

/// Why a byte string is no seed.
#[derive(Clone, Copy, Debug, PartialEq, Eq, Structural)]
pub struct SeedLengthError {
    /// The length of the rejected byte string.
    pub len: usize,
}

/// Reads a seed from a byte string that holds exactly its bytes.
pub fn seed_from_bytes(bytes: &[u8]) -> (r: Result<Seed, SeedLengthError>)
    ensures
        bytes@.len() == SEED_LEN ==> r is Ok && r->Ok_0@ == bytes@,
        bytes@.len() != SEED_LEN ==> r == Err::<Seed, _>(SeedLengthError { len: bytes@.len() as usize }),
{
    if bytes.len() != SEED_LEN {
        return Err(SeedLengthError { len: bytes.len() });
    }
    let mut seed: Seed = [0u8; 32];
    let mut i: usize = 0;
    while i < SEED_LEN
        invariant
            i <= SEED_LEN,
            bytes@.len() == SEED_LEN,
            forall|k: int| 0 <= k < i ==> seed@[k] == bytes@[k],
        decreases SEED_LEN - i,
    {
        seed[i] = bytes[i];
        i += 1;
    }
    assert(seed@ =~= bytes@);
    Ok(seed)
}

} // verus!
