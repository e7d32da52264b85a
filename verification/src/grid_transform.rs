//! Discrete 2D tile coordinates and their vector algebra.

use vstd::prelude::*;

verus! {

/// Number of pixels along one edge of a tile: pixel coordinates are turned
/// into grid coordinates by a truncating division by this factor.
pub const SCALE_FACTOR: i64 = 16;

/// A discrete 2D grid coordinate, also used as a direction vector.
#[derive(Clone, Copy, Debug, PartialEq, Eq, Hash, Structural)]
pub struct GridTransform {
    pub x: i16,
    pub y: i16,
}

impl GridTransform {
    pub open spec fn spec_zero() -> GridTransform {
        GridTransform { x: 0, y: 0 }
    }

    /// The zero vector.
    #[verifier::when_used_as_spec(spec_zero)]
    pub fn zero() -> (r: GridTransform)
        ensures
            r == Self::spec_zero(),
    {
        GridTransform { x: 0, y: 0 }
    }

    pub open spec fn spec_north() -> GridTransform {
        GridTransform { x: 0, y: 1 }
    }

    /// The unit vector pointing north.
    #[verifier::when_used_as_spec(spec_north)]
    pub fn north() -> (r: GridTransform)
        ensures
            r == Self::spec_north(),
    {
        GridTransform { x: 0, y: 1 }
    }

    pub open spec fn spec_east() -> GridTransform {
        GridTransform { x: 1, y: 0 }
    }

    /// The unit vector pointing east.
    #[verifier::when_used_as_spec(spec_east)]
    pub fn east() -> (r: GridTransform)
        ensures
            r == Self::spec_east(),
    {
        GridTransform { x: 1, y: 0 }
    }

    pub open spec fn spec_south() -> GridTransform {
        GridTransform { x: 0, y: (-1) as i16 }
    }

    /// The unit vector pointing south.
    #[verifier::when_used_as_spec(spec_south)]
    pub fn south() -> (r: GridTransform)
        ensures
            r == Self::spec_south(),
    {
        GridTransform { x: 0, y: -1 }
    }

    pub open spec fn spec_west() -> GridTransform {
        GridTransform { x: (-1) as i16, y: 0 }
    }

    /// The unit vector pointing west.
    #[verifier::when_used_as_spec(spec_west)]
    pub fn west() -> (r: GridTransform)
        ensures
            r == Self::spec_west(),
    {
        GridTransform { x: -1, y: 0 }
    }

    pub fn new(x: i16, y: i16) -> (r: Self)
        ensures
            r == (GridTransform { x, y }),
    {
        GridTransform { x, y }
    }

    /// Whether this vector is one of the four cardinal unit vectors.
    pub open spec fn is_cardinal(self) -> bool {
        self == Self::north() || self == Self::east() || self == Self::south() || self == Self::west()
    }

    /// Componentwise sum, defined whenever it fits the coordinate type.
    pub fn add(self, other: Self) -> (r: Self)
        requires
            i16::MIN <= self.x + other.x <= i16::MAX,
            i16::MIN <= self.y + other.y <= i16::MAX,
        ensures
            r == self.spec_add(other),
    {
        GridTransform { x: self.x + other.x, y: self.y + other.y }
    }

    pub open spec fn spec_add(self, other: Self) -> Self {
        GridTransform { x: (self.x + other.x) as i16, y: (self.y + other.y) as i16 }
    }

    /// Componentwise difference, defined whenever it fits the coordinate type.
    pub fn sub(self, other: Self) -> (r: Self)
        requires
            i16::MIN <= self.x - other.x <= i16::MAX,
            i16::MIN <= self.y - other.y <= i16::MAX,
        ensures
            r == (GridTransform { x: (self.x - other.x) as i16, y: (self.y - other.y) as i16 }),
    {
        GridTransform { x: self.x - other.x, y: self.y - other.y }
    }

    /// Componentwise negation.
    pub fn neg(self) -> (r: Self)
        requires
            self.x != i16::MIN,
            self.y != i16::MIN,
        ensures
            r == self.spec_neg(),
    {
        GridTransform { x: -self.x, y: -self.y }
    }

    pub open spec fn spec_neg(self) -> Self {
        GridTransform { x: (-self.x) as i16, y: (-self.y) as i16 }
    }

    /// Scales the vector by a non-negative factor.
    pub fn mult(self, factor: i16) -> (r: Self)
        requires
            i16::MIN <= self.x * factor <= i16::MAX,
            i16::MIN <= self.y * factor <= i16::MAX,
        ensures
            r == (GridTransform { x: (self.x * factor) as i16, y: (self.y * factor) as i16 }),
    {
        GridTransform { x: self.x * factor, y: self.y * factor }
    }

    /// The four cardinally adjacent coordinates, in north, east, south, west
    /// order.
    pub fn neighbors(&self) -> (r: Vec<Self>)
        requires
            i16::MIN < self.x < i16::MAX,
            i16::MIN < self.y < i16::MAX,
        ensures
            r@ == seq![
                self.spec_add(Self::north()),
                self.spec_add(Self::east()),
                self.spec_add(Self::south()),
                self.spec_add(Self::west()),
            ],
    {
        let mut neighbors: Vec<GridTransform> = Vec::new();
        neighbors.push(self.add(Self::north()));
        neighbors.push(self.add(Self::east()));
        neighbors.push(self.add(Self::south()));
        neighbors.push(self.add(Self::west()));
        proof {
            assert(neighbors@ =~= seq![
                self.spec_add(Self::north()),
                self.spec_add(Self::east()),
                self.spec_add(Self::south()),
                self.spec_add(Self::west()),
            ]);
        }
        neighbors
    }

    /// Index of a cardinal unit vector: north is 0, east 1, south 2, west 3.
    /// Only cardinal unit vectors are meaningful inputs.
    pub fn cardinal_index(&self) -> (r: usize)
        requires
            self.is_cardinal(),
        ensures
            *self == Self::north() ==> r == 0,
            *self == Self::east() ==> r == 1,
            *self == Self::south() ==> r == 2,
            *self == Self::west() ==> r == 3,
    {
        if self.x == 0 && self.y == 1 {
            0
        } else if self.x == 1 && self.y == 0 {
            1
        } else if self.x == 0 && self.y == -1 {
            2
        } else {
            3
        }
    }

    /// Quotient of `a` by `b`, rounded toward zero.
    pub open spec fn div_toward_zero(a: int, b: int) -> int
        recommends
            b > 0,
    {
        if a >= 0 {
            a / b
        } else {
            -((-a) / b)
        }
    }

    /// Grid coordinate of the tile containing the given pixel position.
    /// The division truncates toward zero, so pixels just below zero land on
    /// tile zero rather than tile minus one.
    pub fn from_pixels(px: i64, py: i64) -> (r: Self)
        requires
            i16::MIN <= Self::div_toward_zero(px as int, SCALE_FACTOR as int) <= i16::MAX,
            i16::MIN <= Self::div_toward_zero(py as int, SCALE_FACTOR as int) <= i16::MAX,
        ensures
            r.x == Self::div_toward_zero(px as int, SCALE_FACTOR as int),
            r.y == Self::div_toward_zero(py as int, SCALE_FACTOR as int),
    {
        let qx: i64 = if px >= 0 {
            px / SCALE_FACTOR
        } else {
            -((-px) / SCALE_FACTOR)
        };
        let qy: i64 = if py >= 0 {
            py / SCALE_FACTOR
        } else {
            -((-py) / SCALE_FACTOR)
        };
        GridTransform { x: qx as i16, y: qy as i16 }
    }

    /// Splits the coordinate into the non-negative pair used to address map
    /// tiles; coordinates with a negative component have no tile address.
    pub fn to_tile_coords(self) -> (r: Result<(u32, u32), &'static str>)
        ensures
            self.x >= 0 && self.y >= 0 ==> r == Ok::<_, &'static str>((self.x as u32, self.y as u32)),
            !(self.x >= 0 && self.y >= 0) ==> r.is_err(),
    {
        if self.x >= 0 && self.y >= 0 {
            Ok((self.x as u32, self.y as u32))
        } else {
            Err("Negative coordinates are not valid for a tile position")
        }
    }

    /// Total x-major, y-minor ordering on coordinates.
    pub open spec fn spec_le(self, other: Self) -> bool {
        self.x < other.x || (self.x == other.x && self.y <= other.y)
    }
}

impl Default for GridTransform {
    fn default() -> (r: Self)
        ensures
            r == Self::zero(),
    {
        GridTransform { x: 0, y: 0 }
    }
}

impl PartialOrd for GridTransform {
    fn partial_cmp(&self, other: &Self) -> (r: Option<core::cmp::Ordering>) {
        if self.x != other.x {
            if self.x < other.x {
                Some(core::cmp::Ordering::Less)
            } else {
                Some(core::cmp::Ordering::Greater)
            }
        } else if self.y != other.y {
            if self.y < other.y {
                Some(core::cmp::Ordering::Less)
            } else {
                Some(core::cmp::Ordering::Greater)
            }
        } else {
            Some(core::cmp::Ordering::Equal)
        }
    }
}

impl vstd::std_specs::cmp::PartialOrdSpecImpl for GridTransform {
    open spec fn obeys_partial_cmp_spec() -> bool {
        true
    }

    open spec fn partial_cmp_spec(&self, other: &Self) -> Option<core::cmp::Ordering> {
        if self.x != other.x {
            if self.x < other.x {
                Some(core::cmp::Ordering::Less)
            } else {
                Some(core::cmp::Ordering::Greater)
            }
        } else if self.y != other.y {
            if self.y < other.y {
                Some(core::cmp::Ordering::Less)
            } else {
                Some(core::cmp::Ordering::Greater)
            }
        } else {
            Some(core::cmp::Ordering::Equal)
        }
    }
}

} // verus!
