//! Connections between grid coordinates and the diagonal-crossing test.

use vstd::prelude::*;
use crate::grid_transform::GridTransform;

verus! {

/// An ordered pair of grid coordinates.
#[derive(Clone, Copy, Debug, PartialEq, Eq, Hash, Structural)]
pub struct Connection {
    pub a: GridTransform,
    pub b: GridTransform,
}

impl Connection {
    pub fn new(a: GridTransform, b: GridTransform) -> (r: Self)
        ensures
            r == (Connection { a, b }),
    {
        Connection { a, b }
    }

    /// Whether this connection runs diagonally and `other` is one of the two
    /// connections between its intermediate corners — the pair a diagonal
    /// step would cut across.
    pub open spec fn spec_crosses(self, other: Connection) -> bool {
        let dx = self.b.x - self.a.x;
        let dy = self.b.y - self.a.y;
        if dx != 0 && dy != 0 {
            let ix = GridTransform { x: (self.a.x + dx) as i16, y: self.a.y };
            let iy = GridTransform { x: self.a.x, y: (self.a.y + dy) as i16 };
            other == (Connection { a: ix, b: iy }) || other == (Connection { a: iy, b: ix })
        } else {
            false
        }
    }

    /// Whether this connection cuts across `other`.
    pub fn crosses(&self, other: &Self) -> (r: bool)
        requires
            i16::MIN <= self.b.x - self.a.x <= i16::MAX,
            i16::MIN <= self.b.y - self.a.y <= i16::MAX,
        ensures
            r == self.spec_crosses(*other),
    {
        let dir = self.b.sub(self.a);
        if dir.x != 0 && dir.y != 0 {
            let intermediate_x = GridTransform::new(self.a.x + dir.x, self.a.y);
            let intermediate_y = GridTransform::new(self.a.x, self.a.y + dir.y);
            let potential_block_a = Connection::new(intermediate_x, intermediate_y);
            let potential_block_b = Connection::new(intermediate_y, intermediate_x);
            *other == potential_block_a || *other == potential_block_b
        } else {
            false
        }
    }
}

} // verus!
