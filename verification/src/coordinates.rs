use vstd::prelude::*;
use vstd::string::StringExecFns;

use crate::text::{decimal, push_decimal};

verus! {

/// A position on the grid: column `x`, row `y`.
///
/// Arithmetic on coordinates never wraps: every operator demands that the
/// result stays inside the range of `u16` on both axes, so a caller filters
/// by bounds before it moves.
#[derive(Debug, Clone, Copy, PartialEq, Eq, Structural, PartialOrd, Ord, Hash)]
pub struct CoordinateU16 {
    pub x: u16,
    pub y: u16,
}

impl CoordinateU16 {
    /// Whether moving by `(dx, dy)` stays inside the range of `u16` on both axes.
    pub open spec fn can_shift(self, dx: int, dy: int) -> bool {
        &&& 0 <= self.x + dx <= u16::MAX
        &&& 0 <= self.y + dy <= u16::MAX
    }

    /// The position `(dx, dy)` away from this one.
    pub open spec fn shifted(self, dx: int, dy: int) -> CoordinateU16
        recommends
            self.can_shift(dx, dy),
    {
        CoordinateU16 { x: (self.x + dx) as u16, y: (self.y + dy) as u16 }
    }

    /// Whether `other` is one of the up to eight positions around this one.
    pub open spec fn touches(self, other: CoordinateU16) -> bool {
        &&& self != other
        &&& -1 <= other.x - self.x <= 1
        &&& -1 <= other.y - self.y <= 1
    }

    /// Whether `other` is one of the up to four positions that share an edge
    /// with this one.
    pub open spec fn touches_edge(self, other: CoordinateU16) -> bool {
        ||| other.x == self.x && (other.y - self.y == 1 || self.y - other.y == 1)
        ||| other.y == self.y && (other.x - self.x == 1 || self.x - other.x == 1)
    }

    /// This position as text: column and row in brackets, with a semicolon
    /// between them.
    pub open spec fn text(self) -> Seq<char> {
        "("@ + decimal(self.x as nat) + ";"@ + decimal(self.y as nat) + ")"@
    }

    /// This position as text.
    pub fn to_string(&self) -> (shown: String)
        ensures
            shown@ == self.text(),
    {
        let mut shown = String::from_str("(");
        push_decimal(&mut shown, self.x);
        shown.append(";");
        push_decimal(&mut shown, self.y);
        shown.append(")");
        shown
    }

    /// The position `(dx, dy)` away, or `None` where that leaves the range of
    /// `u16` on either axis.
    pub fn checked_shift(self, dx: i8, dy: i8) -> (moved: Option<CoordinateU16>)
        ensures
            moved == if self.can_shift(dx as int, dy as int) {
                Some(self.shifted(dx as int, dy as int))
            } else {
                None::<CoordinateU16>
            },
    {
        let x: i32 = self.x as i32 + dx as i32;
        let y: i32 = self.y as i32 + dy as i32;
        if 0 <= x && x <= 0xffff && 0 <= y && y <= 0xffff {
            Some(CoordinateU16 { x: x as u16, y: y as u16 })
        } else {
            None
        }
    }
}

impl std::ops::Add for CoordinateU16 {
    type Output = CoordinateU16;

    fn add(self, rhs: CoordinateU16) -> (sum: CoordinateU16) {
        CoordinateU16 { x: self.x + rhs.x, y: self.y + rhs.y }
    }
}

impl vstd::std_specs::ops::AddSpecImpl for CoordinateU16 {
    open spec fn obeys_add_spec() -> bool {
        true
    }

    open spec fn add_req(self, rhs: CoordinateU16) -> bool {
        self.can_shift(rhs.x as int, rhs.y as int)
    }

    open spec fn add_spec(self, rhs: CoordinateU16) -> CoordinateU16 {
        self.shifted(rhs.x as int, rhs.y as int)
    }
}

impl std::ops::Add<(i8, i8)> for CoordinateU16 {
    type Output = CoordinateU16;

    fn add(self, rhs: (i8, i8)) -> (sum: CoordinateU16) {
        CoordinateU16 {
            x: (self.x as i32 + rhs.0 as i32) as u16,
            y: (self.y as i32 + rhs.1 as i32) as u16,
        }
    }
}

impl vstd::std_specs::ops::AddSpecImpl<(i8, i8)> for CoordinateU16 {
    open spec fn obeys_add_spec() -> bool {
        true
    }

    open spec fn add_req(self, rhs: (i8, i8)) -> bool {
        self.can_shift(rhs.0 as int, rhs.1 as int)
    }

    open spec fn add_spec(self, rhs: (i8, i8)) -> CoordinateU16 {
        self.shifted(rhs.0 as int, rhs.1 as int)
    }
}

impl std::ops::Sub for CoordinateU16 {
    type Output = CoordinateU16;

    fn sub(self, rhs: CoordinateU16) -> (difference: CoordinateU16) {
        CoordinateU16 { x: self.x - rhs.x, y: self.y - rhs.y }
    }
}

impl vstd::std_specs::ops::SubSpecImpl for CoordinateU16 {
    open spec fn obeys_sub_spec() -> bool {
        true
    }

    open spec fn sub_req(self, rhs: CoordinateU16) -> bool {
        self.can_shift(-(rhs.x as int), -(rhs.y as int))
    }

    open spec fn sub_spec(self, rhs: CoordinateU16) -> CoordinateU16 {
        self.shifted(-(rhs.x as int), -(rhs.y as int))
    }
}

impl std::ops::Sub<(i8, i8)> for CoordinateU16 {
    type Output = CoordinateU16;

    fn sub(self, rhs: (i8, i8)) -> (difference: CoordinateU16) {
        CoordinateU16 {
            x: (self.x as i32 - rhs.0 as i32) as u16,
            y: (self.y as i32 - rhs.1 as i32) as u16,
        }
    }
}

impl vstd::std_specs::ops::SubSpecImpl<(i8, i8)> for CoordinateU16 {
    open spec fn obeys_sub_spec() -> bool {
        true
    }

    open spec fn sub_req(self, rhs: (i8, i8)) -> bool {
        self.can_shift(-(rhs.0 as int), -(rhs.1 as int))
    }

    open spec fn sub_spec(self, rhs: (i8, i8)) -> CoordinateU16 {
        self.shifted(-(rhs.0 as int), -(rhs.1 as int))
    }
}

} // verus!
