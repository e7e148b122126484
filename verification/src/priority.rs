//! Priority levels of chunk transfers and their wire encoding.

use vstd::prelude::*;
use vstd::std_specs::convert::FromSpecImpl;

verus! {

/// How urgently a requested chunk is wanted. The levels are ordered
/// `Low < Normal < High`; a scheduler serves pending requests by them.
#[derive(Clone, Copy, Debug, PartialEq, Eq, Structural, PartialOrd, Ord)]
pub enum Priority {
    Low,
    Normal,
    High,
}

/// The level that a number on the wire stands for: 0, 1 and 2 are the three
/// levels, and every other number is read as `Normal`.
pub open spec fn priority_of_wire(value: i32) -> Priority {
    if value == 0 {
        Priority::Low
    } else if value == 2 {
        Priority::High
    } else {
        Priority::Normal
    }
}

/// The number that stands for a level on the wire.
pub open spec fn wire_of_priority(priority: Priority) -> i32 {
    match priority {
        Priority::Low => 0i32,
        Priority::Normal => 1i32,
        Priority::High => 2i32,
    }
}

impl Priority {
    /// The number that stands for this level on the wire.
    pub fn to_wire(self) -> (value: i32)
        ensures
            value == wire_of_priority(self),
    {
        match self {
            Priority::Low => 0,
            Priority::Normal => 1,
            Priority::High => 2,
        }
    }
}

impl From<i32> for Priority {
    fn from(value: i32) -> (priority: Priority) {
        if value == 0 {
            Priority::Low
        } else if value == 2 {
            Priority::High
        } else {
            Priority::Normal
        }
    }
}

impl FromSpecImpl<i32> for Priority {
    open spec fn obeys_from_spec() -> bool {
        true
    }

    open spec fn from_spec(value: i32) -> Priority {
        priority_of_wire(value)
    }
}

/// A level survives the wire: encoding it and reading the number back gives
/// the level again.
pub proof fn law_priority_round_trip(priority: Priority)
    ensures
        priority_of_wire(wire_of_priority(priority)) == priority,
{
}

/// Coercion. A number that names no level is read as `Normal`, and the
/// request built with what was read carries the number of `Normal`, so that
/// whoever reads the request reads `Normal` again.
pub proof fn law_priority_coercion(value: i32)
    requires
        value != 0 && value != 1 && value != 2,
    ensures
        priority_of_wire(value) == Priority::Normal,
        wire_of_priority(priority_of_wire(value)) == 1,
        priority_of_wire(wire_of_priority(priority_of_wire(value))) == Priority::Normal,
{
}

} // verus!
