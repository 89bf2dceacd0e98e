//! A direction-and-distance pair and its stable structural encoding: an
//! ordered field record in which every field is optional and decoding defaults
//! a missing field. A scripting host (or any external representation built on
//! named fields) marshals `Drag` values through this two-way mapping.

use vstd::prelude::*;

verus! {

/// A compass direction, or no direction at all.
#[derive(Clone, Copy, PartialEq, Eq, Structural, Debug)]
pub enum Direction {
    Neutral,
    Up,
    UpRight,
    Right,
    DownRight,
    Down,
    DownLeft,
    Left,
    UpLeft,
}

impl Default for Direction {
    /// The default direction: none at all.
    fn default() -> (r: Self)
        ensures
            r == Direction::Neutral,
    {
        Direction::Neutral
    }
}

/// A drag gesture: the direction it points and how far it travelled.
#[derive(Clone, Copy, PartialEq, Eq, Structural, Debug)]
pub struct Drag {
    pub direction: Direction,
    pub distance: u32,
}

impl Default for Drag {
    /// The default drag: no direction, zero distance.
    fn default() -> (r: Self)
        ensures
            r == (Drag { direction: Direction::Neutral, distance: 0u32 }),
    {
        Drag { direction: Direction::Neutral, distance: 0 }
    }
}

/// The external, field-by-field representation of a `Drag`: each field may be
/// absent, as when read from a scripting host's table.
#[derive(Clone, Copy, PartialEq, Eq, Structural, Debug)]
pub struct DragRecord {
    pub direction: Option<Direction>,
    pub distance: Option<u32>,
}

/// The drag a record decodes to: absent fields take their defaults.
pub open spec fn drag_of_record(record: DragRecord) -> Drag {
    Drag {
        direction: match record.direction {
            Some(d) => d,
            None => Direction::Neutral,
        },
        distance: match record.distance {
            Some(x) => x,
            None => 0u32,
        },
    }
}

/// The record a drag encodes to: every field present.
pub open spec fn record_of_drag(drag: Drag) -> DragRecord {
    DragRecord { direction: Some(drag.direction), distance: Some(drag.distance) }
}

impl Drag {
    /// Decode a drag from its external record, defaulting each absent field.
    pub fn from_record(record: &DragRecord) -> (r: Drag)
        ensures
            r == drag_of_record(*record),
    {
        Drag {
            direction: match record.direction {
                Some(d) => d,
                None => Direction::Neutral,
            },
            distance: match record.distance {
                Some(x) => x,
                None => 0,
            },
        }
    }

    /// Encode a drag as its external record, every field present.
    pub fn to_record(&self) -> (r: DragRecord)
        ensures
            r == record_of_drag(*self),
    {
        DragRecord { direction: Some(self.direction), distance: Some(self.distance) }
    }
}

/// Encoding then decoding returns the drag unchanged: the structural encoding
/// loses nothing.
pub proof fn lemma_drag_round_trip(drag: Drag)
    ensures
        drag_of_record(record_of_drag(drag)) == drag,
{
}

} // verus!
