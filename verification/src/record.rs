//! The execution record of one shard.

use crate::event::FenceEvent;
use crate::shape::Shape;
use vstd::prelude::*;
use vstd::string::*;

verus! {

/// What the execution engine recorded for one shard: the events of each
/// instruction category in issue order, and the shape chosen for the shard,
/// if one was.
#[derive(Debug, Clone)]
pub struct ExecutionRecord {
    /// The FENCE events, in issue order.
    pub fence_events: Vec<FenceEvent>,
    /// The shape fixed for the shard ahead of trace generation.
    pub shape: Option<Shape>,
}

impl Default for ExecutionRecord {
    fn default() -> (record: Self)
        ensures
            record.fence_events@ == Seq::<FenceEvent>::empty(),
            record.shape is None,
    {
        ExecutionRecord { fence_events: Vec::new(), shape: None }
    }
}

impl ExecutionRecord {
    /// The logarithm of the row count that the record's shape fixes for
    /// `chip`: none without a shape, and none when the shape has no entry
    /// for the chip.
    pub open spec fn fixed_log2(&self, chip: Seq<char>) -> Option<usize> {
        match self.shape {
            Some(shape) => shape.log2_of(chip),
            None => None,
        }
    }

    /// The number of events that the record holds for the chip called
    /// `chip`: the FENCE events for the chip `Fence`, and none for a name
    /// that the record has no category for.
    pub open spec fn events_of(&self, chip: Seq<char>) -> usize {
        if chip == "Fence"@ {
            self.fence_events.len()
        } else {
            0
        }
    }

    /// The number of events that the record holds for the chip called
    /// `chip`.
    pub fn event_count(&self, chip: &str) -> (count: usize)
        ensures
            count == self.events_of(chip@),
    {
        if String::from_str(chip) == String::from_str("Fence") {
            self.fence_events.len()
        } else {
            0
        }
    }

    /// The logarithm of the row count that the record's shape fixes for
    /// `chip`, if it fixes one.
    pub fn fixed_log2_rows(&self, chip: &str) -> (r: Option<usize>)
        ensures
            r == self.fixed_log2(chip@),
    {
        match &self.shape {
            Some(shape) => shape.log2_height(chip),
            None => None,
        }
    }
}

} // verus!
