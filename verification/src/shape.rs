//! Shapes: the row counts fixed for the chips of one shard.

use vstd::prelude::*;
use vstd::string::*;

verus! {

/// One entry of a shape: a chip and the base-two logarithm of its row count.
#[derive(Debug, Clone, PartialEq, Eq)]
pub struct ShapeEntry {
    /// The chip's name.
    pub chip: String,
    /// The base-two logarithm of the chip's row count.
    pub log2_rows: usize,
}

/// A mapping from chip names to the base-two logarithm of a row count.
///
/// A chip that has an entry is part of the shard with exactly that many rows,
/// whatever its number of events; a chip without one is not fixed by the shape.
#[derive(Debug, Clone)]
pub struct Shape {
    entries: Vec<ShapeEntry>,
}

/// The mapping that a list of entries stands for: later entries override
/// earlier ones with the same name.
pub open spec fn entries_map(entries: Seq<ShapeEntry>) -> Map<Seq<char>, usize>
    decreases entries.len(),
{
    if entries.len() == 0 {
        Map::empty()
    } else {
        entries_map(entries.drop_last()).insert(entries.last().chip@, entries.last().log2_rows)
    }
}

/// Whether the entry at index `i` carries the name `chip`.
pub open spec fn names(entries: Seq<ShapeEntry>, i: int, chip: Seq<char>) -> bool {
    0 <= i < entries.len() && entries[i].chip@ == chip
}

/// A name is mapped exactly when some entry carries it, and then to the
/// value of the last such entry.
proof fn lemma_entries_map(entries: Seq<ShapeEntry>, chip: Seq<char>)
    ensures
        entries_map(entries).contains_key(chip) <==> exists|i: int| names(entries, i, chip),
        forall|i: int|
            #[trigger] names(entries, i, chip) && (forall|j: int|
                i < j ==> !#[trigger] names(entries, j, chip)) ==> entries_map(entries).contains_key(
                chip,
            ) && entries_map(entries)[chip] == entries[i].log2_rows,
    decreases entries.len(),
{
    if entries.len() > 0 {
        let front = entries.drop_last();
        let last = entries.len() - 1;
        lemma_entries_map(front, chip);
        if entries.last().chip@ == chip {
            assert(names(entries, last, chip));
        } else {
            if entries_map(front).contains_key(chip) {
                let i = choose|i: int| names(front, i, chip);
                assert(names(entries, i, chip));
            }
            if exists|i: int| names(entries, i, chip) {
                let i = choose|i: int| names(entries, i, chip);
                assert(names(front, i, chip));
            }
            assert forall|i: int|
                #[trigger] names(entries, i, chip) && (forall|j: int|
                    i < j ==> !#[trigger] names(entries, j, chip)) implies entries_map(
                entries,
            ).contains_key(chip) && entries_map(entries)[chip] == entries[i].log2_rows by {
                assert(names(front, i, chip));
                assert forall|j: int| i < j implies !#[trigger] names(front, j, chip) by {
                    assert(!names(entries, j, chip));
                }
            }
        }
    }
}

impl View for Shape {
    type V = Map<Seq<char>, usize>;

    closed spec fn view(&self) -> Map<Seq<char>, usize> {
        entries_map(self.entries@)
    }
}

impl Shape {
    /// The logarithm that the shape fixes for `chip`, if it has an entry.
    pub open spec fn log2_of(&self, chip: Seq<char>) -> Option<usize> {
        if self@.contains_key(chip) {
            Some(self@[chip])
        } else {
            None
        }
    }

    /// Creates a shape without entries.
    pub fn new() -> (shape: Self)
        ensures
            shape@ == Map::<Seq<char>, usize>::empty(),
    {
        Shape { entries: Vec::new() }
    }

    /// Fixes the row count of `chip` to `2^log2_rows`, replacing an earlier
    /// entry for the same chip.
    pub fn insert(&mut self, chip: &str, log2_rows: usize)
        ensures
            final(self)@ == old(self)@.insert(chip@, log2_rows),
    {
        let entry = ShapeEntry { chip: String::from_str(chip), log2_rows };
        self.entries.push(entry);
        assert(self.entries@.drop_last() == old(self).entries@);
    }

    /// The logarithm of the row count that the shape fixes for `chip`.
    pub fn log2_height(&self, chip: &str) -> (r: Option<usize>)
        ensures
            r == self.log2_of(chip@),
    {
        let wanted = String::from_str(chip);
        let mut i: usize = self.entries.len();
        while i > 0
            invariant
                i <= self.entries.len(),
                wanted@ == chip@,
                forall|j: int| i <= j ==> !#[trigger] names(self.entries@, j, chip@),
            decreases i,
        {
            i = i - 1;
            if self.entries[i].chip == wanted {
                proof {
                    lemma_entries_map(self.entries@, chip@);
                    assert(names(self.entries@, i as int, chip@));
                }
                return Some(self.entries[i].log2_rows);
            }
        }
        proof {
            lemma_entries_map(self.entries@, chip@);
        }
        None
    }

    /// Whether the shape has an entry for `chip`.
    pub fn included(&self, chip: &str) -> (r: bool)
        ensures
            r == self@.contains_key(chip@),
    {
        self.log2_height(chip).is_some()
    }
}

} // verus!
