//! Which byte of the source each instruction came from.
//!
//! The table stores a byte offset and not a line and a column. Turning an offset into a line costs
//! one scan of the source and happens when a human is about to read it, which is rare, while storing
//! two numbers per entry would cost memory on every function that is ever loaded, which is not.
//!
//! One entry per run of instructions that share a position, found by binary search.

use vstd::prelude::*;

verus! {

/// One instruction that starts a new source position.
#[derive(Clone, Copy, Debug, PartialEq, Eq, Structural)]
struct Entry {
    /// The first instruction covered by this position.
    instruction: u32,
    /// The byte offset in the source file.
    offset: u32,
}

/// The source position of every instruction in one blueprint.
#[derive(Clone, Debug)]
pub struct SourcePositions {
    entries: Vec<Entry>,
}

/// Whether the first components go strictly upwards.
pub open spec fn strictly_ordered(table: Seq<(u32, u32)>) -> bool {
    forall|i: int, j: int|
        0 <= i < j < table.len() ==> (#[trigger] table[i]).0 < (#[trigger] table[j]).0
}

/// Whether every entry starts a run of its own: no entry has the position of the one before it.
pub open spec fn one_entry_per_run(table: Seq<(u32, u32)>) -> bool {
    forall|i: int| 0 < i < table.len() ==> (#[trigger] table[i]).1 != table[i - 1].1
}

/// The position in force at `instruction`: that of the last entry that does not start after it.
pub open spec fn in_force(table: Seq<(u32, u32)>, instruction: int) -> Option<u32>
    decreases table.len(),
{
    if table.len() == 0 {
        None
    } else if table.last().0 <= instruction {
        Some(table.last().1)
    } else {
        in_force(table.drop_last(), instruction)
    }
}

/// The table after one more instruction is recorded.
///
/// An instruction at the position the last entry already has adds nothing. The last entry's own
/// instruction recorded again replaces that entry, because the later answer is the one closer to the
/// emit, and joins the run in front when that has the position already. Anything else is a new entry.
pub open spec fn recorded(table: Seq<(u32, u32)>, instruction: u32, offset: u32) -> Seq<
    (u32, u32),
> {
    if table.len() > 0 && table.last().1 == offset {
        table
    } else if table.len() > 0 && table.last().0 == instruction {
        let before = table.drop_last();
        if before.len() > 0 && before.last().1 == offset {
            before
        } else {
            before.push((instruction, offset))
        }
    } else {
        table.push((instruction, offset))
    }
}

impl View for SourcePositions {
    type V = Seq<(u32, u32)>;

    /// The entries, each the first instruction of a run and the byte the run came from.
    closed spec fn view(&self) -> Seq<(u32, u32)> {
        Seq::new(self.entries@.len(), |i: int| (self.entries@[i].instruction, self.entries@[i].offset))
    }
}

impl Default for SourcePositions {
    /// A table with nothing recorded.
    fn default() -> (positions: Self)
        ensures
            positions.wf(),
            positions@ == Seq::<(u32, u32)>::empty(),
    {
        let positions = SourcePositions { entries: Vec::new() };
        assert(positions@ =~= Seq::<(u32, u32)>::empty());
        positions
    }
}

impl SourcePositions {
    /// What recording in the order of emission keeps true of the table.
    pub open spec fn wf(&self) -> bool {
        &&& strictly_ordered(self@)
        &&& one_entry_per_run(self@)
    }

    /// Record that the instruction at `instruction` came from byte `offset`.
    ///
    /// Instructions have to be recorded in the order they are emitted, which is what lowering does
    /// anyway, and a function fits in `u32` instructions. A run of instructions lowered from one
    /// expression shares one entry, so a table for a large function is much smaller than its
    /// instruction count.
    pub fn record(&mut self, instruction: usize, offset: u32)
        requires
            old(self).wf(),
            instruction <= u32::MAX,
            old(self)@.len() > 0 ==> old(self)@.last().0 <= instruction,
        ensures
            final(self)@ == recorded(old(self)@, instruction as u32, offset),
            final(self).wf(),
    {
        let ghost before = self@;
        let entry = Entry { instruction: instruction as u32, offset };
        let count: usize = self.entries.len();
        if count > 0 {
            let last: Entry = self.entries[count - 1];
            assert(before.last() == (last.instruction, last.offset));
            if last.offset == offset {
                return ;
            }
            if last.instruction == entry.instruction {
                let ghost entries = self.entries@;
                let _ = self.entries.pop();
                assert(self.entries@ == entries.drop_last());
                assert(self@ =~= before.drop_last());
                if count > 1 {
                    let previous: Entry = self.entries[count - 2];
                    assert(before.drop_last().last() == (previous.instruction, previous.offset));
                    if previous.offset == offset {
                        return ;
                    }
                }
                self.entries.push(entry);
                assert(self@ =~= before.drop_last().push((entry.instruction, offset)));
                return ;
            }
        }
        self.entries.push(entry);
        assert(self@ =~= before.push((entry.instruction, offset)));
    }

    /// The byte offset the instruction at this index came from.
    ///
    /// `None` only for an instruction before the first recorded position, which means lowering
    /// emitted something without saying where it came from.
    pub fn offset_at(&self, instruction: usize) -> (offset: Option<u32>)
        requires
            self.wf(),
        ensures
            offset == in_force(self@, instruction as int),
    {
        let mut low: usize = 0;
        let mut high: usize = self.entries.len();
        while low < high
            invariant
                low <= high <= self.entries@.len(),
                strictly_ordered(self@),
                forall|i: int| 0 <= i < low ==> (#[trigger] self@[i]).0 <= instruction,
                forall|i: int| high <= i < self@.len() ==> (#[trigger] self@[i]).0 > instruction,
            decreases high - low,
        {
            let middle: usize = low + (high - low) / 2;
            let entry: Entry = self.entries[middle];
            assert(self@[middle as int] == (entry.instruction, entry.offset));
            if entry.instruction as usize <= instruction {
                low = middle + 1;
            } else {
                high = middle;
            }
        }
        proof {
            lemma_in_force_is_the_boundary(self@, instruction as int, low as int);
        }
        if low == 0 {
            None
        } else {
            assert(self@[low - 1] == (self.entries@[low - 1].instruction, self.entries@[low - 1].offset));
            Some(self.entries[low - 1].offset)
        }
    }

    /// How many distinct positions the table holds, which is not the instruction count.
    pub fn len(&self) -> (count: usize)
        ensures
            count == self@.len(),
    {
        self.entries.len()
    }

    /// Whether nothing has been recorded.
    pub fn is_empty(&self) -> (empty: bool)
        ensures
            empty == (self@.len() == 0),
    {
        self.entries.len() == 0
    }
}

/// Where the entries split into those that start by `instruction` and those that start after it, the
/// last of the former is the one in force.
proof fn lemma_in_force_is_the_boundary(table: Seq<(u32, u32)>, instruction: int, boundary: int)
    requires
        0 <= boundary <= table.len(),
        forall|i: int| 0 <= i < boundary ==> (#[trigger] table[i]).0 <= instruction,
        forall|i: int| boundary <= i < table.len() ==> (#[trigger] table[i]).0 > instruction,
    ensures
        in_force(table, instruction) == if boundary == 0 {
            None
        } else {
            Some(table[boundary - 1].1)
        },
    decreases table.len(),
{
    if table.len() > 0 {
        assert(table.last() == table[table.len() - 1]);
        if boundary < table.len() {
            lemma_in_force_is_the_boundary(table.drop_last(), instruction, boundary);
        }
    }
}

/// What is recorded for an instruction is what comes back for it, and for every later instruction
/// until something else is recorded. Every earlier instruction keeps the position it had.
pub proof fn law_a_recorded_position_comes_back(
    table: Seq<(u32, u32)>,
    instruction: u32,
    offset: u32,
    asked: int,
)
    requires
        strictly_ordered(table),
        table.len() > 0 ==> table.last().0 <= instruction,
    ensures
        strictly_ordered(recorded(table, instruction, offset)),
        instruction <= asked ==> in_force(recorded(table, instruction, offset), asked) == Some(
            offset,
        ),
        asked < instruction ==> in_force(recorded(table, instruction, offset), asked) == in_force(
            table,
            asked,
        ),
{
    let after = recorded(table, instruction, offset);
    if table.len() > 0 && table.last().1 == offset {
    } else if table.len() > 0 && table.last().0 == instruction {
        let before = table.drop_last();
        if before.len() > 0 && before.last().1 == offset {
            assert(before.last() == table[table.len() - 2]);
        } else {
            assert(after.drop_last() =~= before);
        }
    } else {
        assert(after.drop_last() =~= table);
    }
}

/// A run of instructions at one position is one entry, whatever was recorded before it: recording
/// keeps every entry at a position other than its neighbours', the instruction an entry starts at has
/// another position than the one in front of it, and recording a position again adds nothing.
pub proof fn law_a_run_at_one_position_is_one_entry(
    table: Seq<(u32, u32)>,
    instruction: u32,
    later: u32,
    offset: u32,
    entry: int,
)
    requires
        strictly_ordered(table),
        one_entry_per_run(table),
        table.len() > 0 ==> table.last().0 <= instruction,
    ensures
        one_entry_per_run(recorded(table, instruction, offset)),
        recorded(recorded(table, instruction, offset), later, offset) == recorded(
            table,
            instruction,
            offset,
        ),
        0 <= entry < table.len() ==> in_force(table, table[entry].0 as int) == Some(table[entry].1),
        0 < entry < table.len() ==> in_force(table, table[entry].0 - 1) == Some(table[entry - 1].1)
            && table[entry - 1].1 != table[entry].1,
        table.len() > 0 ==> in_force(table, table[0].0 - 1) is None,
{
    let after = recorded(table, instruction, offset);
    assert forall|i: int| 0 < i < after.len() implies (#[trigger] after[i]).1 != after[i - 1].1 by {
        if i < table.len() {
            assert(table[i].1 != table[i - 1].1);
        }
    }
    if 0 <= entry < table.len() {
        lemma_in_force_is_the_boundary(table, table[entry].0 as int, entry + 1);
        lemma_in_force_is_the_boundary(table, table[entry].0 - 1, entry);
    }
    if table.len() > 0 {
        lemma_in_force_is_the_boundary(table, table[0].0 - 1, 0);
    }
}

/// A position covers the instructions from the one it was recorded for up to the next entry, and the
/// instructions in front of the first entry have none.
pub proof fn law_a_position_covers_up_to_the_next(
    table: Seq<(u32, u32)>,
    entry: int,
    instruction: int,
)
    requires
        strictly_ordered(table),
    ensures
        0 <= entry < table.len() && table[entry].0 <= instruction && (entry + 1 < table.len()
            ==> instruction < table[entry + 1].0) ==> in_force(table, instruction) == Some(
            table[entry].1,
        ),
        table.len() == 0 || instruction < table[0].0 ==> in_force(table, instruction) is None,
{
    if 0 <= entry < table.len() && table[entry].0 <= instruction && (entry + 1 < table.len()
        ==> instruction < table[entry + 1].0) {
        lemma_in_force_is_the_boundary(table, instruction, entry + 1);
    }
    if table.len() == 0 || instruction < table[0].0 {
        lemma_in_force_is_the_boundary(table, instruction, 0);
    }
}

} // verus!
