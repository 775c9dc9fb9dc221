//! The lines of one file, counted per code unit.
//!
//! Every executable line of a file is attributed to the innermost code unit
//! that encloses it. The counts are kept per unit, in the order in which the
//! units are first met.

use vstd::prelude::*;
use vstd::string::*;
use crate::code_unit::{get_line_space, get_space_name, innermost, CodeUnit};
use crate::project::SpaceData;

verus! {

/// The counts of one code unit, under the unit's key.
#[derive(Debug)]
pub struct SpaceEntry {
    /// The key of the unit.
    pub name: String,
    /// The lines counted for it.
    pub data: SpaceData,
}

/// The counts of one code unit, seen mathematically.
pub struct SpaceRow {
    /// The key of the unit.
    pub name: Seq<char>,
    /// The lines counted for it.
    pub data: SpaceData,
}

impl View for SpaceEntry {
    type V = SpaceRow;

    open spec fn view(&self) -> SpaceRow {
        SpaceRow { name: self.name@, data: self.data }
    }
}

/// The counts of the code units of one file.
#[derive(Debug)]
pub struct SpaceTable {
    entries: Vec<SpaceEntry>,
}

impl View for SpaceTable {
    type V = Seq<SpaceRow>;

    closed spec fn view(&self) -> Seq<SpaceRow> {
        Seq::new(self.entries@.len(), |i: int| self.entries@[i]@)
    }
}

/// The index of the first row from `from` on with the given key, or the
/// number of rows if there is none.
pub open spec fn position(rows: Seq<SpaceRow>, key: Seq<char>, from: int) -> int
    decreases rows.len() - from,
{
    if from < 0 || from >= rows.len() {
        rows.len() as int
    } else if rows[from].name == key {
        from
    } else {
        position(rows, key, from + 1)
    }
}

/// The counts of a unit after one more of its lines is counted.
pub open spec fn with_line(data: SpaceData, covered: bool) -> SpaceData {
    SpaceData {
        ploc: (data.ploc + 1) as u64,
        covered_lines: if covered {
            (data.covered_lines + 1) as u64
        } else {
            data.covered_lines
        },
        ..data
    }
}

/// The counts of a unit of which one line is counted.
pub open spec fn first_line(unit: CodeUnit, covered: bool) -> SpaceData {
    SpaceData {
        ploc: 1,
        covered_lines: if covered {
            1
        } else {
            0
        },
        cyclomatic_complexity: unit.cyclomatic_sum,
        cognitive_complexity: unit.cognitive_sum,
        kind: unit.kind,
    }
}

/// The rows after one line of `unit` is counted: a unit without a name is
/// not counted, a unit that has a row gets the line added, and any other
/// unit gets a new row at the end.
pub open spec fn record_line(rows: Seq<SpaceRow>, unit: CodeUnit, covered: bool) -> Seq<SpaceRow> {
    match unit.key() {
        None => rows,
        Some(key) => {
            let k = position(rows, key, 0);
            if 0 <= k < rows.len() {
                rows.update(k, SpaceRow { name: key, data: with_line(rows[k].data, covered) })
            } else {
                rows.push(SpaceRow { name: key, data: first_line(unit, covered) })
            }
        },
    }
}

/// The rows after the first `n` lines of a file are counted. A line counts
/// if it is executable and lies within the root unit; it is covered if it
/// was run at least once.
pub open spec fn spaces_of(root: CodeUnit, lines: Seq<Option<i64>>, n: int) -> Seq<SpaceRow>
    decreases n,
{
    if n <= 0 {
        Seq::empty()
    } else {
        let before = spaces_of(root, lines, n - 1);
        match lines[n - 1] {
            Some(hits) if root.covers_line(n - 1) => record_line(
                before,
                innermost(root, n - 1),
                hits > 0,
            ),
            _ => before,
        }
    }
}

/// In every row at most `n` lines are counted, and no more covered than
/// counted.
pub open spec fn counts_within(rows: Seq<SpaceRow>, n: nat) -> bool {
    forall|k: int|
        0 <= k < rows.len() ==> (#[trigger] rows[k]).data.covered_lines <= rows[k].data.ploc
            <= n
}

/// `position` returns the first index at which a row has the key.
pub proof fn lemma_position(rows: Seq<SpaceRow>, key: Seq<char>, from: int)
    requires
        0 <= from <= rows.len(),
    ensures
        from <= position(rows, key, from) <= rows.len(),
        position(rows, key, from) < rows.len() ==> rows[position(rows, key, from)].name == key,
        forall|i: int| from <= i < position(rows, key, from) ==> rows[i].name != key,
    decreases rows.len() - from,
{
    if from < rows.len() && rows[from].name != key {
        lemma_position(rows, key, from + 1);
    }
}

/// Counting one more line keeps every row within one more line.
pub proof fn lemma_record_line_counts(rows: Seq<SpaceRow>, unit: CodeUnit, covered: bool, n: nat)
    requires
        counts_within(rows, n),
        n < u64::MAX,
    ensures
        counts_within(record_line(rows, unit, covered), n + 1),
{
    if let Some(key) = unit.key() {
        lemma_position(rows, key, 0);
        let k = position(rows, key, 0);
        let after = record_line(rows, unit, covered);
        assert forall|j: int| 0 <= j < after.len() implies (#[trigger] after[j]).data.covered_lines
            <= after[j].data.ploc <= n + 1 by {
            if j < rows.len() && j != k {
                assert(after[j] == rows[j]);
            } else if j < rows.len() {
                assert(rows[k].data.ploc <= n);
            }
        }
    } else {
        assert forall|j: int| 0 <= j < rows.len() implies (#[trigger] rows[j]).data.covered_lines
            <= rows[j].data.ploc <= n + 1 by {}
    }
}

/// No key occurs in two rows.
pub open spec fn distinct_keys(rows: Seq<SpaceRow>) -> bool {
    forall|i: int, j: int|
        0 <= i < j < rows.len() ==> (#[trigger] rows[i]).name != (#[trigger] rows[j]).name
}

/// Counting a line never gives a key a second row.
pub proof fn lemma_record_line_distinct(rows: Seq<SpaceRow>, unit: CodeUnit, covered: bool)
    requires
        distinct_keys(rows),
    ensures
        distinct_keys(record_line(rows, unit, covered)),
{
    if let Some(key) = unit.key() {
        lemma_position(rows, key, 0);
    }
}

/// Every code unit has at most one row.
pub proof fn lemma_spaces_distinct(root: CodeUnit, lines: Seq<Option<i64>>, n: int)
    ensures
        distinct_keys(spaces_of(root, lines, n)),
    decreases n,
{
    if n > 0 {
        lemma_spaces_distinct(root, lines, n - 1);
        if let Some(hits) = lines[n - 1] {
            lemma_record_line_distinct(
                spaces_of(root, lines, n - 1),
                innermost(root, n - 1),
                hits > 0,
            );
        }
    }
}

impl SpaceTable {
    /// A table without rows.
    pub fn new() -> (table: SpaceTable)
        ensures
            table@ == Seq::<SpaceRow>::empty(),
    {
        let table = SpaceTable { entries: Vec::new() };
        assert(table@ =~= Seq::<SpaceRow>::empty());
        table
    }

    /// The number of rows.
    pub fn len(&self) -> (n: usize)
        ensures
            n == self@.len(),
    {
        self.entries.len()
    }

    /// The key of row `i`.
    pub fn name(&self, i: usize) -> (name: &String)
        requires
            i < self@.len(),
        ensures
            name@ == self@[i as int].name,
    {
        &self.entries[i].name
    }

    /// The counts of row `i`.
    pub fn data(&self, i: usize) -> (data: SpaceData)
        requires
            i < self@.len(),
        ensures
            data == self@[i as int].data,
    {
        self.entries[i].data
    }

    /// The index of the row with the given key.
    fn find(&self, key: &String) -> (found: Option<usize>)
        ensures
            match found {
                Some(k) => k < self@.len() && k == position(self@, key@, 0),
                None => position(self@, key@, 0) == self@.len(),
            },
    {
        let mut k: usize = 0;
        while k < self.entries.len()
            invariant
                k <= self@.len(),
                self@.len() == self.entries@.len(),
                position(self@, key@, 0) == position(self@, key@, k as int),
            decreases self@.len() - k,
        {
            if self.entries[k].name == *key {
                return Some(k);
            }
            k += 1;
        }
        None
    }

    /// Counts one line of `space`, covered or not.
    pub fn update_spaces(&mut self, space: &CodeUnit, line_is_covered: bool)
        requires
            forall|k: int| 0 <= k < old(self)@.len() ==> (#[trigger] old(self)@[k]).data.ploc < u64::MAX,
            forall|k: int|
                0 <= k < old(self)@.len() ==> (#[trigger] old(self)@[k]).data.covered_lines
                    < u64::MAX,
        ensures
            final(self)@ == record_line(old(self)@, *space, line_is_covered),
    {
        if let Some(key) = get_space_name(space) {
            match self.find(&key) {
                Some(k) => {
                    let data = self.entries[k].data;
                    assert(data == old(self)@[k as int].data);
                    let covered_lines = if line_is_covered {
                        data.covered_lines + 1
                    } else {
                        data.covered_lines
                    };
                    let entry = SpaceEntry {
                        name: key,
                        data: SpaceData { ploc: data.ploc + 1, covered_lines, ..data },
                    };
                    self.entries.set(k, entry);
                    assert(self@ =~= record_line(old(self)@, *space, line_is_covered));
                },
                None => {
                    let entry = SpaceEntry {
                        name: key,
                        data: SpaceData {
                            ploc: 1,
                            covered_lines: if line_is_covered {
                                1
                            } else {
                                0
                            },
                            cyclomatic_complexity: space.cyclomatic_sum,
                            cognitive_complexity: space.cognitive_sum,
                            kind: space.kind,
                        },
                    };
                    self.entries.push(entry);
                    assert(self@ =~= record_line(old(self)@, *space, line_is_covered));
                },
            }
        }
    }
}

/// Counts the executable lines of a file per code unit: each line that the
/// root unit covers goes to the innermost unit that encloses it.
pub fn get_spaces(root: &CodeUnit, lines_coverage: &[Option<i64>]) -> (spaces: SpaceTable)
    ensures
        spaces@ == spaces_of(*root, lines_coverage@, lines_coverage@.len() as int),
        counts_within(spaces@, lines_coverage@.len()),
        distinct_keys(spaces@),
{
    let mut spaces = SpaceTable::new();
    let mut line: usize = 0;
    while line < lines_coverage.len()
        invariant
            line <= lines_coverage@.len(),
            spaces@ == spaces_of(*root, lines_coverage@, line as int),
            counts_within(spaces@, line as nat),
        decreases lines_coverage@.len() - line,
    {
        if let Some(hits) = lines_coverage[line] {
            if root.start_line <= line + 1 && line < root.end_line {
                let space = get_line_space(root, line);
                proof {
                    lemma_record_line_counts(spaces@, *space, hits > 0, line as nat);
                }
                spaces.update_spaces(space, hits > 0);
            }
        }
        proof {
            let after = spaces_of(*root, lines_coverage@, line as int + 1);
            assert(counts_within(after, line as nat + 1)) by {
                if after == spaces_of(*root, lines_coverage@, line as int) {
                    assert forall|k: int| 0 <= k < after.len() implies (
                    #[trigger] after[k]).data.covered_lines <= after[k].data.ploc <= line + 1 by {}
                }
            }
        }
        line += 1;
    }
    proof {
        lemma_spaces_distinct(*root, lines_coverage@, lines_coverage@.len() as int);
    }
    spaces
}

} // verus!
