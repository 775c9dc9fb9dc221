//! Code units and line attribution.
//!
//! A source file is a tree of code units: the file itself, its functions and
//! the blocks nested in them. A covered line belongs to the innermost unit
//! that encloses it.

use vstd::prelude::*;
use vstd::string::*;

verus! {

/// The kind of a code unit.
#[derive(Debug, Clone, Copy, PartialEq, Eq, Structural)]
pub enum UnitKind {
    /// A whole source file.
    File,
    /// A function.
    Function,
    /// Any other lexical scope.
    Other,
}

/// A lexical scope of a source file, with the scopes nested in it.
#[derive(Debug)]
pub struct CodeUnit {
    /// The kind of the unit.
    pub kind: UnitKind,
    /// The name of the unit, if one could be read.
    pub name: Option<String>,
    /// The first line of the unit, counted from 1.
    pub start_line: usize,
    /// The last line of the unit, counted from 1.
    pub end_line: usize,
    /// Cyclomatic complexity, summed over the unit and its descendants.
    pub cyclomatic_sum: u64,
    /// Cognitive complexity, summed over the unit and its descendants.
    pub cognitive_sum: u64,
    /// The units nested directly in this one.
    pub children: Vec<CodeUnit>,
}

/// The index of the first unit from `from` on that holds `line`, or the
/// length of `units` if there is none.
pub open spec fn first_holder(units: Seq<CodeUnit>, line: int, from: int) -> int
    decreases units.len() - from,
{
    if from < 0 || from >= units.len() {
        units.len() as int
    } else if units[from].holds_line(line) {
        from
    } else {
        first_holder(units, line, from + 1)
    }
}

/// The innermost unit below `unit` that holds `line`: `unit` itself if none
/// of its children holds the line, else the innermost one below the child
/// that does.
pub open spec fn innermost(unit: CodeUnit, line: int) -> CodeUnit
    decreases unit,
{
    let k = first_holder(unit.children@, line, 0);
    if 0 <= k < unit.children@.len() {
        innermost(unit.children@[k], line)
    } else {
        unit
    }
}

/// The digits of `n` in base ten, without leading zeros.
pub open spec fn decimal(n: nat) -> Seq<char>
    decreases n,
{
    if n < 10 {
        seq![(('0' as u8) + (n as u8)) as char]
    } else {
        decimal(n / 10).push((('0' as u8) + ((n % 10) as u8)) as char)
    }
}

/// The key under which a unit is counted: `name(start, end)`.
pub open spec fn space_key(name: Seq<char>, start_line: nat, end_line: nat) -> Seq<char> {
    name + "("@ + decimal(start_line) + ", "@ + decimal(end_line) + ")"@
}

impl CodeUnit {
    /// Whether a parent attributes the line with the 0-based index `line`
    /// to this unit: the line lies after the unit's first line and not after
    /// its last.
    pub open spec fn holds_line(&self, line: int) -> bool {
        self.start_line < line && line <= self.end_line
    }

    /// Whether the file attributes the line with the 0-based index `line`
    /// to its root unit: the line lies between the unit's first and last line.
    pub open spec fn covers_line(&self, line: int) -> bool {
        self.start_line <= line + 1 && line < self.end_line
    }

    /// The ranges of siblings never overlap, and the range of a child lies
    /// within that of its parent.
    pub open spec fn well_formed(&self) -> bool
        decreases self,
    {
        &&& self.start_line <= self.end_line
        &&& forall|i: int|
            0 <= i < self.children@.len() ==> {
                &&& (#[trigger] self.children@[i]).well_formed()
                &&& self.start_line <= self.children@[i].start_line
                &&& self.children@[i].end_line <= self.end_line
            }
        &&& forall|i: int, j: int|
            0 <= i < j < self.children@.len() ==> {
                ||| (#[trigger] self.children@[i]).end_line < (#[trigger] self.children@[j]).start_line
                ||| self.children@[j].end_line < self.children@[i].start_line
            }
    }

    /// The key of the unit, if it has a name.
    pub open spec fn key(&self) -> Option<Seq<char>> {
        match self.name {
            Some(name) => Some(space_key(name@, self.start_line as nat, self.end_line as nat)),
            None => None,
        }
    }
}

/// `first_holder` returns the first index at which a unit holds the line.
pub proof fn lemma_first_holder(units: Seq<CodeUnit>, line: int, from: int)
    requires
        0 <= from <= units.len(),
    ensures
        from <= first_holder(units, line, from) <= units.len(),
        first_holder(units, line, from) < units.len() ==> units[first_holder(
            units,
            line,
            from,
        )].holds_line(line),
        forall|i: int| from <= i < first_holder(units, line, from) ==> !units[i].holds_line(line),
    decreases units.len() - from,
{
    if from < units.len() && !units[from].holds_line(line) {
        lemma_first_holder(units, line, from + 1);
    }
}

/// Among the children of a well-formed unit at most one holds a given line,
/// so the order in which they are tried does not matter.
pub proof fn lemma_single_holder(unit: CodeUnit, line: int, i: int, j: int)
    requires
        unit.well_formed(),
        0 <= i < unit.children@.len(),
        0 <= j < unit.children@.len(),
        unit.children@[i].holds_line(line),
        unit.children@[j].holds_line(line),
    ensures
        i == j,
{
    if i < j {
        assert(unit.children@[i].end_line < unit.children@[j].start_line
            || unit.children@[j].end_line < unit.children@[i].start_line);
    } else if j < i {
        assert(unit.children@[j].end_line < unit.children@[i].start_line
            || unit.children@[i].end_line < unit.children@[j].start_line);
    }
}

/// The innermost unit has no child that holds the line: it is of maximal
/// depth.
pub proof fn lemma_innermost_is_deepest(unit: CodeUnit, line: int, i: int)
    requires
        0 <= i < innermost(unit, line).children@.len(),
    ensures
        !innermost(unit, line).children@[i].holds_line(line),
    decreases unit,
{
    let k = first_holder(unit.children@, line, 0);
    lemma_first_holder(unit.children@, line, 0);
    if 0 <= k < unit.children@.len() {
        lemma_innermost_is_deepest(unit.children@[k], line, i);
    }
}

/// The innermost unit is the root itself or holds the line.
pub proof fn lemma_innermost_holds_line(unit: CodeUnit, line: int)
    ensures
        innermost(unit, line) == unit || innermost(unit, line).holds_line(line),
    decreases unit,
{
    let k = first_holder(unit.children@, line, 0);
    lemma_first_holder(unit.children@, line, 0);
    if 0 <= k < unit.children@.len() {
        lemma_innermost_holds_line(unit.children@[k], line);
    }
}

/// Below a well-formed unit, the innermost unit is reached through any
/// child that holds the line.
pub proof fn lemma_innermost_through_any_holder(unit: CodeUnit, line: int, i: int)
    requires
        unit.well_formed(),
        0 <= i < unit.children@.len(),
        unit.children@[i].holds_line(line),
    ensures
        innermost(unit, line) == innermost(unit.children@[i], line),
{
    let k = first_holder(unit.children@, line, 0);
    lemma_first_holder(unit.children@, line, 0);
    lemma_single_holder(unit, line, i, k);
}

/// The index of the first child of `unit` that holds `line`.
fn find_holder(unit: &CodeUnit, line: usize) -> (found: Option<usize>)
    ensures
        match found {
            Some(k) => k < unit.children@.len() && k == first_holder(
                unit.children@,
                line as int,
                0,
            ),
            None => first_holder(unit.children@, line as int, 0) == unit.children@.len(),
        },
{
    let mut k: usize = 0;
    while k < unit.children.len()
        invariant
            k <= unit.children@.len(),
            first_holder(unit.children@, line as int, 0) == first_holder(
                unit.children@,
                line as int,
                k as int,
            ),
        decreases unit.children@.len() - k,
    {
        let child = &unit.children[k];
        if child.start_line < line && line <= child.end_line {
            return Some(k);
        }
        k += 1;
    }
    None
}

/// The innermost code unit below `root` that encloses the line with the
/// 0-based index `line`; `root` itself where no child encloses it.
pub fn get_line_space(root: &CodeUnit, line: usize) -> (space: &CodeUnit)
    ensures
        *space == innermost(*root, line as int),
    decreases *root,
{
    match find_holder(root, line) {
        Some(k) => get_line_space(&root.children[k], line),
        None => root,
    }
}

/// The decimal digits of `n`.
///
/// Calls `ToString::to_string` of std on a `usize`: the contract claims that
/// the text is the number in base ten, without sign or leading zeros.
#[verifier::external_body]
fn decimal_string(n: usize) -> (text: String)
    ensures
        text@ == decimal(n as nat),
{
    n.to_string()
}

/// The key under which the lines of `space` are counted, `name(start, end)`;
/// none for a unit without a name.
pub fn get_space_name(space: &CodeUnit) -> (name: Option<String>)
    ensures
        match name {
            Some(key) => space.key() == Some(key@),
            None => space.key().is_none(),
        },
{
    match &space.name {
        None => None,
        Some(name) => {
            let mut key = name.clone();
            key.append("(");
            key.append(decimal_string(space.start_line).as_str());
            key.append(", ");
            key.append(decimal_string(space.end_line).as_str());
            key.append(")");
            Some(key)
        },
    }
}

} // verus!
