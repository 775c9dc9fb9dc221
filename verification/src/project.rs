//! Running totals: the lines counted for one code unit, and the sums over
//! the units of a file or of a whole project.

use vstd::prelude::*;
use crate::code_unit::UnitKind;
use crate::score::{LIMIT, WCC_COMPLEXITY_THRESHOLD};

verus! {

/// The lines counted for one code unit of one file.
#[derive(Debug, Clone, Copy, PartialEq, Eq, Structural)]
pub struct SpaceData {
    /// Executable lines attributed to the unit.
    pub ploc: u64,
    /// Those of them that were run at least once.
    pub covered_lines: u64,
    /// Cyclomatic complexity of the unit.
    pub cyclomatic_complexity: u64,
    /// Cognitive complexity of the unit.
    pub cognitive_complexity: u64,
    /// The kind of the unit.
    pub kind: UnitKind,
}

impl SpaceData {
    /// No more lines are covered than counted.
    pub open spec fn consistent(&self) -> bool {
        self.covered_lines <= self.ploc
    }

    /// The counts are small enough for scores to be computed.
    pub open spec fn in_range(&self) -> bool {
        &&& self.ploc <= LIMIT
        &&& self.cyclomatic_complexity <= LIMIT
        &&& self.cognitive_complexity <= LIMIT
    }
}

/// Sums over code units, as mathematical integers.
pub struct Totals {
    /// Number of code units.
    pub num_spaces: nat,
    /// Executable lines.
    pub ploc: nat,
    /// Covered lines.
    pub covered_lines: nat,
    /// Covered lines of the units of low cyclomatic complexity.
    pub wcc_cyclomatic_coverage: nat,
    /// Covered lines of the units of low cognitive complexity.
    pub wcc_cognitive_coverage: nat,
    /// Summed cyclomatic complexity.
    pub cyclomatic_complexity: nat,
    /// Summed cognitive complexity.
    pub cognitive_complexity: nat,
}

impl Totals {
    /// The totals of nothing.
    pub open spec fn zero() -> Totals {
        Totals {
            num_spaces: 0,
            ploc: 0,
            covered_lines: 0,
            wcc_cyclomatic_coverage: 0,
            wcc_cognitive_coverage: 0,
            cyclomatic_complexity: 0,
            cognitive_complexity: 0,
        }
    }

    /// Field-wise sum.
    pub open spec fn merge(self, other: Totals) -> Totals {
        Totals {
            num_spaces: self.num_spaces + other.num_spaces,
            ploc: self.ploc + other.ploc,
            covered_lines: self.covered_lines + other.covered_lines,
            wcc_cyclomatic_coverage: self.wcc_cyclomatic_coverage + other.wcc_cyclomatic_coverage,
            wcc_cognitive_coverage: self.wcc_cognitive_coverage + other.wcc_cognitive_coverage,
            cyclomatic_complexity: self.cyclomatic_complexity + other.cyclomatic_complexity,
            cognitive_complexity: self.cognitive_complexity + other.cognitive_complexity,
        }
    }

    /// The totals after the lines of one more code unit are added. The
    /// covered lines of a unit count towards the weighted coverage of a
    /// dimension only if the unit's complexity in it is within the threshold.
    pub open spec fn add_space(self, space: SpaceData) -> Totals {
        Totals {
            num_spaces: self.num_spaces,
            ploc: self.ploc + space.ploc as nat,
            covered_lines: self.covered_lines + space.covered_lines as nat,
            wcc_cyclomatic_coverage: if space.cyclomatic_complexity <= WCC_COMPLEXITY_THRESHOLD {
                self.wcc_cyclomatic_coverage + space.covered_lines as nat
            } else {
                self.wcc_cyclomatic_coverage
            },
            wcc_cognitive_coverage: if space.cognitive_complexity <= WCC_COMPLEXITY_THRESHOLD {
                self.wcc_cognitive_coverage + space.covered_lines as nat
            } else {
                self.wcc_cognitive_coverage
            },
            cyclomatic_complexity: self.cyclomatic_complexity + space.cyclomatic_complexity as nat,
            cognitive_complexity: self.cognitive_complexity + space.cognitive_complexity as nat,
        }
    }

    /// No more lines are covered than counted, and no more of them rewarded
    /// than covered.
    pub open spec fn consistent(self) -> bool {
        &&& self.covered_lines <= self.ploc
        &&& self.wcc_cyclomatic_coverage <= self.covered_lines
        &&& self.wcc_cognitive_coverage <= self.covered_lines
    }

    /// Every sum is at most `LIMIT`, so that scores can be computed.
    pub open spec fn in_range(self) -> bool {
        &&& self.num_spaces <= LIMIT
        &&& self.ploc <= LIMIT
        &&& self.covered_lines <= LIMIT
        &&& self.wcc_cyclomatic_coverage <= LIMIT
        &&& self.wcc_cognitive_coverage <= LIMIT
        &&& self.cyclomatic_complexity <= LIMIT
        &&& self.cognitive_complexity <= LIMIT
    }

    /// Every sum fits a `u64`.
    pub open spec fn fits(self) -> bool {
        &&& self.num_spaces <= u64::MAX
        &&& self.ploc <= u64::MAX
        &&& self.covered_lines <= u64::MAX
        &&& self.wcc_cyclomatic_coverage <= u64::MAX
        &&& self.wcc_cognitive_coverage <= u64::MAX
        &&& self.cyclomatic_complexity <= u64::MAX
        &&& self.cognitive_complexity <= u64::MAX
    }

    /// Every sum of `self` is at most that of `other`.
    pub open spec fn le(self, other: Totals) -> bool {
        &&& self.num_spaces <= other.num_spaces
        &&& self.ploc <= other.ploc
        &&& self.covered_lines <= other.covered_lines
        &&& self.wcc_cyclomatic_coverage <= other.wcc_cyclomatic_coverage
        &&& self.wcc_cognitive_coverage <= other.wcc_cognitive_coverage
        &&& self.cyclomatic_complexity <= other.cyclomatic_complexity
        &&& self.cognitive_complexity <= other.cognitive_complexity
    }
}

/// The totals of all of `parts`, merged from left to right.
pub open spec fn merge_all(parts: Seq<Totals>) -> Totals
    decreases parts.len(),
{
    if parts.len() == 0 {
        Totals::zero()
    } else {
        merge_all(parts.drop_last()).merge(parts.last())
    }
}

/// The totals of a sequence of groups, each merged on its own.
pub open spec fn merge_each(groups: Seq<Seq<Totals>>) -> Seq<Totals> {
    Seq::new(groups.len(), |i: int| merge_all(groups[i]))
}

/// All groups, one after the other.
pub open spec fn concat_all(groups: Seq<Seq<Totals>>) -> Seq<Totals>
    decreases groups.len(),
{
    if groups.len() == 0 {
        Seq::empty()
    } else {
        concat_all(groups.drop_last()) + groups.last()
    }
}

/// Merging is commutative.
pub proof fn lemma_merge_commutative(a: Totals, b: Totals)
    ensures
        a.merge(b) == b.merge(a),
{
}

/// Merging is associative.
pub proof fn lemma_merge_associative(a: Totals, b: Totals, c: Totals)
    ensures
        a.merge(b).merge(c) == a.merge(b.merge(c)),
{
}

/// Merging nothing changes nothing.
pub proof fn lemma_merge_zero(a: Totals)
    ensures
        a.merge(Totals::zero()) == a,
        Totals::zero().merge(a) == a,
{
}

/// Merging two sequences one after the other is merging their totals.
pub proof fn lemma_merge_all_concat(a: Seq<Totals>, b: Seq<Totals>)
    ensures
        merge_all(a + b) == merge_all(a).merge(merge_all(b)),
    decreases b.len(),
{
    if b.len() == 0 {
        assert(a + b =~= a);
    } else {
        assert((a + b).drop_last() =~= a + b.drop_last());
        assert((a + b).last() == b.last());
        lemma_merge_all_concat(a, b.drop_last());
    }
}

/// Merging each group on its own and then the results is merging all parts
/// in one pass.
pub proof fn lemma_merge_all_groups(groups: Seq<Seq<Totals>>)
    ensures
        merge_all(merge_each(groups)) == merge_all(concat_all(groups)),
    decreases groups.len(),
{
    if groups.len() > 0 {
        let front = groups.drop_last();
        assert(merge_each(groups).drop_last() =~= merge_each(front));
        assert(merge_each(groups).last() == merge_all(groups.last()));
        lemma_merge_all_groups(front);
        lemma_merge_all_concat(concat_all(front), groups.last());
    }
}

/// The total does not depend on the position of a part.
pub proof fn lemma_merge_all_remove(parts: Seq<Totals>, i: int)
    requires
        0 <= i < parts.len(),
    ensures
        merge_all(parts) == merge_all(parts.remove(i)).merge(parts[i]),
{
    let head = parts.take(i);
    let tail = parts.skip(i + 1);
    let one = seq![parts[i]];
    assert(parts =~= head + one + tail);
    assert(parts.remove(i) =~= head + tail);
    lemma_merge_all_concat(head + one, tail);
    lemma_merge_all_concat(head, one);
    lemma_merge_all_concat(head, tail);
    assert(one.drop_last() =~= Seq::<Totals>::empty());
    assert(merge_all(one.drop_last()) == Totals::zero());
    assert(one.last() == parts[i]);
    assert(merge_all(one) == Totals::zero().merge(parts[i]));
}

/// The total does not depend on the order of the parts.
pub proof fn lemma_merge_all_permutation(a: Seq<Totals>, b: Seq<Totals>)
    requires
        a.to_multiset() == b.to_multiset(),
    ensures
        merge_all(a) == merge_all(b),
    decreases a.len(),
{
    broadcast use vstd::seq_lib::group_to_multiset_ensures;

    a.to_multiset_ensures();
    b.to_multiset_ensures();
    if a.len() == 0 {
        assert(b.len() == 0);
    } else {
        let x = a.last();
        assert(a.to_multiset().count(x) > 0) by {
            assert(a.contains(x));
        }
        assert(b.contains(x));
        let j = choose|j: int| 0 <= j < b.len() && b[j] == x;
        let a1 = a.drop_last();
        let b1 = b.remove(j);
        assert(a1 =~= a.remove(a.len() - 1));
        assert(a1.to_multiset() =~= a.to_multiset().remove(x));
        assert(b1.to_multiset() =~= b.to_multiset().remove(x));
        lemma_merge_all_permutation(a1, b1);
        lemma_merge_all_remove(b, j);
    }
}

/// However the parts are split into groups and in whatever order, merging
/// each group on its own and then the results gives the total of all parts.
pub proof fn lemma_merge_partition(parts: Seq<Totals>, groups: Seq<Seq<Totals>>)
    requires
        concat_all(groups).to_multiset() == parts.to_multiset(),
    ensures
        merge_all(merge_each(groups)) == merge_all(parts),
{
    lemma_merge_all_groups(groups);
    lemma_merge_all_permutation(concat_all(groups), parts);
}

/// The total of a prefix is at most the total of the whole.
pub proof fn lemma_merge_all_prefix(parts: Seq<Totals>, n: int)
    requires
        0 <= n <= parts.len(),
    ensures
        merge_all(parts.take(n)).le(merge_all(parts)),
    decreases parts.len() - n,
{
    if n == parts.len() {
        assert(parts.take(n) =~= parts);
    } else {
        lemma_merge_all_prefix(parts, n + 1);
        assert(parts.take(n + 1).drop_last() =~= parts.take(n));
    }
}

/// Sums over the code units of a file, of the files of a worker, or of a
/// whole project.
#[derive(Debug, Clone, Copy, PartialEq, Eq, Structural)]
pub struct ProjectData {
    /// Number of code units.
    pub num_spaces: u64,
    /// Executable lines.
    pub ploc: u64,
    /// Covered lines.
    pub covered_lines: u64,
    /// Covered lines of the units of low cyclomatic complexity.
    pub wcc_cyclomatic_coverage: u64,
    /// Covered lines of the units of low cognitive complexity.
    pub wcc_cognitive_coverage: u64,
    /// Summed cyclomatic complexity.
    pub cyclomatic_complexity: u64,
    /// Summed cognitive complexity.
    pub cognitive_complexity: u64,
}

impl View for ProjectData {
    type V = Totals;

    open spec fn view(&self) -> Totals {
        Totals {
            num_spaces: self.num_spaces as nat,
            ploc: self.ploc as nat,
            covered_lines: self.covered_lines as nat,
            wcc_cyclomatic_coverage: self.wcc_cyclomatic_coverage as nat,
            wcc_cognitive_coverage: self.wcc_cognitive_coverage as nat,
            cyclomatic_complexity: self.cyclomatic_complexity as nat,
            cognitive_complexity: self.cognitive_complexity as nat,
        }
    }
}

/// The totals of each of `parts`.
pub open spec fn views_of(parts: Seq<ProjectData>) -> Seq<Totals> {
    Seq::new(parts.len(), |i: int| parts[i]@)
}

impl ProjectData {
    /// Totals of `num_spaces` code units of which no line is counted yet.
    pub fn new(num_spaces: u64) -> (data: ProjectData)
        ensures
            data@ == (Totals { num_spaces: num_spaces as nat, ..Totals::zero() }),
    {
        ProjectData {
            num_spaces,
            ploc: 0,
            covered_lines: 0,
            wcc_cyclomatic_coverage: 0,
            wcc_cognitive_coverage: 0,
            cyclomatic_complexity: 0,
            cognitive_complexity: 0,
        }
    }

    /// Whether every sum is at most `LIMIT`.
    pub fn is_in_range(&self) -> (yes: bool)
        ensures
            yes == self@.in_range(),
    {
        self.num_spaces <= LIMIT && self.ploc <= LIMIT && self.covered_lines <= LIMIT
            && self.wcc_cyclomatic_coverage <= LIMIT && self.wcc_cognitive_coverage <= LIMIT
            && self.cyclomatic_complexity <= LIMIT && self.cognitive_complexity <= LIMIT
    }

    /// Whether no more lines are covered than counted, and no more of them
    /// rewarded than covered.
    pub fn is_consistent(&self) -> (yes: bool)
        ensures
            yes == self@.consistent(),
    {
        self.covered_lines <= self.ploc && self.wcc_cyclomatic_coverage <= self.covered_lines
            && self.wcc_cognitive_coverage <= self.covered_lines
    }

    /// Adds the lines of one code unit.
    pub fn update(&mut self, space_data: &SpaceData)
        requires
            old(self)@.add_space(*space_data).fits(),
        ensures
            final(self)@ == old(self)@.add_space(*space_data),
    {
        self.covered_lines += space_data.covered_lines;
        if space_data.cyclomatic_complexity <= WCC_COMPLEXITY_THRESHOLD {
            self.wcc_cyclomatic_coverage += space_data.covered_lines;
        }
        if space_data.cognitive_complexity <= WCC_COMPLEXITY_THRESHOLD {
            self.wcc_cognitive_coverage += space_data.covered_lines;
        }
        self.ploc += space_data.ploc;
        self.cyclomatic_complexity += space_data.cyclomatic_complexity;
        self.cognitive_complexity += space_data.cognitive_complexity;
    }

    /// Adds the totals of `other`, field by field.
    pub fn merge(&mut self, other: ProjectData)
        requires
            old(self)@.merge(other@).fits(),
        ensures
            final(self)@ == old(self)@.merge(other@),
    {
        self.num_spaces += other.num_spaces;
        self.ploc += other.ploc;
        self.covered_lines += other.covered_lines;
        self.wcc_cyclomatic_coverage += other.wcc_cyclomatic_coverage;
        self.wcc_cognitive_coverage += other.wcc_cognitive_coverage;
        self.cyclomatic_complexity += other.cyclomatic_complexity;
        self.cognitive_complexity += other.cognitive_complexity;
    }

    /// The totals of all of `parts`, unless one of the sums exceeds `LIMIT`.
    pub fn merge_parts(parts: &Vec<ProjectData>) -> (total: Option<ProjectData>)
        ensures
            total.is_some() <==> merge_all(views_of(parts@)).in_range(),
            total matches Some(t) ==> t@ == merge_all(views_of(parts@)),
    {
        let mut total = ProjectData::new(0);
        let mut i: usize = 0;
        while i < parts.len()
            invariant
                i <= parts@.len(),
                total@ == merge_all(views_of(parts@).take(i as int)),
                total@.in_range(),
            decreases parts@.len() - i,
        {
            proof {
                lemma_merge_all_prefix(views_of(parts@), i as int + 1);
                assert(views_of(parts@).take(i as int + 1).drop_last() =~= views_of(parts@).take(
                    i as int,
                ));
            }
            if !parts[i].is_in_range() {
                return None;
            }
            total.merge(parts[i]);
            if !total.is_in_range() {
                return None;
            }
            i += 1;
        }
        proof {
            assert(views_of(parts@).take(i as int) =~= views_of(parts@));
        }
        Some(total)
    }
}

impl Default for ProjectData {
    fn default() -> (data: ProjectData)
        ensures
            data@ == Totals::zero(),
    {
        ProjectData::new(0)
    }
}

} // verus!
