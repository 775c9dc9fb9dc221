//! The scores of one scope: a file, a function, or a row of the project
//! summary.

use vstd::prelude::*;
use crate::options::{Complexity, Thresholds};
use crate::permutation::{lemma_fold_permutation, order_free};
use crate::project::{ProjectData, SpaceData, Totals};
use crate::score::{
    average, average_complexity, average_spec, complexity_spec, crap, crap_spec, skunk,
    skunk_spec, lemma_complexity_bound, wcc, wcc_function, wcc_function_spec, wcc_spec,
    SCORE_LIMIT,
    WCC_COMPLEXITY_THRESHOLD,
};

verus! {

/// The limits beyond which a scope counts as complex, in hundredths: a floor
/// for the weighted coverage and, per complexity dimension, a ceiling for
/// CRAP and for SKUNK.
#[derive(Debug, Clone, Copy, PartialEq, Eq, Structural)]
pub struct MetricsThresholds {
    /// Floor of the weighted coverage.
    pub wcc: u64,
    /// Ceiling of CRAP for cyclomatic complexity.
    pub crap_cyclomatic: u64,
    /// Ceiling of CRAP for cognitive complexity.
    pub crap_cognitive: u64,
    /// Ceiling of SKUNK for cyclomatic complexity.
    pub skunk_cyclomatic: u64,
    /// Ceiling of SKUNK for cognitive complexity.
    pub skunk_cognitive: u64,
}

/// The CRAP score of a unit of complexity `complexity / 100` that is covered
/// to three fifths.
pub open spec fn crap_ceiling(complexity: nat) -> nat {
    crap_spec(3, 5, complexity, 100)
}

/// The SKUNK score of a unit of complexity `complexity / 100` that is
/// covered to three fifths.
pub open spec fn skunk_ceiling(complexity: nat) -> nat {
    skunk_spec(3, 5, complexity, 100)
}

impl MetricsThresholds {
    /// The ceiling of CRAP in a dimension.
    pub open spec fn crap_of(&self, dimension: Complexity) -> u64 {
        match dimension {
            Complexity::Cyclomatic => self.crap_cyclomatic,
            Complexity::Cognitive => self.crap_cognitive,
        }
    }

    /// The ceiling of SKUNK in a dimension.
    pub open spec fn skunk_of(&self, dimension: Complexity) -> u64 {
        match dimension {
            Complexity::Cyclomatic => self.skunk_cyclomatic,
            Complexity::Cognitive => self.skunk_cognitive,
        }
    }

    /// A scope is complex if its weighted coverage is under the floor, or
    /// its CRAP or its SKUNK score over the ceiling.
    pub open spec fn is_complex_spec(&self, wcc: u64, crap: u64, skunk: u64, dimension: Complexity)
        -> bool {
        wcc < self.wcc || crap > self.crap_of(dimension) || skunk > self.skunk_of(dimension)
    }

    /// The limits that follow from user thresholds: the ceilings are the
    /// scores that a unit of the threshold complexity has at a coverage of
    /// 60 percent.
    pub fn from(value: Thresholds) -> (limits: MetricsThresholds)
        requires
            value.valid(),
        ensures
            limits.wcc == value.wcc_floor(),
            limits.crap_cyclomatic == crap_ceiling(value.cyclomatic()),
            limits.crap_cognitive == crap_ceiling(value.cognitive()),
            limits.skunk_cyclomatic == skunk_ceiling(value.cyclomatic()),
            limits.skunk_cognitive == skunk_ceiling(value.cognitive()),
    {
        MetricsThresholds {
            wcc: value.wcc(),
            crap_cyclomatic: crap(3, 5, value.cyclomatic_complexity(), 100),
            crap_cognitive: crap(3, 5, value.cognitive_complexity(), 100),
            skunk_cyclomatic: skunk(3, 5, value.cyclomatic_complexity(), 100),
            skunk_cognitive: skunk(3, 5, value.cognitive_complexity(), 100),
        }
    }

    /// Whether scores of the given dimension make a scope complex.
    pub fn is_complex(&self, wcc: u64, crap: u64, skunk: u64, complexity: Complexity) -> (yes:
        bool)
        ensures
            yes == self.is_complex_spec(wcc, crap, skunk, complexity),
    {
        let (crap_threshold, skunk_threshold) = match complexity {
            Complexity::Cyclomatic => (self.crap_cyclomatic, self.skunk_cyclomatic),
            Complexity::Cognitive => (self.crap_cognitive, self.skunk_cognitive),
        };
        wcc < self.wcc || crap > crap_threshold || skunk > skunk_threshold
    }
}

impl Default for MetricsThresholds {
    /// A floor of 60 for the weighted coverage, ceilings of 16.4 for CRAP
    /// and of 16.66 for SKUNK.
    fn default() -> (limits: MetricsThresholds)
        ensures
            limits == (MetricsThresholds {
                wcc: 6000,
                crap_cyclomatic: 1640,
                crap_cognitive: 1640,
                skunk_cyclomatic: 1666,
                skunk_cognitive: 1666,
            }),
    {
        MetricsThresholds {
            wcc: 6000,
            crap_cyclomatic: 1640,
            crap_cognitive: 1640,
            skunk_cyclomatic: 1666,
            skunk_cognitive: 1666,
        }
    }
}

/// A CRAP score over the ceiling makes a scope complex, whatever its other
/// scores; so does a weighted coverage under the floor.
pub proof fn lemma_is_complex_beyond_threshold(
    limits: MetricsThresholds,
    wcc: u64,
    crap: u64,
    skunk: u64,
    dimension: Complexity,
)
    ensures
        crap > limits.crap_of(dimension) ==> limits.is_complex_spec(wcc, crap, skunk, dimension),
        skunk > limits.skunk_of(dimension) ==> limits.is_complex_spec(wcc, crap, skunk, dimension),
        wcc < limits.wcc ==> limits.is_complex_spec(wcc, crap, skunk, dimension),
{
}

/// A complex scope stays complex when its weighted coverage falls or its
/// CRAP or SKUNK score rises.
pub proof fn lemma_is_complex_monotone(
    limits: MetricsThresholds,
    wcc: u64,
    crap: u64,
    skunk: u64,
    lower_wcc: u64,
    higher_crap: u64,
    higher_skunk: u64,
    dimension: Complexity,
)
    requires
        limits.is_complex_spec(wcc, crap, skunk, dimension),
        lower_wcc <= wcc,
        crap <= higher_crap,
        skunk <= higher_skunk,
    ensures
        limits.is_complex_spec(lower_wcc, higher_crap, higher_skunk, dimension),
{
}

/// The scores of one scope in one complexity dimension, in hundredths.
#[derive(Debug, Clone, Copy, PartialEq, Eq, Structural)]
pub struct MetricsData {
    /// Weighted code coverage.
    pub wcc: u64,
    /// CRAP.
    pub crap: u64,
    /// SKUNK.
    pub skunk: u64,
    /// Complexity.
    pub complexity: u64,
    /// Whether one of the scores is beyond its threshold.
    pub is_complex: bool,
}

/// The complexity that `totals` sums up in a dimension.
pub open spec fn complexity_of(totals: Totals, dimension: Complexity) -> nat {
    match dimension {
        Complexity::Cyclomatic => totals.cyclomatic_complexity,
        Complexity::Cognitive => totals.cognitive_complexity,
    }
}

/// The covered lines that count towards the weighted coverage in a
/// dimension.
pub open spec fn rewarded_lines(totals: Totals, dimension: Complexity) -> nat {
    match dimension {
        Complexity::Cyclomatic => totals.wcc_cyclomatic_coverage,
        Complexity::Cognitive => totals.wcc_cognitive_coverage,
    }
}

/// The scores of a scope with the given totals: its complexity is the
/// average over its code units, its weighted coverage the share of lines
/// that are covered within units of low complexity.
pub open spec fn totals_data(totals: Totals, limits: MetricsThresholds, dimension: Complexity)
    -> MetricsData {
    let c = complexity_of(totals, dimension);
    let wcc = wcc_spec(rewarded_lines(totals, dimension), totals.ploc) as u64;
    let crap = crap_spec(totals.covered_lines, totals.ploc, c, totals.num_spaces) as u64;
    let skunk = skunk_spec(totals.covered_lines, totals.ploc, c, totals.num_spaces) as u64;
    MetricsData {
        wcc,
        crap,
        skunk,
        complexity: complexity_spec(c, totals.num_spaces) as u64,
        is_complex: limits.is_complex_spec(wcc, crap, skunk, dimension),
    }
}

/// The complexity of one code unit in a dimension.
pub open spec fn space_complexity(space: SpaceData, dimension: Complexity) -> nat {
    match dimension {
        Complexity::Cyclomatic => space.cyclomatic_complexity as nat,
        Complexity::Cognitive => space.cognitive_complexity as nat,
    }
}

/// The scores of a single function.
pub open spec fn function_data(space: SpaceData, limits: MetricsThresholds, dimension: Complexity)
    -> MetricsData {
    let c = space_complexity(space, dimension);
    let wcc = wcc_function_spec(c, space.covered_lines as nat, space.ploc as nat) as u64;
    let crap = crap_spec(space.covered_lines as nat, space.ploc as nat, c, 1) as u64;
    let skunk = skunk_spec(space.covered_lines as nat, space.ploc as nat, c, 1) as u64;
    MetricsData {
        wcc,
        crap,
        skunk,
        complexity: complexity_spec(c, 1) as u64,
        is_complex: limits.is_complex_spec(wcc, crap, skunk, dimension),
    }
}

/// A function whose complexity exceeds the threshold has no weighted
/// coverage, however many of its lines are covered.
pub proof fn lemma_complexity_gate(space: SpaceData, limits: MetricsThresholds, dimension: Complexity)
    requires
        space_complexity(space, dimension) > WCC_COMPLEXITY_THRESHOLD,
    ensures
        function_data(space, limits, dimension).wcc == 0,
{
}

/// The smaller of two scores.
pub open spec fn min_score(a: u64, b: u64) -> u64 {
    if a <= b {
        a
    } else {
        b
    }
}

/// The larger of two scores.
pub open spec fn max_score(a: u64, b: u64) -> u64 {
    if a >= b {
        a
    } else {
        b
    }
}

/// The smaller of two scores.
fn lower(a: u64, b: u64) -> (r: u64)
    ensures
        r == min_score(a, b),
{
    if a <= b {
        a
    } else {
        b
    }
}

/// The larger of two scores.
fn higher(a: u64, b: u64) -> (r: u64)
    ensures
        r == max_score(a, b),
{
    if a >= b {
        a
    } else {
        b
    }
}

/// Sums of the scores of several scopes in one dimension.
#[derive(Debug, Clone, Copy, PartialEq, Eq, Structural)]
pub struct DataSum {
    /// Summed weighted coverage.
    pub wcc: u128,
    /// Summed CRAP.
    pub crap: u128,
    /// Summed SKUNK.
    pub skunk: u128,
    /// Summed complexity.
    pub complexity: u128,
}

/// Sums of the scores of several scopes in one dimension, as mathematical
/// integers.
pub struct ScoreSums {
    /// Summed weighted coverage.
    pub wcc: nat,
    /// Summed CRAP.
    pub crap: nat,
    /// Summed SKUNK.
    pub skunk: nat,
    /// Summed complexity.
    pub complexity: nat,
}

impl View for DataSum {
    type V = ScoreSums;

    open spec fn view(&self) -> ScoreSums {
        ScoreSums {
            wcc: self.wcc as nat,
            crap: self.crap as nat,
            skunk: self.skunk as nat,
            complexity: self.complexity as nat,
        }
    }
}

impl ScoreSums {
    /// The sums of nothing.
    pub open spec fn zero() -> ScoreSums {
        ScoreSums { wcc: 0, crap: 0, skunk: 0, complexity: 0 }
    }

    /// The sums after the scores of one more scope are added.
    pub open spec fn plus(self, other: MetricsData) -> ScoreSums {
        ScoreSums {
            wcc: self.wcc + other.wcc as nat,
            crap: self.crap + other.crap as nat,
            skunk: self.skunk + other.skunk as nat,
            complexity: self.complexity + other.complexity as nat,
        }
    }

    /// The means of `n` scopes, classified anew.
    pub open spec fn mean(self, n: nat, limits: MetricsThresholds, dimension: Complexity)
        -> MetricsData {
        let wcc = average_spec(self.wcc, n) as u64;
        let crap = average_spec(self.crap, n) as u64;
        let skunk = average_spec(self.skunk, n) as u64;
        MetricsData {
            wcc,
            crap,
            skunk,
            complexity: average_spec(self.complexity, n) as u64,
            is_complex: limits.is_complex_spec(wcc, crap, skunk, dimension),
        }
    }
}

impl DataSum {
    /// Every sum is at most `n` times the largest score.
    pub open spec fn within(&self, n: nat) -> bool {
        &&& self.wcc <= n * u64::MAX
        &&& self.crap <= n * u64::MAX
        &&& self.skunk <= n * u64::MAX
        &&& self.complexity <= n * u64::MAX
    }

    /// One more score can be added to every sum.
    pub open spec fn has_room(&self) -> bool {
        &&& self.wcc <= u128::MAX - u64::MAX
        &&& self.crap <= u128::MAX - u64::MAX
        &&& self.skunk <= u128::MAX - u64::MAX
        &&& self.complexity <= u128::MAX - u64::MAX
    }
}

impl MetricsData {
    /// The scores of one dimension are at most `SCORE_LIMIT`.
    pub open spec fn bounded(&self) -> bool {
        &&& self.wcc <= 10_000
        &&& self.crap <= SCORE_LIMIT
        &&& self.skunk <= SCORE_LIMIT
        &&& self.complexity <= SCORE_LIMIT
    }

    /// The element-wise minimum, classified anew.
    pub open spec fn min_with(self, other: MetricsData, limits: MetricsThresholds, dimension: Complexity)
        -> MetricsData {
        let wcc = min_score(self.wcc, other.wcc);
        let crap = min_score(self.crap, other.crap);
        let skunk = min_score(self.skunk, other.skunk);
        MetricsData {
            wcc,
            crap,
            skunk,
            complexity: min_score(self.complexity, other.complexity),
            is_complex: limits.is_complex_spec(wcc, crap, skunk, dimension),
        }
    }

    /// The element-wise maximum, classified anew.
    pub open spec fn max_with(self, other: MetricsData, limits: MetricsThresholds, dimension: Complexity)
        -> MetricsData {
        let wcc = max_score(self.wcc, other.wcc);
        let crap = max_score(self.crap, other.crap);
        let skunk = max_score(self.skunk, other.skunk);
        MetricsData {
            wcc,
            crap,
            skunk,
            complexity: max_score(self.complexity, other.complexity),
            is_complex: limits.is_complex_spec(wcc, crap, skunk, dimension),
        }
    }

    /// The row from which a minimum starts: every score as large as can be.
    pub open spec fn top() -> MetricsData {
        MetricsData {
            wcc: u64::MAX,
            crap: u64::MAX,
            skunk: u64::MAX,
            complexity: u64::MAX,
            is_complex: false,
        }
    }

    /// The row from which a maximum starts: every score as small as can be.
    pub open spec fn bottom() -> MetricsData {
        MetricsData { wcc: 0, crap: 0, skunk: 0, complexity: 0, is_complex: false }
    }

    /// The scores of a file in one dimension.
    pub fn file(project_data: ProjectData, metrics_thresholds: MetricsThresholds, complexity_type: Complexity)
        -> (data: MetricsData)
        requires
            project_data@.consistent(),
            project_data@.in_range(),
        ensures
            data == totals_data(project_data@, metrics_thresholds, complexity_type),
            data.bounded(),
    {
        let (complexity, wcc_coverage) = match complexity_type {
            Complexity::Cyclomatic => (
                project_data.cyclomatic_complexity,
                project_data.wcc_cyclomatic_coverage,
            ),
            Complexity::Cognitive => (
                project_data.cognitive_complexity,
                project_data.wcc_cognitive_coverage,
            ),
        };
        let wcc = wcc(wcc_coverage, project_data.ploc);
        let crap = crap(
            project_data.covered_lines,
            project_data.ploc,
            complexity,
            project_data.num_spaces,
        );
        let skunk = skunk(
            project_data.covered_lines,
            project_data.ploc,
            complexity,
            project_data.num_spaces,
        );
        proof {
            lemma_complexity_bound(complexity as nat, project_data.num_spaces as nat);
        }
        MetricsData {
            wcc,
            crap,
            skunk,
            complexity: average_complexity(complexity, project_data.num_spaces),
            is_complex: metrics_thresholds.is_complex(wcc, crap, skunk, complexity_type),
        }
    }

    /// The scores of a function in one dimension.
    pub fn function(space_data: SpaceData, metrics_thresholds: MetricsThresholds, complexity_type: Complexity)
        -> (data: MetricsData)
        requires
            space_data.consistent(),
            space_data.in_range(),
        ensures
            data == function_data(space_data, metrics_thresholds, complexity_type),
            data.bounded(),
            space_complexity(space_data, complexity_type) > WCC_COMPLEXITY_THRESHOLD ==> data.wcc
                == 0,
    {
        let complexity = match complexity_type {
            Complexity::Cyclomatic => space_data.cyclomatic_complexity,
            Complexity::Cognitive => space_data.cognitive_complexity,
        };
        let wcc = wcc_function(complexity, space_data.covered_lines, space_data.ploc);
        let crap = crap(space_data.covered_lines, space_data.ploc, complexity, 1);
        let skunk = skunk(space_data.covered_lines, space_data.ploc, complexity, 1);
        proof {
            lemma_complexity_bound(complexity as nat, 1);
        }
        MetricsData {
            wcc,
            crap,
            skunk,
            complexity: average_complexity(complexity, 1),
            is_complex: metrics_thresholds.is_complex(wcc, crap, skunk, complexity_type),
        }
    }

    /// The scores of the whole project in one dimension, from the sums over
    /// all files.
    pub fn project_total(
        project_data: ProjectData,
        metrics_thresholds: MetricsThresholds,
        complexity_type: Complexity,
    ) -> (data: MetricsData)
        requires
            project_data@.consistent(),
            project_data@.in_range(),
        ensures
            data == totals_data(project_data@, metrics_thresholds, complexity_type),
            data.bounded(),
    {
        MetricsData::file(project_data, metrics_thresholds, complexity_type)
    }

    /// The row from which a minimum starts.
    pub fn project_min() -> (data: MetricsData)
        ensures
            data == MetricsData::top(),
    {
        MetricsData {
            wcc: u64::MAX,
            crap: u64::MAX,
            skunk: u64::MAX,
            complexity: u64::MAX,
            is_complex: false,
        }
    }

    /// The element-wise minimum of two rows, classified anew.
    pub fn update_project_min(
        self,
        other: MetricsData,
        metrics_thresholds: MetricsThresholds,
        complexity: Complexity,
    ) -> (data: MetricsData)
        ensures
            data == self.min_with(other, metrics_thresholds, complexity),
    {
        let wcc = lower(self.wcc, other.wcc);
        let crap = lower(self.crap, other.crap);
        let skunk = lower(self.skunk, other.skunk);
        MetricsData {
            wcc,
            crap,
            skunk,
            complexity: lower(self.complexity, other.complexity),
            is_complex: metrics_thresholds.is_complex(wcc, crap, skunk, complexity),
        }
    }

    /// The row from which a maximum starts.
    pub fn project_max() -> (data: MetricsData)
        ensures
            data == MetricsData::bottom(),
    {
        MetricsData { wcc: 0, crap: 0, skunk: 0, complexity: 0, is_complex: false }
    }

    /// The element-wise maximum of two rows, classified anew.
    pub fn update_project_max(
        self,
        other: MetricsData,
        metrics_thresholds: MetricsThresholds,
        complexity: Complexity,
    ) -> (data: MetricsData)
        ensures
            data == self.max_with(other, metrics_thresholds, complexity),
    {
        let wcc = higher(self.wcc, other.wcc);
        let crap = higher(self.crap, other.crap);
        let skunk = higher(self.skunk, other.skunk);
        MetricsData {
            wcc,
            crap,
            skunk,
            complexity: higher(self.complexity, other.complexity),
            is_complex: metrics_thresholds.is_complex(wcc, crap, skunk, complexity),
        }
    }

    /// Adds the scores of this row to `sum`.
    pub fn sum(self, sum: DataSum) -> (total: DataSum)
        requires
            sum.has_room(),
        ensures
            total@ == sum@.plus(self),
    {
        DataSum {
            wcc: sum.wcc + self.wcc as u128,
            crap: sum.crap + self.crap as u128,
            skunk: sum.skunk + self.skunk as u128,
            complexity: sum.complexity + self.complexity as u128,
        }
    }

    /// The means of `num_files` rows that add up to `sum`, classified anew.
    pub fn project_average(
        sum: DataSum,
        num_files: u64,
        metrics_thresholds: MetricsThresholds,
        complexity: Complexity,
    ) -> (data: MetricsData)
        ensures
            data == sum@.mean(num_files as nat, metrics_thresholds, complexity),
    {
        let wcc = average(sum.wcc, num_files);
        let crap = average(sum.crap, num_files);
        let skunk = average(sum.skunk, num_files);
        MetricsData {
            wcc,
            crap,
            skunk,
            complexity: average(sum.complexity, num_files),
            is_complex: metrics_thresholds.is_complex(wcc, crap, skunk, complexity),
        }
    }
}

/// The scores of one scope: a file, a function, or a row of the project
/// summary. All values are in hundredths.
#[derive(Debug, Clone, Copy, PartialEq, Eq, Structural)]
pub struct Metrics {
    /// Scores for cyclomatic complexity.
    pub cyclomatic: MetricsData,
    /// Scores for cognitive complexity.
    pub cognitive: MetricsData,
    /// Covered share of the executable lines, as a percentage.
    pub coverage: u64,
}

/// Sums of the scores of several scopes.
#[derive(Debug, Clone, Copy, PartialEq, Eq, Structural)]
pub struct MetricsSum {
    /// Sums for cyclomatic complexity.
    pub cyclomatic: DataSum,
    /// Sums for cognitive complexity.
    pub cognitive: DataSum,
    /// Summed coverage.
    pub coverage: u128,
}

/// The scores of a scope with the given totals.
pub open spec fn totals_metrics(totals: Totals, limits: MetricsThresholds) -> Metrics {
    Metrics {
        cyclomatic: totals_data(totals, limits, Complexity::Cyclomatic),
        cognitive: totals_data(totals, limits, Complexity::Cognitive),
        coverage: wcc_spec(totals.covered_lines, totals.ploc) as u64,
    }
}

/// The scores of a single function.
pub open spec fn function_metrics(space: SpaceData, limits: MetricsThresholds) -> Metrics {
    Metrics {
        cyclomatic: function_data(space, limits, Complexity::Cyclomatic),
        cognitive: function_data(space, limits, Complexity::Cognitive),
        coverage: wcc_spec(space.covered_lines as nat, space.ploc as nat) as u64,
    }
}

/// The coverage of a scope lies between 0 and 100, and is 0 for a scope
/// without executable lines.
pub proof fn lemma_coverage_bounds(totals: Totals, limits: MetricsThresholds)
    requires
        totals.covered_lines <= totals.ploc,
    ensures
        0 <= totals_metrics(totals, limits).coverage <= 10_000,
        totals.ploc == 0 ==> totals_metrics(totals, limits).coverage == 0,
{
    if totals.ploc > 0 {
        assert(100 * totals.covered_lines <= 100 * totals.ploc);
        crate::score::lemma_one_decimal_bound(100 * totals.covered_lines, totals.ploc, 100);
    }
}

/// Sums of the scores of several scopes, as mathematical integers.
pub struct RowSums {
    /// Sums for cyclomatic complexity.
    pub cyclomatic: ScoreSums,
    /// Sums for cognitive complexity.
    pub cognitive: ScoreSums,
    /// Summed coverage.
    pub coverage: nat,
}

impl View for MetricsSum {
    type V = RowSums;

    open spec fn view(&self) -> RowSums {
        RowSums {
            cyclomatic: self.cyclomatic@,
            cognitive: self.cognitive@,
            coverage: self.coverage as nat,
        }
    }
}

impl RowSums {
    /// The sums of nothing.
    pub open spec fn zero() -> RowSums {
        RowSums { cyclomatic: ScoreSums::zero(), cognitive: ScoreSums::zero(), coverage: 0 }
    }

    /// The sums after the scores of one more scope are added.
    pub open spec fn plus(self, other: Metrics) -> RowSums {
        RowSums {
            cyclomatic: self.cyclomatic.plus(other.cyclomatic),
            cognitive: self.cognitive.plus(other.cognitive),
            coverage: self.coverage + other.coverage as nat,
        }
    }

    /// The means of `n` scopes, classified anew.
    pub open spec fn mean(self, n: nat, limits: MetricsThresholds) -> Metrics {
        Metrics {
            cyclomatic: self.cyclomatic.mean(n, limits, Complexity::Cyclomatic),
            cognitive: self.cognitive.mean(n, limits, Complexity::Cognitive),
            coverage: average_spec(self.coverage, n) as u64,
        }
    }
}

impl MetricsSum {
    /// Every sum is at most `n` times the largest score.
    pub open spec fn within(&self, n: nat) -> bool {
        &&& self.cyclomatic.within(n)
        &&& self.cognitive.within(n)
        &&& self.coverage <= n * u64::MAX
    }

    /// One more score can be added to every sum.
    pub open spec fn has_room(&self) -> bool {
        &&& self.cyclomatic.has_room()
        &&& self.cognitive.has_room()
        &&& self.coverage <= u128::MAX - u64::MAX
    }

    /// The sums of nothing.
    pub fn new() -> (sum: MetricsSum)
        ensures
            sum@ == RowSums::zero(),
            sum.within(0),
    {
        let zero = DataSum { wcc: 0, crap: 0, skunk: 0, complexity: 0 };
        MetricsSum { cyclomatic: zero, cognitive: zero, coverage: 0 }
    }
}

/// Sums of `n` scores leave room for one more score, as long as `n` is a
/// `u64`.
pub proof fn lemma_sum_room(sum: MetricsSum, n: nat)
    requires
        sum.within(n),
        n < u64::MAX,
    ensures
        sum.has_room(),
{
    assert(n * u64::MAX <= (u64::MAX - 1) * u64::MAX) by (nonlinear_arith)
        requires
            n < u64::MAX,
    ;
}

/// With one more score, sums of `n` scores are sums of `n + 1` scores.
pub proof fn lemma_sum_grows(sum: MetricsSum, other: Metrics, total: MetricsSum, n: nat)
    requires
        sum.within(n),
        total@ == sum@.plus(other),
    ensures
        total.within(n + 1),
{
    assert((n + 1) * u64::MAX == n * u64::MAX + u64::MAX) by (nonlinear_arith);
}

/// The element-wise minimum of all rows; each dimension is classified anew.
pub open spec fn min_row(rows: Seq<Metrics>, limits: MetricsThresholds) -> Metrics
    decreases rows.len(),
{
    if rows.len() == 0 {
        Metrics::top()
    } else {
        min_row(rows.drop_last(), limits).min_with(rows.last(), limits)
    }
}

/// The element-wise maximum of all rows; each dimension is classified anew.
pub open spec fn max_row(rows: Seq<Metrics>, limits: MetricsThresholds) -> Metrics
    decreases rows.len(),
{
    if rows.len() == 0 {
        Metrics::bottom()
    } else {
        max_row(rows.drop_last(), limits).max_with(rows.last(), limits)
    }
}

/// The element-wise sums of all rows.
pub open spec fn sum_rows(rows: Seq<Metrics>) -> RowSums
    decreases rows.len(),
{
    if rows.len() == 0 {
        RowSums::zero()
    } else {
        sum_rows(rows.drop_last()).plus(rows.last())
    }
}

/// The element-wise means of all rows, to one decimal; each dimension is
/// classified anew.
pub open spec fn average_row(rows: Seq<Metrics>, limits: MetricsThresholds) -> Metrics {
    sum_rows(rows).mean(rows.len(), limits)
}

/// One step of the minimum over rows.
pub open spec fn min_step(limits: MetricsThresholds) -> spec_fn(Metrics, Metrics) -> Metrics {
    |acc: Metrics, row: Metrics| acc.min_with(row, limits)
}

/// One step of the maximum over rows.
pub open spec fn max_step(limits: MetricsThresholds) -> spec_fn(Metrics, Metrics) -> Metrics {
    |acc: Metrics, row: Metrics| acc.max_with(row, limits)
}

/// One step of the sums over rows.
pub open spec fn sum_step() -> spec_fn(RowSums, Metrics) -> RowSums {
    |acc: RowSums, row: Metrics| acc.plus(row)
}

/// Minimum, maximum and sums over rows are folds.
pub proof fn lemma_rows_are_folds(rows: Seq<Metrics>, limits: MetricsThresholds)
    ensures
        min_row(rows, limits) == rows.fold_left(Metrics::top(), min_step(limits)),
        max_row(rows, limits) == rows.fold_left(Metrics::bottom(), max_step(limits)),
        sum_rows(rows) == rows.fold_left(RowSums::zero(), sum_step()),
    decreases rows.len(),
{
    if rows.len() > 0 {
        lemma_rows_are_folds(rows.drop_last(), limits);
    }
}

/// The rows of the project summary that are taken over the files do not
/// depend on the order of the files.
pub proof fn lemma_summary_rows_permutation(a: Seq<Metrics>, b: Seq<Metrics>, limits: MetricsThresholds)
    requires
        a.to_multiset() == b.to_multiset(),
    ensures
        min_row(a, limits) == min_row(b, limits),
        max_row(a, limits) == max_row(b, limits),
        sum_rows(a) == sum_rows(b),
        average_row(a, limits) == average_row(b, limits),
{
    lemma_rows_are_folds(a, limits);
    lemma_rows_are_folds(b, limits);
    assert(order_free(min_step(limits)));
    assert(order_free(max_step(limits)));
    assert(order_free(sum_step()));
    lemma_fold_permutation(a, b, Metrics::top(), min_step(limits));
    lemma_fold_permutation(a, b, Metrics::bottom(), max_step(limits));
    lemma_fold_permutation(a, b, RowSums::zero(), sum_step());
    vstd::seq_lib::to_multiset_len(a);
    vstd::seq_lib::to_multiset_len(b);
}

impl Metrics {
    /// The element-wise minimum, classified anew.
    pub open spec fn min_with(self, other: Metrics, limits: MetricsThresholds) -> Metrics {
        Metrics {
            cyclomatic: self.cyclomatic.min_with(other.cyclomatic, limits, Complexity::Cyclomatic),
            cognitive: self.cognitive.min_with(other.cognitive, limits, Complexity::Cognitive),
            coverage: min_score(self.coverage, other.coverage),
        }
    }

    /// The element-wise maximum, classified anew.
    pub open spec fn max_with(self, other: Metrics, limits: MetricsThresholds) -> Metrics {
        Metrics {
            cyclomatic: self.cyclomatic.max_with(other.cyclomatic, limits, Complexity::Cyclomatic),
            cognitive: self.cognitive.max_with(other.cognitive, limits, Complexity::Cognitive),
            coverage: max_score(self.coverage, other.coverage),
        }
    }

    /// The row from which a minimum starts.
    pub open spec fn top() -> Metrics {
        Metrics { cyclomatic: MetricsData::top(), cognitive: MetricsData::top(), coverage: u64::MAX }
    }

    /// The row from which a maximum starts.
    pub open spec fn bottom() -> Metrics {
        Metrics { cyclomatic: MetricsData::bottom(), cognitive: MetricsData::bottom(), coverage: 0 }
    }

    /// The scores of a file.
    pub fn file(project_data: ProjectData, metrics_thresholds: MetricsThresholds) -> (metrics:
        Metrics)
        requires
            project_data@.consistent(),
            project_data@.in_range(),
        ensures
            metrics == totals_metrics(project_data@, metrics_thresholds),
            metrics.coverage <= 10_000,
            project_data.ploc == 0 ==> metrics.coverage == 0,
    {
        Metrics {
            cyclomatic: MetricsData::file(project_data, metrics_thresholds, Complexity::Cyclomatic),
            cognitive: MetricsData::file(project_data, metrics_thresholds, Complexity::Cognitive),
            coverage: wcc(project_data.covered_lines, project_data.ploc),
        }
    }

    /// The scores of a function.
    pub fn function(space_data: SpaceData, metrics_thresholds: MetricsThresholds) -> (metrics:
        Metrics)
        requires
            space_data.consistent(),
            space_data.in_range(),
        ensures
            metrics == function_metrics(space_data, metrics_thresholds),
            metrics.coverage <= 10_000,
    {
        Metrics {
            cyclomatic: MetricsData::function(
                space_data,
                metrics_thresholds,
                Complexity::Cyclomatic,
            ),
            cognitive: MetricsData::function(space_data, metrics_thresholds, Complexity::Cognitive),
            coverage: wcc(space_data.covered_lines, space_data.ploc),
        }
    }

    /// The scores of the whole project, from the sums over all files.
    pub fn project_total(project_data: ProjectData, metrics_thresholds: MetricsThresholds)
        -> (metrics: Metrics)
        requires
            project_data@.consistent(),
            project_data@.in_range(),
        ensures
            metrics == totals_metrics(project_data@, metrics_thresholds),
    {
        let coverage = wcc(project_data.covered_lines, project_data.ploc);
        let cyclomatic = MetricsData::project_total(
            project_data,
            metrics_thresholds,
            Complexity::Cyclomatic,
        );
        let cognitive = MetricsData::project_total(
            project_data,
            metrics_thresholds,
            Complexity::Cognitive,
        );
        Metrics { cyclomatic, cognitive, coverage }
    }

    /// The row from which a minimum starts.
    pub fn project_min() -> (metrics: Metrics)
        ensures
            metrics == Metrics::top(),
    {
        Metrics {
            cyclomatic: MetricsData::project_min(),
            cognitive: MetricsData::project_min(),
            coverage: u64::MAX,
        }
    }

    /// The element-wise minimum of two rows.
    pub fn update_project_min(self, other: Metrics, metrics_thresholds: MetricsThresholds)
        -> (metrics: Metrics)
        ensures
            metrics == self.min_with(other, metrics_thresholds),
    {
        Metrics {
            cyclomatic: self.cyclomatic.update_project_min(
                other.cyclomatic,
                metrics_thresholds,
                Complexity::Cyclomatic,
            ),
            cognitive: self.cognitive.update_project_min(
                other.cognitive,
                metrics_thresholds,
                Complexity::Cognitive,
            ),
            coverage: lower(self.coverage, other.coverage),
        }
    }

    /// The row from which a maximum starts.
    pub fn project_max() -> (metrics: Metrics)
        ensures
            metrics == Metrics::bottom(),
    {
        Metrics {
            cyclomatic: MetricsData::project_max(),
            cognitive: MetricsData::project_max(),
            coverage: 0,
        }
    }

    /// The element-wise maximum of two rows.
    pub fn update_project_max(self, other: Metrics, metrics_thresholds: MetricsThresholds)
        -> (metrics: Metrics)
        ensures
            metrics == self.max_with(other, metrics_thresholds),
    {
        Metrics {
            cyclomatic: self.cyclomatic.update_project_max(
                other.cyclomatic,
                metrics_thresholds,
                Complexity::Cyclomatic,
            ),
            cognitive: self.cognitive.update_project_max(
                other.cognitive,
                metrics_thresholds,
                Complexity::Cognitive,
            ),
            coverage: higher(self.coverage, other.coverage),
        }
    }

    /// Adds the scores of this row to `sum`.
    pub fn project_sum(self, sum: MetricsSum) -> (total: MetricsSum)
        requires
            sum.has_room(),
        ensures
            total@ == sum@.plus(self),
    {
        MetricsSum {
            cyclomatic: self.cyclomatic.sum(sum.cyclomatic),
            cognitive: self.cognitive.sum(sum.cognitive),
            coverage: sum.coverage + self.coverage as u128,
        }
    }

    /// The means of `num_files` rows that add up to `sum`.
    pub fn project_average(sum: MetricsSum, num_files: u64, metrics_thresholds: MetricsThresholds)
        -> (metrics: Metrics)
        ensures
            metrics == sum@.mean(num_files as nat, metrics_thresholds),
    {
        let cyclomatic = MetricsData::project_average(
            sum.cyclomatic,
            num_files,
            metrics_thresholds,
            Complexity::Cyclomatic,
        );
        let cognitive = MetricsData::project_average(
            sum.cognitive,
            num_files,
            metrics_thresholds,
            Complexity::Cognitive,
        );
        let coverage = average(sum.coverage, num_files);
        Metrics { cyclomatic, cognitive, coverage }
    }
}

impl Default for Metrics {
    fn default() -> (metrics: Metrics)
        ensures
            metrics == Metrics::bottom(),
    {
        Metrics::project_max()
    }
}

} // verus!
