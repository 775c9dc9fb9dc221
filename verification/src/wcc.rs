//! The analysis of a project, file by file.
//!
//! A worker counts the lines of each file it is handed, scores the file and
//! keeps the scores; a file without coverage is only noted. The totals of
//! all files, from however many workers, are then merged and the project
//! summary and the sorted output are composed.

use vstd::prelude::*;
use vstd::string::*;
use crate::code_unit::{CodeUnit, UnitKind};
use crate::error::Error;
use crate::metrics::{
    average_row, function_metrics, lemma_sum_grows, lemma_sum_room,
    lemma_summary_rows_permutation, max_row, min_row, sum_rows, totals_metrics,
    Metrics, MetricsSum, MetricsThresholds,
};
use crate::options::{Mode, Sort};
use vstd::multiset::Multiset;
use vstd::seq_lib::to_multiset_build;
use crate::order::{
    distinct_names, Ranked, functions_sorted, lemma_sorted_unique, lemma_sorted_unique_by, may_precede,
    row_precedes, sort_key, sort_rows, sorted_by,
};
use crate::permutation::{lemma_distinct_permutation, lemma_map_permutation};
use crate::output::{
    file_content, file_contents, file_scores, file_views, function_views, FileContent,
    FileMetrics, FunctionMetrics, FunctionRow, ProjectMetrics, WccOutput,
};
use crate::project::{lemma_merge_all_permutation, merge_all, views_of, ProjectData, Totals};
use crate::spaces::{get_spaces, spaces_of, SpaceRow, SpaceTable};

verus! {

/// The sums over the counts of all rows.
pub open spec fn space_sums(rows: Seq<SpaceRow>) -> Totals
    decreases rows.len(),
{
    if rows.len() == 0 {
        Totals::zero()
    } else {
        space_sums(rows.drop_last()).add_space(rows.last().data)
    }
}

/// The totals of a file with the given rows: one code unit per row.
pub open spec fn file_totals(rows: Seq<SpaceRow>) -> Totals {
    Totals { num_spaces: rows.len(), ..space_sums(rows) }
}

/// The scores of the functions among the rows, in the order of the rows.
pub open spec fn function_rows(rows: Seq<SpaceRow>, limits: MetricsThresholds) -> Seq<FunctionRow>
    decreases rows.len(),
{
    if rows.len() == 0 {
        Seq::empty()
    } else {
        let before = function_rows(rows.drop_last(), limits);
        let last = rows.last();
        if last.data.kind == UnitKind::Function {
            before.push(
                FunctionRow { name: last.name, metrics: function_metrics(last.data, limits) },
            )
        } else {
            before
        }
    }
}

/// In every row no more lines are covered than counted.
pub open spec fn rows_consistent(rows: Seq<SpaceRow>) -> bool {
    forall|k: int| 0 <= k < rows.len() ==> (#[trigger] rows[k]).data.consistent()
}

/// The counts of every row are within the limit.
pub open spec fn rows_in_range(rows: Seq<SpaceRow>) -> bool {
    forall|k: int| 0 <= k < rows.len() ==> (#[trigger] rows[k]).data.in_range()
}

/// What a file lists as its functions: nothing unless functions are
/// analysed and the file has any; else the scores of its functions, sorted.
pub open spec fn functions_match(
    functions: Option<Vec<FunctionMetrics>>,
    rows: Seq<SpaceRow>,
    mode: Mode,
    limits: MetricsThresholds,
    by: Sort,
) -> bool {
    if mode == Mode::Files || function_rows(rows, limits).len() == 0 {
        functions.is_none()
    } else {
        &&& functions.is_some()
        &&& sorted_by(functions.unwrap()@, by)
        &&& function_views(functions.unwrap()@).to_multiset() == function_rows(
            rows,
            limits,
        ).to_multiset()
    }
}

/// The sums over a prefix of the rows are at most the sums over all rows.
pub proof fn lemma_space_sums_prefix(rows: Seq<SpaceRow>, n: int)
    requires
        0 <= n <= rows.len(),
    ensures
        space_sums(rows.take(n)).le(space_sums(rows)),
    decreases rows.len() - n,
{
    if n == rows.len() {
        assert(rows.take(n) =~= rows);
    } else {
        lemma_space_sums_prefix(rows, n + 1);
        assert(rows.take(n + 1).drop_last() =~= rows.take(n));
    }
}

/// Sums of consistent rows are consistent.
pub proof fn lemma_space_sums_consistent(rows: Seq<SpaceRow>)
    requires
        rows_consistent(rows),
    ensures
        space_sums(rows).consistent(),
    decreases rows.len(),
{
    if rows.len() > 0 {
        assert(rows.last().data.consistent());
        assert forall|k: int| 0 <= k < rows.drop_last().len() implies (
        #[trigger] rows.drop_last()[k]).data.consistent() by {
            assert(rows.drop_last()[k] == rows[k]);
        }
        lemma_space_sums_consistent(rows.drop_last());
    }
}

/// Where the totals of a file are within the limit, so are the counts of
/// each of its rows.
pub proof fn lemma_rows_in_range(rows: Seq<SpaceRow>)
    requires
        file_totals(rows).in_range(),
        rows_consistent(rows),
    ensures
        rows_in_range(rows),
{
    assert forall|k: int| 0 <= k < rows.len() implies (#[trigger] rows[k]).data.in_range() by {
        lemma_space_sums_prefix(rows, k + 1);
        assert(rows.take(k + 1).last() == rows[k]);
    }
}

/// The state of a worker: the options of the analysis, the scores of the
/// files it has analysed, and the files it has found without coverage.
#[derive(Debug)]
pub struct Wcc {
    /// Whether functions are analysed.
    pub mode: Mode,
    /// The limits beyond which a scope counts as complex.
    pub metrics_thresholds: MetricsThresholds,
    /// The score by which the output is sorted.
    pub sort_by: Sort,
    /// The scores of the files analysed so far.
    pub files_metrics: Vec<FileMetrics>,
    /// The files found without coverage so far.
    pub ignored_files: Vec<String>,
}

impl Wcc {
    /// The options of the two states are the same.
    pub open spec fn same_options(&self, other: &Wcc) -> bool {
        &&& self.mode == other.mode
        &&& self.metrics_thresholds == other.metrics_thresholds
        &&& self.sort_by == other.sort_by
    }

    /// A worker that has seen no file yet.
    pub fn new(mode: Mode, metrics_thresholds: MetricsThresholds, sort_by: Sort) -> (wcc: Wcc)
        ensures
            wcc.mode == mode,
            wcc.metrics_thresholds == metrics_thresholds,
            wcc.sort_by == sort_by,
            wcc.files_metrics@.len() == 0,
            wcc.ignored_files@.len() == 0,
    {
        Wcc {
            mode,
            metrics_thresholds,
            sort_by,
            files_metrics: Vec::new(),
            ignored_files: Vec::new(),
        }
    }

    /// Notes a file without coverage under its path within the project;
    /// a file whose path cannot be written as text is not noted.
    pub fn update_ignored_files(&mut self, file: Option<String>)
        ensures
            final(self).same_options(old(self)),
            final(self).files_metrics == old(self).files_metrics,
            match file {
                Some(path) => final(self).ignored_files@ == old(self).ignored_files@.push(path),
                None => final(self).ignored_files == old(self).ignored_files,
            },
    {
        if let Some(path) = file {
            self.ignored_files.push(path);
        }
    }

    /// The scores of the functions of a file, sorted; nothing where only
    /// files are analysed or the file has no function.
    pub fn get_functions_metrics(&self, spaces: &SpaceTable) -> (functions: Option<
        Vec<FunctionMetrics>,
    >)
        requires
            rows_consistent(spaces@),
            rows_in_range(spaces@),
        ensures
            functions_match(
                functions,
                spaces@,
                self.mode,
                self.metrics_thresholds,
                self.sort_by,
            ),
    {
        if let Mode::Files = self.mode {
            return None;
        }
        let mut functions: Vec<FunctionMetrics> = Vec::new();
        let mut i: usize = 0;
        while i < spaces.len()
            invariant
                i <= spaces@.len(),
                rows_consistent(spaces@),
                rows_in_range(spaces@),
                function_views(functions@) == function_rows(
                    spaces@.take(i as int),
                    self.metrics_thresholds,
                ),
            decreases spaces@.len() - i,
        {
            let data = spaces.data(i);
            proof {
                assert(spaces@.take(i as int + 1).drop_last() =~= spaces@.take(i as int));
                assert(spaces@.take(i as int + 1).last() == spaces@[i as int]);
                assert(spaces@[i as int].data.consistent() && spaces@[i as int].data.in_range());
            }
            if data.kind == UnitKind::Function {
                let ghost before = function_views(functions@);
                let function = FunctionMetrics::new(
                    spaces.name(i).clone(),
                    data,
                    self.metrics_thresholds,
                );
                functions.push(function);
                assert(function_views(functions@) =~= before.push(function@));
            }
            i += 1;
        }
        proof {
            assert(spaces@.take(i as int) =~= spaces@);
        }
        if functions.len() == 0 {
            return None;
        }
        let ghost unsorted = functions@;
        sort_rows(&mut functions, self.sort_by);
        proof {
            let row = |f: FunctionMetrics| f@;
            lemma_map_permutation(functions@, unsorted, row);
            assert(function_views(functions@) =~= functions@.map_values(row));
            assert(function_views(unsorted) =~= unsorted.map_values(row));
        }
        Some(functions)
    }

    /// Scores a file from the counts of its code units and keeps the
    /// scores under `name`, if the file has one. Returns the totals of the
    /// file, or fails if they exceed the limit.
    pub fn compute_file_metrics(&mut self, name: Option<String>, spaces: SpaceTable) -> (result:
        Result<ProjectData, Error>)
        requires
            rows_consistent(spaces@),
        ensures
            final(self).same_options(old(self)),
            final(self).ignored_files == old(self).ignored_files,
            result.is_ok() <==> file_totals(spaces@).in_range(),
            result matches Err(e) ==> e == Error::Metrics && final(self).files_metrics == old(
                self,
            ).files_metrics,
            result matches Ok(data) ==> {
                &&& data@ == file_totals(spaces@)
                &&& data@.consistent()
                &&& match name {
                    None => final(self).files_metrics == old(self).files_metrics,
                    Some(text) => {
                        &&& final(self).files_metrics@.len() == old(self).files_metrics@.len() + 1
                        &&& final(self).files_metrics@.drop_last() == old(self).files_metrics@
                        &&& final(self).files_metrics@.last().name@ == text@
                        &&& final(self).files_metrics@.last().metrics == totals_metrics(
                            data@,
                            old(self).metrics_thresholds,
                        )
                        &&& functions_match(
                            final(self).files_metrics@.last().functions,
                            spaces@,
                            old(self).mode,
                            old(self).metrics_thresholds,
                            old(self).sort_by,
                        )
                    },
                }
            },
    {
        if spaces.len() > 16_777_216 {
            return Err(Error::Metrics);
        }
        let mut project_data = ProjectData::new(spaces.len() as u64);
        let mut i: usize = 0;
        while i < spaces.len()
            invariant
                i <= spaces@.len(),
                rows_consistent(spaces@),
                project_data@ == (Totals {
                    num_spaces: spaces@.len(),
                    ..space_sums(spaces@.take(i as int))
                }),
                project_data@.in_range(),
            decreases spaces@.len() - i,
        {
            let data = spaces.data(i);
            proof {
                lemma_space_sums_prefix(spaces@, i as int + 1);
                assert(spaces@.take(i as int + 1).drop_last() =~= spaces@.take(i as int));
                assert(spaces@.take(i as int + 1).last() == spaces@[i as int]);
                assert(spaces@[i as int].data.consistent());
            }
            if data.ploc > 16_777_216 || data.cyclomatic_complexity > 16_777_216
                || data.cognitive_complexity > 16_777_216 {
                return Err(Error::Metrics);
            }
            project_data.update(&data);
            if !project_data.is_in_range() {
                return Err(Error::Metrics);
            }
            i += 1;
        }
        proof {
            assert(spaces@.take(i as int) =~= spaces@);
            lemma_space_sums_consistent(spaces@);
            lemma_rows_in_range(spaces@);
        }
        if let Some(text) = name {
            let functions = self.get_functions_metrics(&spaces);
            let file = FileMetrics::new(text, project_data, self.metrics_thresholds, functions);
            let ghost before = self.files_metrics@;
            self.files_metrics.push(file);
            assert(self.files_metrics@.drop_last() =~= before);
        }
        Ok(project_data)
    }

    /// Handles one file of the project.
    ///
    /// A file without coverage is noted under `relative_path` and adds
    /// nothing to any total. For a file with coverage, given with the tree
    /// of its code units, the lines are counted per unit, the file is
    /// scored and kept under `name`, and its totals are returned.
    pub fn compute_metrics(
        &mut self,
        relative_path: Option<String>,
        name: Option<String>,
        coverage: Option<(&[Option<i64>], &CodeUnit)>,
    ) -> (result: Result<Option<ProjectData>, Error>)
        ensures
            final(self).same_options(old(self)),
            match coverage {
                None => {
                    &&& result == Ok::<Option<ProjectData>, Error>(None)
                    &&& final(self).files_metrics == old(self).files_metrics
                    &&& match relative_path {
                        Some(path) => final(self).ignored_files@ == old(self).ignored_files@.push(
                            path,
                        ),
                        None => final(self).ignored_files == old(self).ignored_files,
                    }
                },
                Some((lines, root)) => {
                    let rows = spaces_of(*root, lines@, lines@.len() as int);
                    &&& final(self).ignored_files == old(self).ignored_files
                    &&& result.is_ok() <==> file_totals(rows).in_range()
                    &&& result matches Err(e) ==> e == Error::Metrics && final(self).files_metrics
                        == old(self).files_metrics
                    &&& result matches Ok(found) ==> {
                        &&& found matches Some(data)
                        &&& data@ == file_totals(rows)
                        &&& data@.consistent()
                        &&& match name {
                            None => final(self).files_metrics == old(self).files_metrics,
                            Some(text) => {
                                &&& final(self).files_metrics@.len() == old(
                                    self,
                                ).files_metrics@.len() + 1
                                &&& final(self).files_metrics@.drop_last() == old(
                                    self,
                                ).files_metrics@
                                &&& final(self).files_metrics@.last().name@ == text@
                                &&& final(self).files_metrics@.last().metrics == totals_metrics(
                                    data@,
                                    old(self).metrics_thresholds,
                                )
                                &&& functions_match(
                                    final(self).files_metrics@.last().functions,
                                    rows,
                                    old(self).mode,
                                    old(self).metrics_thresholds,
                                    old(self).sort_by,
                                )
                            },
                        }
                    }
                },
            },
    {
        match coverage {
            None => {
                self.update_ignored_files(relative_path);
                Ok(None)
            },
            Some((lines, root)) => {
                let spaces = get_spaces(root, lines);
                match self.compute_file_metrics(name, spaces) {
                    Ok(data) => Ok(Some(data)),
                    Err(e) => Err(e),
                }
            },
        }
    }

    /// The element-wise minimum over the files.
    pub fn get_project_min(&self) -> (metrics: Metrics)
        ensures
            metrics == min_row(file_scores(self.files_metrics@), self.metrics_thresholds),
    {
        let mut metrics = Metrics::project_min();
        let mut i: usize = 0;
        while i < self.files_metrics.len()
            invariant
                i <= self.files_metrics@.len(),
                metrics == min_row(
                    file_scores(self.files_metrics@).take(i as int),
                    self.metrics_thresholds,
                ),
            decreases self.files_metrics@.len() - i,
        {
            proof {
                let rows = file_scores(self.files_metrics@);
                assert(rows.take(i as int + 1).drop_last() =~= rows.take(i as int));
                assert(rows.take(i as int + 1).last() == self.files_metrics@[i as int].metrics);
            }
            metrics = metrics.update_project_min(
                self.files_metrics[i].metrics,
                self.metrics_thresholds,
            );
            i += 1;
        }
        proof {
            let rows = file_scores(self.files_metrics@);
            assert(rows.take(i as int) =~= rows);
        }
        metrics
    }

    /// The element-wise maximum over the files.
    pub fn get_project_max(&self) -> (metrics: Metrics)
        ensures
            metrics == max_row(file_scores(self.files_metrics@), self.metrics_thresholds),
    {
        let mut metrics = Metrics::project_max();
        let mut i: usize = 0;
        while i < self.files_metrics.len()
            invariant
                i <= self.files_metrics@.len(),
                metrics == max_row(
                    file_scores(self.files_metrics@).take(i as int),
                    self.metrics_thresholds,
                ),
            decreases self.files_metrics@.len() - i,
        {
            proof {
                let rows = file_scores(self.files_metrics@);
                assert(rows.take(i as int + 1).drop_last() =~= rows.take(i as int));
                assert(rows.take(i as int + 1).last() == self.files_metrics@[i as int].metrics);
            }
            metrics = metrics.update_project_max(
                self.files_metrics[i].metrics,
                self.metrics_thresholds,
            );
            i += 1;
        }
        proof {
            let rows = file_scores(self.files_metrics@);
            assert(rows.take(i as int) =~= rows);
        }
        metrics
    }

    /// The element-wise mean over the files, to one decimal.
    pub fn get_project_average(&self) -> (metrics: Metrics)
        ensures
            metrics == average_row(file_scores(self.files_metrics@), self.metrics_thresholds),
    {
        let mut sum = MetricsSum::new();
        let mut i: usize = 0;
        while i < self.files_metrics.len()
            invariant
                i <= self.files_metrics@.len(),
                sum@ == sum_rows(file_scores(self.files_metrics@).take(i as int)),
                sum.within(i as nat),
            decreases self.files_metrics@.len() - i,
        {
            proof {
                let rows = file_scores(self.files_metrics@);
                assert(rows.take(i as int + 1).drop_last() =~= rows.take(i as int));
                assert(rows.take(i as int + 1).last() == self.files_metrics@[i as int].metrics);
                lemma_sum_room(sum, i as nat);
            }
            let ghost before = sum;
            sum = self.files_metrics[i].metrics.project_sum(sum);
            proof {
                lemma_sum_grows(before, self.files_metrics@[i as int].metrics, sum, i as nat);
            }
            i += 1;
        }
        proof {
            let rows = file_scores(self.files_metrics@);
            assert(rows.take(i as int) =~= rows);
        }
        Metrics::project_average(sum, self.files_metrics.len() as u64, self.metrics_thresholds)
    }

    /// The project summary. The total row is computed from the sums over
    /// all files, not from the rows of the files; where the coverage report
    /// states the coverage of the whole project, the total row shows that
    /// value as it is.
    pub fn get_project_metrics(&self, project_data: ProjectData, total_coverage: Option<u64>)
        -> (project: ProjectMetrics)
        requires
            project_data@.consistent(),
            project_data@.in_range(),
        ensures
            project == project_summary(
                project_data@,
                total_coverage,
                file_scores(self.files_metrics@),
                self.metrics_thresholds,
            ),
    {
        let computed = Metrics::project_total(project_data, self.metrics_thresholds);
        let total = match total_coverage {
            Some(coverage) => Metrics { coverage, ..computed },
            None => computed,
        };
        let min = self.get_project_min();
        let max = self.get_project_max();
        let average = self.get_project_average();
        ProjectMetrics::new(total, min, max, average)
    }

    /// Sorts the files by the chosen score, highest first, the functions of
    /// each file likewise, and the ignored files by name. No file, function
    /// or ignored file is lost, and none is added.
    pub fn sort_output(&mut self)
        ensures
            final(self).same_options(old(self)),
            sorted_by(final(self).files_metrics@, old(self).sort_by),
            functions_sorted(final(self).files_metrics@, old(self).sort_by),
            file_contents(final(self).files_metrics@).to_multiset() == file_contents(
                old(self).files_metrics@,
            ).to_multiset(),
            sorted_by(final(self).ignored_files@, old(self).sort_by),
            final(self).ignored_files@.to_multiset() == old(self).ignored_files@.to_multiset(),
    {
        broadcast use vstd::multiset::group_multiset_axioms;

        let by = self.sort_by;
        let ghost start = self.files_metrics@;
        let ghost mode = self.mode;
        let ghost limits = self.metrics_thresholds;
        let ghost ignored = self.ignored_files;
        let mut files: Vec<FileMetrics> = Vec::new();
        proof {
            file_contents(files@).to_multiset_ensures();
            assert(file_contents(files@).to_multiset() =~= Multiset::<FileContent>::empty());
            assert(file_contents(files@).to_multiset().add(
                file_contents(self.files_metrics@).to_multiset(),
            ) =~= file_contents(start).to_multiset());
        }
        while self.files_metrics.len() > 0
            invariant
                self.sort_by == by,
                self.mode == mode,
                self.metrics_thresholds == limits,
                self.ignored_files == ignored,
                functions_sorted(files@, by),
                file_contents(files@).to_multiset().add(
                    file_contents(self.files_metrics@).to_multiset(),
                ) == file_contents(start).to_multiset(),
            decreases self.files_metrics@.len(),
        {
            let ghost rest = self.files_metrics@;
            let ghost done = files@;
            let last = self.files_metrics.pop().unwrap();
            let file = last.sort_functions(by);
            files.push(file);
            proof {
                let content = file_content(file);
                assert(file_contents(files@) =~= file_contents(done).push(content));
                assert(file_contents(rest) =~= file_contents(self.files_metrics@).push(content));
                to_multiset_build(file_contents(done), content);
                to_multiset_build(file_contents(self.files_metrics@), content);
                assert(file_contents(files@).to_multiset().add(
                    file_contents(self.files_metrics@).to_multiset(),
                ) =~= file_contents(done).to_multiset().add(file_contents(rest).to_multiset()));
                assert forall|k: int| 0 <= k < files@.len() implies ((
                #[trigger] files@[k]).functions matches Some(list) ==> sorted_by(list@, by)) by {
                    if k < done.len() {
                        assert(files@[k] == done[k]);
                    }
                }
            }
        }
        let ghost unsorted = files@;
        proof {
            file_contents(self.files_metrics@).to_multiset_ensures();
            assert(file_contents(self.files_metrics@).to_multiset() =~= Multiset::<
                FileContent,
            >::empty());
            assert(file_contents(unsorted).to_multiset() =~= file_contents(start).to_multiset());
        }
        sort_rows(&mut files, by);
        proof {
            let content = |f: FileMetrics| file_content(f);
            lemma_map_permutation(files@, unsorted, content);
            assert(file_contents(files@) =~= files@.map_values(content));
            assert(file_contents(unsorted) =~= unsorted.map_values(content));
            files@.to_multiset_ensures();
            unsorted.to_multiset_ensures();
            assert forall|k: int| 0 <= k < files@.len() implies ((
            #[trigger] files@[k]).functions matches Some(list) ==> sorted_by(list@, by)) by {
                let x = files@[k];
                assert(files@.contains(x));
                assert(files@.to_multiset().count(x) > 0);
                assert(unsorted.to_multiset().count(x) > 0);
                assert(unsorted.contains(x));
                let m = choose|m: int| 0 <= m < unsorted.len() && unsorted[m] == x;
                assert(unsorted[m] == x);
            }
        }
        self.files_metrics = files;
        sort_rows(&mut self.ignored_files, by);
    }

    /// Takes over the files that another worker has analysed and noted.
    pub fn absorb(&mut self, other: Wcc)
        ensures
            final(self).same_options(old(self)),
            final(self).files_metrics@ == old(self).files_metrics@ + other.files_metrics@,
            final(self).ignored_files@ == old(self).ignored_files@ + other.ignored_files@,
    {
        let mut other = other;
        self.files_metrics.append(&mut other.files_metrics);
        self.ignored_files.append(&mut other.ignored_files);
    }

    /// Composes the output from the totals that the workers hand in: merges
    /// them, computes the project summary and sorts the files. Fails if the
    /// merged totals exceed the limit or are inconsistent.
    pub fn composer(self, parts: &Vec<ProjectData>, total_coverage: Option<u64>) -> (result:
        Result<WccOutput, Error>)
        ensures
            result.is_ok() <==> merge_all(views_of(parts@)).in_range() && merge_all(
                views_of(parts@),
            ).consistent(),
            result matches Err(e) ==> e == Error::Metrics,
            result matches Ok(output) ==> composed(
                self.files_metrics@,
                self.ignored_files@,
                views_of(parts@),
                total_coverage,
                self.metrics_thresholds,
                self.sort_by,
                output,
            ),
    {
        let project_data = match ProjectData::merge_parts(parts) {
            Some(data) => data,
            None => {
                return Err(Error::Metrics);
            },
        };
        if !project_data.is_consistent() {
            return Err(Error::Metrics);
        }
        let project_metrics = self.get_project_metrics(project_data, total_coverage);
        let mut state = self;
        state.sort_output();
        Ok(WccOutput::new(state.files_metrics, project_metrics, state.ignored_files))
    }
}

/// What the composer makes of the files and the ignored files that the
/// workers have gathered and of the totals they hand in: the project
/// summary; the files sorted, and within each file its functions; the
/// ignored files sorted. No file, function or ignored file is lost, and
/// none is added.
pub open spec fn composed(
    files: Seq<FileMetrics>,
    ignored: Seq<String>,
    parts: Seq<Totals>,
    total_coverage: Option<u64>,
    limits: MetricsThresholds,
    by: Sort,
    output: WccOutput,
) -> bool {
    &&& output.project == project_summary(
        merge_all(parts),
        total_coverage,
        file_scores(files),
        limits,
    )
    &&& sorted_by(output.files@, by)
    &&& functions_sorted(output.files@, by)
    &&& file_contents(output.files@).to_multiset() == file_contents(files).to_multiset()
    &&& sorted_by(output.ignored_files@, by)
    &&& output.ignored_files@.to_multiset() == ignored.to_multiset()
}

/// In no file do two functions share a name.
pub open spec fn distinct_function_names(files: Seq<FileMetrics>) -> bool {
    forall|k: int|
        0 <= k < files.len() ==> ((#[trigger] files[k]).functions matches Some(list)
            ==> distinct_names(list@))
}

/// Files, functions and ignored files of which no two share a name stay so
/// when the files and the ignored files are handed on in another order and
/// the functions of each file are listed in another order.
pub proof fn lemma_names_stay_distinct(
    files: Seq<FileMetrics>,
    ignored: Seq<String>,
    files_out: Seq<FileMetrics>,
    ignored_out: Seq<String>,
)
    requires
        file_contents(files_out).to_multiset() == file_contents(files).to_multiset(),
        ignored_out.to_multiset() == ignored.to_multiset(),
        distinct_names(files),
        distinct_function_names(files),
        distinct_names(ignored),
    ensures
        distinct_names(files_out),
        distinct_function_names(files_out),
        distinct_names(ignored_out),
{
    let text = |s: String| s@;
    assert forall|i: int, j: int| 0 <= i < j < ignored.len() implies text(#[trigger] ignored[i])
        != text(#[trigger] ignored[j]) by {
        assert(ignored[i].row_name() != ignored[j].row_name());
    }
    lemma_distinct_permutation(ignored, ignored_out, text);
    assert forall|i: int, j: int| 0 <= i < j < ignored_out.len() implies (
    #[trigger] ignored_out[i]).row_name() != (#[trigger] ignored_out[j]).row_name() by {
        assert(text(ignored_out[i]) != text(ignored_out[j]));
    }
    let told = file_contents(files);
    let shown = file_contents(files_out);
    let file_name = |c: FileContent| c.name;
    assert forall|i: int, j: int| 0 <= i < j < told.len() implies file_name(#[trigger] told[i])
        != file_name(#[trigger] told[j]) by {
        assert(files[i].row_name() != files[j].row_name());
    }
    lemma_distinct_permutation(told, shown, file_name);
    assert forall|i: int, j: int| 0 <= i < j < files_out.len() implies (
    #[trigger] files_out[i]).row_name() != (#[trigger] files_out[j]).row_name() by {
        assert(file_name(shown[i]) != file_name(shown[j]));
    }
    told.to_multiset_ensures();
    shown.to_multiset_ensures();
    assert forall|k: int| 0 <= k < files_out.len() implies ((
    #[trigger] files_out[k]).functions matches Some(list) ==> distinct_names(list@)) by {
        if let Some(list) = files_out[k].functions {
            let c = shown[k];
            assert(shown.contains(c));
            assert(shown.to_multiset().count(c) > 0);
            assert(told.to_multiset().count(c) > 0);
            assert(told.contains(c));
            let m = choose|m: int| 0 <= m < told.len() && told[m] == c;
            assert(file_content(files[m]) == file_content(files_out[k]));
            let given = files[m].functions.unwrap();
            assert(distinct_names(given@));
            let before = function_views(given@);
            let after = function_views(list@);
            let name = |r: FunctionRow| r.name;
            assert forall|i: int, j: int| 0 <= i < j < before.len() implies name(
                #[trigger] before[i],
            ) != name(#[trigger] before[j]) by {
                assert(given@[i].row_name() != given@[j].row_name());
            }
            lemma_distinct_permutation(before, after, name);
            assert forall|i: int, j: int| 0 <= i < j < list@.len() implies (
            #[trigger] list@[i]).row_name() != (#[trigger] list@[j]).row_name() by {
                assert(name(after[i]) != name(after[j]));
            }
        }
    }
}

/// The output does not depend on the order in which the workers hand in
/// their files, their ignored files and their totals, nor on the order in
/// which a file lists its functions: two outputs composed of the same
/// items show the same rows in the same order, as long as no two files, no
/// two functions of a file and no two ignored files share a name.
pub proof fn lemma_output_is_determined(
    files_a: Seq<FileMetrics>,
    ignored_a: Seq<String>,
    parts_a: Seq<Totals>,
    files_b: Seq<FileMetrics>,
    ignored_b: Seq<String>,
    parts_b: Seq<Totals>,
    total_coverage: Option<u64>,
    limits: MetricsThresholds,
    by: Sort,
    output_a: WccOutput,
    output_b: WccOutput,
)
    requires
        file_contents(files_a).to_multiset() == file_contents(files_b).to_multiset(),
        ignored_a.to_multiset() == ignored_b.to_multiset(),
        parts_a.to_multiset() == parts_b.to_multiset(),
        composed(files_a, ignored_a, parts_a, total_coverage, limits, by, output_a),
        composed(files_b, ignored_b, parts_b, total_coverage, limits, by, output_b),
        distinct_names(files_a),
        distinct_function_names(files_a),
        distinct_names(ignored_a),
    ensures
        file_views(output_a.files@) == file_views(output_b.files@),
        output_a.ignored_files@ == output_b.ignored_files@,
        output_a.project == output_b.project,
{
    let fa = output_a.files@;
    let fb = output_b.files@;
    lemma_names_stay_distinct(files_a, ignored_a, fa, output_a.ignored_files@);
    let content = |f: FileMetrics| file_content(f);
    let file_key = |f: FileMetrics| sort_key(f.metrics, by);
    let file_name = |f: FileMetrics| f.name@;
    assert(file_contents(fa) =~= fa.map_values(content));
    assert(file_contents(fb) =~= fb.map_values(content));
    assert forall|i: int, j: int| 0 <= i < j < fa.len() implies may_precede(
        file_key(#[trigger] fa[i]),
        file_name(fa[i]),
        file_key(#[trigger] fa[j]),
        file_name(fa[j]),
    ) && file_name(fa[i]) != file_name(fa[j]) by {
        assert(row_precedes(fa[i], fa[j], by));
    }
    assert forall|i: int, j: int| 0 <= i < j < fb.len() implies may_precede(
        file_key(#[trigger] fb[i]),
        file_name(fb[i]),
        file_key(#[trigger] fb[j]),
        file_name(fb[j]),
    ) by {
        assert(row_precedes(fb[i], fb[j], by));
    }
    lemma_sorted_unique_by(fa, fb, content, file_key, file_name);
    assert(fa.len() == fa.map_values(content).len());
    assert(fb.len() == fb.map_values(content).len());
    assert forall|k: int| 0 <= k < fa.len() implies fa[k]@ == fb[k]@ by {
        assert(fa.map_values(content)[k] == fb.map_values(content)[k]);
        assert(file_content(fa[k]) == file_content(fb[k]));
        if let Some(list_a) = fa[k].functions {
            let list_b = fb[k].functions.unwrap();
            let row = |f: FunctionMetrics| f@;
            let key = |f: FunctionMetrics| sort_key(f.metrics, by);
            let name = |f: FunctionMetrics| f.name@;
            assert(function_views(list_a@) =~= list_a@.map_values(row));
            assert(function_views(list_b@) =~= list_b@.map_values(row));
            let la = list_a@;
            let lb = list_b@;
            assert(sorted_by(la, by) && sorted_by(lb, by) && distinct_names(la));
            assert forall|i: int, j: int| 0 <= i < j < la.len() implies may_precede(
                key(#[trigger] la[i]),
                name(la[i]),
                key(#[trigger] la[j]),
                name(la[j]),
            ) && name(la[i]) != name(la[j]) by {
                assert(row_precedes(la[i], la[j], by));
            }
            assert forall|i: int, j: int| 0 <= i < j < lb.len() implies may_precede(
                key(#[trigger] lb[i]),
                name(lb[i]),
                key(#[trigger] lb[j]),
                name(lb[j]),
            ) by {
                assert(row_precedes(lb[i], lb[j], by));
            }
            lemma_sorted_unique_by(la, lb, row, key, name);
        }
    }
    assert(file_views(fa) =~= file_views(fb));
    lemma_sorted_unique(output_a.ignored_files@, output_b.ignored_files@, by);
    lemma_merge_all_permutation(parts_a, parts_b);
    let ca = file_contents(files_a);
    let cb = file_contents(files_b);
    let scores = |c: FileContent| c.metrics;
    lemma_map_permutation(ca, cb, scores);
    assert(file_scores(files_a) =~= ca.map_values(scores));
    assert(file_scores(files_b) =~= cb.map_values(scores));
    lemma_summary_rows_permutation(file_scores(files_a), file_scores(files_b), limits);
}

/// The project summary: the total row from the sums over all files, with
/// the coverage that the report states for the whole project where it
/// states one; minimum, maximum and mean over the rows of the files.
pub open spec fn project_summary(
    totals: Totals,
    total_coverage: Option<u64>,
    rows: Seq<Metrics>,
    limits: MetricsThresholds,
) -> ProjectMetrics {
    let computed = totals_metrics(totals, limits);
    ProjectMetrics {
        total: match total_coverage {
            Some(coverage) => Metrics { coverage, ..computed },
            None => computed,
        },
        min: min_row(rows, limits),
        max: max_row(rows, limits),
        average: average_row(rows, limits),
    }
}

} // verus!
