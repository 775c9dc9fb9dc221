//! The configuration of an analysis.

use vstd::prelude::*;
use vstd::string::*;
use crate::code_unit::CodeUnit;
use crate::error::Error;
use crate::metrics::{totals_metrics, Metrics, MetricsThresholds};
use crate::options::{Mode, Sort, Thresholds};
use crate::order::sorted_by;
use crate::output::{
    file_content, file_contents, file_scores, texts, FileContent, FileMetrics, WccOutput,
};
use crate::permutation::lemma_map_permutation;
use crate::project::{merge_all, views_of, ProjectData, Totals};
use crate::spaces::{spaces_of, SpaceRow};
use crate::wcc::{file_totals, functions_match, project_summary, Wcc};

verus! {

/// The parameters of an analysis.
#[derive(Debug)]
struct Parameters {
    n_threads: usize,
    mode: Mode,
    thresholds: MetricsThresholds,
    sort_by: Sort,
    html_path: Option<String>,
}

/// The parameters of an analysis, seen mathematically.
pub struct Settings {
    /// The number of workers.
    pub n_threads: usize,
    /// Whether functions are analysed.
    pub mode: Mode,
    /// The limits beyond which a scope counts as complex.
    pub thresholds: MetricsThresholds,
    /// The score by which the output is sorted.
    pub sort_by: Sort,
    /// The directory of the HTML report, if one is asked for.
    pub html_path: Option<Seq<char>>,
}

/// Runs an analysis of a project.
///
/// Unless set otherwise, an analysis uses the default thresholds, one
/// worker less than the thread pool has threads, scores per file only, and
/// sorts by weighted coverage.
#[derive(Debug)]
pub struct WccRunner(Parameters);

impl View for WccRunner {
    type V = Settings;

    closed spec fn view(&self) -> Settings {
        Settings {
            n_threads: self.0.n_threads,
            mode: self.0.mode,
            thresholds: self.0.thresholds,
            sort_by: self.0.sort_by,
            html_path: match self.0.html_path {
                Some(path) => Some(path@),
                None => None,
            },
        }
    }
}

/// The number of workers for a pool of `available` threads: one thread is
/// left to the rest of the program, and at least one worker runs.
pub open spec fn default_workers(available: usize) -> usize {
    if available >= 2 {
        (available - 1) as usize
    } else {
        1
    }
}

/// The number of workers when `requested` are asked for: no more than
/// asked for, and no more than the pool allows.
pub open spec fn limited_workers(available: usize, requested: usize) -> usize {
    if requested <= default_workers(available) {
        requested
    } else {
        default_workers(available)
    }
}

/// The number of threads of the current thread pool.
///
/// Calls `rayon::current_num_threads`. The number depends on the machine
/// and on how the pool was built, so nothing is claimed of it.
#[verifier::external_body]
fn pool_threads() -> (available: usize) {
    rayon::current_num_threads()
}

/// The number of workers for a pool of `available` threads.
pub fn default_n_threads(available: usize) -> (workers: usize)
    ensures
        workers == default_workers(available),
        workers >= 1,
{
    if available >= 2 {
        available - 1
    } else {
        1
    }
}

/// The number of workers for a pool of `available` threads when
/// `requested` are asked for.
pub fn limit_n_threads(available: usize, requested: usize) -> (workers: usize)
    ensures
        workers == limited_workers(available, requested),
        workers <= requested,
{
    let most = default_n_threads(available);
    if requested <= most {
        requested
    } else {
        most
    }
}

/// A source file of the project, as an analysis takes it.
#[derive(Debug)]
pub struct SourceFile {
    /// The path of the file within the project, if it can be written as
    /// text.
    pub relative_path: Option<String>,
    /// The name under which the coverage report lists the file, if any.
    pub name: Option<String>,
    /// The coverage of the lines of the file and the tree of its code
    /// units, if the coverage report knows the file.
    pub coverage: Option<(Vec<Option<i64>>, CodeUnit)>,
}

impl SourceFile {
    /// The lines of the file counted per code unit, if the file has
    /// coverage.
    pub open spec fn rows(&self) -> Option<Seq<SpaceRow>> {
        match self.coverage {
            Some((lines, root)) => Some(spaces_of(root, lines@, lines@.len() as int)),
            None => None,
        }
    }

    /// The totals of the file, if the file has coverage.
    pub open spec fn totals(&self) -> Option<Totals> {
        match self.rows() {
            Some(rows) => Some(file_totals(rows)),
            None => None,
        }
    }
}

/// The totals of the files that have coverage, in order.
pub open spec fn parts_of(files: Seq<SourceFile>) -> Seq<Totals>
    decreases files.len(),
{
    if files.len() == 0 {
        Seq::empty()
    } else {
        let before = parts_of(files.drop_last());
        match files.last().totals() {
            Some(totals) => before.push(totals),
            None => before,
        }
    }
}

/// The paths of the files without coverage, in order.
pub open spec fn ignored_of(files: Seq<SourceFile>) -> Seq<Seq<char>>
    decreases files.len(),
{
    if files.len() == 0 {
        Seq::empty()
    } else {
        let before = ignored_of(files.drop_last());
        match (files.last().coverage, files.last().relative_path) {
            (None, Some(path)) => before.push(path@),
            _ => before,
        }
    }
}

/// Name and scores of each file that has coverage and a name, in order.
pub open spec fn listed_of(files: Seq<SourceFile>, limits: MetricsThresholds) -> Seq<
    (Seq<char>, Metrics),
>
    decreases files.len(),
{
    if files.len() == 0 {
        Seq::empty()
    } else {
        let before = listed_of(files.drop_last(), limits);
        match (files.last().totals(), files.last().name) {
            (Some(totals), Some(name)) => before.push((name@, totals_metrics(totals, limits))),
            _ => before,
        }
    }
}

/// Name and scores of each row of the output.
pub open spec fn listed_rows(files: Seq<FileMetrics>) -> Seq<(Seq<char>, Metrics)> {
    Seq::new(files.len(), |i: int| (files[i].name@, files[i].metrics))
}

/// The scores of each listed file.
pub open spec fn listed_scores(listed: Seq<(Seq<char>, Metrics)>) -> Seq<Metrics> {
    Seq::new(listed.len(), |i: int| listed[i].1)
}

/// The totals of every file with coverage are within the limit.
pub open spec fn all_in_range(files: Seq<SourceFile>) -> bool {
    forall|i: int|
        0 <= i < files.len() ==> ((#[trigger] files[i]).totals() matches Some(totals)
            ==> totals.in_range())
}

/// The row `file` of the output stands for the source file `source`: it
/// has its name, and lists its functions as the mode asks.
pub open spec fn stands_for(
    file: FileMetrics,
    source: SourceFile,
    mode: Mode,
    limits: MetricsThresholds,
    by: Sort,
) -> bool {
    &&& source.rows() matches Some(rows)
    &&& source.name matches Some(name)
    &&& name@ == file.name@
    &&& functions_match(file.functions, source.rows().unwrap(), mode, limits, by)
}

/// Every row of the output stands for a source file.
pub open spec fn all_stand_for(
    rows: Seq<FileMetrics>,
    files: Seq<SourceFile>,
    mode: Mode,
    limits: MetricsThresholds,
    by: Sort,
) -> bool {
    forall|k: int|
        0 <= k < rows.len() ==> exists|i: int|
            0 <= i < files.len() && stands_for(#[trigger] rows[k], files[i], mode, limits, by)
}

/// What an analysis makes of the files of a project: the project summary
/// from the totals and the scores of the files with coverage; those files
/// listed by name and sorted, each with its functions as the mode asks; and
/// the files without coverage, sorted.
pub open spec fn ran(
    files: Seq<SourceFile>,
    total_coverage: Option<u64>,
    mode: Mode,
    limits: MetricsThresholds,
    by: Sort,
    output: WccOutput,
) -> bool {
    &&& output.project == project_summary(
        merge_all(parts_of(files)),
        total_coverage,
        listed_scores(listed_of(files, limits)),
        limits,
    )
    &&& sorted_by(output.files@, by)
    &&& listed_rows(output.files@).to_multiset() == listed_of(files, limits).to_multiset()
    &&& all_stand_for(output.files@, files, mode, limits, by)
    &&& sorted_by(output.ignored_files@, by)
    &&& texts(output.ignored_files@).to_multiset() == ignored_of(files).to_multiset()
}

/// Totals of consistent parts are consistent.
pub proof fn lemma_merge_all_consistent(parts: Seq<Totals>)
    requires
        forall|i: int| 0 <= i < parts.len() ==> (#[trigger] parts[i]).consistent(),
    ensures
        merge_all(parts).consistent(),
    decreases parts.len(),
{
    if parts.len() > 0 {
        assert(parts.last().consistent());
        assert forall|i: int| 0 <= i < parts.drop_last().len() implies (
        #[trigger] parts.drop_last()[i]).consistent() by {
            assert(parts.drop_last()[i] == parts[i]);
        }
        lemma_merge_all_consistent(parts.drop_last());
    }
}

impl WccRunner {
    /// Analyses the files of a project, one after the other, and composes
    /// the output.
    ///
    /// A file without coverage is listed among the ignored files and counts
    /// for nothing else. Every other file is scored from its lines and its
    /// code units, and listed if it has a name. The analysis fails if the
    /// totals of a file or of the project exceed the limit.
    pub fn run(self, files: &Vec<SourceFile>, total_coverage: Option<u64>) -> (result: Result<
        WccOutput,
        Error,
    >)
        ensures
            result.is_ok() <==> all_in_range(files@) && merge_all(parts_of(files@)).in_range(),
            result matches Err(e) ==> e == Error::Metrics,
            result matches Ok(output) ==> ran(
                files@,
                total_coverage,
                self@.mode,
                self@.thresholds,
                self@.sort_by,
                output,
            ),
    {
        let mut wcc = self.worker();
        let mut parts: Vec<ProjectData> = Vec::new();
        let mut i: usize = 0;
        proof {
            assert(views_of(parts@) =~= parts_of(files@.take(0)));
            assert(texts(wcc.ignored_files@) =~= ignored_of(files@.take(0)));
            assert(listed_rows(wcc.files_metrics@) =~= listed_of(
                files@.take(0),
                self@.thresholds,
            ));
        }
        while i < files.len()
            invariant
                i <= files@.len(),
                wcc.mode == self@.mode,
                wcc.metrics_thresholds == self@.thresholds,
                wcc.sort_by == self@.sort_by,
                all_in_range(files@.take(i as int)),
                views_of(parts@) == parts_of(files@.take(i as int)),
                forall|k: int| 0 <= k < parts@.len() ==> (#[trigger] parts@[k])@.consistent(),
                texts(wcc.ignored_files@) == ignored_of(files@.take(i as int)),
                listed_rows(wcc.files_metrics@) == listed_of(
                    files@.take(i as int),
                    self@.thresholds,
                ),
                all_stand_for(
                    wcc.files_metrics@,
                    files@.take(i as int),
                    self@.mode,
                    self@.thresholds,
                    self@.sort_by,
                ),
            decreases files@.len() - i,
        {
            let file = &files[i];
            let ghost before = files@.take(i as int);
            let ghost now = files@.take(i as int + 1);
            let ghost listed = wcc.files_metrics@;
            let ghost noted = wcc.ignored_files@;
            let ghost had = parts@;
            proof {
                assert(now.drop_last() =~= before);
                assert(now.last() == files@[i as int]);
            }
            let relative_path = match &file.relative_path {
                Some(path) => Some(path.clone()),
                None => None,
            };
            let name = match &file.name {
                Some(name) => Some(name.clone()),
                None => None,
            };
            let coverage = match &file.coverage {
                Some((lines, root)) => Some((lines.as_slice(), root)),
                None => None,
            };
            match wcc.compute_metrics(relative_path, name, coverage) {
                Err(e) => {
                    proof {
                        assert(!files@[i as int].totals().unwrap().in_range());
                    }
                    return Err(e);
                },
                Ok(found) => {
                    if let Some(data) = found {
                        parts.push(data);
                        proof {
                            assert(views_of(parts@) =~= views_of(had).push(data@));
                        }
                    }
                },
            }
            proof {
                assert(views_of(parts@) =~= parts_of(now));
                assert(texts(wcc.ignored_files@) =~= ignored_of(now));
                assert(listed_rows(wcc.files_metrics@) =~= listed_of(now, self@.thresholds));
                assert forall|j: int| 0 <= j < now.len() implies ((#[trigger] now[j]).totals() matches Some(
                    totals,
                ) ==> totals.in_range()) by {
                    if j < i {
                        assert(now[j] == before[j]);
                    }
                }
                assert forall|k: int| 0 <= k < wcc.files_metrics@.len() implies exists|j: int|
                    0 <= j < now.len() && stands_for(
                        #[trigger] wcc.files_metrics@[k],
                        now[j],
                        self@.mode,
                        self@.thresholds,
                        self@.sort_by,
                    ) by {
                    if k < listed.len() {
                        assert(wcc.files_metrics@[k] == listed[k]);
                        let j = choose|j: int|
                            0 <= j < before.len() && stands_for(
                                listed[k],
                                before[j],
                                self@.mode,
                                self@.thresholds,
                                self@.sort_by,
                            );
                        assert(now[j] == before[j]);
                    } else {
                        assert(stands_for(
                            wcc.files_metrics@[k],
                            now[i as int],
                            self@.mode,
                            self@.thresholds,
                            self@.sort_by,
                        ));
                    }
                }
            }
            i += 1;
        }
        let ghost listed = wcc.files_metrics@;
        let ghost noted = wcc.ignored_files@;
        let ghost limits = self@.thresholds;
        proof {
            assert(files@.take(i as int) =~= files@);
            assert(views_of(parts@).len() == parts@.len());
            assert forall|k: int| 0 <= k < views_of(parts@).len() implies (#[trigger] views_of(
                parts@,
            )[k]).consistent() by {
                assert(parts@[k]@.consistent());
            }
            lemma_merge_all_consistent(views_of(parts@));
            assert(file_scores(listed) =~= listed_scores(listed_of(files@, limits)));
        }
        match wcc.composer(&parts, total_coverage) {
            Err(e) => Err(e),
            Ok(output) => {
                proof {
                    let listed_out = file_contents(output.files@);
                    let listed_in = file_contents(listed);
                    let row = |c: FileContent| (c.name, c.metrics);
                    lemma_map_permutation(listed_out, listed_in, row);
                    assert(listed_rows(output.files@) =~= listed_out.map_values(row));
                    assert(listed_rows(listed) =~= listed_in.map_values(row));
                    let text = |s: String| s@;
                    lemma_map_permutation(output.ignored_files@, noted, text);
                    assert(texts(output.ignored_files@) =~= output.ignored_files@.map_values(text));
                    assert(texts(noted) =~= noted.map_values(text));
                    listed_out.to_multiset_ensures();
                    listed_in.to_multiset_ensures();
                    assert forall|k: int| 0 <= k < output.files@.len() implies exists|j: int|
                        0 <= j < files@.len() && stands_for(
                            #[trigger] output.files@[k],
                            files@[j],
                            self@.mode,
                            limits,
                            self@.sort_by,
                        ) by {
                        let x = output.files@[k];
                        let c = listed_out[k];
                        assert(c == file_content(x));
                        assert(listed_out.contains(c));
                        assert(listed_out.to_multiset().count(c) > 0);
                        assert(listed_in.to_multiset().count(c) > 0);
                        assert(listed_in.contains(c));
                        let m = choose|m: int| 0 <= m < listed_in.len() && listed_in[m] == c;
                        assert(file_content(listed[m]) == c);
                        let j = choose|j: int|
                            0 <= j < files@.len() && stands_for(
                                listed[m],
                                files@[j],
                                self@.mode,
                                limits,
                                self@.sort_by,
                            );
                        assert(x.functions matches Some(list) ==> sorted_by(
                            list@,
                            self@.sort_by,
                        ));
                        assert(stands_for(x, files@[j], self@.mode, limits, self@.sort_by));
                    }
                }
                Ok(output)
            },
        }
    }

    /// A runner with the default parameters.
    pub fn new() -> (runner: WccRunner)
        ensures
            runner@.n_threads >= 1,
            runner@.mode == Mode::Files,
            runner@.sort_by == Sort::Wcc,
            runner@.html_path.is_none(),
            runner@.thresholds == (MetricsThresholds {
                wcc: 6000,
                crap_cyclomatic: 1640,
                crap_cognitive: 1640,
                skunk_cyclomatic: 1666,
                skunk_cognitive: 1666,
            }),
    {
        WccRunner(
            Parameters {
                thresholds: MetricsThresholds::default(),
                n_threads: default_n_threads(pool_threads()),
                mode: Mode::Files,
                sort_by: Sort::Wcc,
                html_path: None,
            },
        )
    }

    /// Sets the thresholds.
    pub fn thresholds(self, thresholds: Thresholds) -> (runner: WccRunner)
        requires
            thresholds.valid(),
        ensures
            runner@ == (Settings { thresholds: runner@.thresholds, ..self@ }),
            runner@.thresholds.wcc == thresholds.wcc_floor(),
            runner@.thresholds.crap_cyclomatic == crate::metrics::crap_ceiling(
                thresholds.cyclomatic(),
            ),
            runner@.thresholds.crap_cognitive == crate::metrics::crap_ceiling(
                thresholds.cognitive(),
            ),
            runner@.thresholds.skunk_cyclomatic == crate::metrics::skunk_ceiling(
                thresholds.cyclomatic(),
            ),
            runner@.thresholds.skunk_cognitive == crate::metrics::skunk_ceiling(
                thresholds.cognitive(),
            ),
    {
        let mut parameters = self.0;
        parameters.thresholds = MetricsThresholds::from(thresholds);
        WccRunner(parameters)
    }

    /// Sets the number of workers: as many as asked for, but no more than
    /// the thread pool allows.
    pub fn n_threads(self, n_threads: usize) -> (runner: WccRunner)
        ensures
            runner@ == (Settings { n_threads: runner@.n_threads, ..self@ }),
            runner@.n_threads <= n_threads,
            n_threads >= 1 ==> runner@.n_threads >= 1,
    {
        let mut parameters = self.0;
        parameters.n_threads = limit_n_threads(pool_threads(), n_threads);
        WccRunner(parameters)
    }

    /// Sets the analysis mode.
    pub fn mode(self, mode: Mode) -> (runner: WccRunner)
        ensures
            runner@ == (Settings { mode, ..self@ }),
    {
        let mut parameters = self.0;
        parameters.mode = mode;
        WccRunner(parameters)
    }

    /// Sets the score by which the output is sorted.
    pub fn sort_by(self, sort_by: Sort) -> (runner: WccRunner)
        ensures
            runner@ == (Settings { sort_by, ..self@ }),
    {
        let mut parameters = self.0;
        parameters.sort_by = sort_by;
        WccRunner(parameters)
    }

    /// Sets the directory of the HTML report.
    pub fn html_path(self, html_path: &str) -> (runner: WccRunner)
        ensures
            runner@ == (Settings { html_path: Some(html_path@), ..self@ }),
    {
        let mut parameters = self.0;
        parameters.html_path = Some(String::from_str(html_path));
        WccRunner(parameters)
    }

    /// The number of workers.
    pub fn workers(&self) -> (n_threads: usize)
        ensures
            n_threads == self@.n_threads,
    {
        self.0.n_threads
    }

    /// The limits beyond which a scope counts as complex.
    pub fn limits(&self) -> (thresholds: MetricsThresholds)
        ensures
            thresholds == self@.thresholds,
    {
        self.0.thresholds
    }

    /// The directory of the HTML report, if one is asked for.
    pub fn html_output(&self) -> (html_path: Option<&String>)
        ensures
            match html_path {
                Some(path) => self@.html_path == Some(path@),
                None => self@.html_path.is_none(),
            },
    {
        match &self.0.html_path {
            Some(path) => Some(path),
            None => None,
        }
    }

    /// A worker for this analysis that has seen no file yet.
    pub fn worker(&self) -> (wcc: Wcc)
        ensures
            wcc.mode == self@.mode,
            wcc.metrics_thresholds == self@.thresholds,
            wcc.sort_by == self@.sort_by,
            wcc.files_metrics@.len() == 0,
            wcc.ignored_files@.len() == 0,
    {
        Wcc::new(self.0.mode, self.0.thresholds, self.0.sort_by)
    }
}

impl Default for WccRunner {
    fn default() -> (runner: WccRunner)
        ensures
            runner@.n_threads >= 1,
            runner@.mode == Mode::Files,
            runner@.sort_by == Sort::Wcc,
            runner@.html_path.is_none(),
    {
        WccRunner::new()
    }
}

} // verus!
