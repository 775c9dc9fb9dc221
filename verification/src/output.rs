//! The result of an analysis: scores per file, per function and for the
//! whole project.

use vstd::prelude::*;
use vstd::string::*;
use vstd::multiset::Multiset;
use crate::metrics::{function_metrics, totals_metrics, Metrics, MetricsThresholds};
use crate::options::Complexity;
use crate::project::{ProjectData, SpaceData};

verus! {

/// The scores of a function.
#[derive(Debug, Clone)]
pub struct FunctionMetrics {
    /// The key of the function: its name and its lines.
    pub name: String,
    /// The scores of the function.
    pub metrics: Metrics,
}

/// The scores of a function, seen mathematically.
pub struct FunctionRow {
    /// The key of the function.
    pub name: Seq<char>,
    /// The scores of the function.
    pub metrics: Metrics,
}

impl View for FunctionMetrics {
    type V = FunctionRow;

    open spec fn view(&self) -> FunctionRow {
        FunctionRow { name: self.name@, metrics: self.metrics }
    }
}

impl FunctionMetrics {
    /// The scores of the function with the given counts.
    pub fn new(name: String, space_data: SpaceData, metrics_thresholds: MetricsThresholds)
        -> (function: FunctionMetrics)
        requires
            space_data.consistent(),
            space_data.in_range(),
        ensures
            function.name == name,
            function.metrics == function_metrics(space_data, metrics_thresholds),
            function.metrics.coverage <= 10_000,
    {
        FunctionMetrics { name, metrics: Metrics::function(space_data, metrics_thresholds) }
    }
}

/// The scores of a file.
#[derive(Debug, Clone)]
pub struct FileMetrics {
    /// The name of the file.
    pub name: String,
    /// The scores of the file.
    pub metrics: Metrics,
    /// The scores of its functions, where functions are analysed and the
    /// file has any.
    pub functions: Option<Vec<FunctionMetrics>>,
}

/// The scores of a file, seen mathematically.
pub struct FileRow {
    /// The name of the file.
    pub name: Seq<char>,
    /// The scores of the file.
    pub metrics: Metrics,
    /// The scores of its functions, in order.
    pub functions: Option<Seq<FunctionRow>>,
}

/// What a file row says, whatever the order of its functions.
pub struct FileContent {
    /// The name of the file.
    pub name: Seq<char>,
    /// The scores of the file.
    pub metrics: Metrics,
    /// The scores of its functions, in no order.
    pub functions: Option<Multiset<FunctionRow>>,
}

impl View for FileMetrics {
    type V = FileRow;

    open spec fn view(&self) -> FileRow {
        FileRow {
            name: self.name@,
            metrics: self.metrics,
            functions: match self.functions {
                Some(list) => Some(function_views(list@)),
                None => None,
            },
        }
    }
}

/// What a file row says, whatever the order of its functions.
pub open spec fn file_content(file: FileMetrics) -> FileContent {
    FileContent {
        name: file.name@,
        metrics: file.metrics,
        functions: match file.functions {
            Some(list) => Some(function_views(list@).to_multiset()),
            None => None,
        },
    }
}

/// What each of `files` says, whatever the order of its functions.
pub open spec fn file_contents(files: Seq<FileMetrics>) -> Seq<FileContent> {
    Seq::new(files.len(), |i: int| file_content(files[i]))
}

/// The rows of a list of files.
pub open spec fn file_views(files: Seq<FileMetrics>) -> Seq<FileRow> {
    Seq::new(files.len(), |i: int| files[i]@)
}

/// The rows of a list of functions.
pub open spec fn function_views(functions: Seq<FunctionMetrics>) -> Seq<FunctionRow> {
    Seq::new(functions.len(), |i: int| functions[i]@)
}

/// The scores of each of `files`.
pub open spec fn file_scores(files: Seq<FileMetrics>) -> Seq<Metrics> {
    Seq::new(files.len(), |i: int| files[i].metrics)
}

/// The texts of a list of strings.
pub open spec fn texts(names: Seq<String>) -> Seq<Seq<char>> {
    Seq::new(names.len(), |i: int| names[i]@)
}

impl FileMetrics {
    /// The scores of the file with the given totals.
    pub fn new(
        name: String,
        project_data: ProjectData,
        metrics_thresholds: MetricsThresholds,
        functions: Option<Vec<FunctionMetrics>>,
    ) -> (file: FileMetrics)
        requires
            project_data@.consistent(),
            project_data@.in_range(),
        ensures
            file.name == name,
            file.metrics == totals_metrics(project_data@, metrics_thresholds),
            file.functions == functions,
            file.metrics.coverage <= 10_000,
            project_data.ploc == 0 ==> file.metrics.coverage == 0,
    {
        FileMetrics { name, metrics: Metrics::file(project_data, metrics_thresholds), functions }
    }
}

/// The four rows of the project summary.
#[derive(Debug, Clone, Copy, PartialEq, Eq, Structural)]
pub struct ProjectMetrics {
    /// The scores of all files taken as one scope.
    pub total: Metrics,
    /// The element-wise minimum over the files.
    pub min: Metrics,
    /// The element-wise maximum over the files.
    pub max: Metrics,
    /// The element-wise mean over the files.
    pub average: Metrics,
}

impl ProjectMetrics {
    /// The summary with the given rows.
    pub fn new(total: Metrics, min: Metrics, max: Metrics, average: Metrics) -> (project:
        ProjectMetrics)
        ensures
            project == (ProjectMetrics { total, min, max, average }),
    {
        ProjectMetrics { total, min, max, average }
    }
}

/// The result of an analysis.
#[derive(Debug)]
pub struct WccOutput {
    /// The scores of the files, sorted.
    pub files: Vec<FileMetrics>,
    /// The project summary.
    pub project: ProjectMetrics,
    /// The files of which the coverage report knows nothing, sorted.
    pub ignored_files: Vec<String>,
}

/// The names of the files that are complex in a dimension, in the order of
/// the files.
pub open spec fn complex_names(files: Seq<FileMetrics>, dimension: Complexity) -> Seq<Seq<char>>
    decreases files.len(),
{
    if files.len() == 0 {
        Seq::empty()
    } else {
        let before = complex_names(files.drop_last(), dimension);
        let complex = match dimension {
            Complexity::Cyclomatic => files.last().metrics.cyclomatic.is_complex,
            Complexity::Cognitive => files.last().metrics.cognitive.is_complex,
        };
        if complex {
            before.push(files.last().name@)
        } else {
            before
        }
    }
}

impl WccOutput {
    /// The names of the files that are complex in a dimension.
    pub fn get_complex_files(&self, complexity: Complexity) -> (names: Vec<&str>)
        ensures
            names@.len() == complex_names(self.files@, complexity).len(),
            forall|i: int|
                0 <= i < names@.len() ==> (#[trigger] names@[i])@ == complex_names(
                    self.files@,
                    complexity,
                )[i],
    {
        let mut names: Vec<&str> = Vec::new();
        let mut i: usize = 0;
        while i < self.files.len()
            invariant
                i <= self.files@.len(),
                names@.len() == complex_names(self.files@.take(i as int), complexity).len(),
                forall|k: int|
                    0 <= k < names@.len() ==> (#[trigger] names@[k])@ == complex_names(
                        self.files@.take(i as int),
                        complexity,
                    )[k],
            decreases self.files@.len() - i,
        {
            proof {
                assert(self.files@.take(i as int + 1).drop_last() =~= self.files@.take(i as int));
            }
            let file = &self.files[i];
            let complex = match complexity {
                Complexity::Cyclomatic => file.metrics.cyclomatic.is_complex,
                Complexity::Cognitive => file.metrics.cognitive.is_complex,
            };
            if complex {
                names.push(file.name.as_str());
            }
            i += 1;
        }
        proof {
            assert(self.files@.take(i as int) =~= self.files@);
        }
        names
    }

    /// The result with the given parts.
    pub fn new(files: Vec<FileMetrics>, project: ProjectMetrics, ignored_files: Vec<String>)
        -> (output: WccOutput)
        ensures
            output.files == files,
            output.project == project,
            output.ignored_files == ignored_files,
    {
        WccOutput { files, project, ignored_files }
    }
}

} // verus!
