//! Coverage reports.
//!
//! A report gives, for each source file it knows, one entry per line: no
//! entry for a line that cannot be run, else the number of times the line
//! was run. Two formats exist. A coveralls report is a flat list of files;
//! a covdir report is a tree that mirrors the directories and states the
//! coverage of the whole project at its root.

use vstd::prelude::*;
use vstd::string::*;
use crate::error::Error;
use crate::output::texts;

verus! {

/// A source file of a coveralls report.
#[derive(Debug)]
pub struct CoverallsSourceFile {
    /// The path of the file: the project path joined with its name.
    pub path: String,
    /// The name of the file, relative to the project.
    pub name: String,
    /// The coverage of its lines.
    pub coverage: Vec<Option<i64>>,
}

/// A coveralls report. Of two files with one path the later one counts.
#[derive(Debug)]
pub struct Coveralls(pub Vec<CoverallsSourceFile>);

/// A source file of a covdir report.
#[derive(Debug)]
pub struct CovdirSourceFile {
    /// The path of the file: the project path joined with its segments.
    pub path: String,
    /// The coverage of its lines.
    pub coverage: Vec<Option<i64>>,
    /// The coverage of the file as the report states it, in hundredths.
    pub coverage_percent: u64,
}

/// A covdir report. Of two files with one path the later one counts.
#[derive(Debug)]
pub struct Covdir {
    /// The source files of the report.
    pub source_files: Vec<CovdirSourceFile>,
    /// The coverage of the whole project as the report states it, in
    /// hundredths.
    pub total_coverage: u64,
}

/// A coverage report of either format.
#[derive(Debug)]
pub enum Grcov {
    /// A coveralls report.
    Coveralls(Coveralls),
    /// A covdir report.
    Covdir(Covdir),
}

/// The children of a node of a covdir tree.
#[derive(Debug)]
pub enum CovdirChildren {
    /// The node has no `children` entry: it is a source file.
    Absent,
    /// The node has a `children` entry that holds no nodes.
    Invalid,
    /// The node is a directory with these children.
    Nodes(Vec<CovdirNode>),
}

/// A node of a covdir tree. Each field holds the entry of that name if the
/// entry is there and of the right type.
#[derive(Debug)]
pub struct CovdirNode {
    /// The `name` entry, if it is text.
    pub name: Option<String>,
    /// The `coveragePercent` entry, if it is a number, in hundredths.
    pub coverage_percent: Option<u64>,
    /// The `coverage` entry, if it is a list; each item that is an integer.
    pub coverage: Option<Vec<Option<i64>>>,
    /// The `children` entry.
    pub children: CovdirChildren,
}

/// A source file found in a covdir tree.
#[derive(Debug)]
pub struct CovdirFile {
    /// The names of the nodes from the root down to the file.
    pub segments: Vec<String>,
    /// The coverage of its lines.
    pub coverage: Vec<Option<i64>>,
    /// The coverage of the file as the tree states it, in hundredths.
    pub coverage_percent: u64,
}

/// A source file found in a covdir tree, seen mathematically.
pub struct CovdirRow {
    /// The names of the nodes from the root down to the file.
    pub segments: Seq<Seq<char>>,
    /// The coverage of its lines.
    pub coverage: Seq<Option<i64>>,
    /// The coverage of the file as the tree states it.
    pub coverage_percent: u64,
}

impl View for CovdirFile {
    type V = CovdirRow;

    open spec fn view(&self) -> CovdirRow {
        CovdirRow {
            segments: texts(self.segments@),
            coverage: self.coverage@,
            coverage_percent: self.coverage_percent,
        }
    }
}

/// The rows of a list of files.
pub open spec fn file_rows(files: Seq<CovdirFile>) -> Seq<CovdirRow> {
    Seq::new(files.len(), |i: int| files[i]@)
}

/// The line coverage that a covdir list stands for: items that are no
/// integers are left out, `-1` marks a line that cannot be run, and any
/// other number is the number of runs.
pub open spec fn parse_coverage_spec(values: Seq<Option<i64>>) -> Seq<Option<i64>>
    decreases values.len(),
{
    if values.len() == 0 {
        Seq::empty()
    } else {
        let before = parse_coverage_spec(values.drop_last());
        match values.last() {
            None => before,
            Some(v) => before.push(
                if v == -1 {
                    None
                } else {
                    Some(v)
                },
            ),
        }
    }
}

/// The file that a leaf of the tree stands for, if the leaf has a name, a
/// coverage list and a coverage percentage.
pub open spec fn leaf_rows(node: CovdirNode, prefix: Seq<Seq<char>>) -> Seq<CovdirRow> {
    match (node.name, node.coverage, node.coverage_percent) {
        (Some(name), Some(coverage), Some(percent)) => seq![
            CovdirRow {
                segments: prefix.push(name@),
                coverage: parse_coverage_spec(coverage@),
                coverage_percent: percent,
            },
        ],
        _ => Seq::empty(),
    }
}

impl CovdirNode {
    /// The children of a directory; none for any other node.
    pub open spec fn kids(&self) -> Seq<CovdirNode> {
        match self.children {
            CovdirChildren::Nodes(kids) => kids@,
            _ => Seq::empty(),
        }
    }
}

/// The files below the first `n` children of `node`, depth first. A file
/// is a node without children; its segments are the names from the root
/// down to it. A directory without a name, or whose children are no nodes,
/// contributes nothing.
pub open spec fn walk(node: CovdirNode, prefix: Seq<Seq<char>>, n: nat) -> Seq<CovdirRow>
    decreases node, n,
{
    match node.children {
        CovdirChildren::Absent => leaf_rows(node, prefix),
        CovdirChildren::Invalid => Seq::empty(),
        CovdirChildren::Nodes(kids) => match node.name {
            None => Seq::empty(),
            Some(name) => if n == 0 || n > kids@.len() {
                Seq::empty()
            } else {
                walk(node, prefix, (n - 1) as nat) + walk(
                    kids@[n - 1],
                    prefix.push(name@),
                    kids@[n - 1].kids().len(),
                )
            },
        },
    }
}

/// All files below `node`, depth first.
pub open spec fn covdir_files(node: CovdirNode, prefix: Seq<Seq<char>>) -> Seq<CovdirRow> {
    walk(node, prefix, node.kids().len())
}

/// The index of the last of the first `n` paths that equals `file`, or
/// `-1`.
pub open spec fn last_with_path(paths: Seq<Seq<char>>, file: Seq<char>, n: int) -> int
    decreases n,
{
    if n <= 0 || n > paths.len() {
        -1
    } else if paths[n - 1] == file {
        n - 1
    } else {
        last_with_path(paths, file, n - 1)
    }
}

impl Coveralls {
    /// The paths of the files, in order.
    pub open spec fn paths(&self) -> Seq<Seq<char>> {
        Seq::new(self.0@.len(), |i: int| self.0@[i].path@)
    }

    /// The index of the entry that counts for `file`.
    fn find(&self, file: &String) -> (found: Option<usize>)
        ensures
            match found {
                Some(k) => k < self.0@.len() && k == last_with_path(
                    self.paths(),
                    file@,
                    self.0@.len() as int,
                ),
                None => last_with_path(self.paths(), file@, self.0@.len() as int) == -1,
            },
    {
        let mut n: usize = self.0.len();
        while n > 0
            invariant
                n <= self.0@.len(),
                last_with_path(self.paths(), file@, self.0@.len() as int) == last_with_path(
                    self.paths(),
                    file@,
                    n as int,
                ),
            decreases n,
        {
            if self.0[n - 1].path == *file {
                return Some(n - 1);
            }
            n -= 1;
        }
        None
    }
}

impl Covdir {
    /// The paths of the files, in order.
    pub open spec fn paths(&self) -> Seq<Seq<char>> {
        Seq::new(self.source_files@.len(), |i: int| self.source_files@[i].path@)
    }

    /// The index of the entry that counts for `file`.
    fn find(&self, file: &String) -> (found: Option<usize>)
        ensures
            match found {
                Some(k) => k < self.source_files@.len() && k == last_with_path(
                    self.paths(),
                    file@,
                    self.source_files@.len() as int,
                ),
                None => last_with_path(self.paths(), file@, self.source_files@.len() as int)
                    == -1,
            },
    {
        let mut n: usize = self.source_files.len();
        while n > 0
            invariant
                n <= self.source_files@.len(),
                last_with_path(self.paths(), file@, self.source_files@.len() as int)
                    == last_with_path(self.paths(), file@, n as int),
            decreases n,
        {
            if self.source_files[n - 1].path == *file {
                return Some(n - 1);
            }
            n -= 1;
        }
        None
    }
}

impl Grcov {
    /// What the report holds for the file with the given path: the
    /// coverage of its lines and, in a coveralls report, its name.
    pub open spec fn entry(&self, file: Seq<char>) -> Option<(Seq<Option<i64>>, Option<Seq<char>>)> {
        match *self {
            Grcov::Coveralls(coveralls) => {
                let k = last_with_path(coveralls.paths(), file, coveralls.0@.len() as int);
                if k < 0 {
                    None
                } else {
                    Some((coveralls.0@[k].coverage@, Some(coveralls.0@[k].name@)))
                }
            },
            Grcov::Covdir(covdir) => {
                let k = last_with_path(covdir.paths(), file, covdir.source_files@.len() as int);
                if k < 0 {
                    None
                } else {
                    Some((covdir.source_files@[k].coverage@, None))
                }
            },
        }
    }

    /// The coverage of the lines of the file with the given path, if the
    /// report knows the file.
    pub fn get_lines_coverage(&self, file: &str) -> (lines: Option<&Vec<Option<i64>>>)
        ensures
            match lines {
                Some(coverage) => self.entry(file@) matches Some(entry) && entry.0 == coverage@,
                None => self.entry(file@).is_none(),
            },
    {
        let file = String::from_str(file);
        match self {
            Grcov::Coveralls(coveralls) => match coveralls.find(&file) {
                Some(k) => Some(&coveralls.0[k].coverage),
                None => None,
            },
            Grcov::Covdir(covdir) => match covdir.find(&file) {
                Some(k) => Some(&covdir.source_files[k].coverage),
                None => None,
            },
        }
    }

    /// The name under which the file with the given path is reported: in a
    /// coveralls report the name that the report gives it, if it knows the
    /// file; in a covdir report the path of the file within the project,
    /// which the caller hands in as `relative_path`.
    pub fn get_file_name(&self, file: &str, relative_path: Option<String>) -> (name: Option<
        String,
    >)
        ensures
            match *self {
                Grcov::Coveralls(_) => match self.entry(file@) {
                    Some(entry) => name matches Some(text) && Some(text@) == entry.1,
                    None => name.is_none(),
                },
                Grcov::Covdir(_) => name == relative_path,
            },
    {
        match self {
            Grcov::Coveralls(coveralls) => {
                let file = String::from_str(file);
                match coveralls.find(&file) {
                    Some(k) => Some(coveralls.0[k].name.clone()),
                    None => None,
                }
            },
            Grcov::Covdir(_) => relative_path,
        }
    }

    /// The coverage of the whole project as the report states it: a covdir
    /// report states it, a coveralls report does not.
    pub fn total_coverage(&self) -> (total: Option<u64>)
        ensures
            total == match *self {
                Grcov::Coveralls(_) => None,
                Grcov::Covdir(covdir) => Some(covdir.total_coverage),
            },
    {
        match self {
            Grcov::Coveralls(_) => None,
            Grcov::Covdir(covdir) => Some(covdir.total_coverage),
        }
    }
}

/// The line coverage that a covdir list stands for.
pub fn parse_coverage(json_coverage: &Vec<Option<i64>>) -> (coverage: Vec<Option<i64>>)
    ensures
        coverage@ == parse_coverage_spec(json_coverage@),
{
    let mut coverage: Vec<Option<i64>> = Vec::new();
    let mut i: usize = 0;
    while i < json_coverage.len()
        invariant
            i <= json_coverage@.len(),
            coverage@ == parse_coverage_spec(json_coverage@.take(i as int)),
        decreases json_coverage@.len() - i,
    {
        proof {
            assert(json_coverage@.take(i as int + 1).drop_last() =~= json_coverage@.take(i as int));
        }
        if let Some(v) = json_coverage[i] {
            coverage.push(if v == -1 { None } else { Some(v) });
        }
        i += 1;
    }
    proof {
        assert(json_coverage@.take(i as int) =~= json_coverage@);
    }
    coverage
}

/// The coverage of the whole project as the root of a covdir tree states
/// it; fails if the root states none.
pub fn get_total_coverage(covdir: &CovdirNode) -> (total: Result<u64, Error>)
    ensures
        match covdir.coverage_percent {
            Some(percent) => total == Ok::<u64, Error>(percent),
            None => total == Err::<u64, Error>(Error::Conversion),
        },
{
    match covdir.coverage_percent {
        Some(percent) => Ok(percent),
        None => Err(Error::Conversion),
    }
}

/// A copy of a list of names.
fn copy_names(names: &Vec<String>) -> (copy: Vec<String>)
    ensures
        texts(copy@) == texts(names@),
{
    let mut copy: Vec<String> = Vec::new();
    let mut i: usize = 0;
    while i < names.len()
        invariant
            i <= names@.len(),
            copy@.len() == i,
            forall|j: int| 0 <= j < i ==> (#[trigger] copy@[j])@ == names@[j]@,
        decreases names@.len() - i,
    {
        copy.push(names[i].clone());
        i += 1;
    }
    assert(texts(copy@) =~= texts(names@));
    copy
}

/// Adds the file that a leaf stands for, if it stands for one.
fn handle_file_value(file_value: &CovdirNode, current_path: &Vec<String>, files: &mut Vec<CovdirFile>)
    ensures
        file_rows(final(files)@) == file_rows(old(files)@) + leaf_rows(
            *file_value,
            texts(current_path@),
        ),
{
    if let Some(name) = &file_value.name {
        if let (Some(lines_coverage), Some(coverage_percentage)) = (
            &file_value.coverage,
            file_value.coverage_percent,
        ) {
            let mut segments = copy_names(current_path);
            segments.push(name.clone());
            assert(texts(segments@) =~= texts(current_path@).push(name@));
            let file = CovdirFile {
                segments,
                coverage: parse_coverage(lines_coverage),
                coverage_percent: coverage_percentage,
            };
            let ghost before = file_rows(files@);
            files.push(file);
            assert(file_rows(files@) =~= before + seq![file@]);
            return;
        }
    }
    assert(file_rows(files@) =~= file_rows(files@) + Seq::<CovdirRow>::empty());
}

/// Adds all files below `node`, depth first.
fn collect_files(node: &CovdirNode, current_path: &Vec<String>, files: &mut Vec<CovdirFile>)
    ensures
        file_rows(final(files)@) == file_rows(old(files)@) + covdir_files(
            *node,
            texts(current_path@),
        ),
    decreases *node,
{
    let ghost start = file_rows(files@);
    match &node.children {
        CovdirChildren::Absent => {
            handle_file_value(node, current_path, files);
        },
        CovdirChildren::Invalid => {
            assert(start =~= start + Seq::<CovdirRow>::empty());
        },
        CovdirChildren::Nodes(kids) => {
            if let Some(name) = &node.name {
                let mut path = copy_names(current_path);
                path.push(name.clone());
                assert(texts(path@) =~= texts(current_path@).push(name@));
                let mut i: usize = 0;
                assert(start =~= start + Seq::<CovdirRow>::empty());
                while i < kids.len()
                    invariant
                        i <= kids@.len(),
                        node.children == CovdirChildren::Nodes(*kids),
                        node.name == Some(*name),
                        texts(path@) == texts(current_path@).push(name@),
                        file_rows(files@) == start + walk(*node, texts(current_path@), i as nat),
                    decreases kids@.len() - i,
                {
                    let ghost before = file_rows(files@);
                    collect_files(&kids[i], &path, files);
                    proof {
                        let below = walk(
                            kids@[i as int],
                            texts(path@),
                            kids@[i as int].kids().len(),
                        );
                        assert(file_rows(files@) =~= start + (walk(
                            *node,
                            texts(current_path@),
                            i as nat,
                        ) + below));
                    }
                    i += 1;
                }
            } else {
                assert(start =~= start + Seq::<CovdirRow>::empty());
            }
        },
    }
}

/// All source files of a covdir tree, depth first, each with the names of
/// the nodes from the root down to it.
pub fn get_source_files(covdir: &CovdirNode) -> (files: Vec<CovdirFile>)
    ensures
        file_rows(files@) == covdir_files(*covdir, Seq::empty()),
{
    let mut files: Vec<CovdirFile> = Vec::new();
    let current_path: Vec<String> = Vec::new();
    assert(texts(current_path@) =~= Seq::<Seq<char>>::empty());
    let ghost start = file_rows(files@);
    collect_files(covdir, &current_path, &mut files);
    assert(file_rows(files@) =~= start + covdir_files(*covdir, Seq::empty()));
    assert(start =~= Seq::<CovdirRow>::empty());
    files
}

} // verus!
