//! The options of an analysis: input format, analysis mode, sort key,
//! complexity dimension and user thresholds.

use vstd::prelude::*;
use vstd::string::*;
use crate::score::LIMIT;

verus! {

/// Available formats of the coverage report.
#[derive(Debug, Clone, Copy, PartialEq, Eq, Structural)]
pub enum GrcovFormat {
    /// A flat list of source files.
    Coveralls,
    /// A tree that mirrors the directories.
    Covdir,
}

/// What `GrcovFormat::from_str` makes of a name.
pub open spec fn grcov_format_named(name: Seq<char>) -> Option<GrcovFormat> {
    if name == "coveralls"@ {
        Some(GrcovFormat::Coveralls)
    } else if name == "covdir"@ {
        Some(GrcovFormat::Covdir)
    } else {
        None
    }
}

impl GrcovFormat {
    /// All `GrcovFormat` options.
    pub fn all() -> (names: &'static [&'static str])
        ensures
            names@ == seq!["coveralls", "covdir"],
    {
        &["coveralls", "covdir"]
    }

    /// The name of the format.
    pub fn as_str(&self) -> (name: &'static str)
        ensures
            name@ == match *self {
                GrcovFormat::Coveralls => "coveralls"@,
                GrcovFormat::Covdir => "covdir"@,
            },
    {
        match self {
            GrcovFormat::Coveralls => "coveralls",
            GrcovFormat::Covdir => "covdir",
        }
    }

    /// The format with the given name, if it is one of `all()`.
    pub fn from_str(name: &str) -> (format: Option<GrcovFormat>)
        ensures
            format == grcov_format_named(name@),
    {
        let name = String::from_str(name);
        if name == String::from_str("coveralls") {
            Some(GrcovFormat::Coveralls)
        } else if name == String::from_str("covdir") {
            Some(GrcovFormat::Covdir)
        } else {
            None
        }
    }
}

/// The coverage report handed to an analysis, tagged with its format.
#[derive(Debug, Clone, PartialEq, Eq, Hash)]
pub enum GrcovFile<P> {
    /// A report in the coveralls format.
    Coveralls(P),
    /// A report in the covdir format.
    Covdir(P),
}

impl<P> GrcovFile<P> {
    /// The format of the report.
    pub fn format(&self) -> (format: GrcovFormat)
        ensures
            format == match *self {
                GrcovFile::Coveralls(_) => GrcovFormat::Coveralls,
                GrcovFile::Covdir(_) => GrcovFormat::Covdir,
            },
    {
        match self {
            GrcovFile::Coveralls(_) => GrcovFormat::Coveralls,
            GrcovFile::Covdir(_) => GrcovFormat::Covdir,
        }
    }
}

/// Complexity dimensions.
#[derive(Copy, Debug, Clone, PartialEq, Eq, Structural, Hash)]
pub enum Complexity {
    /// Cyclomatic complexity.
    Cyclomatic,
    /// Cognitive complexity.
    Cognitive,
}

impl Default for Complexity {
    fn default() -> (complexity: Complexity)
        ensures
            complexity == Complexity::Cyclomatic,
    {
        Complexity::Cyclomatic
    }
}

/// Analysis mode.
#[derive(Copy, Debug, Clone, PartialEq, Eq, Structural, Hash)]
pub enum Mode {
    /// Scores per file.
    Files,
    /// Scores per file and, within each file, per function.
    Functions,
}

/// What `Mode::from_str` makes of a name.
pub open spec fn mode_named(name: Seq<char>) -> Option<Mode> {
    if name == "files"@ {
        Some(Mode::Files)
    } else if name == "functions"@ {
        Some(Mode::Functions)
    } else {
        None
    }
}

impl Mode {
    /// All `Mode` options.
    pub fn all() -> (names: &'static [&'static str])
        ensures
            names@ == seq!["files", "functions"],
    {
        &["files", "functions"]
    }

    /// Default `Mode` option.
    pub fn default_value() -> (name: &'static str)
        ensures
            name@ == "files"@,
            mode_named(name@) == Some(Mode::Files),
    {
        "files"
    }

    /// The name of the mode.
    pub fn as_str(&self) -> (name: &'static str)
        ensures
            name@ == match *self {
                Mode::Files => "files"@,
                Mode::Functions => "functions"@,
            },
    {
        match self {
            Mode::Files => "files",
            Mode::Functions => "functions",
        }
    }

    /// The mode with the given name, if it is one of `all()`.
    pub fn from_str(name: &str) -> (mode: Option<Mode>)
        ensures
            mode == mode_named(name@),
    {
        let name = String::from_str(name);
        if name == String::from_str("files") {
            Some(Mode::Files)
        } else if name == String::from_str("functions") {
            Some(Mode::Functions)
        } else {
            None
        }
    }
}

impl Default for Mode {
    fn default() -> (mode: Mode)
        ensures
            mode == Mode::Files,
    {
        Mode::Files
    }
}

/// The score by which the output is sorted.
#[derive(Copy, Debug, Clone, PartialEq, Eq, Structural, Hash)]
pub enum Sort {
    /// Weighted code coverage.
    Wcc,
    /// CRAP.
    Crap,
    /// SKUNK.
    Skunk,
}

/// What `Sort::from_str` makes of a name.
pub open spec fn sort_named(name: Seq<char>) -> Option<Sort> {
    if name == "wcc"@ {
        Some(Sort::Wcc)
    } else if name == "crap"@ {
        Some(Sort::Crap)
    } else if name == "skunk"@ {
        Some(Sort::Skunk)
    } else {
        None
    }
}

impl Sort {
    /// All `Sort` options.
    pub fn all() -> (names: &'static [&'static str])
        ensures
            names@ == seq!["wcc", "crap", "skunk"],
    {
        &["wcc", "crap", "skunk"]
    }

    /// Default `Sort` option.
    pub fn default_value() -> (name: &'static str)
        ensures
            name@ == "wcc"@,
            sort_named(name@) == Some(Sort::Wcc),
    {
        "wcc"
    }

    /// The name of the sort key.
    pub fn as_str(&self) -> (name: &'static str)
        ensures
            name@ == match *self {
                Sort::Wcc => "wcc"@,
                Sort::Crap => "crap"@,
                Sort::Skunk => "skunk"@,
            },
    {
        match self {
            Sort::Wcc => "wcc",
            Sort::Crap => "crap",
            Sort::Skunk => "skunk",
        }
    }

    /// The sort key with the given name, if it is one of `all()`.
    pub fn from_str(name: &str) -> (sort: Option<Sort>)
        ensures
            sort == sort_named(name@),
    {
        let name = String::from_str(name);
        if name == String::from_str("wcc") {
            Some(Sort::Wcc)
        } else if name == String::from_str("crap") {
            Some(Sort::Crap)
        } else if name == String::from_str("skunk") {
            Some(Sort::Skunk)
        } else {
            None
        }
    }
}

impl Default for Sort {
    fn default() -> (sort: Sort)
        ensures
            sort == Sort::Wcc,
    {
        Sort::Wcc
    }
}

/// User thresholds, in hundredths: a floor for the weighted coverage and,
/// for each complexity dimension, the complexity from which the CRAP and
/// SKUNK ceilings are derived.
#[derive(Debug, Clone, Copy, PartialEq, Eq, Structural)]
pub struct Thresholds {
    wcc: u64,
    cyclomatic_complexity: u64,
    cognitive_complexity: u64,
}

impl Thresholds {
    /// The floor of the weighted coverage.
    pub closed spec fn wcc_floor(&self) -> nat {
        self.wcc as nat
    }

    /// The cyclomatic complexity that the ceilings are derived from.
    pub closed spec fn cyclomatic(&self) -> nat {
        self.cyclomatic_complexity as nat
    }

    /// The cognitive complexity that the ceilings are derived from.
    pub closed spec fn cognitive(&self) -> nat {
        self.cognitive_complexity as nat
    }

    /// Both complexities are small enough for ceilings to be derived.
    pub open spec fn valid(&self) -> bool {
        self.cyclomatic() <= LIMIT && self.cognitive() <= LIMIT
    }

    /// Thresholds from three values in hundredths, unless a complexity
    /// exceeds `LIMIT`.
    pub fn new(wcc: u64, cyclomatic_complexity: u64, cognitive_complexity: u64) -> (thresholds:
        Option<Thresholds>)
        ensures
            thresholds.is_some() <==> cyclomatic_complexity <= LIMIT && cognitive_complexity
                <= LIMIT,
            thresholds matches Some(t) ==> t.valid() && t.wcc_floor() == wcc && t.cyclomatic()
                == cyclomatic_complexity && t.cognitive() == cognitive_complexity,
    {
        if cyclomatic_complexity <= LIMIT && cognitive_complexity <= LIMIT {
            Some(Thresholds { wcc, cyclomatic_complexity, cognitive_complexity })
        } else {
            None
        }
    }

    /// The floor of the weighted coverage, in hundredths.
    pub fn wcc(&self) -> (wcc: u64)
        ensures
            wcc == self.wcc_floor(),
    {
        self.wcc
    }

    /// The cyclomatic complexity threshold, in hundredths.
    pub fn cyclomatic_complexity(&self) -> (complexity: u64)
        ensures
            complexity == self.cyclomatic(),
    {
        self.cyclomatic_complexity
    }

    /// The cognitive complexity threshold, in hundredths.
    pub fn cognitive_complexity(&self) -> (complexity: u64)
        ensures
            complexity == self.cognitive(),
    {
        self.cognitive_complexity
    }
}

impl Default for Thresholds {
    /// A coverage floor of 60 and a complexity of 10 in both dimensions.
    fn default() -> (thresholds: Thresholds)
        ensures
            thresholds.valid(),
            thresholds.wcc_floor() == 6000,
            thresholds.cyclomatic() == 1000,
            thresholds.cognitive() == 1000,
    {
        Thresholds { wcc: 6000, cyclomatic_complexity: 1000, cognitive_complexity: 1000 }
    }
}

} // verus!
