use std::path::Path;

use weighted_code_coverage::grcov::{
    get_source_files, get_total_coverage, parse_coverage, Covdir, CovdirChildren, CovdirFile,
    CovdirNode, CovdirSourceFile, Coveralls, CoverallsSourceFile, Grcov,
};
use weighted_code_coverage::Error;

fn leaf(name: &str, coverage: Vec<i64>, percent: u64) -> CovdirNode {
    CovdirNode {
        name: Some(name.to_string()),
        coverage_percent: Some(percent),
        coverage: Some(coverage.into_iter().map(Some).collect()),
        children: CovdirChildren::Absent,
    }
}

fn directory(name: &str, percent: u64, children: Vec<CovdirNode>) -> CovdirNode {
    CovdirNode {
        name: Some(name.to_string()),
        coverage_percent: Some(percent),
        coverage: None,
        children: CovdirChildren::Nodes(children),
    }
}

fn joined(project: &str, file: &CovdirFile) -> String {
    let relative: std::path::PathBuf = file.segments.iter().collect();
    Path::new(project).join(relative).to_string_lossy().replace('\\', "/")
}

fn sample_tree() -> CovdirNode {
    directory(
        "",
        7721,
        vec![directory(
            "src",
            7721,
            vec![
                leaf("app.rs", vec![-1, -1], 8662),
                directory(
                    "inner_module",
                    0,
                    vec![leaf("inner_module_file.rs", vec![-1, -1], 0), leaf("mod.rs", vec![0, -1], 0)],
                ),
                leaf("lib.rs", vec![2], 10000),
            ],
        )],
    )
}

#[test]
fn test_covdir() {
    let tree = sample_tree();
    let files = get_source_files(&tree);
    let source_files: Vec<CovdirSourceFile> = files
        .iter()
        .map(|file| CovdirSourceFile {
            path: joined("project/test/path/", file),
            coverage: file.coverage.clone(),
            coverage_percent: file.coverage_percent,
        })
        .collect();
    let covdir = Covdir { source_files, total_coverage: get_total_coverage(&tree).unwrap() };
    let listed: Vec<(&str, &Vec<Option<i64>>, u64)> = covdir
        .source_files
        .iter()
        .map(|f| (f.path.as_str(), &f.coverage, f.coverage_percent))
        .collect();
    assert_eq!(
        listed,
        vec![
            ("project/test/path/src/app.rs", &vec![None, None], 8662),
            (
                "project/test/path/src/inner_module/inner_module_file.rs",
                &vec![None, None],
                0
            ),
            ("project/test/path/src/inner_module/mod.rs", &vec![Some(0), None], 0),
            ("project/test/path/src/lib.rs", &vec![Some(2)], 10000),
        ]
    );
    assert_eq!(covdir.total_coverage, 7721);
}

#[test]
fn test_coveralls() {
    let file = |name: &str, coverage: Vec<Option<i64>>| CoverallsSourceFile {
        path: Path::new("project/test/path/").join(name).to_string_lossy().into_owned(),
        name: name.to_string(),
        coverage,
    };
    let coveralls = Grcov::Coveralls(Coveralls(vec![
        file("examples/single_app.rs", vec![None, Some(0)]),
        file("src/app.rs", vec![None, Some(5)]),
        file("src/error.rs", vec![Some(25), None]),
    ]));
    assert_eq!(
        coveralls.get_lines_coverage("project/test/path/examples/single_app.rs"),
        Some(&vec![None, Some(0)])
    );
    assert_eq!(
        coveralls.get_file_name("project/test/path/examples/single_app.rs", None),
        Some("examples/single_app.rs".to_string())
    );
    assert_eq!(
        coveralls.get_lines_coverage("project/test/path/src/app.rs"),
        Some(&vec![None, Some(5)])
    );
    assert_eq!(
        coveralls.get_file_name("project/test/path/src/app.rs", None),
        Some("src/app.rs".to_string())
    );
    assert_eq!(
        coveralls.get_lines_coverage("project/test/path/src/error.rs"),
        Some(&vec![Some(25), None])
    );
    assert_eq!(
        coveralls.get_file_name("project/test/path/src/error.rs", None),
        Some("src/error.rs".to_string())
    );
    assert_eq!(coveralls.get_lines_coverage("src/error.rs"), None);
    assert_eq!(coveralls.total_coverage(), None);
}

#[test]
fn covdir_coverage_is_parsed() {
    let items = vec![Some(-1), Some(0), None, Some(12), Some(-1), Some(-2), None];
    assert_eq!(parse_coverage(&items), vec![None, Some(0), Some(12), None, Some(-2)]);
    assert_eq!(parse_coverage(&vec![]), vec![]);
}

#[test]
fn covdir_files_have_the_segments_from_the_root() {
    let files = get_source_files(&sample_tree());
    let segments: Vec<Vec<&str>> =
        files.iter().map(|f| f.segments.iter().map(|s| s.as_str()).collect()).collect();
    assert_eq!(
        segments,
        vec![
            vec!["", "src", "app.rs"],
            vec!["", "src", "inner_module", "inner_module_file.rs"],
            vec!["", "src", "inner_module", "mod.rs"],
            vec!["", "src", "lib.rs"],
        ]
    );
}

#[test]
fn covdir_root_may_be_a_file() {
    let files = get_source_files(&leaf("only.rs", vec![1, -1, 0], 5000));
    assert_eq!(files.len(), 1);
    assert_eq!(files[0].segments, vec!["only.rs"]);
    assert_eq!(files[0].coverage, vec![Some(1), None, Some(0)]);
    assert_eq!(files[0].coverage_percent, 5000);
}

#[test]
fn covdir_nodes_with_missing_entries_are_left_out() {
    let nameless_file = CovdirNode { name: None, ..leaf("", vec![1], 1) };
    let no_coverage = CovdirNode { coverage: None, ..leaf("a.rs", vec![], 1) };
    let no_percent = CovdirNode { coverage_percent: None, ..leaf("b.rs", vec![1], 1) };
    let nameless_directory = CovdirNode { name: None, ..directory("", 1, vec![leaf("c.rs", vec![1], 1)]) };
    let broken_directory =
        CovdirNode { children: CovdirChildren::Invalid, ..leaf("d.rs", vec![1], 1) };
    let tree = directory(
        "root",
        100,
        vec![
            nameless_file,
            no_coverage,
            no_percent,
            nameless_directory,
            broken_directory,
            directory("empty", 1, vec![]),
            leaf("kept.rs", vec![3], 10000),
        ],
    );
    let files = get_source_files(&tree);
    assert_eq!(files.len(), 1);
    assert_eq!(files[0].segments, vec!["root", "kept.rs"]);
}

#[test]
fn covdir_total_coverage_is_that_of_the_root() {
    assert_eq!(get_total_coverage(&sample_tree()), Ok(7721));
    let root = CovdirNode { coverage_percent: None, ..directory("", 0, vec![]) };
    assert_eq!(get_total_coverage(&root), Err(Error::Conversion));
}

#[test]
fn covdir_report_is_looked_up_by_path() {
    let file = |path: &str, hits: i64| CovdirSourceFile {
        path: path.to_string(),
        coverage: vec![Some(hits)],
        coverage_percent: 100,
    };
    let covdir = Grcov::Covdir(Covdir {
        source_files: vec![file("p/a.rs", 1), file("p/b.rs", 2), file("p/a.rs", 3)],
        total_coverage: 4242,
    });
    assert_eq!(covdir.get_lines_coverage("p/a.rs"), Some(&vec![Some(3)]));
    assert_eq!(covdir.get_lines_coverage("p/b.rs"), Some(&vec![Some(2)]));
    assert_eq!(covdir.get_lines_coverage("p/c.rs"), None);
    assert_eq!(covdir.get_file_name("p/a.rs", Some("a.rs".to_string())), Some("a.rs".to_string()));
    assert_eq!(covdir.get_file_name("p/a.rs", None), None);
    assert_eq!(covdir.total_coverage(), Some(4242));
}

#[test]
fn coveralls_report_keeps_the_later_of_two_files() {
    let file = |name: &str, hits: i64| CoverallsSourceFile {
        path: format!("p/{}", name),
        name: format!("{}#{}", name, hits),
        coverage: vec![Some(hits)],
    };
    let coveralls = Grcov::Coveralls(Coveralls(vec![file("a.rs", 1), file("a.rs", 2)]));
    assert_eq!(coveralls.get_lines_coverage("p/a.rs"), Some(&vec![Some(2)]));
    assert_eq!(coveralls.get_file_name("p/a.rs", None), Some("a.rs#2".to_string()));
    assert_eq!(coveralls.get_file_name("p/b.rs", Some("b.rs".to_string())), None);
}
