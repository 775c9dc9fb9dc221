use weighted_code_coverage::code_unit::{CodeUnit, UnitKind};
use weighted_code_coverage::metrics::{Metrics, MetricsData, MetricsThresholds};
use weighted_code_coverage::order::{name_comes_first, sort_rows};
use weighted_code_coverage::project::ProjectData;
use weighted_code_coverage::score::LIMIT;
use weighted_code_coverage::wcc::Wcc;
use weighted_code_coverage::{Complexity, Error, FileMetrics, FunctionMetrics, Mode, Sort};

fn unit(
    kind: UnitKind,
    name: &str,
    lines: (usize, usize),
    complexity: (u64, u64),
    children: Vec<CodeUnit>,
) -> CodeUnit {
    CodeUnit {
        kind,
        name: Some(name.to_string()),
        start_line: lines.0,
        end_line: lines.1,
        cyclomatic_sum: complexity.0,
        cognitive_sum: complexity.1,
        children,
    }
}

fn worker(mode: Mode, sort_by: Sort) -> Wcc {
    Wcc::new(mode, MetricsThresholds::default(), sort_by)
}

fn row(name: &str, wcc: u64, crap: u64, skunk: u64) -> FileMetrics {
    let data = MetricsData { wcc, crap, skunk, complexity: 0, is_complex: false };
    FileMetrics {
        name: name.to_string(),
        metrics: Metrics { cyclomatic: data, cognitive: data, coverage: wcc },
        functions: None,
    }
}

fn names(files: &[FileMetrics]) -> Vec<&str> {
    files.iter().map(|f| f.name.as_str()).collect()
}

// One file with a single root unit: 10 executable lines, 8 of them covered,
// cyclomatic complexity 3.
#[test]
fn file_with_a_single_unit() {
    let root = unit(UnitKind::File, "main.rs", (1, 12), (3, 3), vec![]);
    let mut lines: Vec<Option<i64>> = vec![Some(4); 8];
    lines.extend([Some(0), Some(0), None, None]);
    let mut wcc = worker(Mode::Files, Sort::Wcc);
    let data = wcc
        .compute_metrics(None, Some("src/main.rs".to_string()), Some((&lines, &root)))
        .unwrap()
        .unwrap();
    assert_eq!(data.ploc, 10);
    assert_eq!(data.covered_lines, 8);
    assert_eq!(data.num_spaces, 1);
    let output = wcc.composer(&vec![data], None).unwrap();
    assert_eq!(output.files.len(), 1);
    let file = &output.files[0];
    assert_eq!(file.name, "src/main.rs");
    assert!(file.functions.is_none());
    assert_eq!(file.metrics.coverage, 8000);
    assert_eq!(file.metrics.cyclomatic.wcc, 8000);
    // 3^2 * 0.2^3 + 3 = 3.072, to one decimal.
    assert_eq!(file.metrics.cyclomatic.crap, 310);
    // (3 / 60) * 20 + 3 = 4.
    assert_eq!(file.metrics.cyclomatic.skunk, 400);
    assert_eq!(file.metrics.cyclomatic.complexity, 300);
    assert!(!file.metrics.cyclomatic.is_complex);
    assert_eq!(output.project.total, file.metrics);
    assert_eq!(output.project.min, file.metrics);
    assert_eq!(output.project.max, file.metrics);
    assert_eq!(output.project.average, file.metrics);
    assert!(output.ignored_files.is_empty());
}

// A file of the project that the coverage report does not know.
#[test]
fn file_without_coverage_is_ignored() {
    let mut wcc = worker(Mode::Files, Sort::Wcc);
    let found = wcc.compute_metrics(Some("src/unknown.rs".to_string()), None, None).unwrap();
    assert_eq!(found, None);
    assert!(wcc.files_metrics.is_empty());
    assert_eq!(wcc.ignored_files, vec!["src/unknown.rs".to_string()]);
    let output = wcc.composer(&vec![], None).unwrap();
    assert_eq!(output.ignored_files, vec!["src/unknown.rs".to_string()]);
    assert!(output.files.is_empty());
    assert_eq!(
        output.project.total,
        Metrics::project_total(ProjectData::default(), MetricsThresholds::default())
    );
    assert_eq!(output.project.total.coverage, 0);
    assert_eq!(output.project.min, Metrics::project_min());
    assert_eq!(output.project.max, Metrics::project_max());
    assert_eq!(output.project.average.coverage, 0);
}

// A covdir report states the coverage of the whole project.
#[test]
fn stated_total_coverage_is_kept() {
    let root = unit(UnitKind::File, "main.rs", (1, 4), (1, 1), vec![]);
    let lines: Vec<Option<i64>> = vec![Some(1), Some(0), Some(0), Some(0)];
    let mut wcc = worker(Mode::Files, Sort::Wcc);
    let data = wcc
        .compute_metrics(None, Some("main.rs".to_string()), Some((&lines, &root)))
        .unwrap()
        .unwrap();
    let output = wcc.composer(&vec![data], Some(7721)).unwrap();
    assert_eq!(output.files[0].metrics.coverage, 2500);
    assert_eq!(output.project.total.coverage, 7721);
    assert_eq!(output.project.total.cyclomatic, output.files[0].metrics.cyclomatic);
    assert_eq!(output.project.average.coverage, 2500);
}

// A function of cyclomatic complexity 16 of which every line is covered.
#[test]
fn covered_function_of_high_complexity() {
    let function = unit(UnitKind::Function, "foo", (3, 8), (16, 2), vec![]);
    let root = unit(UnitKind::File, "lib.rs", (1, 20), (5, 3), vec![function]);
    let mut lines: Vec<Option<i64>> = vec![None; 20];
    for line in lines.iter_mut().take(4) {
        *line = Some(0);
    }
    for line in lines.iter_mut().take(9).skip(4) {
        *line = Some(1);
    }
    let mut wcc = worker(Mode::Functions, Sort::Wcc);
    let data = wcc
        .compute_metrics(None, Some("lib.rs".to_string()), Some((&lines, &root)))
        .unwrap()
        .unwrap();
    assert_eq!(
        data,
        ProjectData {
            num_spaces: 2,
            ploc: 9,
            covered_lines: 5,
            wcc_cyclomatic_coverage: 0,
            wcc_cognitive_coverage: 5,
            cyclomatic_complexity: 21,
            cognitive_complexity: 5,
        }
    );
    let file = &wcc.files_metrics[0];
    assert_eq!(file.metrics.coverage, 5560);
    assert_eq!(file.metrics.cyclomatic.wcc, 0);
    assert_eq!(file.metrics.cognitive.wcc, 5560);
    let functions = file.functions.as_ref().unwrap();
    assert_eq!(functions.len(), 1);
    assert_eq!(functions[0].name, "foo(3, 8)");
    assert_eq!(functions[0].metrics.coverage, 10000);
    assert_eq!(functions[0].metrics.cyclomatic.wcc, 0);
    assert_eq!(functions[0].metrics.cyclomatic.crap, 1600);
    assert_eq!(functions[0].metrics.cognitive.wcc, 10000);
}

#[test]
fn functions_are_listed_only_in_functions_mode() {
    let function = unit(UnitKind::Function, "foo", (3, 8), (1, 1), vec![]);
    let root = unit(UnitKind::File, "lib.rs", (1, 20), (1, 1), vec![function]);
    let lines: Vec<Option<i64>> = vec![Some(1); 20];
    let mut wcc = worker(Mode::Files, Sort::Wcc);
    wcc.compute_metrics(None, Some("lib.rs".to_string()), Some((&lines, &root))).unwrap();
    assert!(wcc.files_metrics[0].functions.is_none());

    let plain = unit(UnitKind::File, "plain.rs", (1, 20), (1, 1), vec![]);
    let mut wcc = worker(Mode::Functions, Sort::Wcc);
    wcc.compute_metrics(None, Some("plain.rs".to_string()), Some((&lines, &plain))).unwrap();
    assert!(wcc.files_metrics[0].functions.is_none());
}

#[test]
fn functions_are_sorted_by_the_chosen_score() {
    let low = unit(UnitKind::Function, "low", (2, 5), (1, 1), vec![]);
    let high = unit(UnitKind::Function, "high", (6, 9), (1, 1), vec![]);
    let block = unit(UnitKind::Other, "block", (10, 12), (1, 1), vec![]);
    let root = unit(UnitKind::File, "lib.rs", (1, 20), (3, 3), vec![low, high, block]);
    let mut lines: Vec<Option<i64>> = vec![None; 20];
    lines[3] = Some(0);
    lines[4] = Some(1);
    lines[7] = Some(1);
    lines[11] = Some(1);
    let mut wcc = worker(Mode::Functions, Sort::Wcc);
    wcc.compute_metrics(None, Some("lib.rs".to_string()), Some((&lines, &root))).unwrap();
    let functions = wcc.files_metrics[0].functions.as_ref().unwrap();
    let listed: Vec<(&str, u64)> =
        functions.iter().map(|f| (f.name.as_str(), f.metrics.cyclomatic.wcc)).collect();
    assert_eq!(listed, vec![("high(6, 9)", 10000), ("low(2, 5)", 5000)]);
}

#[test]
fn file_without_a_name_counts_but_is_not_listed() {
    let root = unit(UnitKind::File, "main.rs", (1, 4), (1, 1), vec![]);
    let lines: Vec<Option<i64>> = vec![Some(1); 4];
    let mut wcc = worker(Mode::Files, Sort::Wcc);
    let data = wcc.compute_metrics(None, None, Some((&lines, &root))).unwrap().unwrap();
    assert_eq!(data.ploc, 4);
    assert!(wcc.files_metrics.is_empty());
}

#[test]
fn file_without_a_path_is_not_noted() {
    let mut wcc = worker(Mode::Files, Sort::Wcc);
    wcc.update_ignored_files(None);
    assert!(wcc.ignored_files.is_empty());
    wcc.update_ignored_files(Some("b.rs".to_string()));
    assert_eq!(wcc.ignored_files, vec!["b.rs".to_string()]);
}

#[test]
fn counts_beyond_the_limit_are_an_error() {
    let root = unit(UnitKind::File, "main.rs", (1, 4), (LIMIT + 1, 1), vec![]);
    let lines: Vec<Option<i64>> = vec![Some(1); 4];
    let mut wcc = worker(Mode::Files, Sort::Wcc);
    let result = wcc.compute_metrics(None, Some("main.rs".to_string()), Some((&lines, &root)));
    assert_eq!(result, Err(Error::Metrics));
    assert!(wcc.files_metrics.is_empty());

    let big = ProjectData { ploc: LIMIT, covered_lines: 1, ..ProjectData::default() };
    let wcc = worker(Mode::Files, Sort::Wcc);
    assert!(matches!(wcc.composer(&vec![big, big], None), Err(Error::Metrics)));
    let odd = ProjectData { ploc: 1, covered_lines: 2, ..ProjectData::default() };
    let wcc = worker(Mode::Files, Sort::Wcc);
    assert!(matches!(wcc.composer(&vec![odd], None), Err(Error::Metrics)));
}

#[test]
fn summary_rows_over_several_files() {
    let mut wcc = worker(Mode::Files, Sort::Crap);
    wcc.files_metrics.push(row("a.rs", 9000, 500, 200));
    wcc.files_metrics.push(row("b.rs", 7050, 900, 300));
    wcc.files_metrics.push(row("c.rs", 5000, 100, 2000));
    let min = wcc.get_project_min();
    assert_eq!(min.cyclomatic.wcc, 5000);
    assert_eq!(min.cyclomatic.crap, 100);
    assert_eq!(min.cyclomatic.skunk, 200);
    assert!(min.cyclomatic.is_complex);
    let max = wcc.get_project_max();
    assert_eq!(max.cyclomatic.wcc, 9000);
    assert_eq!(max.cyclomatic.crap, 900);
    assert_eq!(max.cyclomatic.skunk, 2000);
    assert!(max.cyclomatic.is_complex);
    let average = wcc.get_project_average();
    // 70.166.., 5 and 8.33.. to one decimal.
    assert_eq!(average.cyclomatic.wcc, 7020);
    assert_eq!(average.cyclomatic.crap, 500);
    assert_eq!(average.cyclomatic.skunk, 830);
    assert!(!average.cyclomatic.is_complex);
    assert_eq!(average.coverage, 7020);
    let totals = ProjectData { num_spaces: 3, ploc: 30, covered_lines: 15, ..ProjectData::default() };
    let project = wcc.get_project_metrics(totals, None);
    assert_eq!(project.total.coverage, 5000);
    assert_eq!(project.min, min);
    assert_eq!(project.max, max);
    assert_eq!(project.average, average);
}

#[test]
fn output_is_sorted_by_the_chosen_score_then_by_name() {
    let files = || {
        vec![
            row("b.rs", 7000, 900, 300),
            row("d.rs", 9000, 500, 200),
            row("a.rs", 7000, 100, 2000),
            row("c.rs", 5000, 100, 2000),
        ]
    };
    let ignored = || vec!["z.rs".to_string(), "a/b.rs".to_string(), "a.rs".to_string()];
    let sorted = |by: Sort| {
        let mut wcc = worker(Mode::Files, by);
        wcc.files_metrics = files();
        wcc.ignored_files = ignored();
        wcc.composer(&vec![], None).unwrap()
    };
    let output = sorted(Sort::Wcc);
    assert_eq!(names(&output.files), vec!["d.rs", "a.rs", "b.rs", "c.rs"]);
    assert_eq!(output.ignored_files, vec!["a.rs", "a/b.rs", "z.rs"]);
    assert_eq!(names(&sorted(Sort::Crap).files), vec!["b.rs", "d.rs", "a.rs", "c.rs"]);
    assert_eq!(names(&sorted(Sort::Skunk).files), vec!["a.rs", "c.rs", "b.rs", "d.rs"]);
}

#[test]
fn sort_output_keeps_every_row() {
    let mut wcc = worker(Mode::Files, Sort::Wcc);
    for i in 0..20u64 {
        wcc.files_metrics.push(row(&format!("f{}.rs", i % 7), (i * 37) % 11 * 100, 0, 0));
        wcc.ignored_files.push(format!("g{}.rs", (i * 13) % 20));
    }
    let mut expected: Vec<(u64, String)> = wcc
        .files_metrics
        .iter()
        .map(|f| (f.metrics.cyclomatic.wcc, f.name.clone()))
        .collect();
    expected.sort_by(|a, b| b.0.cmp(&a.0).then(a.1.cmp(&b.1)));
    let mut ignored = wcc.ignored_files.clone();
    ignored.sort();
    wcc.sort_output();
    let sorted: Vec<(u64, String)> = wcc
        .files_metrics
        .iter()
        .map(|f| (f.metrics.cyclomatic.wcc, f.name.clone()))
        .collect();
    assert_eq!(sorted, expected);
    assert_eq!(wcc.ignored_files, ignored);
}

#[test]
fn names_are_ordered_as_text() {
    assert!(name_comes_first("", ""));
    assert!(name_comes_first("", "a"));
    assert!(!name_comes_first("a", ""));
    assert!(name_comes_first("abc", "abd"));
    assert!(!name_comes_first("abd", "abc"));
    assert!(name_comes_first("ab", "abc"));
    assert!(!name_comes_first("abc", "ab"));
    assert!(name_comes_first("Z", "a"));
    assert!(name_comes_first("z", "\u{e9}"));
    assert!(name_comes_first("same", "same"));
}

#[test]
fn function_rows_are_sorted_like_files() {
    let data = |wcc: u64| MetricsData { wcc, crap: 0, skunk: wcc, complexity: 0, is_complex: false };
    let function = |name: &str, wcc: u64| FunctionMetrics {
        name: name.to_string(),
        metrics: Metrics { cyclomatic: data(wcc), cognitive: data(0), coverage: 0 },
    };
    let mut rows = vec![function("b", 1), function("a", 1), function("c", 5)];
    sort_rows(&mut rows, Sort::Skunk);
    let listed: Vec<&str> = rows.iter().map(|f| f.name.as_str()).collect();
    assert_eq!(listed, vec!["c", "a", "b"]);
    sort_rows(&mut rows, Sort::Crap);
    let listed: Vec<&str> = rows.iter().map(|f| f.name.as_str()).collect();
    assert_eq!(listed, vec!["a", "b", "c"]);
}

#[test]
fn workers_are_joined() {
    let mut first = worker(Mode::Files, Sort::Wcc);
    first.files_metrics.push(row("a.rs", 1, 1, 1));
    first.update_ignored_files(Some("x.rs".to_string()));
    let mut second = worker(Mode::Files, Sort::Wcc);
    second.files_metrics.push(row("b.rs", 2, 2, 2));
    second.files_metrics.push(row("c.rs", 3, 3, 3));
    second.update_ignored_files(Some("y.rs".to_string()));
    first.absorb(second);
    assert_eq!(names(&first.files_metrics), vec!["a.rs", "b.rs", "c.rs"]);
    assert_eq!(first.ignored_files, vec!["x.rs", "y.rs"]);
}

#[test]
fn partition_of_files_among_workers_does_not_change_the_output() {
    let roots: Vec<CodeUnit> = (0..6u64)
        .map(|i| {
            let f = unit(UnitKind::Function, "f", (2, 4), (i * 4, i), vec![]);
            unit(UnitKind::File, "file", (1, 8), (i + 1, 1), vec![f])
        })
        .collect();
    let lines: Vec<Vec<Option<i64>>> = (0..6i64)
        .map(|i| (0..8).map(|l| if l == 7 { None } else { Some((l + i) % 3) }).collect())
        .collect();
    let run = |groups: &[&[usize]]| {
        let mut all = worker(Mode::Functions, Sort::Skunk);
        let mut parts = Vec::new();
        for group in groups {
            let mut wcc = worker(Mode::Functions, Sort::Skunk);
            let mut local = Vec::new();
            for &i in group.iter() {
                let name = format!("file{}.rs", i);
                let found = wcc.compute_metrics(None, Some(name), Some((&lines[i], &roots[i])));
                local.push(found.unwrap().unwrap());
            }
            wcc.update_ignored_files(Some(format!("ignored{}.rs", group.len())));
            parts.push(ProjectData::merge_parts(&local).unwrap());
            all.absorb(wcc);
        }
        let output = all.composer(&parts, None).unwrap();
        let files: Vec<(String, Metrics)> =
            output.files.iter().map(|f| (f.name.clone(), f.metrics)).collect();
        (files, output.project, output.ignored_files)
    };
    let one_pass = run(&[&[0, 1, 2, 3, 4, 5], &[], &[], &[], &[]]);
    assert_eq!(run(&[&[5, 3], &[], &[0], &[4, 2, 1], &[]]).0, one_pass.0);
    assert_eq!(run(&[&[5, 3], &[], &[0], &[4, 2, 1], &[]]).1, one_pass.1);
    assert_eq!(run(&[&[], &[2, 4, 0, 5, 1, 3], &[], &[], &[]]), one_pass);
    assert_eq!(one_pass.0.len(), 6);
}

#[test]
fn complex_files_are_listed_per_dimension() {
    let file = |name: &str, cyclomatic: bool, cognitive: bool| {
        let data = |is_complex: bool| MetricsData { wcc: 0, crap: 0, skunk: 0, complexity: 0, is_complex };
        FileMetrics {
            name: name.to_string(),
            metrics: Metrics { cyclomatic: data(cyclomatic), cognitive: data(cognitive), coverage: 0 },
            functions: None,
        }
    };
    let mut wcc = worker(Mode::Files, Sort::Wcc);
    wcc.files_metrics = vec![
        file("a.rs", true, false),
        file("b.rs", false, false),
        file("c.rs", true, true),
        file("d.rs", false, true),
    ];
    let output = wcc.composer(&vec![], None).unwrap();
    assert_eq!(output.get_complex_files(Complexity::Cyclomatic), vec!["a.rs", "c.rs"]);
    assert_eq!(output.get_complex_files(Complexity::Cognitive), vec!["c.rs", "d.rs"]);
}

#[test]
fn sort_output_sorts_the_functions_of_each_file() {
    let data = |wcc: u64| MetricsData { wcc, crap: wcc, skunk: 0, complexity: 0, is_complex: false };
    let function = |name: &str, wcc: u64| FunctionMetrics {
        name: name.to_string(),
        metrics: Metrics { cyclomatic: data(wcc), cognitive: data(0), coverage: 0 },
    };
    let mut first = row("a.rs", 1000, 0, 0);
    first.functions = Some(vec![function("low", 100), function("b", 500), function("a", 500)]);
    let mut second = row("b.rs", 2000, 0, 0);
    second.functions = Some(vec![function("x", 1), function("y", 2), function("z", 3)]);
    let third = row("c.rs", 3000, 0, 0);
    let listed = |files: &[FileMetrics]| -> Vec<(String, Option<Vec<String>>)> {
        files
            .iter()
            .map(|f| {
                let functions =
                    f.functions.as_ref().map(|l| l.iter().map(|g| g.name.clone()).collect());
                (f.name.clone(), functions)
            })
            .collect()
    };
    let names = |list: &[&str]| Some(list.iter().map(|s| s.to_string()).collect::<Vec<String>>());
    let expected = vec![
        ("c.rs".to_string(), None),
        ("b.rs".to_string(), names(&["z", "y", "x"])),
        ("a.rs".to_string(), names(&["a", "b", "low"])),
    ];

    let mut wcc = worker(Mode::Functions, Sort::Wcc);
    wcc.files_metrics = vec![first.clone(), second.clone(), third.clone()];
    wcc.sort_output();
    assert_eq!(listed(&wcc.files_metrics), expected);

    let mut wcc = worker(Mode::Functions, Sort::Crap);
    wcc.files_metrics = vec![third, first, second];
    let output = wcc.composer(&vec![], None).unwrap();
    assert_eq!(
        listed(&output.files),
        vec![
            ("a.rs".to_string(), names(&["a", "b", "low"])),
            ("b.rs".to_string(), names(&["z", "y", "x"])),
            ("c.rs".to_string(), None),
        ]
    );
}
