use weighted_code_coverage::code_unit::UnitKind;
use weighted_code_coverage::metrics::{Metrics, MetricsData, MetricsSum, MetricsThresholds};
use weighted_code_coverage::project::{ProjectData, SpaceData};
use weighted_code_coverage::score::{
    average, average_complexity, crap, skunk, wcc, wcc_function, LIMIT,
};
use weighted_code_coverage::{Complexity, Thresholds};

fn data(num_spaces: u64, ploc: u64, covered: u64, rewarded: u64, complexity: u64) -> ProjectData {
    ProjectData {
        num_spaces,
        ploc,
        covered_lines: covered,
        wcc_cyclomatic_coverage: rewarded,
        wcc_cognitive_coverage: rewarded,
        cyclomatic_complexity: complexity,
        cognitive_complexity: complexity,
    }
}

#[test]
fn single_unit_file_scores() {
    assert_eq!(wcc(8, 10), 8000);
    assert_eq!(crap(8, 10, 3, 1), 310);
    assert_eq!(skunk(8, 10, 3, 1), 400);
    assert_eq!(average_complexity(3, 1), 300);
}

#[test]
fn scores_are_rounded_to_one_decimal() {
    // 1 of 3 lines: 33.33.. percent.
    assert_eq!(wcc(1, 3), 3330);
    // 2 of 3 lines: 66.66.. percent.
    assert_eq!(wcc(2, 3), 6670);
    // 1 of 8 lines: 12.5 percent stays as it is.
    assert_eq!(wcc(1, 8), 1250);
    // 1 of 16 lines: 6.25 percent, the half goes up.
    assert_eq!(wcc(1, 16), 630);
    // An average complexity of 21 / 2.
    assert_eq!(average_complexity(21, 2), 1050);
    assert_eq!(average_complexity(1, 3), 30);
}

#[test]
fn scope_without_lines_has_no_coverage() {
    assert_eq!(wcc(0, 0), 0);
    assert_eq!(wcc_function(3, 0, 0), 0);
    // Without lines a scope counts as uncovered: c^2 + c and c * 100 / 60 + c.
    assert_eq!(crap(0, 0, 3, 1), 1200);
    assert_eq!(skunk(0, 0, 3, 1), 800);
}

#[test]
fn scope_without_units_has_no_complexity() {
    assert_eq!(average_complexity(0, 0), 0);
    assert_eq!(crap(0, 0, 0, 0), 0);
    assert_eq!(skunk(0, 0, 0, 0), 0);
}

#[test]
fn fully_covered_scope_scores_its_complexity() {
    assert_eq!(crap(10, 10, 7, 1), 700);
    assert_eq!(skunk(10, 10, 7, 1), 700);
}

#[test]
fn uncovered_scope_scores() {
    // 5^2 * 1 + 5 and (5 / 60) * 100 + 5.
    assert_eq!(crap(0, 10, 5, 1), 3000);
    assert_eq!(skunk(0, 10, 5, 1), 1330);
}

#[test]
fn scores_at_the_limit() {
    assert_eq!(wcc(LIMIT, LIMIT), 10000);
    let c = LIMIT;
    assert_eq!(crap(0, LIMIT, c, 1), 100 * (c * c + c));
    assert_eq!(crap(0, LIMIT, c, LIMIT), 200);
    assert_eq!(skunk(LIMIT, LIMIT, c, 1), 100 * c);
}

#[test]
fn complex_function_has_no_weighted_coverage() {
    assert_eq!(wcc_function(16, 10, 10), 0);
    assert_eq!(wcc_function(15, 10, 10), 10000);
    assert_eq!(wcc_function(15, 5, 10), 5000);
}

#[test]
fn mean_of_scores() {
    assert_eq!(average(250, 2), 130);
    assert_eq!(average(240, 2), 120);
    assert_eq!(average(1000, 3), 330);
    assert_eq!(average(0, 0), 0);
    assert_eq!(average(70, 0), 0);
    assert_eq!(average(u64::MAX as u128 * 2, 2), u64::MAX);
}

#[test]
fn default_limits() {
    let limits = MetricsThresholds::default();
    assert_eq!(limits.wcc, 6000);
    assert_eq!(limits.crap_cyclomatic, 1640);
    assert_eq!(limits.crap_cognitive, 1640);
    assert_eq!(limits.skunk_cyclomatic, 1666);
    assert_eq!(limits.skunk_cognitive, 1666);
}

#[test]
fn limits_from_thresholds() {
    let limits = MetricsThresholds::from(Thresholds::default());
    assert_eq!(limits.wcc, 6000);
    assert_eq!(limits.crap_cyclomatic, 1640);
    assert_eq!(limits.crap_cognitive, 1640);
    assert_eq!(limits.skunk_cyclomatic, 1670);
    assert_eq!(limits.skunk_cognitive, 1670);

    let limits = MetricsThresholds::from(Thresholds::new(3500, 1500, 3000).unwrap());
    assert_eq!(limits.wcc, 3500);
    // 15^2 * 0.064 + 15 and 15 * 5 / 3.
    assert_eq!(limits.crap_cyclomatic, 2940);
    assert_eq!(limits.skunk_cyclomatic, 2500);
    // 30^2 * 0.064 + 30 and 30 * 5 / 3.
    assert_eq!(limits.crap_cognitive, 8760);
    assert_eq!(limits.skunk_cognitive, 5000);
}

#[test]
fn thresholds_beyond_the_limit_are_refused() {
    assert!(Thresholds::new(6000, LIMIT, LIMIT).is_some());
    assert!(Thresholds::new(6000, LIMIT + 1, 1000).is_none());
    assert!(Thresholds::new(6000, 1000, LIMIT + 1).is_none());
    let thresholds = Thresholds::new(1, 2, 3).unwrap();
    assert_eq!(thresholds.wcc(), 1);
    assert_eq!(thresholds.cyclomatic_complexity(), 2);
    assert_eq!(thresholds.cognitive_complexity(), 3);
}

#[test]
fn is_complex_follows_each_threshold() {
    let limits = MetricsThresholds::default();
    assert!(!limits.is_complex(6000, 1640, 1666, Complexity::Cyclomatic));
    assert!(limits.is_complex(5990, 1640, 1666, Complexity::Cyclomatic));
    assert!(limits.is_complex(6000, 1650, 1666, Complexity::Cyclomatic));
    assert!(limits.is_complex(6000, 1640, 1670, Complexity::Cyclomatic));
    assert!(limits.is_complex(0, 0, 0, Complexity::Cognitive));
}

#[test]
fn is_complex_uses_the_ceilings_of_the_dimension() {
    let limits = MetricsThresholds {
        wcc: 6000,
        crap_cyclomatic: 1000,
        crap_cognitive: 2000,
        skunk_cyclomatic: 3000,
        skunk_cognitive: 4000,
    };
    assert!(limits.is_complex(10000, 1500, 0, Complexity::Cyclomatic));
    assert!(!limits.is_complex(10000, 1500, 0, Complexity::Cognitive));
    assert!(limits.is_complex(10000, 0, 3500, Complexity::Cyclomatic));
    assert!(!limits.is_complex(10000, 0, 3500, Complexity::Cognitive));
}

#[test]
fn file_scores_from_totals() {
    let limits = MetricsThresholds::default();
    let metrics = Metrics::file(data(1, 10, 8, 8, 3), limits);
    assert_eq!(metrics.coverage, 8000);
    assert_eq!(
        metrics.cyclomatic,
        MetricsData { wcc: 8000, crap: 310, skunk: 400, complexity: 300, is_complex: false }
    );
    assert_eq!(metrics.cognitive, metrics.cyclomatic);
}

#[test]
fn file_scores_use_the_average_complexity() {
    let limits = MetricsThresholds::default();
    let totals = ProjectData {
        num_spaces: 2,
        ploc: 9,
        covered_lines: 5,
        wcc_cyclomatic_coverage: 0,
        wcc_cognitive_coverage: 5,
        cyclomatic_complexity: 21,
        cognitive_complexity: 5,
    };
    let metrics = Metrics::file(totals, limits);
    assert_eq!(metrics.coverage, 5560);
    assert_eq!(
        metrics.cyclomatic,
        MetricsData { wcc: 0, crap: 2020, skunk: 1830, complexity: 1050, is_complex: true }
    );
    assert_eq!(metrics.cognitive.wcc, 5560);
    assert_eq!(metrics.cognitive.complexity, 250);
    assert_eq!(Metrics::project_total(totals, limits), metrics);
}

#[test]
fn file_without_lines_has_zero_coverage() {
    let metrics = Metrics::file(data(0, 0, 0, 0, 0), MetricsThresholds::default());
    assert_eq!(metrics.coverage, 0);
    assert_eq!(metrics.cyclomatic.wcc, 0);
    assert_eq!(metrics.cyclomatic.crap, 0);
    assert!(metrics.cyclomatic.is_complex);
}

#[test]
fn function_scores() {
    let space = SpaceData {
        ploc: 5,
        covered_lines: 5,
        cyclomatic_complexity: 16,
        cognitive_complexity: 2,
        kind: UnitKind::Function,
    };
    let metrics = Metrics::function(space, MetricsThresholds::default());
    assert_eq!(metrics.coverage, 10000);
    assert_eq!(
        metrics.cyclomatic,
        MetricsData { wcc: 0, crap: 1600, skunk: 1600, complexity: 1600, is_complex: true }
    );
    assert_eq!(
        metrics.cognitive,
        MetricsData { wcc: 10000, crap: 200, skunk: 200, complexity: 200, is_complex: false }
    );
}

#[test]
fn minimum_and_maximum_are_taken_field_by_field() {
    let limits = MetricsThresholds::default();
    let a = Metrics {
        cyclomatic: MetricsData { wcc: 9000, crap: 500, skunk: 2000, complexity: 100, is_complex: true },
        cognitive: MetricsData { wcc: 100, crap: 100, skunk: 100, complexity: 100, is_complex: true },
        coverage: 9000,
    };
    let b = Metrics {
        cyclomatic: MetricsData { wcc: 7000, crap: 900, skunk: 300, complexity: 400, is_complex: false },
        cognitive: MetricsData { wcc: 200, crap: 50, skunk: 700, complexity: 30, is_complex: true },
        coverage: 7000,
    };
    let min = Metrics::project_min().update_project_min(a, limits).update_project_min(b, limits);
    assert_eq!(
        min.cyclomatic,
        MetricsData { wcc: 7000, crap: 500, skunk: 300, complexity: 100, is_complex: false }
    );
    assert_eq!(
        min.cognitive,
        MetricsData { wcc: 100, crap: 50, skunk: 100, complexity: 30, is_complex: true }
    );
    assert_eq!(min.coverage, 7000);
    let max = Metrics::project_max().update_project_max(a, limits).update_project_max(b, limits);
    assert_eq!(
        max.cyclomatic,
        MetricsData { wcc: 9000, crap: 900, skunk: 2000, complexity: 400, is_complex: true }
    );
    assert_eq!(max.coverage, 9000);
}

#[test]
fn starting_rows() {
    let min = Metrics::project_min();
    assert_eq!(min.coverage, u64::MAX);
    assert_eq!(min.cyclomatic.wcc, u64::MAX);
    assert!(!min.cyclomatic.is_complex);
    let max = Metrics::project_max();
    assert_eq!(max.coverage, 0);
    assert_eq!(max.cognitive.skunk, 0);
    assert_eq!(Metrics::default(), max);
}

#[test]
fn mean_row_is_classified_anew() {
    let limits = MetricsThresholds::default();
    let a = Metrics {
        cyclomatic: MetricsData { wcc: 9000, crap: 500, skunk: 200, complexity: 100, is_complex: true },
        cognitive: MetricsData { wcc: 100, crap: 100, skunk: 100, complexity: 100, is_complex: false },
        coverage: 9000,
    };
    let b = Metrics {
        cyclomatic: MetricsData { wcc: 7050, crap: 900, skunk: 300, complexity: 400, is_complex: true },
        cognitive: MetricsData { wcc: 200, crap: 50, skunk: 700, complexity: 30, is_complex: false },
        coverage: 7000,
    };
    let sum = b.project_sum(a.project_sum(MetricsSum::new()));
    assert_eq!(sum.cyclomatic.wcc, 16050);
    assert_eq!(sum.coverage, 16000);
    let mean = Metrics::project_average(sum, 2, limits);
    assert_eq!(
        mean.cyclomatic,
        MetricsData { wcc: 8030, crap: 700, skunk: 250, complexity: 250, is_complex: false }
    );
    assert_eq!(
        mean.cognitive,
        MetricsData { wcc: 150, crap: 80, skunk: 400, complexity: 70, is_complex: true }
    );
    assert_eq!(mean.coverage, 8000);
}

#[test]
fn weighted_coverage_of_any_count() {
    assert_eq!(wcc(u64::MAX, u64::MAX), 10000);
    assert_eq!(wcc(0, u64::MAX), 0);
    assert_eq!(wcc(1 << 40, 1 << 41), 5000);
    assert_eq!(wcc_function(16, u64::MAX, 1), 0);
    assert_eq!(wcc_function(u64::MAX, 7, 3), 0);
    assert_eq!(wcc_function(15, u64::MAX, u64::MAX), 10000);
    assert_eq!(average_complexity(u64::MAX / 100, 1), u64::MAX / 100 * 100);
    assert_eq!(average_complexity(u64::MAX, u64::MAX), 100);
}
