use weighted_code_coverage::code_unit::UnitKind;
use weighted_code_coverage::project::{ProjectData, SpaceData};
use weighted_code_coverage::score::LIMIT;

fn part(seed: u64) -> ProjectData {
    ProjectData {
        num_spaces: seed + 1,
        ploc: 10 * seed + 7,
        covered_lines: 5 * seed + 3,
        wcc_cyclomatic_coverage: 2 * seed + 1,
        wcc_cognitive_coverage: 3 * seed,
        cyclomatic_complexity: 4 * seed + 9,
        cognitive_complexity: seed,
    }
}

fn merged(parts: &[ProjectData]) -> ProjectData {
    ProjectData::merge_parts(&parts.to_vec()).unwrap()
}

#[test]
fn new_totals_count_only_the_units() {
    let data = ProjectData::new(4);
    assert_eq!(data, ProjectData { num_spaces: 4, ..ProjectData::default() });
    assert_eq!(ProjectData::default().ploc, 0);
}

#[test]
fn update_adds_one_unit() {
    let mut data = ProjectData::new(2);
    data.update(&SpaceData {
        ploc: 10,
        covered_lines: 6,
        cyclomatic_complexity: 15,
        cognitive_complexity: 16,
        kind: UnitKind::Function,
    });
    data.update(&SpaceData {
        ploc: 4,
        covered_lines: 4,
        cyclomatic_complexity: 20,
        cognitive_complexity: 1,
        kind: UnitKind::Other,
    });
    assert_eq!(
        data,
        ProjectData {
            num_spaces: 2,
            ploc: 14,
            covered_lines: 10,
            wcc_cyclomatic_coverage: 6,
            wcc_cognitive_coverage: 4,
            cyclomatic_complexity: 35,
            cognitive_complexity: 17,
        }
    );
}

#[test]
fn merge_adds_field_by_field() {
    let mut data = part(1);
    data.merge(part(2));
    assert_eq!(
        data,
        ProjectData {
            num_spaces: 5,
            ploc: 44,
            covered_lines: 21,
            wcc_cyclomatic_coverage: 8,
            wcc_cognitive_coverage: 9,
            cyclomatic_complexity: 30,
            cognitive_complexity: 3,
        }
    );
}

#[test]
fn merging_groups_equals_merging_in_one_pass() {
    let parts: Vec<ProjectData> = (0..7).map(part).collect();
    let all = merged(&parts);
    let groups = [
        merged(&[parts[3], parts[0]]),
        merged(&[]),
        merged(&[parts[6], parts[5], parts[1]]),
        merged(&[parts[2]]),
        merged(&[parts[4]]),
    ];
    assert_eq!(merged(&groups), all);
    let reversed: Vec<ProjectData> = parts.iter().rev().cloned().collect();
    assert_eq!(merged(&reversed), all);
    assert_eq!(all.ploc, 10 * 21 + 49);
}

#[test]
fn merge_of_nothing_is_zero() {
    assert_eq!(merged(&[]), ProjectData::default());
}

#[test]
fn merge_beyond_the_limit_is_refused() {
    let big = ProjectData { ploc: LIMIT, ..ProjectData::default() };
    let one = ProjectData { ploc: 1, ..ProjectData::default() };
    assert_eq!(ProjectData::merge_parts(&vec![big]), Some(big));
    assert_eq!(ProjectData::merge_parts(&vec![big, one]), None);
    assert_eq!(ProjectData::merge_parts(&vec![one, big]), None);
    let huge = ProjectData { cognitive_complexity: u64::MAX, ..ProjectData::default() };
    assert_eq!(ProjectData::merge_parts(&vec![huge, huge]), None);
}

#[test]
fn range_and_consistency_checks() {
    assert!(part(3).is_in_range());
    assert!(part(3).is_consistent());
    assert!(!ProjectData { num_spaces: LIMIT + 1, ..part(3) }.is_in_range());
    assert!(!ProjectData { covered_lines: 100, ..part(3) }.is_consistent());
    assert!(!ProjectData { wcc_cognitive_coverage: 19, ..part(3) }.is_consistent());
}

#[test]
fn sums_beyond_the_limit_are_added_as_long_as_they_fit() {
    let mut data = ProjectData { ploc: u64::MAX - 5, ..ProjectData::default() };
    data.merge(ProjectData { ploc: 5, num_spaces: LIMIT + 1, ..ProjectData::default() });
    assert_eq!(data.ploc, u64::MAX);
    assert_eq!(data.num_spaces, LIMIT + 1);
    let mut data = ProjectData { cognitive_complexity: u64::MAX - 9, ..ProjectData::default() };
    data.update(&SpaceData {
        ploc: 1,
        covered_lines: 3,
        cyclomatic_complexity: LIMIT + 1,
        cognitive_complexity: 9,
        kind: UnitKind::Other,
    });
    assert_eq!(data.cognitive_complexity, u64::MAX);
    assert_eq!(data.cyclomatic_complexity, LIMIT + 1);
    assert_eq!(data.covered_lines, 3);
    assert_eq!(data.wcc_cognitive_coverage, 3);
    assert_eq!(data.wcc_cyclomatic_coverage, 0);
}
