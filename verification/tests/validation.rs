use checker::age::Age;
use checker::ageclass::AgeClass;
use checker::date::Date;
use checker::report::{Message, Report};
use checker::store::{Entry, Meet, SingleMeetData};
use checker::configs::{load_configurations, ConfigCheck, ConfigLoader};
use checker::validation::{
    aggregate, gather, is_meetdir, summarize, tally_reports, CheckOutcome, Summary,
    SummaryPart, Tally, Tone,
};

fn report_with(path: &str, errors: usize, warnings: usize) -> Report {
    let mut report = Report::new(path.to_string());
    for i in 0..errors {
        report.error(format!("error {}", i));
    }
    for i in 0..warnings {
        report.warning(format!("warning {}", i));
    }
    report
}

fn tally(errors: usize, warnings: usize, internal: usize) -> Tally {
    Tally { errors, warnings, internal }
}

fn some_meet() -> Meet {
    Meet { path: "uspa/1901".to_string(), date: Date::from_u32(2019_01_04) }
}

fn some_entry() -> Entry {
    Entry {
        username: "a".to_string(),
        birthdate: None,
        birthyear: None,
        age: Age::Unknown,
        ageclass: AgeClass::Unknown,
        division_age_min: Age::Unknown,
        division_age_max: Age::Unknown,
    }
}

#[test]
fn report_starts_without_messages() {
    let report = Report::new("uspa/1901/entries.csv".to_string());
    assert_eq!(report.path, "uspa/1901/entries.csv");
    assert!(report.messages.is_empty());
    assert!(!report.has_messages());
    assert_eq!(report.count_messages(), (0, 0));
}

#[test]
fn report_keeps_messages_in_the_order_raised() {
    let mut report = Report::new("uspa/1901/entries.csv".to_string());
    report.warning("first".to_string());
    report.error("second".to_string());
    report.warning("third".to_string());
    assert_eq!(report.path, "uspa/1901/entries.csv");
    assert_eq!(
        report.messages,
        vec![
            Message::Warning("first".to_string()),
            Message::Error("second".to_string()),
            Message::Warning("third".to_string()),
        ]
    );
    assert!(report.has_messages());
}

#[test]
fn report_counts_errors_and_warnings_apart() {
    assert_eq!(report_with("a", 3, 0).count_messages(), (3, 0));
    assert_eq!(report_with("a", 0, 2).count_messages(), (0, 2));
    assert_eq!(report_with("a", 4, 7).count_messages(), (4, 7));
    let mut mixed = Report::new("a".to_string());
    mixed.error("e".to_string());
    mixed.warning("w".to_string());
    mixed.error("e".to_string());
    assert_eq!(mixed.count_messages(), (2, 1));
}

#[test]
fn tally_of_a_report() {
    assert_eq!(Tally::of_report(&report_with("a", 4, 7)), tally(4, 7, 0));
    assert_eq!(Tally::of_report(&report_with("a", 0, 0)), tally(0, 0, 0));
    assert_eq!(Tally::zero(), tally(0, 0, 0));
    assert_eq!(Tally::internal_error(), tally(0, 0, 1));
}

#[test]
fn tally_merge_adds_each_count() {
    assert_eq!(tally(1, 2, 3).merge(tally(10, 20, 30)), Some(tally(11, 22, 33)));
    assert_eq!(tally(1, 2, 3).merge(Tally::zero()), Some(tally(1, 2, 3)));
    assert_eq!(
        tally(usize::MAX - 1, 0, 0).merge(tally(1, 0, 0)),
        Some(tally(usize::MAX, 0, 0))
    );
}

#[test]
fn tally_merge_refuses_a_sum_that_cannot_be_held() {
    assert_eq!(tally(usize::MAX, 0, 0).merge(tally(1, 0, 0)), None);
    assert_eq!(tally(0, usize::MAX, 0).merge(tally(0, 1, 0)), None);
    assert_eq!(tally(0, 0, usize::MAX).merge(tally(0, 0, 1)), None);
    assert_eq!(tally(2, usize::MAX - 2, 0).merge(tally(2, 3, 0)), None);
}

#[test]
fn tally_reports_adds_up_the_reports_of_a_grouping() {
    let reports = vec![report_with("a", 1, 2), report_with("b", 0, 0), report_with("c", 3, 1)];
    assert_eq!(tally_reports(&reports), Some(tally(4, 3, 0)));
    assert_eq!(tally_reports(&[]), Some(tally(0, 0, 0)));
}

#[test]
fn aggregate_is_the_sum_of_all_groupings() {
    let tallies = vec![tally(1, 2, 0), tally(0, 0, 1), tally(3, 0, 0), tally(0, 5, 0), tally(0, 0, 1)];
    assert_eq!(aggregate(&tallies), Some(tally(4, 7, 2)));
    assert_eq!(aggregate(&[]), Some(tally(0, 0, 0)));
    assert_eq!(aggregate(&[tally(9, 8, 7)]), Some(tally(9, 8, 7)));
}

#[test]
fn aggregate_does_not_depend_on_the_order() {
    let tallies = vec![tally(1, 2, 0), tally(0, 0, 1), tally(3, 0, 0), tally(0, 5, 0), tally(0, 0, 1)];
    let mut reversed = tallies.clone();
    reversed.reverse();
    let mut rotated = tallies.clone();
    rotated.rotate_left(2);
    let mut swapped = tallies.clone();
    swapped.swap(0, 3);
    assert_eq!(aggregate(&reversed), aggregate(&tallies));
    assert_eq!(aggregate(&rotated), aggregate(&tallies));
    assert_eq!(aggregate(&swapped), aggregate(&tallies));
    assert_eq!(aggregate(&swapped), Some(tally(4, 7, 2)));
}

#[test]
fn aggregate_of_parts_is_the_aggregate_of_the_whole() {
    let tallies = vec![tally(1, 2, 0), tally(0, 0, 1), tally(3, 0, 0), tally(0, 5, 0)];
    let left = aggregate(&tallies[..1]).unwrap();
    let right = aggregate(&tallies[1..]).unwrap();
    assert_eq!(left.merge(right), aggregate(&tallies));
}

#[test]
fn aggregate_refuses_a_sum_that_cannot_be_held() {
    let tallies = vec![tally(usize::MAX, 0, 0), tally(0, 1, 0), tally(1, 0, 0)];
    assert_eq!(aggregate(&tallies), None);
    let tallies = vec![tally(usize::MAX, 0, 0), tally(0, 1, 0)];
    assert_eq!(aggregate(&tallies), Some(tally(usize::MAX, 1, 0)));
}

#[test]
fn run_fails_on_errors_of_either_kind_only() {
    assert!(!tally(0, 0, 0).is_failure());
    assert!(!tally(0, 12, 0).is_failure());
    assert!(tally(1, 0, 0).is_failure());
    assert!(tally(0, 0, 1).is_failure());
    assert!(tally(1, 12, 1).is_failure());
}

#[test]
fn tally_knows_whether_there_is_anything_to_show() {
    assert!(!tally(0, 0, 0).has_messages());
    assert!(!tally(0, 0, 1).has_messages());
    assert!(tally(1, 0, 0).has_messages());
    assert!(tally(0, 1, 0).has_messages());
}

#[test]
fn all_errors_counts_internal_errors_in() {
    assert_eq!(tally(3, 9, 2).all_errors(), Some(5));
    assert_eq!(tally(0, 9, 0).all_errors(), Some(0));
    assert_eq!(tally(usize::MAX, 0, 0).all_errors(), Some(usize::MAX));
    assert_eq!(tally(usize::MAX, 0, 1).all_errors(), None);
}

#[test]
fn outcome_of_a_checked_grouping() {
    let outcome = CheckOutcome::Checked {
        reports: vec![report_with("a", 1, 2), report_with("b", 0, 1)],
        meet: Some(some_meet()),
        entries: Some(vec![some_entry()]),
    };
    assert_eq!(outcome.tally(), Some(tally(1, 3, 0)));
    assert_eq!(
        outcome.into_data(),
        Some(SingleMeetData { meet: some_meet(), entries: vec![some_entry()] })
    );
}

#[test]
fn outcome_without_meet_or_entries_adds_nothing_to_the_store() {
    let no_entries =
        CheckOutcome::Checked { reports: vec![], meet: Some(some_meet()), entries: None };
    assert_eq!(no_entries.tally(), Some(tally(0, 0, 0)));
    assert_eq!(no_entries.into_data(), None);
    let no_meet = CheckOutcome::Checked {
        reports: vec![report_with("a", 2, 0)],
        meet: None,
        entries: Some(vec![some_entry()]),
    };
    assert_eq!(no_meet.tally(), Some(tally(2, 0, 0)));
    assert_eq!(no_meet.into_data(), None);
    let neither = CheckOutcome::Checked { reports: vec![], meet: None, entries: None };
    assert_eq!(neither.into_data(), None);
}

#[test]
fn outcome_of_an_internal_error() {
    assert_eq!(CheckOutcome::InternalError.tally(), Some(tally(0, 0, 1)));
    assert_eq!(CheckOutcome::InternalError.into_data(), None);
}

#[test]
fn run_totals_are_the_sum_over_all_outcomes() {
    let outcomes = vec![
        CheckOutcome::Checked {
            reports: vec![report_with("a", 1, 2)],
            meet: Some(some_meet()),
            entries: Some(vec![some_entry()]),
        },
        CheckOutcome::InternalError,
        CheckOutcome::Checked { reports: vec![report_with("b", 0, 4)], meet: None, entries: None },
        CheckOutcome::InternalError,
    ];
    let tallies: Vec<Tally> = outcomes.iter().map(|o| o.tally().unwrap()).collect();
    let total = aggregate(&tallies).unwrap();
    assert_eq!(total, tally(1, 6, 2));
    assert!(total.is_failure());
    assert_eq!(total.all_errors(), Some(3));
    let backwards: Vec<Tally> = outcomes.iter().rev().map(|o| o.tally().unwrap()).collect();
    assert_eq!(aggregate(&backwards), Some(total));
}

#[test]
fn meet_directories_have_a_marker_file() {
    assert!(is_meetdir(true, true, false));
    assert!(is_meetdir(true, false, true));
    assert!(is_meetdir(true, true, true));
    assert!(!is_meetdir(true, false, false));
    assert!(!is_meetdir(false, true, true));
    assert!(!is_meetdir(false, false, false));
}

#[test]
fn summary_of_a_clean_run() {
    assert_eq!(
        summarize(0, 0),
        Summary {
            errors: SummaryPart { count: 0, plural: true, tone: Tone::Good },
            warnings: SummaryPart { count: 0, plural: true, tone: Tone::Good },
        }
    );
}

#[test]
fn summary_uses_the_singular_for_one_only() {
    assert_eq!(
        summarize(1, 1),
        Summary {
            errors: SummaryPart { count: 1, plural: false, tone: Tone::Bad },
            warnings: SummaryPart { count: 1, plural: false, tone: Tone::Caution },
        }
    );
    assert_eq!(
        summarize(2, 0),
        Summary {
            errors: SummaryPart { count: 2, plural: true, tone: Tone::Bad },
            warnings: SummaryPart { count: 0, plural: true, tone: Tone::Good },
        }
    );
    assert_eq!(
        summarize(0, 17),
        Summary {
            errors: SummaryPart { count: 0, plural: true, tone: Tone::Good },
            warnings: SummaryPart { count: 17, plural: true, tone: Tone::Caution },
        }
    );
}

#[test]
fn config_loader_hands_out_the_configurations_of_a_clean_run() {
    let mut loader: ConfigLoader<u32> = ConfigLoader::new();
    assert_eq!(loader.checked("ipf".to_string(), &report_with("ipf", 0, 0), Some(1)), Some(false));
    assert_eq!(loader.checked("uspa".to_string(), &report_with("uspa", 0, 2), Some(2)), Some(true));
    assert_eq!(loader.checked("wrpf".to_string(), &report_with("wrpf", 0, 0), None), Some(false));
    assert_eq!(loader.errors, 0);
    assert_eq!(loader.warnings, 2);
    match loader.finish() {
        Ok(configs) => {
            assert_eq!(configs.len(), 2);
            assert_eq!(configs.get("ipf"), Some(&1));
            assert_eq!(configs.get("uspa"), Some(&2));
            assert_eq!(configs.get("wrpf"), None);
        }
        Err(_) => panic!("a run without errors hands out its configurations"),
    }
}

#[test]
fn config_loader_ends_the_run_on_errors() {
    let mut loader: ConfigLoader<u32> = ConfigLoader::new();
    assert_eq!(loader.checked("ipf".to_string(), &report_with("ipf", 2, 1), Some(1)), Some(true));
    assert_eq!(loader.checked("uspa".to_string(), &report_with("uspa", 1, 0), None), Some(true));
    assert_eq!(loader.checked("wrpf".to_string(), &report_with("wrpf", 0, 0), Some(3)), Some(false));
    match loader.finish() {
        Ok(_) => panic!("a run with errors hands out no configuration"),
        Err(counts) => assert_eq!(counts, (3, 1)),
    }
}

#[test]
fn config_loader_counts_a_file_that_cannot_be_read_as_one_more_error() {
    let mut loader: ConfigLoader<u32> = ConfigLoader::new();
    assert_eq!(loader.failed(), Some((1, 0)));
    assert_eq!(loader.checked("ipf".to_string(), &report_with("ipf", 2, 1), Some(1)), Some(true));
    assert_eq!(loader.failed(), Some((3, 1)));
    loader.errors = usize::MAX;
    assert_eq!(loader.failed(), None);
}

#[test]
fn config_loader_takes_nothing_in_when_a_count_cannot_be_held() {
    let mut loader: ConfigLoader<u32> = ConfigLoader::new();
    loader.errors = usize::MAX;
    loader.warnings = 5;
    assert_eq!(loader.checked("ipf".to_string(), &report_with("ipf", 1, 1), Some(1)), None);
    assert_eq!(loader.errors, usize::MAX);
    assert_eq!(loader.warnings, 5);
    assert_eq!(loader.configs.len(), 0);
    assert_eq!(loader.checked("ipf".to_string(), &report_with("ipf", 0, 1), Some(1)), Some(true));
    assert_eq!(loader.warnings, 6);
    assert_eq!(loader.configs.len(), 1);
}

#[test]
fn config_loader_keeps_the_later_of_two_configurations() {
    let mut loader: ConfigLoader<u32> = ConfigLoader::new();
    loader.checked("ipf".to_string(), &report_with("ipf", 0, 0), Some(1));
    loader.checked("ipf".to_string(), &report_with("ipf", 0, 0), Some(2));
    match loader.finish() {
        Ok(configs) => {
            assert_eq!(configs.len(), 1);
            assert_eq!(configs.get("ipf"), Some(&2));
        }
        Err(_) => panic!("a run without errors hands out its configurations"),
    }
}

fn meet_at(path: &str) -> Meet {
    Meet { path: path.to_string(), date: Date::from_u32(2019_01_04) }
}

fn mixed_outcomes() -> Vec<CheckOutcome> {
    vec![
        CheckOutcome::Checked {
            reports: vec![report_with("a", 1, 2)],
            meet: Some(meet_at("uspa/1901")),
            entries: Some(vec![some_entry()]),
        },
        CheckOutcome::InternalError,
        CheckOutcome::Checked { reports: vec![report_with("b", 0, 4)], meet: None, entries: None },
        CheckOutcome::Checked {
            reports: vec![report_with("c", 0, 0), report_with("d", 2, 0)],
            meet: Some(meet_at("uspa/1902")),
            entries: Some(vec![]),
        },
        CheckOutcome::InternalError,
    ]
}

#[test]
fn gather_collects_the_meets_and_the_counts() {
    let (meets, total) = gather(mixed_outcomes());
    assert_eq!(total, Some(tally(3, 6, 2)));
    assert_eq!(
        meets,
        vec![
            SingleMeetData { meet: meet_at("uspa/1901"), entries: vec![some_entry()] },
            SingleMeetData { meet: meet_at("uspa/1902"), entries: vec![] },
        ]
    );
}

#[test]
fn gather_of_nothing_is_nothing() {
    let (meets, total) = gather(vec![]);
    assert!(meets.is_empty());
    assert_eq!(total, Some(tally(0, 0, 0)));
}

#[test]
fn gather_counts_the_same_in_any_order() {
    let (meets, total) = gather(mixed_outcomes());
    let mut backwards = mixed_outcomes();
    backwards.reverse();
    let (meets_backwards, total_backwards) = gather(backwards);
    assert_eq!(total_backwards, total);
    assert_eq!(meets_backwards.len(), meets.len());
    for meet in &meets {
        assert!(meets_backwards.contains(meet));
    }
}

#[test]
fn gather_counts_outcomes_that_add_no_meet() {
    let mut outcomes = mixed_outcomes();
    for _ in 0..3 {
        outcomes.push(CheckOutcome::Checked {
            reports: vec![report_with("e", 1, 0)],
            meet: None,
            entries: None,
        });
    }
    let (meets, total) = gather(outcomes);
    assert_eq!(total, Some(tally(6, 6, 2)));
    assert_eq!(meets.len(), 2);
}

fn checked(federation: &str, errors: usize, warnings: usize, config: Option<u32>) -> ConfigCheck<u32> {
    ConfigCheck::Checked {
        federation: federation.to_string(),
        report: report_with(federation, errors, warnings),
        config,
    }
}

fn configs_of(loaded: Option<Result<checker::configs::ConfigMap<u32>, (usize, usize)>>) -> Vec<(String, u32)> {
    match loaded {
        Some(Ok(configs)) => {
            let mut found = Vec::new();
            for name in ["ipf", "uspa", "wrpf", "gpc"] {
                if let Some(config) = configs.get(name) {
                    found.push((name.to_string(), *config));
                }
            }
            assert_eq!(found.len(), configs.len());
            found
        }
        _ => panic!("the loading did not end in configurations"),
    }
}

fn counts_of(loaded: Option<Result<checker::configs::ConfigMap<u32>, (usize, usize)>>) -> (usize, usize) {
    match loaded {
        Some(Err(counts)) => counts,
        _ => panic!("the loading did not end in counts"),
    }
}

#[test]
fn loading_without_errors_hands_out_the_configurations() {
    let checks = vec![
        checked("ipf", 0, 0, Some(1)),
        checked("uspa", 0, 3, Some(2)),
        checked("wrpf", 0, 1, None),
    ];
    assert_eq!(
        configs_of(load_configurations(checks)),
        vec![("ipf".to_string(), 1), ("uspa".to_string(), 2)]
    );
    assert_eq!(configs_of(load_configurations(Vec::<ConfigCheck<u32>>::new())), vec![]);
}

#[test]
fn loading_with_errors_ends_in_the_sums_of_all_reports() {
    let checks = vec![
        checked("ipf", 2, 1, Some(1)),
        checked("uspa", 0, 3, Some(2)),
        checked("wrpf", 1, 0, None),
    ];
    assert_eq!(counts_of(load_configurations(checks)), (3, 4));
    assert_eq!(counts_of(load_configurations(vec![checked("ipf", 1, 0, Some(1))])), (1, 0));
}

#[test]
fn loading_ends_at_the_first_file_that_cannot_be_read() {
    let checks = vec![
        checked("ipf", 2, 1, Some(1)),
        checked("uspa", 0, 3, Some(2)),
        ConfigCheck::Failed,
        checked("wrpf", 5, 7, None),
        ConfigCheck::Failed,
    ];
    assert_eq!(counts_of(load_configurations(checks)), (3, 4));
    // The failure alone is an error.
    assert_eq!(counts_of(load_configurations(vec![ConfigCheck::<u32>::Failed])), (1, 0));
    let checks = vec![checked("ipf", 0, 2, Some(1)), ConfigCheck::Failed];
    assert_eq!(counts_of(load_configurations(checks)), (1, 2));
}

#[test]
fn loading_does_not_depend_on_the_order_of_the_files() {
    let forwards = vec![
        checked("ipf", 0, 1, Some(1)),
        checked("uspa", 0, 3, Some(2)),
        checked("wrpf", 0, 0, None),
        checked("gpc", 0, 2, Some(4)),
    ];
    let backwards = vec![
        checked("gpc", 0, 2, Some(4)),
        checked("wrpf", 0, 0, None),
        checked("uspa", 0, 3, Some(2)),
        checked("ipf", 0, 1, Some(1)),
    ];
    assert_eq!(
        configs_of(load_configurations(forwards)),
        configs_of(load_configurations(backwards))
    );

    let forwards = vec![checked("ipf", 2, 1, Some(1)), checked("uspa", 1, 3, Some(2))];
    let backwards = vec![checked("uspa", 1, 3, Some(2)), checked("ipf", 2, 1, Some(1))];
    assert_eq!(counts_of(load_configurations(forwards)), (3, 4));
    assert_eq!(counts_of(load_configurations(backwards)), (3, 4));
}

#[test]
fn loading_one_file_at_a_time_comes_to_the_same() {
    let mut loader: ConfigLoader<u32> = ConfigLoader::new();
    assert_eq!(loader.checked("ipf".to_string(), &report_with("ipf", 2, 1), Some(1)), Some(true));
    assert_eq!(loader.checked("uspa".to_string(), &report_with("uspa", 0, 3), Some(2)), Some(true));
    assert_eq!(loader.failed(), Some((3, 4)));
    let checks = vec![checked("ipf", 2, 1, Some(1)), checked("uspa", 0, 3, Some(2)), ConfigCheck::Failed];
    assert_eq!(counts_of(load_configurations(checks)), (3, 4));
    match loader.finish() {
        Err(counts) => assert_eq!(counts, (2, 4)),
        Ok(_) => panic!("a run with errors hands out no configuration"),
    }
}
