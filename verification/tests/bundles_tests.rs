use tidas_tools::bundles::{
    BundleTotals, BundleTotalsError, DependencyOutcome, ExchangeWalk, WalkAction, WalkEvent, count_copy, dependency_outcome,
    fixed_dependencies, step,
};

fn walk(events: Vec<WalkEvent>) -> (Vec<String>, u64) {
    let mut state = ExchangeWalk::Start;
    let mut actions = Vec::new();
    let mut unresolved = 0u64;
    for event in events {
        let (next, action, counted) = step(state, event);
        unresolved = BundleTotals::count_unresolved(unresolved, counted);
        actions.push(match action {
            WalkAction::RecordMissingFlowRef => "missing".to_owned(),
            WalkAction::Copy(category, id) => format!("copy {category} {id}"),
            WalkAction::Read(category, id, member) => format!("read {category} {id} {member}"),
            WalkAction::Finish => "finish".to_owned(),
        });
        state = next;
    }
    (actions, unresolved)
}

#[test]
fn a_fully_resolved_exchange_pulls_flow_property_and_unit_group() {
    let (actions, unresolved) = walk(vec![
        WalkEvent::Exchange(Some("f".to_owned())),
        WalkEvent::Copied(true),
        WalkEvent::Read(Some("p".to_owned())),
        WalkEvent::Copied(true),
        WalkEvent::Read(Some("g".to_owned())),
        WalkEvent::Copied(true),
    ]);
    assert_eq!(
        actions,
        vec![
            "copy flows f",
            "read flows f flowPropertyRefId",
            "copy flowproperties p",
            "read flowproperties p unitGroupRefId",
            "copy unitgroups g",
            "finish"
        ]
    );
    assert_eq!(unresolved, 0);
}

#[test]
fn missing_flow_ref_and_missing_files_count_once() {
    let (actions, unresolved) = walk(vec![WalkEvent::Exchange(None), WalkEvent::Copied(false)]);
    assert_eq!(actions, vec!["missing", "finish"]);
    assert_eq!(unresolved, 1);
    let (actions, unresolved) = walk(vec![WalkEvent::Exchange(Some("f".to_owned())), WalkEvent::Copied(false)]);
    assert_eq!(actions, vec!["copy flows f", "finish"]);
    assert_eq!(unresolved, 1);
    let (_, unresolved) = walk(vec![
        WalkEvent::Exchange(Some("f".to_owned())),
        WalkEvent::Copied(true),
        WalkEvent::Read(Some("p".to_owned())),
        WalkEvent::Copied(true),
        WalkEvent::Read(Some("g".to_owned())),
        WalkEvent::Copied(false),
    ]);
    assert_eq!(unresolved, 1);
}

#[test]
fn a_flow_the_store_does_not_know_ends_the_walk_resolved() {
    let (actions, unresolved) = walk(vec![
        WalkEvent::Exchange(Some("f".to_owned())),
        WalkEvent::Copied(true),
        WalkEvent::Read(None),
    ]);
    assert_eq!(actions, vec!["copy flows f", "read flows f flowPropertyRefId", "finish"]);
    assert_eq!(unresolved, 0);
}

#[test]
fn totals_refuse_overflow_and_report_the_peak() {
    let mut totals = BundleTotals::new();
    assert_eq!(totals.add_process(2), Ok(()));
    assert_eq!(totals.add_process(3), Ok(()));
    let report = totals.report(42);
    assert_eq!(report.process_count, 2);
    assert_eq!(report.unresolved_reference_count, 5);
    assert_eq!(report.peak_accounted_memory_bytes, 42);
    assert_eq!(totals.add_process(u64::MAX), Err(BundleTotalsError::SizeOverflow));
    assert_eq!(totals.unresolved_reference_count, 5);
    assert_eq!(BundleTotals::count_unresolved(u64::MAX, true), u64::MAX);
}

#[test]
fn bundles_take_the_process_contact_and_sources_first() {
    let deps = fixed_dependencies("p-1");
    assert_eq!(deps.len(), 4);
    assert_eq!(deps[0], ("processes", "p-1".to_owned()));
    assert_eq!(deps[1], ("contacts", tidas_tools::writers::contact_id()));
    assert_eq!(deps[2], ("sources", tidas_tools::writers::format_source_id()));
    assert_eq!(deps[3], ("sources", tidas_tools::writers::compliance_source_id()));
}

#[test]
fn dependencies_are_counted_when_copied() {
    assert_eq!(dependency_outcome(false, false), DependencyOutcome::Unresolved);
    assert_eq!(dependency_outcome(true, false), DependencyOutcome::Copied);
    assert_eq!(dependency_outcome(true, true), DependencyOutcome::AlreadyPresent);
    let mut counts = tidas_tools::table::TextMap::new();
    count_copy(&mut counts, "flows");
    count_copy(&mut counts, "flows");
    count_copy(&mut counts, "sources");
    assert_eq!(counts.get("flows"), Some(&2));
    assert_eq!(counts.get("sources"), Some(&1));
    assert_eq!(counts.get("contacts"), None);
}
