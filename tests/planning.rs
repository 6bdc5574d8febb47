use armerge::{compile_policy, gather_members, is_order_entry, merge_order, order_entries, plan_merge, ArmergeKeepOrRemove, InputArchive, MergeError, MergePlan, ObjectMember};

fn strings(v: &[&str]) -> Vec<String> {
    v.iter().map(|s| s.to_string()).collect()
}

#[test]
fn both_policies_are_a_configuration_error() {
    let r = plan_merge(2, &strings(&["^keep_"]), &strings(&["^hide_"]));
    assert!(matches!(r, Err(MergeError::ConflictingSymbolPolicies)));
}

#[test]
fn no_inputs_is_a_configuration_error() {
    let r = plan_merge(0, &Vec::new(), &Vec::new());
    assert!(matches!(r, Err(MergeError::NoInputs)));
    let r = plan_merge(0, &strings(&["a"]), &strings(&["b"]));
    assert!(matches!(r, Err(MergeError::NoInputs)));
}

#[test]
fn no_policy_plans_a_simple_merge() {
    assert!(matches!(plan_merge(1, &Vec::new(), &Vec::new()), Ok(MergePlan::Simple)));
}

#[test]
fn single_policy_plans_localization() {
    match plan_merge(3, &strings(&["^api_", "init"]), &Vec::new()) {
        Ok(MergePlan::Localize { mode, patterns }) => {
            assert_eq!(mode, ArmergeKeepOrRemove::KeepSymbols);
            assert_eq!(patterns, strings(&["^api_", "init"]));
        }
        other => panic!("unexpected {:?}", other),
    }
    match plan_merge(1, &Vec::new(), &strings(&["internal"])) {
        Ok(MergePlan::Localize { mode, patterns }) => {
            assert_eq!(mode, ArmergeKeepOrRemove::RemoveSymbols);
            assert_eq!(patterns, strings(&["internal"]));
        }
        other => panic!("unexpected {:?}", other),
    }
}

#[test]
fn invalid_pattern_is_reported_by_source() {
    match compile_policy(ArmergeKeepOrRemove::KeepSymbols, &strings(&["ok", "(unclosed", "[also"])) {
        Err(MergeError::InvalidPattern { pattern }) => assert_eq!(pattern, "(unclosed"),
        Err(e) => panic!("unexpected {:?}", e),
        Ok(_) => panic!("expected an error"),
    }
}

#[test]
fn order_file_lines_are_trimmed_and_filtered() {
    let lines = strings(&["# leading comment", "  b.o  ", "", "   ", "\ta.o", "  # indented comment", "c.o"]);
    assert_eq!(order_entries(&lines), strings(&["b.o", "a.o", "c.o"]));
}

#[test]
fn order_file_puts_listed_members_first() {
    let names = strings(&["a.o", "b.o", "c.o"]);
    let order = strings(&["b.o", "a.o"]);
    let idx = merge_order(&names, &order);
    let ordered: Vec<&str> = idx.iter().map(|&i| names[i].as_str()).collect();
    assert_eq!(ordered, vec!["b.o", "a.o", "c.o"]);
}

#[test]
fn unmatched_and_repeated_order_entries_are_ignored() {
    let names = strings(&["a.o", "b.o", "c.o", "d.o"]);
    let order = strings(&["zz.o", "c.o", "a.o", "c.o"]);
    assert_eq!(merge_order(&names, &order), vec![2, 0, 1, 3]);
}

#[test]
fn empty_order_keeps_extraction_order() {
    let names = strings(&["x.o", "y.o"]);
    assert_eq!(merge_order(&names, &Vec::new()), vec![0, 1]);
    assert_eq!(merge_order(&Vec::new(), &strings(&["x.o"])), Vec::<usize>::new());
}

fn member(name: &str, data: &[u8]) -> ObjectMember {
    ObjectMember { name: name.to_string(), data: data.to_vec() }
}

#[test]
fn gathering_distinct_members_is_their_union() {
    let archives = vec![
        InputArchive { stem: "liba".to_string(), members: vec![member("a1.o", b"A1"), member("a2.o", b"A2")] },
        InputArchive { stem: "libb".to_string(), members: vec![member("b1.o", &[0, 1, 2, 255])] },
    ];
    let all = gather_members(&archives);
    let names: Vec<&str> = all.iter().map(|m| m.name.as_str()).collect();
    assert_eq!(names, vec!["a1.o", "a2.o", "b1.o"]);
    assert_eq!(all[0].data, b"A1".to_vec());
    assert_eq!(all[1].data, b"A2".to_vec());
    assert_eq!(all[2].data, vec![0, 1, 2, 255]);
}

#[test]
fn colliding_member_names_are_qualified_with_the_stem() {
    let archives = vec![
        InputArchive { stem: "liba".to_string(), members: vec![member("util.o", b"first"), member("libb-util.o", b"odd")] },
        InputArchive { stem: "libb".to_string(), members: vec![member("util.o", b"second")] },
    ];
    let all = gather_members(&archives);
    let names: Vec<&str> = all.iter().map(|m| m.name.as_str()).collect();
    assert_eq!(names, vec!["util.o", "libb-util.o", "libb-libb-util.o"]);
    assert_eq!(all[2].data, b"second".to_vec());
}

#[test]
fn gathering_nothing_gives_nothing() {
    assert!(gather_members(&Vec::new()).is_empty());
}

#[test]
fn order_entry_test_after_trimming() {
    assert!(is_order_entry("a.o"));
    assert!(is_order_entry("a#b.o"));
    assert!(!is_order_entry(""));
    assert!(!is_order_entry("#a.o"));
}

#[test]
fn keep_decision_per_mode() {
    assert!(ArmergeKeepOrRemove::KeepSymbols.keeps_when(true));
    assert!(!ArmergeKeepOrRemove::KeepSymbols.keeps_when(false));
    assert!(!ArmergeKeepOrRemove::RemoveSymbols.keeps_when(true));
    assert!(ArmergeKeepOrRemove::RemoveSymbols.keeps_when(false));
}
