use despatma_dependency_container::wiring::{
    best_match_from_distances, get_best_dependency_match, Diagnostic, WiringError,
    WiringVisitor, MISSPELLING_THRESHOLD,
};

fn s(text: &str) -> String {
    text.to_string()
}

fn names(texts: &[&str]) -> Vec<String> {
    texts.iter().map(|t| t.to_string()).collect()
}

#[test]
fn threshold_is_three() {
    assert_eq!(MISSPELLING_THRESHOLD, 3);
}

#[test]
fn suggests_closest_registered_name() {
    let deps = names(&["service", "config", "database"]);
    assert_eq!(get_best_dependency_match(&deps, "confg"), Some(s("config")));
    assert_eq!(get_best_dependency_match(&deps, "databse"), Some(s("database")));
}

#[test]
fn no_suggestion_beyond_threshold() {
    let deps = names(&["service", "config"]);
    assert_eq!(get_best_dependency_match(&deps, "logger"), None);
    assert_eq!(get_best_dependency_match(&vec![], "config"), None);
}

#[test]
fn distance_of_exactly_three_is_suggested() {
    // "abc" -> "xyz" needs three substitutions.
    assert_eq!(get_best_dependency_match(&names(&["xyz"]), "abc"), Some(s("xyz")));
    assert_eq!(get_best_dependency_match(&names(&["wxyz"]), "abc"), None);
}

#[test]
fn first_of_equally_close_names_wins() {
    let deps = names(&["cat", "bat", "car"]);
    assert_eq!(get_best_dependency_match(&deps, "hat"), Some(s("cat")));
}

#[test]
fn best_match_from_given_distances() {
    let c = names(&["a", "b", "c", "d"]);
    assert_eq!(best_match_from_distances(&c, &vec![5, 2, 1, 1]), Some(s("c")));
    assert_eq!(best_match_from_distances(&c, &vec![4, 4, 9, 4]), None);
    assert_eq!(best_match_from_distances(&c, &vec![3, 4, 3, 0]), Some(s("d")));
    assert_eq!(best_match_from_distances(&c, &vec![3, 4, 3, 4]), Some(s("a")));
}

#[test]
fn registered_requests_are_not_reported() {
    let mut v = WiringVisitor::new(names(&["config", "service"]));
    v.visit_child_dependency(&s("config"));
    v.visit_dependency(&names(&["service", "config"]));
    assert!(v.diagnostics().is_empty());
}

#[test]
fn unregistered_requests_are_reported_in_order() {
    let mut v = WiringVisitor::new(names(&["config", "service"]));
    v.visit_dependency(&names(&["confg", "config", "logger"]));
    assert_eq!(
        v.diagnostics(),
        vec![
            Diagnostic {
                message: s("The 'confg' dependency has not been registered"),
                hint: s("Did you mean `config`?"),
                hint_at_best_match: true,
            },
            Diagnostic {
                message: s("Dependency not found. Did you forget to add it?"),
                hint: s("Try adding it with `fn logger(&self) ...`"),
                hint_at_best_match: false,
            },
        ]
    );
}

#[test]
fn wiring_error_records_best_match() {
    let mut v = WiringVisitor::new(names(&["service"]));
    v.visit_child_dependency(&s("sevice"));
    assert_eq!(
        v.errors(),
        &vec![WiringError { requested: s("sevice"), best_match: Some(s("service")) }]
    );
}

#[test]
fn container_visit_reports_each_dependency_in_order() {
    let mut v = WiringVisitor::new(names(&["config", "service"]));
    v.visit_container(&vec![names(&["config"]), names(&["sevice", "config"]), names(&[])]);
    assert_eq!(
        v.errors(),
        &vec![WiringError { requested: s("sevice"), best_match: Some(s("service")) }]
    );
}

#[test]
fn container_of_registered_requests_reports_nothing() {
    let mut v = WiringVisitor::new(names(&["config", "service"]));
    v.visit_container(&vec![names(&["config"]), names(&["service", "config"])]);
    v.visit_container(&vec![]);
    assert!(v.errors().is_empty());
    assert!(v.diagnostics().is_empty());
}
