use packs::checker::{
    check_all, check_unnecessary_dependencies, get_unnecessary_dependencies,
    remove_reference_to_dependency, remove_unnecessary_dependencies, update, validate,
    validate_all, CheckAllResult,
};
use packs::error::PackError;
use packs::pack::{
    CheckerSetting, Configuration, ConstantGroup, Pack, PackSet, PackageTodo, Reference,
    SourceLocation, TodoEntry,
};

fn empty_todo() -> PackageTodo {
    PackageTodo { violations_by_defining_pack: Vec::new() }
}

fn base_pack(name: &str) -> Pack {
    Pack {
        name: name.to_string(),
        relative_path: name.to_string(),
        dependencies: Vec::new(),
        enforce_privacy: None,
        ignored_private_constants: Vec::new(),
        private_constants: Vec::new(),
        public_folder: None,
        package_todo: empty_todo(),
    }
}

fn enforcing_bar(setting: CheckerSetting) -> Pack {
    Pack {
        enforce_privacy: Some(setting),
        ..base_pack("packs/bar")
    }
}

fn violating_reference() -> Reference {
    Reference {
        constant_name: "::Bar".to_string(),
        referencing_pack_name: "packs/foo".to_string(),
        defining_pack_name: Some("packs/bar".to_string()),
        relative_referencing_file: "packs/foo/app/services/foo.rb".to_string(),
        relative_defining_file: Some("packs/bar/app/services/bar.rb".to_string()),
        source_location: SourceLocation { line: 3, column: 1 },
    }
}

fn bar_baseline_todo() -> PackageTodo {
    PackageTodo {
        violations_by_defining_pack: vec![TodoEntry {
            defining_pack_name: "packs/bar".to_string(),
            groups: vec![ConstantGroup {
                constant_name: "::Bar".to_string(),
                violation_types: vec!["privacy".to_string()],
                files: vec!["packs/foo/app/services/foo.rb".to_string()],
            }],
        }],
    }
}

fn configuration_with(packs: Vec<Pack>, ignore_recorded_violations: bool) -> Configuration {
    Configuration {
        pack_set: PackSet::new(packs),
        ignore_recorded_violations,
        included_files: vec!["/app/packs/foo/app/services/foo.rb".to_string()],
        absolute_root: "/app".to_string(),
    }
}

fn run_check_all(configuration: &Configuration, references: &Vec<Reference>) -> CheckAllResult {
    check_all(configuration, &Vec::new(), references).unwrap()
}

#[test]
fn check_all_reports_new_violation() {
    let configuration = configuration_with(
        vec![base_pack("packs/foo"), enforcing_bar(CheckerSetting::True)],
        false,
    );
    let references = vec![violating_reference()];
    let result = run_check_all(&configuration, &references);
    assert!(result.has_violations());
    assert_eq!(result.reportable_violations.len(), 1);
    assert_eq!(result.stale_violations.len(), 0);
    assert_eq!(result.strict_mode_violations.len(), 0);
    let message = &result.reportable_violations[0].message;
    assert!(message.contains("`::Bar` is private to `packs/bar`, but referenced from `packs/foo`"));
    let report = result.write_violations();
    assert!(report.starts_with("1 violation(s) detected:\n"));
    assert!(report.contains("packs/foo/app/services/foo.rb:3:1\n"));
}

#[test]
fn check_all_public_folder_file_is_clean() {
    let configuration = configuration_with(
        vec![base_pack("packs/foo"), enforcing_bar(CheckerSetting::True)],
        false,
    );
    let mut reference = violating_reference();
    reference.relative_defining_file = Some("packs/bar/app/public/bar.rb".to_string());
    let references = vec![reference];
    let result = run_check_all(&configuration, &references);
    assert!(!result.has_violations());
    assert_eq!(result.render(), "No violations detected!");
}

#[test]
fn check_all_deduplicates_identical_violations() {
    let configuration = configuration_with(
        vec![base_pack("packs/foo"), enforcing_bar(CheckerSetting::True)],
        false,
    );
    let references = vec![violating_reference(), violating_reference()];
    let result = run_check_all(&configuration, &references);
    assert_eq!(result.reportable_violations.len(), 1);
}

#[test]
fn check_all_recorded_violation_is_not_reported() {
    let mut foo = base_pack("packs/foo");
    foo.package_todo = bar_baseline_todo();
    let configuration =
        configuration_with(vec![foo, enforcing_bar(CheckerSetting::True)], false);
    let references = vec![violating_reference()];
    let result = run_check_all(&configuration, &references);
    assert!(!result.has_violations());
    assert_eq!(result.reportable_violations.len(), 0);
    assert_eq!(result.stale_violations.len(), 0);
    assert_eq!(result.strict_mode_violations.len(), 0);
}

#[test]
fn check_all_ignore_recorded_violations_reports_everything() {
    let mut foo = base_pack("packs/foo");
    foo.package_todo = bar_baseline_todo();
    let configuration = configuration_with(vec![foo, enforcing_bar(CheckerSetting::True)], true);
    let references = vec![violating_reference()];
    let result = run_check_all(&configuration, &references);
    assert!(result.has_violations());
    assert_eq!(result.reportable_violations.len(), 1);
}

#[test]
fn check_all_stale_violation_in_working_set() {
    let mut foo = base_pack("packs/foo");
    foo.package_todo = bar_baseline_todo();
    let configuration =
        configuration_with(vec![foo, enforcing_bar(CheckerSetting::True)], false);
    let references: Vec<Reference> = Vec::new();
    let result = run_check_all(&configuration, &references);
    assert!(result.has_violations());
    assert_eq!(result.stale_violations.len(), 1);
    assert_eq!(result.stale_violations[0].file, "packs/foo/app/services/foo.rb");
    let report = result.write_violations();
    assert!(report.contains("There were stale violations found, please run `packs update`"));
}

#[test]
fn check_all_no_stale_outside_working_set() {
    let mut foo = base_pack("packs/foo");
    foo.package_todo = bar_baseline_todo();
    let mut configuration =
        configuration_with(vec![foo, enforcing_bar(CheckerSetting::True)], false);
    configuration.included_files = vec!["/app/packs/other/app/other.rb".to_string()];
    let references: Vec<Reference> = Vec::new();
    let result = run_check_all(&configuration, &references);
    assert_eq!(result.stale_violations.len(), 0);
    assert!(!result.has_violations());
}

#[test]
fn check_all_strict_mode_violation() {
    let mut foo = base_pack("packs/foo");
    foo.package_todo = bar_baseline_todo();
    let configuration =
        configuration_with(vec![foo, enforcing_bar(CheckerSetting::Strict)], false);
    let references = vec![violating_reference()];
    let result = run_check_all(&configuration, &references);
    assert!(result.has_violations());
    assert_eq!(result.reportable_violations.len(), 0);
    assert_eq!(result.strict_mode_violations.len(), 1);
    let report = result.write_violations();
    assert_eq!(
        report,
        "packs/foo cannot have privacy violations on packs/bar because strict mode is enabled \
         for privacy violations in the enforcing pack's package.yml file\n"
    );
}

#[test]
fn check_all_unroutable_baseline_entry_fails() {
    let mut foo = base_pack("packs/foo");
    foo.package_todo = PackageTodo {
        violations_by_defining_pack: vec![TodoEntry {
            defining_pack_name: "packs/bar".to_string(),
            groups: vec![ConstantGroup {
                constant_name: "::Bar".to_string(),
                violation_types: vec!["architecture".to_string()],
                files: vec!["packs/foo/app/services/foo.rb".to_string()],
            }],
        }],
    };
    let configuration =
        configuration_with(vec![foo, enforcing_bar(CheckerSetting::True)], false);
    let references: Vec<Reference> = Vec::new();
    let result = check_all(&configuration, &Vec::new(), &references);
    match result {
        Err(PackError::UnroutableViolationType { violation_type }) => {
            assert_eq!(violation_type, "architecture");
        }
        _ => panic!("expected an unroutable violation type error"),
    }
}

#[test]
fn check_all_missing_referencing_pack_fails() {
    let configuration = configuration_with(vec![enforcing_bar(CheckerSetting::True)], false);
    let references = vec![violating_reference()];
    let result = check_all(&configuration, &Vec::new(), &references);
    match result {
        Err(PackError::NotFound { pack_name }) => assert_eq!(pack_name, "packs/foo"),
        _ => panic!("expected a not-found error"),
    }
}

#[test]
fn check_all_renders_multi_digit_locations() {
    let configuration = configuration_with(
        vec![base_pack("packs/foo"), enforcing_bar(CheckerSetting::True)],
        false,
    );
    let mut reference = violating_reference();
    reference.source_location = SourceLocation { line: 120, column: 37 };
    let references = vec![reference];
    let result = run_check_all(&configuration, &references);
    assert!(result.reportable_violations[0]
        .message
        .starts_with("packs/foo/app/services/foo.rb:120:37\n"));
}

#[test]
fn update_recomputes_the_violation_set() {
    let configuration = configuration_with(
        vec![base_pack("packs/foo"), enforcing_bar(CheckerSetting::True)],
        false,
    );
    let references = vec![violating_reference()];
    let found = update(&configuration, &references).unwrap();
    assert_eq!(found.len(), 1);
    assert_eq!(found[0].identifier.violation_type, "privacy");
    assert_eq!(found[0].identifier.constant_name, "::Bar");
}

#[test]
fn unnecessary_dependencies_flags_unused_edges() {
    let mut foo = base_pack("packs/foo");
    foo.dependencies = vec!["packs/bar".to_string(), "packs/baz".to_string()];
    let configuration = configuration_with(
        vec![foo, base_pack("packs/bar"), base_pack("packs/baz")],
        false,
    );
    let references = vec![violating_reference()];
    let unnecessary = get_unnecessary_dependencies(&configuration, &references);
    assert_eq!(unnecessary.len(), 1);
    assert_eq!(unnecessary[0].pack.name, "packs/foo");
    assert_eq!(unnecessary[0].dependency_names, vec!["packs/baz".to_string()]);

    match check_unnecessary_dependencies(&configuration, &references) {
        Err(PackError::UnnecessaryDependencies { messages }) => {
            assert_eq!(
                messages,
                vec!["packs/foo depends on packs/baz but does not use it".to_string()]
            );
        }
        _ => panic!("expected an unnecessary-dependencies error"),
    }
}

#[test]
fn unnecessary_dependencies_ignore_reference_order() {
    let mut foo = base_pack("packs/foo");
    foo.dependencies = vec!["packs/bar".to_string(), "packs/baz".to_string()];
    let configuration = configuration_with(
        vec![foo, base_pack("packs/bar"), base_pack("packs/baz")],
        false,
    );
    let mut second = violating_reference();
    second.constant_name = "::Other".to_string();
    let forward = vec![violating_reference(), duplicate_reference(&second)];
    let backward = vec![second, violating_reference()];
    let a = get_unnecessary_dependencies(&configuration, &forward);
    let b = get_unnecessary_dependencies(&configuration, &backward);
    assert_eq!(a.len(), b.len());
    assert_eq!(a[0].pack.name, b[0].pack.name);
    assert_eq!(a[0].dependency_names, b[0].dependency_names);
}

fn duplicate_reference(r: &Reference) -> Reference {
    Reference {
        constant_name: r.constant_name.clone(),
        referencing_pack_name: r.referencing_pack_name.clone(),
        defining_pack_name: r.defining_pack_name.clone(),
        relative_referencing_file: r.relative_referencing_file.clone(),
        relative_defining_file: r.relative_defining_file.clone(),
        source_location: SourceLocation {
            line: r.source_location.line,
            column: r.source_location.column,
        },
    }
}

#[test]
fn unnecessary_dependencies_used_edge_is_clean() {
    let mut foo = base_pack("packs/foo");
    foo.dependencies = vec!["packs/bar".to_string()];
    let configuration = configuration_with(vec![foo, base_pack("packs/bar")], false);
    let references = vec![violating_reference()];
    assert!(check_unnecessary_dependencies(&configuration, &references).is_ok());
}

#[test]
fn remove_unnecessary_dependencies_rewrites_the_pack() {
    let mut foo = base_pack("packs/foo");
    foo.dependencies = vec!["packs/bar".to_string(), "packs/baz".to_string()];
    let configuration = configuration_with(
        vec![foo, base_pack("packs/bar"), base_pack("packs/baz")],
        false,
    );
    let references = vec![violating_reference()];
    let updated = remove_unnecessary_dependencies(&configuration, &references);
    assert_eq!(updated.len(), 1);
    assert_eq!(updated[0].name, "packs/foo");
    assert_eq!(updated[0].dependencies, vec!["packs/bar".to_string()]);
}

#[test]
fn remove_reference_to_dependency_drops_named_edges() {
    let mut foo = base_pack("packs/foo");
    foo.dependencies = vec![
        "packs/bar".to_string(),
        "packs/baz".to_string(),
        "packs/qux".to_string(),
    ];
    let updated =
        remove_reference_to_dependency(&foo, &vec!["packs/bar".to_string(), "packs/qux".to_string()]);
    assert_eq!(updated.name, "packs/foo");
    assert_eq!(updated.dependencies, vec!["packs/baz".to_string()]);
}

#[test]
fn validate_collapses_consecutive_duplicates() {
    let messages = vec![
        "cycle detected".to_string(),
        "cycle detected".to_string(),
        "layer broken".to_string(),
        "cycle detected".to_string(),
    ];
    let deduped = validate(&messages);
    assert_eq!(
        deduped,
        vec![
            "cycle detected".to_string(),
            "layer broken".to_string(),
            "cycle detected".to_string(),
        ]
    );
}

#[test]
fn validate_all_fails_with_messages() {
    match validate_all(&vec!["cycle detected".to_string()]) {
        Err(PackError::ValidationFailure { messages }) => {
            assert_eq!(messages, vec!["cycle detected".to_string()]);
        }
        _ => panic!("expected a validation failure"),
    }
    assert!(validate_all(&Vec::new()).is_ok());
}
