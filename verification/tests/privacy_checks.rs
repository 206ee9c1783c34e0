use packs::checker::{Violation, ViolationIdentifier};
use packs::error::PackError;
use packs::pack::{
    CheckerSetting, Configuration, ConstantGroup, Pack, PackSet, PackageTodo, Reference,
    SourceLocation, TodoEntry,
};
use packs::privacy::Checker;

fn empty_todo() -> PackageTodo {
    PackageTodo { violations_by_defining_pack: Vec::new() }
}

fn base_pack(name: &str) -> Pack {
    Pack {
        name: name.to_string(),
        relative_path: name.to_string(),
        dependencies: Vec::new(),
        enforce_privacy: None,
        ignored_private_constants: Vec::new(),
        private_constants: Vec::new(),
        public_folder: None,
        package_todo: empty_todo(),
    }
}

fn default_defining_pack() -> Pack {
    base_pack("packs/bar")
}

fn default_referencing_pack() -> Pack {
    base_pack("packs/foo")
}

fn default_reference(constant_name: &str, defining_pack_name: &str) -> Reference {
    Reference {
        constant_name: constant_name.to_string(),
        referencing_pack_name: "packs/foo".to_string(),
        defining_pack_name: Some(defining_pack_name.to_string()),
        relative_referencing_file: "packs/foo/app/services/foo.rb".to_string(),
        relative_defining_file: Some("packs/bar/app/services/bar.rb".to_string()),
        source_location: SourceLocation { line: 3, column: 1 },
    }
}

fn build_expected_violation(message: String, violation_type: String, strict: bool) -> Violation {
    build_expected_violation_with_constant(message, violation_type, strict, "::Bar".to_string())
}

fn build_expected_violation_with_constant(
    message: String,
    violation_type: String,
    strict: bool,
    constant_name: String,
) -> Violation {
    Violation {
        message,
        identifier: ViolationIdentifier {
            violation_type,
            strict,
            file: "packs/foo/app/services/foo.rb".to_string(),
            constant_name,
            referencing_pack_name: "packs/foo".to_string(),
            defining_pack_name: "packs/bar".to_string(),
        },
    }
}

fn run_check(
    defining_pack: Option<Pack>,
    referencing_pack: Pack,
    reference: &Reference,
) -> Result<Option<Violation>, PackError> {
    let mut pack_list: Vec<Pack> = Vec::new();
    let referencing_name = referencing_pack.name.clone();
    if let Some(d) = defining_pack {
        pack_list.push(d);
    }
    if !pack_list.iter().any(|p| p.name == referencing_name) {
        pack_list.push(referencing_pack);
    }
    let configuration = Configuration {
        pack_set: PackSet::new(pack_list),
        ignore_recorded_violations: false,
        included_files: Vec::new(),
        absolute_root: String::new(),
    };
    Checker {}.check(reference, &configuration)
}

fn assert_no_violation(result: Result<Option<Violation>, PackError>) {
    match result {
        Ok(None) => {}
        Ok(Some(v)) => panic!("expected no violation, got one with message {}", v.message),
        Err(_) => panic!("expected no violation, got an error"),
    }
}

fn assert_violation(result: Result<Option<Violation>, PackError>, expected: &Violation) {
    match result {
        Ok(Some(v)) => {
            assert_eq!(v.message, expected.message);
            assert!(v.structurally_equal(expected));
        }
        Ok(None) => panic!("expected a violation, got none"),
        Err(_) => panic!("expected a violation, got an error"),
    }
}

#[test]
fn test_reference_and_defining_packs_are_identical() {
    let defining_pack = Pack {
        name: "packs/foo".to_string(),
        enforce_privacy: Some(CheckerSetting::True),
        ignored_private_constants: vec!["::Bar".to_string()],
        ..default_defining_pack()
    };
    let reference = default_reference("::Bar", "packs/foo");
    let result = run_check(Some(defining_pack), default_referencing_pack(), &reference);
    assert_no_violation(result);
}

#[test]
fn test_with_ignored_private_constants() {
    let defining_pack = Pack {
        name: "packs/bar".to_string(),
        enforce_privacy: Some(CheckerSetting::True),
        ignored_private_constants: vec!["::Bar".to_string()],
        ..default_defining_pack()
    };
    let reference = default_reference("::Bar", "packs/bar");
    let result = run_check(Some(defining_pack), default_referencing_pack(), &reference);
    assert_no_violation(result);
}

#[test]
fn test_with_privacy_violation() {
    let defining_pack = Pack {
        name: "packs/bar".to_string(),
        enforce_privacy: Some(CheckerSetting::True),
        ignored_private_constants: vec!["::Taco".to_string()],
        ..default_defining_pack()
    };
    let reference = default_reference("::Bar", "packs/bar");
    let expected = build_expected_violation(
        "packs/foo/app/services/foo.rb:3:1\nPrivacy violation: `::Bar` is private to `packs/bar`, but referenced from `packs/foo`".to_string(),
        "privacy".to_string(),
        false,
    );
    let result = run_check(Some(defining_pack), default_referencing_pack(), &reference);
    assert_violation(result, &expected);
}

#[test]
fn test_with_strict_privacy_violation() {
    let defining_pack = Pack {
        name: "packs/bar".to_string(),
        enforce_privacy: Some(CheckerSetting::Strict),
        ignored_private_constants: vec!["::Taco".to_string()],
        ..default_defining_pack()
    };
    let reference = default_reference("::Bar", "packs/bar");
    let expected = build_expected_violation(
        "packs/foo/app/services/foo.rb:3:1\nPrivacy violation: `::Bar` is private to `packs/bar`, but referenced from `packs/foo`".to_string(),
        "privacy".to_string(),
        true,
    );
    let result = run_check(Some(defining_pack), default_referencing_pack(), &reference);
    assert_violation(result, &expected);
}

#[test]
fn test_without_privacy_enforcement() {
    let defining_pack = Pack {
        name: "packs/bar".to_string(),
        enforce_privacy: Some(CheckerSetting::False),
        ignored_private_constants: vec!["::Taco".to_string()],
        ..default_defining_pack()
    };
    let reference = default_reference("::Bar", "packs/bar");
    let result = run_check(Some(defining_pack), default_referencing_pack(), &reference);
    assert_no_violation(result);
}

#[test]
fn test_with_public_constant() {
    let reference = Reference {
        constant_name: "::Bar".to_string(),
        defining_pack_name: Some("packs/bar".to_string()),
        referencing_pack_name: "packs/foo".to_string(),
        relative_referencing_file: "packs/foo/app/services/foo.rb".to_string(),
        relative_defining_file: Some("packs/bar/app/public/bar.rb".to_string()),
        source_location: SourceLocation { line: 3, column: 1 },
    };
    let defining_pack = Pack {
        name: "packs/bar".to_string(),
        enforce_privacy: Some(CheckerSetting::True),
        public_folder: Some("packs/bar/app/public".to_string()),
        ..default_defining_pack()
    };
    let result = run_check(Some(defining_pack), default_referencing_pack(), &reference);
    assert_no_violation(result);
}

#[test]
fn test_public_folder_detection() {
    let reference = Reference {
        constant_name: "::Bar".to_string(),
        defining_pack_name: Some("packs/bar".to_string()),
        referencing_pack_name: "packs/foo".to_string(),
        relative_referencing_file: "packs/foo/app/services/foo.rb".to_string(),
        relative_defining_file: Some("packs/bar/app/public/bar.rb".to_string()),
        source_location: SourceLocation { line: 3, column: 1 },
    };
    let defining_pack = Pack {
        name: "packs/bar".to_string(),
        enforce_privacy: Some(CheckerSetting::True),
        relative_path: "packs/bar".to_string(),
        ..default_defining_pack()
    };
    let result = run_check(Some(defining_pack), default_referencing_pack(), &reference);
    assert_no_violation(result);
}

#[test]
fn test_custom_public_folder_detection() {
    let reference = Reference {
        constant_name: "::Bar".to_string(),
        defining_pack_name: Some("packs/bar".to_string()),
        referencing_pack_name: "packs/foo".to_string(),
        relative_referencing_file: "packs/foo/app/services/foo.rb".to_string(),
        relative_defining_file: Some("packs/bar/app/api/bar.rb".to_string()),
        source_location: SourceLocation { line: 3, column: 1 },
    };
    let defining_pack = Pack {
        name: "packs/bar".to_string(),
        enforce_privacy: Some(CheckerSetting::True),
        public_folder: Some("packs/bar/app/api".to_string()),
        ..default_defining_pack()
    };
    let result = run_check(Some(defining_pack), default_referencing_pack(), &reference);
    assert_no_violation(result);
}

#[test]
fn test_privacy_constants_exclude_referenced_constant() {
    let reference = Reference {
        constant_name: "::Different".to_string(),
        defining_pack_name: Some("packs/bar".to_string()),
        referencing_pack_name: "packs/foo".to_string(),
        relative_referencing_file: "packs/foo/app/services/foo.rb".to_string(),
        relative_defining_file: Some("packs/bar/app/services/bar.rb".to_string()),
        source_location: SourceLocation { line: 3, column: 1 },
    };
    let defining_pack = Pack {
        name: "packs/bar".to_string(),
        enforce_privacy: Some(CheckerSetting::True),
        relative_path: "packs/bar".to_string(),
        private_constants: vec!["::Bar".to_string()],
        ..default_defining_pack()
    };
    let result = run_check(Some(defining_pack), default_referencing_pack(), &reference);
    assert_no_violation(result);
}

#[test]
fn test_privacy_constants_includes_parent_of_referenced_constant() {
    let reference = Reference {
        constant_name: "::Bar::BarChild".to_string(),
        defining_pack_name: Some("packs/bar".to_string()),
        referencing_pack_name: "packs/foo".to_string(),
        relative_referencing_file: "packs/foo/app/services/foo.rb".to_string(),
        relative_defining_file: Some("packs/bar/app/services/bar.rb".to_string()),
        source_location: SourceLocation { line: 3, column: 1 },
    };
    let defining_pack = Pack {
        name: "packs/bar".to_string(),
        enforce_privacy: Some(CheckerSetting::True),
        relative_path: "packs/bar".to_string(),
        private_constants: vec!["::Bar".to_string()],
        ..default_defining_pack()
    };
    let expected = build_expected_violation_with_constant(
        "packs/foo/app/services/foo.rb:3:1\nPrivacy violation: `::Bar::BarChild` is private to `packs/bar`, but referenced from `packs/foo`".to_string(),
        "privacy".to_string(),
        false,
        "::Bar::BarChild".to_string(),
    );
    let result = run_check(Some(defining_pack), default_referencing_pack(), &reference);
    assert_violation(result, &expected);
}

#[test]
fn test_privacy_constants_match_full_namespace() {
    let reference = Reference {
        constant_name: "::Barbie::BarChild".to_string(),
        defining_pack_name: Some("packs/bar".to_string()),
        referencing_pack_name: "packs/foo".to_string(),
        relative_referencing_file: "packs/foo/app/services/foo.rb".to_string(),
        relative_defining_file: Some("packs/bar/app/api/bar.rb".to_string()),
        source_location: SourceLocation { line: 3, column: 1 },
    };
    let defining_pack = Pack {
        name: "packs/bar".to_string(),
        enforce_privacy: Some(CheckerSetting::True),
        relative_path: "packs/bar".to_string(),
        private_constants: vec!["::Bar".to_string()],
        public_folder: Some("packs/bar/app/public".to_string()),
        ..default_defining_pack()
    };
    let result = run_check(Some(defining_pack), default_referencing_pack(), &reference);
    assert_no_violation(result);
}

#[test]
fn test_private_constants_does_not_include_referenced_constant() {
    let reference = Reference {
        constant_name: "::Bar".to_string(),
        defining_pack_name: Some("packs/bar".to_string()),
        referencing_pack_name: "packs/foo".to_string(),
        relative_referencing_file: "packs/foo/app/services/foo.rb".to_string(),
        relative_defining_file: Some("packs/bar/app/api/bar.rb".to_string()),
        source_location: SourceLocation { line: 3, column: 1 },
    };
    let defining_pack = Pack {
        name: "packs/bar".to_string(),
        enforce_privacy: Some(CheckerSetting::True),
        relative_path: "packs/bar".to_string(),
        private_constants: vec!["::DifferentConstant".to_string()],
        public_folder: Some("packs/bar/app/public".to_string()),
        ..default_defining_pack()
    };
    let result = run_check(Some(defining_pack), default_referencing_pack(), &reference);
    assert_no_violation(result);
}

#[test]
fn test_private_constants_does_include_referenced_public_constant() {
    let reference = Reference {
        constant_name: "::Bar".to_string(),
        defining_pack_name: Some("packs/bar".to_string()),
        referencing_pack_name: "packs/foo".to_string(),
        relative_referencing_file: "packs/foo/app/services/foo.rb".to_string(),
        relative_defining_file: Some("packs/bar/app/public/bar.rb".to_string()),
        source_location: SourceLocation { line: 3, column: 1 },
    };
    let defining_pack = Pack {
        name: "packs/bar".to_string(),
        enforce_privacy: Some(CheckerSetting::True),
        relative_path: "packs/bar".to_string(),
        private_constants: vec!["::Bar".to_string()],
        public_folder: Some("packs/bar/app/public".to_string()),
        ..default_defining_pack()
    };
    let result = run_check(Some(defining_pack), default_referencing_pack(), &reference);
    assert_no_violation(result);
}

#[test]
fn test_defining_pack_not_found() {
    let reference = Reference {
        constant_name: "::Bar".to_string(),
        defining_pack_name: Some("packs/bar".to_string()),
        referencing_pack_name: "packs/foo".to_string(),
        relative_referencing_file: "packs/foo/app/services/foo.rb".to_string(),
        relative_defining_file: Some("packs/bar/app/public/bar.rb".to_string()),
        source_location: SourceLocation { line: 3, column: 1 },
    };
    let result = run_check(None, default_referencing_pack(), &reference);
    assert!(result.is_err());
}

#[test]
fn test_is_strict_mode_violation_follows_current_enforcement() {
    let defining_pack = Pack {
        name: "packs/bar".to_string(),
        enforce_privacy: Some(CheckerSetting::Strict),
        ..default_defining_pack()
    };
    let configuration = Configuration {
        pack_set: PackSet::new(vec![defining_pack, default_referencing_pack()]),
        ignore_recorded_violations: false,
        included_files: Vec::new(),
        absolute_root: String::new(),
    };
    let identifier = ViolationIdentifier {
        violation_type: "privacy".to_string(),
        strict: false,
        file: "packs/foo/app/services/foo.rb".to_string(),
        constant_name: "::Bar".to_string(),
        referencing_pack_name: "packs/foo".to_string(),
        defining_pack_name: "packs/bar".to_string(),
    };
    assert_eq!(
        Checker {}.is_strict_mode_violation(&identifier, &configuration).unwrap(),
        true
    );
    assert_eq!(Checker {}.violation_type(), "privacy".to_string());
}

#[test]
fn test_pack_set_flattens_baseline() {
    let mut foo = base_pack("packs/foo");
    foo.package_todo = PackageTodo {
        violations_by_defining_pack: vec![TodoEntry {
            defining_pack_name: "packs/bar".to_string(),
            groups: vec![ConstantGroup {
                constant_name: "::Bar".to_string(),
                violation_types: vec!["privacy".to_string(), "dependency".to_string()],
                files: vec!["packs/foo/app/services/foo.rb".to_string()],
            }],
        }],
    };
    let pack_set = PackSet::new(vec![foo, base_pack("packs/bar")]);
    assert_eq!(pack_set.all_violations.len(), 2);
    let types: Vec<&str> = pack_set
        .all_violations
        .iter()
        .map(|v| v.violation_type.as_str())
        .collect();
    assert_eq!(types, vec!["privacy", "dependency"]);
    for v in &pack_set.all_violations {
        assert_eq!(v.file, "packs/foo/app/services/foo.rb");
        assert_eq!(v.constant_name, "::Bar");
        assert_eq!(v.referencing_pack_name, "packs/foo");
        assert_eq!(v.defining_pack_name, "packs/bar");
    }
}

#[test]
fn test_ignored_constant_wins_over_private_list() {
    let defining_pack = Pack {
        name: "packs/bar".to_string(),
        enforce_privacy: Some(CheckerSetting::True),
        ignored_private_constants: vec!["::Bar".to_string()],
        private_constants: vec!["::Bar".to_string()],
        ..default_defining_pack()
    };
    let reference = default_reference("::Bar", "packs/bar");
    let result = run_check(Some(defining_pack), default_referencing_pack(), &reference);
    assert_no_violation(result);
}
