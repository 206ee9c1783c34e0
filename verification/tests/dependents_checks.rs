use packs::dependents::{find_dependents, ViolationDependent};
use packs::pack::{Configuration, ConstantGroup, Pack, PackSet, PackageTodo, TodoEntry};

fn empty_todo() -> PackageTodo {
    PackageTodo { violations_by_defining_pack: Vec::new() }
}

fn base_pack(name: &str) -> Pack {
    Pack {
        name: name.to_string(),
        relative_path: name.to_string(),
        dependencies: Vec::new(),
        enforce_privacy: None,
        ignored_private_constants: Vec::new(),
        private_constants: Vec::new(),
        public_folder: None,
        package_todo: empty_todo(),
    }
}

fn configuration_of(packs: Vec<Pack>) -> Configuration {
    Configuration {
        pack_set: PackSet::new(packs),
        ignore_recorded_violations: false,
        included_files: Vec::new(),
        absolute_root: String::new(),
    }
}

fn violation_dependent_for<'a>(
    dependents: &'a [ViolationDependent],
    pack_name: &str,
) -> Option<&'a ViolationDependent> {
    dependents.iter().find(|d| d.pack_name == pack_name)
}

#[test]
fn find_public_dependents() {
    let mut foo = base_pack("packs/foo");
    foo.dependencies = vec!["packs/baz".to_string()];
    let configuration = configuration_of(vec![foo, base_pack("packs/bar"), base_pack("packs/baz")]);

    let dependents = find_dependents(&configuration, &"packs/baz".to_string()).unwrap();
    assert_eq!(dependents.public_dependents.len(), 1);
    assert!(dependents
        .public_dependents
        .contains(&String::from("packs/foo")));
    assert_eq!(dependents.violation_dependents.len(), 0);
}

#[test]
fn find_dependents_with_violations() {
    let mut foo = base_pack("packs/foo");
    foo.package_todo = PackageTodo {
        violations_by_defining_pack: vec![TodoEntry {
            defining_pack_name: "packs/bar".to_string(),
            groups: vec![ConstantGroup {
                constant_name: "::Bar".to_string(),
                violation_types: vec!["dependency".to_string()],
                files: vec!["packs/foo/app/services/foo.rb".to_string()],
            }],
        }],
    };
    let configuration = configuration_of(vec![foo, base_pack("packs/bar")]);

    let dependents = find_dependents(&configuration, &"packs/bar".to_string()).unwrap();
    assert_eq!(dependents.public_dependents.len(), 0);
    assert_eq!(dependents.violation_dependents.len(), 1);
    let foo_counts = violation_dependent_for(&dependents.violation_dependents, "packs/foo").unwrap();
    assert_eq!(foo_counts.counts.len(), 1);
    assert_eq!(foo_counts.counts[0].violation_type, "dependency");
    assert_eq!(foo_counts.counts[0].count, 1usize);
}

#[test]
fn find_dependents_sorts_and_aggregates() {
    let mut zeta = base_pack("packs/zeta");
    zeta.dependencies = vec!["packs/target".to_string()];
    let mut alpha = base_pack("packs/alpha");
    alpha.dependencies = vec!["packs/target".to_string()];
    let mut gamma = base_pack("packs/gamma");
    gamma.package_todo = PackageTodo {
        violations_by_defining_pack: vec![TodoEntry {
            defining_pack_name: "packs/target".to_string(),
            groups: vec![
                ConstantGroup {
                    constant_name: "::One".to_string(),
                    violation_types: vec!["privacy".to_string(), "dependency".to_string()],
                    files: vec!["packs/gamma/app/a.rb".to_string()],
                },
                ConstantGroup {
                    constant_name: "::Two".to_string(),
                    violation_types: vec!["privacy".to_string()],
                    files: vec!["packs/gamma/app/b.rb".to_string()],
                },
            ],
        }],
    };
    let configuration = configuration_of(vec![zeta, alpha, gamma, base_pack("packs/target")]);

    let dependents = find_dependents(&configuration, &"packs/target".to_string()).unwrap();
    assert_eq!(
        dependents.public_dependents,
        vec!["packs/alpha".to_string(), "packs/zeta".to_string()]
    );
    assert_eq!(dependents.violation_dependents.len(), 1);
    let gamma_counts =
        violation_dependent_for(&dependents.violation_dependents, "packs/gamma").unwrap();
    assert_eq!(gamma_counts.counts.len(), 2);
    assert_eq!(gamma_counts.counts[0].violation_type, "privacy");
    assert_eq!(gamma_counts.counts[0].count, 2usize);
    assert_eq!(gamma_counts.counts[1].violation_type, "dependency");
    assert_eq!(gamma_counts.counts[1].count, 1usize);
}

#[test]
fn find_dependents_unknown_pack_fails() {
    let configuration = configuration_of(vec![base_pack("packs/foo")]);
    assert!(find_dependents(&configuration, &"packs/missing".to_string()).is_err());
}
