use soar::package::{parse_package_query, Package, PackageQuery};
use soar::registry::{
    CollectionPackages, PackageGroup, PackageStorage, RegistryError, RepositoryPackages, Resolution,
};

fn pkg(name: &str, variant: Option<&str>) -> Package {
    Package {
        name: name.to_string(),
        variant: variant.map(|v| v.to_string()),
        bin_name: name.to_string(),
        download_url: format!("https://example.org/{}", name),
        build_log: String::new(),
    }
}

fn group(name: &str, packages: Vec<Package>) -> PackageGroup {
    PackageGroup { name: name.to_string(), packages }
}

fn sample() -> PackageStorage {
    let mut s = PackageStorage::new();
    s.add_repository(
        "main",
        RepositoryPackages {
            collection: vec![
                CollectionPackages {
                    name: "bin".to_string(),
                    groups: vec![
                        group("foo", vec![pkg("foo", None), pkg("foo", Some("musl"))]),
                        group("foobar", vec![pkg("foobar", None)]),
                    ],
                },
                CollectionPackages {
                    name: "base".to_string(),
                    groups: vec![group("foo", vec![pkg("foo", None)]), group("bar", vec![pkg("bar", None)])],
                },
            ],
        },
    );
    s
}

fn query(name: &str, collection: Option<&str>, variant: Option<&str>) -> PackageQuery {
    PackageQuery {
        name: name.to_string(),
        variant: variant.map(|v| v.to_string()),
        collection: collection.map(|c| c.to_string()),
    }
}

#[test]
fn parse_query_all_parts() {
    let q = parse_package_query("musl/foo#bin");
    assert_eq!(q.name, "foo");
    assert_eq!(q.variant.as_deref(), Some("musl"));
    assert_eq!(q.collection.as_deref(), Some("bin"));
}

#[test]
fn parse_query_plain_and_empty_collection() {
    let q = parse_package_query("foo#");
    assert_eq!(q.name, "foo");
    assert_eq!(q.variant, None);
    assert_eq!(q.collection, None);
}

#[test]
fn get_packages_by_name_only() {
    let s = sample();
    let r = s.get_packages(&query("foo", None, None)).unwrap();
    assert_eq!(r.len(), 3);
    assert!(r.iter().all(|e| e.package.name == "foo"));
    assert_eq!(r[0].collection, "bin");
    assert_eq!(r[2].collection, "base");
}

#[test]
fn get_packages_trims_name() {
    let s = sample();
    let r = s.get_packages(&query("  bar \t", None, None)).unwrap();
    assert_eq!(r.len(), 1);
    assert_eq!(r[0].package.name, "bar");
}

#[test]
fn get_packages_with_collection_and_variant() {
    let s = sample();
    let r = s.get_packages(&query("foo", Some("bin"), None)).unwrap();
    assert_eq!(r.len(), 2);
    let r = s.get_packages(&query("foo", None, Some("musl"))).unwrap();
    assert_eq!(r.len(), 1);
    assert_eq!(r[0].package.variant.as_deref(), Some("musl"));
}

#[test]
fn get_packages_none_when_empty() {
    let s = sample();
    assert!(s.get_packages(&query("fo", None, None)).is_none());
    assert!(s.get_packages(&query("bar", Some("bin"), None)).is_none());
    assert!(PackageStorage::new().get_packages(&query("foo", None, None)).is_none());
}

#[test]
fn resolve_unique_ambiguous_missing() {
    let s = sample();
    match s.resolve_package("bar") {
        Ok(Resolution::Unique(p)) => {
            assert_eq!(p.package.name, "bar");
            assert_eq!(p.repo_name, "main");
            assert_eq!(p.collection, "base");
        }
        _ => panic!("expected a unique package"),
    }
    match s.resolve_package("foo") {
        Ok(Resolution::Ambiguous(v)) => assert_eq!(v.len(), 3),
        _ => panic!("expected several candidates"),
    }
    match s.resolve_package("musl/foo#bin") {
        Ok(Resolution::Unique(p)) => assert_eq!(p.package.variant.as_deref(), Some("musl")),
        _ => panic!("expected a unique package"),
    }
    match s.resolve_package("nope") {
        Err(RegistryError::NotFound(n)) => assert_eq!(n, "nope"),
        _ => panic!("expected not found"),
    }
}

#[test]
fn list_packages_all_and_filtered() {
    let s = sample();
    assert_eq!(s.list_packages(None).len(), 5);
    let base = s.list_packages(Some("base"));
    assert_eq!(base.len(), 2);
    assert!(base.iter().all(|e| e.collection == "base"));
    assert!(s.list_packages(Some("none")).is_empty());
}

#[test]
fn round_trip_lists_every_package_once() {
    let s = sample();
    let names: Vec<String> = s
        .list_packages(None)
        .iter()
        .map(|e| match &e.package.variant {
            Some(v) => format!("{}/{}", v, e.package.name),
            None => e.package.name.clone(),
        })
        .collect();
    assert_eq!(names, vec!["foo", "musl/foo", "foobar", "foo", "bar"]);
    assert!(s.list_packages(None).iter().all(|e| e.repo_name == "main"));
}

#[test]
fn add_repository_overwrites_same_name() {
    let mut s = sample();
    s.add_repository(
        "main",
        RepositoryPackages {
            collection: vec![CollectionPackages {
                name: "bin".to_string(),
                groups: vec![group("baz", vec![pkg("baz", None)])],
            }],
        },
    );
    s.add_repository("extra", RepositoryPackages { collection: vec![] });
    let all = s.list_packages(None);
    assert_eq!(all.len(), 1);
    assert_eq!(all[0].package.name, "baz");
}

#[test]
fn search_exact_before_partial() {
    let s = sample();
    let r = s.search("foo", false);
    let names: Vec<&str> = r.iter().map(|e| e.package.name.as_str()).collect();
    assert_eq!(names, vec!["foo", "foo", "foo", "foobar"]);
    assert!(!names.contains(&"bar"));
}

#[test]
fn search_case_sensitivity() {
    let mut s = PackageStorage::new();
    s.add_repository(
        "r",
        RepositoryPackages {
            collection: vec![CollectionPackages {
                name: "c".to_string(),
                groups: vec![group("FooBar", vec![pkg("FooBar", None)]), group("foo", vec![pkg("foo", None)])],
            }],
        },
    );
    let r = s.search("FOO", false);
    let names: Vec<&str> = r.iter().map(|e| e.package.name.as_str()).collect();
    assert_eq!(names, vec!["foo", "FooBar"]);
    let r = s.search("Foo", true);
    assert_eq!(r.len(), 1);
    assert_eq!(r[0].package.name, "FooBar");
}

#[test]
fn search_variant_is_hard_filter() {
    let s = sample();
    let r = s.search("musl/foo", false);
    assert_eq!(r.len(), 1);
    assert_eq!(r[0].package.variant.as_deref(), Some("musl"));
    assert!(s.search("zzz", false).is_empty());
}

#[test]
fn repository_well_formedness() {
    let good = RepositoryPackages {
        collection: vec![CollectionPackages {
            name: "bin".to_string(),
            groups: vec![group("a", vec![]), group("b", vec![])],
        }],
    };
    assert!(good.is_well_formed());
    let dup_group = RepositoryPackages {
        collection: vec![CollectionPackages {
            name: "bin".to_string(),
            groups: vec![group("a", vec![]), group("a", vec![])],
        }],
    };
    assert!(!dup_group.is_well_formed());
    let dup_coll = RepositoryPackages {
        collection: vec![
            CollectionPackages { name: "bin".to_string(), groups: vec![] },
            CollectionPackages { name: "bin".to_string(), groups: vec![] },
        ],
    };
    assert!(!dup_coll.is_well_formed());
}
