use soar::install::{select_variant, summarize, InstallPool, InstallSummary, DEFAULT_PARALLEL_LIMIT};
use soar::package::{Package, ResolvedPackage};
use soar::registry::{CollectionPackages, PackageGroup, PackageStorage, RegistryError, RepositoryPackages};

fn resolved(name: &str, variant: &str) -> ResolvedPackage {
    ResolvedPackage {
        repo_name: "r".to_string(),
        collection: "c".to_string(),
        package: Package {
            name: name.to_string(),
            variant: Some(variant.to_string()),
            bin_name: name.to_string(),
            download_url: String::new(),
            build_log: String::new(),
        },
    }
}

fn storage() -> PackageStorage {
    let mut s = PackageStorage::new();
    let p = resolved("a", "x").package;
    s.add_repository(
        "r",
        RepositoryPackages {
            collection: vec![CollectionPackages {
                name: "c".to_string(),
                groups: vec![PackageGroup { name: "a".to_string(), packages: vec![p] }],
            }],
        },
    );
    s
}

#[test]
fn select_variant_single_and_assume_yes() {
    let one = vec![resolved("a", "x")];
    assert_eq!(select_variant(&one, false, None).unwrap().package.name, "a");
    let two = vec![resolved("a", "x"), resolved("a", "y")];
    let p = select_variant(&two, true, None).unwrap();
    assert_eq!(p.package.variant.as_deref(), Some("x"));
}

#[test]
fn select_variant_never_silent_when_ambiguous() {
    let two = vec![resolved("a", "x"), resolved("a", "y")];
    assert!(matches!(select_variant(&two, false, None), Err(RegistryError::Ambiguous(_))));
    assert!(select_variant(&two, false, Some(0)).is_err());
    assert!(select_variant(&two, false, Some(3)).is_err());
    let p = select_variant(&two, false, Some(2)).unwrap();
    assert_eq!(p.package.variant.as_deref(), Some("y"));
}

#[test]
fn resolve_all_fails_fast() {
    let s = storage();
    let ok = s.resolve_all(&vec!["a".to_string(), "x/a".to_string()]).unwrap();
    assert_eq!(ok.len(), 2);
    match s.resolve_all(&vec!["a".to_string(), "b".to_string(), "c".to_string()]) {
        Err(RegistryError::NotFound(n)) => assert_eq!(n, "b"),
        _ => panic!("expected the first unresolved name"),
    }
}

#[test]
fn removal_skips_unresolved() {
    let s = storage();
    let r = s.resolve_for_removal(&vec!["b".to_string(), "a".to_string(), "zz".to_string()]);
    assert_eq!(r.len(), 1);
}

#[test]
fn summarize_counts() {
    let s = summarize(&vec![true, false, true, true]);
    assert_eq!(s, InstallSummary { succeeded: 3, attempted: 4 });
    assert_eq!(summarize(&vec![]), InstallSummary { succeeded: 0, attempted: 0 });
}

#[test]
fn pool_never_exceeds_cap() {
    let mut pool = InstallPool::new(5, true, Some(2));
    let mut started = Vec::new();
    while let Some(i) = pool.start_next() {
        started.push(i);
    }
    assert_eq!(started, vec![0, 1]);
    assert_eq!(pool.running_count(), 2);
    assert!(!pool.can_start());
    pool.finish(true);
    assert_eq!(pool.start_next(), Some(2));
    assert_eq!(pool.start_next(), None);
    pool.finish(false);
    pool.finish(true);
    assert_eq!(pool.start_next(), Some(3));
    assert_eq!(pool.start_next(), Some(4));
    assert_eq!(pool.start_next(), None);
    pool.finish(true);
    pool.finish(false);
    assert!(pool.is_done());
    assert_eq!(pool.summary(), InstallSummary { succeeded: 3, attempted: 5 });
}

#[test]
fn pool_sequential_and_default_limits() {
    let mut seq = InstallPool::new(3, false, Some(8));
    assert_eq!(seq.start_next(), Some(0));
    assert_eq!(seq.start_next(), None);
    let mut dflt = InstallPool::new(4, true, None);
    for i in 0..DEFAULT_PARALLEL_LIMIT {
        assert_eq!(dflt.start_next(), Some(i));
    }
    assert_eq!(dflt.start_next(), None);
    let mut zero = InstallPool::new(2, true, Some(0));
    assert_eq!(zero.start_next(), Some(0));
    assert_eq!(zero.start_next(), None);
}

#[test]
fn same_outcomes_same_count_in_both_modes() {
    let outcomes = [true, false, true];
    let mut seq = InstallPool::new(3, false, None);
    while let Some(i) = seq.start_next() {
        seq.finish(outcomes[i]);
    }
    let mut par = InstallPool::new(3, true, Some(3));
    let mut running = Vec::new();
    while let Some(i) = par.start_next() {
        running.push(i);
    }
    for i in running.into_iter().rev() {
        par.finish(outcomes[i]);
    }
    assert_eq!(seq.summary(), par.summary());
    assert_eq!(seq.summary(), summarize(&outcomes.to_vec()));
}
