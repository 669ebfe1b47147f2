use soar::link::{classify_links, LinkTarget};
use soar::package::{Package, PackageQuery};
use soar::release::{
    auto_asset, filter_assets, filter_releases, parse_selection, pick_release, selection_index,
    split_project_tag, Asset, AssetFilter, AssetPattern, FilterError, Release,
};
use soar::run::{adhoc_package, confirms, log_needs_confirmation, RepositoryConfig, RunError, Source};

fn asset(name: &str) -> Asset {
    Asset { name: name.to_string(), size: Some(10), url: format!("https://dl/{}", name) }
}

fn names(v: &[Asset]) -> Vec<&str> {
    v.iter().map(|a| a.name.as_str()).collect()
}

fn strings(v: &[&str]) -> Vec<String> {
    v.iter().map(|s| s.to_string()).collect()
}

#[test]
fn filter_match_and_exclude() {
    let assets = vec![asset("foo-linux-x64"), asset("foo-darwin-x64"), asset("foo-linux-arm64")];
    let f = AssetFilter::new(&vec![], strings(&["linux"]), strings(&["arm64"]), false).unwrap();
    assert_eq!(names(&filter_assets(&assets, &f)), vec!["foo-linux-x64"]);
}

#[test]
fn filter_regex_any_and_case() {
    let assets = vec![asset("Foo-Linux.tar.gz"), asset("foo.zip"), asset("foo.AppImage")];
    let f = AssetFilter::new(&strings(&[r"\.zip$", r"AppImage$"]), vec![], vec![], false).unwrap();
    assert_eq!(names(&filter_assets(&assets, &f)), vec!["foo.zip", "foo.AppImage"]);
    let f = AssetFilter::new(&vec![], strings(&["LINUX"]), vec![], false).unwrap();
    assert_eq!(names(&filter_assets(&assets, &f)), vec!["Foo-Linux.tar.gz"]);
    let f = AssetFilter::new(&vec![], strings(&["LINUX"]), vec![], true).unwrap();
    assert!(filter_assets(&assets, &f).is_empty());
}

#[test]
fn filter_invalid_pattern() {
    match AssetFilter::new(&strings(&["ok", "(unclosed"]), vec![], vec![], false) {
        Err(FilterError::InvalidPattern(p)) => assert_eq!(p, "(unclosed"),
        _ => panic!("expected an invalid pattern"),
    }
    let p = AssetPattern::new("^a.c$").unwrap();
    assert!(p.is_match("abc"));
    assert!(!p.is_match("abcd"));
}

#[test]
fn tag_parsing() {
    let (p, t) = split_project_tag("owner/repo@v1.2.0");
    assert_eq!(p, "owner/repo");
    assert_eq!(t.as_deref(), Some("v1.2.0"));
    let (p, t) = split_project_tag("owner/repo@");
    assert_eq!(p, "owner/repo");
    assert_eq!(t, None);
    let (p, t) = split_project_tag("  owner/repo  ");
    assert_eq!(p, "owner/repo");
    assert_eq!(t, None);
    let (p, t) = split_project_tag("owner/repo@ v2 ");
    assert_eq!(p, "owner/repo");
    assert_eq!(t.as_deref(), Some("v2"));
    let (p, t) = split_project_tag("o/r@@");
    assert_eq!(p, "o/r@");
    assert_eq!(t, None);
    let (p, t) = split_project_tag("o/r@  ");
    assert_eq!(p, "o/r");
    assert_eq!(t, None);
    let (p, t) = split_project_tag("a@b@c");
    assert_eq!(p, "a@b");
    assert_eq!(t.as_deref(), Some("c"));
}

#[test]
fn releases_by_tag_or_latest() {
    let releases = vec![
        Release { tag: "v2".to_string(), assets: vec![asset("x-v2")] },
        Release { tag: "v1".to_string(), assets: vec![asset("x-v1"), asset("y-v1")] },
    ];
    assert_eq!(pick_release(&releases, &None), Some(0));
    assert_eq!(pick_release(&releases, &Some("v1".to_string())), Some(1));
    assert_eq!(pick_release(&releases, &Some("v9".to_string())), None);
    assert_eq!(pick_release(&vec![], &None), None);
    let f = AssetFilter::new(&vec![], strings(&["y"]), vec![], false).unwrap();
    let got = filter_releases(&releases, &Some("v1".to_string()), &f).unwrap();
    assert_eq!(names(&got), vec!["y-v1"]);
    assert!(filter_releases(&releases, &Some("v9".to_string()), &f).is_none());
}

#[test]
fn asset_choice() {
    assert_eq!(auto_asset(1, false), Some(0));
    assert_eq!(auto_asset(3, true), Some(0));
    assert_eq!(auto_asset(3, false), None);
    assert_eq!(auto_asset(0, true), None);
    assert_eq!(selection_index(Some(2), 3), Some(1));
    assert_eq!(selection_index(Some(0), 3), None);
    assert_eq!(parse_selection("3", 3), Some(2));
    assert_eq!(parse_selection("4", 3), None);
    assert_eq!(parse_selection("x", 3), None);
    assert_eq!(parse_selection("+2", 3), Some(1));
    assert_eq!(parse_selection("-1", 3), None);
    assert_eq!(parse_selection("", 3), None);
}

#[test]
fn adhoc_package_from_sources() {
    let repos = vec![
        RepositoryConfig { name: "empty".to_string(), sources: vec![] },
        RepositoryConfig {
            name: "main".to_string(),
            sources: vec![
                Source { collection: "bin".to_string(), url: "https://bin.example".to_string() },
                Source { collection: "base".to_string(), url: "https://base.example".to_string() },
            ],
        },
    ];
    let q = PackageQuery { name: "foo".to_string(), variant: Some("musl".to_string()), collection: Some("base".to_string()) };
    let p = adhoc_package(&q, &repos).unwrap();
    assert_eq!(p.package.download_url, "https://base.example/musl/foo");
    assert_eq!(p.collection, "base");
    let q = PackageQuery { name: "foo".to_string(), variant: None, collection: None };
    let p = adhoc_package(&q, &repos).unwrap();
    assert_eq!(p.package.download_url, "https://bin.example/foo");
    assert_eq!(p.collection, "bin");
    let q = PackageQuery { name: "foo".to_string(), variant: None, collection: Some("nope".to_string()) };
    assert_eq!(adhoc_package(&q, &repos).unwrap_err(), RunError::NoRepository);
}

#[test]
fn full_name_joins_variant() {
    let p = Package {
        name: "foo".to_string(),
        variant: Some("musl".to_string()),
        bin_name: String::new(),
        download_url: String::new(),
        build_log: String::new(),
    };
    assert_eq!(p.full_name("/"), "musl/foo");
}

#[test]
fn log_confirmation_threshold() {
    assert!(!log_needs_confirmation(1_048_576));
    assert!(log_needs_confirmation(1_048_577));
}

#[test]
fn links_are_classified() {
    let r = classify_links(&strings(&[
        "https://example.com/file.tar.gz",
        "https://github.com/owner/repo",
        "ghcr.io/org/image:latest",
        "not a url",
    ]));
    assert!(matches!(&r[0], Ok(LinkTarget::Direct { url }) if url == "https://example.com/file.tar.gz"));
    assert!(matches!(&r[1], Ok(LinkTarget::Github { project, .. }) if project == "owner/repo"));
    assert!(matches!(&r[2], Ok(LinkTarget::Oci { reference }) if reference == "ghcr.io/org/image:latest"));
    assert!(matches!(&r[3], Err(s) if s == "not a url"));
}

#[test]
fn confirmation_reply() {
    assert!(confirms(" y\n"));
    assert!(confirms("Y"));
    assert!(!confirms("yes"));
    assert!(!confirms(""));
}

#[test]
fn oci_link_with_scheme() {
    let r = classify_links(&strings(&["https://ghcr.io/org/image:1"]));
    assert!(matches!(&r[0], Ok(LinkTarget::Oci { reference }) if reference == "ghcr.io/org/image:1"));
}
