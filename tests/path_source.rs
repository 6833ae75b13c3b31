use cargo_jobs::{DependencyDecl, Package, PackageId, PathSource, SourceError, SourceId};

fn package(name: &str, root: &str) -> Package {
    Package {
        id: PackageId::new(name.to_string(), "0.1.0".to_string()),
        dependencies: vec![DependencyDecl { name: "x".to_string(), transitive: true }],
        root: root.to_string(),
    }
}

fn source() -> PathSource {
    PathSource::new(&"/work/app".to_string(), &SourceId { url: "path+file:///work/app".to_string() })
}

#[test]
fn new_source_is_not_updated() {
    let s = source();
    assert_eq!(s.get_root_package().err(), Some(SourceError::NotUpdated));
    assert_eq!(s.fingerprint(&vec![3, 4]), Err(SourceError::NotUpdated));
}

#[test]
fn root_package_is_found_after_update() {
    let mut s = source();
    s.update(vec![package("lib", "/work/app/lib"), package("app", "/work/app")]);
    let root = s.get_root_package().ok().unwrap();
    assert_eq!(root.id.name, "app");
}

#[test]
fn update_happens_once() {
    let mut s = source();
    s.update(vec![package("lib", "/work/app/lib")]);
    s.update(vec![package("app", "/work/app")]);
    assert_eq!(s.get_root_package().err(), Some(SourceError::NoRootPackage));
}

#[test]
fn get_selects_requested_packages_in_order() {
    let mut s = source();
    s.update(vec![package("a", "/w/a"), package("b", "/w/b"), package("c", "/w/c")]);
    let ids = vec![
        PackageId::new("c".to_string(), "0.1.0".to_string()),
        PackageId::new("a".to_string(), "0.1.0".to_string()),
        PackageId::new("z".to_string(), "0.1.0".to_string()),
    ];
    let got: Vec<String> = s.get(&ids).iter().map(|p| p.id.name.clone()).collect();
    assert_eq!(got, vec!["a".to_string(), "c".to_string()]);
}

#[test]
fn fingerprint_is_latest_mtime() {
    let mut s = source();
    s.update(Vec::new());
    assert_eq!(s.fingerprint(&vec![5, 42, 7]), Ok(42));
    assert_eq!(s.fingerprint(&Vec::new()), Ok(0));
}
