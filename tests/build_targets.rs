use cargo_jobs::{BuildTargets, PackageId, Target};

fn id(name: &str, version: &str) -> PackageId {
    PackageId::new(name.to_string(), version.to_string())
}

#[test]
fn install_adds_new_target() {
    let bt = BuildTargets::new(&"/home/u/.cargo/targets".to_string());
    let out = bt.install(Vec::new(), &id("arm-linux", "0.1.0"));
    assert_eq!(out.len(), 1);
    assert_eq!(out[0].name, "arm-linux");
    assert_eq!(out[0].package_id.version, "0.1.0");
}

#[test]
fn install_replaces_target_of_same_name() {
    let bt = BuildTargets::new(&"/t".to_string());
    let content = vec![
        Target { name: "x86".to_string(), package_id: id("x86", "1.0.0") },
        Target { name: "arm".to_string(), package_id: id("arm", "1.0.0") },
    ];
    let out = bt.install(content, &id("arm", "2.0.0"));
    assert_eq!(out.len(), 2);
    assert_eq!(out[1].name, "arm");
    assert_eq!(out[1].package_id.version, "2.0.0");
    assert_eq!(out[0].package_id.version, "1.0.0");
    assert_eq!(bt.dir(), "/t");
}
