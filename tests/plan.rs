use mmstack_setup::packages::{
    managed_packages, mmaction2_package, mmcv_package, mmengine_package, purge_cache_dirs,
};
use mmstack_setup::plan::{build_plan, requirement, wheel_pattern, BuildAction, PatchOp};
use mmstack_setup::tooling::{prepend_path_dir, uv_candidate_dirs, uv_installer_script};

fn is_clone_or_build(a: &BuildAction) -> bool {
    matches!(a, BuildAction::Clone { .. } | BuildAction::BuildWheel { .. })
}

#[test]
fn built_packages_are_only_installed() {
    for pkg in managed_packages() {
        let plan = build_plan(&pkg, true);
        assert_eq!(plan.len(), 1);
        assert!(!plan.iter().any(is_clone_or_build));
        match &plan[0] {
            BuildAction::Install { requirement } => {
                assert_eq!(requirement, &format!("{}=={}", pkg.name, pkg.version))
            }
            _ => panic!("expected an install"),
        }
    }
}

#[test]
fn missing_wheel_is_built_from_a_fresh_checkout() {
    let plan = build_plan(&mmaction2_package(), false);
    assert_eq!(plan.len(), 7);
    match &plan[0] {
        BuildAction::RemoveDir { path } => assert_eq!(path, ".mmaction2"),
        _ => panic!("expected removal of the checkout"),
    }
    match &plan[1] {
        BuildAction::Clone { url, tag, dest } => {
            assert_eq!(url, "https://github.com/open-mmlab/mmaction2.git");
            assert_eq!(tag, "v1.2.0");
            assert_eq!(dest, ".mmaction2");
        }
        _ => panic!("expected a clone"),
    }
    match &plan[2] {
        BuildAction::RemoveDir { path } => assert_eq!(path, ".mmaction2/.git"),
        _ => panic!("expected removal of the version-control directory"),
    }
    match &plan[3] {
        BuildAction::Patch { op: PatchOp::TorchLoad { path } } => {
            assert_eq!(path, ".mmaction2/mmaction/apis/inference.py")
        }
        _ => panic!("expected the call patch"),
    }
    match &plan[4] {
        BuildAction::Patch { op: PatchOp::GetVersion { path, version } } => {
            assert_eq!(path, ".mmaction2/setup.py");
            assert_eq!(version, "1.2.0");
        }
        _ => panic!("expected the version patch"),
    }
    match &plan[5] {
        BuildAction::BuildWheel { source } => assert_eq!(source, ".mmaction2"),
        _ => panic!("expected a build"),
    }
    match &plan[6] {
        BuildAction::Install { requirement } => assert_eq!(requirement, "mmaction2==1.2.0"),
        _ => panic!("expected an install"),
    }
}

#[test]
fn mmcv_has_no_patches() {
    let plan = build_plan(&mmcv_package(), false);
    assert_eq!(plan.len(), 5);
    match &plan[1] {
        BuildAction::Clone { tag, .. } => assert_eq!(tag, "v2.1.0"),
        _ => panic!("expected a clone"),
    }
}

#[test]
fn mmengine_patches_version_first() {
    let pkg = mmengine_package();
    assert_eq!(pkg.version, "0.10.7");
    assert!(matches!(pkg.patches[0], PatchOp::GetVersion { .. }));
    assert!(matches!(pkg.patches[1], PatchOp::TorchLoad { .. }));
}

#[test]
fn packages_in_build_order() {
    let names: Vec<String> = managed_packages().into_iter().map(|p| p.name).collect();
    assert_eq!(names, vec!["mmcv", "mmaction2", "mmengine"]);
}

#[test]
fn purge_names_the_four_directories() {
    assert_eq!(purge_cache_dirs(), vec![".wheelhouse", ".mmaction2", ".mmengine", ".mmcv"]);
}

#[test]
fn requirement_pins_version() {
    assert_eq!(requirement("mmcv", "2.1.0"), "mmcv==2.1.0");
}

#[test]
fn wheel_pattern_matches_only_that_version() {
    let present = glob::Pattern::new(&wheel_pattern("mmcv", "2.1.0")).unwrap();
    let other = glob::Pattern::new(&wheel_pattern("mmcv", "2.1.1")).unwrap();
    let file = ".wheelhouse/mmcv-2.1.0-linux_x86_64.whl";
    assert_eq!(wheel_pattern("mmcv", "2.1.0"), ".wheelhouse/mmcv-2.1.0-*");
    assert!(present.matches(file));
    assert!(!other.matches(file));
}

#[test]
fn candidate_dirs_under_home() {
    assert_eq!(
        uv_candidate_dirs(Some("/home/u")),
        vec!["/home/u/.local/bin", "/home/u/.cargo/bin"]
    );
    assert!(uv_candidate_dirs(None).is_empty());
}

#[test]
fn path_gets_new_dir_first() {
    let paths = vec!["/usr/bin".to_string(), "/bin".to_string()];
    assert_eq!(
        prepend_path_dir(&paths, "/home/u/.local/bin"),
        Some(vec![
            "/home/u/.local/bin".to_string(),
            "/usr/bin".to_string(),
            "/bin".to_string()
        ])
    );
    assert_eq!(prepend_path_dir(&paths, "/bin"), None);
}

#[test]
fn installer_prefers_curl() {
    assert_eq!(
        uv_installer_script(true, true),
        Some("curl -LsSf https://astral.sh/uv/install.sh | sh")
    );
    assert_eq!(
        uv_installer_script(false, true),
        Some("wget -qO- https://astral.sh/uv/install.sh | sh")
    );
    assert_eq!(uv_installer_script(false, false), None);
}
