use pliego::cargo_inputs::{
    admit_path_package, check_cargo_home, configuration_materials, finish_selection, AncestorConfiguration,
    PathPackage,
};
use pliego::invocation::InputMaterialSpec;

fn ancestor(root: &str, present: [bool; 4], beside_cargo_home: bool) -> AncestorConfiguration {
    AncestorConfiguration { root: root.to_owned(), present, beside_cargo_home }
}

fn tree(id: &str, root: &str) -> InputMaterialSpec {
    InputMaterialSpec {
        id: id.to_owned(),
        kind: "cargo-path-package".to_owned(),
        root: root.to_owned(),
        included_paths: vec![],
        excluded_paths: vec![],
    }
}

fn package(name: &str, root: &str) -> PathPackage {
    PathPackage { name: name.to_owned(), version: "0.2.0".to_owned(), root: root.to_owned() }
}

#[test]
fn ancestor_configuration_is_numbered_and_cargo_home_is_not_counted_twice() {
    let ancestors = vec![
        ancestor("/home/u/site", [true, false, false, true], false),
        ancestor("/home/u", [true, true, true, false], true),
        ancestor("/home", [false, false, false, false], false),
        ancestor("/", [false, false, false, true], false),
    ];
    let (project, materials) = configuration_materials(&ancestors, "/home/u/.cargo", [true, false]);
    assert_eq!(project, vec![".cargo/config.toml", "rust-toolchain"]);
    assert_eq!(materials.len(), 3);
    assert_eq!(materials[0].id, "cargo-config/ancestor-000");
    assert_eq!(materials[0].kind, "cargo-ancestor-config");
    assert_eq!(materials[0].root, "/home/u");
    assert_eq!(materials[0].included_paths, vec!["rust-toolchain.toml"]);
    assert_eq!(materials[1].id, "cargo-config/ancestor-001");
    assert_eq!(materials[1].root, "/");
    assert_eq!(materials[1].included_paths, vec!["rust-toolchain"]);
    assert_eq!(materials[2].id, "cargo-config/home");
    assert_eq!(materials[2].kind, "cargo-home-config");
    assert_eq!(materials[2].root, "/home/u/.cargo");
    assert_eq!(materials[2].included_paths, vec!["config.toml"]);
    assert!(materials.iter().all(|m| m.excluded_paths.is_empty()));
}

#[test]
fn empty_cargo_home_adds_no_material() {
    let ancestors = vec![ancestor("/p", [false; 4], false)];
    let (project, materials) = configuration_materials(&ancestors, "/h", [false, false]);
    assert!(project.is_empty());
    assert!(materials.is_empty());
    let many: Vec<AncestorConfiguration> =
        (0..13).map(|k| ancestor(&format!("/a{k}"), [false, false, true, false], false)).collect();
    let (_, materials) = configuration_materials(&many, "/h", [false, true]);
    assert_eq!(materials[11].id, "cargo-config/ancestor-011");
    assert_eq!(materials[12].id, "cargo-config/home");
    assert_eq!(materials[12].included_paths, vec!["config"]);
}

#[test]
fn cargo_home_cannot_overlap_the_project() {
    assert!(check_cargo_home("/work/site", "/home/u/.cargo").is_ok());
    assert!(check_cargo_home("/work/site", "/work/site-cargo").is_ok());
    assert_eq!(
        check_cargo_home("/work/site", "/work/site/.cargo").unwrap_err(),
        "Cargo home /work/site/.cargo cannot overlap project root /work/site"
    );
    assert!(check_cargo_home("/work/site", "/work").is_err());
}

#[test]
fn path_packages_become_disjoint_tree_materials() {
    let mut materials = vec![InputMaterialSpec {
        id: "cargo-lock".to_owned(),
        kind: "cargo-lock".to_owned(),
        root: "/work".to_owned(),
        included_paths: vec!["Cargo.lock".to_owned()],
        excluded_paths: vec![],
    }];
    admit_path_package("/work/site", &mut materials, &package("helper", "/work/site/crates/helper")).unwrap();
    assert_eq!(materials.len(), 1);
    admit_path_package("/work/site", &mut materials, &package("pliego-ssg", "/work/site/vendor/ssg")).unwrap();
    assert_eq!(materials.len(), 2);
    assert_eq!(materials[1].id, "cargo-path/pliego-ssg@0.2.0");
    assert_eq!(materials[1].kind, "cargo-path-package");
    admit_path_package("/work/site", &mut materials, &package("shared", "/libs/shared")).unwrap();
    assert_eq!(materials[2].root, "/libs/shared");
    assert_eq!(
        admit_path_package("/work/site", &mut materials, &package("nested", "/libs/shared/nested")).unwrap_err(),
        "local package root /libs/shared/nested overlaps another build input root"
    );
    assert_eq!(
        admit_path_package("/work/site", &mut materials, &package("outer", "/work")).unwrap_err(),
        "local package root /work overlaps another build input root"
    );
    assert_eq!(materials.len(), 3);
}

#[test]
fn selection_is_sorted_and_unique() {
    let files = vec!["pliego.toml".to_owned(), "Cargo.toml".to_owned(), "pliego.toml".to_owned(), ".cargo/config".to_owned()];
    let materials = vec![tree("b", "/b"), tree("a", "/a"), tree("c", "/c")];
    let (files, materials) = finish_selection(files, materials);
    assert_eq!(files, vec![".cargo/config", "Cargo.toml", "pliego.toml"]);
    let ids: Vec<&str> = materials.iter().map(|m| m.id.as_str()).collect();
    assert_eq!(ids, vec!["a", "b", "c"]);
}
