use punktf::paths::{deploy_path, find_profile, source_path, target_path, Kind, Paths, ProfileLookupError, PunktfSource};
use punktf::profile::Dotfile;

fn dotfile(path: &str, target: Option<&str>) -> Dotfile {
    Dotfile {
        path: path.to_string(),
        target: target.map(|t| t.to_string()),
        priority: None,
        variables: None,
        transformers: Vec::new(),
        merge: None,
        template: None,
    }
}

fn names(files: &[&str]) -> Vec<String> {
    files.iter().map(|f| f.to_string()).collect()
}

#[test]
fn find_profile_ignores_case_and_extension() {
    let files = names(&["profiles", "Windows.yaml", "base.json", "arch"]);
    assert_eq!(find_profile("windows", &files), Ok(1));
    assert_eq!(find_profile("BASE", &files), Ok(2));
}

#[test]
fn find_profile_not_found() {
    let files = names(&["profiles", "windows.yaml", "arch"]);
    let err = find_profile("Arch", &files).unwrap_err();
    assert_eq!(err, ProfileLookupError::NotFound("arch".to_string()));
    assert_eq!(err.message(), "Found no profile with the name `arch`");
}

#[test]
fn find_profile_ambiguous() {
    let files = names(&["demo.yaml", "demo.json"]);
    let err = find_profile("demo", &files).unwrap_err();
    assert_eq!(err, ProfileLookupError::Ambiguous("demo".to_string()));
    assert_eq!(err.message(), "Found more than one profile with the name `demo`");
}

#[test]
fn find_profile_uses_last_dot() {
    let files = names(&["my.profile.yaml"]);
    assert_eq!(find_profile("my.profile", &files), Ok(0));
    assert!(find_profile("my", &files).is_err());
}

#[test]
fn source_paths_under_root() {
    let source = PunktfSource::from_root_path("/home/demo/dots");
    assert_eq!(source.root(), "/home/demo/dots");
    assert_eq!(source.profiles(), "/home/demo/dots/profiles");
    assert_eq!(source.dotfiles(), "/home/demo/dots/dotfiles");
    assert_eq!(source_path(&source, &dotfile("linux/.bashrc", None)), "/home/demo/dots/dotfiles/linux/.bashrc");
}

#[test]
fn deploy_and_target_paths() {
    assert_eq!(deploy_path("/home/demo", &dotfile(".bashrc", None)), "/home/demo/.bashrc");
    assert_eq!(deploy_path("/home/demo", &dotfile(".bashrc", Some("conf/bashrc"))), "/home/demo/conf/bashrc");
    assert_eq!(deploy_path("/home/demo", &dotfile(".bashrc", Some("/etc/bashrc"))), "/etc/bashrc");
    assert_eq!(target_path("/home/demo", &dotfile("base", None), true), "/home/demo");
    assert_eq!(target_path("/home/demo", &dotfile("base", None), false), "/home/demo/base");
    assert_eq!(target_path("/home/demo", &dotfile("base", Some("cfg")), true), "/home/demo/cfg");
}

#[test]
fn paths_of_children() {
    let paths = Paths::new("/src/base".to_string(), "/home/demo".to_string());
    assert!(paths.is_root());
    assert_eq!(paths.child_source_path(), "/src/base");

    let child = paths.clone().with_child("sub").with_child("file.txt");
    assert!(child.is_child());
    assert_eq!(child.root_source_path(), "/src/base");
    assert_eq!(child.root_target_path(), "/home/demo");
    assert_eq!(child.child_source_path(), "/src/base/sub/file.txt");
    assert_eq!(child.child_target_path(), "/home/demo/sub/file.txt");
}

#[test]
fn kind_from_paths() {
    let d = dotfile("base", None);
    let root = Paths::new("/src/base".to_string(), "/home/demo".to_string());
    assert!(matches!(Kind::from_paths(&root, &d), Kind::Root(_)));
    let child = root.with_child("a");
    match Kind::from_paths(&child, &d) {
        Kind::Child { root_source_path, root_target_path, .. } => {
            assert_eq!(root_source_path, "/src/base");
            assert_eq!(root_target_path, "/home/demo");
        }
        Kind::Root(_) => panic!("expected a child"),
    }
}
