use punktf::profile::{Dotfile, Hook, LayeredProfile, Priority, Profile};
use punktf::transform::{ContentTransformer, LineTerminator};
use punktf::variables::{Variables, Vars};

fn dotfile(path: &str, priority: Option<u32>) -> Dotfile {
    Dotfile {
        path: path.to_string(),
        target: None,
        priority: priority.map(Priority::new),
        variables: None,
        transformers: Vec::new(),
        merge: None,
        template: None,
    }
}

fn profile(target: Option<&str>, vars: &[(&str, &str)], dotfiles: Vec<Dotfile>) -> Profile {
    Profile {
        extends: Vec::new(),
        variables: if vars.is_empty() {
            None
        } else {
            Some(Variables::from_items(
                vars.iter().map(|(k, v)| (k.to_string(), v.to_string())).collect(),
            ))
        },
        transformers: Vec::new(),
        target: target.map(|t| t.to_string()),
        pre_hooks: Vec::new(),
        post_hooks: Vec::new(),
        dotfiles,
        symlinks: Vec::new(),
    }
}

#[test]
fn layered_target_from_first_layer_that_has_one() {
    let mut builder = LayeredProfile::build();
    builder.add("cli".to_string(), profile(None, &[], Vec::new()));
    builder.add("main".to_string(), profile(Some("/home/demo"), &[], Vec::new()));
    builder.add("env".to_string(), profile(Some("/home/other"), &[], Vec::new()));
    let layered = builder.finish();

    assert_eq!(layered.target(), Some(("main", "/home/demo")));
    assert_eq!(layered.target_path(), Some("/home/demo"));
}

#[test]
fn layered_without_target() {
    let mut builder = LayeredProfile::build();
    builder.add("main".to_string(), profile(None, &[], Vec::new()));
    let layered = builder.finish();

    assert_eq!(layered.target(), None);
    assert_eq!(layered.target_path(), None);
}

#[test]
fn layered_variables_first_layer_wins() {
    let mut builder = LayeredProfile::build();
    builder.add("main".to_string(), profile(None, &[("OS", "linux")], Vec::new()));
    builder.add("base".to_string(), profile(None, &[("OS", "windows"), ("USER", "demo")], Vec::new()));
    let layered = builder.finish();

    assert_eq!(layered.variables().var("OS"), Some("linux"));
    assert_eq!(layered.variables().var("USER"), Some("demo"));
    assert_eq!(layered.variables().var("HOME"), None);
    assert!(layered.variables().contains(&"USER".to_string()));
}

#[test]
fn layered_dotfiles_first_per_path() {
    let mut builder = LayeredProfile::build();
    builder.add("main".to_string(), profile(None, &[], vec![dotfile(".bashrc", Some(1)), dotfile("init.vim", None)]));
    builder.add("base".to_string(), profile(None, &[], vec![dotfile(".bashrc", Some(7)), dotfile(".gitconfig", None)]));
    let layered = builder.finish();

    let dotfiles = layered.dotfiles();
    let paths: Vec<&str> = dotfiles.iter().map(|d| d.path.as_str()).collect();
    assert_eq!(paths, vec![".bashrc", "init.vim", ".gitconfig"]);
    assert_eq!(dotfiles[0].priority, Some(Priority::new(1)));
}

#[test]
fn layered_transformers_without_duplicates() {
    let crlf = ContentTransformer::LineTerminator(LineTerminator::Crlf);
    let lf = ContentTransformer::LineTerminator(LineTerminator::Lf);
    let mut main = profile(None, &[], Vec::new());
    main.transformers = vec![crlf, crlf];
    let mut base = profile(None, &[], Vec::new());
    base.transformers = vec![lf, crlf];

    let mut builder = LayeredProfile::build();
    builder.add("main".to_string(), main);
    builder.add("base".to_string(), base);
    let layered = builder.finish();

    assert_eq!(layered.transformers(), vec![crlf, lf]);
    assert_eq!(layered.transformers_len(), 2);
}

#[test]
fn layered_hooks_of_all_layers_in_order() {
    let mut main = profile(None, &[], Vec::new());
    main.pre_hooks = vec![Hook::new("echo a".to_string())];
    main.post_hooks = vec![Hook::new("echo c".to_string())];
    let mut base = profile(None, &[], Vec::new());
    base.pre_hooks = vec![Hook::new("echo b".to_string())];

    let mut builder = LayeredProfile::build();
    builder.add("main".to_string(), main);
    builder.add("base".to_string(), base);
    let layered = builder.finish();

    let pre: Vec<&str> = layered.pre_hooks().iter().map(|h| h.command()).collect();
    let post: Vec<&str> = layered.post_hooks().iter().map(|h| h.command()).collect();
    assert_eq!(pre, vec!["echo a", "echo b"]);
    assert_eq!(post, vec!["echo c"]);
}

#[test]
fn dotfiles_sorted_by_descending_priority() {
    let mut builder = LayeredProfile::build();
    builder.add(
        "main".to_string(),
        profile(None, &[], vec![dotfile("a", None), dotfile("b", Some(5)), dotfile("c", Some(2)), dotfile("d", Some(5))]),
    );
    let mut layered = builder.finish();
    layered.sort_dotfiles_by_priority();

    let dotfiles = layered.dotfiles();
    let paths: Vec<&str> = dotfiles.iter().map(|d| d.path.as_str()).collect();
    assert_eq!(paths, vec!["b", "d", "c", "a"]);
}

#[test]
fn priority_above_compares_numbers() {
    assert!(punktf::profile::priority_above(Some(Priority::new(3)), Some(Priority::new(1))));
    assert!(!punktf::profile::priority_above(Some(Priority::new(1)), Some(Priority::new(3))));
}

#[test]
fn dotfile_is_template_by_default() {
    let mut d = dotfile("a", None);
    assert!(d.is_template());
    d.template = Some(false);
    assert!(!d.is_template());
}

#[test]
fn circular_extension_detected() {
    let stack = vec!["base.yaml".to_string(), "main.yaml".to_string()];
    assert!(punktf::profile::extends_circularly(&stack, "base.yaml", true));
    assert!(!punktf::profile::extends_circularly(&stack, "base.yaml", false));
    assert!(!punktf::profile::extends_circularly(&stack, "other.yaml", true));
}
