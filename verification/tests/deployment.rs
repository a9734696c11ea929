use std::time::Duration;

use punktf::deployment::{Deployment, DeploymentBuilder, DotfileStatus};
use punktf::profile::{Dotfile, Priority};

fn dotfile(path: &str, priority: Option<u32>) -> Dotfile {
    Dotfile {
        path: path.to_string(),
        target: None,
        priority: priority.map(Priority::new),
        variables: None,
        transformers: Vec::new(),
        merge: None,
        template: None,
    }
}

#[test]
fn deployment_builder() {
    let builder = Deployment::build();
    let deployment = builder.success();

    assert!(deployment.status().is_success());
    assert!(deployment.duration().unwrap() >= Duration::from_secs(0));
}

#[test]
fn builder_finish_counts_failures() {
    let mut builder = DeploymentBuilder::default();
    builder.add_dotfile("/t/a".to_string(), dotfile("a", None), DotfileStatus::success());
    builder.add_dotfile("/t/b".to_string(), dotfile("b", None), DotfileStatus::failed("x".to_string()));
    builder.add_dotfile("/t/c".to_string(), dotfile("c", None), DotfileStatus::failed("y".to_string()));
    let deployment = builder.finish();
    assert!(deployment.status().is_failed());
    assert_eq!(deployment.status().to_text(), "Failed: Deployment of 2 dotfiles failed");
    assert_eq!(deployment.dotfiles().len(), 3);
}

#[test]
fn builder_finish_success_without_failures() {
    let mut builder = DeploymentBuilder::default();
    builder.add_dotfile("/t/a".to_string(), dotfile("a", None), DotfileStatus::skipped("s".to_string()));
    let deployment = builder.finish();
    assert!(deployment.status().is_success());
    assert_eq!(deployment.status().to_text(), "Success");
}

#[test]
fn builder_lookup_follows_children() {
    let mut builder = DeploymentBuilder::new();
    builder.add_dotfile("/t/dir".to_string(), dotfile("dir", Some(3)), DotfileStatus::success());
    builder.add_child("/t/dir/x".to_string(), "/t/dir".to_string(), DotfileStatus::success());
    builder.add_child("/t/dir/y".to_string(), "/t/dir".to_string(), DotfileStatus::failed("f".to_string()));
    assert!(builder.contains("/t/dir/x"));
    assert!(!builder.contains("/t/other"));
    assert_eq!(builder.get_dotfile("/t/dir/x").unwrap().path, "dir");
    assert_eq!(builder.get_dotfile("/t/dir/y").unwrap().path, "dir");
    assert!(builder.get_deployed_dotfile("/t/dir/y").is_none());
    assert_eq!(builder.get_priority("/t/dir/x"), Some(Priority::new(3)));
    assert_eq!(builder.is_deployed("/t/dir/x"), Some(true));
    assert_eq!(builder.is_deployed("/t/dir/y"), Some(false));
    assert_eq!(builder.is_deployed("/t/none"), None);
}

#[test]
fn builder_replaces_record_at_same_path() {
    let mut builder = DeploymentBuilder::new();
    builder.add_dotfile("/t/a".to_string(), dotfile("a", Some(1)), DotfileStatus::failed("f".to_string()));
    builder.add_dotfile("/t/a".to_string(), dotfile("b", Some(2)), DotfileStatus::success());
    assert_eq!(builder.get_dotfile("/t/a").unwrap().path, "b");
    assert_eq!(builder.is_deployed("/t/a"), Some(true));
    let deployment = builder.finish();
    assert!(deployment.status().is_success());
    assert_eq!(deployment.dotfiles().len(), 1);
}

#[test]
fn builder_failed_and_statuses() {
    let builder = DeploymentBuilder::new();
    let deployment = builder.failed("hook failed".to_string());
    assert!(deployment.status().is_failed());
    assert_eq!(deployment.status().to_text(), "Failed: hook failed");
    assert!(DotfileStatus::skipped("r".to_string()).is_skipped());
    assert_eq!(DotfileStatus::skipped("r".to_string()).to_text(), "Skipped: r");
    assert!(!DotfileStatus::success().is_failed());
}

#[test]
fn empty_builder_finishes_successfully() {
    let deployment = Deployment::build().finish();
    assert!(deployment.status().is_success());
    assert!(deployment.dotfiles().is_empty());
    assert!(deployment.time_start() <= deployment.time_end());
}

#[test]
fn finish_keeps_start_time_and_counts_by_path() {
    let mut builder = Deployment::build();
    builder.add_dotfile("/t/a".to_string(), dotfile("a", None), DotfileStatus::failed("x".to_string()));
    builder.add_dotfile("/t/a".to_string(), dotfile("a", None), DotfileStatus::failed("y".to_string()));
    builder.add_child("/t/b".to_string(), "/t/a".to_string(), DotfileStatus::skipped("s".to_string()));
    let deployment = builder.finish();
    assert_eq!(deployment.status().to_text(), "Failed: Deployment of 1 dotfiles failed");
    let counts = deployment.counts();
    assert_eq!((counts.success, counts.failed, counts.skipped), (0, 1, 1));
    let d = deployment.duration().unwrap();
    assert_eq!(d, deployment.time_end().duration_since(*deployment.time_start()).unwrap());
}

#[test]
fn child_belongs_to_dotfile_of_its_directory() {
    let mut builder = Deployment::build();
    builder.add_dotfile("/t/d".to_string(), dotfile("d", Some(1)), DotfileStatus::success());
    builder.add_dotfile("/t/d/x".to_string(), dotfile("x", None), DotfileStatus::success());
    builder.add_child("/t/d/x".to_string(), "/t/d".to_string(), DotfileStatus::success());
    assert_eq!(builder.get_dotfile("/t/d/x").unwrap().path, "d");
    builder.add_child("/t/d/x/y".to_string(), "/t/d/x".to_string(), DotfileStatus::failed("f".to_string()));
    assert_eq!(builder.get_dotfile("/t/d/x/y").unwrap().path, "d");
    assert!(builder.get_deployed_dotfile("/t/d/x/y").is_none());
    assert_eq!(builder.get_deployed_dotfile("/t/d/x").unwrap().path, builder.get_dotfile("/t/d/x").unwrap().path);
    assert!(builder.contains("/t/d/x/y") && builder.is_deployed("/t/d/x/y").is_some());
    assert!(!builder.contains("/t/e") && builder.is_deployed("/t/e").is_none());
}
