use punktf::deploy::{
    directory_status, errored_status, render_template, transform_content, DeployOptions, Deployer, FileAction, FileDeploy, FileEvent, LinkAction,
    LinkDeploy, LinkEvent, ReadOutcome,
};
use punktf::deployment::DotfileStatus;
use punktf::paths::{Kind, Paths};
use punktf::profile::{Dotfile, LayeredProfile, MergeMode, Priority, Profile};
use punktf::resolve::SystemVars;
use punktf::transform::{ContentTransformer, LineTerminator};
use punktf::variables::Variables;

fn dotfile(path: &str, priority: Option<u32>) -> Dotfile {
    Dotfile {
        path: path.to_string(),
        target: None,
        priority: priority.map(Priority::new),
        variables: None,
        transformers: Vec::new(),
        merge: None,
        template: None,
    }
}

fn system() -> SystemVars {
    SystemVars {
        env: Variables::new(),
        target_arch: "x86_64".to_string(),
        target_os: "linux".to_string(),
        target_family: "unix".to_string(),
    }
}

fn finished(action: FileAction) -> String {
    match action {
        FileAction::Finish(s) => s.to_text(),
        other => panic!("expected a finish, got {:?}", other),
    }
}

#[test]
fn file_fast_path_copies() {
    let mut m = FileDeploy::new(None, None, None, false, false, Vec::new());
    assert!(matches!(m.step(FileEvent::Start), FileAction::CheckTarget));
    assert!(matches!(m.step(FileEvent::TargetExists(false)), FileAction::CreateParent));
    assert!(matches!(m.step(FileEvent::ParentCreated(Ok(()))), FileAction::Copy));
    assert_eq!(finished(m.step(FileEvent::Copied(Ok(())))), "Success");
}

#[test]
fn file_outranked_is_skipped() {
    let mut m = FileDeploy::new(Some(Priority::new(1)), Some(Priority::new(5)), None, false, true, Vec::new());
    assert_eq!(
        finished(m.step(FileEvent::Start)),
        "Skipped: Dotfile with higher priority is already deployed"
    );
}

#[test]
fn file_keep_existing() {
    let mut m = FileDeploy::new(None, None, Some(MergeMode::Keep), false, true, Vec::new());
    m.step(FileEvent::Start);
    assert_eq!(
        finished(m.step(FileEvent::TargetExists(true))),
        "Skipped: Dotfile already exists and merge mode is Keep"
    );
}

#[test]
fn file_ask_denied_and_failed() {
    let mut m = FileDeploy::new(None, None, Some(MergeMode::Ask), false, true, Vec::new());
    m.step(FileEvent::Start);
    assert!(matches!(m.step(FileEvent::TargetExists(true)), FileAction::AskMerge));
    assert_eq!(
        finished(m.step(FileEvent::MergeAnswer(Some(false)))),
        "Skipped: Dotfile already exists and merge ask was denied"
    );

    let mut m = FileDeploy::new(None, None, Some(MergeMode::Ask), false, true, Vec::new());
    m.step(FileEvent::Start);
    m.step(FileEvent::TargetExists(true));
    assert_eq!(
        finished(m.step(FileEvent::MergeAnswer(None))),
        "Failed: Failed to execute merge ask function: Error evaluating user response"
    );
}

#[test]
fn file_template_rendered_and_transformed() {
    let ts = vec![ContentTransformer::LineTerminator(LineTerminator::Crlf)];
    let mut m = FileDeploy::new(None, None, None, false, true, ts);
    m.step(FileEvent::Start);
    m.step(FileEvent::TargetExists(false));
    assert!(matches!(m.step(FileEvent::ParentCreated(Ok(()))), FileAction::Read));
    match m.step(FileEvent::Read(ReadOutcome::Text("{{A}}\n".to_string()))) {
        FileAction::Render(t) => assert_eq!(t, "{{A}}\n"),
        other => panic!("expected a render, got {:?}", other),
    }
    match m.step(FileEvent::Rendered(Ok("a\nb".to_string()))) {
        FileAction::Write(b) => assert_eq!(b, b"a\r\nb".to_vec()),
        other => panic!("expected a write, got {:?}", other),
    }
    assert_eq!(finished(m.step(FileEvent::Written(Err("disk full".to_string())))), "Failed: Failed to write content: disk full");
}

#[test]
fn file_render_failure() {
    let mut m = FileDeploy::new(None, None, None, true, true, Vec::new());
    m.step(FileEvent::Start);
    assert!(matches!(m.step(FileEvent::TargetExists(false)), FileAction::Read));
    m.step(FileEvent::Read(ReadOutcome::Text("x".to_string())));
    assert_eq!(
        finished(m.step(FileEvent::Rendered(Err("File: /src/x".to_string())))),
        "Failed: Failed to resolve template: File: /src/x"
    );
}

#[test]
fn file_dry_run_writes_nothing() {
    let mut m = FileDeploy::new(None, None, None, true, false, Vec::new());
    m.step(FileEvent::Start);
    assert_eq!(finished(m.step(FileEvent::TargetExists(true))), "Success");

    let mut m = FileDeploy::new(None, None, None, true, true, Vec::new());
    m.step(FileEvent::Start);
    m.step(FileEvent::TargetExists(false));
    assert_eq!(finished(m.step(FileEvent::Read(ReadOutcome::Binary(vec![0xff])))), "Success");
}

#[test]
fn file_read_failure() {
    let mut m = FileDeploy::new(None, None, None, false, true, Vec::new());
    m.step(FileEvent::Start);
    m.step(FileEvent::TargetExists(false));
    m.step(FileEvent::ParentCreated(Ok(())));
    assert_eq!(
        finished(m.step(FileEvent::Read(ReadOutcome::Failed("denied".to_string())))),
        "Failed: Failed to read: denied"
    );
}

#[test]
fn link_created() {
    let mut m = LinkDeploy::new(true, false);
    assert!(matches!(m.step(LinkEvent::Start), LinkAction::CheckSource));
    assert!(matches!(m.step(LinkEvent::SourceExists(true)), LinkAction::CheckTarget));
    assert!(matches!(m.step(LinkEvent::TargetExists(true)), LinkAction::InspectTarget));
    assert!(matches!(m.step(LinkEvent::TargetIsLink(Ok(true))), LinkAction::RemoveTarget));
    assert!(matches!(m.step(LinkEvent::Removed(Ok(()))), LinkAction::CreateLink));
    assert!(matches!(m.step(LinkEvent::Created(Ok(()))), LinkAction::Finish(DotfileStatus::Success)));
}

#[test]
fn link_target_kept() {
    let mut m = LinkDeploy::new(false, false);
    m.step(LinkEvent::Start);
    m.step(LinkEvent::SourceExists(true));
    match m.step(LinkEvent::TargetExists(true)) {
        LinkAction::Finish(s) => assert_eq!(s.to_text(), "Skipped: Link target does already exist"),
        other => panic!("expected a finish, got {:?}", other),
    }
}

#[test]
fn link_missing_source_and_no_link_target() {
    let mut m = LinkDeploy::new(true, false);
    m.step(LinkEvent::Start);
    match m.step(LinkEvent::SourceExists(false)) {
        LinkAction::Finish(s) => assert_eq!(s.to_text(), "Failed: Link source does not exist"),
        other => panic!("expected a finish, got {:?}", other),
    }

    let mut m = LinkDeploy::new(true, false);
    m.step(LinkEvent::Start);
    m.step(LinkEvent::SourceExists(true));
    m.step(LinkEvent::TargetExists(true));
    match m.step(LinkEvent::TargetIsLink(Ok(false))) {
        LinkAction::Finish(s) => assert_eq!(s.to_text(), "Failed: Not allowed to replace target"),
        other => panic!("expected a finish, got {:?}", other),
    }
}

#[test]
fn link_dry_run() {
    let mut m = LinkDeploy::new(true, true);
    m.step(LinkEvent::Start);
    m.step(LinkEvent::SourceExists(true));
    assert!(matches!(m.step(LinkEvent::TargetExists(true)), LinkAction::Finish(DotfileStatus::Success)));
}

#[test]
fn deployer_outranks_lower_priority() {
    let profile = LayeredProfile::build().finish();
    let mut deployer = Deployer::new(DeployOptions { dry_run: false });
    let high = dotfile("a", Some(5));
    let paths = Paths::new("/src/a".to_string(), "/t/a".to_string());
    deployer.record(&Kind::from_paths(&paths, &high), "/t/a".to_string(), "/t/a".to_string(), DotfileStatus::Success);

    let low = dotfile("b", Some(1));
    let mut m = deployer.start_file(&profile, &low, "/t/a");
    assert!(matches!(m.step(FileEvent::Start), FileAction::Finish(DotfileStatus::Skipped(_))));

    let same = dotfile("c", Some(5));
    let mut m = deployer.start_file(&profile, &same, "/t/a");
    assert!(matches!(m.step(FileEvent::Start), FileAction::CheckTarget));

    let deployment = deployer.into_deployment();
    assert!(deployment.status().is_success());
    assert_eq!(deployment.dotfiles().len(), 1);
}

#[test]
fn deployer_failed_item_fails_deployment() {
    let mut deployer = Deployer::new(DeployOptions { dry_run: true });
    assert!(deployer.options().dry_run);
    let d = dotfile("a", None);
    let paths = Paths::new("/src/a".to_string(), "/t/a".to_string());
    deployer.record(&Kind::from_paths(&paths, &d), "/t/a".to_string(), "/t/a".to_string(), DotfileStatus::Failed("x".to_string()));
    let deployment = deployer.into_deployment();
    assert!(deployment.status().is_failed());
}

#[test]
fn deployer_into_failed_reason() {
    let deployer = Deployer::new(DeployOptions { dry_run: false });
    let deployment = deployer.into_failed("Failed to execute pre-hook".to_string());
    assert_eq!(deployment.status().to_text(), "Failed: Failed to execute pre-hook");
}

#[test]
fn transform_content_in_order() {
    let ts = vec![
        ContentTransformer::LineTerminator(LineTerminator::Crlf),
        ContentTransformer::LineTerminator(LineTerminator::Lf),
    ];
    assert_eq!(transform_content(&ts, "a\nb\r\n".to_string()), "a\nb\n");
    assert_eq!(transform_content(&Vec::new(), "a\n".to_string()), "a\n");
}

#[test]
fn render_template_resolves_with_profile_variables() {
    let mut builder = LayeredProfile::build();
    let vars = Variables::from_items(vec![("OS".to_string(), "linux".to_string())]);
    builder.add(
        "main".to_string(),
        Profile {
            extends: Vec::new(),
            variables: Some(vars),
            transformers: Vec::new(),
            target: None,
            pre_hooks: Vec::new(),
            post_hooks: Vec::new(),
            dotfiles: Vec::new(),
            symlinks: Vec::new(),
        },
    );
    let profile = builder.finish();
    let (r, diags) = render_template("os={{OS}}", "/src/a", Some(profile.variables()), None::<&Variables>, &system());
    assert_eq!(r, Ok("os=linux".to_string()));
    assert!(diags.is_empty());

    let (r, diags) = render_template("os={{MISSING}}", "/src/a", Some(profile.variables()), None::<&Variables>, &system());
    assert_eq!(r, Err("File: /src/a".to_string()));
    assert!(!diags.is_empty());

    let (r, _) = render_template("{{@if {{OS}}", "/src/a", Some(profile.variables()), None::<&Variables>, &system());
    assert_eq!(r, Err("File: /src/a".to_string()));
}

#[test]
fn errored_and_directory_statuses() {
    assert_eq!(errored_status(Some("Failed to read directory"), Some("denied")).to_text(), "Failed: Failed to read directory: denied");
    assert_eq!(errored_status(None, Some("Invalid file type")).to_text(), "Failed: Invalid file type");
    assert_eq!(errored_status(Some("ctx"), None).to_text(), "Failed: ctx");
    assert_eq!(directory_status(Ok(())).to_text(), "Success");
    assert_eq!(directory_status(Err("exists".to_string())).to_text(), "Failed: Failed to create directory: exists");
}

#[test]
fn failing_hooks_end_the_deployment() {
    let deployer = Deployer::new(DeployOptions { dry_run: false });
    let deployer = deployer.after_pre_hook(Ok(())).ok().expect("a successful hook goes on");
    let failed = deployer.after_pre_hook(Err("exit 1".to_string())).err().expect("a failing pre-hook ends it");
    assert_eq!(failed.status().to_text(), "Failed: Failed to execute pre-hook");

    let deployer = Deployer::new(DeployOptions { dry_run: false });
    let failed = deployer.after_post_hook(Err("exit 2".to_string())).err().expect("a failing post-hook ends it");
    assert_eq!(failed.status().to_text(), "Failed: exit 2");
    let deployer = Deployer::new(DeployOptions { dry_run: true });
    assert!(deployer.after_post_hook(Ok(())).ok().expect("goes on").into_deployment().status().is_success());
}
