use std::time::Duration;

use punktf::deployment::{Deployment, DotfileStatus};
use punktf::profile::Dotfile;
use punktf::summary::{deployment_summary, dotfile_section_text, link_section_text, LinkRecord};

fn dotfile(path: &str) -> Dotfile {
    Dotfile {
        path: path.to_string(),
        target: None,
        priority: None,
        variables: None,
        transformers: Vec::new(),
        merge: None,
        template: None,
    }
}

fn link(source: &str, target: &str, status: DotfileStatus) -> LinkRecord {
    LinkRecord { source: source.to_string(), target: target.to_string(), status }
}

#[test]
fn summary_sections_and_totals() {
    let mut builder = Deployment::build();
    builder.add_dotfile("/t/a".to_string(), dotfile("a"), DotfileStatus::success());
    builder.add_dotfile("/t/b".to_string(), dotfile("b"), DotfileStatus::failed("broken".to_string()));
    let deployment = builder.finish();
    let links = vec![link("/s/l", "/t/l", DotfileStatus::skipped("exists".to_string()))];
    let texts = deployment_summary(&deployment, &links, Duration::from_millis(1500));
    assert_eq!(texts.len(), 7);
    assert_eq!(texts[0], "Dotfiles (\x1b[32mSUCCESS\x1b[39m)\n\t\x1b[90m/t/a\x1b[39m");
    assert_eq!(texts[1], "");
    assert_eq!(texts[2], "Dotfiles (\x1b[31mFAILED\x1b[39m)\n\t/t/b: \x1b[90mbroken\x1b[39m");
    assert_eq!(texts[3], "");
    assert_eq!(
        texts[4],
        "Links (\x1b[33mSKIPPED\x1b[39m)\n\t\x1b[90m/s/l\x1b[39m => \x1b[90m/t/l\x1b[39m: \x1b[90mexists\x1b[39m"
    );
    assert_eq!(texts[5], "");
    let ruler = format!("\x1b[2m{}\x1b[0m", "-".repeat(80));
    let expected = format!(
        "Status: \x1b[31mFAILED\x1b[39m\n\tDeployment of 1 dotfiles failed\nTime            : 1.5s\n{r}\nFiles (deployed): 1\nFiles (skipped) : 0\nFiles (failed)  : 1\nFiles (total)   : 2\n{r}\nLinks (deployed): 0\nLinks (skipped) : 1\nLinks (failed)  : 0\nLinks (total)   : 1",
        r = ruler
    );
    assert_eq!(texts[6], expected);
}

#[test]
fn summary_of_successful_deployment() {
    let deployment = Deployment::build().finish();
    let texts = deployment_summary(&deployment, &Vec::new(), Duration::from_secs(2));
    assert!(texts[..6].iter().all(|t| t.is_empty()));
    assert!(texts[6].starts_with("Status: \x1b[32mSUCCESS\x1b[39m\nTime            : 2s\n"));
    assert!(texts[6].ends_with("Links (total)   : 0"));
}

#[test]
fn sections_count_only_their_kind() {
    let links = vec![
        link("a", "b", DotfileStatus::success()),
        link("c", "d", DotfileStatus::failed("x".to_string())),
        link("e", "f", DotfileStatus::success()),
    ];
    let (text, n) = link_section_text(&links, 0);
    assert_eq!(n, 2);
    assert_eq!(text.matches("\n\t").count(), 2);
    assert_eq!(link_section_text(&links, 2), (String::new(), 0));
    let mut builder = Deployment::build();
    builder.add_dotfile("/t/a".to_string(), dotfile("a"), DotfileStatus::skipped("s".to_string()));
    let deployment = builder.finish();
    assert_eq!(dotfile_section_text(deployment.dotfiles(), 2), "Dotfiles (\x1b[33mSKIPPED\x1b[39m)\n\t/t/a: \x1b[90ms\x1b[39m");
}
