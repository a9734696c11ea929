use punktf::diff::{
    directory_event, entry_report, event_report, file_event, pretty_diff, pretty_report, udiff_report, ChangeKind, Event,
    InlineChange, StyledText, TextStyle,
};

fn pieces(r: &[StyledText]) -> Vec<(TextStyle, String)> {
    r.iter().map(|p| (p.style, p.text.clone())).collect()
}

#[test]
fn new_file_when_target_missing() {
    let e = file_event("a".to_string(), "/t/a".to_string(), None, "x".to_string()).unwrap();
    assert!(matches!(&e, Event::NewFile { relative_source_path, target_path } if relative_source_path == "a" && target_path == "/t/a"));
    assert_eq!(e.target_path(), "/t/a");
}

#[test]
fn no_event_when_content_unchanged() {
    assert!(file_event("a".to_string(), "/t/a".to_string(), Some("same".to_string()), "same".to_string()).is_none());
}

#[test]
fn diff_event_when_content_changes() {
    let e = file_event("a".to_string(), "/t/a".to_string(), Some("old".to_string()), "new".to_string()).unwrap();
    match e {
        Event::Diff { old_content, new_content, .. } => {
            assert_eq!(old_content, "old");
            assert_eq!(new_content, "new");
        }
        _ => panic!("expected a diff"),
    }
}

#[test]
fn directory_events() {
    assert!(directory_event("d".to_string(), "/t/d".to_string(), true).is_none());
    let e = directory_event("d".to_string(), "/t/d".to_string(), false).unwrap();
    assert!(matches!(e, Event::NewDirectory { .. }));
}

#[test]
fn entry_reports() {
    assert_eq!(
        pieces(&entry_report("a", "/t/a", false)),
        vec![
            (TextStyle::Plain, "[".to_string()),
            (TextStyle::SourcePath, "a".to_string()),
            (TextStyle::Plain, " => ".to_string()),
            (TextStyle::TargetPath, "/t/a".to_string()),
            (TextStyle::Plain, "] New file\n".to_string()),
        ]
    );
    let e = directory_event("d".to_string(), "/t/d".to_string(), false).unwrap();
    assert_eq!(pieces(&event_report(&e, true)).last().unwrap().1, "] New directory\n");
}

#[test]
fn unified_report_has_header_and_hunk() {
    let r = udiff_report("/t/a", "x\ny\n", "x\nz\n");
    assert_eq!(r, "--- /t/a\r\n+++ /t/a\n@@ -1,2 +1,2 @@\n x\n-y\n+z\n");
    let e = file_event("a".to_string(), "/t/a".to_string(), Some("x\ny\n".to_string()), "x\nz\n".to_string()).unwrap();
    assert_eq!(pieces(&event_report(&e, true)), vec![(TextStyle::Plain, r)]);
}

#[test]
fn pretty_report_of_groups() {
    let change = |kind, old_index, new_index, text: &str| InlineChange {
        kind,
        old_index,
        new_index,
        parts: vec![(false, text.to_string())],
        missing_newline: false,
    };
    let groups = vec![
        vec![change(ChangeKind::Equal, Some(0), Some(0), "x\n"), change(ChangeKind::Delete, Some(1), None, "y\n")],
        vec![InlineChange { parts: vec![(true, "w".to_string())], missing_newline: true, ..change(ChangeKind::Insert, None, Some(1233), "") }],
    ];
    let p = pieces(&pretty_report("a", "/t/a", &groups));
    assert_eq!(p[0], (TextStyle::Plain, ">> ".to_string()));
    assert_eq!(p[1], (TextStyle::SourcePath, "a".to_string()));
    assert_eq!(p[3], (TextStyle::TargetPath, "/t/a".to_string()));
    assert_eq!(p[4], (TextStyle::Plain, "\n".to_string()));
    assert_eq!(p[5], (TextStyle::LineNr, "1   ".to_string()));
    assert_eq!(p[7], (TextStyle::Plain, " |".to_string()));
    assert_eq!(p[8], (TextStyle::Sign(ChangeKind::Equal), " ".to_string()));
    assert_eq!(p[9], (TextStyle::Value(ChangeKind::Equal), "x\n".to_string()));
    assert_eq!(p[11], (TextStyle::LineNr, "    ".to_string()));
    assert_eq!(p[13], (TextStyle::Sign(ChangeKind::Delete), "-".to_string()));
    assert_eq!(p[15], (TextStyle::Plain, format!("{}\n", "-".repeat(80))));
    assert_eq!(p[17], (TextStyle::LineNr, "1234".to_string()));
    assert_eq!(p[19], (TextStyle::Sign(ChangeKind::Insert), "+".to_string()));
    assert_eq!(p[20], (TextStyle::Emphasized(ChangeKind::Insert), "w".to_string()));
    assert_eq!(p[21], (TextStyle::Plain, "\n".to_string()));
    assert_eq!(p.len(), 22);
    assert!(pretty_report("a", "/t/a", &Vec::new()).is_empty());
}

#[test]
fn pretty_diff_shows_changed_lines() {
    let p = pieces(&pretty_diff("a", "/t/a", "x\ny\n", "x\nz\n"));
    assert_eq!(p[0], (TextStyle::Plain, ">> ".to_string()));
    let text: String = p.iter().skip(5).map(|(_, t)| t.as_str()).collect();
    assert_eq!(text, "1   1    | x\n2        |-y\n    2    |+z\n");
}

#[test]
fn pretty_diff_of_equal_contents_is_empty() {
    assert!(pretty_diff("a", "/t/a", "x\ny\n", "x\ny\n").is_empty());
    assert!(!pretty_diff("a", "/t/a", "x\n", "x").is_empty());
}
