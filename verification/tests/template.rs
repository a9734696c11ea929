use punktf::block::BlockHint;
use punktf::diagnostic::Diagnostic;
use punktf::resolve::SystemVars;
use punktf::source::Source;
use punktf::template::Template;
use punktf::variables::Variables;

fn vars(items: &[(&str, &str)]) -> Variables {
    Variables::from_items(
        items
            .iter()
            .map(|(k, v)| (k.to_string(), v.to_string()))
            .collect(),
    )
}

fn system(env: &[(&str, &str)]) -> SystemVars {
    SystemVars {
        env: vars(env),
        target_arch: "x86_64".to_string(),
        target_os: "linux".to_string(),
        target_family: "unix".to_string(),
    }
}

fn parse(content: &str) -> Template<'_> {
    let (template, diagnostics) = Template::parse(Source::anonymous(content));
    assert!(diagnostics.is_empty(), "unexpected diagnostics for `{}`", content.escape_debug());
    template.expect("template to parse")
}

fn resolve(template: &Template<'_>, profile: Option<&Variables>, dotfile: Option<&Variables>, sys: &SystemVars) -> Option<String> {
    let (out, _diagnostics): (Option<String>, Vec<Diagnostic>) = template.resolve(profile, dotfile, sys);
    out
}

const IF_FMT_TEST_CASES: &[(&str, &str)] = &[
		(
			r#"Hello {{@if {{NAME}}}}{{NAME}}{{@else}}there{{@fi}} !"#,
			r#"Hello there !"#
		),
	(
			r#"Hello {{@if {{NAME}}}}
{{NAME}}
{{@else}}
there
{{@fi}} !"#,
			r#"Hello there !"#
		),
		(
			r#"Hello {{@if {{NAME}}}}
{{NAME}}
{{@else}}
there
{{@fi}}
!"#,
			"Hello there\n!"
		),
		(
			r#"Hello
{{@if {{NAME}}}}
{{NAME}}
{{@else}}
there
{{@fi}}
!"#,
			"Hello\nthere\n!"
		),
		(
			r#"Hello
{{@if {{NAME}}}}
	{{NAME}}
{{@else}}
	there
{{@fi}}
!"#,
			"Hello\n\tthere\n!"
		),
		(
			r#"Hello

{{@if {{NAME}}}}
	{{NAME}}
{{@else}}
	there
{{@fi}}

!"#,
			"Hello\n\n\tthere\n\n!"
		),
		(
			r#"Hello
{{@if {{NAME}}}}

	{{NAME}}
{{@else}}

	there
{{@fi}}
!"#,
			"Hello\n\n\tthere\n!"
		),
		(
			r#"{{@if !{{OS}}}}
Hello World
{{@fi}}

Hello
"#,
			r#"Hello World

Hello
"#
		),
		(
			r#"{{@if {{OS}}}} Hello World {{@fi}}
Hello
"#,
			r#"Hello
"#
		),
		(
			r#"{{@if {{OS}}}}
	Hello World
{{@fi}}
Hello
"#,
			r#"Hello
"#
		),
		(
			r#"{{@if {{OS}}}}
	Hello World
{{@fi}}

Hello
"#,
			r#"
Hello
"#
		),
		(
			r#"Hello

{{@if {{OS}}}}
	Hello World
{{@fi}}

World"#,
			r#"Hello


World"#
		),
		(
			r#"{{@print Hello World}}

Hello
"#,
			r#"
Hello
"#
		),
		(
			r#"Hello
{{@print Hello World}}
World"#,
			r#"Hello
World"#
		),
		(
			r#"Hello {{@print Hello World}}World"#,
			r#"Hello World"#
		),
		(
			r#"{{@if {{OS}}}}
	Hello World
{{@fi}}

{{DEMO_VAR}}
"#,
			r#"
DEMO
"#
		),
		(
			r#"Hello
{{{}}}
World"#,
			r#"Hello
World"#
		),
		(
			r#"Hello
{{!-- Comment --}}
World"#,
			r#"Hello
World"#
		),
];

#[test]
fn if_fmt() {
    let vars = vars(&[("DEMO_VAR", "DEMO")]);
    let sys = system(&[]);

    for (content, should) in IF_FMT_TEST_CASES {
        let template = parse(content);

        assert_eq!(
            &resolve(&template, Some(&vars), None, &sys).expect("template to resolve"),
            should,
            "Format test failed for input `{}`",
            content.escape_debug()
        );
    }
}

#[test]
fn parse_template() {
    let content = r#"
			[some settings]
			var = 2
			foo = "bar"
			fizz = {{BUZZ}}
			escaped = {{{42}}}

			{{!--
				Sets the message of the day for a specific operating system
				If no os matches it defaults to a generic one.
			--}}
			{{@print Writing motd...}}
			{{@if {{&OS}} == "linux" }}
			{{@print Linux Motd!}}
			[linux]
			motd = "very nice"
			{{@elif {{&#OS}} == "windows" }}
			[windows]
			motd = "nice"
			{{@else}}
			[other]
			motd = "who knows"
			{{@fi}}

			{{!-- Check if not windows --}}
			{{@if {{&OS}} != "windows"}}
			windows = false
			{{@fi}}

			[last]
			num = 23
			threads = 1337
			os_str = "_unkown"
			"#;

    let template = parse(content);
    let vars = vars(&[("BUZZ", "Hello World"), ("OS", "linux")]);
    let out = resolve(&template, Some(&vars), Some(&vars), &system(&[])).expect("template to resolve");
    assert!(out.contains("fizz = Hello World"));
    assert!(out.contains("escaped = 42"));
    assert!(out.contains("motd = \"very nice\""));
    assert!(!out.contains("who knows"));
    assert!(out.contains("windows = false"));
}

#[test]
fn parse_template_vars() {
    let profile_vars = vars(&[("OS", "windows")]);
    let item_vars = vars(&[("OS", "unix")]);
    let with_env = system(&[("OS", "macos")]);
    let without_env = system(&[]);

    let cases: &[(&str, &SystemVars, &str)] = &[
        ("{{OS}}", &with_env, "unix"),
        ("{{#OS}}", &with_env, "windows"),
        ("{{&OS}}", &with_env, "unix"),
        ("{{$OS}}", &with_env, "macos"),
        ("{{$#OS}}", &with_env, "macos"),
        ("{{$&OS}}", &without_env, "unix"),
    ];

    for (content, sys, expected) in cases {
        let template = parse(content);
        assert_eq!(
            resolve(&template, Some(&profile_vars), Some(&item_vars), sys).expect("template to resolve"),
            *expected,
            "input `{}`",
            content
        );
    }
}

pub const TEMPLATE: &str = r#"{{!-- This a test for `init.vim` --}}
{{@if {{OS}} == "windows"}}
set fileformat=dos
{{@elif {{OS}} == "macos"}}
set fileformat=mac
{{@else}}
set fileformat=unix
{{@fi}}
set ttyfast
set relativenumber
set number
set encoding={{SYS_ENCODING}}
set colorcolumn=80

{{@if {{OS}} == "windows"}}
set undodir='{{$APPDATA}}\nvim\vimdid'
{{@else}}
set undodir='{{$HOME}}/.config/nvim/vimdid'
{{@fi}}
set nowrap"#;

#[test]
fn parse_initvim_win() {
    let template = parse(TEMPLATE);
    let vars = vars(&[("OS", "windows"), ("SYS_ENCODING", "windows1252")]);
    let sys = system(&[("APPDATA", "C:\\Users\\Demo\\Appdata\\Local")]);

    let output = resolve(&template, Some(&vars), None, &sys).expect("template to resolve");

    assert_eq!(
        output.trim(),
        r#"set fileformat=dos
set ttyfast
set relativenumber
set number
set encoding=windows1252
set colorcolumn=80

set undodir='C:\Users\Demo\Appdata\Local\nvim\vimdid'
set nowrap"#
    );
}

#[test]
fn template_initvim_linux() {
    let template = parse(TEMPLATE);
    let vars = vars(&[("OS", "linux"), ("SYS_ENCODING", "utf-8")]);
    let sys = system(&[("HOME", "/home/Demo")]);

    let output = resolve(&template, Some(&vars), None, &sys).expect("template to resolve");

    assert_eq!(
        output.trim(),
        r#"set fileformat=unix
set ttyfast
set relativenumber
set number
set encoding=utf-8
set colorcolumn=80

set undodir='/home/Demo/.config/nvim/vimdid'
set nowrap"#
    );
}

const TEMPLATES: &[&[u8]] = &[&[9, 123, 123, 10, 125, 125, 26]];

#[test]
fn parse_templates() {
    for template in TEMPLATES {
        let s = std::str::from_utf8(template).unwrap();
        let source = Source::anonymous(s);
        let _ = Template::parse(source);
    }
}

#[test]
fn text_without_blocks_resolves_to_itself() {
    let text = "plain text\n  with } braces { and\r\nlines";
    let template = parse(text);
    assert_eq!(resolve(&template, None, None, &system(&[])), Some(text.to_string()));
}

#[test]
fn comments_dropped_and_escaped_copied() {
    let template = parse("a{{!-- note --}}b{{{ {{x}} }}}c");
    assert_eq!(resolve(&template, None, None, &system(&[])), Some("ab {{x}} c".to_string()));
}

#[test]
fn variable_prefixes_choose_environments() {
    let profile = vars(&[("OS", "profile")]);
    let dotfile = vars(&[("OS", "dotfile")]);
    let sys = system(&[("OS", "env")]);
    let template = parse("{{#OS}} {{&OS}} {{$OS}}");
    assert_eq!(resolve(&template, Some(&profile), Some(&dotfile), &sys), Some("profile dotfile env".to_string()));
}

#[test]
fn missing_variable_fails() {
    let (template, _) = Template::parse(Source::anonymous("{{NOPE}}"));
    let template = template.unwrap();
    let (out, diagnostics) = template.resolve(None::<&Variables>, None::<&Variables>, &system(&[]));
    assert_eq!(out, None);
    assert_eq!(diagnostics.len(), 1);
    assert_eq!(diagnostics[0].message(), "failed to resolve variable");
}

#[test]
fn unicode_text_resolves_exactly() {
    let profile = vars(&[("NAME", "Zoë")]);
    let template = parse("Grüße {{NAME}} — ✓\n{{@if {{NAME}}}}\n  ünïcödé\n{{@fi}}\n😀");
    assert_eq!(
        resolve(&template, Some(&profile), None, &system(&[])),
        Some("Grüße Zoë — ✓\n  ünïcödé\n😀".to_string())
    );
}

#[test]
fn block_hints_start_their_blocks() {
    let template = parse("a{{@if {{X}}}}b{{@fi}}{{Y}}");
    let hints: Vec<BlockHint> = template.blocks().iter().map(|b| b.kind().as_hint()).collect();
    assert_eq!(hints, vec![BlockHint::Text, BlockHint::IfStart, BlockHint::Var]);
}
