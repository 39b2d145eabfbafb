use zeroclaw_runtime::agent::auto_skill::{
    build_question, evaluate_and_save, judge_reply, list_existing_skills, EvalCommand, EvalEvent,
    EvalState, SkillEntry, StopReason, REPLY_TIMEOUT_SECS, SYSTEM_PROMPT,
};
use zeroclaw_runtime::agent::frontmatter::{
    bump_version, current_version, parse_frontmatter_field,
};
use zeroclaw_runtime::agent::naming::{is_safe_filename, is_valid_skill_name};
use zeroclaw_runtime::agent::rendering::{
    escape_yaml_value, file_count_suffix, notice_of_creation, notice_of_update, plan_files,
    render_skill_md, sanitize_tag,
};
use zeroclaw_runtime::agent::response::{
    header_is_separable, parse_skill_response, strip_ci_prefix, strip_file_open, ParsedFile,
    ParsedSkill, SkillAction,
};
use zeroclaw_runtime::agent::turn::Turn;

#[test]
fn parses_save() {
    let raw = "SAVE\nname: foo\ndescription: do foo\nbody:\nrun foo";
    let p = parse_skill_response(raw).expect("parse");
    assert_eq!(p.action, SkillAction::Save);
    assert_eq!(p.name, "foo");
}

#[test]
fn parses_update_with_file() {
    let raw = "UPDATE\nname: btc\ndescription: fixed\nbody:\nbash $SKILL_DIR/parse.sh\n--- BEGIN FILE: parse.sh ---\necho fixed\n--- END FILE ---";
    let p = parse_skill_response(raw).expect("parse");
    assert_eq!(p.action, SkillAction::Update);
    assert_eq!(p.files.len(), 1);
    assert_eq!(p.files[0].name, "parse.sh");
}

#[test]
fn rejects_unknown_action() {
    assert!(parse_skill_response("DELETE\nname: foo").is_none());
}

#[test]
fn bump_version_works() {
    assert_eq!(
        bump_version("---\nname: x\nversion: 0.1.7\n---\nbody"),
        "0.1.8"
    );
    assert_eq!(bump_version("---\nname: x\nversion: 1.2.3\n---\n"), "1.2.4");
    assert_eq!(bump_version("---\nname: x\n---\n"), "0.1.1");
    assert_eq!(bump_version("---\nname: x\nversion: bogus\n---\n"), "0.1.1");
}

#[test]
fn parse_reads_every_part() {
    let raw = "  Update \r\n NAME :x\nName:  first \nname: last\nDescription: a: b\nnoise\nBODY: ignored\n\n one\n  two\n--- BEGIN FILE: a.py ---\nx = 1\n\n--- END ---\nthree\n--- END FILE ---\n\n";
    let p = parse_skill_response(raw).expect("parse");
    assert_eq!(p.action, SkillAction::Update);
    assert_eq!(p.name, "last");
    assert_eq!(p.description, "a: b");
    assert_eq!(p.body, "one\n  two\nthree");
    assert_eq!(p.files.len(), 1);
    assert_eq!(p.files[0].name, "a.py");
    assert_eq!(p.files[0].content, "x = 1\n\n");
}

#[test]
fn replies_in_the_format_are_read() {
    let raw = "SAVE\nname:  foo \ndescription: do \"foo\"\nbody:\n\n# Foo\n\nrun it\n--- BEGIN FILE:  a.py  ---\nx = 1\n\ny = 2\n--- END FILE ---\n--- BEGIN FILE: b.sh ---\n--- END FILE ---";
    assert!(header_is_separable(raw));
    let p = parse_skill_response(raw).expect("parse");
    assert_eq!(p.action, SkillAction::Save);
    assert_eq!(p.name, "foo");
    assert_eq!(p.description, "do \"foo\"");
    assert_eq!(p.body, "# Foo\n\nrun it");
    let files: Vec<(String, String)> = p.files.into_iter().map(|f| (f.name, f.content)).collect();
    assert_eq!(
        files,
        vec![
            ("a.py".to_string(), "x = 1\n\ny = 2\n".to_string()),
            ("b.sh".to_string(), "\n".to_string()),
        ]
    );
}

#[test]
fn replies_in_the_format_are_read_in_any_alphabet() {
    let raw = "SAVE\nname: \u{e9}\u{e9}\ndescription: \u{1F527}\u{65e5}\u{672c}\nbody:\n\u{e9}";
    assert!(header_is_separable(raw));
    let p = parse_skill_response(raw).expect("parse");
    assert_eq!(p.name, "\u{e9}\u{e9}");
    assert_eq!(p.description, "\u{1F527}\u{65e5}\u{672c}");
}

#[test]
fn parse_needs_name_and_description() {
    assert!(parse_skill_response("").is_none());
    assert!(parse_skill_response("SAVE").is_none());
    assert!(parse_skill_response("SAVE\nname: foo\nbody:\nx").is_none());
    assert!(parse_skill_response("SAVE\ndescription: foo\nbody:\nx").is_none());
    assert!(parse_skill_response("SAVE\nbody:\nname: a\ndescription: b").is_none());
    let p = parse_skill_response("SAVE\nname:\ndescription:").expect("parse");
    assert_eq!(p.name, "");
    assert_eq!(p.description, "");
    assert_eq!(p.body, "");
}

#[test]
fn unfinished_and_reopened_blocks_are_lost() {
    let raw = "SAVE\nname: n\ndescription: d\nbody:\nb\n--- BEGIN FILE: a.sh ---\n1\n--- BEGIN FILE: b.sh ---\n--- END FILE ---\n--- BEGIN FILE: c.sh ---\n3";
    let p = parse_skill_response(raw).expect("parse");
    assert_eq!(p.body, "b");
    assert_eq!(p.files.len(), 1);
    assert_eq!(p.files[0].name, "b.sh");
    assert_eq!(p.files[0].content, "\n");
}

#[test]
fn header_lines_must_be_separable() {
    assert!(header_is_separable("SAVE\nname: foo\ndescription: do foo\nbody:\nrun foo"));
    assert!(!header_is_separable("SAVE\nabcd\u{e9}\nname: x"));
    assert!(!header_is_separable("SAVE\nbody: 12345\u{e9}\nx"));
    assert!(header_is_separable("SAVE\nname: 12345\u{e9}\nbody:\nabcd\u{e9}"));
    assert!(header_is_separable("NONE\nabcd\u{e9}"));
    assert!(header_is_separable("SAVE\nabc\u{e9}"));
}

#[test]
fn prefixes_are_stripped_in_either_case() {
    assert_eq!(strip_ci_prefix("Name: x", "name:"), Some(" x"));
    assert_eq!(strip_ci_prefix("name", "name:"), None);
    assert_eq!(strip_ci_prefix("names: x", "name:"), None);
    assert_eq!(strip_ci_prefix("", "name:"), None);
    assert_eq!(strip_ci_prefix("\u{e9}t\u{e9}", "\u{e9}T"), Some("\u{e9}"));
}

#[test]
fn file_blocks_are_opened() {
    assert_eq!(strip_file_open("  --- BEGIN FILE: a.py ---  ").as_deref(), Some("a.py"));
    assert_eq!(strip_file_open("--- BEGIN FILE:x---").as_deref(), Some("x"));
    assert_eq!(strip_file_open("--- BEGIN FILE:---"), None);
    assert_eq!(strip_file_open("--- BEGIN FILE:   ---"), None);
    assert_eq!(strip_file_open("--- BEGIN FILE: a.py"), None);
    assert_eq!(strip_file_open("--- begin file: a.py ---"), None);
}

#[test]
fn frontmatter_fields_are_found() {
    let md = "---\nName: \"My Skill\"\n  description:  a: b \nversion:1.0.0\n---\nauthor: me\n";
    assert_eq!(parse_frontmatter_field(md, "name").as_deref(), Some("My Skill"));
    assert_eq!(parse_frontmatter_field(md, "description").as_deref(), Some("a: b"));
    assert_eq!(parse_frontmatter_field(md, "version").as_deref(), Some("1.0.0"));
    assert_eq!(parse_frontmatter_field(md, "author"), None);
    assert_eq!(parse_frontmatter_field(md, "Name"), None);
    assert_eq!(parse_frontmatter_field("name: x\n---\n", "name"), None);
    assert_eq!(parse_frontmatter_field("", "name"), None);
    let mut far = String::from("---\n");
    for _ in 0..28 {
        far.push_str("x\n");
    }
    assert_eq!(
        parse_frontmatter_field(&format!("{far}name: y\n"), "name").as_deref(),
        Some("y")
    );
    assert_eq!(parse_frontmatter_field(&format!("{far}x\nname: y\n"), "name"), None);
}

#[test]
fn versions_are_read() {
    assert_eq!(current_version("---\nversion: 1.+2.003\n---\n"), Some((1, 2, 3)));
    assert_eq!(current_version("---\nversion: 1.2\n---\n"), None);
    assert_eq!(current_version("---\nversion: 1.2.3.4\n---\n"), None);
    assert_eq!(current_version("---\nversion: 1.-2.3\n---\n"), None);
    assert_eq!(current_version("---\nversion: 1.2.4294967296\n---\n"), None);
    assert_eq!(current_version("---\n---\n"), None);
    assert_eq!(bump_version("---\nversion: 1.2.4294967294\n---\n"), "1.2.4294967295");
    assert_eq!(bump_version("---\nversion: 0.1.4294967295\n---\n"), "0.1.4294967296");
    assert_eq!(bump_version("---\nversion: 1.2.4294967296\n---\n"), "0.1.1");
}

#[test]
fn skill_names_are_checked() {
    assert!(is_valid_skill_name("fetch_btc_price2"));
    assert!(is_valid_skill_name(&"a".repeat(40)));
    assert!(!is_valid_skill_name(&"a".repeat(41)));
    assert!(!is_valid_skill_name(""));
    assert!(!is_valid_skill_name("_a"));
    assert!(!is_valid_skill_name("a_"));
    assert!(!is_valid_skill_name("A"));
    assert!(!is_valid_skill_name("a.b"));
    assert!(!is_valid_skill_name("a/b"));
    assert!(!is_valid_skill_name("\u{e9}"));
}

#[test]
fn file_names_are_checked() {
    for name in ["a.py", "b-1.sh", "C.txt", "d_.md", "e.json", "f.yaml", "g.x.toml"] {
        assert!(is_safe_filename(name));
    }
    let longest = format!("{}.py", "a".repeat(61));
    assert!(is_safe_filename(&longest));
    assert!(!is_safe_filename(&format!("a{longest}")));
    for name in ["", ".py", "a", "a.rs", "a/b.py", "a\\b.py", "a..py", "../a.py", "a b.py", "\u{e9}.py"] {
        assert!(!is_safe_filename(name));
    }
}

fn skill(action: SkillAction) -> ParsedSkill {
    ParsedSkill {
        action,
        name: "foo".to_string(),
        description: "say \"hi\": a\\b".to_string(),
        body: " run foo \n".to_string(),
        files: vec![
            ParsedFile { name: "a.sh".to_string(), content: "x\n".to_string() },
            ParsedFile { name: "b.py".to_string(), content: "y\n".to_string() },
        ],
    }
}

#[test]
fn values_are_escaped() {
    assert_eq!(escape_yaml_value("plain \\ text"), "plain \\ text");
    assert_eq!(escape_yaml_value("a: b"), "\"a: b\"");
    assert_eq!(escape_yaml_value("\"a\\\n\""), "\"\\\"a\\\\ \\\"\"");
    assert_eq!(sanitize_tag("tg:@Ann-1 \u{e9}"), "tg__Ann_1__");
}

#[test]
fn skill_files_are_rendered() {
    let s = skill(SkillAction::Save);
    assert_eq!(
        render_skill_md(&s, "tg:1", "0.1.0"),
        "---\nname: foo\ndescription: \"say \\\"hi\\\": a\\\\b\"\nversion: 0.1.0\nauthor: auto-skill\ntags: [auto, tg_1]\n---\n\nrun foo\n"
    );
    let writes = plan_files(&s.files);
    assert_eq!(writes.len(), 2);
    assert_eq!(writes[0].name, "a.sh");
    assert_eq!(writes[0].content, "x\n");
    assert!(writes[0].executable);
    assert!(!writes[1].executable);
    assert_eq!(file_count_suffix(&s.files), " (2 file(s): a.sh, b.py)");
    assert_eq!(file_count_suffix(&[]), "");
    assert_eq!(
        notice_of_creation(&s),
        "\u{1F4BE} Skill `foo` created (2 file(s): a.sh, b.py).\n_say \"hi\": a\\b_"
    );
    assert_eq!(
        notice_of_update(&s, "0.1.1"),
        "\u{1F527} Skill `foo` updated to v0.1.1 (2 file(s): a.sh, b.py).\n_say \"hi\": a\\b_"
    );
}

#[test]
fn rendered_files_read_back() {
    let mut s = skill(SkillAction::Save);
    s.description = "when: always".to_string();
    let md = render_skill_md(&s, "me", "3\n---\n");
    assert_eq!(parse_frontmatter_field(&md, "name").as_deref(), Some("foo"));
    assert_eq!(parse_frontmatter_field(&md, "description").as_deref(), Some("when: always"));
    let md = render_skill_md(&s, "me", "3.4.5");
    assert_eq!(parse_frontmatter_field(&md, "name").as_deref(), Some("foo"));
    assert_eq!(parse_frontmatter_field(&md, "description").as_deref(), Some("when: always"));
    assert_eq!(current_version(&md), Some((3, 4, 5)));
    assert_eq!(bump_version(&md), "3.4.6");
    assert_eq!(bump_version(&render_skill_md(&s, "me", "0.1.0")), "0.1.1");
    // Escapes are not undone.
    s.description = "say \"hi\"".to_string();
    let md = render_skill_md(&s, "me", "0.1.0");
    assert_eq!(parse_frontmatter_field(&md, "description").as_deref(), Some("say \\\"hi\\"));
}

fn entry(dir_name: Option<&str>, skill_md: &str) -> SkillEntry {
    SkillEntry { dir_name: dir_name.map(|n| n.to_string()), skill_md: skill_md.to_string() }
}

#[test]
fn existing_skills_are_listed() {
    let entries = vec![
        entry(Some("dir_a"), "---\nname: a\ndescription: does a\n---\n"),
        entry(Some("dir_b"), "no frontmatter"),
        entry(None, "---\ndescription: lost\n---\n"),
        entry(Some("dir_c"), "---\nname: \"\"\n---\n"),
    ];
    let listed = list_existing_skills(&entries);
    assert_eq!(
        listed,
        vec![
            ("a".to_string(), "does a".to_string()),
            ("dir_b".to_string(), String::new()),
        ]
    );
    assert_eq!(
        build_question(&listed, "hello", "world"),
        "EXISTING SKILLS:\n- a: does a\n- dir_b: \n\nUSER MESSAGE:\nhello\n\nASSISTANT REPLY:\nworld\n\nDecide:"
    );
    let long = "x".repeat(4001);
    assert_eq!(
        build_question(&Vec::new(), &long, &long),
        format!(
            "EXISTING SKILLS: (none)\n\nUSER MESSAGE:\n{}\u{2026}\n\nASSISTANT REPLY:\n{}\u{2026}\n\nDecide:",
            "x".repeat(1500),
            "x".repeat(4000)
        )
    );
}

#[test]
fn replies_are_judged() {
    let reason = |raw: &str| judge_reply(raw).err();
    assert_eq!(reason(" \n "), Some(StopReason::NothingToDo));
    assert_eq!(reason("\nnone\n"), Some(StopReason::NothingToDo));
    assert_eq!(reason("SAVE\nabcd\u{e9}"), Some(StopReason::UnreadableReply));
    assert_eq!(reason("NONE\nbecause"), Some(StopReason::UnparsedReply));
    assert_eq!(reason("SAVE\nname: Foo\ndescription: d\nbody:\nx"), Some(StopReason::InvalidSkill));
    assert_eq!(reason("SAVE\nname: foo\ndescription: d\nbody:\n \n"), Some(StopReason::InvalidSkill));
    assert_eq!(
        reason("SAVE\nname: foo\ndescription: d\nbody:\nx\n--- BEGIN FILE: ../a.py ---\n--- END ---"),
        Some(StopReason::UnsafeFile)
    );
    let p = judge_reply("\nSAVE\nname: foo\ndescription: d\nbody:\nx\n").expect("accepted");
    assert_eq!(p.name, "foo");
    assert_eq!(p.body, "x");
}

fn turn(user_msg: &str, assistant_reply: &str) -> EvalEvent {
    EvalEvent::Turn(Turn {
        user_msg: user_msg.to_string(),
        assistant_reply: assistant_reply.to_string(),
        sender: "tg:1".to_string(),
    })
}

fn stop_reason(command: &EvalCommand) -> Option<StopReason> {
    match command {
        EvalCommand::Stop(reason) => Some(*reason),
        _ => None,
    }
}

/// Feeds the events to the hook and gives the last state and command.
fn run(events: Vec<EvalEvent>) -> (EvalState, EvalCommand) {
    let mut state = EvalState::Start;
    let mut command = EvalCommand::ListSkills;
    for event in events {
        let (next, wanted) = evaluate_and_save(state, event);
        state = next;
        command = wanted;
    }
    (state, command)
}

fn replied(text: &str) -> EvalEvent {
    EvalEvent::Replied(text.to_string())
}

const SAVE: &str = "SAVE\nname: foo\ndescription: do foo\nbody:\nrun foo\n--- BEGIN FILE: a.sh ---\nx\n--- END FILE ---";
const UPDATE: &str = "UPDATE\nname: foo\ndescription: do foo\nbody:\nrun foo";

#[test]
fn a_new_skill_is_saved() {
    let (_, ask) = run(vec![turn("hi", "there"), EvalEvent::Listed(Vec::new())]);
    match ask {
        EvalCommand::Ask { system, question, timeout_secs } => {
            assert_eq!(system, SYSTEM_PROMPT);
            assert!(system.starts_with("You are a skill-maintenance system."));
            assert!(question.starts_with("EXISTING SKILLS: (none)"));
            assert_eq!(timeout_secs, REPLY_TIMEOUT_SECS);
            assert_eq!(timeout_secs, 45);
        }
        _ => panic!("expected a question"),
    }
    let (_, check) = run(vec![turn("hi", "there"), EvalEvent::Listed(Vec::new()), replied(SAVE)]);
    assert!(matches!(check, EvalCommand::CheckDir { name } if name == "foo"));
    let (state, write) = run(vec![
        turn("hi", "there"),
        EvalEvent::Listed(Vec::new()),
        replied(SAVE),
        EvalEvent::DirExists(false),
        EvalEvent::DirCreated(true),
    ]);
    match write {
        EvalCommand::Write { name, skill_md, files } => {
            assert_eq!(name, "foo");
            assert_eq!(
                skill_md,
                "---\nname: foo\ndescription: do foo\nversion: 0.1.0\nauthor: auto-skill\ntags: [auto, tg_1]\n---\n\nrun foo\n"
            );
            assert_eq!(files.len(), 1);
            assert!(files[0].executable);
        }
        _ => panic!("expected a write"),
    }
    let (_, notify) = evaluate_and_save(state, EvalEvent::Written);
    assert!(
        matches!(notify, EvalCommand::Notify { notice } if notice == "\u{1F4BE} Skill `foo` created (1 file(s): a.sh).\n_do foo_")
    );
}

#[test]
fn an_existing_skill_is_updated() {
    let found = |old: Option<&str>| {
        vec![
            turn("hi", "there"),
            EvalEvent::Listed(Vec::new()),
            replied(UPDATE),
            EvalEvent::DirExists(true),
            EvalEvent::OldSkill(old.map(|text| text.to_string())),
        ]
    };
    let (state, write) = run(found(Some("---\nname: foo\nversion: 2.0.9\n---\n")));
    assert!(matches!(write, EvalCommand::Write { skill_md, .. } if skill_md.contains("\nversion: 2.0.10\n")));
    let (state, notify) = evaluate_and_save(state, EvalEvent::Written);
    assert!(
        matches!(notify, EvalCommand::Notify { notice } if notice == "\u{1F527} Skill `foo` updated to v2.0.10.\n_do foo_")
    );
    let (_, after) = evaluate_and_save(state, EvalEvent::Written);
    assert_eq!(stop_reason(&after), Some(StopReason::OutOfTurn));
    let (_, write) = run(found(None));
    assert!(matches!(write, EvalCommand::Write { skill_md, .. } if skill_md.contains("\nversion: 0.1.1\n")));
    let (_, write) = run(found(Some("---\nversion: 1.0.4294967295\n---\n")));
    assert!(matches!(write, EvalCommand::Write { skill_md, .. } if skill_md.contains("\nversion: 1.0.4294967296\n")));
}

/// The `SKILL.md`, the names of the other files and the notice of a course that
/// writes.
fn written(events: Vec<EvalEvent>) -> (String, Vec<String>, String) {
    let (state, write) = run(events);
    let (skill_md, names) = match write {
        EvalCommand::Write { skill_md, files, .. } => {
            (skill_md, files.into_iter().map(|f| f.name).collect())
        }
        _ => panic!("expected a write"),
    };
    match evaluate_and_save(state, EvalEvent::Written).1 {
        EvalCommand::Notify { notice } => (skill_md, names, notice),
        _ => panic!("expected a notice"),
    }
}

#[test]
fn no_file_block_replaces_the_skill_md() {
    let reply = "UPDATE\nname: foo\ndescription: do foo\nbody:\nrun foo\n--- BEGIN FILE: a.py ---\nx\n--- END FILE ---\n--- BEGIN FILE: SKILL.md ---\nno version\n--- END FILE ---\n--- BEGIN FILE: b.py ---\ny\n--- END FILE ---";
    let old = "---\nname: foo\nversion: 0.1.7\n---\n";
    let (skill_md, names, notice) = written(vec![
        turn("hi", "there"),
        EvalEvent::Listed(Vec::new()),
        replied(reply),
        EvalEvent::DirExists(true),
        EvalEvent::OldSkill(Some(old.to_string())),
    ]);
    assert_eq!(parse_frontmatter_field(&skill_md, "version"), Some(bump_version(old)));
    assert_eq!(names, vec!["a.py", "b.py"]);
    assert_eq!(
        notice,
        "\u{1F527} Skill `foo` updated to v0.1.8 (2 file(s): a.py, b.py).\n_do foo_"
    );
}

#[test]
fn a_new_skill_may_bring_its_own_skill_md() {
    let reply = "SAVE\nname: foo\ndescription: do foo\nbody:\nrun foo\n--- BEGIN FILE: a.py ---\nx\n--- END FILE ---\n--- BEGIN FILE: SKILL.md ---\nno version\n--- END FILE ---";
    let events = || {
        vec![
            turn("hi", "there"),
            EvalEvent::Listed(Vec::new()),
            replied(reply),
            EvalEvent::DirExists(false),
            EvalEvent::DirCreated(true),
        ]
    };
    let (skill_md, names, notice) = written(events());
    assert!(skill_md.contains("\nversion: 0.1.0\n"));
    assert_eq!(names, vec!["a.py", "SKILL.md"]);
    assert_eq!(
        notice,
        "\u{1F4BE} Skill `foo` created (2 file(s): a.py, SKILL.md).\n_do foo_"
    );
    match run(events()).1 {
        EvalCommand::Write { files, .. } => assert_eq!(files[1].content, "no version\n"),
        _ => panic!("expected a write"),
    }
}

#[test]
fn updates_are_counted() {
    let (mut skill_md, _, _) = written(vec![
        turn("hi", "there"),
        EvalEvent::Listed(Vec::new()),
        replied(SAVE),
        EvalEvent::DirExists(false),
        EvalEvent::DirCreated(true),
    ]);
    for k in 1..=12 {
        let (next, _, _) = written(vec![
            turn("hi", "there"),
            EvalEvent::Listed(Vec::new()),
            replied(UPDATE),
            EvalEvent::DirExists(true),
            EvalEvent::OldSkill(Some(skill_md)),
        ]);
        assert_eq!(current_version(&next), Some((0, 1, k)));
        skill_md = next;
    }
}

#[test]
fn the_hook_stops_where_it_must() {
    let asked = || vec![turn("hi", "there"), EvalEvent::Listed(Vec::new())];
    let with = |more: Vec<EvalEvent>| {
        let mut events = asked();
        events.extend(more);
        stop_reason(&run(events).1)
    };
    assert_eq!(stop_reason(&run(vec![turn(" ", "x")]).1), Some(StopReason::BlankTurn));
    assert_eq!(stop_reason(&run(vec![turn("x", "\n")]).1), Some(StopReason::BlankTurn));
    assert_eq!(with(vec![EvalEvent::CallFailed]), Some(StopReason::CallFailed));
    assert_eq!(with(vec![EvalEvent::TimedOut]), Some(StopReason::TimedOut));
    assert_eq!(with(vec![replied("NONE")]), Some(StopReason::NothingToDo));
    assert_eq!(
        with(vec![replied(SAVE), EvalEvent::DirExists(true)]),
        Some(StopReason::SkillExists)
    );
    assert_eq!(
        with(vec![replied(UPDATE), EvalEvent::DirExists(false)]),
        Some(StopReason::NoSuchSkill)
    );
    assert_eq!(
        with(vec![replied(SAVE), EvalEvent::DirExists(false), EvalEvent::DirCreated(false)]),
        Some(StopReason::DirectoryFailed)
    );
    assert_eq!(with(vec![EvalEvent::Written]), Some(StopReason::OutOfTurn));
}
