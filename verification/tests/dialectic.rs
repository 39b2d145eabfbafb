use zeroclaw_runtime::agent::dialectic::{
    advance, build_question, distill_and_store, first_group, memory_key, parse_fact, parse_facts,
    short_id, DistillCommand, DistillEvent, DistillState, EndReason,
};
use zeroclaw_runtime::agent::turn::Turn;

fn fact(line: &str) -> Option<(String, String)> {
    parse_fact(line).map(|f| (f.key, f.value))
}

fn pair(key: &str, value: &str) -> Option<(String, String)> {
    Some((key.to_string(), value.to_string()))
}

#[test]
fn facts_are_read() {
    assert_eq!(fact("- current_project: ZeroClaw "), pair("current_project", "ZeroClaw"));
    assert_eq!(fact("* Deploys With : docker: compose"), pair("deploys_with", "docker: compose"));
    assert_eq!(fact("editor: vim"), pair("editor", "vim"));
    assert_eq!(fact("-editor: vim"), pair("_editor", "vim"));
    assert_eq!(fact("caf\u{e9}: x"), pair("caf_", "x"));
    assert_eq!(fact("no colon"), None);
    assert_eq!(fact(": value"), None);
    assert_eq!(fact("key:  "), None);
    assert_eq!(fact(""), None);
}

#[test]
fn list_marks_make_no_difference() {
    for item in ["editor: vim", "  editor: vim ", "\u{3000}a: b", "no colon", "", "  ", "-a: b"] {
        assert_eq!(fact(&format!("- {item}")), fact(item));
        assert_eq!(fact(&format!("* {item}")), fact(item));
    }
    // Only one mark is taken off.
    assert_eq!(fact("- a: b"), pair("a", "b"));
    assert_eq!(fact("- - a: b"), pair("__a", "b"));
}

#[test]
fn keys_and_values_are_bounded() {
    let key = "k".repeat(64);
    let value = "\u{e9}".repeat(120);
    assert_eq!(fact(&format!("{key}: {value}")), pair(&key, &value));
    assert_eq!(fact(&format!("k{key}: v")), None);
    assert_eq!(fact(&format!("k: {value}v")), None);
}

#[test]
fn replies_state_facts() {
    let keys = |raw: &str| -> Vec<String> { parse_facts(raw).into_iter().map(|f| f.key).collect() };
    assert!(keys("").is_empty());
    assert!(keys(" none \n").is_empty());
    assert!(keys("None \n- a: b").is_empty());
    assert_eq!(keys("\n- a: 1\nnoise\n\n* b: 2\nc: 3\n"), vec!["a", "b", "c"]);
    assert_eq!(keys("nothing: none"), vec!["nothing"]);
}

#[test]
fn identifiers_are_eight_hexadecimal_digits() {
    assert_eq!(first_group("0a1b2c3d-4e5f-4a6b-8c7d-9e0f1a2b3c4d"), "0a1b2c3d");
    assert_eq!(first_group("abc"), "x");
    let a = short_id();
    let b = short_id();
    for id in [&a, &b] {
        assert_eq!(id.len(), 8);
        assert!(id.chars().all(|c| c.is_ascii_digit() || ('a'..='f').contains(&c)));
    }
    assert_ne!(a, b);
    assert_eq!(memory_key("tg:1", "editor", "0a1b2c3d"), "dialectic_tg:1_editor_0a1b2c3d");
}

#[test]
fn the_question_is_truncated() {
    assert_eq!(
        build_question("hello", &"x".repeat(1501)),
        format!(
            "USER MESSAGE:\nhello\n\nASSISTANT REPLY:\n{}\u{2026}\n\nFacts:",
            "x".repeat(1500)
        )
    );
}

fn turn(user_msg: &str, assistant_reply: &str) -> DistillEvent {
    DistillEvent::Turn(Turn {
        user_msg: user_msg.to_string(),
        assistant_reply: assistant_reply.to_string(),
        sender: "tg:1".to_string(),
    })
}

fn stopped(command: &DistillCommand) -> Option<(EndReason, usize)> {
    match command {
        DistillCommand::Stop { reason, stored } => Some((*reason, *stored)),
        _ => None,
    }
}

#[test]
fn at_most_five_facts_are_stored() {
    let raw = "a: 1\nb: 2\nc: 3\nd: 4\ne: 5\nf: 6\ng: 7";
    let (state, ask) = advance(DistillState::Start, turn("hi", "there"), "id");
    match ask {
        DistillCommand::Ask { system, timeout_secs, .. } => {
            assert!(system.starts_with("You are a memory-distillation system."));
            assert_eq!(timeout_secs, 30);
        }
        _ => panic!("expected a question"),
    }
    let (mut state, mut command) = advance(state, DistillEvent::Replied(raw.to_string()), "id");
    let mut keys = Vec::new();
    loop {
        match &command {
            DistillCommand::Store { memory_key, sender, .. } => {
                assert_eq!(sender, "tg:1");
                keys.push(memory_key.clone());
            }
            _ => break,
        }
        // The second attempt fails.
        let ok = keys.len() != 2;
        let (next, wanted) = advance(state, DistillEvent::Stored(ok), "id");
        state = next;
        command = wanted;
    }
    assert_eq!(
        keys,
        vec![
            "dialectic_tg:1_a_id",
            "dialectic_tg:1_b_id",
            "dialectic_tg:1_c_id",
            "dialectic_tg:1_d_id",
            "dialectic_tg:1_e_id",
            "dialectic_tg:1_f_id",
        ]
    );
    assert_eq!(stopped(&command), Some((EndReason::Complete, 5)));
    let (_, after) = advance(state, DistillEvent::Stored(true), "id");
    assert_eq!(stopped(&after), Some((EndReason::OutOfTurn, 0)));
}

#[test]
fn memory_keys_end_in_an_identifier() {
    let (state, _) = distill_and_store(DistillState::Start, turn("hi", "there"));
    let (state, command) = distill_and_store(state, DistillEvent::Replied("- a: b".to_string()));
    match command {
        DistillCommand::Store { memory_key, value, .. } => {
            assert!(memory_key.starts_with("dialectic_tg:1_a_"));
            assert_eq!(memory_key.len(), "dialectic_tg:1_a_".len() + 8);
            assert_eq!(value, "b");
        }
        _ => panic!("expected a fact to store"),
    }
    let (_, command) = distill_and_store(state, DistillEvent::Stored(false));
    assert_eq!(stopped(&command), Some((EndReason::Complete, 0)));
}

#[test]
fn the_hook_ends_where_it_must() {
    let (_, command) = advance(DistillState::Start, turn("", "x"), "id");
    assert_eq!(stopped(&command), Some((EndReason::BlankTurn, 0)));
    let asking = || advance(DistillState::Start, turn("hi", "there"), "id").0;
    let end = |event: DistillEvent| stopped(&advance(asking(), event, "id").1);
    assert_eq!(end(DistillEvent::CallFailed), Some((EndReason::CallFailed, 0)));
    assert_eq!(end(DistillEvent::TimedOut), Some((EndReason::TimedOut, 0)));
    assert_eq!(end(DistillEvent::Replied("NONE".to_string())), Some((EndReason::Complete, 0)));
    assert_eq!(end(DistillEvent::Stored(true)), Some((EndReason::OutOfTurn, 0)));
}

#[test]
fn entries_belong_to_the_sender_of_the_turn() {
    let (state, _) = advance(DistillState::Start, turn("hi", "there"), "00000000");
    let raw = DistillEvent::Replied("- a: 1\n- a: 1".to_string());
    let (state, first) = advance(state, raw, "00000001");
    let (_, second) = advance(state, DistillEvent::Stored(true), "00000002");
    let entry = |command: DistillCommand| match command {
        DistillCommand::Store { memory_key, value, sender } => (memory_key, value, sender),
        _ => panic!("expected a fact to store"),
    };
    let texts = |key: &str| (key.to_string(), "1".to_string(), "tg:1".to_string());
    assert_eq!(entry(first), texts("dialectic_tg:1_a_00000001"));
    assert_eq!(entry(second), texts("dialectic_tg:1_a_00000002"));
}
