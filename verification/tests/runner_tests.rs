use vn_script::instruction::{Command, Instruction};
use vn_script::parse::parse_script;
use vn_script::runner::ScriptRunner;
use vn_script::store::{Value, VarStore};

fn label(name: &str) -> Instruction {
    Instruction::Label(name.to_string())
}

fn say(text: &str) -> Instruction {
    Instruction::Say {
        speaker: None,
        text: text.to_string(),
    }
}

fn set_var(name: &str, expression: &str) -> Instruction {
    Instruction::SetVar {
        name: name.to_string(),
        expression: expression.to_string(),
    }
}

#[test]
fn rebuild_then_jump_lands_on_the_label() {
    let mut runner = ScriptRunner::new();
    runner.instructions = vec![
        say("one"),
        label("middle"),
        say("two"),
        label("end"),
    ];
    runner.rebuild_labels();
    runner.waiting = true;
    runner.jump_to_label("middle");
    assert_eq!(runner.ip, 1);
    assert!(!runner.waiting);
    runner.jump_to_label("end");
    assert_eq!(runner.ip, 3);
}

#[test]
fn jump_to_unknown_label_changes_nothing() {
    let mut runner = ScriptRunner::new();
    runner.instructions = vec![label("start")];
    runner.rebuild_labels();
    runner.ip = 0;
    runner.waiting = true;
    runner.jump_to_label("nowhere");
    assert_eq!(runner.ip, 0);
    assert!(runner.waiting);
}

#[test]
fn duplicate_labels_shadow_earlier_ones() {
    let mut runner = ScriptRunner::new();
    runner.instructions = vec![label("spot"), say("x"), label("spot")];
    runner.rebuild_labels();
    runner.jump_to_label("spot");
    assert_eq!(runner.ip, 2);
}

#[test]
fn set_var_applied_twice_yields_two() {
    let mut runner = ScriptRunner::new();
    let mut vars = VarStore::new();
    runner.load(vec![
        set_var("score", "score + 1"),
        set_var("score", "score + 1"),
    ]);
    assert!(runner.step(&mut vars).is_none());
    assert!(runner.step(&mut vars).is_none());
    assert_eq!(runner.ip, 2);
    match vars.get("score") {
        Some(Value::Num(raw)) => assert_eq!(*raw, 2_000_000),
        other => panic!("unexpected value: {:?}", other),
    }
}

#[test]
fn say_suspends_and_advance_resumes_past_it() {
    let mut runner = ScriptRunner::new();
    let mut vars = VarStore::new();
    runner.load(vec![say("hello"), say("world")]);
    match runner.step(&mut vars) {
        Some(Command::Line { speaker, text }) => {
            assert!(speaker.is_none());
            assert_eq!(text, "hello");
        }
        other => panic!("unexpected command: {:?}", other),
    }
    assert!(runner.waiting);
    assert_eq!(runner.ip, 0);
    // suspended: a tick does nothing
    assert!(runner.step(&mut vars).is_none());
    assert_eq!(runner.ip, 0);
    runner.advance();
    assert!(!runner.waiting);
    assert_eq!(runner.ip, 1);
}

#[test]
fn advance_while_running_is_a_no_op() {
    let mut runner = ScriptRunner::new();
    runner.load(vec![say("hello")]);
    let ip_before = runner.ip;
    runner.advance();
    assert_eq!(runner.ip, ip_before);
    assert!(!runner.waiting);
}

#[test]
fn choice_suspends_and_selection_jumps() {
    let mut runner = ScriptRunner::new();
    let mut vars = VarStore::new();
    let parsed = parse_script(
        "label start\nchoice Left -> left_path | Right -> right_path\nlabel left_path\nsay L\nlabel right_path\nsay R",
    );
    runner.load(parsed.instructions);
    assert!(runner.step(&mut vars).is_none()); // label start
    match runner.step(&mut vars) {
        Some(Command::AskChoice(options)) => assert_eq!(options.len(), 2),
        other => panic!("unexpected command: {:?}", other),
    }
    assert!(runner.waiting);

    // an out-of-range index must not crash and leaves the runner suspended
    runner.select_choice(5);
    assert!(runner.waiting);
    assert_eq!(runner.ip, 1);

    // a valid index jumps to the option's target and clears suspension
    runner.select_choice(1);
    assert!(!runner.waiting);
    assert_eq!(runner.ip, 4);
}

#[test]
fn jump_to_missing_label_does_not_hang() {
    let mut runner = ScriptRunner::new();
    let mut vars = VarStore::new();
    let parsed = parse_script("jump missing_label\nsay still here");
    runner.load(parsed.instructions);
    match runner.step(&mut vars) {
        Some(Command::LabelNotFound(name)) => assert_eq!(name, "missing_label"),
        other => panic!("unexpected command: {:?}", other),
    }
    assert_eq!(runner.ip, 1);
    match runner.step(&mut vars) {
        Some(Command::Line { text, .. }) => assert_eq!(text, "still here"),
        other => panic!("unexpected command: {:?}", other),
    }
}

#[test]
fn if_jump_takes_the_branch_only_when_nonzero() {
    let mut runner = ScriptRunner::new();
    let mut vars = VarStore::new();
    let parsed = parse_script(
        "set hp = 3\nif hp > 5 jump strong\nset weak = 1\nlabel strong\nset checked = 1",
    );
    runner.load(parsed.instructions);
    assert!(runner.step(&mut vars).is_none()); // set hp
    assert!(runner.step(&mut vars).is_none()); // if: 3 > 5 is false, falls through
    assert_eq!(runner.ip, 2);
    assert!(runner.step(&mut vars).is_none()); // set weak
    assert!(matches!(vars.get("weak"), Some(Value::Num(v)) if *v == 1_000_000));

    // now the condition holds
    let parsed = parse_script(
        "set hp = 9\nif hp > 5 jump strong\nset weak = 1\nlabel strong\nset checked = 1",
    );
    let mut vars = VarStore::new();
    runner.load(parsed.instructions);
    assert!(runner.step(&mut vars).is_none());
    assert!(runner.step(&mut vars).is_none()); // if: jumps
    assert_eq!(runner.ip, 3);
    assert!(vars.get("weak").is_none());
}

#[test]
fn presentation_instructions_become_commands_and_fall_through() {
    let mut runner = ScriptRunner::new();
    let mut vars = VarStore::new();
    let parsed = parse_script(
        "show alice happy right\nhide alice\nbg image=room.png\nmusic play a.ogg\nmusic stop\nsfx play b.wav",
    );
    runner.load(parsed.instructions);
    assert!(matches!(
        runner.step(&mut vars),
        Some(Command::ShowCharacter { .. })
    ));
    assert!(matches!(
        runner.step(&mut vars),
        Some(Command::HideCharacter { .. })
    ));
    assert!(matches!(runner.step(&mut vars), Some(Command::BgImage(_))));
    assert!(matches!(runner.step(&mut vars), Some(Command::MusicPlay(_))));
    assert!(matches!(runner.step(&mut vars), Some(Command::MusicStop)));
    assert!(matches!(runner.step(&mut vars), Some(Command::SfxPlay(_))));
    assert_eq!(runner.ip, 6);
    assert!(!runner.waiting);
}

#[test]
fn exhausted_runner_idles() {
    let mut runner = ScriptRunner::new();
    let mut vars = VarStore::new();
    runner.load(vec![set_var("x", "1")]);
    assert!(runner.step(&mut vars).is_none());
    assert_eq!(runner.ip, 1);
    // past the end: nothing happens, tick after tick
    assert!(runner.step(&mut vars).is_none());
    assert!(runner.step(&mut vars).is_none());
    assert_eq!(runner.ip, 1);
}

#[test]
fn reload_while_suspended_resets_everything() {
    let mut runner = ScriptRunner::new();
    let mut vars = VarStore::new();
    runner.load(vec![say("old script")]);
    runner.step(&mut vars);
    assert!(runner.waiting);
    runner.load(vec![label("fresh"), say("new script")]);
    assert!(!runner.waiting);
    assert_eq!(runner.ip, 0);
    assert!(runner.step(&mut vars).is_none()); // the new label, not the old say
    match runner.step(&mut vars) {
        Some(Command::Line { text, .. }) => assert_eq!(text, "new script"),
        other => panic!("unexpected command: {:?}", other),
    }
}

#[test]
fn set_var_normalizes_the_tag_to_num() {
    let mut runner = ScriptRunner::new();
    let mut vars = VarStore::new();
    vars.set("x", Value::Text("hello".to_string()));
    runner.load(vec![set_var("x", "2 + 2")]);
    runner.step(&mut vars);
    match vars.get("x") {
        Some(Value::Num(raw)) => assert_eq!(*raw, 4_000_000),
        other => panic!("unexpected value: {:?}", other),
    }
}
