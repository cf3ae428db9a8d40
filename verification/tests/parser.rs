use vn_script::instruction::Instruction;
use vn_script::parse::parse_script;

#[test]
fn blank_lines_and_comments_are_skipped() {
    let parsed = parse_script("\n  \n# a comment\n   # indented comment\n");
    assert_eq!(parsed.instructions.len(), 0);
    assert_eq!(parsed.warnings.len(), 0);
}

#[test]
fn label_say_jump() {
    let parsed = parse_script("label start\nsay Hello there!\njump start\n");
    assert_eq!(parsed.instructions.len(), 3);
    match &parsed.instructions[0] {
        Instruction::Label(name) => assert_eq!(name, "start"),
        other => panic!("unexpected: {:?}", other),
    }
    match &parsed.instructions[1] {
        Instruction::Say { speaker, text } => {
            assert!(speaker.is_none());
            assert_eq!(text, "Hello there!");
        }
        other => panic!("unexpected: {:?}", other),
    }
    match &parsed.instructions[2] {
        Instruction::JumpLabel(target) => assert_eq!(target, "start"),
        other => panic!("unexpected: {:?}", other),
    }
}

#[test]
fn set_keeps_the_expression_verbatim() {
    let parsed = parse_script("set score = score + 1");
    assert_eq!(parsed.instructions.len(), 1);
    match &parsed.instructions[0] {
        Instruction::SetVar { name, expression } => {
            assert_eq!(name, "score");
            assert_eq!(expression, "score + 1");
        }
        other => panic!("unexpected: {:?}", other),
    }
}

#[test]
fn if_splits_at_the_last_jump() {
    let parsed = parse_script("if hp <= 0 jump dead");
    assert_eq!(parsed.instructions.len(), 1);
    match &parsed.instructions[0] {
        Instruction::IfJump { condition, target } => {
            assert_eq!(condition, "hp <= 0");
            assert_eq!(target, "dead");
        }
        other => panic!("unexpected: {:?}", other),
    }
}

#[test]
fn choice_options_split_on_pipe_and_arrow() {
    let parsed = parse_script("choice Go left -> left_path | Go right -> right_path");
    assert_eq!(parsed.instructions.len(), 1);
    match &parsed.instructions[0] {
        Instruction::Choice(options) => {
            assert_eq!(options.len(), 2);
            assert_eq!(options[0].0, "Go left");
            assert_eq!(options[0].1, "left_path");
            assert_eq!(options[1].0, "Go right");
            assert_eq!(options[1].1, "right_path");
        }
        other => panic!("unexpected: {:?}", other),
    }
}

#[test]
fn malformed_choice_options_are_dropped() {
    let parsed = parse_script("choice Stay -> here | broken option");
    match &parsed.instructions[0] {
        Instruction::Choice(options) => {
            assert_eq!(options.len(), 1);
            assert_eq!(options[0].1, "here");
        }
        other => panic!("unexpected: {:?}", other),
    }
}

#[test]
fn show_with_preset_and_parameters() {
    let parsed = parse_script("show alice happy left x=1.5 scale=2 rot=90 glow=3");
    assert_eq!(parsed.instructions.len(), 1);
    match &parsed.instructions[0] {
        Instruction::ShowCharacter {
            name,
            expression,
            params,
        } => {
            assert_eq!(name, "alice");
            assert_eq!(expression, "happy");
            assert_eq!(params.preset.as_deref(), Some("left"));
            assert_eq!(params.x, Some(1_500_000));
            assert_eq!(params.y, None);
            assert_eq!(params.scale, Some(2_000_000));
            assert_eq!(params.rotation_deg, Some(90_000_000));
        }
        other => panic!("unexpected: {:?}", other),
    }
    // the unknown key `glow=` was ignored silently
    assert_eq!(parsed.warnings.len(), 0);
}

#[test]
fn hide_and_backgrounds() {
    let parsed = parse_script("hide alice\nbg image=rooms/cafe.png\nbg color=#FF8000\nbg color=blue");
    assert_eq!(parsed.instructions.len(), 4);
    match &parsed.instructions[0] {
        Instruction::HideCharacter { name } => assert_eq!(name, "alice"),
        other => panic!("unexpected: {:?}", other),
    }
    match &parsed.instructions[1] {
        Instruction::BgImage(path) => assert_eq!(path, "rooms/cafe.png"),
        other => panic!("unexpected: {:?}", other),
    }
    match &parsed.instructions[2] {
        Instruction::BgColor(c) => {
            assert_eq!(c.red, 255);
            assert_eq!(c.green, 128);
            assert_eq!(c.blue, 0);
        }
        other => panic!("unexpected: {:?}", other),
    }
    match &parsed.instructions[3] {
        Instruction::BgColor(c) => {
            assert_eq!(c.red, 0);
            assert_eq!(c.green, 0);
            assert_eq!(c.blue, 255);
        }
        other => panic!("unexpected: {:?}", other),
    }
}

#[test]
fn music_and_sfx() {
    let parsed = parse_script("music play bgm/theme.ogg\nmusic stop\nsfx play click.wav");
    assert_eq!(parsed.instructions.len(), 3);
    assert!(matches!(&parsed.instructions[0], Instruction::MusicPlay(p) if p == "bgm/theme.ogg"));
    assert!(matches!(&parsed.instructions[1], Instruction::MusicStop));
    assert!(matches!(&parsed.instructions[2], Instruction::SfxPlay(p) if p == "click.wav"));
}

#[test]
fn unrecognized_lines_are_reported_and_parsing_continues() {
    let parsed = parse_script("label a\nfrobnicate everything\nbg color=chartreuse\nsay done");
    assert_eq!(parsed.instructions.len(), 2);
    assert_eq!(parsed.warnings.len(), 2);
    assert_eq!(parsed.warnings[0], "frobnicate everything");
    assert_eq!(parsed.warnings[1], "bg color=chartreuse");
    assert!(matches!(&parsed.instructions[1], Instruction::Say { .. }));
}

#[test]
fn indented_lines_are_trimmed() {
    let parsed = parse_script("   label start   \n\tsay hi\n");
    assert_eq!(parsed.instructions.len(), 2);
    assert!(matches!(&parsed.instructions[0], Instruction::Label(n) if n == "start"));
    assert!(matches!(&parsed.instructions[1], Instruction::Say { text, .. } if text == "hi"));
}
