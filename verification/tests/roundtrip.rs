use vn_script::instruction::Instruction;
use vn_script::parse::parse_script;
use vn_script::render::{render_flow_script, render_instruction};

/// Structural equality of control-flow instructions (the library's types
/// carry no `PartialEq`, the contracts speak through views instead).
fn flow_eq(a: &Instruction, b: &Instruction) -> bool {
    match (a, b) {
        (Instruction::Label(x), Instruction::Label(y)) => x == y,
        (Instruction::JumpLabel(x), Instruction::JumpLabel(y)) => x == y,
        (
            Instruction::SetVar {
                name: n1,
                expression: e1,
            },
            Instruction::SetVar {
                name: n2,
                expression: e2,
            },
        ) => n1 == n2 && e1 == e2,
        (
            Instruction::IfJump {
                condition: c1,
                target: t1,
            },
            Instruction::IfJump {
                condition: c2,
                target: t2,
            },
        ) => c1 == c2 && t1 == t2,
        _ => false,
    }
}

fn is_flow(i: &Instruction) -> bool {
    matches!(
        i,
        Instruction::Label(_)
            | Instruction::JumpLabel(_)
            | Instruction::SetVar { .. }
            | Instruction::IfJump { .. }
    )
}

#[test]
fn parse_then_render_then_parse_reproduces_the_flow_subset() {
    let source = "label start\nsay Welcome!\nset score = 0\nshow alice happy left\nif score >= 10 jump finale\njump start\nlabel finale\nsay The end.";
    let first = parse_script(source);
    let text = render_flow_script(&first.instructions);
    let second = parse_script(&text);
    assert_eq!(second.warnings.len(), 0);

    let flow: Vec<&Instruction> = first.instructions.iter().filter(|i| is_flow(i)).collect();
    assert_eq!(flow.len(), second.instructions.len());
    for (a, b) in flow.iter().zip(second.instructions.iter()) {
        assert!(flow_eq(a, b), "mismatch: {:?} vs {:?}", a, b);
    }
}

#[test]
fn rendered_lines_are_the_canonical_forms() {
    let parsed = parse_script("label a\nset x = 1 + 2\nif x == 3 jump a\njump a");
    let text = render_flow_script(&parsed.instructions);
    assert_eq!(text, "label a\nset x = 1 + 2\nif x == 3 jump a\njump a");
}

#[test]
fn only_control_flow_instructions_have_a_line() {
    let say = Instruction::Say {
        speaker: None,
        text: "hi".to_string(),
    };
    assert!(render_instruction(&say).is_none());
    let jump = Instruction::JumpLabel("end".to_string());
    assert_eq!(render_instruction(&jump).as_deref(), Some("jump end"));
    let label = Instruction::Label("end".to_string());
    assert_eq!(render_instruction(&label).as_deref(), Some("label end"));
    let set = Instruction::SetVar {
        name: "x".to_string(),
        expression: "y % 2".to_string(),
    };
    assert_eq!(render_instruction(&set).as_deref(), Some("set x = y % 2"));
}

#[test]
fn empty_script_round_trips_to_nothing() {
    let parsed = parse_script("# only a comment");
    let text = render_flow_script(&parsed.instructions);
    assert_eq!(text, "");
    let again = parse_script(&text);
    assert_eq!(again.instructions.len(), 0);
    assert_eq!(again.warnings.len(), 0);
}
