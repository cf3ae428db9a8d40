//! Serializing the control-flow subset of a script.
//!
//! `label`, `jump`, `set` and `if` lines carry the whole control-flow
//! structure of a script: its jump targets, assignments and branches.  This
//! module writes those instructions back out as source lines, and proves
//! the round trip: parsing what was serialized reproduces the instruction
//! sequence exactly, order and targets preserved, provided names and
//! expressions are plain enough to survive the line grammar (see
//! [`flow_wf`]).

use vstd::prelude::*;
use vstd::string::{StrSliceExecFns, StringExecFns};
use crate::instruction::{Instruction, InstrModel, instrs_of};
use crate::parse::{
    LineModel, parse_lines_from, spec_parse_line, spec_parse_script, spec_parse_warnings,
    spec_split_lines, warn_lines_from,
};
use crate::strutil::{
    is_space_char, lemma_find_first_at, lemma_find_first_none, lemma_find_last_at,
    lemma_starts_with_char_at, lemma_trim_id, occurs_at, spec_find_first, spec_starts_with,
    spec_trim,
};

verus! {

/// The control-flow instructions: what serialization covers.
pub open spec fn is_flow_instr(m: InstrModel) -> bool {
    match m {
        InstrModel::Label(_) => true,
        InstrModel::JumpLabel(_) => true,
        InstrModel::SetVar { .. } => true,
        InstrModel::IfJump { .. } => true,
        _ => false,
    }
}

/// The source line a control-flow instruction serializes to; anything else
/// serializes to nothing.
pub open spec fn render_instr(m: InstrModel) -> Seq<char> {
    match m {
        InstrModel::Label(name) => "label "@ + name,
        InstrModel::JumpLabel(target) => "jump "@ + target,
        InstrModel::SetVar { name, expression } => "set "@ + name + " = "@ + expression,
        InstrModel::IfJump { condition, target } => "if "@ + condition + " jump "@ + target,
        _ => Seq::empty(),
    }
}

/// The source text of the instructions from `i` on, one line each, joined
/// with newlines.
pub open spec fn render_from(ms: Seq<InstrModel>, i: int) -> Seq<char>
    decreases ms.len() - i,
{
    if i < 0 || i >= ms.len() {
        Seq::empty()
    } else if i == ms.len() - 1 {
        render_instr(ms[i])
    } else {
        render_instr(ms[i]) + "\n"@ + render_from(ms, i + 1)
    }
}

/// The source text of a whole instruction sequence.
pub open spec fn render_script(ms: Seq<InstrModel>) -> Seq<char> {
    render_from(ms, 0)
}

/// The control-flow subset of a sequence, from `i` on, order preserved.
pub open spec fn flow_from(ms: Seq<InstrModel>, i: int) -> Seq<InstrModel>
    decreases ms.len() - i,
{
    if i < 0 || i >= ms.len() {
        Seq::empty()
    } else if is_flow_instr(ms[i]) {
        seq![ms[i]] + flow_from(ms, i + 1)
    } else {
        flow_from(ms, i + 1)
    }
}

/// A name that survives the line grammar: nonempty, no whitespace, no
/// newline.
pub open spec fn plain_word(s: Seq<char>) -> bool {
    s.len() > 0 && forall|i: int|
        0 <= i < s.len() ==> !is_space_char(#[trigger] s[i]) && s[i] != '\n'
}

/// An expression that survives the line grammar: nonempty, single-line,
/// with no whitespace at either end (it may hold spaces inside).
pub open spec fn plain_expr(s: Seq<char>) -> bool {
    s.len() > 0 && !is_space_char(s[0]) && !is_space_char(s[s.len() - 1]) && forall|i: int|
        0 <= i < s.len() ==> #[trigger] s[i] != '\n'
}

/// A control-flow instruction whose serialization parses back to itself:
/// names and targets are plain words, expressions are plain, and an `if`
/// condition does not itself contain the ` jump ` separator.
pub open spec fn flow_wf(m: InstrModel) -> bool {
    match m {
        InstrModel::Label(name) => plain_word(name),
        InstrModel::JumpLabel(target) => plain_word(target),
        InstrModel::SetVar { name, expression } => plain_word(name) && plain_expr(expression),
        InstrModel::IfJump { condition, target } => plain_expr(condition) && plain_word(target)
            && forall|q: int| !occurs_at(condition, " jump "@, q),
        _ => false,
    }
}

/// Serialize one instruction; only the control-flow kinds have a line.
pub fn render_instruction(instr: &Instruction) -> (r: Option<String>)
    ensures
        match r {
            Some(s) => is_flow_instr(instr@) && s@ == render_instr(instr@),
            None => !is_flow_instr(instr@),
        },
{
    match instr {
        Instruction::Label(name) => {
            let mut s = ("label ").to_owned();
            s.append(name.as_str());
            Some(s)
        },
        Instruction::JumpLabel(target) => {
            let mut s = ("jump ").to_owned();
            s.append(target.as_str());
            Some(s)
        },
        Instruction::SetVar { name, expression } => {
            let mut s = ("set ").to_owned();
            s.append(name.as_str());
            s.append(" = ");
            s.append(expression.as_str());
            Some(s)
        },
        Instruction::IfJump { condition, target } => {
            let mut s = ("if ").to_owned();
            s.append(condition.as_str());
            s.append(" jump ");
            s.append(target.as_str());
            Some(s)
        },
        _ => None,
    }
}

fn render_rows(flows: &Vec<Instruction>, i: usize) -> (r: String)
    requires
        i <= flows@.len(),
    ensures
        r@ == render_from(instrs_of(flows@), i as int),
    decreases flows@.len() - i,
{
    proof {
        assert(instrs_of(flows@).len() == flows@.len());
    }
    if i >= flows.len() {
        return String::new();
    }
    proof {
        assert(instrs_of(flows@)[i as int] == flows@[i as int]@);
    }
    let line = match render_instruction(&flows[i]) {
        Some(s) => s,
        None => String::new(),
    };
    if i == flows.len() - 1 {
        line
    } else {
        let mut s = line;
        s.append("\n");
        let rest = render_rows(flows, i + 1);
        s.append(rest.as_str());
        s
    }
}

/// Serialize the control-flow subset of a script: one line per `label`,
/// `jump`, `set` and `if` instruction, in order, joined with newlines.
pub fn render_flow_script(instrs: &Vec<Instruction>) -> (r: String)
    ensures
        r@ == render_script(flow_from(instrs_of(instrs@), 0)),
{
    let mut flows: Vec<Instruction> = Vec::new();
    let n = instrs.len();
    let mut i: usize = 0;
    proof {
        assert(instrs_of(flows@) =~= Seq::<InstrModel>::empty());
        assert(Seq::<InstrModel>::empty() + flow_from(instrs_of(instrs@), 0) =~= flow_from(
            instrs_of(instrs@),
            0,
        ));
    }
    while i < n
        invariant
            n == instrs@.len(),
            i <= n,
            instrs_of(flows@) + flow_from(instrs_of(instrs@), i as int) == flow_from(
                instrs_of(instrs@),
                0,
            ),
        decreases n - i,
    {
        proof {
            assert(instrs_of(instrs@)[i as int] == instrs@[i as int]@);
        }
        match render_instruction(&instrs[i]) {
            Some(_) => {
                let copy = crate::instruction::clone_instr(&instrs[i]);
                let ghost prev = flows@;
                flows.push(copy);
                proof {
                    assert(instrs_of(flows@) =~= instrs_of(prev).push(instrs@[i as int]@));
                    assert(instrs_of(prev).push(instrs@[i as int]@) + flow_from(
                        instrs_of(instrs@),
                        i + 1,
                    ) =~= instrs_of(prev) + (seq![instrs@[i as int]@] + flow_from(
                        instrs_of(instrs@),
                        i + 1,
                    )));
                }
            },
            None => {},
        }
        i += 1;
    }
    proof {
        assert(flow_from(instrs_of(instrs@), n as int) =~= Seq::<InstrModel>::empty());
        assert(instrs_of(flows@) + Seq::<InstrModel>::empty() =~= instrs_of(flows@));
    }
    render_rows(&flows, 0)
}

proof fn lemma_label_round_trip(name: Seq<char>)
    requires
        plain_word(name),
    ensures
        spec_parse_line("label "@ + name) == LineModel::Parsed(InstrModel::Label(name)),
        ("label "@ + name).len() > 0,
        forall|i: int| 0 <= i < ("label "@ + name).len() ==> ("label "@ + name)[i] != '\n',
{
    reveal_strlit("label ");
    let line = "label "@ + name;
    assert(forall|i: int| 0 <= i < line.len() ==> #[trigger] line[i] != '\n') by {
        assert(forall|i: int| 0 <= i < 6 ==> #[trigger] line[i] == "label "@[i]);
        assert(forall|i: int| 6 <= i < line.len() ==> #[trigger] line[i] == name[i - 6]);
    }
    assert(line[0] == 'l');
    assert(line[line.len() - 1] == name[name.len() - 1]);
    lemma_trim_id(line);
    assert(spec_starts_with(line, "label "@)) by {
        assert(line.subrange(0, 6) =~= "label "@);
    }
    assert(line.skip(6) =~= name);
    lemma_trim_id(name);
}

proof fn lemma_jump_round_trip(target: Seq<char>)
    requires
        plain_word(target),
    ensures
        spec_parse_line("jump "@ + target) == LineModel::Parsed(InstrModel::JumpLabel(target)),
        ("jump "@ + target).len() > 0,
        forall|i: int| 0 <= i < ("jump "@ + target).len() ==> ("jump "@ + target)[i] != '\n',
{
    reveal_strlit("jump ");
    reveal_strlit("label ");
    reveal_strlit("say ");
    let line = "jump "@ + target;
    assert(forall|i: int| 0 <= i < line.len() ==> #[trigger] line[i] != '\n') by {
        assert(forall|i: int| 0 <= i < 5 ==> #[trigger] line[i] == "jump "@[i]);
        assert(forall|i: int| 5 <= i < line.len() ==> #[trigger] line[i] == target[i - 5]);
    }
    assert(line[0] == 'j');
    assert(line[line.len() - 1] == target[target.len() - 1]);
    lemma_trim_id(line);
    assert(!spec_starts_with(line, "label "@)) by {
        if spec_starts_with(line, "label "@) {
            lemma_starts_with_char_at(line, "label "@, 0);
        }
    }
    assert(!spec_starts_with(line, "say "@)) by {
        if spec_starts_with(line, "say "@) {
            lemma_starts_with_char_at(line, "say "@, 0);
        }
    }
    assert(spec_starts_with(line, "jump "@)) by {
        assert(line.subrange(0, 5) =~= "jump "@);
    }
    assert(line.skip(5) =~= target);
    lemma_trim_id(target);
}

proof fn lemma_set_round_trip(name: Seq<char>, expression: Seq<char>)
    requires
        plain_word(name),
        plain_expr(expression),
    ensures
        spec_parse_line("set "@ + name + " = "@ + expression) == LineModel::Parsed(
            InstrModel::SetVar { name, expression },
        ),
        ("set "@ + name + " = "@ + expression).len() > 0,
        forall|i: int|
            0 <= i < ("set "@ + name + " = "@ + expression).len() ==> ("set "@ + name + " = "@
                + expression)[i] != '\n',
{
    reveal_strlit("set ");
    reveal_strlit("label ");
    reveal_strlit("say ");
    reveal_strlit("jump ");
    reveal_strlit(" = ");
    reveal_strlit(" ");
    let line = "set "@ + name + " = "@ + expression;
    let nl = name.len() as int;
    let el = expression.len() as int;
    assert(line.len() == 7 + nl + el);
    assert(forall|i: int| 0 <= i < 4 ==> #[trigger] line[i] == "set "@[i]);
    assert(forall|i: int| 4 <= i < 4 + nl ==> #[trigger] line[i] == name[i - 4]);
    assert(forall|i: int| 4 + nl <= i < 7 + nl ==> #[trigger] line[i] == " = "@[i - 4 - nl]);
    assert(forall|i: int| 7 + nl <= i < line.len() ==> #[trigger] line[i] == expression[i - 7
        - nl]);
    assert(forall|i: int| 0 <= i < line.len() ==> #[trigger] line[i] != '\n');
    assert(line[0] == 's');
    assert(line[line.len() - 1] == expression[el - 1]);
    lemma_trim_id(line);
    assert(!spec_starts_with(line, "label "@)) by {
        if spec_starts_with(line, "label "@) {
            lemma_starts_with_char_at(line, "label "@, 0);
        }
    }
    assert(!spec_starts_with(line, "say "@)) by {
        if spec_starts_with(line, "say "@) {
            lemma_starts_with_char_at(line, "say "@, 1);
        }
    }
    assert(!spec_starts_with(line, "jump "@)) by {
        if spec_starts_with(line, "jump "@) {
            lemma_starts_with_char_at(line, "jump "@, 0);
        }
    }
    assert(spec_starts_with(line, "set "@)) by {
        assert(line.subrange(0, 4) =~= "set "@);
    }
    // the sub-grammar of `set`
    let rest = line.skip(4);
    assert(rest =~= name + " = "@ + expression);
    let r = name + " = "@ + expression;
    assert(r[0] == name[0]);
    assert(r[r.len() - 1] == expression[el - 1]);
    lemma_trim_id(r);
    assert(occurs_at(r, " "@, nl)) by {
        assert(r.subrange(nl, nl + 1) =~= " "@);
    }
    assert(forall|q: int| 0 <= q < nl ==> !occurs_at(r, " "@, q)) by {
        assert forall|q: int| 0 <= q < nl implies !occurs_at(r, " "@, q) by {
            if occurs_at(r, " "@, q) {
                assert(r.subrange(q, q + 1)[0] == r[q]);
                assert(r[q] == name[q]);
            }
        }
    }
    lemma_find_first_at(r, " "@, nl);
    assert(r.subrange(0, nl) =~= name);
    let after_raw = r.skip(nl + 1);
    assert(after_raw =~= seq!['='] + (seq![' '] + expression));
    let after = seq!['='] + (seq![' '] + expression);
    assert(after[0] == '=');
    assert(after[after.len() - 1] == expression[el - 1]);
    lemma_trim_id(after);
    let etail = after.skip(1);
    assert(etail =~= seq![' '] + expression);
    let sp_expr = seq![' '] + expression;
    assert(forall|j: int| 1 <= j < sp_expr.len() ==> #[trigger] sp_expr[j] == expression[j - 1]);
    crate::strutil::lemma_trim_front_is_subrange(sp_expr, 1);
    assert(sp_expr.subrange(1, sp_expr.len() as int) =~= expression);
    crate::strutil::lemma_trim_back_is_subrange(expression, el);
    assert(expression.subrange(0, el) =~= expression);
    assert(spec_trim(sp_expr) == expression);
}

#[verifier::rlimit(100)]
proof fn lemma_if_round_trip(condition: Seq<char>, target: Seq<char>)
    requires
        plain_expr(condition),
        plain_word(target),
        forall|q: int| !occurs_at(condition, " jump "@, q),
    ensures
        spec_parse_line("if "@ + condition + " jump "@ + target) == LineModel::Parsed(
            InstrModel::IfJump { condition, target },
        ),
        ("if "@ + condition + " jump "@ + target).len() > 0,
        forall|i: int|
            0 <= i < ("if "@ + condition + " jump "@ + target).len() ==> ("if "@ + condition
                + " jump "@ + target)[i] != '\n',
{
    reveal_strlit("if ");
    reveal_strlit("label ");
    reveal_strlit("say ");
    reveal_strlit("jump ");
    reveal_strlit("set ");
    reveal_strlit(" jump ");
    reveal_strlit(" ");
    let line = "if "@ + condition + " jump "@ + target;
    let cl = condition.len() as int;
    let tl = target.len() as int;
    assert(line.len() == 9 + cl + tl);
    assert(forall|i: int| 0 <= i < 3 ==> #[trigger] line[i] == "if "@[i]);
    assert(forall|i: int| 3 <= i < 3 + cl ==> #[trigger] line[i] == condition[i - 3]);
    assert(forall|i: int| 3 + cl <= i < 9 + cl ==> #[trigger] line[i] == " jump "@[i - 3 - cl]);
    assert(forall|i: int| 9 + cl <= i < line.len() ==> #[trigger] line[i] == target[i - 9 - cl]);
    assert(forall|i: int| 0 <= i < line.len() ==> #[trigger] line[i] != '\n');
    assert(line[0] == 'i');
    assert(line[line.len() - 1] == target[tl - 1]);
    lemma_trim_id(line);
    assert(!spec_starts_with(line, "label "@)) by {
        if spec_starts_with(line, "label "@) {
            lemma_starts_with_char_at(line, "label "@, 0);
        }
    }
    assert(!spec_starts_with(line, "say "@)) by {
        if spec_starts_with(line, "say "@) {
            lemma_starts_with_char_at(line, "say "@, 0);
        }
    }
    assert(!spec_starts_with(line, "jump "@)) by {
        if spec_starts_with(line, "jump "@) {
            lemma_starts_with_char_at(line, "jump "@, 0);
        }
    }
    assert(!spec_starts_with(line, "set "@)) by {
        if spec_starts_with(line, "set "@) {
            lemma_starts_with_char_at(line, "set "@, 0);
        }
    }
    assert(spec_starts_with(line, "if "@)) by {
        assert(line.subrange(0, 3) =~= "if "@);
    }
    // the sub-grammar of `if`
    let rest = line.skip(3);
    assert(rest =~= condition + " jump "@ + target);
    let r = condition + " jump "@ + target;
    assert(r.len() == cl + 6 + tl);
    assert(forall|i: int| 0 <= i < cl ==> #[trigger] r[i] == condition[i]);
    assert(forall|i: int| cl <= i < cl + 6 ==> #[trigger] r[i] == " jump "@[i - cl]);
    assert(forall|i: int| cl + 6 <= i < r.len() ==> #[trigger] r[i] == target[i - cl - 6]);
    assert(r[0] == condition[0]);
    assert(r[r.len() - 1] == target[tl - 1]);
    lemma_trim_id(r);
    assert(occurs_at(r, " jump "@, cl)) by {
        assert(r.subrange(cl, cl + 6) =~= " jump "@);
    }
    assert(forall|q: int| cl < q <= r.len() - 6 ==> !occurs_at(r, " jump "@, q)) by {
        assert forall|q: int| cl < q <= r.len() - 6 implies !occurs_at(r, " jump "@, q) by {
            if occurs_at(r, " jump "@, q) {
                assert(r.subrange(q, q + 6)[0] == r[q]);
                assert(r[q] == " jump "@[0]);
                if q <= cl + 4 {
                    // inside the separator's letters: no space there
                    assert(r[q] == " jump "@[q - cl]);
                } else if q == cl + 5 {
                    // the space before the target: the window's last
                    // character would have to be a space inside the target
                    assert(r.subrange(q, q + 6)[5] == r[q + 5]);
                    assert(r[q + 5] == " jump "@[5]);
                    assert(r[cl + 10] == target[4]);
                } else {
                    // inside the target: no space there
                    assert(r[q] == target[q - cl - 6]);
                }
            }
        }
    }
    lemma_find_last_at(r, " jump "@, cl);
    assert(r.subrange(0, cl) =~= condition);
    lemma_trim_id(condition);
    assert(r.skip(cl + 6) =~= target);
    lemma_trim_id(target);
    assert(spec_find_first(target, " "@) is None) by {
        assert(forall|q: int| 0 <= q ==> !occurs_at(target, " "@, q)) by {
            assert forall|q: int| 0 <= q implies !occurs_at(target, " "@, q) by {
                if occurs_at(target, " "@, q) {
                    assert(target.subrange(q, q + 1)[0] == target[q]);
                }
            }
        }
        lemma_find_first_none(target, " "@);
    }
}

/// Every well-formed control-flow line parses back to its instruction.
proof fn lemma_render_line_ok(m: InstrModel)
    requires
        flow_wf(m),
    ensures
        spec_parse_line(render_instr(m)) == LineModel::Parsed(m),
        render_instr(m).len() > 0,
        forall|i: int| 0 <= i < render_instr(m).len() ==> render_instr(m)[i] != '\n',
{
    match m {
        InstrModel::Label(name) => lemma_label_round_trip(name),
        InstrModel::JumpLabel(target) => lemma_jump_round_trip(target),
        InstrModel::SetVar { name, expression } => lemma_set_round_trip(name, expression),
        InstrModel::IfJump { condition, target } => lemma_if_round_trip(condition, target),
        _ => {},
    }
}

proof fn lemma_split_rendered(ms: Seq<InstrModel>, i: int)
    requires
        forall|j: int| 0 <= j < ms.len() ==> flow_wf(#[trigger] ms[j]),
        0 <= i < ms.len(),
    ensures
        spec_split_lines(render_from(ms, i)) == Seq::new(
            (ms.len() - i) as nat,
            |j: int| render_instr(ms[i + j]),
        ),
    decreases ms.len() - i,
{
    reveal_strlit("\n");
    let target = Seq::new((ms.len() - i) as nat, |j: int| render_instr(ms[i + j]));
    lemma_render_line_ok(ms[i]);
    let line = render_instr(ms[i]);
    if i == ms.len() - 1 {
        assert(forall|q: int| 0 <= q ==> !occurs_at(line, "\n"@, q)) by {
            assert forall|q: int| 0 <= q implies !occurs_at(line, "\n"@, q) by {
                if occurs_at(line, "\n"@, q) {
                    assert(line.subrange(q, q + 1)[0] == line[q]);
                }
            }
        }
        lemma_find_first_none(line, "\n"@);
        assert(spec_split_lines(line) =~= target);
    } else {
        lemma_split_rendered(ms, i + 1);
        let rest = render_from(ms, i + 1);
        let s = line + "\n"@ + rest;
        let ll = line.len() as int;
        assert(forall|q: int| 0 <= q < ll ==> #[trigger] s[q] == line[q]);
        assert(s[ll] == '\n');
        assert(occurs_at(s, "\n"@, ll)) by {
            assert(s.subrange(ll, ll + 1) =~= "\n"@);
        }
        assert(forall|q: int| 0 <= q < ll ==> !occurs_at(s, "\n"@, q)) by {
            assert forall|q: int| 0 <= q < ll implies !occurs_at(s, "\n"@, q) by {
                if occurs_at(s, "\n"@, q) {
                    assert(s.subrange(q, q + 1)[0] == s[q]);
                }
            }
        }
        lemma_find_first_at(s, "\n"@, ll);
        assert(s.subrange(0, ll) =~= line);
        assert(s.skip(ll + 1) =~= rest);
        assert(spec_split_lines(s) == seq![line] + spec_split_lines(rest));
        assert(seq![line] + Seq::new(
            (ms.len() - i - 1) as nat,
            |j: int| render_instr(ms[i + 1 + j]),
        ) =~= target);
    }
}

proof fn lemma_parse_rendered_lines(
    ms: Seq<InstrModel>,
    lines: Seq<Seq<char>>,
    j: int,
    acc: Seq<InstrModel>,
    wacc: Seq<Seq<char>>,
)
    requires
        lines == Seq::new(ms.len(), |t: int| render_instr(ms[t])),
        forall|t: int| 0 <= t < ms.len() ==> flow_wf(#[trigger] ms[t]),
        0 <= j <= ms.len(),
    ensures
        parse_lines_from(lines, j, acc) == acc + ms.skip(j),
        warn_lines_from(lines, j, wacc) == wacc,
    decreases ms.len() - j,
{
    if j < ms.len() {
        lemma_render_line_ok(ms[j]);
        assert(lines[j] == render_instr(ms[j]));
        lemma_parse_rendered_lines(ms, lines, j + 1, acc.push(ms[j]), wacc);
        assert(acc.push(ms[j]) + ms.skip(j + 1) =~= acc + ms.skip(j));
    } else {
        assert(acc + ms.skip(j) =~= acc);
    }
}

/// Round trip: parsing the serialized control-flow subset reproduces the
/// instruction sequence exactly — order, names, expressions and jump
/// targets preserved — and the parse raises no warnings.  It holds for
/// every sequence of well-formed control-flow instructions ([`flow_wf`]:
/// names are plain words, expressions plain and free of the ` jump `
/// separator).
pub proof fn lemma_parse_render_round_trip(ms: Seq<InstrModel>)
    requires
        forall|i: int| 0 <= i < ms.len() ==> flow_wf(#[trigger] ms[i]),
    ensures
        spec_parse_script(render_script(ms)) == ms,
        spec_parse_warnings(render_script(ms)) == Seq::<Seq<char>>::empty(),
{
    if ms.len() == 0 {
        reveal_strlit("\n");
        let s = render_script(ms);
        assert(s =~= Seq::<char>::empty());
        assert(spec_split_lines(s) == seq![s]);
        assert(spec_trim(s) == s);
        assert(spec_parse_line(s) == LineModel::Skip);
        assert(parse_lines_from(seq![s], 1, Seq::<InstrModel>::empty())
            == Seq::<InstrModel>::empty());
        assert(warn_lines_from(seq![s], 1, Seq::<Seq<char>>::empty())
            == Seq::<Seq<char>>::empty());
        assert(spec_parse_script(s) =~= ms);
    } else {
        lemma_split_rendered(ms, 0);
        let lines = Seq::new(ms.len(), |t: int| render_instr(ms[t]));
        assert(Seq::new(ms.len(), |j: int| render_instr(ms[0 + j])) =~= lines);
        lemma_parse_rendered_lines(ms, lines, 0, Seq::empty(), Seq::empty());
        assert(Seq::<InstrModel>::empty() + ms.skip(0) =~= ms);
    }
}

} // verus!
