//! The execution engine: a cooperatively stepped state machine.
//!
//! The runner holds the instruction sequence, a label table, a program
//! counter (`ip`) and a suspend flag (`waiting`).  Each host tick calls
//! [`ScriptRunner::step`], which performs one instruction's effect and hands
//! back at most one command for the host to carry out.  `say` and `choice`
//! suspend the runner; the host resumes it with [`ScriptRunner::advance`]
//! (dialogue) or [`ScriptRunner::select_choice`] (a picked option).  A jump
//! to a missing label is reported and stepped past, never an error: a broken
//! line must not take the session down.

use vstd::prelude::*;
use vstd::hash_map::StringHashMap;
use crate::expr::{eval, spec_eval};
use crate::instruction::{
    Command, CommandModel, Instruction, InstrModel, TransformParams, instrs_of, opt_cmd_of,
    opts_of,
};
use crate::store::{Value, VarStore};

verus! {

/// The label table a sequence of instructions defines, reading the first
/// `n` instructions: each `label` line maps its name to its own index, a
/// repeated name keeping the later occurrence.
pub open spec fn labels_up_to(instrs: Seq<InstrModel>, n: int) -> Map<Seq<char>, usize>
    decreases n,
{
    if n <= 0 {
        Map::empty()
    } else {
        let m = labels_up_to(instrs, n - 1);
        match instrs[n - 1] {
            InstrModel::Label(name) => m.insert(name, (n - 1) as usize),
            _ => m,
        }
    }
}

/// The label table of the whole sequence.
pub open spec fn spec_labels(instrs: Seq<InstrModel>) -> Map<Seq<char>, usize> {
    labels_up_to(instrs, instrs.len() as int)
}

proof fn lemma_labels_up_to_exact(instrs: Seq<InstrModel>, n: int, name: Seq<char>)
    requires
        0 <= n <= instrs.len(),
        instrs.len() <= usize::MAX,
        labels_up_to(instrs, n).contains_key(name),
    ensures
        ({
            let i = labels_up_to(instrs, n)[name] as int;
            0 <= i < n && instrs[i] == InstrModel::Label(name) && forall|j: int|
                i < j < n ==> instrs[j] != InstrModel::Label(name)
        }),
    decreases n,
{
    if n > 0 {
        match instrs[n - 1] {
            InstrModel::Label(nm) => {
                if nm != name {
                    lemma_labels_up_to_exact(instrs, n - 1, name);
                }
            },
            _ => {
                lemma_labels_up_to_exact(instrs, n - 1, name);
            },
        }
    }
}

/// After [`ScriptRunner::rebuild_labels`], the table is exact: every name
/// it holds maps to the index of a `label` line bearing that name — the
/// last one, under the shadowing rule — so a jump to an existing name sets
/// the pointer exactly to that label's index (and
/// [`ScriptRunner::jump_to_label`] then also clears suspension).
pub proof fn lemma_label_table_exact(instrs: Seq<InstrModel>, name: Seq<char>)
    requires
        instrs.len() <= usize::MAX,
        spec_labels(instrs).contains_key(name),
    ensures
        ({
            let i = spec_labels(instrs)[name] as int;
            0 <= i < instrs.len() && instrs[i] == InstrModel::Label(name) && forall|j: int|
                i < j < instrs.len() ==> instrs[j] != InstrModel::Label(name)
        }),
{
    lemma_labels_up_to_exact(instrs, instrs.len() as int, name);
}

proof fn lemma_labels_up_to_complete(instrs: Seq<InstrModel>, n: int, j: int, name: Seq<char>)
    requires
        0 <= j < n <= instrs.len(),
        instrs[j] == InstrModel::Label(name),
    ensures
        labels_up_to(instrs, n).contains_key(name),
    decreases n,
{
    if j < n - 1 {
        lemma_labels_up_to_complete(instrs, n - 1, j, name);
    }
}

/// The converse of [`lemma_label_table_exact`]: every name a `label` line
/// bears is in the table, so every label that exists can be jumped to.
pub proof fn lemma_label_table_complete(instrs: Seq<InstrModel>, j: int, name: Seq<char>)
    requires
        0 <= j < instrs.len(),
        instrs[j] == InstrModel::Label(name),
    ensures
        spec_labels(instrs).contains_key(name),
{
    lemma_labels_up_to_complete(instrs, instrs.len() as int, j, name);
}

/// What one step leaves behind: program counter, suspend flag, variables,
/// and the command handed to the host, if any.
pub struct StepModel {
    pub ip: int,
    pub waiting: bool,
    pub vars: Map<Seq<char>, Value>,
    pub cmd: Option<CommandModel>,
}

/// The effect of one tick on a runner in the given state.
///
/// Suspended or exhausted runners do nothing.  `say` and `choice` suspend
/// without advancing; the resume path moves past them.  Jumps move the
/// pointer to the label's index and clear suspension; a missing target is
/// reported and fallen past.  `set` writes the evaluated expression back as
/// a `Num`, whatever the variable's previous tag.  Presentation
/// instructions turn into their command and fall through.
pub open spec fn spec_step(
    instrs: Seq<InstrModel>,
    labels: Map<Seq<char>, usize>,
    ip: int,
    waiting: bool,
    vars: Map<Seq<char>, Value>,
) -> StepModel {
    if waiting || ip < 0 || ip >= instrs.len() {
        StepModel { ip, waiting, vars, cmd: None }
    } else {
        match instrs[ip] {
            InstrModel::Say { speaker, text } => StepModel {
                ip,
                waiting: true,
                vars,
                cmd: Some(CommandModel::Line { speaker, text }),
            },
            InstrModel::Label(_) => StepModel { ip: ip + 1, waiting, vars, cmd: None },
            InstrModel::JumpLabel(target) => if labels.contains_key(target) {
                StepModel { ip: labels[target] as int, waiting: false, vars, cmd: None }
            } else {
                StepModel {
                    ip: ip + 1,
                    waiting,
                    vars,
                    cmd: Some(CommandModel::LabelNotFound(target)),
                }
            },
            InstrModel::SetVar { name, expression } => StepModel {
                ip: ip + 1,
                waiting,
                vars: vars.insert(name, Value::Num(spec_eval(expression, vars) as i64)),
                cmd: None,
            },
            InstrModel::IfJump { condition, target } => if spec_eval(condition, vars) != 0 {
                if labels.contains_key(target) {
                    StepModel { ip: labels[target] as int, waiting: false, vars, cmd: None }
                } else {
                    StepModel {
                        ip: ip + 1,
                        waiting,
                        vars,
                        cmd: Some(CommandModel::LabelNotFound(target)),
                    }
                }
            } else {
                StepModel { ip: ip + 1, waiting, vars, cmd: None }
            },
            InstrModel::Choice(options) => StepModel {
                ip,
                waiting: true,
                vars,
                cmd: Some(CommandModel::AskChoice(options)),
            },
            InstrModel::ShowCharacter { name, expression, params } => StepModel {
                ip: ip + 1,
                waiting,
                vars,
                cmd: Some(CommandModel::ShowCharacter { name, expression, params }),
            },
            InstrModel::HideCharacter { name } => StepModel {
                ip: ip + 1,
                waiting,
                vars,
                cmd: Some(CommandModel::HideCharacter { name }),
            },
            InstrModel::BgImage(path) => StepModel {
                ip: ip + 1,
                waiting,
                vars,
                cmd: Some(CommandModel::BgImage(path)),
            },
            InstrModel::BgColor(color) => StepModel {
                ip: ip + 1,
                waiting,
                vars,
                cmd: Some(CommandModel::BgColor(color)),
            },
            InstrModel::MusicPlay(path) => StepModel {
                ip: ip + 1,
                waiting,
                vars,
                cmd: Some(CommandModel::MusicPlay(path)),
            },
            InstrModel::MusicStop => StepModel {
                ip: ip + 1,
                waiting,
                vars,
                cmd: Some(CommandModel::MusicStop),
            },
            InstrModel::SfxPlay(path) => StepModel {
                ip: ip + 1,
                waiting,
                vars,
                cmd: Some(CommandModel::SfxPlay(path)),
            },
        }
    }
}

/// The execution engine's state: instructions, label table, program
/// counter, suspend flag.
pub struct ScriptRunner {
    pub instructions: Vec<Instruction>,
    pub labels: StringHashMap<usize>,
    pub ip: usize,
    pub waiting: bool,
}

impl ScriptRunner {
    /// An empty runner: nothing loaded, not suspended.
    pub fn new() -> (r: ScriptRunner)
        ensures
            r.instructions@.len() == 0,
            r.labels@ == Map::<Seq<char>, usize>::empty(),
            r.ip == 0,
            r.waiting == false,
    {
        ScriptRunner {
            instructions: Vec::new(),
            labels: StringHashMap::new(),
            ip: 0,
            waiting: false,
        }
    }

    /// Rebuild the label table from the current instruction sequence;
    /// nothing else changes.  Must run whenever the sequence changes and
    /// before any jump is attempted.
    pub fn rebuild_labels(&mut self)
        ensures
            final(self).labels@ == spec_labels(instrs_of(old(self).instructions@)),
            final(self).instructions == old(self).instructions,
            final(self).ip == old(self).ip,
            final(self).waiting == old(self).waiting,
    {
        self.labels.clear();
        let n = self.instructions.len();
        let mut i: usize = 0;
        while i < n
            invariant
                n == self.instructions@.len(),
                i <= n,
                self.labels@ == labels_up_to(instrs_of(self.instructions@), i as int),
                self.instructions == old(self).instructions,
                self.ip == old(self).ip,
                self.waiting == old(self).waiting,
            decreases n - i,
        {
            proof {
                assert(instrs_of(self.instructions@)[i as int] == self.instructions@[i as int]@);
            }
            match &self.instructions[i] {
                Instruction::Label(name) => {
                    let key = name.clone();
                    self.labels.insert(key, i);
                },
                _ => {},
            }
            i += 1;
        }
    }

    /// Jump to a label: an existing name moves the pointer exactly to that
    /// label's index and clears suspension; an unknown name changes
    /// nothing.
    pub fn jump_to_label(&mut self, label: &str)
        ensures
            old(self).labels@.contains_key(label@) ==> final(self).ip == old(self).labels@[label@]
                && final(self).waiting == false,
            !old(self).labels@.contains_key(label@) ==> final(self).ip == old(self).ip
                && final(self).waiting == old(self).waiting,
            final(self).instructions == old(self).instructions,
            final(self).labels == old(self).labels,
    {
        match self.labels.get(label) {
            Some(pos) => {
                let pos = *pos;
                self.ip = pos;
                self.waiting = false;
            },
            None => {},
        }
    }

    /// Load a script: replace the sequence, rebuild the label table, reset
    /// the pointer to the start and clear suspension — atomically, so no
    /// instruction of an old script runs after a reload.
    pub fn load(&mut self, instructions: Vec<Instruction>)
        ensures
            final(self).instructions == instructions,
            final(self).labels@ == spec_labels(instrs_of(instructions@)),
            final(self).ip == 0,
            final(self).waiting == false,
    {
        self.instructions = instructions;
        self.rebuild_labels();
        self.ip = 0;
        self.waiting = false;
    }

    /// The dialogue resume signal: while suspended, clear suspension and
    /// move past the suspending instruction.  While not suspended this is
    /// a no-op with no state change.
    pub fn advance(&mut self)
        ensures
            !old(self).waiting ==> *final(self) == *old(self),
            old(self).waiting && old(self).ip < old(self).instructions@.len() ==> (final(
                self).waiting == false && final(self).ip == old(self).ip + 1),
            old(self).waiting && old(self).ip >= old(self).instructions@.len() ==> (final(
                self).waiting == false && final(self).ip == old(self).ip),
            final(self).instructions == old(self).instructions,
            final(self).labels == old(self).labels,
    {
        if self.waiting {
            self.waiting = false;
            if self.ip < self.instructions.len() {
                self.ip = self.ip + 1;
            }
        }
    }

    /// Perform one tick: the effect of the instruction under the pointer,
    /// exactly as [`spec_step`] states it.  Returns the command the host
    /// must carry out, if the instruction produced one.
    pub fn step(&mut self, vars: &mut VarStore) -> (cmd: Option<Command>)
        ensures
            ({
                let m = spec_step(
                    instrs_of(old(self).instructions@),
                    old(self).labels@,
                    old(self).ip as int,
                    old(self).waiting,
                    old(vars)@,
                );
                final(self).ip as int == m.ip && final(self).waiting == m.waiting && final(vars)@
                    == m.vars && opt_cmd_of(cmd) == m.cmd && final(self).instructions == old(
                    self).instructions && final(self).labels == old(self).labels
            }),
    {
        if self.waiting || self.ip >= self.instructions.len() {
            return None;
        }
        let ip = self.ip;
        proof {
            assert(instrs_of(self.instructions@)[ip as int] == self.instructions@[ip as int]@);
        }
        let instr = crate::instruction::clone_instr(&self.instructions[ip]);
        match instr {
            Instruction::Say { speaker, text } => {
                self.waiting = true;
                Some(Command::Line { speaker, text })
            },
            Instruction::Label(_) => {
                self.ip = ip + 1;
                None
            },
            Instruction::JumpLabel(target) => {
                if self.labels.contains_key(target.as_str()) {
                    self.jump_to_label(target.as_str());
                    None
                } else {
                    self.ip = ip + 1;
                    Some(Command::LabelNotFound(target))
                }
            },
            Instruction::SetVar { name, expression } => {
                let v = eval(expression.as_str(), vars);
                vars.set(name.as_str(), Value::Num(v));
                self.ip = ip + 1;
                None
            },
            Instruction::IfJump { condition, target } => {
                let c = eval(condition.as_str(), vars);
                if c != 0 {
                    if self.labels.contains_key(target.as_str()) {
                        self.jump_to_label(target.as_str());
                        None
                    } else {
                        self.ip = ip + 1;
                        Some(Command::LabelNotFound(target))
                    }
                } else {
                    self.ip = ip + 1;
                    None
                }
            },
            Instruction::Choice(options) => {
                self.waiting = true;
                Some(Command::AskChoice(options))
            },
            Instruction::ShowCharacter { name, expression, params } => {
                self.ip = ip + 1;
                Some(Command::ShowCharacter { name, expression, params })
            },
            Instruction::HideCharacter { name } => {
                self.ip = ip + 1;
                Some(Command::HideCharacter { name })
            },
            Instruction::BgImage(path) => {
                self.ip = ip + 1;
                Some(Command::BgImage(path))
            },
            Instruction::BgColor(color) => {
                self.ip = ip + 1;
                Some(Command::BgColor(color))
            },
            Instruction::MusicPlay(path) => {
                self.ip = ip + 1;
                Some(Command::MusicPlay(path))
            },
            Instruction::MusicStop => {
                self.ip = ip + 1;
                Some(Command::MusicStop)
            },
            Instruction::SfxPlay(path) => {
                self.ip = ip + 1;
                Some(Command::SfxPlay(path))
            },
        }
    }

    /// Resolve a presented choice: with the runner suspended on a `choice`
    /// instruction and a valid option index, jump to that option's target
    /// label and clear suspension.  An out-of-range index, a missing
    /// target label, or a runner not suspended on a choice leaves the
    /// state unchanged.
    pub fn select_choice(&mut self, index: usize)
        ensures
            final(self).instructions == old(self).instructions,
            final(self).labels == old(self).labels,
            ({
                let instrs = instrs_of(old(self).instructions@);
                let picked = old(self).waiting && old(self).ip < instrs.len() && match instrs[old(
                    self).ip as int] {
                    InstrModel::Choice(options) => index < options.len() && old(
                        self).labels@.contains_key(options[index as int].1),
                    _ => false,
                };
                if picked {
                    match instrs[old(self).ip as int] {
                        InstrModel::Choice(options) => final(self).ip == old(
                            self).labels@[options[index as int].1] && final(self).waiting == false,
                        _ => false,
                    }
                } else {
                    final(self).ip == old(self).ip && final(self).waiting == old(self).waiting
                }
            }),
    {
        if !self.waiting {
            return;
        }
        if self.ip >= self.instructions.len() {
            return;
        }
        proof {
            assert(instrs_of(self.instructions@)[self.ip as int]
                == self.instructions@[self.ip as int]@);
        }
        let target: Option<String> = match &self.instructions[self.ip] {
            Instruction::Choice(options) => {
                if index < options.len() {
                    proof {
                        assert(opts_of(options@)[index as int] == (
                            options@[index as int].0@,
                            options@[index as int].1@,
                        ));
                    }
                    Some(options[index].1.clone())
                } else {
                    None
                }
            },
            _ => None,
        };
        match target {
            Some(t) => {
                self.jump_to_label(t.as_str());
            },
            None => {},
        }
    }
}

impl Default for ScriptRunner {
    /// An empty runner.
    fn default() -> (r: ScriptRunner)
        ensures
            r.instructions@.len() == 0,
            r.labels@ == Map::<Seq<char>, usize>::empty(),
            r.ip == 0,
            r.waiting == false,
    {
        ScriptRunner::new()
    }
}

} // verus!
