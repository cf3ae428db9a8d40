//! The instruction set: the closed vocabulary the runner executes.
//!
//! Instructions are immutable once parsed; the runner only moves its
//! position among them.  Each executable type has a spec-level image
//! (`...Model`) in which strings appear as character sequences, so contracts
//! can speak about content rather than heap values.

use vstd::prelude::*;

verus! {

/// An RGB color, as written in a `bg color=` line.
#[derive(Debug, Clone, Copy, PartialEq, Eq, Structural)]
pub struct Rgb {
    pub red: u8,
    pub green: u8,
    pub blue: u8,
}

/// Placement parameters of a `show` line.  Numeric fields are fixed-point
/// (millionths, see [`crate::fixed`]); absent fields leave the stage's
/// defaults in force.
#[derive(Debug, Clone)]
pub struct TransformParams {
    pub x: Option<i64>,
    pub y: Option<i64>,
    pub scale: Option<i64>,
    pub rotation_deg: Option<i64>,
    pub preset: Option<String>,
}

/// Spec image of [`TransformParams`].
pub struct ParamsModel {
    pub x: Option<i64>,
    pub y: Option<i64>,
    pub scale: Option<i64>,
    pub rotation_deg: Option<i64>,
    pub preset: Option<Seq<char>>,
}

impl View for TransformParams {
    type V = ParamsModel;

    open spec fn view(&self) -> ParamsModel {
        ParamsModel {
            x: self.x,
            y: self.y,
            scale: self.scale,
            rotation_deg: self.rotation_deg,
            preset: match self.preset {
                Some(ref p) => Some(p@),
                None => None,
            },
        }
    }
}

impl TransformParams {
    /// No placement given: every field absent.
    pub fn empty() -> (r: TransformParams)
        ensures
            r@ == (ParamsModel {
                x: None,
                y: None,
                scale: None,
                rotation_deg: None,
                preset: None,
            }),
    {
        TransformParams { x: None, y: None, scale: None, rotation_deg: None, preset: None }
    }
}

impl Default for TransformParams {
    fn default() -> (r: TransformParams)
        ensures
            r@ == (ParamsModel {
                x: None,
                y: None,
                scale: None,
                rotation_deg: None,
                preset: None,
            }),
    {
        TransformParams::empty()
    }
}

/// One parsed, executable unit of the script language.
#[derive(Debug, Clone)]
pub enum Instruction {
    Say { speaker: Option<String>, text: String },
    Label(String),
    JumpLabel(String),
    SetVar { name: String, expression: String },
    IfJump { condition: String, target: String },
    Choice(Vec<(String, String)>),
    ShowCharacter { name: String, expression: String, params: TransformParams },
    HideCharacter { name: String },
    BgImage(String),
    BgColor(Rgb),
    MusicPlay(String),
    MusicStop,
    SfxPlay(String),
}

/// Spec image of a choice option list.
pub open spec fn opts_of(v: Seq<(String, String)>) -> Seq<(Seq<char>, Seq<char>)> {
    v.map_values(|p: (String, String)| (p.0@, p.1@))
}

/// Spec image of an optional string.
pub open spec fn opt_str_of(v: Option<String>) -> Option<Seq<char>> {
    match v {
        Some(s) => Some(s@),
        None => None,
    }
}

/// Spec image of an [`Instruction`].
pub enum InstrModel {
    Say { speaker: Option<Seq<char>>, text: Seq<char> },
    Label(Seq<char>),
    JumpLabel(Seq<char>),
    SetVar { name: Seq<char>, expression: Seq<char> },
    IfJump { condition: Seq<char>, target: Seq<char> },
    Choice(Seq<(Seq<char>, Seq<char>)>),
    ShowCharacter { name: Seq<char>, expression: Seq<char>, params: ParamsModel },
    HideCharacter { name: Seq<char> },
    BgImage(Seq<char>),
    BgColor(Rgb),
    MusicPlay(Seq<char>),
    MusicStop,
    SfxPlay(Seq<char>),
}

impl View for Instruction {
    type V = InstrModel;

    open spec fn view(&self) -> InstrModel {
        match self {
            Instruction::Say { speaker, text } => InstrModel::Say {
                speaker: opt_str_of(*speaker),
                text: text@,
            },
            Instruction::Label(name) => InstrModel::Label(name@),
            Instruction::JumpLabel(target) => InstrModel::JumpLabel(target@),
            Instruction::SetVar { name, expression } => InstrModel::SetVar {
                name: name@,
                expression: expression@,
            },
            Instruction::IfJump { condition, target } => InstrModel::IfJump {
                condition: condition@,
                target: target@,
            },
            Instruction::Choice(options) => InstrModel::Choice(opts_of(options@)),
            Instruction::ShowCharacter { name, expression, params } => InstrModel::ShowCharacter {
                name: name@,
                expression: expression@,
                params: params@,
            },
            Instruction::HideCharacter { name } => InstrModel::HideCharacter { name: name@ },
            Instruction::BgImage(path) => InstrModel::BgImage(path@),
            Instruction::BgColor(color) => InstrModel::BgColor(*color),
            Instruction::MusicPlay(path) => InstrModel::MusicPlay(path@),
            Instruction::MusicStop => InstrModel::MusicStop,
            Instruction::SfxPlay(path) => InstrModel::SfxPlay(path@),
        }
    }
}

/// Spec images of an instruction sequence.
pub open spec fn instrs_of(v: Seq<Instruction>) -> Seq<InstrModel> {
    v.map_values(|i: Instruction| i@)
}

/// A one-shot command the runner hands the host to perform.
///
/// `LabelNotFound` is the runner's report of a jump whose target is not in
/// the label table; the host may log it, the script has already moved on.
#[derive(Debug, Clone)]
pub enum Command {
    Line { speaker: Option<String>, text: String },
    AskChoice(Vec<(String, String)>),
    ShowCharacter { name: String, expression: String, params: TransformParams },
    HideCharacter { name: String },
    BgImage(String),
    BgColor(Rgb),
    MusicPlay(String),
    MusicStop,
    SfxPlay(String),
    LabelNotFound(String),
}

/// Spec image of a [`Command`].
pub enum CommandModel {
    Line { speaker: Option<Seq<char>>, text: Seq<char> },
    AskChoice(Seq<(Seq<char>, Seq<char>)>),
    ShowCharacter { name: Seq<char>, expression: Seq<char>, params: ParamsModel },
    HideCharacter { name: Seq<char> },
    BgImage(Seq<char>),
    BgColor(Rgb),
    MusicPlay(Seq<char>),
    MusicStop,
    SfxPlay(Seq<char>),
    LabelNotFound(Seq<char>),
}

impl View for Command {
    type V = CommandModel;

    open spec fn view(&self) -> CommandModel {
        match self {
            Command::Line { speaker, text } => CommandModel::Line {
                speaker: opt_str_of(*speaker),
                text: text@,
            },
            Command::AskChoice(options) => CommandModel::AskChoice(opts_of(options@)),
            Command::ShowCharacter { name, expression, params } => CommandModel::ShowCharacter {
                name: name@,
                expression: expression@,
                params: params@,
            },
            Command::HideCharacter { name } => CommandModel::HideCharacter { name: name@ },
            Command::BgImage(path) => CommandModel::BgImage(path@),
            Command::BgColor(color) => CommandModel::BgColor(*color),
            Command::MusicPlay(path) => CommandModel::MusicPlay(path@),
            Command::MusicStop => CommandModel::MusicStop,
            Command::SfxPlay(path) => CommandModel::SfxPlay(path@),
            Command::LabelNotFound(name) => CommandModel::LabelNotFound(name@),
        }
    }
}

/// Spec image of an optional command.
pub open spec fn opt_cmd_of(v: Option<Command>) -> Option<CommandModel> {
    match v {
        Some(c) => Some(c@),
        None => None,
    }
}

/// Copy an optional speaker name, content for content.
fn clone_opt_string(v: &Option<String>) -> (r: Option<String>)
    ensures
        opt_str_of(r) == opt_str_of(*v),
{
    match v {
        Some(s) => Some(s.clone()),
        None => None,
    }
}

/// Copy a choice option list, content for content.
fn clone_options(v: &Vec<(String, String)>) -> (r: Vec<(String, String)>)
    ensures
        opts_of(r@) == opts_of(v@),
{
    let mut r: Vec<(String, String)> = Vec::new();
    let n = v.len();
    let mut i: usize = 0;
    proof {
        assert(opts_of(r@) =~= opts_of(v@).subrange(0, 0));
    }
    while i < n
        invariant
            n == v@.len(),
            i <= n,
            r@.len() == i as int,
            opts_of(r@) == opts_of(v@).subrange(0, i as int),
        decreases n - i,
    {
        let text = v[i].0.clone();
        let label = v[i].1.clone();
        let ghost prev = r@;
        r.push((text, label));
        proof {
            assert(r@ == prev.push(r@[i as int]));
            assert(r@[i as int].0@ == v@[i as int].0@);
            assert(r@[i as int].1@ == v@[i as int].1@);
            assert(forall|j: int| 0 <= j < i ==> #[trigger] r@[j] == prev[j]);
            assert(opts_of(r@) =~= opts_of(v@).subrange(0, i + 1));
        }
        i += 1;
    }
    proof {
        assert(opts_of(v@).subrange(0, n as int) =~= opts_of(v@));
    }
    r
}

/// Copy placement parameters, content for content.
fn clone_params(p: &TransformParams) -> (r: TransformParams)
    ensures
        r@ == p@,
{
    TransformParams {
        x: p.x,
        y: p.y,
        scale: p.scale,
        rotation_deg: p.rotation_deg,
        preset: match &p.preset {
            Some(s) => Some(s.clone()),
            None => None,
        },
    }
}

/// Copy an instruction, content for content.  The runner clones the
/// instruction under the pointer before acting, so the sequence itself
/// stays untouched.
pub fn clone_instr(instr: &Instruction) -> (r: Instruction)
    ensures
        r@ == instr@,
{
    match instr {
        Instruction::Say { speaker, text } => Instruction::Say {
            speaker: clone_opt_string(speaker),
            text: text.clone(),
        },
        Instruction::Label(name) => Instruction::Label(name.clone()),
        Instruction::JumpLabel(target) => Instruction::JumpLabel(target.clone()),
        Instruction::SetVar { name, expression } => Instruction::SetVar {
            name: name.clone(),
            expression: expression.clone(),
        },
        Instruction::IfJump { condition, target } => Instruction::IfJump {
            condition: condition.clone(),
            target: target.clone(),
        },
        Instruction::Choice(options) => Instruction::Choice(clone_options(options)),
        Instruction::ShowCharacter { name, expression, params } => Instruction::ShowCharacter {
            name: name.clone(),
            expression: expression.clone(),
            params: clone_params(params),
        },
        Instruction::HideCharacter { name } => Instruction::HideCharacter { name: name.clone() },
        Instruction::BgImage(path) => Instruction::BgImage(path.clone()),
        Instruction::BgColor(color) => Instruction::BgColor(*color),
        Instruction::MusicPlay(path) => Instruction::MusicPlay(path.clone()),
        Instruction::MusicStop => Instruction::MusicStop,
        Instruction::SfxPlay(path) => Instruction::SfxPlay(path.clone()),
    }
}

} // verus!
