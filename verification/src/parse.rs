//! The script parser: line-oriented source text to instructions.
//!
//! Each non-blank line that does not start with `#` carries one directive:
//! `label`, `say`, `jump`, `set`, `if`, `choice`, `show`, `hide`, `bg`,
//! `music` or `sfx`.  The parser is tolerant: a line it cannot read is
//! reported and skipped, and parsing continues — one bad line must not
//! invalidate a whole script.
//!
//! `set` takes the free-expression form `set <name> = <expr>`, the
//! right-hand side kept verbatim for the evaluator; `if <expr> jump <label>`
//! splits at the last ` jump `.

use vstd::prelude::*;
use vstd::string::StrSliceExecFns;
use crate::expr::{is_number_lit, lit_value, parse_number};
use crate::instruction::{
    Instruction, InstrModel, ParamsModel, Rgb, TransformParams, instrs_of, opts_of,
};
use crate::strutil::{
    find_first, find_last, occurs_at, seqs_of, spec_find_first, spec_find_last, spec_split_on,
    spec_split_ws, spec_starts_with, spec_trim, split_on, split_ws, str_eq, str_starts_with,
    str_trim,
};

verus! {

/// What one source line parses to.
pub enum LineModel {
    /// Blank or comment: nothing, silently.
    Skip,
    /// Not a directive the language knows: reported, then skipped.
    Unrecognized,
    Parsed(InstrModel),
}

/// What one source line parses to (executable side).
#[derive(Debug)]
pub enum LineOutcome {
    Skip,
    Unrecognized,
    Parsed(Instruction),
}

impl View for LineOutcome {
    type V = LineModel;

    open spec fn view(&self) -> LineModel {
        match self {
            LineOutcome::Skip => LineModel::Skip,
            LineOutcome::Unrecognized => LineModel::Unrecognized,
            LineOutcome::Parsed(i) => LineModel::Parsed(i@),
        }
    }
}

/// `set <name> = <expr>`: the first word names the variable, then `=`, then
/// the expression, kept verbatim (trimmed) for evaluation time.
pub open spec fn spec_parse_set(rest: Seq<char>) -> LineModel {
    let r = spec_trim(rest);
    match spec_find_first(r, " "@) {
        None => LineModel::Unrecognized,
        Some(sp) => {
            let name = r.subrange(0, sp);
            let after = spec_trim(r.skip(sp + 1));
            if after.len() >= 1 && after[0] == '=' {
                let expression = spec_trim(after.skip(1));
                if expression.len() > 0 {
                    LineModel::Parsed(InstrModel::SetVar { name, expression })
                } else {
                    LineModel::Unrecognized
                }
            } else {
                LineModel::Unrecognized
            }
        },
    }
}

/// `if <expr> jump <label>`: split at the last ` jump `; the target must be
/// one word.
pub open spec fn spec_parse_if(rest: Seq<char>) -> LineModel {
    let r = spec_trim(rest);
    match spec_find_last(r, " jump "@) {
        None => LineModel::Unrecognized,
        Some(j) => {
            let condition = spec_trim(r.subrange(0, j));
            let target = spec_trim(r.skip(j + 6));
            if condition.len() > 0 && target.len() > 0 && spec_find_first(target, " "@) is None {
                LineModel::Parsed(InstrModel::IfJump { condition, target })
            } else {
                LineModel::Unrecognized
            }
        },
    }
}

/// One `choice` option: the piece before the first `->` is the display
/// text, the piece after it the target label; a piece without `->` is
/// dropped.
pub open spec fn spec_option_of_piece(piece: Seq<char>) -> Option<(Seq<char>, Seq<char>)> {
    match spec_find_first(piece, "->"@) {
        None => None,
        Some(k) => Some((spec_trim(piece.subrange(0, k)), spec_trim(piece.skip(k + 2)))),
    }
}

/// Collect the options of the pieces from index `i` on.
pub open spec fn collect_options(pieces: Seq<Seq<char>>, i: int, acc: Seq<(Seq<char>, Seq<char>)>) -> Seq<
    (Seq<char>, Seq<char>),
>
    decreases pieces.len() - i,
{
    if i < 0 || i >= pieces.len() {
        acc
    } else {
        match spec_option_of_piece(pieces[i]) {
            None => collect_options(pieces, i + 1, acc),
            Some(o) => collect_options(pieces, i + 1, acc.push(o)),
        }
    }
}

/// `choice <t1> -> <l1> | <t2> -> <l2> | ...`
pub open spec fn spec_parse_choice(rest: Seq<char>) -> LineModel {
    let pieces = spec_split_on(spec_trim(rest), '|');
    LineModel::Parsed(InstrModel::Choice(collect_options(pieces, 0, Seq::empty())))
}

/// Empty placement: every field absent.
pub open spec fn empty_params() -> ParamsModel {
    ParamsModel { x: None, y: None, scale: None, rotation_deg: None, preset: None }
}

/// Fold one placement word into the parameters: a preset name, or a
/// `key=value` pair with a numeric value; anything else changes nothing.
pub open spec fn apply_param(p: ParamsModel, w: Seq<char>) -> ParamsModel {
    if w == "left"@ || w == "center"@ || w == "right"@ {
        ParamsModel { preset: Some(w), ..p }
    } else if spec_starts_with(w, "x="@) && is_number_lit(w.skip(2)) {
        ParamsModel { x: Some(lit_value(w.skip(2)) as i64), ..p }
    } else if spec_starts_with(w, "y="@) && is_number_lit(w.skip(2)) {
        ParamsModel { y: Some(lit_value(w.skip(2)) as i64), ..p }
    } else if spec_starts_with(w, "scale="@) && is_number_lit(w.skip(6)) {
        ParamsModel { scale: Some(lit_value(w.skip(6)) as i64), ..p }
    } else if spec_starts_with(w, "rot="@) && is_number_lit(w.skip(4)) {
        ParamsModel { rotation_deg: Some(lit_value(w.skip(4)) as i64), ..p }
    } else {
        p
    }
}

/// Fold the placement words from index `i` on.
pub open spec fn fold_params(ws: Seq<Seq<char>>, i: int, p: ParamsModel) -> ParamsModel
    decreases ws.len() - i,
{
    if i < 0 || i >= ws.len() {
        p
    } else {
        fold_params(ws, i + 1, apply_param(p, ws[i]))
    }
}

/// `show <name> <expression> [preset|key=value ...]`
pub open spec fn spec_parse_show(rest: Seq<char>) -> LineModel {
    let ws = spec_split_ws(rest);
    if ws.len() < 2 {
        LineModel::Unrecognized
    } else {
        LineModel::Parsed(
            InstrModel::ShowCharacter {
                name: ws[0],
                expression: ws[1],
                params: fold_params(ws, 2, empty_params()),
            },
        )
    }
}

/// Value of a hexadecimal digit, or 16 for any other character.
pub open spec fn hex_val(c: char) -> int {
    let u = c as u32;
    if 48 <= u <= 57 {
        u - 48
    } else if 97 <= u <= 102 {
        u - 87
    } else if 65 <= u <= 70 {
        u - 55
    } else {
        16
    }
}

/// A color written as a name or as `#RRGGBB`.
pub open spec fn spec_parse_color(c: Seq<char>) -> Option<Rgb> {
    if c == "red"@ {
        Some(Rgb { red: 255, green: 0, blue: 0 })
    } else if c == "green"@ {
        Some(Rgb { red: 0, green: 255, blue: 0 })
    } else if c == "blue"@ {
        Some(Rgb { red: 0, green: 0, blue: 255 })
    } else if c == "black"@ {
        Some(Rgb { red: 0, green: 0, blue: 0 })
    } else if c == "white"@ {
        Some(Rgb { red: 255, green: 255, blue: 255 })
    } else if c.len() == 7 && c[0] == '#' && hex_val(c[1]) < 16 && hex_val(c[2]) < 16 && hex_val(
        c[3],
    ) < 16 && hex_val(c[4]) < 16 && hex_val(c[5]) < 16 && hex_val(c[6]) < 16 {
        Some(
            Rgb {
                red: (hex_val(c[1]) * 16 + hex_val(c[2])) as u8,
                green: (hex_val(c[3]) * 16 + hex_val(c[4])) as u8,
                blue: (hex_val(c[5]) * 16 + hex_val(c[6])) as u8,
            },
        )
    } else {
        None
    }
}

/// `bg image=<path>` or `bg color=<name|#RRGGBB>`
pub open spec fn spec_parse_bg(rest: Seq<char>) -> LineModel {
    let r = spec_trim(rest);
    if spec_starts_with(r, "image="@) {
        let path = spec_trim(r.skip(6));
        if path.len() > 0 {
            LineModel::Parsed(InstrModel::BgImage(path))
        } else {
            LineModel::Unrecognized
        }
    } else if spec_starts_with(r, "color="@) {
        match spec_parse_color(spec_trim(r.skip(6))) {
            Some(color) => LineModel::Parsed(InstrModel::BgColor(color)),
            None => LineModel::Unrecognized,
        }
    } else {
        LineModel::Unrecognized
    }
}

/// `music play <path>` or `music stop`
pub open spec fn spec_parse_music(rest: Seq<char>) -> LineModel {
    let r = spec_trim(rest);
    if spec_starts_with(r, "play "@) {
        let path = spec_trim(r.skip(5));
        if path.len() > 0 {
            LineModel::Parsed(InstrModel::MusicPlay(path))
        } else {
            LineModel::Unrecognized
        }
    } else if r == "stop"@ {
        LineModel::Parsed(InstrModel::MusicStop)
    } else {
        LineModel::Unrecognized
    }
}

/// `sfx play <path>`
pub open spec fn spec_parse_sfx(rest: Seq<char>) -> LineModel {
    let r = spec_trim(rest);
    if spec_starts_with(r, "play "@) {
        let path = spec_trim(r.skip(5));
        if path.len() > 0 {
            LineModel::Parsed(InstrModel::SfxPlay(path))
        } else {
            LineModel::Unrecognized
        }
    } else {
        LineModel::Unrecognized
    }
}

/// What one source line parses to: blank lines and `#` comments are
/// skipped; a recognized directive prefix hands the rest of the line to its
/// sub-grammar; anything else is unrecognized.
pub open spec fn spec_parse_line(line: Seq<char>) -> LineModel {
    let t = spec_trim(line);
    if t.len() == 0 {
        LineModel::Skip
    } else if t[0] == '#' {
        LineModel::Skip
    } else if spec_starts_with(t, "label "@) {
        LineModel::Parsed(InstrModel::Label(spec_trim(t.skip(6))))
    } else if spec_starts_with(t, "say "@) {
        LineModel::Parsed(InstrModel::Say { speaker: None, text: spec_trim(t.skip(4)) })
    } else if spec_starts_with(t, "jump "@) {
        LineModel::Parsed(InstrModel::JumpLabel(spec_trim(t.skip(5))))
    } else if spec_starts_with(t, "set "@) {
        spec_parse_set(t.skip(4))
    } else if spec_starts_with(t, "if "@) {
        spec_parse_if(t.skip(3))
    } else if spec_starts_with(t, "choice "@) {
        spec_parse_choice(t.skip(7))
    } else if spec_starts_with(t, "show "@) {
        spec_parse_show(t.skip(5))
    } else if spec_starts_with(t, "hide "@) {
        LineModel::Parsed(InstrModel::HideCharacter { name: spec_trim(t.skip(5)) })
    } else if spec_starts_with(t, "bg "@) {
        spec_parse_bg(t.skip(3))
    } else if spec_starts_with(t, "music "@) {
        spec_parse_music(t.skip(6))
    } else if spec_starts_with(t, "sfx "@) {
        spec_parse_sfx(t.skip(4))
    } else {
        LineModel::Unrecognized
    }
}

/// The lines of the source, split at `'\n'`.
pub open spec fn spec_split_lines(s: Seq<char>) -> Seq<Seq<char>>
    decreases s.len(),
{
    match spec_find_first(s, "\n"@) {
        None => seq![s],
        Some(k) => if 0 <= k < s.len() {
            seq![s.subrange(0, k)] + spec_split_lines(s.skip(k + 1))
        } else {
            seq![s]
        },
    }
}

/// The instructions of the lines from index `i` on.
pub open spec fn parse_lines_from(ls: Seq<Seq<char>>, i: int, acc: Seq<InstrModel>) -> Seq<
    InstrModel,
>
    decreases ls.len() - i,
{
    if i < 0 || i >= ls.len() {
        acc
    } else {
        match spec_parse_line(ls[i]) {
            LineModel::Parsed(m) => parse_lines_from(ls, i + 1, acc.push(m)),
            _ => parse_lines_from(ls, i + 1, acc),
        }
    }
}

/// The unrecognized lines from index `i` on, kept verbatim for reporting.
pub open spec fn warn_lines_from(ls: Seq<Seq<char>>, i: int, acc: Seq<Seq<char>>) -> Seq<Seq<char>>
    decreases ls.len() - i,
{
    if i < 0 || i >= ls.len() {
        acc
    } else {
        match spec_parse_line(ls[i]) {
            LineModel::Unrecognized => warn_lines_from(ls, i + 1, acc.push(ls[i])),
            _ => warn_lines_from(ls, i + 1, acc),
        }
    }
}

/// The instruction sequence a whole source parses to.
pub open spec fn spec_parse_script(s: Seq<char>) -> Seq<InstrModel> {
    parse_lines_from(spec_split_lines(s), 0, Seq::empty())
}

/// The unrecognized lines of a whole source, in order.
pub open spec fn spec_parse_warnings(s: Seq<char>) -> Seq<Seq<char>> {
    warn_lines_from(spec_split_lines(s), 0, Seq::empty())
}

fn parse_set_line(rest: &str) -> (r: LineOutcome)
    ensures
        r@ == spec_parse_set(rest@),
{
    let t = str_trim(rest);
    let n = t.unicode_len();
    match find_first(t, " ") {
        None => LineOutcome::Unrecognized,
        Some(sp) => {
            proof {
                crate::strutil::lemma_find_first_some(t@, " "@, sp as int);
                reveal_strlit(" ");
            }
            let name = t.substring_char(0, sp).to_owned();
            let after = str_trim(t.substring_char(sp + 1, n));
            let an = after.unicode_len();
            if an >= 1 && after.get_char(0) == '=' {
                let expression = str_trim(after.substring_char(1, an)).to_owned();
                if expression.unicode_len() > 0 {
                    LineOutcome::Parsed(Instruction::SetVar { name, expression })
                } else {
                    LineOutcome::Unrecognized
                }
            } else {
                LineOutcome::Unrecognized
            }
        },
    }
}

fn parse_if_line(rest: &str) -> (r: LineOutcome)
    ensures
        r@ == spec_parse_if(rest@),
{
    let t = str_trim(rest);
    let n = t.unicode_len();
    match find_last(t, " jump ") {
        None => LineOutcome::Unrecognized,
        Some(j) => {
            proof {
                crate::strutil::lemma_find_last_some(t@, " jump "@, j as int);
                reveal_strlit(" jump ");
            }
            let condition = str_trim(t.substring_char(0, j)).to_owned();
            let target = str_trim(t.substring_char(j + 6, n)).to_owned();
            let has_space = match find_first(target.as_str(), " ") {
                Some(_) => true,
                None => false,
            };
            if condition.unicode_len() > 0 && target.unicode_len() > 0 && !has_space {
                LineOutcome::Parsed(Instruction::IfJump { condition, target })
            } else {
                LineOutcome::Unrecognized
            }
        },
    }
}

fn parse_choice_line(rest: &str) -> (r: LineOutcome)
    ensures
        r@ == spec_parse_choice(rest@),
{
    let pieces = split_on(str_trim(rest), '|');
    let mut options: Vec<(String, String)> = Vec::new();
    let n = pieces.len();
    let mut i: usize = 0;
    proof {
        assert(opts_of(options@) =~= Seq::<(Seq<char>, Seq<char>)>::empty());
        assert(seqs_of(pieces@) == spec_split_on(spec_trim(rest@), '|'));
    }
    while i < n
        invariant
            n == pieces@.len(),
            i <= n,
            collect_options(seqs_of(pieces@), i as int, opts_of(options@)) == collect_options(
                seqs_of(pieces@),
                0,
                Seq::empty(),
            ),
        decreases n - i,
    {
        proof {
            assert(seqs_of(pieces@)[i as int] == pieces@[i as int]@);
        }
        let piece: &str = pieces[i].as_str();
        let pn = piece.unicode_len();
        match find_first(piece, "->") {
            None => {},
            Some(k) => {
                proof {
                    crate::strutil::lemma_find_first_some(piece@, "->"@, k as int);
                    reveal_strlit("->");
                }
                let text = str_trim(piece.substring_char(0, k)).to_owned();
                let label = str_trim(piece.substring_char(k + 2, pn)).to_owned();
                let ghost prev = options@;
                options.push((text, label));
                proof {
                    assert(opts_of(options@) =~= opts_of(prev).push(
                        (options@[prev.len() as int].0@, options@[prev.len() as int].1@),
                    ));
                }
            },
        }
        i += 1;
    }
    LineOutcome::Parsed(Instruction::Choice(options))
}

/// Fold one placement word into the parameters.
fn apply_param_word(p: &mut TransformParams, w: &str)
    ensures
        final(p)@ == apply_param(old(p)@, w@),
{
    let n = w.unicode_len();
    proof {
        reveal_strlit("left");
        reveal_strlit("center");
        reveal_strlit("right");
        reveal_strlit("x=");
        reveal_strlit("y=");
        reveal_strlit("scale=");
        reveal_strlit("rot=");
    }
    if str_eq(w, "left") || str_eq(w, "center") || str_eq(w, "right") {
        p.preset = Some(w.to_owned());
    } else if str_starts_with(w, "x=") {
        proof {
            crate::strutil::lemma_starts_with_first_char(w@, "x="@);
            assert(!spec_starts_with(w@, "y="@)) by {
                if spec_starts_with(w@, "y="@) {
                    crate::strutil::lemma_starts_with_first_char(w@, "y="@);
                }
            }
            assert(!spec_starts_with(w@, "scale="@)) by {
                if spec_starts_with(w@, "scale="@) {
                    crate::strutil::lemma_starts_with_first_char(w@, "scale="@);
                }
            }
            assert(!spec_starts_with(w@, "rot="@)) by {
                if spec_starts_with(w@, "rot="@) {
                    crate::strutil::lemma_starts_with_first_char(w@, "rot="@);
                }
            }
        }
        match parse_number(w.substring_char(2, n)) {
            Some(v) => {
                p.x = Some(v);
            },
            None => {},
        }
    } else if str_starts_with(w, "y=") {
        proof {
            crate::strutil::lemma_starts_with_first_char(w@, "y="@);
            assert(!spec_starts_with(w@, "scale="@)) by {
                if spec_starts_with(w@, "scale="@) {
                    crate::strutil::lemma_starts_with_first_char(w@, "scale="@);
                }
            }
            assert(!spec_starts_with(w@, "rot="@)) by {
                if spec_starts_with(w@, "rot="@) {
                    crate::strutil::lemma_starts_with_first_char(w@, "rot="@);
                }
            }
        }
        match parse_number(w.substring_char(2, n)) {
            Some(v) => {
                p.y = Some(v);
            },
            None => {},
        }
    } else if str_starts_with(w, "scale=") {
        proof {
            crate::strutil::lemma_starts_with_first_char(w@, "scale="@);
            assert(!spec_starts_with(w@, "rot="@)) by {
                if spec_starts_with(w@, "rot="@) {
                    crate::strutil::lemma_starts_with_first_char(w@, "rot="@);
                }
            }
        }
        match parse_number(w.substring_char(6, n)) {
            Some(v) => {
                p.scale = Some(v);
            },
            None => {},
        }
    } else if str_starts_with(w, "rot=") {
        match parse_number(w.substring_char(4, n)) {
            Some(v) => {
                p.rotation_deg = Some(v);
            },
            None => {},
        }
    }
}

fn parse_show_line(rest: &str) -> (r: LineOutcome)
    ensures
        r@ == spec_parse_show(rest@),
{
    let words = split_ws(rest);
    let n = words.len();
    if n < 2 {
        return LineOutcome::Unrecognized;
    }
    let name = words[0].clone();
    let expression = words[1].clone();
    let mut params = TransformParams::empty();
    let mut i: usize = 2;
    while i < n
        invariant
            n == words@.len(),
            2 <= i <= n,
            fold_params(seqs_of(words@), i as int, params@) == fold_params(
                seqs_of(words@),
                2,
                empty_params(),
            ),
        decreases n - i,
    {
        proof {
            assert(seqs_of(words@)[i as int] == words@[i as int]@);
        }
        apply_param_word(&mut params, words[i].as_str());
        i += 1;
    }
    proof {
        assert(seqs_of(words@)[0] == words@[0]@);
        assert(seqs_of(words@)[1] == words@[1]@);
    }
    LineOutcome::Parsed(Instruction::ShowCharacter { name, expression, params })
}

/// Value of a hexadecimal digit; 16 marks any other character.
fn hex_digit(c: char) -> (r: u8)
    ensures
        r as int == hex_val(c),
{
    let u = c as u32;
    if 48 <= u && u <= 57 {
        (u - 48) as u8
    } else if 97 <= u && u <= 102 {
        (u - 87) as u8
    } else if 65 <= u && u <= 70 {
        (u - 55) as u8
    } else {
        16
    }
}

/// Read a color name or `#RRGGBB` literal.
pub fn parse_color(c: &str) -> (r: Option<Rgb>)
    ensures
        r == spec_parse_color(c@),
{
    if str_eq(c, "red") {
        Some(Rgb { red: 255, green: 0, blue: 0 })
    } else if str_eq(c, "green") {
        Some(Rgb { red: 0, green: 255, blue: 0 })
    } else if str_eq(c, "blue") {
        Some(Rgb { red: 0, green: 0, blue: 255 })
    } else if str_eq(c, "black") {
        Some(Rgb { red: 0, green: 0, blue: 0 })
    } else if str_eq(c, "white") {
        Some(Rgb { red: 255, green: 255, blue: 255 })
    } else {
        let n = c.unicode_len();
        if n != 7 {
            return None;
        }
        if c.get_char(0) != '#' {
            return None;
        }
        let h1 = hex_digit(c.get_char(1));
        let h2 = hex_digit(c.get_char(2));
        let h3 = hex_digit(c.get_char(3));
        let h4 = hex_digit(c.get_char(4));
        let h5 = hex_digit(c.get_char(5));
        let h6 = hex_digit(c.get_char(6));
        if h1 < 16 && h2 < 16 && h3 < 16 && h4 < 16 && h5 < 16 && h6 < 16 {
            Some(Rgb { red: h1 * 16 + h2, green: h3 * 16 + h4, blue: h5 * 16 + h6 })
        } else {
            None
        }
    }
}

fn parse_bg_line(rest: &str) -> (r: LineOutcome)
    ensures
        r@ == spec_parse_bg(rest@),
{
    let t = str_trim(rest);
    let n = t.unicode_len();
    if str_starts_with(t, "image=") {
        proof {
            reveal_strlit("image=");
        }
        let path = str_trim(t.substring_char(6, n)).to_owned();
        if path.unicode_len() > 0 {
            LineOutcome::Parsed(Instruction::BgImage(path))
        } else {
            LineOutcome::Unrecognized
        }
    } else if str_starts_with(t, "color=") {
        proof {
            reveal_strlit("color=");
        }
        match parse_color(str_trim(t.substring_char(6, n))) {
            Some(color) => LineOutcome::Parsed(Instruction::BgColor(color)),
            None => LineOutcome::Unrecognized,
        }
    } else {
        LineOutcome::Unrecognized
    }
}

fn parse_music_line(rest: &str) -> (r: LineOutcome)
    ensures
        r@ == spec_parse_music(rest@),
{
    let t = str_trim(rest);
    let n = t.unicode_len();
    if str_starts_with(t, "play ") {
        proof {
            reveal_strlit("play ");
        }
        let path = str_trim(t.substring_char(5, n)).to_owned();
        if path.unicode_len() > 0 {
            LineOutcome::Parsed(Instruction::MusicPlay(path))
        } else {
            LineOutcome::Unrecognized
        }
    } else if str_eq(t, "stop") {
        LineOutcome::Parsed(Instruction::MusicStop)
    } else {
        LineOutcome::Unrecognized
    }
}

fn parse_sfx_line(rest: &str) -> (r: LineOutcome)
    ensures
        r@ == spec_parse_sfx(rest@),
{
    let t = str_trim(rest);
    let n = t.unicode_len();
    if str_starts_with(t, "play ") {
        proof {
            reveal_strlit("play ");
        }
        let path = str_trim(t.substring_char(5, n)).to_owned();
        if path.unicode_len() > 0 {
            LineOutcome::Parsed(Instruction::SfxPlay(path))
        } else {
            LineOutcome::Unrecognized
        }
    } else {
        LineOutcome::Unrecognized
    }
}

/// Parse one source line.
pub fn parse_line(line: &str) -> (r: LineOutcome)
    ensures
        r@ == spec_parse_line(line@),
{
    let t = str_trim(line);
    let n = t.unicode_len();
    if n == 0 {
        return LineOutcome::Skip;
    }
    if t.get_char(0) == '#' {
        return LineOutcome::Skip;
    }
    if str_starts_with(t, "label ") {
        proof {
            reveal_strlit("label ");
        }
        let name = str_trim(t.substring_char(6, n)).to_owned();
        LineOutcome::Parsed(Instruction::Label(name))
    } else if str_starts_with(t, "say ") {
        proof {
            reveal_strlit("say ");
        }
        let text = str_trim(t.substring_char(4, n)).to_owned();
        LineOutcome::Parsed(Instruction::Say { speaker: None, text })
    } else if str_starts_with(t, "jump ") {
        proof {
            reveal_strlit("jump ");
        }
        let target = str_trim(t.substring_char(5, n)).to_owned();
        LineOutcome::Parsed(Instruction::JumpLabel(target))
    } else if str_starts_with(t, "set ") {
        proof {
            reveal_strlit("set ");
        }
        parse_set_line(t.substring_char(4, n))
    } else if str_starts_with(t, "if ") {
        proof {
            reveal_strlit("if ");
        }
        parse_if_line(t.substring_char(3, n))
    } else if str_starts_with(t, "choice ") {
        proof {
            reveal_strlit("choice ");
        }
        parse_choice_line(t.substring_char(7, n))
    } else if str_starts_with(t, "show ") {
        proof {
            reveal_strlit("show ");
        }
        parse_show_line(t.substring_char(5, n))
    } else if str_starts_with(t, "hide ") {
        proof {
            reveal_strlit("hide ");
        }
        let name = str_trim(t.substring_char(5, n)).to_owned();
        LineOutcome::Parsed(Instruction::HideCharacter { name })
    } else if str_starts_with(t, "bg ") {
        proof {
            reveal_strlit("bg ");
        }
        parse_bg_line(t.substring_char(3, n))
    } else if str_starts_with(t, "music ") {
        proof {
            reveal_strlit("music ");
        }
        parse_music_line(t.substring_char(6, n))
    } else if str_starts_with(t, "sfx ") {
        proof {
            reveal_strlit("sfx ");
        }
        parse_sfx_line(t.substring_char(4, n))
    } else {
        LineOutcome::Unrecognized
    }
}

/// A parsed script: its instructions, and the unrecognized lines kept
/// verbatim so the host can report them.
pub struct ParsedScript {
    pub instructions: Vec<Instruction>,
    pub warnings: Vec<String>,
}

/// Parse a whole source text, line by line.  Blank lines and `#` comments
/// are skipped; each unrecognized line is returned under `warnings` and
/// skipped — parsing always continues.
pub fn parse_script(source: &str) -> (r: ParsedScript)
    ensures
        instrs_of(r.instructions@) == spec_parse_script(source@),
        seqs_of(r.warnings@) == spec_parse_warnings(source@),
{
    let mut instructions: Vec<Instruction> = Vec::new();
    let mut warnings: Vec<String> = Vec::new();
    let mut rest: &str = source;
    let ghost all_lines = spec_split_lines(source@);
    proof {
        assert(instrs_of(instructions@) =~= Seq::<InstrModel>::empty());
        assert(seqs_of(warnings@) =~= Seq::<Seq<char>>::empty());
        assert(seq![source@] + Seq::<Seq<char>>::empty() =~= seq![source@]);
    }
    loop
        invariant
            all_lines == spec_split_lines(source@),
            parse_lines_from(spec_split_lines(rest@), 0, instrs_of(instructions@))
                == parse_lines_from(all_lines, 0, Seq::empty()),
            warn_lines_from(spec_split_lines(rest@), 0, seqs_of(warnings@)) == warn_lines_from(
                all_lines,
                0,
                Seq::empty(),
            ),
        decreases rest@.len(),
    {
        let n = rest.unicode_len();
        match find_first(rest, "\n") {
            Some(k) => {
                proof {
                    crate::strutil::lemma_find_first_some(rest@, "\n"@, k as int);
                    reveal_strlit("\n");
                }
                let line = rest.substring_char(0, k);
                let ghost lines_here = spec_split_lines(rest@);
                let ghost lines_next = spec_split_lines(rest@.skip(k + 1));
                let ghost acc0 = instrs_of(instructions@);
                let ghost wacc0 = seqs_of(warnings@);
                proof {
                    assert(lines_here == seq![rest@.subrange(0, k as int)] + lines_next);
                    assert(lines_here[0] == line@);
                    assert(lines_here.len() == 1 + lines_next.len());
                    assert(forall|j: int| 0 <= j < lines_next.len() ==> #[trigger] lines_next[j]
                        == lines_here[j + 1]);
                }
                handle_line(line, &mut instructions, &mut warnings);
                proof {
                    lemma_step_line(lines_here, lines_next, line@, acc0, wacc0,
                        instrs_of(instructions@), seqs_of(warnings@));
                }
                rest = rest.substring_char(k + 1, n);
            },
            None => {
                let ghost lines_here = spec_split_lines(rest@);
                let ghost acc0 = instrs_of(instructions@);
                let ghost wacc0 = seqs_of(warnings@);
                proof {
                    assert(lines_here =~= seq![rest@]);
                    assert(lines_here[0] == rest@);
                }
                handle_line(rest, &mut instructions, &mut warnings);
                proof {
                    lemma_last_line(lines_here, rest@, acc0, wacc0, instrs_of(instructions@),
                        seqs_of(warnings@));
                }
                return ParsedScript { instructions, warnings };
            },
        }
    }
}

/// Processing the one line of a single-line tail finishes the collection.
proof fn lemma_last_line(
    lines: Seq<Seq<char>>,
    line: Seq<char>,
    acc: Seq<InstrModel>,
    wacc: Seq<Seq<char>>,
    acc2: Seq<InstrModel>,
    wacc2: Seq<Seq<char>>,
)
    requires
        lines.len() == 1,
        lines[0] == line,
        match spec_parse_line(line) {
            LineModel::Parsed(m) => acc2 == acc.push(m) && wacc2 == wacc,
            LineModel::Unrecognized => acc2 == acc && wacc2 == wacc.push(line),
            LineModel::Skip => acc2 == acc && wacc2 == wacc,
        },
    ensures
        parse_lines_from(lines, 0, acc) == acc2,
        warn_lines_from(lines, 0, wacc) == wacc2,
{
    match spec_parse_line(line) {
        LineModel::Parsed(m) => {
            assert(parse_lines_from(lines, 1, acc.push(m)) == acc.push(m));
            assert(warn_lines_from(lines, 1, wacc) == wacc);
        },
        LineModel::Unrecognized => {
            assert(parse_lines_from(lines, 1, acc) == acc);
            assert(warn_lines_from(lines, 1, wacc.push(line)) == wacc.push(line));
        },
        LineModel::Skip => {
            assert(parse_lines_from(lines, 1, acc) == acc);
            assert(warn_lines_from(lines, 1, wacc) == wacc);
        },
    }
}

/// Processing the first line and moving to the remaining lines keeps the
/// collection on course.
proof fn lemma_step_line(
    lines_here: Seq<Seq<char>>,
    lines_next: Seq<Seq<char>>,
    line: Seq<char>,
    acc: Seq<InstrModel>,
    wacc: Seq<Seq<char>>,
    acc2: Seq<InstrModel>,
    wacc2: Seq<Seq<char>>,
)
    requires
        lines_here.len() == 1 + lines_next.len(),
        lines_here[0] == line,
        forall|j: int| 0 <= j < lines_next.len() ==> #[trigger] lines_next[j] == lines_here[j + 1],
        match spec_parse_line(line) {
            LineModel::Parsed(m) => acc2 == acc.push(m) && wacc2 == wacc,
            LineModel::Unrecognized => acc2 == acc && wacc2 == wacc.push(line),
            LineModel::Skip => acc2 == acc && wacc2 == wacc,
        },
    ensures
        parse_lines_from(lines_next, 0, acc2) == parse_lines_from(lines_here, 0, acc),
        warn_lines_from(lines_next, 0, wacc2) == warn_lines_from(lines_here, 0, wacc),
{
    match spec_parse_line(line) {
        LineModel::Parsed(m) => {
            assert(parse_lines_from(lines_here, 0, acc) == parse_lines_from(
                lines_here,
                1,
                acc.push(m),
            ));
            assert(warn_lines_from(lines_here, 0, wacc) == warn_lines_from(lines_here, 1, wacc));
        },
        LineModel::Unrecognized => {
            assert(parse_lines_from(lines_here, 0, acc) == parse_lines_from(lines_here, 1, acc));
            assert(warn_lines_from(lines_here, 0, wacc) == warn_lines_from(
                lines_here,
                1,
                wacc.push(line),
            ));
        },
        LineModel::Skip => {
            assert(parse_lines_from(lines_here, 0, acc) == parse_lines_from(lines_here, 1, acc));
            assert(warn_lines_from(lines_here, 0, wacc) == warn_lines_from(lines_here, 1, wacc));
        },
    }
    lemma_parse_lines_align(lines_here, lines_next, 0, acc2);
    lemma_warn_lines_align(lines_here, lines_next, 0, wacc2);
}

/// Parse one line and record its outcome.
fn handle_line(line: &str, instructions: &mut Vec<Instruction>, warnings: &mut Vec<String>)
    ensures
        match spec_parse_line(line@) {
            LineModel::Parsed(m) => instrs_of(final(instructions)@) == instrs_of(
                old(instructions)@,
            ).push(m) && final(warnings)@ == old(warnings)@,
            LineModel::Unrecognized => final(instructions)@ == old(instructions)@ && seqs_of(
                final(warnings)@,
            ) == seqs_of(old(warnings)@).push(line@),
            LineModel::Skip => final(instructions)@ == old(instructions)@ && final(warnings)@
                == old(warnings)@,
        },
{
    match parse_line(line) {
        LineOutcome::Parsed(instr) => {
            let ghost prev = instructions@;
            instructions.push(instr);
            proof {
                assert(instrs_of(instructions@) =~= instrs_of(prev).push(
                    instructions@[prev.len() as int]@,
                ));
            }
        },
        LineOutcome::Unrecognized => {
            let ghost prev = warnings@;
            warnings.push(line.to_owned());
            proof {
                assert(seqs_of(warnings@) =~= seqs_of(prev).push(
                    warnings@[prev.len() as int]@,
                ));
            }
        },
        LineOutcome::Skip => {},
    }
}

proof fn lemma_parse_lines_align(
    lines_here: Seq<Seq<char>>,
    lines_next: Seq<Seq<char>>,
    i: int,
    acc: Seq<InstrModel>,
)
    requires
        0 <= i <= lines_next.len(),
        lines_here.len() == 1 + lines_next.len(),
        forall|j: int| 0 <= j < lines_next.len() ==> #[trigger] lines_next[j] == lines_here[j + 1],
    ensures
        parse_lines_from(lines_next, i, acc) == parse_lines_from(lines_here, i + 1, acc),
    decreases lines_next.len() - i,
{
    if i < lines_next.len() {
        match spec_parse_line(lines_next[i]) {
            LineModel::Parsed(m) => lemma_parse_lines_align(lines_here, lines_next, i + 1, acc.push(m)),
            _ => lemma_parse_lines_align(lines_here, lines_next, i + 1, acc),
        }
    }
}

proof fn lemma_warn_lines_align(
    lines_here: Seq<Seq<char>>,
    lines_next: Seq<Seq<char>>,
    i: int,
    acc: Seq<Seq<char>>,
)
    requires
        0 <= i <= lines_next.len(),
        lines_here.len() == 1 + lines_next.len(),
        forall|j: int| 0 <= j < lines_next.len() ==> #[trigger] lines_next[j] == lines_here[j + 1],
    ensures
        warn_lines_from(lines_next, i, acc) == warn_lines_from(lines_here, i + 1, acc),
    decreases lines_next.len() - i,
{
    if i < lines_next.len() {
        match spec_parse_line(lines_next[i]) {
            LineModel::Unrecognized => lemma_warn_lines_align(
                lines_here,
                lines_next,
                i + 1,
                acc.push(lines_next[i]),
            ),
            _ => lemma_warn_lines_align(lines_here, lines_next, i + 1, acc),
        }
    }
}

} // verus!
