//! The Sway configuration parser: a text, line by line, into a [`Config`].

use super::lex::{
    all_digits, char_pred, digits_value, is_float_literal, is_float_text, is_ws, non_ws_pred,
    parse_i32, parse_u32, spec_parse_i32, spec_parse_u32, split_first, split_first_spec, trim,
    trim_end, trim_end_str, trim_start, trim_start_str, trim_str, ws_pred, find_char,
};
use super::types::{
    BindingFlags, FocusFollowsMouse, no_flags,
    settings_view, Action, ActionModel, BorderStyle, Config, ConfigModel, CriteriaModel,
    Direction, ExecCommand, GapsConfig, InputConfig, InputModel, Keybinding, KeybindingModel,
    LayoutType, Modifier, OutputConfig, OutputModel, RuleActionModel, RuleModel, SplitDirection,
    WindowCriteria, WindowRule, WindowRuleAction, WorkspaceConfig, WorkspaceModel, default_model,
    opt_view,
};
use crate::seq_util::{first_where, lemma_first_where, lemma_first_where_at};
use crate::text::{push_char, str_eq, string_of, to_string};
use vstd::hash_map::StringHashMap;
use vstd::prelude::*;

verus! {

#[verifier::external_type_specification]
#[verifier::external_body]
pub struct ExIoError(std::io::Error);

/// Errors of the configuration parser.
#[derive(Debug)]
pub enum ParseError {
    /// The configuration file could not be read.
    Io(std::io::Error),
    /// A directive is malformed; `line` counts from 1.
    Syntax { line: usize, message: String },
    InvalidResolution(String),
    InvalidPosition(String),
    InvalidNumber(String),
}

/// View of a [`ParseError`] (the I/O error carried as nothing more than its kind).
pub enum ErrorModel {
    Io,
    Syntax { line: usize, message: Seq<char> },
    InvalidResolution(Seq<char>),
    InvalidPosition(Seq<char>),
    InvalidNumber(Seq<char>),
}

impl View for ParseError {
    type V = ErrorModel;

    open spec fn view(&self) -> ErrorModel {
        match self {
            ParseError::Io(_) => ErrorModel::Io,
            ParseError::Syntax { line, message } => ErrorModel::Syntax {
                line: *line,
                message: message@,
            },
            ParseError::InvalidResolution(s) => ErrorModel::InvalidResolution(s@),
            ParseError::InvalidPosition(s) => ErrorModel::InvalidPosition(s@),
            ParseError::InvalidNumber(s) => ErrorModel::InvalidNumber(s@),
        }
    }
}

/// What `char::is_alphanumeric` says of a character (Unicode `Alphabetic` or
/// `Numeric`).
pub uninterp spec fn char_is_alphanumeric(c: char) -> bool;

/// Calls `char::is_alphanumeric`. Claimed: the result is named
/// `char_is_alphanumeric`, and on ASCII it holds exactly of letters and digits.
#[verifier::external_body]
fn is_alphanumeric(c: char) -> (b: bool)
    ensures
        b == char_is_alphanumeric(c),
        (c as u32) < 128 ==> (b <==> (('a' <= c && c <= 'z') || ('A' <= c && c <= 'Z') || (
        '0' <= c && c <= '9'))),
{
    c.is_alphanumeric()
}

// ── Inline comments ─────────────────────────────────────────────

/// Index of the first `#` outside quotes at or after `i`, given the quoting
/// state (`in_quote`, opened by `q`).
pub open spec fn comment_from(s: Seq<char>, i: int, in_quote: bool, q: char) -> Option<int>
    decreases s.len() - i,
{
    if i < 0 || i >= s.len() {
        None
    } else {
        let ch = s[i];
        if !in_quote && (ch == '"' || ch == '\'') {
            comment_from(s, i + 1, true, ch)
        } else if in_quote && ch == q {
            comment_from(s, i + 1, false, q)
        } else if !in_quote && ch == '#' {
            Some(i)
        } else {
            comment_from(s, i + 1, in_quote, q)
        }
    }
}

/// A line without its inline comment: what precedes the first `#` that no
/// single or double quote encloses, without trailing whitespace.
pub open spec fn strip_comment_spec(s: Seq<char>) -> Seq<char> {
    match comment_from(s, 0, false, '"') {
        Some(i) => trim_end(s.take(i)),
        None => s,
    }
}

/// Removes an inline comment (see [`strip_comment_spec`]).
pub fn strip_inline_comment(line: &str) -> (r: &str)
    ensures
        r@ == strip_comment_spec(line@),
{
    let n = line.unicode_len();
    let mut in_quote = false;
    let mut quote_char = '"';
    let mut i: usize = 0;
    while i < n
        invariant
            n == line@.len(),
            0 <= i <= n,
            comment_from(line@, 0, false, '"') == comment_from(line@, i as int, in_quote, quote_char),
        decreases n - i,
    {
        let ch = line.get_char(i);
        if !in_quote && (ch == '"' || ch == '\'') {
            in_quote = true;
            quote_char = ch;
        } else if in_quote && ch == quote_char {
            in_quote = false;
        } else if !in_quote && ch == '#' {
            return trim_end_str(line.substring_char(0, i));
        }
        i = i + 1;
    }
    line
}

// ── Variable substitution ───────────────────────────────────────

/// A character that may stand in a variable name.
pub open spec fn is_name_char(c: char) -> bool {
    char_is_alphanumeric(c) || c == '_'
}

/// Length of the variable name that starts at `i`.
pub open spec fn name_len(s: Seq<char>, i: int) -> nat {
    first_where(s.skip(i), |c: char| !is_name_char(c))
}

/// `s` from index `i` on, with each `$name` replaced by the variable's value;
/// an undefined `$name`, and a `$` with no name, stay as written.
pub open spec fn subst_from(s: Seq<char>, i: int, vars: Map<Seq<char>, Seq<char>>) -> Seq<char>
    decreases s.len() - i,
{
    if i < 0 || i >= s.len() {
        Seq::empty()
    } else if s[i] == '$' {
        let n0 = name_len(s, i + 1);
        let n: nat = if i + 1 + n0 <= s.len() {
            n0
        } else {
            0
        };
        let name = s.subrange(i + 1, i + 1 + n);
        let piece = if n == 0 {
            seq!['$']
        } else if vars.contains_key(name) {
            vars[name]
        } else {
            seq!['$'] + name
        };
        piece + subst_from(s, i + 1 + n, vars)
    } else {
        seq![s[i]] + subst_from(s, i + 1, vars)
    }
}

/// End of the variable name that starts at `start`.
fn name_end(line: &str, start: usize) -> (j: usize)
    requires
        start <= line@.len(),
    ensures
        j == start + name_len(line@, start as int),
        j <= line@.len(),
{
    let n = line.unicode_len();
    let mut j: usize = start;
    while j < n && (is_alphanumeric(line.get_char(j)) || line.get_char(j) == '_')
        invariant
            n == line@.len(),
            start <= j <= n,
            forall|k: int| start <= k < j ==> is_name_char(#[trigger] line@[k]),
        decreases n - j,
    {
        j = j + 1;
    }
    proof {
        let t = line@.skip(start as int);
        assert forall|k: int| 0 <= k < j - start implies !(|c: char| !is_name_char(c))(
            #[trigger] t[k],
        ) by {
            assert(t[k] == line@[k + start]);
        }
        if j < n {
            assert(t[j - start] == line@[j as int]);
        }
        lemma_first_where_at(t, |c: char| !is_name_char(c), j - start);
    }
    j
}

/// Replaces `$name` by the value of the variable `name`, where one is set.
pub fn substitute_vars(line: &str, vars: &StringHashMap<String>) -> (r: String)
    ensures
        r@ == subst_from(line@, 0, settings_view(*vars)),
{
    let ghost vm = settings_view(*vars);
    let n = line.unicode_len();
    let mut result = String::new();
    let mut i: usize = 0;
    while i < n
        invariant
            n == line@.len(),
            0 <= i <= n,
            vm == settings_view(*vars),
            result@ + subst_from(line@, i as int, vm) == subst_from(line@, 0, vm),
        decreases n - i,
    {
        let ch = line.get_char(i);
        let ghost r0 = result@;
        if ch == '$' {
            let j = name_end(line, i + 1);
            let name = line.substring_char(i + 1, j);
            let ghost piece: Seq<char>;
            if j == i + 1 {
                push_char(&mut result, '$');
                proof {
                    piece = seq!['$'];
                }
            } else {
                match vars.get(name) {
                    Some(v) => {
                        result.append(v.as_str());
                        proof {
                            piece = vm[name@];
                        }
                    },
                    None => {
                        push_char(&mut result, '$');
                        result.append(name);
                        proof {
                            piece = seq!['$'] + name@;
                        }
                    },
                }
            }
            assert(name@ =~= line@.subrange(i + 1, i + 1 + name_len(line@, i + 1)));
            assert(subst_from(line@, i as int, vm) == piece + subst_from(line@, j as int, vm));
            assert(result@ == r0 + piece);
            assert(r0 + (piece + subst_from(line@, j as int, vm)) =~= (r0 + piece) + subst_from(
                line@,
                j as int,
                vm,
            ));
            i = j;
        } else {
            push_char(&mut result, ch);
            assert(subst_from(line@, i as int, vm) == seq![ch] + subst_from(line@, i + 1, vm));
            assert(r0 + (seq![ch] + subst_from(line@, i + 1, vm)) =~= (r0.push(ch)) + subst_from(
                line@,
                i + 1,
                vm,
            ));
            i = i + 1;
        }
    }
    result
}

// ── Key bindings and actions ────────────────────────────────────

/// The modifier that a key name stands for (`Ctrl` is `Control`).
pub open spec fn modifier_named(s: Seq<char>) -> Option<Modifier> {
    if s == "Mod1"@ {
        Some(Modifier::Mod1)
    } else if s == "Mod4"@ {
        Some(Modifier::Mod4)
    } else if s == "Shift"@ {
        Some(Modifier::Shift)
    } else if s == "Control"@ || s == "Ctrl"@ {
        Some(Modifier::Control)
    } else if s == "Alt"@ {
        Some(Modifier::Alt)
    } else {
        None
    }
}

/// The modifier named by `s`, if any.
pub fn str_to_modifier(s: &str) -> (r: Option<Modifier>)
    ensures
        r == modifier_named(s@),
{
    if str_eq(s, "Mod1") {
        Some(Modifier::Mod1)
    } else if str_eq(s, "Mod4") {
        Some(Modifier::Mod4)
    } else if str_eq(s, "Shift") {
        Some(Modifier::Shift)
    } else if str_eq(s, "Control") || str_eq(s, "Ctrl") {
        Some(Modifier::Control)
    } else if str_eq(s, "Alt") {
        Some(Modifier::Alt)
    } else {
        None
    }
}

/// A key combination `A+B+...+K`: the leading `+`-separated parts that name
/// modifiers, and the key, which is the rest of the text from the first part
/// that names none (or the last part when all of them name modifiers).
pub open spec fn combo_spec(c: Seq<char>) -> (Seq<Modifier>, Seq<char>)
    decreases c.len(),
{
    let q = first_where(c, char_pred('+'));
    let part = c.take(q as int);
    match modifier_named(part) {
        None => (Seq::empty(), c),
        Some(m) => if q < c.len() {
            let r = combo_spec(c.skip(q as int + 1));
            (seq![m] + r.0, r.1)
        } else {
            (seq![m], part)
        },
    }
}

/// Splits a key combination such as `Mod4+Shift+Return` into its modifiers
/// and its key (see [`combo_spec`]).
pub fn parse_key_combo(combo: &str) -> (r: (Vec<Modifier>, String))
    ensures
        (r.0@, r.1@) == combo_spec(combo@),
{
    let n = combo.unicode_len();
    let mut mods: Vec<Modifier> = Vec::new();
    let mut p: usize = 0;
    assert(combo@.skip(0) =~= combo@);
    assert(mods@ + combo_spec(combo@).0 =~= combo_spec(combo@).0);
    while p <= n
        invariant
            n == combo@.len(),
            0 <= p <= n,
            (mods@ + combo_spec(combo@.skip(p as int)).0, combo_spec(combo@.skip(p as int)).1)
                == combo_spec(combo@),
        decreases n - p,
    {
        let rest = combo.substring_char(p, n);
        assert(rest@ =~= combo@.skip(p as int));
        let q = match find_char(rest, '+') {
            Some(q) => q,
            None => rest.unicode_len(),
        };
        proof {
            lemma_first_where(rest@, char_pred('+'));
        }
        let part = rest.substring_char(0, q);
        assert(part@ =~= rest@.take(q as int));
        match str_to_modifier(part) {
            None => {
                assert(mods@ + Seq::<Modifier>::empty() =~= mods@);
                return (mods, to_string(rest));
            },
            Some(m) => {
                let ghost before = mods@;
                mods.push(m);
                if q < rest.unicode_len() {
                    assert(rest@.skip(q as int + 1) =~= combo@.skip(p + q + 1));
                    let ghost r = combo_spec(rest@.skip(q as int + 1));
                    assert(before + (seq![m] + r.0) =~= mods@ + r.0);
                    p = p + q + 1;
                } else {
                    assert(before + seq![m] =~= mods@);
                    return (mods, to_string(part));
                }
            },
        }
    }
    proof {
        assert(false);
    }
    (mods, String::new())
}

/// The direction that a word names.
pub open spec fn direction_named(s: Seq<char>) -> Option<Direction> {
    if s == "left"@ {
        Some(Direction::Left)
    } else if s == "right"@ {
        Some(Direction::Right)
    } else if s == "up"@ {
        Some(Direction::Up)
    } else if s == "down"@ {
        Some(Direction::Down)
    } else {
        None
    }
}

/// The direction named by `s`, if any.
pub fn str_to_direction(s: &str) -> (r: Option<Direction>)
    ensures
        r == direction_named(s@),
{
    if str_eq(s, "left") {
        Some(Direction::Left)
    } else if str_eq(s, "right") {
        Some(Direction::Right)
    } else if str_eq(s, "up") {
        Some(Direction::Up)
    } else if str_eq(s, "down") {
        Some(Direction::Down)
    } else {
        None
    }
}

/// A workspace name: `number N` stands for `N`; any other text for itself.
pub open spec fn ws_name_spec(s: Seq<char>) -> Seq<char> {
    if s.len() >= 7 && s.take(7) == "number "@ {
        trim(s.skip(7))
    } else {
        s
    }
}

/// Normalises a workspace name (see [`ws_name_spec`]).
pub fn normalize_workspace_name(s: &str) -> (r: String)
    ensures
        r@ == ws_name_spec(s@),
{
    let n = s.unicode_len();
    if n >= 7 && str_eq(s.substring_char(0, 7), "number ") {
        assert(s@.take(7) =~= s@.subrange(0, 7));
        let t = s.substring_char(7, n);
        assert(t@ =~= s@.skip(7));
        to_string(trim_str(t))
    } else {
        proof {
            if s@.len() >= 7 {
                assert(s@.take(7) =~= s@.subrange(0, 7));
            }
        }
        to_string(s)
    }
}

/// The action of a `workspace` command.
pub fn parse_workspace_action(rest: &str) -> (r: Action)
    ensures
        r@ == ActionModel::Workspace(ws_name_spec(rest@)),
{
    Action::Workspace(normalize_workspace_name(rest))
}

/// The action of a `layout` command.
pub open spec fn layout_action_spec(rest: Seq<char>) -> ActionModel {
    if rest == "splith"@ {
        ActionModel::Layout(LayoutType::SplitH)
    } else if rest == "splitv"@ {
        ActionModel::Layout(LayoutType::SplitV)
    } else if rest == "tabbed"@ {
        ActionModel::Layout(LayoutType::Tabbed)
    } else if rest == "stacking"@ {
        ActionModel::Layout(LayoutType::Stacked)
    } else if rest == "toggle"@ || rest == "toggle split"@ {
        ActionModel::Layout(LayoutType::Toggle)
    } else {
        ActionModel::Raw("layout "@ + rest)
    }
}

fn concat_str(a: &str, b: &str) -> (r: String)
    ensures
        r@ == a@ + b@,
{
    let mut r = to_string(a);
    r.append(b);
    r
}

/// Parses the argument of a `layout` command (see [`layout_action_spec`]).
pub fn parse_layout_action(rest: &str) -> (r: Action)
    ensures
        r@ == layout_action_spec(rest@),
{
    if str_eq(rest, "splith") {
        Action::Layout(LayoutType::SplitH)
    } else if str_eq(rest, "splitv") {
        Action::Layout(LayoutType::SplitV)
    } else if str_eq(rest, "tabbed") {
        Action::Layout(LayoutType::Tabbed)
    } else if str_eq(rest, "stacking") {
        Action::Layout(LayoutType::Stacked)
    } else if str_eq(rest, "toggle") || str_eq(rest, "toggle split") {
        Action::Layout(LayoutType::Toggle)
    } else {
        Action::Raw(concat_str("layout ", rest))
    }
}

/// The action of a `move` command: a direction, or `[container|window] to
/// workspace NAME`; anything else is kept verbatim as `move ...`.
pub open spec fn move_action_spec(rest: Seq<char>) -> ActionModel {
    let (first, remainder) = split_first_spec(rest);
    let raw = ActionModel::Raw("move "@ + rest);
    if first == "left"@ {
        ActionModel::Move(Direction::Left)
    } else if first == "right"@ {
        ActionModel::Move(Direction::Right)
    } else if first == "up"@ {
        ActionModel::Move(Direction::Up)
    } else if first == "down"@ {
        ActionModel::Move(Direction::Down)
    } else if first == "container"@ || first == "window"@ {
        let (to, ws_part) = split_first_spec(trim(remainder));
        let (ws_kw, ws_name) = split_first_spec(trim(ws_part));
        if to == "to"@ && ws_kw == "workspace"@ {
            ActionModel::MoveToWorkspace(ws_name_spec(trim(ws_name)))
        } else {
            raw
        }
    } else if first == "to"@ {
        let (ws_kw, ws_name) = split_first_spec(trim(remainder));
        if ws_kw == "workspace"@ {
            ActionModel::MoveToWorkspace(ws_name_spec(trim(ws_name)))
        } else {
            raw
        }
    } else {
        raw
    }
}

/// Parses the argument of a `move` command (see [`move_action_spec`]).
pub fn parse_move_action(rest: &str) -> (r: Action)
    ensures
        r@ == move_action_spec(rest@),
{
    let (first, remainder) = split_first(rest);
    if str_eq(first, "left") {
        Action::Move(Direction::Left)
    } else if str_eq(first, "right") {
        Action::Move(Direction::Right)
    } else if str_eq(first, "up") {
        Action::Move(Direction::Up)
    } else if str_eq(first, "down") {
        Action::Move(Direction::Down)
    } else if str_eq(first, "container") || str_eq(first, "window") {
        let (to, ws_part) = split_first(trim_str(remainder));
        let (ws_kw, ws_name) = split_first(trim_str(ws_part));
        if str_eq(to, "to") && str_eq(ws_kw, "workspace") {
            Action::MoveToWorkspace(normalize_workspace_name(trim_str(ws_name)))
        } else {
            Action::Raw(concat_str("move ", rest))
        }
    } else if str_eq(first, "to") {
        let (ws_kw, ws_name) = split_first(trim_str(remainder));
        if str_eq(ws_kw, "workspace") {
            Action::MoveToWorkspace(normalize_workspace_name(trim_str(ws_name)))
        } else {
            Action::Raw(concat_str("move ", rest))
        }
    } else {
        Action::Raw(concat_str("move ", rest))
    }
}

/// The action of a binding's command text; text that is none of the known
/// commands is kept verbatim.
pub open spec fn action_spec(s: Seq<char>) -> ActionModel {
    let (verb, rest) = split_first_spec(s);
    let r = trim(rest);
    if verb == "exec"@ {
        ActionModel::Exec(r)
    } else if verb == "focus"@ {
        match direction_named(r) {
            Some(d) => ActionModel::Focus(d),
            None => ActionModel::Raw(s),
        }
    } else if verb == "move"@ {
        move_action_spec(r)
    } else if verb == "workspace"@ {
        ActionModel::Workspace(ws_name_spec(r))
    } else if verb == "splith"@ {
        ActionModel::Split(SplitDirection::Horizontal)
    } else if verb == "splitv"@ {
        ActionModel::Split(SplitDirection::Vertical)
    } else if verb == "split"@ {
        if r == "h"@ || r == "horizontal"@ {
            ActionModel::Split(SplitDirection::Horizontal)
        } else if r == "v"@ || r == "vertical"@ {
            ActionModel::Split(SplitDirection::Vertical)
        } else {
            ActionModel::Raw(s)
        }
    } else if verb == "layout"@ {
        layout_action_spec(r)
    } else if verb == "fullscreen"@ {
        ActionModel::Fullscreen
    } else if verb == "floating"@ {
        if r == "toggle"@ {
            ActionModel::ToggleFloating
        } else {
            ActionModel::Raw(s)
        }
    } else if verb == "kill"@ {
        ActionModel::Kill
    } else if verb == "reload"@ {
        ActionModel::Reload
    } else if verb == "exit"@ {
        ActionModel::Exit
    } else {
        ActionModel::Raw(s)
    }
}

/// Parses a binding's command text (see [`action_spec`]).
pub fn parse_action(s: &str) -> (a: Action)
    ensures
        a@ == action_spec(s@),
{
    let (verb, rest) = split_first(s);
    let r = trim_str(rest);
    if str_eq(verb, "exec") {
        Action::Exec(to_string(r))
    } else if str_eq(verb, "focus") {
        match str_to_direction(r) {
            Some(d) => Action::Focus(d),
            None => Action::Raw(to_string(s)),
        }
    } else if str_eq(verb, "move") {
        parse_move_action(r)
    } else if str_eq(verb, "workspace") {
        parse_workspace_action(r)
    } else if str_eq(verb, "splith") {
        Action::Split(SplitDirection::Horizontal)
    } else if str_eq(verb, "splitv") {
        Action::Split(SplitDirection::Vertical)
    } else if str_eq(verb, "split") {
        if str_eq(r, "h") || str_eq(r, "horizontal") {
            Action::Split(SplitDirection::Horizontal)
        } else if str_eq(r, "v") || str_eq(r, "vertical") {
            Action::Split(SplitDirection::Vertical)
        } else {
            Action::Raw(to_string(s))
        }
    } else if str_eq(verb, "layout") {
        parse_layout_action(r)
    } else if str_eq(verb, "fullscreen") {
        Action::Fullscreen
    } else if str_eq(verb, "floating") {
        if str_eq(r, "toggle") {
            Action::ToggleFloating
        } else {
            Action::Raw(to_string(s))
        }
    } else if str_eq(verb, "kill") {
        Action::Kill
    } else if str_eq(verb, "reload") {
        Action::Reload
    } else if str_eq(verb, "exit") {
        Action::Exit
    } else {
        Action::Raw(to_string(s))
    }
}

// ── Directive outcomes ──────────────────────────────────────────

/// What a directive gives: the configuration after it, or an error.
pub type Outcome = Result<ConfigModel, ErrorModel>;

/// How a directive's result and the configuration after it match the expected
/// outcome: `Ok` with that configuration, or `Err` with that error.
pub open spec fn applied(r: Result<(), ParseError>, after: ConfigModel, expect: Outcome) -> bool {
    match expect {
        Ok(c) => r is Ok && after == c,
        Err(e) => match r {
            Ok(_) => false,
            Err(x) => x@ == e,
        },
    }
}

/// A message: the prefix, or the prefix, the detail and a closing quote.
pub open spec fn syntax_text(prefix: Seq<char>, detail: Seq<char>, quoted: bool) -> Seq<char> {
    if quoted {
        prefix + detail + "'"@
    } else {
        prefix
    }
}

fn syntax_error(line: usize, prefix: &str, detail: &str, quoted: bool) -> (e: ParseError)
    ensures
        e@ == (ErrorModel::Syntax { line, message: syntax_text(prefix@, detail@, quoted) }),
{
    if quoted {
        let mut m = concat_str(prefix, detail);
        m.append("'");
        ParseError::Syntax { line, message: m }
    } else {
        ParseError::Syntax { line, message: to_string(prefix) }
    }
}

// ── set ─────────────────────────────────────────────────────────

/// `set $name value`: the value (trimmed) is stored under `name`.
pub open spec fn set_spec(rest: Seq<char>, line: usize, c: ConfigModel) -> Outcome {
    let r = trim(rest);
    if r.len() == 0 || r[0] != '$' {
        Err(
            ErrorModel::Syntax {
                line,
                message: "set 指令需要以 $ 开头的变量名，得到: '"@ + r + "'"@,
            },
        )
    } else {
        let after = r.drop_first();
        if after.len() == 0 || is_ws(after[0]) {
            Err(
                ErrorModel::Syntax {
                    line,
                    message: "set 指令变量名不能为空（$ 后不能有空格）"@,
                },
            )
        } else {
            let (name, value) = split_first_spec(after);
            if name.len() == 0 {
                Err(ErrorModel::Syntax { line, message: "set 指令变量名不能为空"@ })
            } else {
                Ok(ConfigModel { variables: c.variables.insert(name, trim(value)), ..c })
            }
        }
    }
}

/// Parses a `set` directive (see [`set_spec`]).
pub fn parse_set(rest: &str, line_no: usize, config: &mut Config) -> (r: Result<(), ParseError>)
    ensures
        applied(r, final(config)@, set_spec(rest@, line_no, old(config)@)),
{
    let r = trim_str(rest);
    let n = r.unicode_len();
    if n == 0 || r.get_char(0) != '$' {
        return Err(syntax_error(line_no, "set 指令需要以 $ 开头的变量名，得到: '", r, true));
    }
    let after = r.substring_char(1, n);
    assert(after@ =~= r@.drop_first());
    if after.unicode_len() == 0 || crate::config::lex::is_whitespace(after.get_char(0)) {
        return Err(syntax_error(line_no, "set 指令变量名不能为空（$ 后不能有空格）", "", false));
    }
    let (name, value) = split_first(after);
    if name.unicode_len() == 0 {
        return Err(syntax_error(line_no, "set 指令变量名不能为空", "", false));
    }
    let ghost old_vars = config.variables@;
    config.variables.insert(to_string(name), to_string(trim_str(value)));
    assert(settings_view(config.variables) =~= settings_view(old(config).variables).insert(name@, trim(value@)))
        by {
        assert(config.variables@ == old_vars.insert(name@, config.variables@[name@]));
    }
    assert(final(config)@ =~= ConfigModel { variables: old(config)@.variables.insert(name@, trim(value@)), ..old(config)@ });
    Ok(())
}

// ── bindsym, exec, gaps, default_border, font, focus_follows_mouse ──

/// `bindsym COMBO COMMAND`: a binding with the combination's modifiers and
/// key, and the command's action.
pub open spec fn bindsym_spec(rest: Seq<char>, line: usize, c: ConfigModel) -> Outcome {
    let (combo, action_str) = split_first_spec(trim(rest));
    if combo.len() == 0 {
        Err(ErrorModel::Syntax { line, message: "bindsym 缺少按键组合"@ })
    } else {
        let (mods, key) = combo_spec(combo);
        let kb = KeybindingModel {
            modifiers: mods,
            key,
            action: action_spec(trim(action_str)),
            flags: no_flags(),
        };
        Ok(ConfigModel { keybindings: c.keybindings.push(kb), ..c })
    }
}

/// Parses a `bindsym` directive (see [`bindsym_spec`]).
pub fn parse_bindsym(rest: &str, line_no: usize, config: &mut Config) -> (r: Result<(), ParseError>)
    ensures
        applied(r, final(config)@, bindsym_spec(rest@, line_no, old(config)@)),
{
    let (combo, action_str) = split_first(trim_str(rest));
    if combo.unicode_len() == 0 {
        return Err(syntax_error(line_no, "bindsym 缺少按键组合", "", false));
    }
    let (modifiers, key) = parse_key_combo(combo);
    let action = parse_action(trim_str(action_str));
    config.keybindings.push(Keybinding { modifiers, key, action, flags: BindingFlags::none() });
    assert(final(config)@.keybindings =~= old(config)@.keybindings.push(
        config.keybindings@.last()@,
    ));
    Ok(())
}

/// `exec CMD` / `exec_always CMD`: the command text as written.
pub open spec fn exec_spec(rest: Seq<char>, always: bool, c: ConfigModel) -> ConfigModel {
    if always {
        ConfigModel { exec_always: c.exec_always.push(rest), ..c }
    } else {
        ConfigModel { exec_commands: c.exec_commands.push(rest), ..c }
    }
}

/// Records an `exec` or `exec_always` command.
pub fn add_exec(rest: &str, always: bool, config: &mut Config)
    ensures
        final(config)@ == exec_spec(rest@, always, old(config)@),
{
    let cmd = ExecCommand { command: to_string(rest) };
    if always {
        config.exec_always.push(cmd);
        assert(final(config)@.exec_always =~= old(config)@.exec_always.push(rest@));
    } else {
        config.exec_commands.push(cmd);
        assert(final(config)@.exec_commands =~= old(config)@.exec_commands.push(rest@));
    }
}

/// `gaps inner|outer N`: the number is read first (an error names it), then
/// the side.
pub open spec fn gaps_spec(rest: Seq<char>, line: usize, c: ConfigModel) -> Outcome {
    let (direction, value_str) = split_first_spec(trim(rest));
    let v = trim(value_str);
    match spec_parse_u32(v) {
        None => Err(ErrorModel::InvalidNumber(v)),
        Some(n) => if direction == "inner"@ {
            Ok(ConfigModel { gaps: GapsConfig { inner: n, outer: c.gaps.outer }, ..c })
        } else if direction == "outer"@ {
            Ok(ConfigModel { gaps: GapsConfig { inner: c.gaps.inner, outer: n }, ..c })
        } else {
            Err(
                ErrorModel::Syntax {
                    line,
                    message: "gaps 方向必须是 inner 或 outer，得到: '"@ + direction + "'"@,
                },
            )
        },
    }
}

/// Parses a `gaps` directive (see [`gaps_spec`]).
pub fn parse_gaps(rest: &str, line_no: usize, config: &mut Config) -> (r: Result<(), ParseError>)
    ensures
        applied(r, final(config)@, gaps_spec(rest@, line_no, old(config)@)),
{
    let (direction, value_str) = split_first(trim_str(rest));
    let v = trim_str(value_str);
    let value = match parse_u32(v) {
        Some(n) => n,
        None => return Err(ParseError::InvalidNumber(to_string(v))),
    };
    if str_eq(direction, "inner") {
        config.gaps.inner = value;
    } else if str_eq(direction, "outer") {
        config.gaps.outer = value;
    } else {
        return Err(syntax_error(line_no, "gaps 方向必须是 inner 或 outer，得到: '", direction, true));
    }
    assert(final(config)@ =~= match gaps_spec(rest@, line_no, old(config)@) {
        Ok(c) => c,
        Err(_) => final(config)@,
    });
    Ok(())
}

/// A border width: 2 when none is written.
pub open spec fn border_width(w: Seq<char>) -> Result<u32, ErrorModel> {
    if w.len() == 0 {
        Ok(2)
    } else {
        match spec_parse_u32(w) {
            Some(n) => Ok(n),
            None => Err(ErrorModel::InvalidNumber(w)),
        }
    }
}

/// `default_border none|normal [N]|pixel [N]`.
pub open spec fn border_spec(rest: Seq<char>, line: usize, c: ConfigModel) -> Outcome {
    let (style, width_str) = split_first_spec(trim(rest));
    let w = border_width(trim(width_str));
    if style == "none"@ {
        Ok(ConfigModel { default_border: BorderStyle::NoBorder, ..c })
    } else if style == "normal"@ {
        match w {
            Ok(n) => Ok(ConfigModel { default_border: BorderStyle::Normal(n), ..c }),
            Err(e) => Err(e),
        }
    } else if style == "pixel"@ {
        match w {
            Ok(n) => Ok(ConfigModel { default_border: BorderStyle::Pixel(n), ..c }),
            Err(e) => Err(e),
        }
    } else {
        Err(ErrorModel::Syntax { line, message: "未知的边框样式: '"@ + style + "'"@ })
    }
}

fn read_border_width(w: &str) -> (r: Result<u32, ParseError>)
    ensures
        match border_width(w@) {
            Ok(n) => r == Ok::<u32, ParseError>(n),
            Err(e) => r is Err && r->Err_0@ == e,
        },
{
    if w.unicode_len() == 0 {
        Ok(2)
    } else {
        match parse_u32(w) {
            Some(n) => Ok(n),
            None => Err(ParseError::InvalidNumber(to_string(w))),
        }
    }
}

/// Parses a `default_border` directive (see [`border_spec`]).
pub fn parse_default_border(rest: &str, line_no: usize, config: &mut Config) -> (r: Result<
    (),
    ParseError,
>)
    ensures
        applied(r, final(config)@, border_spec(rest@, line_no, old(config)@)),
{
    let (style, width_str) = split_first(trim_str(rest));
    if str_eq(style, "none") {
        config.default_border = BorderStyle::NoBorder;
    } else if str_eq(style, "normal") {
        let w = read_border_width(trim_str(width_str))?;
        config.default_border = BorderStyle::Normal(w);
    } else if str_eq(style, "pixel") {
        let w = read_border_width(trim_str(width_str))?;
        config.default_border = BorderStyle::Pixel(w);
    } else {
        return Err(syntax_error(line_no, "未知的边框样式: '", style, true));
    }
    assert(final(config)@ =~= match border_spec(rest@, line_no, old(config)@) {
        Ok(c) => c,
        Err(_) => final(config)@,
    });
    Ok(())
}

/// `focus_follows_mouse yes|true|1` turns it on, `always` turns it on
/// always; any other value off.
pub open spec fn ffm_value(rest: Seq<char>) -> FocusFollowsMouse {
    let r = trim(rest);
    if r == "yes"@ || r == "true"@ || r == "1"@ {
        FocusFollowsMouse::Yes
    } else if r == "always"@ {
        FocusFollowsMouse::Always
    } else {
        FocusFollowsMouse::No
    }
}

fn focus_follows_mouse_value(rest: &str) -> (b: FocusFollowsMouse)
    ensures
        b == ffm_value(rest@),
{
    let r = trim_str(rest);
    if str_eq(r, "yes") || str_eq(r, "true") || str_eq(r, "1") {
        FocusFollowsMouse::Yes
    } else if str_eq(r, "always") {
        FocusFollowsMouse::Always
    } else {
        FocusFollowsMouse::No
    }
}

// ── Words ───────────────────────────────────────────────────────

/// The whitespace-separated words of `s` (`str::split_whitespace`).
pub open spec fn words(s: Seq<char>) -> Seq<Seq<char>>
    decreases s.len(),
{
    let k = first_where(s, non_ws_pred());
    if k >= s.len() {
        Seq::empty()
    } else {
        let t = s.skip(k as int);
        let p = first_where(t, ws_pred());
        if 0 < p && p <= t.len() {
            seq![t.take(p as int)] + words(t.skip(p as int))
        } else {
            Seq::empty()
        }
    }
}

/// The words of `s` (see [`words`]).
pub fn split_whitespace(s: &str) -> (v: Vec<&str>)
    ensures
        v@.map_values(|w: &str| w@) == words(s@),
{
    let mut v: Vec<&str> = Vec::new();
    let mut rest: &str = s;
    while rest.unicode_len() > 0
        invariant
            v@.map_values(|w: &str| w@) + words(rest@) == words(s@),
        decreases rest@.len(),
    {
        let t = trim_start_str(rest);
        proof {
            lemma_first_where(rest@, non_ws_pred());
        }
        let m = t.unicode_len();
        if m == 0 {
            assert(words(rest@) == Seq::<Seq<char>>::empty());
            assert(v@.map_values(|w: &str| w@) + words(rest@) =~= v@.map_values(|w: &str| w@));
            rest = t;
            assert(words(rest@) =~= Seq::<Seq<char>>::empty());
        } else {
            let p = scan_ws_end(t);
            proof {
                lemma_first_where(t@, ws_pred());
                lemma_first_where(t@, non_ws_pred());
                assert(!is_ws(t@[0]));
            }
            let word = t.substring_char(0, p);
            let ghost before = v@.map_values(|w: &str| w@);
            v.push(word);
            assert(v@.map_values(|w: &str| w@) =~= before.push(word@));
            let next = t.substring_char(p, m);
            assert(word@ =~= t@.take(p as int));
            assert(next@ =~= t@.skip(p as int));
            assert(words(rest@) == seq![word@] + words(next@));
            assert(before + (seq![word@] + words(next@)) =~= before.push(word@) + words(next@));
            rest = next;
        }
    }
    assert(words(rest@) == Seq::<Seq<char>>::empty());
    assert(v@.map_values(|w: &str| w@) + words(rest@) =~= v@.map_values(|w: &str| w@));
    v
}

/// Index of the first whitespace character of `t`, or its length.
fn scan_ws_end(t: &str) -> (p: usize)
    ensures
        p == first_where(t@, ws_pred()),
{
    let n = t.unicode_len();
    let mut i: usize = 0;
    while i < n && !crate::config::lex::is_whitespace(t.get_char(i))
        invariant
            n == t@.len(),
            0 <= i <= n,
            forall|j: int| 0 <= j < i ==> !is_ws(#[trigger] t@[j]),
        decreases n - i,
    {
        i = i + 1;
    }
    proof {
        lemma_first_where_at(t@, ws_pred(), i as int);
    }
    i
}

// ── output ──────────────────────────────────────────────────────

/// `s` without every trailing `Hz` (`str::trim_end_matches("Hz")`).
pub open spec fn strip_hz(z: Seq<char>) -> Seq<char>
    decreases z.len(),
{
    if z.len() >= 2 && z[z.len() - 2] == 'H' && z[z.len() - 1] == 'z' {
        strip_hz(z.take(z.len() - 2))
    } else {
        z
    }
}

/// Whether `s` holds `c` exactly once, at the first index where it occurs.
pub open spec fn single_sep(s: Seq<char>, c: char) -> bool {
    let k = first_where(s, char_pred(c));
    k < s.len() && first_where(s.skip(k + 1int), char_pred(c)) == s.len() - k - 1
}

/// `WxH` or `WxH@RATE[Hz]`: width, height and the rate's text; any defect
/// gives `InvalidResolution` with the whole text.
pub open spec fn resolution_spec(s: Seq<char>) -> Result<(u32, u32, Option<Seq<char>>), ErrorModel> {
    let at = first_where(s, char_pred('@'));
    let dims = s.take(at as int);
    let bad = Err(ErrorModel::InvalidResolution(s));
    if !single_sep(dims, 'x') {
        bad
    } else {
        let x = first_where(dims, char_pred('x'));
        match (spec_parse_u32(dims.take(x as int)), spec_parse_u32(dims.skip(x + 1int))) {
            (Some(w), Some(h)) => if at < s.len() {
                let z = strip_hz(s.skip(at + 1int));
                if is_float_text(z) {
                    Ok((w, h, Some(z)))
                } else {
                    bad
                }
            } else {
                Ok((w, h, None))
            },
            _ => bad,
        }
    }
}

/// Splits `s` at its first `c` when it holds exactly one: the two parts.
fn split_once_exact(s: &str, c: char) -> (r: Option<(&str, &str)>)
    ensures
        match r {
            Some((a, b)) => single_sep(s@, c) && a@ == s@.take(first_where(s@, char_pred(c)) as int)
                && b@ == s@.skip(first_where(s@, char_pred(c)) + 1int),
            None => !single_sep(s@, c),
        },
{
    let n = s.unicode_len();
    match find_char(s, c) {
        None => None,
        Some(k) => {
            let b = s.substring_char(k + 1, n);
            assert(b@ =~= s@.skip(k + 1));
            match find_char(b, c) {
                Some(_) => None,
                None => {
                    let a = s.substring_char(0, k);
                    assert(a@ =~= s@.take(k as int));
                    Some((a, b))
                },
            }
        },
    }
}

fn strip_hz_suffix(z: &str) -> (r: &str)
    ensures
        r@ == strip_hz(z@),
{
    let mut t: &str = z;
    while t.unicode_len() >= 2 && t.get_char(t.unicode_len() - 2) == 'H' && t.get_char(
        t.unicode_len() - 1,
    ) == 'z'
        invariant
            strip_hz(t@) == strip_hz(z@),
        decreases t@.len(),
    {
        let m = t.unicode_len();
        let u = t.substring_char(0, m - 2);
        assert(u@ =~= t@.take(m - 2));
        t = u;
    }
    t
}

/// Parses a resolution (see [`resolution_spec`]).
pub fn parse_resolution(s: &str) -> (r: Result<(u32, u32, Option<String>), ParseError>)
    ensures
        match resolution_spec(s@) {
            Ok((w, h, z)) => r is Ok && r->Ok_0.0 == w && r->Ok_0.1 == h && opt_view(r->Ok_0.2) == z,
            Err(e) => r is Err && r->Err_0@ == e,
        },
{
    let n = s.unicode_len();
    let at = match find_char(s, '@') {
        Some(i) => i,
        None => n,
    };
    proof {
        lemma_first_where(s@, char_pred('@'));
    }
    let dims = s.substring_char(0, at);
    assert(dims@ =~= s@.take(at as int));
    let (ws, hs) = match split_once_exact(dims, 'x') {
        Some(p) => p,
        None => return Err(ParseError::InvalidResolution(to_string(s))),
    };
    let w = match parse_u32(ws) {
        Some(w) => w,
        None => return Err(ParseError::InvalidResolution(to_string(s))),
    };
    let h = match parse_u32(hs) {
        Some(h) => h,
        None => return Err(ParseError::InvalidResolution(to_string(s))),
    };
    if at < n {
        let z0 = s.substring_char(at + 1, n);
        assert(z0@ =~= s@.skip(at + 1));
        let z = strip_hz_suffix(z0);
        if is_float_literal(z) {
            Ok((w, h, Some(to_string(z))))
        } else {
            Err(ParseError::InvalidResolution(to_string(s)))
        }
    } else {
        Ok((w, h, None))
    }
}

/// `X,Y`: two `i32` coordinates; any defect gives `InvalidPosition` with the text.
pub open spec fn position_spec(s: Seq<char>) -> Result<(i32, i32), ErrorModel> {
    let k = first_where(s, char_pred(','));
    if !single_sep(s, ',') {
        Err(ErrorModel::InvalidPosition(s))
    } else {
        match (spec_parse_i32(s.take(k as int)), spec_parse_i32(s.skip(k + 1int))) {
            (Some(x), Some(y)) => Ok((x, y)),
            _ => Err(ErrorModel::InvalidPosition(s)),
        }
    }
}

/// Parses a position (see [`position_spec`]).
pub fn parse_position(s: &str) -> (r: Result<(i32, i32), ParseError>)
    ensures
        match position_spec(s@) {
            Ok(p) => r == Ok::<(i32, i32), ParseError>(p),
            Err(e) => r is Err && r->Err_0@ == e,
        },
{
    let (xs, ys) = match split_once_exact(s, ',') {
        Some(p) => p,
        None => return Err(ParseError::InvalidPosition(to_string(s))),
    };
    match (parse_i32(xs), parse_i32(ys)) {
        (Some(x), Some(y)) => Ok((x, y)),
        _ => Err(ParseError::InvalidPosition(to_string(s))),
    }
}

/// The properties of an `output` line, applied in order; an unknown word is
/// skipped, and a keyword with nothing after it ends the line.
pub open spec fn output_props(toks: Seq<Seq<char>>, out: OutputModel) -> Result<OutputModel, ErrorModel>
    decreases toks.len(),
{
    if toks.len() == 0 {
        Ok(out)
    } else {
        let t = toks[0];
        let more = toks.len() > 1;
        if t == "resolution"@ || t == "mode"@ {
            if more {
                match resolution_spec(toks[1]) {
                    Err(e) => Err(e),
                    Ok((w, h, z)) => output_props(
                        toks.skip(2),
                        OutputModel { resolution: Some((w, h)), refresh_rate: z, ..out },
                    ),
                }
            } else {
                Ok(out)
            }
        } else if t == "position"@ || t == "pos"@ {
            if more {
                match position_spec(toks[1]) {
                    Err(e) => Err(e),
                    Ok(p) => output_props(toks.skip(2), OutputModel { position: Some(p), ..out }),
                }
            } else {
                Ok(out)
            }
        } else if t == "scale"@ {
            if more {
                if is_float_text(toks[1]) {
                    output_props(toks.skip(2), OutputModel { scale: Some(toks[1]), ..out })
                } else {
                    Err(ErrorModel::InvalidNumber(toks[1]))
                }
            } else {
                Ok(out)
            }
        } else if t == "transform"@ {
            if more {
                output_props(toks.skip(2), OutputModel { transform: Some(toks[1]), ..out })
            } else {
                Ok(out)
            }
        } else {
            output_props(toks.skip(1), out)
        }
    }
}

pub open spec fn same_output_name(name: Seq<char>) -> spec_fn(OutputModel) -> bool {
    |o: OutputModel| o.name == name
}

/// Adds an output, or replaces the first one with the same name.
pub open spec fn upsert_output(outs: Seq<OutputModel>, o: OutputModel) -> Seq<OutputModel> {
    let k = first_where(outs, same_output_name(o.name));
    if k < outs.len() {
        outs.update(k as int, o)
    } else {
        outs.push(o)
    }
}

/// `output NAME PROPS...` (an `output` line without a name does nothing).
pub open spec fn output_spec(rest: Seq<char>, c: ConfigModel) -> Outcome {
    let (name, props) = split_first_spec(trim(rest));
    if name.len() == 0 {
        Ok(c)
    } else {
        let fresh = OutputModel {
            name,
            resolution: None,
            refresh_rate: None,
            position: None,
            scale: None,
            transform: None,
            enable: None,
            power: None,
            dpms: None,
            bg: None,
            scale_filter: None,
            adaptive_sync: None,
            subpixel: None,
            max_render_time: None,
            color_profile: None,
            allow_tearing: None,
        };
        match output_props(words(props), fresh) {
            Err(e) => Err(e),
            Ok(o) => Ok(ConfigModel { outputs: upsert_output(c.outputs, o), ..c }),
        }
    }
}

fn apply_output_props(toks: &Vec<&str>, out: &mut OutputConfig) -> (r: Result<(), ParseError>)
    ensures
        match output_props(toks@.map_values(|w: &str| w@), old(out)@) {
            Ok(o) => r is Ok && final(out)@ == o,
            Err(e) => r is Err && r->Err_0@ == e,
        },
{
    let ghost all = toks@.map_values(|w: &str| w@);
    let mut i: usize = 0;
    assert(all.skip(0) =~= all);
    while i < toks.len()
        invariant
            0 <= i <= toks@.len(),
            all == toks@.map_values(|w: &str| w@),
            output_props(all, old(out)@) == output_props(all.skip(i as int), out@),
        decreases toks@.len() - i,
    {
        let t = toks[i];
        let ghost rest = all.skip(i as int);
        assert(rest[0] == t@);
        let more = i + 1 < toks.len();
        if more {
            assert(rest[1] == toks[i + 1 as int]@);
            assert(rest.skip(2) =~= all.skip(i + 2));
        }
        assert(rest.skip(1) =~= all.skip(i + 1));
        if str_eq(t, "resolution") || str_eq(t, "mode") {
            if more {
                match parse_resolution(toks[i + 1]) {
                    Err(e) => return Err(e),
                    Ok((w, h, z)) => {
                        out.resolution = Some((w, h));
                        out.refresh_rate = z;
                    },
                }
                i = i + 2;
            } else {
                i = i + 1;
                assert(all.skip(i as int) =~= Seq::<Seq<char>>::empty());
            }
        } else if str_eq(t, "position") || str_eq(t, "pos") {
            if more {
                match parse_position(toks[i + 1]) {
                    Err(e) => return Err(e),
                    Ok(p) => {
                        out.position = Some(p);
                    },
                }
                i = i + 2;
            } else {
                i = i + 1;
                assert(all.skip(i as int) =~= Seq::<Seq<char>>::empty());
            }
        } else if str_eq(t, "scale") {
            if more {
                let v = toks[i + 1];
                if !is_float_literal(v) {
                    return Err(ParseError::InvalidNumber(to_string(v)));
                }
                out.scale = Some(to_string(v));
                i = i + 2;
            } else {
                i = i + 1;
                assert(all.skip(i as int) =~= Seq::<Seq<char>>::empty());
            }
        } else if str_eq(t, "transform") {
            if more {
                out.transform = Some(to_string(toks[i + 1]));
                i = i + 2;
            } else {
                i = i + 1;
                assert(all.skip(i as int) =~= Seq::<Seq<char>>::empty());
            }
        } else {
            i = i + 1;
        }
    }
    assert(all.skip(i as int) =~= Seq::<Seq<char>>::empty());
    Ok(())
}

/// Parses an `output` directive (see [`output_spec`]).
pub fn parse_output(rest: &str, config: &mut Config) -> (r: Result<(), ParseError>)
    ensures
        applied(r, final(config)@, output_spec(rest@, old(config)@)),
{
    let (name, props) = split_first(trim_str(rest));
    if name.unicode_len() == 0 {
        return Ok(());
    }
    let mut out = OutputConfig {
        name: to_string(name),
        resolution: None,
        refresh_rate: None,
        position: None,
        scale: None,
        transform: None,
        enable: None,
        power: None,
        dpms: None,
        bg: None,
        scale_filter: None,
        adaptive_sync: None,
        subpixel: None,
        max_render_time: None,
        color_profile: None,
        allow_tearing: None,
    };
    let toks = split_whitespace(props);
    apply_output_props(&toks, &mut out)?;
    let ghost o = out@;
    let ghost outs = old(config)@.outputs;
    let mut k: usize = 0;
    while k < config.outputs.len() && !str_eq(config.outputs[k].name.as_str(), out.name.as_str())
        invariant
            0 <= k <= config.outputs@.len(),
            config.outputs@.map_values(|x: OutputConfig| x@) == outs,
            o == out@,
            forall|j: int| 0 <= j < k ==> !same_output_name(o.name)(#[trigger] outs[j]),
        decreases config.outputs@.len() - k,
    {
        assert(outs[k as int] == config.outputs@[k as int]@);
        k = k + 1;
    }
    proof {
        if k < outs.len() {
            assert(outs[k as int] == config.outputs@[k as int]@);
        }
    }
    if k < config.outputs.len() {
        proof {
            lemma_first_where_at(outs, same_output_name(o.name), k as int);
        }
        config.outputs.set(k, out);
        assert(final(config)@.outputs =~= outs.update(k as int, o));
    } else {
        proof {
            lemma_first_where_at(outs, same_output_name(o.name), k as int);
        }
        config.outputs.push(out);
        assert(final(config)@.outputs =~= outs.push(o));
    }
    Ok(())
}

// ── input ───────────────────────────────────────────────────────

/// The first word of `s`, or a double-quoted identifier when `s` opens with
/// one that is closed, and what follows it.
pub open spec fn quoted_spec(s: Seq<char>) -> (Seq<char>, Seq<char>) {
    let t = trim(s);
    let e = first_where(t.drop_first(), char_pred('"'));
    if t.len() > 0 && t[0] == '"' && e < t.len() - 1 {
        (t.subrange(1, e + 1int), trim_start(t.skip(e + 2int)))
    } else {
        split_first_spec(t)
    }
}

/// Reads an optionally double-quoted first word (see [`quoted_spec`]).
pub fn parse_quoted_or_plain(s: &str) -> (r: (String, &str))
    ensures
        (r.0@, r.1@) == quoted_spec(s@),
{
    let t = trim_str(s);
    let n = t.unicode_len();
    if n > 0 && t.get_char(0) == '"' {
        let inner = t.substring_char(1, n);
        assert(inner@ =~= t@.drop_first());
        match find_char(inner, '"') {
            Some(e) => {
                let ident = t.substring_char(1, e + 1);
                let rest = trim_start_str(t.substring_char(e + 2, n));
                assert(t@.subrange(e + 2, n as int) =~= t@.skip(e + 2));
                return (to_string(ident), rest);
            },
            None => {},
        }
    }
    let (word, rest) = split_first(t);
    (to_string(word), rest)
}

/// The `key value` pairs of a word list, in order (a later pair wins; a last
/// key without a value is dropped).
pub open spec fn pairs_map(ws: Seq<Seq<char>>, m: Map<Seq<char>, Seq<char>>) -> Map<
    Seq<char>,
    Seq<char>,
>
    decreases ws.len(),
{
    if ws.len() >= 2 {
        pairs_map(ws.skip(2), m.insert(ws[0], ws[1]))
    } else {
        m
    }
}

pub open spec fn same_input(id: Seq<char>) -> spec_fn(InputModel) -> bool {
    |i: InputModel| i.identifier == id
}

/// `input IDENT KEY VALUE...`: the settings join those of an input with the
/// same identifier (new values win), or start a new input.
pub open spec fn input_spec(rest: Seq<char>, c: ConfigModel) -> Outcome {
    let (id, props) = quoted_spec(trim(rest));
    if id.len() == 0 {
        Ok(c)
    } else {
        let settings = pairs_map(words(props), Map::empty());
        let k = first_where(c.inputs, same_input(id));
        if k < c.inputs.len() {
            let old_in = c.inputs[k as int];
            let merged = InputModel {
                identifier: old_in.identifier,
                settings: old_in.settings.union_prefer_right(settings),
            };
            Ok(ConfigModel { inputs: c.inputs.update(k as int, merged), ..c })
        } else {
            Ok(ConfigModel { inputs: c.inputs.push(InputModel { identifier: id, settings }), ..c })
        }
    }
}

fn settings_from_words(toks: &Vec<&str>) -> (m: StringHashMap<String>)
    ensures
        settings_view(m) == pairs_map(toks@.map_values(|w: &str| w@), Map::empty()),
{
    let ghost all = toks@.map_values(|w: &str| w@);
    let mut m: StringHashMap<String> = StringHashMap::new();
    let mut i: usize = 0;
    assert(all.skip(0) =~= all);
    assert(settings_view(m) =~= Map::<Seq<char>, Seq<char>>::empty());
    while i < toks.len() && toks.len() - i >= 2
        invariant
            0 <= i <= toks@.len(),
            all == toks@.map_values(|w: &str| w@),
            pairs_map(all, Map::empty()) == pairs_map(all.skip(i as int), settings_view(m)),
        decreases toks@.len() - i,
    {
        let ghost before = settings_view(m);
        let ghost raw = m@;
        let k = toks[i];
        let v = toks[i + 1];
        m.insert(to_string(k), to_string(v));
        assert(m@ == raw.insert(k@, m@[k@]));
        assert(settings_view(m) =~= before.insert(k@, v@));
        assert(all.skip(i as int).skip(2) =~= all.skip(i + 2));
        assert(all.skip(i as int)[0] == k@ && all.skip(i as int)[1] == v@);
        i = i + 2;
    }
    assert(all.skip(i as int).len() < 2);
    m
}

/// Parses an `input` directive (see [`input_spec`]).
pub fn parse_input(rest: &str, config: &mut Config) -> (r: Result<(), ParseError>)
    ensures
        applied(r, final(config)@, input_spec(rest@, old(config)@)),
{
    let (identifier, props) = parse_quoted_or_plain(trim_str(rest));
    if identifier.as_str().unicode_len() == 0 {
        return Ok(());
    }
    let toks = split_whitespace(props);
    let settings = settings_from_words(&toks);
    let ghost sv = settings_view(settings);
    let ghost ins = old(config)@.inputs;
    let mut k: usize = 0;
    while k < config.inputs.len() && !str_eq(config.inputs[k].identifier.as_str(), identifier.as_str())
        invariant
            0 <= k <= config.inputs@.len(),
            config.inputs@.map_values(|x: InputConfig| x@) == ins,
            forall|j: int| 0 <= j < k ==> !same_input(identifier@)(#[trigger] ins[j]),
        decreases config.inputs@.len() - k,
    {
        assert(ins[k as int] == config.inputs@[k as int]@);
        k = k + 1;
    }
    proof {
        if k < ins.len() {
            assert(ins[k as int] == config.inputs@[k as int]@);
        }
        lemma_first_where_at(ins, same_input(identifier@), k as int);
    }
    if k < config.inputs.len() {
        let ghost prev = config.inputs@[k as int];
        let entry = &mut config.inputs[k];
        let ghost raw = entry.settings@;
        entry.settings.union_prefer_right(settings);
        assert(settings_view(entry.settings) =~= settings_view(prev.settings).union_prefer_right(sv));
        assert(final(config)@.inputs =~= ins.update(
            k as int,
            InputModel {
                identifier: ins[k as int].identifier,
                settings: ins[k as int].settings.union_prefer_right(sv),
            },
        ));
    } else {
        let ghost id = identifier@;
        config.inputs.push(InputConfig { identifier, settings });
        assert(final(config)@.inputs =~= ins.push(InputModel { identifier: id, settings: sv }));
    }
    Ok(())
}

// ── for_window ──────────────────────────────────────────────────

pub proof fn lemma_trim_start_len(s: Seq<char>)
    ensures
        trim_start(s).len() <= s.len(),
{
    lemma_first_where(s, non_ws_pred());
}

/// A criterion's value and the text after it. A quoted value runs to the next
/// `"`; without one it runs to the last character, which is dropped. `None`
/// where no value can be cut out so: a lone `"`, or an unclosed quote whose
/// last character is not ASCII.
pub open spec fn crit_value(r2: Seq<char>) -> Option<(Seq<char>, Seq<char>)> {
    if r2.len() > 0 && r2[0] == '"' {
        let q = first_where(r2.drop_first(), char_pred('"'));
        if q < r2.len() - 1 {
            Some((r2.subrange(1, q + 1int), trim_start(r2.skip(q + 2int))))
        } else if r2.len() >= 2 && (r2.last() as u32) < 128 {
            Some((r2.subrange(1, r2.len() - 1), Seq::empty()))
        } else {
            None
        }
    } else {
        let w = first_where(r2, ws_pred());
        Some((r2.take(w as int), trim_start(r2.skip(w as int))))
    }
}

pub proof fn lemma_crit_value_len(r2: Seq<char>)
    ensures
        crit_value(r2) matches Some((v, after)) ==> after.len() <= r2.len(),
{
    lemma_first_where(r2.drop_first(), char_pred('"'));
    lemma_first_where(r2, ws_pred());
    let q = first_where(r2.drop_first(), char_pred('"'));
    let w = first_where(r2, ws_pred());
    lemma_trim_start_len(r2.skip(q + 2int));
    lemma_trim_start_len(r2.skip(w as int));
}

/// Records one criterion (`app_id`, `class`, `title`; others are ignored).
pub open spec fn set_criterion(c: CriteriaModel, key: Seq<char>, value: Seq<char>) -> CriteriaModel {
    if key == "app_id"@ {
        CriteriaModel { app_id: Some(value), ..c }
    } else if key == "class"@ {
        CriteriaModel { class: Some(value), ..c }
    } else if key == "title"@ {
        CriteriaModel { title: Some(value), ..c }
    } else {
        c
    }
}

/// The `key=value` pairs of a criteria block from `rem` on, applied to `c`;
/// `None` where a value cannot be cut out (see [`crit_value`]).
pub open spec fn crit_loop(rem: Seq<char>, c: CriteriaModel) -> Option<CriteriaModel>
    decreases rem.len(),
{
    if rem.len() == 0 {
        Some(c)
    } else {
        let eq = first_where(rem, char_pred('='));
        if eq >= rem.len() {
            Some(c)
        } else {
            let key = trim(rem.take(eq as int));
            let r2 = trim_start(rem.skip(eq + 1int));
            match crit_value(r2) {
                None => None,
                Some((value, after)) => {
                    proof {
                        lemma_trim_start_len(rem.skip(eq + 1int));
                        lemma_crit_value_len(r2);
                    }
                    crit_loop(after, set_criterion(c, key, value))
                },
            }
        }
    }
}

/// The criteria of a `for_window` block.
pub open spec fn criteria_spec(s: Seq<char>) -> Option<CriteriaModel> {
    crit_loop(trim(s), CriteriaModel { app_id: None, class: None, title: None })
}

fn apply_criterion(c: &mut WindowCriteria, key: &str, value: &str)
    ensures
        final(c)@ == set_criterion(old(c)@, key@, value@),
{
    if str_eq(key, "app_id") {
        c.app_id = Some(to_string(value));
    } else if str_eq(key, "class") {
        c.class = Some(to_string(value));
    } else if str_eq(key, "title") {
        c.title = Some(to_string(value));
    }
}

fn cut_value(r2: &str) -> (r: Option<(&str, &str)>)
    ensures
        match r {
            Some((v, a)) => crit_value(r2@) == Some((v@, a@)),
            None => crit_value(r2@) is None,
        },
{
    let n = r2.unicode_len();
    if n > 0 && r2.get_char(0) == '"' {
        let inner = r2.substring_char(1, n);
        assert(inner@ =~= r2@.drop_first());
        match find_char(inner, '"') {
            Some(q) => {
                let v = r2.substring_char(1, q + 1);
                let a = trim_start_str(r2.substring_char(q + 2, n));
                assert(r2@.subrange(q + 2, n as int) =~= r2@.skip(q + 2int));
                Some((v, a))
            },
            None => {
                if n >= 2 && (r2.get_char(n - 1) as u32) < 128 {
                    let v = r2.substring_char(1, n - 1);
                    let a = r2.substring_char(n, n);
                    assert(a@ =~= Seq::<char>::empty());
                    Some((v, a))
                } else {
                    None
                }
            },
        }
    } else {
        let w = scan_ws_end(r2);
        proof {
            lemma_first_where(r2@, ws_pred());
        }
        let v = r2.substring_char(0, w);
        let a = trim_start_str(r2.substring_char(w, n));
        assert(v@ =~= r2@.take(w as int));
        assert(r2@.subrange(w as int, n as int) =~= r2@.skip(w as int));
        Some((v, a))
    }
}

/// Parses the criteria of a `for_window` block (see [`criteria_spec`]).
pub fn parse_window_criteria(s: &str) -> (r: Option<WindowCriteria>)
    ensures
        match r {
            Some(c) => criteria_spec(s@) == Some(c@),
            None => criteria_spec(s@) is None,
        },
{
    let mut criteria = WindowCriteria { app_id: None, class: None, title: None };
    let mut remaining: &str = trim_str(s);
    while remaining.unicode_len() > 0
        invariant
            criteria_spec(s@) == crit_loop(remaining@, criteria@),
        decreases remaining@.len(),
    {
        let n = remaining.unicode_len();
        let eq = match find_char(remaining, '=') {
            Some(e) => e,
            None => {
                return Some(criteria);
            },
        };
        let key = trim_str(remaining.substring_char(0, eq));
        assert(remaining@.subrange(0, eq as int) =~= remaining@.take(eq as int));
        let r2 = trim_start_str(remaining.substring_char(eq + 1, n));
        assert(remaining@.subrange(eq + 1, n as int) =~= remaining@.skip(eq + 1int));
        proof {
            lemma_trim_start_len(remaining@.skip(eq + 1int));
            lemma_crit_value_len(r2@);
        }
        match cut_value(r2) {
            None => {
                return None;
            },
            Some((value, after)) => {
                apply_criterion(&mut criteria, key, value);
                remaining = after;
            },
        }
    }
    Some(criteria)
}

/// The action of a `for_window` rule.
pub open spec fn rule_action_spec(s: Seq<char>, line: usize) -> Result<RuleActionModel, ErrorModel> {
    let (verb, rest) = split_first_spec(trim(s));
    if verb == "floating"@ {
        let sub = split_first_spec(trim(rest)).0;
        if sub == "enable"@ {
            Ok(RuleActionModel::FloatingEnable)
        } else if sub == "disable"@ {
            Ok(RuleActionModel::FloatingDisable)
        } else {
            Err(
                ErrorModel::Syntax {
                    line,
                    message: "未知的 floating 子命令: '"@ + sub + "'"@,
                },
            )
        }
    } else if verb == "move"@ {
        let (to, ws_part) = split_first_spec(trim(rest));
        let (ws_kw, ws_name) = split_first_spec(trim(ws_part));
        if to == "to"@ && ws_kw == "workspace"@ {
            Ok(RuleActionModel::MoveToWorkspace(trim(ws_name)))
        } else {
            Err(
                ErrorModel::Syntax {
                    line,
                    message: "无法解析 for_window move 动作: '"@ + s + "'"@,
                },
            )
        }
    } else if verb == "resize"@ {
        let parts = words(rest);
        if parts.len() >= 2 {
            match spec_parse_i32(parts[0]) {
                None => Err(ErrorModel::InvalidNumber(parts[0])),
                Some(w) => match spec_parse_i32(parts[1]) {
                    None => Err(ErrorModel::InvalidNumber(parts[1])),
                    Some(h) => Ok(RuleActionModel::Resize(w, h)),
                },
            }
        } else {
            Err(ErrorModel::Syntax { line, message: "resize 需要宽度和高度两个参数"@ })
        }
    } else {
        Err(ErrorModel::Syntax { line, message: "未知的 for_window 动作: '"@ + verb + "'"@ })
    }
}

/// Parses the action of a `for_window` rule (see [`rule_action_spec`]).
pub fn parse_window_rule_action(s: &str, line_no: usize) -> (r: Result<WindowRuleAction, ParseError>)
    ensures
        match rule_action_spec(s@, line_no) {
            Ok(a) => r is Ok && r->Ok_0@ == a,
            Err(e) => r is Err && r->Err_0@ == e,
        },
{
    let (verb, rest) = split_first(trim_str(s));
    if str_eq(verb, "floating") {
        let (sub, _) = split_first(trim_str(rest));
        if str_eq(sub, "enable") {
            Ok(WindowRuleAction::FloatingEnable)
        } else if str_eq(sub, "disable") {
            Ok(WindowRuleAction::FloatingDisable)
        } else {
            Err(syntax_error(line_no, "未知的 floating 子命令: '", sub, true))
        }
    } else if str_eq(verb, "move") {
        let (to, ws_part) = split_first(trim_str(rest));
        let (ws_kw, ws_name) = split_first(trim_str(ws_part));
        if str_eq(to, "to") && str_eq(ws_kw, "workspace") {
            Ok(WindowRuleAction::MoveToWorkspace(to_string(trim_str(ws_name))))
        } else {
            Err(syntax_error(line_no, "无法解析 for_window move 动作: '", s, true))
        }
    } else if str_eq(verb, "resize") {
        let parts = split_whitespace(rest);
        assert(parts@.map_values(|w: &str| w@).len() == parts@.len());
        if parts.len() >= 2 {
            assert(parts@.map_values(|w: &str| w@)[0] == parts[0]@);
            assert(parts@.map_values(|w: &str| w@)[1] == parts[1]@);
            let w = match parse_i32(parts[0]) {
                Some(w) => w,
                None => return Err(ParseError::InvalidNumber(to_string(parts[0]))),
            };
            let h = match parse_i32(parts[1]) {
                Some(h) => h,
                None => return Err(ParseError::InvalidNumber(to_string(parts[1]))),
            };
            Ok(WindowRuleAction::Resize(w, h))
        } else {
            Err(syntax_error(line_no, "resize 需要宽度和高度两个参数", "", false))
        }
    } else {
        Err(syntax_error(line_no, "未知的 for_window 动作: '", verb, true))
    }
}

/// `for_window [CRITERIA] ACTION`; `None` where the criteria cannot be read
/// (see [`crit_value`]).
pub open spec fn for_window_spec(rest: Seq<char>, line: usize, c: ConfigModel) -> Option<Outcome> {
    let r = trim(rest);
    let e = first_where(r, char_pred(']'));
    if r.len() == 0 || r[0] != '[' {
        Some(Err(ErrorModel::Syntax { line, message: "for_window 需要以 [ 开头的条件块"@ }))
    } else if e >= r.len() {
        Some(Err(ErrorModel::Syntax { line, message: "for_window 条件块缺少 ]"@ }))
    } else {
        match criteria_spec(r.subrange(1, e as int)) {
            None => None,
            Some(crit) => match rule_action_spec(trim(r.skip(e + 1int)), line) {
                Err(err) => Some(Err(err)),
                Ok(a) => Some(
                    Ok(ConfigModel {
                        window_rules: c.window_rules.push(RuleModel { criteria: crit, action: a }),
                        ..c
                    }),
                ),
            },
        }
    }
}

/// Parses a `for_window` directive (see [`for_window_spec`]).
pub fn parse_for_window(rest: &str, line_no: usize, config: &mut Config) -> (r: Option<
    Result<(), ParseError>,
>)
    ensures
        match for_window_spec(rest@, line_no, old(config)@) {
            None => r is None,
            Some(o) => r is Some && applied(r->0, final(config)@, o),
        },
{
    let r = trim_str(rest);
    let n = r.unicode_len();
    if n == 0 || r.get_char(0) != '[' {
        return Some(Err(syntax_error(line_no, "for_window 需要以 [ 开头的条件块", "", false)));
    }
    let end = match find_char(r, ']') {
        Some(e) => e,
        None => {
            return Some(
                Err(syntax_error(line_no, "for_window 条件块缺少 ]", "", false)),
            );
        },
    };
    let criteria = match parse_window_criteria(r.substring_char(1, end)) {
        Some(c) => c,
        None => {
            return None;
        },
    };
    let action_str = trim_str(r.substring_char(end + 1, n));
    assert(r@.subrange(end + 1, n as int) =~= r@.skip(end + 1int));
    let action = match parse_window_rule_action(action_str, line_no) {
        Ok(a) => a,
        Err(e) => {
            return Some(Err(e));
        },
    };
    config.window_rules.push(WindowRule { criteria, action });
    assert(final(config)@.window_rules =~= old(config)@.window_rules.push(
        config.window_rules@.last()@,
    ));
    Some(Ok(()))
}

// ── workspace ───────────────────────────────────────────────────

/// The words after the first `output` keyword, other `output` words left out.
pub open spec fn outputs_after(toks: Seq<Seq<char>>, found: bool) -> Seq<Seq<char>>
    decreases toks.len(),
{
    if toks.len() == 0 {
        Seq::empty()
    } else if toks[0] == "output"@ {
        outputs_after(toks.drop_first(), true)
    } else if found {
        seq![toks[0]] + outputs_after(toks.drop_first(), true)
    } else {
        outputs_after(toks.drop_first(), false)
    }
}

/// `existing` with each of `new`, in order, that it does not hold yet.
pub open spec fn add_new(existing: Seq<Seq<char>>, new: Seq<Seq<char>>) -> Seq<Seq<char>>
    decreases new.len(),
{
    if new.len() == 0 {
        existing
    } else {
        let e2 = if existing.contains(new[0]) {
            existing
        } else {
            existing.push(new[0])
        };
        add_new(e2, new.drop_first())
    }
}

pub open spec fn same_ws(name: Seq<char>) -> spec_fn(WorkspaceModel) -> bool {
    |w: WorkspaceModel| w.name == name
}

/// `workspace NAME [output OUT...]`: the outputs join those of the workspace
/// of that name (each once), or a new workspace is recorded.
pub open spec fn workspace_spec(rest: Seq<char>, c: ConfigModel) -> Outcome {
    let ws = words(rest);
    if ws.len() == 0 {
        Ok(c)
    } else {
        let name = ws[0];
        let outs = outputs_after(ws.drop_first(), false);
        let k = first_where(c.workspaces, same_ws(name));
        if k < c.workspaces.len() {
            let w = c.workspaces[k as int];
            Ok(
                ConfigModel {
                    workspaces: c.workspaces.update(
                        k as int,
                        WorkspaceModel { name: w.name, outputs: add_new(w.outputs, outs) },
                    ),
                    ..c
                },
            )
        } else {
            Ok(
                ConfigModel {
                    workspaces: c.workspaces.push(WorkspaceModel { name, outputs: outs }),
                    ..c
                },
            )
        }
    }
}

fn contains_str(v: &Vec<String>, x: &str) -> (b: bool)
    ensures
        b == v@.map_values(|s: String| s@).contains(x@),
{
    let ghost vv = v@.map_values(|s: String| s@);
    let mut i: usize = 0;
    while i < v.len()
        invariant
            0 <= i <= v@.len(),
            vv == v@.map_values(|s: String| s@),
            forall|j: int| 0 <= j < i ==> vv[j] != x@,
        decreases v@.len() - i,
    {
        if str_eq(v[i].as_str(), x) {
            assert(vv[i as int] == x@);
            return true;
        }
        i = i + 1;
    }
    false
}

/// Parses a `workspace` directive (see [`workspace_spec`]).
pub fn parse_workspace(rest: &str, config: &mut Config) -> (r: Result<(), ParseError>)
    ensures
        applied(r, final(config)@, workspace_spec(rest@, old(config)@)),
{
    let toks = split_whitespace(rest);
    let ghost all = toks@.map_values(|w: &str| w@);
    if toks.len() == 0 {
        return Ok(());
    }
    let name = toks[0];
    assert(all[0] == name@);
    let mut outputs: Vec<String> = Vec::new();
    let mut found = false;
    let mut i: usize = 1;
    assert(all.skip(1) =~= all.drop_first());
    while i < toks.len()
        invariant
            1 <= i <= toks@.len(),
            all == toks@.map_values(|w: &str| w@),
            outputs@.map_values(|s: String| s@) + outputs_after(all.skip(i as int), found)
                == outputs_after(all.drop_first(), false),
        decreases toks@.len() - i,
    {
        let t = toks[i];
        let ghost rest_t = all.skip(i as int);
        assert(rest_t[0] == t@);
        assert(rest_t.drop_first() =~= all.skip(i + 1));
        if str_eq(t, "output") {
            found = true;
        } else if found {
            let ghost before = outputs@.map_values(|s: String| s@);
            outputs.push(to_string(t));
            assert(outputs@.map_values(|s: String| s@) =~= before.push(t@));
            assert(before + (seq![t@] + outputs_after(all.skip(i + 1), true)) =~= before.push(t@)
                + outputs_after(all.skip(i + 1), true));
        }
        i = i + 1;
    }
    assert(all.skip(i as int) =~= Seq::<Seq<char>>::empty());
    assert(outputs@.map_values(|s: String| s@) + Seq::<Seq<char>>::empty() =~= outputs@.map_values(
        |s: String| s@,
    ));
    let ghost outs = outputs@.map_values(|s: String| s@);
    let ghost wss = old(config)@.workspaces;
    let mut k: usize = 0;
    while k < config.workspaces.len() && !str_eq(config.workspaces[k].name.as_str(), name)
        invariant
            0 <= k <= config.workspaces@.len(),
            config.workspaces@.map_values(|x: WorkspaceConfig| x@) == wss,
            forall|j: int| 0 <= j < k ==> !same_ws(name@)(#[trigger] wss[j]),
        decreases config.workspaces@.len() - k,
    {
        assert(wss[k as int] == config.workspaces@[k as int]@);
        k = k + 1;
    }
    proof {
        if k < wss.len() {
            assert(wss[k as int] == config.workspaces@[k as int]@);
        }
        lemma_first_where_at(wss, same_ws(name@), k as int);
    }
    if k < config.workspaces.len() {
        let ghost prev = wss[k as int];
        assert(prev == config.workspaces@[k as int]@);
        let entry = &mut config.workspaces[k];
        let mut j: usize = 0;
        assert(outs.skip(0) =~= outs);
        assert(entry.outputs@.map_values(|s: String| s@) == prev.outputs);
        while j < outputs.len()
            invariant
                0 <= j <= outputs@.len(),
                outs == outputs@.map_values(|s: String| s@),
                add_new(entry.outputs@.map_values(|s: String| s@), outs.skip(j as int)) == add_new(
                    prev.outputs,
                    outs,
                ),
                entry.name@ == prev.name,
            decreases outputs@.len() - j,
        {
            let o = outputs[j].as_str();
            let ghost cur = entry.outputs@.map_values(|s: String| s@);
            assert(outs.skip(j as int)[0] == o@);
            assert(outs.skip(j as int).drop_first() =~= outs.skip(j + 1));
            if !contains_str(&entry.outputs, o) {
                entry.outputs.push(to_string(o));
                assert(entry.outputs@.map_values(|s: String| s@) =~= cur.push(o@));
            }
            j = j + 1;
        }
        assert(outs.skip(j as int) =~= Seq::<Seq<char>>::empty());
        assert(final(config)@.workspaces =~= wss.update(
            k as int,
            WorkspaceModel { name: prev.name, outputs: add_new(prev.outputs, outs) },
        ));
    } else {
        let ws = WorkspaceConfig { name: to_string(name), outputs };
        config.workspaces.push(ws);
        assert(final(config)@.workspaces =~= wss.push(WorkspaceModel { name: name@, outputs: outs }));
    }
    Ok(())
}

// ── Directives and whole texts ──────────────────────────────────

/// How a step that may stop (`None`, where the text cannot be read) matches
/// its expected outcome.
pub open spec fn step_ok(r: Option<Result<(), ParseError>>, after: ConfigModel, expect: Option<
    Outcome,
>) -> bool {
    match expect {
        None => r is None,
        Some(o) => r is Some && applied(r->0, after, o),
    }
}

/// One directive: its first word chooses what it does; unknown directives
/// change nothing.
#[verifier::opaque]
pub open spec fn directive_spec(line: Seq<char>, n: usize, c: ConfigModel) -> Option<Outcome> {
    let (kw, rest) = split_first_spec(line);
    if kw == "set"@ {
        Some(set_spec(rest, n, c))
    } else if kw == "bindsym"@ {
        Some(bindsym_spec(rest, n, c))
    } else if kw == "output"@ {
        Some(output_spec(rest, c))
    } else if kw == "input"@ {
        Some(input_spec(rest, c))
    } else if kw == "exec_always"@ {
        Some(Ok(exec_spec(rest, true, c)))
    } else if kw == "exec"@ {
        Some(Ok(exec_spec(rest, false, c)))
    } else if kw == "gaps"@ {
        Some(gaps_spec(rest, n, c))
    } else if kw == "default_border"@ {
        Some(border_spec(rest, n, c))
    } else if kw == "for_window"@ {
        for_window_spec(rest, n, c)
    } else if kw == "workspace"@ {
        Some(workspace_spec(rest, c))
    } else if kw == "font"@ {
        Some(Ok(ConfigModel { font: Some(rest), ..c }))
    } else if kw == "focus_follows_mouse"@ {
        Some(Ok(ConfigModel { focus_follows_mouse: ffm_value(rest), ..c }))
    } else {
        Some(Ok(c))
    }
}

/// Applies one directive line (see [`directive_spec`]).
pub fn parse_directive(line: &str, line_no: usize, config: &mut Config) -> (r: Option<
    Result<(), ParseError>,
>)
    ensures
        step_ok(r, final(config)@, directive_spec(line@, line_no, old(config)@)),
{
    reveal(directive_spec);
    let (keyword, rest) = split_first(line);
    if str_eq(keyword, "set") {
        Some(parse_set(rest, line_no, config))
    } else if str_eq(keyword, "bindsym") {
        Some(parse_bindsym(rest, line_no, config))
    } else if str_eq(keyword, "output") {
        Some(parse_output(rest, config))
    } else if str_eq(keyword, "input") {
        Some(parse_input(rest, config))
    } else if str_eq(keyword, "exec_always") {
        add_exec(rest, true, config);
        Some(Ok(()))
    } else if str_eq(keyword, "exec") {
        add_exec(rest, false, config);
        Some(Ok(()))
    } else if str_eq(keyword, "gaps") {
        Some(parse_gaps(rest, line_no, config))
    } else if str_eq(keyword, "default_border") {
        Some(parse_default_border(rest, line_no, config))
    } else if str_eq(keyword, "for_window") {
        parse_for_window(rest, line_no, config)
    } else if str_eq(keyword, "workspace") {
        Some(parse_workspace(rest, config))
    } else if str_eq(keyword, "font") {
        config.font = Some(to_string(rest));
        Some(Ok(()))
    } else if str_eq(keyword, "focus_follows_mouse") {
        config.focus_follows_mouse = focus_follows_mouse_value(rest);
        Some(Ok(()))
    } else {
        Some(Ok(()))
    }
}

/// One raw line: blank lines and `#` comment lines do nothing; otherwise the
/// inline comment goes, variables are substituted, and the directive applies.
pub open spec fn line_spec(raw: Seq<char>, n: usize, c: ConfigModel) -> Option<Outcome> {
    let line = trim(raw);
    if line.len() == 0 || line[0] == '#' {
        Some(Ok(c))
    } else {
        directive_spec(trim(subst_from(strip_comment_spec(line), 0, c.variables)), n, c)
    }
}

fn parse_line(raw: &str, line_no: usize, config: &mut Config) -> (r: Option<Result<(), ParseError>>)
    ensures
        step_ok(r, final(config)@, line_spec(raw@, line_no, old(config)@)),
{
    let line = trim_str(raw);
    if line.unicode_len() == 0 || line.get_char(0) == '#' {
        return Some(Ok(()));
    }
    let stripped = strip_inline_comment(line);
    let substituted = substitute_vars(stripped, &config.variables);
    let s = trim_str(substituted.as_str());
    parse_directive(s, line_no, config)
}

pub proof fn lemma_lines_step(s: Seq<char>)
    ensures
        lines_of(s).len() >= 1,
        first_where(s, char_pred('\n')) < s.len() ==> lines_of(s)[0] == s.take(
            first_where(s, char_pred('\n')) as int,
        ) && lines_of(s).drop_first() == lines_of(s.skip(first_where(s, char_pred('\n')) + 1int)),
        first_where(s, char_pred('\n')) >= s.len() ==> lines_of(s) == seq![s],
{
    let k = first_where(s, char_pred('\n'));
    if k < s.len() {
        assert(lines_of(s).drop_first() =~= lines_of(s.skip(k + 1int)));
    }
}

/// The text split at each newline.
pub open spec fn lines_of(s: Seq<char>) -> Seq<Seq<char>>
    decreases s.len(),
{
    let k = first_where(s, char_pred('\n'));
    if k < s.len() {
        seq![s.take(k as int)] + lines_of(s.skip(k + 1int))
    } else {
        seq![s]
    }
}

/// The lines from index `k` on, applied in order to `c`; line numbers count
/// from 1. The first error ends the run.
pub open spec fn run_from(lines: Seq<Seq<char>>, k: int, c: ConfigModel) -> Option<Outcome>
    decreases lines.len() - k,
{
    if k < 0 || k >= lines.len() {
        Some(Ok(c))
    } else {
        match line_spec(lines[k], (k + 1) as usize, c) {
            None => None,
            Some(Err(e)) => Some(Err(e)),
            Some(Ok(c2)) => run_from(lines, k + 1, c2),
        }
    }
}

/// What parsing a whole text gives: `None` where the reading of a
/// `for_window` criteria block cannot proceed, as it would cut a character
/// in two (see [`crit_value`]).
pub open spec fn spec_parse(s: Seq<char>) -> Option<Outcome> {
    run_from(lines_of(s), 0, default_model())
}

/// How a parse result matches an outcome.
pub open spec fn parsed_as(r: Result<Config, ParseError>, o: Outcome) -> bool {
    match o {
        Ok(m) => r is Ok && r->Ok_0@ == m,
        Err(e) => r is Err && r->Err_0@ == e,
    }
}

fn line_end(chars: &Vec<char>, from: usize) -> (e: usize)
    requires
        from <= chars@.len(),
    ensures
        e == from + first_where(chars@.skip(from as int), char_pred('\n')),
        e <= chars@.len(),
{
    let mut i: usize = from;
    while i < chars.len() && chars[i] != '\n'
        invariant
            from <= i <= chars@.len(),
            forall|j: int| from <= j < i ==> chars@[j] != '\n',
        decreases chars@.len() - i,
    {
        i = i + 1;
    }
    proof {
        let t = chars@.skip(from as int);
        assert forall|j: int| 0 <= j < i - from implies !char_pred('\n')(#[trigger] t[j]) by {
            assert(t[j] == chars@[j + from]);
        }
        if i < chars@.len() {
            assert(t[i - from] == chars@[i as int]);
        }
        lemma_first_where_at(t, char_pred('\n'), i - from);
    }
    i
}

/// Parses a configuration text, or gives `None` where the reading cannot
/// proceed (a `for_window` criterion with a lone `"`, or an unclosed quote
/// whose last character is not ASCII: the reading would cut a character).
pub fn try_parse(input: &str) -> (r: Option<Result<Config, ParseError>>)
    requires
        input@.len() < usize::MAX,
    ensures
        match spec_parse(input@) {
            None => r is None,
            Some(o) => r is Some && parsed_as(r->0, o),
        },
{
    let chars = crate::text::chars_of(input);
    let ghost lines = lines_of(input@);
    let mut config = Config::new();
    let mut pos: usize = 0;
    let mut k: usize = 0;
    assert(chars@.skip(0) =~= chars@);
    assert(lines.skip(0) =~= lines);
    loop
        invariant
            chars@ == input@,
            input@.len() < usize::MAX,
            0 <= k <= pos <= chars@.len(),
            lines == lines_of(input@),
            k <= lines.len(),
            lines.skip(k as int) == lines_of(chars@.skip(pos as int)),
            spec_parse(input@) == run_from(lines, k as int, config@),
        decreases chars@.len() - pos,
    {
        let ghost rem = chars@.skip(pos as int);
        let e = line_end(&chars, pos);
        let line = string_of(&chars, pos, e);
        proof {
            lemma_first_where(rem, char_pred('\n'));
            lemma_lines_step(rem);
            assert(line@ =~= rem.take((e - pos) as int));
            assert(lines.skip(k as int)[0] == lines[k as int]);
            if e < chars@.len() {
                assert(line@ =~= lines[k as int]);
            } else {
                assert(rem.take((e - pos) as int) =~= rem);
            }
        }
        let ghost before = config@;
        match parse_line(line.as_str(), k + 1, &mut config) {
            None => {
                return None;
            },
            Some(Err(err)) => {
                return Some(Err(err));
            },
            Some(Ok(())) => {},
        }
        if e == chars.len() {
            assert(lines.skip(k as int).len() == 1);
            assert(run_from(lines, k + 1, config@) == Some(Ok::<ConfigModel, ErrorModel>(config@)));
            return Some(Ok(config));
        }
        proof {
            assert(chars@.skip(e + 1) =~= rem.skip((e - pos) + 1int));
            assert(lines.skip(k + 1) =~= lines.skip(k as int).drop_first());
        }
        pos = e + 1;
        k = k + 1;
    }
}

/// Parses a configuration text. A blank line or a `#` line is skipped; an
/// inline `#` comment outside quotes is dropped; `$name` is replaced by the
/// value of `set $name`; unknown directives are ignored; the first malformed
/// directive gives its error.
pub fn parse(input: &str) -> (r: Result<Config, ParseError>)
    requires
        input@.len() < usize::MAX,
        spec_parse(input@) is Some,
    ensures
        parsed_as(r, spec_parse(input@)->0),
{
    match try_parse(input) {
        Some(r) => r,
        None => {
            proof {
                assert(false);
            }
            Err(ParseError::InvalidNumber(String::new()))
        },
    }
}

// ── Laws ────────────────────────────────────────────────────────

/// A text cut at a newline splits into the lines before it and those after.
pub proof fn lemma_lines_concat(a: Seq<char>, b: Seq<char>)
    ensures
        lines_of(a + seq!['\n'] + b) == lines_of(a) + lines_of(b),
    decreases a.len(),
{
    let s = a + seq!['\n'] + b;
    let k = first_where(a, char_pred('\n'));
    lemma_first_where(a, char_pred('\n'));
    if k < a.len() {
        assert(s[k as int] == a[k as int]);
        assert forall|j: int| 0 <= j < k implies !char_pred('\n')(#[trigger] s[j]) by {
            assert(s[j] == a[j]);
        }
        lemma_first_where_at(s, char_pred('\n'), k as int);
        assert(s.take(k as int) =~= a.take(k as int));
        assert(s.skip(k + 1int) =~= a.skip(k + 1int) + seq!['\n'] + b);
        lemma_lines_concat(a.skip(k + 1int), b);
        assert(lines_of(a) == seq![a.take(k as int)] + lines_of(a.skip(k + 1int)));
        assert(lines_of(s) == seq![s.take(k as int)] + lines_of(s.skip(k + 1int)));
        assert(lines_of(s) =~= lines_of(a) + lines_of(b));
    } else {
        assert(s[a.len() as int] == '\n');
        assert forall|j: int| 0 <= j < a.len() implies !char_pred('\n')(#[trigger] s[j]) by {
            assert(s[j] == a[j]);
        }
        lemma_first_where_at(s, char_pred('\n'), a.len() as int);
        assert(s.take(a.len() as int) =~= a);
        assert(s.skip(a.len() + 1int) =~= b);
        assert(lines_of(a) == seq![a]);
        assert(lines_of(s) =~= lines_of(a) + lines_of(b));
    }
}

/// Running lines in order: the lines from `k` on of `l1 + l2` give what the
/// lines from `k` on of `l1` give, and when those succeed, the run goes on
/// with `l2` from the configuration they reached.
pub proof fn lemma_run_concat(l1: Seq<Seq<char>>, l2: Seq<Seq<char>>, k: int, c: ConfigModel)
    requires
        0 <= k <= l1.len(),
    ensures
        run_from(l1 + l2, k, c) == match run_from(l1, k, c) {
            Some(Ok(c1)) => run_from(l1 + l2, l1.len() as int, c1),
            r => r,
        },
    decreases l1.len() - k,
{
    if k < l1.len() {
        assert((l1 + l2)[k] == l1[k]);
        match line_spec(l1[k], (k + 1) as usize, c) {
            None => {},
            Some(Err(e)) => {},
            Some(Ok(c2)) => {
                lemma_run_concat(l1, l2, k + 1, c2);
            },
        }
    }
}

/// A text is read line after line: the text before a newline gives its
/// configuration or its error, and what follows the newline continues from
/// that configuration, with the line numbers that follow.
pub proof fn lemma_parse_concat(a: Seq<char>, b: Seq<char>)
    ensures
        spec_parse(a + seq!['\n'] + b) == match spec_parse(a) {
            Some(Ok(c1)) => run_from(lines_of(a) + lines_of(b), lines_of(a).len() as int, c1),
            r => r,
        },
{
    lemma_lines_concat(a, b);
    lemma_run_concat(lines_of(a), lines_of(b), 0, default_model());
}

/// A blank line or a `#` comment line changes nothing.
pub proof fn lemma_blank_line(raw: Seq<char>, n: usize, c: ConfigModel)
    requires
        trim(raw).len() == 0 || trim(raw)[0] == '#',
    ensures
        line_spec(raw, n, c) == Some(Ok::<ConfigModel, ErrorModel>(c)),
{
}

/// A directive whose first word the parser does not know changes nothing.
pub proof fn lemma_unknown_directive(line: Seq<char>, n: usize, c: ConfigModel)
    requires
        ({
            let kw = split_first_spec(line).0;
            &&& kw != "set"@
            &&& kw != "bindsym"@
            &&& kw != "output"@
            &&& kw != "input"@
            &&& kw != "exec_always"@
            &&& kw != "exec"@
            &&& kw != "gaps"@
            &&& kw != "default_border"@
            &&& kw != "for_window"@
            &&& kw != "workspace"@
            &&& kw != "font"@
            &&& kw != "focus_follows_mouse"@
        }),
    ensures
        directive_spec(line, n, c) == Some(Ok::<ConfigModel, ErrorModel>(c)),
{
    reveal(directive_spec);
}


// ── Laws of outputs ─────────────────────────────────────────────

/// No two outputs share a name.
pub open spec fn output_names_distinct(outs: Seq<OutputModel>) -> bool {
    forall|i: int, j: int| 0 <= i < j < outs.len() ==> outs[i].name != outs[j].name
}

/// Reading the properties of an output never changes its name.
pub proof fn lemma_output_props_keep_name(toks: Seq<Seq<char>>, out: OutputModel)
    ensures
        output_props(toks, out) matches Ok(o) ==> o.name == out.name,
    decreases toks.len(),
{
    if toks.len() > 0 {
        let t = toks[0];
        let more = toks.len() > 1;
        if t == "resolution"@ || t == "mode"@ {
            if more {
                if let Ok((w, h, z)) = resolution_spec(toks[1]) {
                    lemma_output_props_keep_name(
                        toks.skip(2),
                        OutputModel { resolution: Some((w, h)), refresh_rate: z, ..out },
                    );
                }
            }
        } else if t == "position"@ || t == "pos"@ {
            if more {
                if let Ok(p) = position_spec(toks[1]) {
                    lemma_output_props_keep_name(toks.skip(2), OutputModel { position: Some(p), ..out });
                }
            }
        } else if t == "scale"@ {
            if more {
                lemma_output_props_keep_name(toks.skip(2), OutputModel { scale: Some(toks[1]), ..out });
            }
        } else if t == "transform"@ {
            if more {
                lemma_output_props_keep_name(toks.skip(2), OutputModel { transform: Some(toks[1]), ..out });
            }
        } else {
            lemma_output_props_keep_name(toks.skip(1), out);
        }
    }
}

/// An `output NAME ...` line keeps the outputs' names distinct. It reads
/// the same output whatever outputs are there already (`lone`, what it reads
/// into a configuration without outputs). Where an output called `NAME` is
/// already there, the line replaces it in place by that output: the number
/// of outputs stays and every other output stays where it was; otherwise
/// that output comes last. A line without a name changes nothing.
pub proof fn lemma_output_line_replaces(rest: Seq<char>, c: ConfigModel)
    requires
        output_names_distinct(c.outputs),
    ensures
        ({
            let name = split_first_spec(trim(rest)).0;
            let lone = output_spec(rest, ConfigModel { outputs: Seq::empty(), ..c });
            &&& (output_spec(rest, c) is Ok <==> lone is Ok)
            &&& name.len() == 0 ==> output_spec(rest, c) == Ok::<ConfigModel, ErrorModel>(c)
            &&& output_spec(rest, c) matches Ok(c2) ==> {
                &&& output_names_distinct(c2.outputs)
                &&& forall|i: int| 0 <= i < c.outputs.len() && c.outputs[i].name == name && name.len() > 0 ==> {
                    &&& c2.outputs.len() == c.outputs.len()
                    &&& c2.outputs[i] == lone->Ok_0.outputs[0]
                    &&& c2.outputs[i].name == name
                    &&& forall|j: int| 0 <= j < c.outputs.len() && j != i ==> c2.outputs[j] == c.outputs[j]
                }
                &&& (forall|i: int| 0 <= i < c.outputs.len() ==> c.outputs[i].name != name) && name.len() > 0
                    ==> c2.outputs.len() == c.outputs.len() + 1 && c2.outputs.take(c.outputs.len() as int)
                    == c.outputs && c2.outputs.last() == lone->Ok_0.outputs[0] && c2.outputs.last().name == name
            }
        }),
{
    let (name, props) = split_first_spec(trim(rest));
    if name.len() > 0 {
        let fresh = OutputModel {
            name,
            resolution: None,
            refresh_rate: None,
            position: None,
            scale: None,
            transform: None,
            enable: None,
            power: None,
            dpms: None,
            bg: None,
            scale_filter: None,
            adaptive_sync: None,
            subpixel: None,
            max_render_time: None,
            color_profile: None,
            allow_tearing: None,
        };
        lemma_output_props_keep_name(words(props), fresh);
        let e = Seq::<OutputModel>::empty();
        assert(first_where(e, same_output_name(name)) == 0);
        assert(upsert_output(e, fresh).len() == 1);
        if let Ok(o) = output_props(words(props), fresh) {
            assert(upsert_output(e, o) =~= seq![o]);
            let outs = c.outputs;
            lemma_first_where(outs, same_output_name(name));
            let k = first_where(outs, same_output_name(name)) as int;
            if k < outs.len() {
                assert(outs[k].name == name);
                assert forall|i: int| 0 <= i < outs.len() && outs[i].name == name implies i == k by {
                    if i != k {
                        assert(outs[i].name != outs[k].name);
                    }
                }
            } else {
                assert forall|i: int| 0 <= i < outs.len() implies outs[i].name != name by {
                    assert(!same_output_name(name)(outs[i]));
                }
                assert(outs.push(o).take(outs.len() as int) =~= outs);
            }
        }
    }
}

/// Every directive line other than `output` leaves the outputs as they are.
pub proof fn lemma_line_keeps_outputs_distinct(raw: Seq<char>, n: usize, c: ConfigModel)
    requires
        output_names_distinct(c.outputs),
    ensures
        line_spec(raw, n, c) matches Some(Ok(c2)) ==> output_names_distinct(c2.outputs),
{
    reveal(directive_spec);
    let line = trim(raw);
    if !(line.len() == 0 || line[0] == '#') {
        let d = trim(subst_from(strip_comment_spec(line), 0, c.variables));
        let (kw, rest) = split_first_spec(d);
        if kw == "output"@ {
            lemma_output_line_replaces(rest, c);
        }
    }
}

/// The outputs of a parsed configuration have distinct names: a later
/// `output` line for a name replaces the earlier entry.
pub proof fn lemma_parsed_outputs_distinct(s: Seq<char>)
    ensures
        spec_parse(s) matches Some(Ok(c)) ==> output_names_distinct(c.outputs),
{
    lemma_run_keeps_outputs_distinct(lines_of(s), 0, default_model());
}

proof fn lemma_run_keeps_outputs_distinct(lines: Seq<Seq<char>>, k: int, c: ConfigModel)
    requires
        output_names_distinct(c.outputs),
    ensures
        run_from(lines, k, c) matches Some(Ok(c2)) ==> output_names_distinct(c2.outputs),
    decreases lines.len() - k,
{
    if 0 <= k < lines.len() {
        lemma_line_keeps_outputs_distinct(lines[k], (k + 1) as usize, c);
        if let Some(Ok(c2)) = line_spec(lines[k], (k + 1) as usize, c) {
            lemma_run_keeps_outputs_distinct(lines, k + 1, c2);
        }
    }
}

} // verus!
