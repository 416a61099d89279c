//! The abstract syntax of scripts: conditions and statements, their
//! mathematical models, and how they are read from S-expressions.

use vstd::prelude::*;

use crate::message::{has_flag, received_by_spec, MessageView, ProbeModel};
use crate::sexp::Form;
use crate::text::quoted;
use crate::value::{lemma_pattern_text, pattern_text, PatternError, PatternView};

pub mod cond;
pub mod stmt;

verus! {

pub enum CondModel {
    Or(Seq<CondModel>),
    Flagged(Seq<char>),
    ReceivedBy(PatternView),
}

pub enum StmtModel {
    If(CondModel, Box<StmtModel>, Option<Box<StmtModel>>),
    Append(Seq<char>),
    Flag(Seq<char>),
    Halt,
}

/// Why a form is not a statement or a condition.
#[derive(Debug, Clone, PartialEq, Eq)]
pub enum ParseError {
    /// lexpr could not read the text; its message.
    Read(String),
    /// The form is not a proper list.
    NotAList,
    /// The form is the empty list.
    EmptyList,
    /// The head of the form is not a symbol.
    HeadNotSymbol,
    /// The head names no statement.
    UnknownStmt(String),
    /// The head names no condition.
    UnknownCond(String),
    /// An `if` without its condition.
    MissingCondition,
    /// An `if` without its `then` branch.
    MissingThen,
    /// A string argument is missing or is not a string.
    BadArgument,
    /// A `received-by` pattern that does not parse.
    Pattern(PatternError),
}

pub enum ParseErrorModel {
    Read,
    NotAList,
    EmptyList,
    HeadNotSymbol,
    UnknownStmt(Seq<char>),
    UnknownCond(Seq<char>),
    MissingCondition,
    MissingThen,
    BadArgument,
    Pattern(PatternError),
}

impl View for ParseError {
    type V = ParseErrorModel;

    open spec fn view(&self) -> ParseErrorModel {
        match self {
            ParseError::Read(_) => ParseErrorModel::Read,
            ParseError::NotAList => ParseErrorModel::NotAList,
            ParseError::EmptyList => ParseErrorModel::EmptyList,
            ParseError::HeadNotSymbol => ParseErrorModel::HeadNotSymbol,
            ParseError::UnknownStmt(s) => ParseErrorModel::UnknownStmt(s@),
            ParseError::UnknownCond(s) => ParseErrorModel::UnknownCond(s@),
            ParseError::MissingCondition => ParseErrorModel::MissingCondition,
            ParseError::MissingThen => ParseErrorModel::MissingThen,
            ParseError::BadArgument => ParseErrorModel::BadArgument,
            ParseError::Pattern(e) => ParseErrorModel::Pattern(*e),
        }
    }
}

/// The string argument at position `i` of a form's items.
pub open spec fn str_arg(items: Seq<Form>, i: int) -> Result<Seq<char>, ParseErrorModel> {
    if i < items.len() {
        match items[i] {
            Form::Str(s) => Ok(s),
            _ => Err(ParseErrorModel::BadArgument),
        }
    } else {
        Err(ParseErrorModel::BadArgument)
    }
}

/// The condition that a form denotes.
pub open spec fn cond_of(f: Form) -> Result<CondModel, ParseErrorModel>
    decreases f,
{
    match f {
        Form::List(items) => if items.len() == 0 {
            Err(ParseErrorModel::EmptyList)
        } else {
            match items[0] {
                Form::Symbol(h) => if h == "or"@ {
                    match conds_of(items.drop_first()) {
                        Ok(cs) => Ok(CondModel::Or(cs)),
                        Err(e) => Err(e),
                    }
                } else if h == "flagged"@ {
                    match str_arg(items, 1) {
                        Ok(s) => Ok(CondModel::Flagged(s)),
                        Err(e) => Err(e),
                    }
                } else if h == "received-by"@ {
                    match str_arg(items, 1) {
                        Ok(s) => match crate::value::parse_pattern(s) {
                            Ok(p) => Ok(CondModel::ReceivedBy(p)),
                            Err(e) => Err(ParseErrorModel::Pattern(e)),
                        },
                        Err(e) => Err(e),
                    }
                } else {
                    Err(ParseErrorModel::UnknownCond(h))
                },
                _ => Err(ParseErrorModel::HeadNotSymbol),
            }
        },
        _ => Err(ParseErrorModel::NotAList),
    }
}

/// The conditions that a sequence of forms denotes; the first error wins.
pub open spec fn conds_of(fs: Seq<Form>) -> Result<Seq<CondModel>, ParseErrorModel>
    decreases fs,
{
    if fs.len() == 0 {
        Ok(Seq::empty())
    } else {
        match cond_of(fs[0]) {
            Err(e) => Err(e),
            Ok(c) => match conds_of(fs.drop_first()) {
                Err(e) => Err(e),
                Ok(cs) => Ok(seq![c] + cs),
            },
        }
    }
}

/// The statement that a form denotes.
pub open spec fn stmt_of(f: Form) -> Result<StmtModel, ParseErrorModel>
    decreases f,
{
    match f {
        Form::List(items) => if items.len() == 0 {
            Err(ParseErrorModel::EmptyList)
        } else {
            match items[0] {
                Form::Symbol(h) => if h == "if"@ {
                    if items.len() < 2 {
                        Err(ParseErrorModel::MissingCondition)
                    } else {
                        match cond_of(items[1]) {
                            Err(e) => Err(e),
                            Ok(c) => if items.len() < 3 {
                                Err(ParseErrorModel::MissingThen)
                            } else {
                                match stmt_of(items[2]) {
                                    Err(e) => Err(e),
                                    Ok(t) => if items.len() < 4 {
                                        Ok(StmtModel::If(c, Box::new(t), None))
                                    } else {
                                        match stmt_of(items[3]) {
                                            Err(e) => Err(e),
                                            Ok(e) => Ok(StmtModel::If(c, Box::new(t), Some(Box::new(e)))),
                                        }
                                    },
                                }
                            },
                        }
                    }
                } else if h == "append!"@ {
                    match str_arg(items, 1) {
                        Ok(s) => Ok(StmtModel::Append(s)),
                        Err(e) => Err(e),
                    }
                } else if h == "flag!"@ {
                    match str_arg(items, 1) {
                        Ok(s) => Ok(StmtModel::Flag(s)),
                        Err(e) => Err(e),
                    }
                } else if h == "halt!"@ {
                    Ok(StmtModel::Halt)
                } else {
                    Err(ParseErrorModel::UnknownStmt(h))
                },
                _ => Err(ParseErrorModel::HeadNotSymbol),
            }
        },
        _ => Err(ParseErrorModel::NotAList),
    }
}

/// The statements that a sequence of forms denotes; the first error wins.
pub open spec fn stmts_of(fs: Seq<Form>) -> Result<Seq<StmtModel>, ParseErrorModel>
    decreases fs.len(),
{
    if fs.len() == 0 {
        Ok(Seq::empty())
    } else {
        match stmt_of(fs[0]) {
            Err(e) => Err(e),
            Ok(s) => match stmts_of(fs.drop_first()) {
                Err(e) => Err(e),
                Ok(ss) => Ok(seq![s] + ss),
            },
        }
    }
}

/// The form that a condition is printed as.
pub open spec fn cond_form(c: CondModel) -> Form
    decreases c,
{
    match c {
        CondModel::Or(cs) => Form::List(
            seq![Form::Symbol("or"@)] + Seq::new(
                cs.len(),
                |i: int|
                    if 0 <= i < cs.len() {
                        cond_form(cs[i])
                    } else {
                        Form::Other
                    },
            ),
        ),
        CondModel::Flagged(l) => Form::List(seq![Form::Symbol("flagged"@), Form::Str(l)]),
        CondModel::ReceivedBy(p) => Form::List(
            seq![Form::Symbol("received-by"@), Form::Str(pattern_text(p))],
        ),
    }
}

pub open spec fn cond_forms(cs: Seq<CondModel>) -> Seq<Form> {
    Seq::new(cs.len(), |i: int| cond_form(cs[i]))
}

/// The form that a statement is printed as.
pub open spec fn stmt_form(s: StmtModel) -> Form
    decreases s,
{
    match s {
        StmtModel::If(c, t, e) => Form::List(
            seq![Form::Symbol("if"@), cond_form(c), stmt_form(*t)] + match e {
                Some(e) => seq![stmt_form(*e)],
                None => Seq::empty(),
            },
        ),
        StmtModel::Append(n) => Form::List(seq![Form::Symbol("append!"@), Form::Str(n)]),
        StmtModel::Flag(l) => Form::List(seq![Form::Symbol("flag!"@), Form::Str(l)]),
        StmtModel::Halt => Form::List(seq![Form::Symbol("halt!"@)]),
    }
}

pub open spec fn stmt_forms(ss: Seq<StmtModel>) -> Seq<Form> {
    Seq::new(ss.len(), |i: int| stmt_form(ss[i]))
}

pub proof fn lemma_words_differ()
    ensures
        "or"@ != "flagged"@,
        "or"@ != "received-by"@,
        "flagged"@ != "received-by"@,
        "if"@ != "append!"@,
        "if"@ != "flag!"@,
        "if"@ != "halt!"@,
        "append!"@ != "flag!"@,
        "append!"@ != "halt!"@,
        "flag!"@ != "halt!"@,
{
    reveal_strlit("or");
    reveal_strlit("flagged");
    reveal_strlit("received-by");
    reveal_strlit("if");
    reveal_strlit("append!");
    reveal_strlit("flag!");
    reveal_strlit("halt!");
    assert("or"@.len() != "flagged"@.len());
    assert("or"@.len() != "received-by"@.len());
    assert("flagged"@.len() != "received-by"@.len());
    assert("if"@.len() != "append!"@.len());
    assert("if"@.len() != "flag!"@.len());
    assert("if"@.len() != "halt!"@.len());
    assert("append!"@.len() != "flag!"@.len());
    assert("append!"@.len() != "halt!"@.len());
    assert("flag!"@[1] != "halt!"@[1]);
}

/// A condition read from a form is read again from the form it prints as.
pub proof fn lemma_cond_round_trip(f: Form)
    requires
        cond_of(f) is Ok,
    ensures
        cond_of(cond_form(cond_of(f)->Ok_0)) == cond_of(f),
    decreases f,
{
    lemma_words_differ();
    let c = cond_of(f)->Ok_0;
    let items = f->List_0;
    match c {
        CondModel::Or(cs) => {
            lemma_conds_round_trip(items.drop_first());
            let g = cond_form(c)->List_0;
            assert(g.drop_first() =~= cond_forms(cs));
        },
        CondModel::Flagged(l) => {},
        CondModel::ReceivedBy(p) => {
            lemma_pattern_text(str_arg(items, 1)->Ok_0);
        },
    }
}

pub proof fn lemma_conds_round_trip(fs: Seq<Form>)
    requires
        conds_of(fs) is Ok,
    ensures
        conds_of(cond_forms(conds_of(fs)->Ok_0)) == conds_of(fs),
    decreases fs,
{
    let cs = conds_of(fs)->Ok_0;
    let g = cond_forms(cs);
    if fs.len() > 0 {
        lemma_cond_round_trip(fs[0]);
        lemma_conds_round_trip(fs.drop_first());
        let rest = conds_of(fs.drop_first())->Ok_0;
        assert(g[0] == cond_form(cs[0]));
        assert(g.drop_first() =~= cond_forms(rest));
        assert(cs.drop_first() =~= rest);
        assert(seq![cs[0]] + rest =~= cs);
    } else {
        assert(g =~= Seq::<Form>::empty());
    }
}

/// A statement read from a form is read again from the form it prints as.
pub proof fn lemma_stmt_round_trip(f: Form)
    requires
        stmt_of(f) is Ok,
    ensures
        stmt_of(stmt_form(stmt_of(f)->Ok_0)) == stmt_of(f),
    decreases f,
{
    lemma_words_differ();
    let s = stmt_of(f)->Ok_0;
    let items = f->List_0;
    match s {
        StmtModel::If(c, t, e) => {
            lemma_cond_round_trip(items[1]);
            lemma_stmt_round_trip(items[2]);
            if items.len() >= 4 {
                lemma_stmt_round_trip(items[3]);
            }
        },
        _ => {},
    }
}

/// The statements read from forms are read again from the forms they
/// print as.
pub proof fn lemma_stmts_round_trip(fs: Seq<Form>)
    requires
        stmts_of(fs) is Ok,
    ensures
        stmts_of(stmt_forms(stmts_of(fs)->Ok_0)) == stmts_of(fs),
    decreases fs.len(),
{
    let ss = stmts_of(fs)->Ok_0;
    let g = stmt_forms(ss);
    if fs.len() > 0 {
        lemma_stmt_round_trip(fs[0]);
        lemma_stmts_round_trip(fs.drop_first());
        let rest = stmts_of(fs.drop_first())->Ok_0;
        assert(g[0] == stmt_form(ss[0]));
        assert(g.drop_first() =~= stmt_forms(rest));
        assert(ss.drop_first() =~= rest);
        assert(seq![ss[0]] + rest =~= ss);
    } else {
        assert(g =~= Seq::<Form>::empty());
    }
}

/// A form as text: symbols as they are, strings quoted, lists between
/// parentheses with their items separated by one space.
pub open spec fn form_text(f: Form) -> Seq<char>
    decreases f, 1nat,
{
    match f {
        Form::Symbol(s) => s,
        Form::Str(s) => quoted(s),
        Form::List(items) => seq!['('] + if items.len() == 0 {
            Seq::empty()
        } else {
            form_text(items[0]) + spaced(items.drop_first())
        } + seq![')'],
        Form::Other => Seq::empty(),
    }
}

/// Each form as text, preceded by a space.
pub open spec fn spaced(fs: Seq<Form>) -> Seq<char>
    decreases fs, 0nat,
{
    if fs.len() == 0 {
        Seq::empty()
    } else {
        spaced(fs.drop_last()) + seq![' '] + form_text(fs.last())
    }
}

/// A condition as text: the text of its form.
pub open spec fn cond_text(c: CondModel) -> Seq<char> {
    form_text(cond_form(c))
}

/// A statement as text, each statement on a line of its own that starts
/// with `indent`, nested statements indented four more spaces.
pub open spec fn stmt_text(s: StmtModel, indent: Seq<char>) -> Seq<char>
    decreases s,
{
    let ind = indent + "    "@;
    match s {
        StmtModel::If(c, t, e) => seq!['\n'] + indent + "(if "@ + cond_text(c) + stmt_text(*t, ind)
            + match e {
            Some(e) => stmt_text(*e, ind),
            None => Seq::empty(),
        } + seq![')'],
        _ => seq!['\n'] + indent + form_text(stmt_form(s)),
    }
}

/// A script as text: a newline, then each statement followed by a newline.
pub open spec fn script_text(ss: Seq<StmtModel>) -> Seq<char>
    decreases ss.len(),
{
    if ss.len() == 0 {
        seq!['\n']
    } else {
        script_text(ss.drop_last()) + stmt_text(ss.last(), Seq::empty()) + seq!['\n']
    }
}

/// A side effect of a statement, by destination name.
pub enum Effect {
    Append(Seq<char>),
    Flag(Seq<char>),
}

/// What running statements does: the side effects in order, the questions
/// put to the message, and whether a `halt!` stopped them.
pub struct StmtRun {
    pub effects: Seq<Effect>,
    pub probes: Seq<ProbeModel>,
    pub halted: bool,
}

pub open spec fn cond_holds(c: CondModel, m: MessageView) -> bool
    decreases c,
{
    match c {
        CondModel::Or(cs) => or_holds(cs, m),
        CondModel::Flagged(l) => has_flag(m, l),
        CondModel::ReceivedBy(p) => received_by_spec(m, p),
    }
}

/// An `or` holds when one of its operands does.
pub open spec fn or_holds(cs: Seq<CondModel>, m: MessageView) -> bool
    decreases cs,
{
    if cs.len() == 0 {
        false
    } else {
        cond_holds(cs[0], m) || or_holds(cs.drop_first(), m)
    }
}

/// The questions that evaluating `c` puts to the message: an `or` asks its
/// operands from the left and stops at the first that holds.
pub open spec fn cond_probes(c: CondModel, m: MessageView) -> Seq<ProbeModel>
    decreases c,
{
    match c {
        CondModel::Or(cs) => or_probes(cs, m),
        CondModel::Flagged(l) => seq![ProbeModel::Flagged(l)],
        CondModel::ReceivedBy(p) => seq![ProbeModel::ReceivedBy(p)],
    }
}

pub open spec fn or_probes(cs: Seq<CondModel>, m: MessageView) -> Seq<ProbeModel>
    decreases cs,
{
    if cs.len() == 0 {
        Seq::empty()
    } else {
        cond_probes(cs[0], m) + if cond_holds(cs[0], m) {
            Seq::empty()
        } else {
            or_probes(cs.drop_first(), m)
        }
    }
}

pub open spec fn no_run() -> StmtRun {
    StmtRun { effects: Seq::empty(), probes: Seq::empty(), halted: false }
}

pub open spec fn stmt_run(s: StmtModel, m: MessageView) -> StmtRun
    decreases s,
{
    match s {
        StmtModel::If(c, t, e) => {
            let r = if cond_holds(c, m) {
                stmt_run(*t, m)
            } else {
                match e {
                    Some(e) => stmt_run(*e, m),
                    None => no_run(),
                }
            };
            StmtRun { probes: cond_probes(c, m) + r.probes, ..r }
        },
        StmtModel::Append(n) => StmtRun { effects: seq![Effect::Append(n)], ..no_run() },
        StmtModel::Flag(l) => StmtRun { effects: seq![Effect::Flag(l)], ..no_run() },
        StmtModel::Halt => StmtRun { halted: true, ..no_run() },
    }
}

/// Statements run one after the other until one halts.
pub open spec fn stmts_run(ss: Seq<StmtModel>, m: MessageView) -> StmtRun
    decreases ss.len(),
{
    if ss.len() == 0 {
        no_run()
    } else {
        let r = stmt_run(ss[0], m);
        if r.halted {
            r
        } else {
            let r2 = stmts_run(ss.drop_first(), m);
            StmtRun {
                effects: r.effects + r2.effects,
                probes: r.probes + r2.probes,
                halted: r2.halted,
            }
        }
    }
}

} // verus!
