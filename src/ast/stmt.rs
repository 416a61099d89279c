//! Statements: what a script does with a message.

use vstd::prelude::*;

use super::cond::{string_arg, Cond};
use super::{cond_of, form_text, spaced, stmt_form, stmt_of, stmt_text, ParseError, ParseErrorModel, StmtModel};
use crate::text::{push_char, push_quoted, push_str, quoted};
use crate::sexp::{forms_of, lemma_list_form, word_eq, Form, SExp};
use crate::value::{Destination, Flag};

verus! {

#[derive(Debug)]
pub enum Stmt {
    If(Cond, Box<Stmt>, Option<Box<Stmt>>),
    Append(Destination),
    Flag(Flag),
    Halt,
}

pub open spec fn stmt_model(s: Stmt) -> StmtModel
    decreases s,
{
    match s {
        Stmt::If(c, t, e) => StmtModel::If(
            c@,
            Box::new(stmt_model(*t)),
            match e {
                Some(e) => Some(Box::new(stmt_model(*e))),
                None => None,
            },
        ),
        Stmt::Append(d) => StmtModel::Append(d.0@),
        Stmt::Flag(fl) => StmtModel::Flag(fl.0@),
        Stmt::Halt => StmtModel::Halt,
    }
}

impl View for Stmt {
    type V = StmtModel;

    open spec fn view(&self) -> StmtModel {
        stmt_model(*self)
    }
}

impl Stmt {
    /// The statement as text, on a line that starts with `indent`.
    pub fn pp(&self, indent: &str) -> (r: String)
        ensures
            r@ == stmt_text(self@, indent@),
    {
        let mut out = String::new();
        self.push_pp(&mut out, indent);
        assert(out@ =~= stmt_text(self@, indent@));
        out
    }

    /// Appends the statement as text to `out`.
    pub fn push_pp(&self, out: &mut String, indent: &str)
        ensures
            final(out)@ == old(out)@ + stmt_text(self@, indent@),
        decreases self,
    {
        let ghost start = out@;
        push_char(out, '\n');
        push_str(out, indent);
        match self {
            Stmt::If(c, t, e) => {
                push_str(out, "(if ");
                c.push_text(out);
                let mut ind = indent.to_owned();
                push_str(&mut ind, "    ");
                t.push_pp(out, ind.as_str());
                if let Some(e) = e {
                    e.push_pp(out, ind.as_str());
                }
                push_char(out, ')');
                assert(out@ =~= start + stmt_text(self@, indent@));
            },
            _ => {
                let ghost f = stmt_form(self@);
                let ghost items = f->List_0;
                push_char(out, '(');
                match self {
                    Stmt::Append(d) => {
                        push_str(out, "append!");
                        push_char(out, ' ');
                        push_quoted(out, d.0.as_str());
                        assert(items.drop_first() =~= seq![Form::Str(d.0@)]);
                        assert(seq![Form::Str(d.0@)].drop_last() =~= Seq::<Form>::empty());
                        assert(spaced(seq![Form::Str(d.0@)]) =~= spaced(Seq::<Form>::empty()) + seq![' ']
                            + form_text(Form::Str(d.0@)));
                    },
                    Stmt::Flag(fl) => {
                        push_str(out, "flag!");
                        push_char(out, ' ');
                        push_quoted(out, fl.0.as_str());
                        assert(items.drop_first() =~= seq![Form::Str(fl.0@)]);
                        assert(seq![Form::Str(fl.0@)].drop_last() =~= Seq::<Form>::empty());
                        assert(spaced(seq![Form::Str(fl.0@)]) =~= spaced(Seq::<Form>::empty()) + seq![' ']
                            + form_text(Form::Str(fl.0@)));
                    },
                    _ => {
                        push_str(out, "halt!");
                        assert(items.drop_first() =~= Seq::<Form>::empty());
                    },
                }
                push_char(out, ')');
                assert(form_text(f) == seq!['('] + (form_text(items[0]) + spaced(items.drop_first()))
                    + seq![')']);
                assert(out@ =~= start + stmt_text(self@, indent@));
            },
        }
    }

    pub fn from_sexp(sexp: &SExp) -> (r: Result<Stmt, ParseError>)
        ensures
            match r {
                Ok(s) => stmt_of(sexp@) == Ok::<StmtModel, ParseErrorModel>(s@),
                Err(e) => stmt_of(sexp@) == Err::<StmtModel, ParseErrorModel>(e@),
            },
        decreases sexp,
    {
        let items = match sexp {
            SExp::List(items) => items,
            _ => return Err(ParseError::NotAList),
        };
        proof {
            lemma_list_form(*items);
        }
        if items.len() == 0 {
            return Err(ParseError::EmptyList);
        }
        let head = match &items[0] {
            SExp::Symbol(h) => h,
            _ => return Err(ParseError::HeadNotSymbol),
        };
        if word_eq(head, "if") {
            if items.len() < 2 {
                return Err(ParseError::MissingCondition);
            }
            let c = Cond::from_sexp(&items[1])?;
            if items.len() < 3 {
                return Err(ParseError::MissingThen);
            }
            let t = Stmt::from_sexp(&items[2])?;
            let e = if items.len() < 4 {
                None
            } else {
                Some(Box::new(Stmt::from_sexp(&items[3])?))
            };
            Ok(Stmt::If(c, Box::new(t), e))
        } else if word_eq(head, "append!") {
            let s = string_arg(items, 1)?;
            Ok(Stmt::Append(Destination(s)))
        } else if word_eq(head, "flag!") {
            let s = string_arg(items, 1)?;
            Ok(Stmt::Flag(Flag(s)))
        } else if word_eq(head, "halt!") {
            Ok(Stmt::Halt)
        } else {
            Err(ParseError::UnknownStmt(head.clone()))
        }
    }
}

} // verus!
