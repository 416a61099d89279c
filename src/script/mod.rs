//! Whole scripts: reading them from text, compiling them, and running them
//! directly on their statements.

use vstd::prelude::*;

use crate::ast::stmt::Stmt;
use crate::ast::{script_text, stmts_of, ParseError, ParseErrorModel, StmtModel};
use crate::text::push_char;
use crate::ir::compiler::names;
use crate::ir::{stmt_models, stmts_code, CompileError, CompileErrorModel, IR};
use crate::sexp::{forms_of, read_forms, read_sexps, Form, SExp};

pub mod closure;

use closure::Closure;

verus! {

/// A parsed script: its top-level statements, in order.
pub struct Script(pub Vec<Stmt>);

impl View for Script {
    type V = Seq<StmtModel>;

    open spec fn view(&self) -> Seq<StmtModel> {
        stmt_models(self.0@)
    }
}

/// What `text` parses to: the statements of the forms that lexpr reads.
pub open spec fn parse_script(text: Seq<char>) -> Result<Seq<StmtModel>, ParseErrorModel> {
    match read_forms(text) {
        None => Err(ParseErrorModel::Read),
        Some(fs) => stmts_of(fs),
    }
}

/// Why a script could not be loaded.
#[derive(Debug, Clone, PartialEq, Eq)]
pub enum ScriptError {
    Parse(ParseError),
    Compile(CompileError),
}

impl Script {
    /// The statements that the forms `sexps` denote.
    pub fn from_sexps(sexps: &Vec<SExp>) -> (r: Result<Script, ParseError>)
        ensures
            match stmts_of(forms_of(sexps@)) {
                Ok(ss) => r matches Ok(s) && s@ == ss,
                Err(e) => r matches Err(x) && x@ == e,
            },
    {
        let ghost fs = forms_of(sexps@);
        let mut stmts: Vec<Stmt> = Vec::new();
        let mut i: usize = 0;
        assert(fs.subrange(0, fs.len() as int) == fs);
        while i < sexps.len()
            invariant
                i <= sexps@.len() == fs.len(),
                fs == forms_of(sexps@),
                stmts_of(fs) == match stmts_of(fs.subrange(i as int, fs.len() as int)) {
                    Ok(rest) => Ok(stmt_models(stmts@) + rest),
                    Err(e) => Err(e),
                },
            decreases sexps@.len() - i,
        {
            let ghost sub = fs.subrange(i as int, fs.len() as int);
            assert(sub[0] == sexps@[i as int]@);
            assert(sub.drop_first() == fs.subrange(i + 1, fs.len() as int));
            let s = Stmt::from_sexp(&sexps[i])?;
            let ghost before = stmt_models(stmts@);
            stmts.push(s);
            assert(stmt_models(stmts@) == before + seq![s@]);
            proof {
                match stmts_of(sub.drop_first()) {
                    Ok(rest) => {
                        assert(before + (seq![s@] + rest) == stmt_models(stmts@) + rest);
                    },
                    Err(_) => {},
                }
            }
            i += 1;
        }
        assert(fs.subrange(i as int, fs.len() as int) == Seq::<Form>::empty());
        assert(stmt_models(stmts@) + Seq::<StmtModel>::empty() == stmt_models(stmts@));
        Ok(Script(stmts))
    }

    /// Reads a script from its text.
    pub fn parse(text: &str) -> (r: Result<Script, ParseError>)
        ensures
            match parse_script(text@) {
                Ok(ss) => r matches Ok(s) && s@ == ss,
                Err(e) => r matches Err(x) && x@ == e,
            },
    {
        match read_sexps(text) {
            Err(msg) => Err(ParseError::Read(msg)),
            Ok(sexps) => {
                assert(sexps@.map_values(|e: SExp| e@) == forms_of(sexps@));
                Script::from_sexps(&sexps)
            },
        }
    }

    /// The script as text: a newline, then each statement followed by a
    /// newline.
    pub fn to_text(&self) -> (r: String)
        ensures
            r@ == script_text(self@),
    {
        let mut out = String::new();
        push_char(&mut out, '\n');
        let mut i: usize = 0;
        while i < self.0.len()
            invariant
                i <= self.0@.len(),
                out@ == script_text(self@.take(i as int)),
            decreases self.0@.len() - i,
        {
            self.0[i].push_pp(&mut out, "");
            push_char(&mut out, '\n');
            proof {
                let t = self@.take(i + 1);
                assert(t.drop_last() =~= self@.take(i as int));
                assert(t.last() == self.0@[i as int]@);
                assert(""@ == Seq::<char>::empty()) by {
                    reveal_strlit("");
                }
            }
            i += 1;
        }
        assert(self@.take(i as int) =~= self@);
        out
    }

    /// A direct interpreter of the statements, for the destinations `dests`.
    pub fn closure<'s, 'd>(&'s self, dests: &'d Vec<String>) -> (r: Closure<'s, 'd>)
        ensures
            r.script@ == self@,
            names(r.dests@) == names(dests@),
    {
        Closure::new(self, dests)
    }

    /// Compiles the script; `dests` names the destinations it may use.
    pub fn compile(&self, dests: Vec<String>) -> (r: Result<IR, CompileError>)
        ensures
            match stmts_code(self@, 0, Seq::empty(), names(dests@)) {
                Ok((c, d)) => r matches Ok(ir) && ir.code() == c && ir.table() == d,
                Err(e) => r matches Err(x) && x@ == e,
            },
    {
        IR::compile(&self.0, dests)
    }
}

/// Reads and compiles a script.
pub fn compile(text: &str, dests: Vec<String>) -> (r: Result<IR, ScriptError>)
    ensures
        match parse_script(text@) {
            Err(e) => r matches Err(ScriptError::Parse(x)) && x@ == e,
            Ok(ss) => match stmts_code(ss, 0, Seq::empty(), names(dests@)) {
                Ok((c, d)) => r matches Ok(ir) && ir.code() == c && ir.table() == d,
                Err(e) => r matches Err(ScriptError::Compile(x)) && x@ == e,
            },
        },
{
    let script = match Script::parse(text) {
        Ok(s) => s,
        Err(e) => return Err(ScriptError::Parse(e)),
    };
    match script.compile(dests) {
        Ok(ir) => Ok(ir),
        Err(e) => Err(ScriptError::Compile(e)),
    }
}

} // verus!
