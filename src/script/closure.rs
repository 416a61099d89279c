//! Running a script's statements directly, without compiling them.

use vstd::prelude::*;

use super::Script;
use crate::ast::stmt::Stmt;
use crate::ast::{cond_holds, stmt_run, stmts_run, Effect, StmtModel, StmtRun};
use crate::ir::compiler::names;
use crate::ir::{stmt_models, CompileError, CompileErrorModel};
use crate::message::{Message, Probe};

verus! {

/// A side effect, by destination name.
#[derive(Debug, Clone, PartialEq, Eq)]
pub enum Action {
    Append(String),
    Flag(String),
}

impl View for Action {
    type V = Effect;

    open spec fn view(&self) -> Effect {
        match self {
            Action::Append(d) => Effect::Append(d@),
            Action::Flag(l) => Effect::Flag(l@),
        }
    }
}

pub open spec fn effects(v: Seq<Action>) -> Seq<Effect> {
    Seq::new(v.len(), |i: int| v[i]@)
}

/// The first destination that `effs` appends to and `known` does not hold.
pub open spec fn first_unknown(effs: Seq<Effect>, known: Seq<Seq<char>>) -> Option<Seq<char>>
    decreases effs.len(),
{
    if effs.len() == 0 {
        None
    } else {
        match effs[0] {
            Effect::Append(n) => if known.contains(n) {
                first_unknown(effs.drop_first(), known)
            } else {
                Some(n)
            },
            _ => first_unknown(effs.drop_first(), known),
        }
    }
}

pub proof fn lemma_first_unknown_concat(a: Seq<Effect>, b: Seq<Effect>, known: Seq<Seq<char>>)
    ensures
        first_unknown(a + b, known) == match first_unknown(a, known) {
            Some(n) => Some(n),
            None => first_unknown(b, known),
        },
    decreases a.len(),
{
    if a.len() > 0 {
        assert((a + b).drop_first() =~= a.drop_first() + b);
        lemma_first_unknown_concat(a.drop_first(), b, known);
    } else {
        assert(a + b =~= b);
    }
}

/// A direct interpreter of a script's statements for a set of
/// destinations.
pub struct Closure<'s, 'd> {
    pub script: &'s Script,
    pub dests: &'d Vec<String>,
}

impl<'s, 'd> Closure<'s, 'd> {
    pub fn new(script: &'s Script, dests: &'d Vec<String>) -> (r: Closure<'s, 'd>)
        ensures
            r.script@ == script@,
            names(r.dests@) == names(dests@),
    {
        Closure { script, dests }
    }

    /// The side effects of running the script on `mail`, in order; an error
    /// where it appends to a destination that the table lacks.
    pub fn process(&self, mail: &Message) -> (r: Result<Vec<Action>, CompileError>)
        ensures
            ({
                let run = stmts_run(self.script@, mail@);
                match first_unknown(run.effects, names(self.dests@)) {
                    Some(n) => r matches Err(e) && e@ == CompileErrorModel::UnknownDestination(n),
                    None => r matches Ok(v) && effects(v@) == run.effects,
                }
            }),
    {
        let ghost ss = self.script@;
        let ghost m = mail@;
        let ghost known = names(self.dests@);
        let mut actions: Vec<Action> = Vec::new();
        let mut i: usize = 0;
        let n = self.script.0.len();
        assert(ss.subrange(0, ss.len() as int) == ss);
        assert(effects(actions@) =~= Seq::<Effect>::empty());
        while i < n
            invariant
                i <= n == ss.len() == self.script.0@.len(),
                ss == stmt_models(self.script.0@),
                known == names(self.dests@),
                m == mail@,
                first_unknown(effects(actions@), known) is None,
                ({
                    let whole = stmts_run(ss, m);
                    let rest = stmts_run(ss.subrange(i as int, ss.len() as int), m);
                    whole.effects == effects(actions@) + rest.effects
                }),
            decreases n - i,
        {
            let ghost sub = ss.subrange(i as int, ss.len() as int);
            assert(sub[0] == self.script.0@[i as int]@);
            assert(sub.drop_first() == ss.subrange(i + 1, ss.len() as int));
            let ghost before = effects(actions@);
            let ghost r0 = stmt_run(sub[0], m);
            assert(sub.len() > 0);
            assert(stmts_run(sub, m) == (if r0.halted {
                r0
            } else {
                let r2 = stmts_run(sub.drop_first(), m);
                StmtRun {
                    effects: r0.effects + r2.effects,
                    probes: r0.probes + r2.probes,
                    halted: r2.halted,
                }
            }));
            let done = match self.process_stmt(mail, &self.script.0[i], &mut actions) {
                Ok(d) => d,
                Err(e) => {
                    proof {
                        lemma_first_unknown_concat(r0.effects, stmts_run(sub.drop_first(), m).effects, known);
                        lemma_first_unknown_concat(before, stmts_run(sub, m).effects, known);
                    }
                    return Err(e);
                },
            };
            if done {
                proof {
                    assert(stmts_run(sub, m) == r0);
                    assert(stmts_run(ss, m).effects == effects(actions@));
                    lemma_first_unknown_concat(before, r0.effects, known);
                }
                return Ok(actions);
            }
            proof {
                let r1 = stmts_run(sub.drop_first(), m);
                assert(before + (r0.effects + r1.effects) =~= effects(actions@) + r1.effects);
                lemma_first_unknown_concat(before, r0.effects, known);
            }
            i += 1;
        }
        proof {
            assert(ss.subrange(i as int, ss.len() as int) =~= Seq::<StmtModel>::empty());
            assert(effects(actions@) + Seq::<Effect>::empty() =~= effects(actions@));
        }
        Ok(actions)
    }

    /// Runs one statement, adding its side effects to `actions`; whether it
    /// halted.
    pub fn process_stmt(&self, mail: &Message, stmt: &Stmt, actions: &mut Vec<Action>) -> (r:
        Result<bool, CompileError>)
        ensures
            match first_unknown(stmt_run(stmt@, mail@).effects, names(self.dests@)) {
                Some(n) => r matches Err(e) && e@ == CompileErrorModel::UnknownDestination(n)
                    && final(actions)@ == old(actions)@,
                None => r matches Ok(h) && h == stmt_run(stmt@, mail@).halted && effects(
                    final(actions)@,
                ) == effects(old(actions)@) + stmt_run(stmt@, mail@).effects,
            },
        decreases stmt,
    {
        let ghost known = names(self.dests@);
        match stmt {
            Stmt::If(c, t, e) => {
                let mut asked: Vec<Probe> = Vec::new();
                if c.eval(mail, &mut asked) {
                    self.process_stmt(mail, t, actions)
                } else if let Some(e) = e {
                    self.process_stmt(mail, e, actions)
                } else {
                    assert(effects(actions@) + Seq::<Effect>::empty() =~= effects(actions@));
                    assert(first_unknown(Seq::<Effect>::empty(), names(self.dests@)) is None);
                    Ok(false)
                }
            },
            Stmt::Append(dn) => {
                let mut found = false;
                let mut j: usize = 0;
                while j < self.dests.len()
                    invariant
                        j <= self.dests@.len(),
                        known == names(self.dests@),
                        found == exists|k: int| 0 <= k < j && known[k] == dn.0@,
                    decreases self.dests@.len() - j,
                {
                    if self.dests[j] == dn.0 {
                        assert(known[j as int] == dn.0@);
                        found = true;
                    }
                    j += 1;
                }
                let ghost effs = seq![Effect::Append(dn.0@)];
                assert(effs.drop_first() =~= Seq::<Effect>::empty());
                if !found {
                    assert(!known.contains(dn.0@));
                    return Err(CompileError::UnknownDestination(dn.0.clone()));
                }
                let ghost before = effects(actions@);
                actions.push(Action::Append(dn.0.clone()));
                assert(effects(actions@) =~= before + effs);
                Ok(false)
            },
            Stmt::Flag(fl) => {
                let ghost before = effects(actions@);
                actions.push(Action::Flag(fl.0.clone()));
                let ghost effs = seq![Effect::Flag(fl.0@)];
                assert(effs.drop_first() =~= Seq::<Effect>::empty());
                assert(effects(actions@) =~= before + effs);
                Ok(false)
            },
            Stmt::Halt => {
                assert(effects(actions@) + Seq::<Effect>::empty() =~= effects(actions@));
                Ok(true)
            },
        }
    }
}

} // verus!
