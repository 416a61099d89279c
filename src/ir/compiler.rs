//! The compiler from statements to stack-machine code.

use vstd::prelude::*;

use super::{
    lemma_stmts_code_wf, stmt_models, stmts_code, IR, code_wf, chunk_wf, cond_code, cond_ok, cond_size, insns_model, lemma_cond_code_len, lemma_patch_cond, or_code,
    patch, patch_insn, resolve, stmt_code, CompileError, CompileErrorModel, Insn, InsnModel,
};
use crate::ast::cond::{cond_models, lemma_or_model, Cond};
use crate::ast::stmt::Stmt;
use crate::ast::{CondModel, StmtModel};
use crate::value::{Destination, Flag, RecipientPattern};

verus! {

pub open spec fn names(v: Seq<String>) -> Seq<Seq<char>> {
    Seq::new(v.len(), |i: int| v[i]@)
}

/// The compiler's state: the destinations it may use, the code so far, and
/// the destinations registered so far, in order of first use.
pub struct IRCompiler {
    pub known: Vec<String>,
    pub insns: Vec<Insn>,
    pub dests: Vec<String>,
}

/// The first position of `s` in `v`.
fn position(v: &Vec<String>, s: &String) -> (r: Option<usize>)
    ensures
        match r {
            Some(i) => i < v@.len() && names(v@).index_of_first(s@) == Some(i as int),
            None => names(v@).index_of_first(s@) is None,
        },
{
    let ghost ns = names(v@);
    let mut i: usize = 0;
    while i < v.len()
        invariant
            i <= v@.len(),
            ns == names(v@),
            forall|j: int| 0 <= j < i ==> ns[j] != s@,
        decreases v@.len() - i,
    {
        if v[i] == *s {
            proof {
                assert(ns[i as int] == s@);
                assert(ns.contains(s@));
                ns.index_of_first_ensures(s@);
                let idx = ns.index_of_first(s@)->Some_0;
                if idx < i {
                    assert(ns[idx] != s@);
                } else if i < idx {
                    assert(ns[i as int] != s@);
                }
            }
            return Some(i);
        }
        i += 1;
    }
    proof {
        ns.index_of_first_ensures(s@);
        if ns.contains(s@) {
            let j = choose|j: int| 0 <= j < ns.len() && ns[j] == s@;
            assert(ns[j] != s@);
        }
    }
    None
}

impl IRCompiler {
    pub fn compile(stmts: &Vec<Stmt>, dests: Vec<String>) -> (r: Result<IR, CompileError>)
        ensures
            match stmts_code(stmt_models(stmts@), 0, Seq::empty(), names(dests@)) {
                Ok((c, d)) => r matches Ok(ir) && ir.code() == c && ir.table() == d,
                Err(e) => r matches Err(x) && x@ == e,
            },
    {
        let mut irc = IRCompiler { known: dests, insns: Vec::new(), dests: Vec::new() };
        let ghost ss = stmt_models(stmts@);
        let ghost k = irc.known_names();
        assert(irc.code() =~= Seq::<InsnModel>::empty());
        assert(irc.table() =~= Seq::<Seq<char>>::empty());
        assert(ss.subrange(0, ss.len() as int) == ss);
        let mut i: usize = 0;
        while i < stmts.len()
            invariant
                i <= stmts@.len() == ss.len(),
                ss == stmt_models(stmts@),
                k == irc.known_names(),
                k == names(dests@),
                irc.code().len() == irc.insns@.len(),
                stmts_code(ss, 0, Seq::empty(), k) == match stmts_code(
                    ss.subrange(i as int, ss.len() as int),
                    irc.code().len() as int,
                    irc.table(),
                    k,
                ) {
                    Ok((c, d)) => Ok((irc.code() + c, d)),
                    Err(e) => Err(e),
                },
            decreases stmts@.len() - i,
        {
            let ghost rest = ss.subrange(i as int, ss.len() as int);
            assert(rest[0] == stmts@[i as int]@);
            assert(rest.drop_first() == ss.subrange(i + 1, ss.len() as int));
            let ghost before = irc.code();
            let ghost tb = irc.table();
            irc.compile_stmt(&stmts[i])?;
            proof {
                let c = irc.code().subrange(before.len() as int, irc.code().len() as int);
                assert(irc.code() =~= before + c);
                let (c1, d1) = stmt_code(rest[0], before.len() as int, tb, k)->Ok_0;
                assert(c1 =~= c);
                assert(stmts_code(rest, before.len() as int, tb, k) == match stmts_code(
                    rest.drop_first(),
                    irc.code().len() as int,
                    irc.table(),
                    k,
                ) {
                    Ok((c2, d2)) => Ok((c + c2, d2)),
                    Err(e) => Err(e),
                });
                match stmts_code(ss.subrange(i + 1, ss.len() as int), irc.code().len() as int, irc.table(), k) {
                    Ok((c2, d2)) => {
                        assert(before + (c + c2) =~= irc.code() + c2);
                    },
                    Err(_) => {},
                }
            }
            i += 1;
        }
        assert(ss.subrange(i as int, ss.len() as int) =~= Seq::<StmtModel>::empty());
        assert(irc.code() + Seq::<InsnModel>::empty() =~= irc.code());
        proof {
            lemma_stmts_code_wf(ss, 0, Seq::empty(), k);
        }
        Ok(IR::from_parts(irc.insns, irc.dests))
    }

    pub open spec fn code(&self) -> Seq<InsnModel> {
        insns_model(self.insns@)
    }

    pub open spec fn table(&self) -> Seq<Seq<char>> {
        names(self.dests@)
    }

    pub open spec fn known_names(&self) -> Seq<Seq<char>> {
        names(self.known@)
    }

    /// Fills in the exits of the code in `start..end`: placeholder jumps go
    /// to `t`, placeholder false-jumps to `f`.
    fn patch_exits(&mut self, start: usize, end: usize, t: usize, f: usize)
        requires
            start <= end <= old(self).insns@.len(),
        ensures
            final(self).known == old(self).known,
            final(self).dests == old(self).dests,
            final(self).code() == old(self).code().subrange(0, start as int) + patch(
                old(self).code().subrange(start as int, end as int),
                t as int,
                f as int,
            ) + old(self).code().subrange(end as int, old(self).code().len() as int),
    {
        let ghost old_code = self.code();
        let mut i: usize = start;
        while i < end
            invariant
                start <= i <= end <= self.insns@.len(),
                self.insns@.len() == old_code.len(),
                self.known == old(self).known,
                self.dests == old(self).dests,
                old_code == old(self).code(),
                forall|j: int|
                    0 <= j < self.insns@.len() ==> #[trigger] self.code()[j] == if start <= j < i {
                        patch_insn(old_code[j], t as int, f as int)
                    } else {
                        old_code[j]
                    },
            decreases end - i,
        {
            let kind: u8 = match &self.insns[i] {
                Insn::Jump(0) => 1,
                Insn::JumpFalse(0) => 2,
                _ => 0,
            };
            let ghost prev = self.code();
            assert(prev[i as int] == old_code[i as int]);
            assert(prev[i as int] == self.insns@[i as int]@);
            if kind == 1 {
                self.insns[i] = Insn::Jump(t);
            } else if kind == 2 {
                self.insns[i] = Insn::JumpFalse(f);
            }
            assert(self.code()[i as int] == patch_insn(old_code[i as int], t as int, f as int));
            assert(self.code() =~= prev.update(i as int, patch_insn(old_code[i as int], t as int, f as int)));
            i += 1;
        }
        assert(self.code() =~= old_code.subrange(0, start as int) + patch(
            old_code.subrange(start as int, end as int),
            t as int,
            f as int,
        ) + old_code.subrange(end as int, old_code.len() as int));
    }

    fn emit(&mut self, x: Insn)
        ensures
            final(self).known == old(self).known,
            final(self).dests == old(self).dests,
            final(self).code() == old(self).code().push(x@),
    {
        self.insns.push(x);
        assert(self.code() =~= old(self).code().push(x@));
    }

    pub fn compile_cond(&mut self, cond: &Cond) -> (r: Result<(), CompileError>)
        ensures
            final(self).known == old(self).known,
            final(self).dests == old(self).dests,
            match r {
                Ok(()) => cond_ok(cond@) && final(self).code() == old(self).code() + cond_code(
                    cond@,
                    old(self).code().len() as int,
                    0,
                    0,
                ),
                Err(e) => !cond_ok(cond@) && e@ == CompileErrorModel::EmptyOr,
            },
        decreases cond,
    {
        match cond {
            Cond::Or(cx) => {
                proof {
                    lemma_or_model(*cx);
                }
                let ghost cs = cond_models(cx@);
                let ghost base = self.code().len() as int;
                let ghost start = self.code();
                if cx.len() == 0 {
                    return Err(CompileError::EmptyOr);
                }
                let n = cx.len();
                let mut i: usize = 0;
                assert(cs.subrange(0, n as int) == cs);
                while i < n
                    invariant
                        0 <= i <= n == cx@.len() == cs.len(),
                        cs == cond_models(cx@),
                        cond@ == CondModel::Or(cs),
                        self.known == old(self).known,
                        self.dests == old(self).dests,
                        start == old(self).code(),
                        base == start.len(),
                        self.code().len() >= base,
                        self.code().subrange(0, base) == start,
                        forall|j: int| 0 <= j < i ==> cond_ok(#[trigger] cs[j]),
                        i < n ==> or_code(cs, base, 0, 0) == self.code().subrange(
                            base,
                            self.code().len() as int,
                        ) + or_code(cs.subrange(i as int, n as int), self.code().len() as int, 0, 0),
                        i == n ==> or_code(cs, base, 0, 0) == self.code().subrange(
                            base,
                            self.code().len() as int,
                        ),
                        forall|k: int| 0 <= k < cx@.len() ==> decreases_to!(*cond => #[trigger] cx@[k]),
                    decreases n - i,
                {
                    assert(self.code().len() == self.insns@.len());
                    let pos = self.insns.len();
                    let ghost before = self.code();
                    let ghost rest = cs.subrange(i as int, n as int);
                    assert(rest[0] == cs[i as int]);
                    assert(rest.drop_first() == cs.subrange(i + 1, n as int));
                    match self.compile_cond(&cx[i]) {
                        Err(e) => {
                            assert(!cond_ok(cond@));
                            return Err(e);
                        },
                        Ok(()) => {},
                    }
                    let ghost k = cond_size(cs[i as int]) as int;
                    proof {
                        lemma_cond_code_len(cs[i as int], pos as int, 0, 0);
                    }
                    assert(self.code().len() == self.insns@.len());
                    if i + 1 < n {
                        let end = self.insns.len();
                        self.emit(Insn::Jump(0));
                        let f = self.insns.len();
                        assert(self.code().len() == self.insns@.len());
                        self.patch_exits(pos, end, 0, f);
                        proof {
                            lemma_patch_cond(cs[i as int], pos as int, 0, f as int);
                            assert(self.code() =~= before + cond_code(cs[i as int], pos as int, 0, f as int)
                                + seq![InsnModel::Jump(0)]);
                            assert(self.code().subrange(0, base) =~= start);
                            assert(self.code().subrange(base, self.code().len() as int) =~= before.subrange(
                                base,
                                before.len() as int,
                            ) + cond_code(cs[i as int], pos as int, 0, f as int) + seq![
                                InsnModel::Jump(0),
                            ]);
                        }
                    } else {
                        proof {
                            assert(rest =~= seq![cs[i as int]]);
                            assert(self.code().subrange(0, base) =~= start);
                            assert(self.code().subrange(base, self.code().len() as int) =~= before.subrange(
                                base,
                                before.len() as int,
                            ) + cond_code(cs[i as int], pos as int, 0, 0));
                        }
                    }
                    i += 1;
                }
                assert(self.code() =~= start + or_code(cs, base, 0, 0));
                Ok(())
            },
            Cond::Flagged(fl) => {
                self.compile_flag(fl);
                self.emit(Insn::Flagged);
                self.emit(Insn::JumpFalse(0));
                assert(self.code() =~= old(self).code() + cond_code(
                    cond@,
                    old(self).code().len() as int,
                    0,
                    0,
                ));
                Ok(())
            },
            Cond::ReceivedBy(p) => {
                self.compile_recipient_pattern(p);
                self.emit(Insn::ReceivedBy);
                self.emit(Insn::JumpFalse(0));
                assert(self.code() =~= old(self).code() + cond_code(
                    cond@,
                    old(self).code().len() as int,
                    0,
                    0,
                ));
                Ok(())
            },
        }
    }

    pub fn compile_dest(&mut self, dn: &Destination) -> (r: Result<(), CompileError>)
        ensures
            final(self).known == old(self).known,
            match resolve(old(self).table(), old(self).known_names(), dn.0@) {
                None => r matches Err(e) && e@ == CompileErrorModel::UnknownDestination(dn.0@)
                    && final(self).code() == old(self).code() && final(self).table() == old(
                    self,
                ).table(),
                Some((ix, d)) => r is Ok && final(self).table() == d && final(self).code()
                    == old(self).code().push(InsnModel::LiteralDest(ix)),
            },
    {
        let ix = match position(&self.dests, &dn.0) {
            Some(ix) => ix,
            None => {
                if position(&self.known, &dn.0).is_none() {
                    proof {
                        self.known_names().index_of_first_ensures(dn.0@);
                    }
                    return Err(CompileError::UnknownDestination(dn.0.clone()));
                }
                proof {
                    self.known_names().index_of_first_ensures(dn.0@);
                }
                let ix = self.dests.len();
                self.dests.push(dn.0.clone());
                assert(self.table() =~= old(self).table().push(dn.0@));
                ix
            },
        };
        self.emit(Insn::LiteralDest(ix));
        Ok(())
    }

    pub fn compile_stmt(&mut self, stmt: &Stmt) -> (r: Result<(), CompileError>)
        ensures
            final(self).known == old(self).known,
            match stmt_code(
                stmt@,
                old(self).code().len() as int,
                old(self).table(),
                old(self).known_names(),
            ) {
                Ok((c, d)) => r is Ok && final(self).code() == old(self).code() + c
                    && final(self).table() == d,
                Err(e) => r matches Err(x) && x@ == e,
            },
        decreases stmt,
    {
        match stmt {
            Stmt::If(c, t, e) => {
                let j0 = self.insns.len();
                assert(self.code().len() == self.insns@.len());
                self.compile_cond(c)?;
                proof {
                    lemma_cond_code_len(c@, j0 as int, 0, 0);
                }
                assert(self.code().len() == self.insns@.len());
                let tpos = self.insns.len();
                let ghost after_cond = self.code();
                self.compile_stmt(t)?;
                let ghost after_then = self.code();
                let ghost tc = after_then.subrange(tpos as int, after_then.len() as int);
                assert(after_then =~= after_cond + tc);
                assert(self.code().len() == self.insns@.len());
                match e {
                    Some(e) => {
                        let k = self.insns.len();
                        self.emit(Insn::Jump(0));
                        assert(self.code().len() == self.insns@.len());
                        let f = self.insns.len();
                        self.patch_exits(j0, tpos, tpos, f);
                        proof {
                            lemma_patch_cond(c@, j0 as int, tpos as int, f as int);
                            assert(self.code() =~= old(self).code() + cond_code(
                                c@,
                                j0 as int,
                                tpos as int,
                                f as int,
                            ) + tc + seq![InsnModel::Jump(0)]);
                        }
                        let ghost before_else = self.code();
                        self.compile_stmt(e)?;
                        let ghost ec = self.code().subrange(f as int, self.code().len() as int);
                        assert(self.code() =~= before_else + ec);
                        assert(self.code().len() == self.insns@.len());
                        let done = self.insns.len();
                        let ghost prev = self.code();
                        self.insns[k] = Insn::Jump(done);
                        assert(self.code() =~= prev.update(k as int, InsnModel::Jump(done as int)));
                        assert(self.code() =~= old(self).code() + (cond_code(
                            c@,
                            j0 as int,
                            tpos as int,
                            f as int,
                        ) + tc + seq![InsnModel::Jump(done as int)] + ec));
                    },
                    None => {
                        let f = self.insns.len();
                        self.patch_exits(j0, tpos, tpos, f);
                        proof {
                            lemma_patch_cond(c@, j0 as int, tpos as int, f as int);
                            assert(self.code() =~= old(self).code() + (cond_code(
                                c@,
                                j0 as int,
                                tpos as int,
                                f as int,
                            ) + tc));
                        }
                    },
                }
                Ok(())
            },
            Stmt::Append(dn) => {
                self.compile_dest(dn)?;
                self.emit(Insn::Append);
                assert(self.code() =~= old(self).code() + seq![
                    InsnModel::LiteralDest(resolve(old(self).table(), old(self).known_names(), dn.0@)->Some_0.0),
                    InsnModel::Append,
                ]);
                Ok(())
            },
            Stmt::Flag(fl) => {
                self.compile_flag(fl);
                self.emit(Insn::Flag);
                assert(self.code() =~= old(self).code() + seq![
                    InsnModel::LiteralFlag(fl.0@),
                    InsnModel::Flag,
                ]);
                Ok(())
            },
            Stmt::Halt => {
                self.emit(Insn::Halt);
                assert(self.code() =~= old(self).code() + seq![InsnModel::Halt]);
                Ok(())
            },
        }
    }

    pub fn compile_flag(&mut self, fl: &Flag)
        ensures
            final(self).known == old(self).known,
            final(self).dests == old(self).dests,
            final(self).code() == old(self).code().push(InsnModel::LiteralFlag(fl.0@)),
    {
        self.emit(Insn::LiteralFlag(fl.0.clone()));
    }

    pub fn compile_recipient_pattern(&mut self, p: &RecipientPattern)
        ensures
            final(self).known == old(self).known,
            final(self).dests == old(self).dests,
            final(self).code() == old(self).code().push(InsnModel::LiteralRecipientPattern(p@)),
    {
        self.emit(
            Insn::LiteralRecipientPattern(p.mailbox.clone(), p.plus.clone(), p.host.clone()),
        );
    }
}

} // verus!
