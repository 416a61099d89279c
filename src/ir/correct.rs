//! The compiled code does what the statements say: running the code of a
//! script yields the side effects and the questions of running the script.

use vstd::prelude::*;

use super::closure::{finished, lemma_prepend_assoc, prepend, run, ActionModel, OperandModel, Outcome};
use super::{
    cond_code, cond_ok, cond_size, lemma_cond_code_len, lemma_or_code_len, lemma_stmt_code_wf,
    or_code, or_size, stmt_code, stmts_code, InsnModel,
};
use crate::ast::{
    cond_holds, cond_probes, or_holds, or_probes, stmt_run, stmts_run, CondModel, Effect,
    StmtModel,
};
use crate::message::{MessageView, ProbeModel};

verus! {

/// The index that table `d` gives destination `n`.
pub open spec fn dest_index(d: Seq<Seq<char>>, n: Seq<char>) -> int {
    match d.index_of_first(n) {
        Some(i) => i,
        None => -1,
    }
}

/// Side effects by name turned into actions by index.
pub open spec fn to_actions(effs: Seq<Effect>, d: Seq<Seq<char>>) -> Seq<ActionModel> {
    effs.map_values(
        |e: Effect|
            match e {
                Effect::Append(n) => ActionModel::Append(dest_index(d, n)),
                Effect::Flag(l) => ActionModel::Flag(l),
            },
    )
}

pub proof fn lemma_to_actions_concat(a: Seq<Effect>, b: Seq<Effect>, d: Seq<Seq<char>>)
    ensures
        to_actions(a + b, d) == to_actions(a, d) + to_actions(b, d),
{
    assert(to_actions(a + b, d) =~= to_actions(a, d) + to_actions(b, d));
}

pub proof fn lemma_split(code: Seq<InsnModel>, a: int, x: Seq<InsnModel>, y: Seq<InsnModel>)
    requires
        0 <= a,
        a + x.len() + y.len() <= code.len(),
        code.subrange(a, a + x.len() + y.len()) == x + y,
    ensures
        code.subrange(a, a + x.len()) == x,
        code.subrange(a + x.len(), a + x.len() + y.len()) == y,
{
    assert(code.subrange(a, a + x.len()) =~= (x + y).subrange(0, x.len() as int));
    assert(code.subrange(a + x.len(), a + x.len() + y.len()) =~= (x + y).subrange(
        x.len() as int,
        (x.len() + y.len()) as int,
    ));
}

pub proof fn lemma_at(code: Seq<InsnModel>, a: int, x: Seq<InsnModel>, i: int)
    requires
        0 <= a,
        0 <= i < x.len(),
        a + x.len() <= code.len(),
        code.subrange(a, a + x.len()) == x,
    ensures
        code[a + i] == x[i],
{
    assert(code.subrange(a, a + x.len())[i] == code[a + i]);
}

/// Past the end the run is over.
pub proof fn lemma_run_past_end(code: Seq<InsnModel>, pc: int, st: Seq<OperandModel>, m: MessageView)
    requires
        pc >= code.len(),
    ensures
        run(code, pc, st, m) == finished(),
{
}

pub proof fn lemma_jump(code: Seq<InsnModel>, pc: int, t: int, st: Seq<OperandModel>, m: MessageView)
    requires
        0 <= pc < code.len(),
        code[pc] == InsnModel::Jump(t),
        pc < t <= code.len(),
    ensures
        run(code, pc, st, m) == run(code, t, st, m),
{
}

pub proof fn lemma_prepend_empty(o: Outcome)
    ensures
        prepend(Seq::empty(), Seq::empty(), o) == o,
{
    assert(Seq::<ActionModel>::empty() + o.actions =~= o.actions);
    assert(Seq::<ProbeModel>::empty() + o.probes =~= o.probes);
}

/// The code of a condition asks what the condition asks, and goes on at
/// `t` where it holds and at `f` where it does not.
pub proof fn lemma_run_cond(
    code: Seq<InsnModel>,
    c: CondModel,
    a: int,
    t: int,
    f: int,
    st: Seq<OperandModel>,
    m: MessageView,
)
    requires
        cond_ok(c),
        0 <= a,
        a + cond_size(c) <= code.len(),
        code.subrange(a, a + cond_size(c)) == cond_code(c, a, t, f),
        a + cond_size(c) <= t <= code.len(),
        a + cond_size(c) <= f <= code.len(),
        t == a + cond_size(c) || (a + cond_size(c) < code.len() && code[a + cond_size(c)]
            == InsnModel::Jump(t)),
    ensures
        run(code, a, st, m) == prepend(
            Seq::empty(),
            cond_probes(c, m),
            if cond_holds(c, m) {
                run(code, t, st, m)
            } else {
                run(code, f, st, m)
            },
        ),
    decreases c, 1nat,
{
    lemma_cond_code_len(c, a, t, f);
    let x = cond_code(c, a, t, f);
    match c {
        CondModel::Or(cs) => {
            lemma_run_or(code, cs, a, t, f, st, m);
        },
        _ => {
            lemma_at(code, a, x, 0);
            lemma_at(code, a, x, 1);
            lemma_at(code, a, x, 2);
            let b = cond_holds(c, m);
            let lit = if let CondModel::Flagged(l) = c {
                OperandModel::Flag(l)
            } else if let CondModel::ReceivedBy(p) = c {
                OperandModel::Pattern(p)
            } else {
                OperandModel::Cond(false)
            };
            let st1 = st.push(lit);
            let st2 = st.push(OperandModel::Cond(b));
            assert(st1.drop_last() =~= st);
            assert(st2.drop_last() =~= st);
            assert(run(code, a, st, m) == run(code, a + 1, st1, m));
            assert(run(code, a + 1, st1, m) == prepend(
                Seq::empty(),
                cond_probes(c, m),
                run(code, a + 2, st2, m),
            ));
            if b {
                assert(run(code, a + 2, st2, m) == run(code, a + 3, st, m));
                if t != a + 3 {
                    lemma_jump(code, a + 3, t, st, m);
                }
            } else {
                if f >= code.len() {
                    lemma_run_past_end(code, f, st, m);
                }
                assert(run(code, a + 2, st2, m) == run(code, f, st, m));
            }
        },
    }
}

pub proof fn lemma_run_or(
    code: Seq<InsnModel>,
    cs: Seq<CondModel>,
    a: int,
    t: int,
    f: int,
    st: Seq<OperandModel>,
    m: MessageView,
)
    requires
        cs.len() > 0,
        forall|i: int| 0 <= i < cs.len() ==> cond_ok(#[trigger] cs[i]),
        0 <= a,
        a + or_size(cs) <= code.len(),
        code.subrange(a, a + or_size(cs)) == or_code(cs, a, t, f),
        a + or_size(cs) <= t <= code.len(),
        a + or_size(cs) <= f <= code.len(),
        t == a + or_size(cs) || (a + or_size(cs) < code.len() && code[a + or_size(cs)]
            == InsnModel::Jump(t)),
    ensures
        run(code, a, st, m) == prepend(
            Seq::empty(),
            or_probes(cs, m),
            if or_holds(cs, m) {
                run(code, t, st, m)
            } else {
                run(code, f, st, m)
            },
        ),
    decreases cs, 0nat,
{
    assert(cond_ok(cs[0]));
    let rest = cs.drop_first();
    if cs.len() == 1 {
        lemma_run_cond(code, cs[0], a, t, f, st, m);
        assert(rest.len() == 0);
        assert(or_probes(rest, m) == Seq::<ProbeModel>::empty());
        assert(!or_holds(rest, m));
        assert(or_probes(cs, m) =~= cond_probes(cs[0], m));
    } else {
        let k = cond_size(cs[0]) as int;
        let x = cond_code(cs[0], a, t, a + k + 1);
        let j = seq![InsnModel::Jump(t)];
        let y = or_code(rest, a + k + 1, t, f);
        lemma_cond_code_len(cs[0], a, t, a + k + 1);
        lemma_or_code_len(rest, a + k + 1, t, f);
        assert forall|i: int| 0 <= i < rest.len() implies cond_ok(#[trigger] rest[i]) by {
            assert(rest[i] == cs[i + 1]);
        }
        lemma_split(code, a, x + j, y);
        lemma_split(code, a, x, j);
        lemma_at(code, a + k, j, 0);
        lemma_run_cond(code, cs[0], a, t, a + k + 1, st, m);
        let p0 = cond_probes(cs[0], m);
        if cond_holds(cs[0], m) {
            assert(or_probes(cs, m) =~= p0);
        } else {
            lemma_run_or(code, rest, a + k + 1, t, f, st, m);
            let o = if or_holds(rest, m) {
                run(code, t, st, m)
            } else {
                run(code, f, st, m)
            };
            lemma_prepend_assoc(Seq::empty(), p0, Seq::empty(), or_probes(rest, m), o);
            assert(Seq::<ActionModel>::empty() + Seq::<ActionModel>::empty() =~= Seq::<
                ActionModel,
            >::empty());
        }
    }
}

pub open spec fn prefix_of(d1: Seq<Seq<char>>, d2: Seq<Seq<char>>) -> bool {
    d1.len() <= d2.len() && d2.subrange(0, d1.len() as int) == d1
}

pub proof fn lemma_prefix_trans(d1: Seq<Seq<char>>, d2: Seq<Seq<char>>, d3: Seq<Seq<char>>)
    requires
        prefix_of(d1, d2),
        prefix_of(d2, d3),
    ensures
        prefix_of(d1, d3),
{
    assert(d3.subrange(0, d1.len() as int) =~= d3.subrange(0, d2.len() as int).subrange(
        0,
        d1.len() as int,
    ));
}

pub proof fn lemma_dest_index(d1: Seq<Seq<char>>, dfin: Seq<Seq<char>>, n: Seq<char>, ix: int)
    requires
        0 <= ix < d1.len(),
        d1[ix] == n,
        forall|j: int| 0 <= j < ix ==> d1[j] != n,
        prefix_of(d1, dfin),
    ensures
        dest_index(dfin, n) == ix,
{
    assert(dfin[ix] == d1[ix]) by {
        assert(dfin.subrange(0, d1.len() as int)[ix] == dfin[ix]);
    }
    assert(dfin.contains(n));
    dfin.index_of_first_ensures(n);
    let i = dfin.index_of_first(n)->Some_0;
    if i < ix {
        assert(dfin.subrange(0, d1.len() as int)[i] == dfin[i]);
        assert(d1[i] != n);
    } else if ix < i {
        assert(dfin[ix] != n);
    }
}

pub open spec fn stmt_outcome(r: crate::ast::StmtRun, d: Seq<Seq<char>>, rest: Outcome) -> Outcome {
    if r.halted {
        Outcome { actions: to_actions(r.effects, d), probes: r.probes, fault: None }
    } else {
        prepend(to_actions(r.effects, d), r.probes, rest)
    }
}

pub proof fn lemma_prepend_cond(pc: Seq<ProbeModel>, r: crate::ast::StmtRun, d: Seq<Seq<char>>, rest: Outcome)
    ensures
        prepend(Seq::empty(), pc, stmt_outcome(r, d, rest)) == stmt_outcome(
            crate::ast::StmtRun { probes: pc + r.probes, ..r },
            d,
            rest,
        ),
{
    assert(Seq::<ActionModel>::empty() + to_actions(r.effects, d) =~= to_actions(r.effects, d));
    if !r.halted {
        lemma_prepend_assoc(Seq::empty(), pc, to_actions(r.effects, d), r.probes, rest);
    }
}

/// The code of a statement does what the statement does, then goes on
/// after its end unless it halted.
pub proof fn lemma_run_stmt(
    code: Seq<InsnModel>,
    s: StmtModel,
    a: int,
    d0: Seq<Seq<char>>,
    known: Seq<Seq<char>>,
    dfin: Seq<Seq<char>>,
    st: Seq<OperandModel>,
    m: MessageView,
)
    requires
        0 <= a,
        stmt_code(s, a, d0, known) is Ok,
        a + stmt_code(s, a, d0, known)->Ok_0.0.len() <= code.len(),
        code.subrange(a, a + stmt_code(s, a, d0, known)->Ok_0.0.len()) == stmt_code(
            s,
            a,
            d0,
            known,
        )->Ok_0.0,
        prefix_of(stmt_code(s, a, d0, known)->Ok_0.1, dfin),
    ensures
        run(code, a, st, m) == stmt_outcome(
            stmt_run(s, m),
            dfin,
            run(code, a + stmt_code(s, a, d0, known)->Ok_0.0.len(), st, m),
        ),
    decreases s,
{
    let (c, d1) = stmt_code(s, a, d0, known)->Ok_0;
    let r = stmt_run(s, m);
    match s {
        StmtModel::Halt => {
            lemma_at(code, a, c, 0);
            assert(to_actions(r.effects, dfin) =~= Seq::<ActionModel>::empty());
        },
        StmtModel::Flag(l) => {
            lemma_at(code, a, c, 0);
            lemma_at(code, a, c, 1);
            let st1 = st.push(OperandModel::Flag(l));
            assert(st1.drop_last() =~= st);
            assert(run(code, a, st, m) == run(code, a + 1, st1, m));
            assert(to_actions(r.effects, dfin) =~= seq![ActionModel::Flag(l)]);
        },
        StmtModel::Append(n) => {
            lemma_at(code, a, c, 0);
            lemma_at(code, a, c, 1);
            let ix = c[0]->LiteralDest_0;
            let st1 = st.push(OperandModel::Dest(ix));
            assert(st1.drop_last() =~= st);
            assert(run(code, a, st, m) == run(code, a + 1, st1, m));
            d0.index_of_first_ensures(n);
            match d0.index_of_first(n) {
                Some(i) => {
                    assert(d1 == d0);
                },
                None => {
                    assert forall|j: int| 0 <= j < ix implies d1[j] != n by {
                        assert(d1[j] == d0[j]);
                        if d0[j] == n {
                            assert(d0.contains(n));
                        }
                    }
                },
            }
            lemma_dest_index(d1, dfin, n, ix);
            assert(to_actions(r.effects, dfin) =~= seq![ActionModel::Append(ix)]);
        },
        StmtModel::If(cnd, t, e) => {
            let cs = cond_size(cnd) as int;
            let (tc, dt) = stmt_code(*t, a + cs, d0, known)->Ok_0;
            lemma_stmt_code_wf(*t, a + cs, d0, known);
            let pc = cond_probes(cnd, m);
            match e {
                None => {
                    let f = a + cs + tc.len();
                    let cc = cond_code(cnd, a, a + cs, f);
                    lemma_cond_code_len(cnd, a, a + cs, f);
                    lemma_split(code, a, cc, tc);
                    lemma_run_cond(code, cnd, a, a + cs, f, st, m);
                    lemma_run_stmt(code, *t, a + cs, d0, known, dfin, st, m);
                    if cond_holds(cnd, m) {
                        lemma_prepend_cond(pc, stmt_run(*t, m), dfin, run(code, f, st, m));
                    } else {
                        lemma_prepend_cond(pc, crate::ast::no_run(), dfin, run(code, f, st, m));
                        assert(to_actions(Seq::empty(), dfin) =~= Seq::<ActionModel>::empty());
                        lemma_prepend_empty(run(code, f, st, m));
                    }
                },
                Some(e) => {
                    let k = a + cs + tc.len();
                    let (ec, de) = stmt_code(*e, k + 1, dt, known)->Ok_0;
                    lemma_stmt_code_wf(*e, k + 1, dt, known);
                    let end = k + 1 + ec.len();
                    let cc = cond_code(cnd, a, a + cs, k + 1);
                    let j = seq![InsnModel::Jump(end)];
                    lemma_cond_code_len(cnd, a, a + cs, k + 1);
                    assert(c == cc + tc + j + ec);
                    lemma_split(code, a, cc + tc + j, ec);
                    lemma_split(code, a, cc + tc, j);
                    lemma_split(code, a, cc, tc);
                    lemma_at(code, k, j, 0);
                    assert(prefix_of(dt, de));
                    lemma_prefix_trans(dt, de, dfin);
                    lemma_run_cond(code, cnd, a, a + cs, k + 1, st, m);
                    if cond_holds(cnd, m) {
                        lemma_run_stmt(code, *t, a + cs, d0, known, dfin, st, m);
                        lemma_jump(code, k, end, st, m);
                        lemma_prepend_cond(pc, stmt_run(*t, m), dfin, run(code, end, st, m));
                    } else {
                        lemma_run_stmt(code, *e, k + 1, dt, known, dfin, st, m);
                        lemma_prepend_cond(pc, stmt_run(*e, m), dfin, run(code, end, st, m));
                    }
                },
            }
        },
    }
}

pub proof fn lemma_run_stmts(
    code: Seq<InsnModel>,
    ss: Seq<StmtModel>,
    a: int,
    d0: Seq<Seq<char>>,
    known: Seq<Seq<char>>,
    dfin: Seq<Seq<char>>,
    st: Seq<OperandModel>,
    m: MessageView,
)
    requires
        0 <= a,
        stmts_code(ss, a, d0, known) is Ok,
        a + stmts_code(ss, a, d0, known)->Ok_0.0.len() <= code.len(),
        code.subrange(a, a + stmts_code(ss, a, d0, known)->Ok_0.0.len()) == stmts_code(
            ss,
            a,
            d0,
            known,
        )->Ok_0.0,
        prefix_of(stmts_code(ss, a, d0, known)->Ok_0.1, dfin),
    ensures
        run(code, a, st, m) == stmt_outcome(
            stmts_run(ss, m),
            dfin,
            run(code, a + stmts_code(ss, a, d0, known)->Ok_0.0.len(), st, m),
        ),
    decreases ss.len(),
{
    let (c, d1) = stmts_code(ss, a, d0, known)->Ok_0;
    if ss.len() == 0 {
        assert(to_actions(Seq::empty(), dfin) =~= Seq::<ActionModel>::empty());
        lemma_prepend_empty(run(code, a, st, m));
    } else {
        let (c0, e0) = stmt_code(ss[0], a, d0, known)->Ok_0;
        let (c1, e1) = stmts_code(ss.drop_first(), a + c0.len(), e0, known)->Ok_0;
        lemma_split(code, a, c0, c1);
        lemma_stmts_prefix(ss.drop_first(), a + c0.len(), e0, known);
        lemma_prefix_trans(e0, e1, dfin);
        lemma_run_stmt(code, ss[0], a, d0, known, dfin, st, m);
        let r0 = stmt_run(ss[0], m);
        if !r0.halted {
            lemma_run_stmts(code, ss.drop_first(), a + c0.len(), e0, known, dfin, st, m);
            let r1 = stmts_run(ss.drop_first(), m);
            lemma_to_actions_concat(r0.effects, r1.effects, dfin);
            let o = run(code, a + c.len(), st, m);
            if !r1.halted {
                lemma_prepend_assoc(to_actions(r0.effects, dfin), r0.probes, to_actions(r1.effects, dfin), r1.probes, o);
            }
        }
    }
}

pub proof fn lemma_stmts_prefix(ss: Seq<StmtModel>, a: int, d0: Seq<Seq<char>>, known: Seq<Seq<char>>)
    requires
        0 <= a,
        stmts_code(ss, a, d0, known) is Ok,
    ensures
        prefix_of(d0, stmts_code(ss, a, d0, known)->Ok_0.1),
    decreases ss.len(),
{
    if ss.len() == 0 {
        assert(d0.subrange(0, d0.len() as int) =~= d0);
    } else {
        let (c0, e0) = stmt_code(ss[0], a, d0, known)->Ok_0;
        lemma_stmt_code_wf(ss[0], a, d0, known);
        lemma_stmts_prefix(ss.drop_first(), a + c0.len(), e0, known);
        lemma_prefix_trans(d0, e0, stmts_code(ss, a, d0, known)->Ok_0.1);
    }
}

/// Running the compiled code of a script does what running the script
/// does: the same questions to the message, and the same side effects,
/// each append by the index the compiler gave its destination.
pub proof fn lemma_compiled_run(ss: Seq<StmtModel>, known: Seq<Seq<char>>, m: MessageView)
    requires
        stmts_code(ss, 0, Seq::empty(), known) is Ok,
    ensures
        ({
            let (c, d) = stmts_code(ss, 0, Seq::empty(), known)->Ok_0;
            let r = stmts_run(ss, m);
            run(c, 0, Seq::empty(), m) == Outcome {
                actions: to_actions(r.effects, d),
                probes: r.probes,
                fault: None,
            }
        }),
{
    let (c, d) = stmts_code(ss, 0, Seq::empty(), known)->Ok_0;
    let r = stmts_run(ss, m);
    assert(c.subrange(0, c.len() as int) =~= c);
    assert(d.subrange(0, d.len() as int) =~= d);
    lemma_run_stmts(c, ss, 0, Seq::empty(), known, d, Seq::empty(), m);
    lemma_run_past_end(c, c.len() as int, Seq::empty(), m);
    assert(to_actions(r.effects, d) + Seq::empty() =~= to_actions(r.effects, d));
    assert(r.probes + Seq::empty() =~= r.probes);
}

} // verus!
