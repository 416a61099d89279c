//! Properties of the language as a whole: what compiled code may do, and
//! how scripts behave on the messages they meet.

use vstd::prelude::*;

use crate::ast::{
    lemma_stmts_round_trip, stmt_forms, stmts_of, cond_holds, cond_probes, no_run, or_holds, or_probes, stmt_run, stmts_run, CondModel, Effect,
    StmtModel, StmtRun,
};
use crate::ir::closure::{finished, run, Outcome};
use crate::ir::correct::{lemma_compiled_run, to_actions};
use crate::ir::{code_wf, lemma_stmts_code_wf, stmt_code, stmts_code, InsnModel};
use crate::message::{has_flag, MessageView};
use crate::sexp::Form;

verus! {

/// Printing and parsing agree: the statements read from forms `fs`, turned
/// back into the forms they are printed as, read as the same statements.
/// (`Script::to_text` writes exactly those forms, laid out over lines.)
pub proof fn law_parse_print_round_trip(fs: Seq<Form>)
    requires
        stmts_of(fs) is Ok,
    ensures
        stmts_of(stmt_forms(stmts_of(fs)->Ok_0)) == stmts_of(fs),
{
    lemma_stmts_round_trip(fs);
}

/// Compiled code is well formed: every jump target lies in `[0, |code|]`
/// and every destination literal indexes the destination table.
pub proof fn law_compile_totality(ss: Seq<StmtModel>, known: Seq<Seq<char>>)
    requires
        stmts_code(ss, 0, Seq::empty(), known) is Ok,
    ensures
        ({
            let (c, d) = stmts_code(ss, 0, Seq::empty(), known)->Ok_0;
            code_wf(c, d.len() as int)
        }),
{
    lemma_stmts_code_wf(ss, 0, Seq::empty(), known);
}

/// A script that starts with `(halt!)` compiles to code whose first
/// instruction halts: a run executes that one instruction, asks the message
/// nothing and has no side effect.
pub proof fn law_halt_first(ss: Seq<StmtModel>, known: Seq<Seq<char>>, m: MessageView)
    requires
        ss.len() > 0,
        ss[0] == StmtModel::Halt,
        stmts_code(ss, 0, Seq::empty(), known) is Ok,
    ensures
        ({
            let (c, d) = stmts_code(ss, 0, Seq::empty(), known)->Ok_0;
            &&& c[0] == InsnModel::Halt
            &&& run(c, 0, Seq::empty(), m) == finished()
        }),
{
    let (c, d) = stmts_code(ss, 0, Seq::empty(), known)->Ok_0;
    let (c0, d0) = stmt_code(ss[0], 0, Seq::empty(), known)->Ok_0;
    assert(c[0] == c0[0]);
    assert(run(c, 0, Seq::empty(), m) == finished());
}

/// Of an `if`, exactly the branch that the condition selects runs: the
/// `then` branch where it holds, else the `else` branch, or nothing.
pub proof fn law_if_exclusive(c: CondModel, t: StmtModel, e: Option<StmtModel>, m: MessageView)
    ensures
        ({
            let r = stmt_run(
                StmtModel::If(
                    c,
                    Box::new(t),
                    match e {
                        Some(e) => Some(Box::new(e)),
                        None => None,
                    },
                ),
                m,
            );
            let chosen = if cond_holds(c, m) {
                stmt_run(t, m)
            } else {
                match e {
                    Some(e) => stmt_run(e, m),
                    None => no_run(),
                }
            };
            &&& r.effects == chosen.effects
            &&& r.halted == chosen.halted
            &&& r.probes == cond_probes(c, m) + chosen.probes
        }),
{
}

/// In compiled code too exactly one branch of an `if` runs: the code of
/// `(if c t e)` does what the branch that `c` selects does (or nothing),
/// after the questions of `c`.
pub proof fn law_compiled_if_exclusive(
    c: CondModel,
    t: StmtModel,
    e: Option<StmtModel>,
    known: Seq<Seq<char>>,
    m: MessageView,
)
    requires
        stmts_code(
            seq![StmtModel::If(c, Box::new(t), match e {
                Some(e) => Some(Box::new(e)),
                None => None,
            })],
            0,
            Seq::empty(),
            known,
        ) is Ok,
    ensures
        ({
            let ss = seq![StmtModel::If(c, Box::new(t), match e {
                Some(e) => Some(Box::new(e)),
                None => None,
            })];
            let (code, d) = stmts_code(ss, 0, Seq::empty(), known)->Ok_0;
            let chosen = if cond_holds(c, m) {
                stmt_run(t, m)
            } else {
                match e {
                    Some(e) => stmt_run(e, m),
                    None => no_run(),
                }
            };
            run(code, 0, Seq::empty(), m) == Outcome {
                actions: to_actions(chosen.effects, d),
                probes: cond_probes(c, m) + chosen.probes,
                fault: None,
            }
        }),
{
    let s = StmtModel::If(c, Box::new(t), match e {
        Some(e) => Some(Box::new(e)),
        None => None,
    });
    let ss = seq![s];
    lemma_compiled_run(ss, known, m);
    law_if_exclusive(c, t, e, m);
    assert(ss.drop_first() =~= Seq::<StmtModel>::empty());
    let r = stmt_run(s, m);
    let rest = stmts_run(ss.drop_first(), m);
    assert(rest == no_run());
    assert(r.probes + rest.probes =~= r.probes);
    assert(r.effects + rest.effects =~= r.effects);
}

/// An `or` asks its operands from the left and stops at the first that
/// holds: where operand `i` is the first to hold, the questions asked are
/// those of operands `0..=i` alone, and the `or` holds.
pub proof fn law_or_short_circuit(cs: Seq<CondModel>, i: int, m: MessageView)
    requires
        0 <= i < cs.len(),
        cond_holds(cs[i], m),
        forall|j: int| 0 <= j < i ==> !cond_holds(#[trigger] cs[j], m),
    ensures
        or_holds(cs, m),
        or_probes(cs, m) == or_probes(cs.subrange(0, i + 1), m),
    decreases i,
{
    let pre = cs.subrange(0, i + 1);
    assert(pre[0] == cs[0]);
    if i == 0 {
        assert(or_probes(cs, m) == cond_probes(cs[0], m) + Seq::empty());
        assert(or_probes(pre, m) == cond_probes(cs[0], m) + Seq::empty());
    } else {
        assert(!cond_holds(cs[0], m));
        let rest = cs.drop_first();
        assert forall|j: int| 0 <= j < i - 1 implies !cond_holds(#[trigger] rest[j], m) by {
            assert(rest[j] == cs[j + 1]);
        }
        law_or_short_circuit(rest, i - 1, m);
        assert(pre.drop_first() =~= rest.subrange(0, i));
    }
}

/// Compiled code stops an `or` at its first operand that holds too: run
/// on a message, the code of `(if (or c0 .. cn) t e)` asks exactly what
/// the operands up to the first that holds ask, then what `t` asks.
pub proof fn law_compiled_or_short_circuit(
    cs: Seq<CondModel>,
    i: int,
    t: StmtModel,
    e: Option<Box<StmtModel>>,
    known: Seq<Seq<char>>,
    m: MessageView,
)
    requires
        0 <= i < cs.len(),
        cond_holds(cs[i], m),
        forall|j: int| 0 <= j < i ==> !cond_holds(#[trigger] cs[j], m),
        stmts_code(seq![StmtModel::If(CondModel::Or(cs), Box::new(t), e)], 0, Seq::empty(), known) is Ok,
    ensures
        ({
            let ss = seq![StmtModel::If(CondModel::Or(cs), Box::new(t), e)];
            let (c, d) = stmts_code(ss, 0, Seq::empty(), known)->Ok_0;
            run(c, 0, Seq::empty(), m).probes == or_probes(cs.subrange(0, i + 1), m) + stmt_run(
                t,
                m,
            ).probes
        }),
{
    let s = StmtModel::If(CondModel::Or(cs), Box::new(t), e);
    let ss = seq![s];
    law_or_short_circuit(cs, i, m);
    lemma_compiled_run(ss, known, m);
    assert(ss.drop_first() =~= Seq::<StmtModel>::empty());
    let r = stmt_run(s, m);
    let rest = stmts_run(ss.drop_first(), m);
    assert(rest == no_run());
    assert(r.probes + rest.probes =~= r.probes);
}

/// The statement that skips a message carrying `label`:
/// `(if (flagged label) (halt!))`.
pub open spec fn gate(label: Seq<char>) -> StmtModel {
    StmtModel::If(CondModel::Flagged(label), Box::new(StmtModel::Halt), None)
}

/// The labels that the side effects `effs` set, in order.
pub open spec fn labels_set(effs: Seq<Effect>) -> Seq<Seq<char>>
    decreases effs.len(),
{
    if effs.len() == 0 {
        Seq::empty()
    } else {
        labels_set(effs.drop_last()) + match effs.last() {
            Effect::Flag(l) => seq![l],
            _ => Seq::empty(),
        }
    }
}

/// The message once the labels that `effs` set are on it.
pub open spec fn after(m: MessageView, effs: Seq<Effect>) -> MessageView {
    MessageView { flags: m.flags + labels_set(effs), ..m }
}

/// Statements that do not halt are followed by the next ones.
pub proof fn lemma_stmts_run_concat(a: Seq<StmtModel>, b: Seq<StmtModel>, m: MessageView)
    requires
        !stmts_run(a, m).halted,
    ensures
        stmts_run(a + b, m) == (StmtRun {
            effects: stmts_run(a, m).effects + stmts_run(b, m).effects,
            probes: stmts_run(a, m).probes + stmts_run(b, m).probes,
            halted: stmts_run(b, m).halted,
        }),
    decreases a.len(),
{
    if a.len() == 0 {
        assert(a + b =~= b);
        assert(Seq::<Effect>::empty() + stmts_run(b, m).effects =~= stmts_run(b, m).effects);
        assert(Seq::<crate::message::ProbeModel>::empty() + stmts_run(b, m).probes =~= stmts_run(b, m).probes);
    } else {
        assert((a + b)[0] == a[0]);
        assert((a + b).drop_first() =~= a.drop_first() + b);
        lemma_stmts_run_concat(a.drop_first(), b, m);
        let r0 = stmt_run(a[0], m);
        let ra = stmts_run(a.drop_first(), m);
        let rb = stmts_run(b, m);
        assert(r0.effects + (ra.effects + rb.effects) =~= (r0.effects + ra.effects) + rb.effects);
        assert(r0.probes + (ra.probes + rb.probes) =~= (r0.probes + ra.probes) + rb.probes);
    }
}

/// A script gated on `label` that sets `label` last does its work once:
/// on a message that carries the label it does nothing; on one that does
/// not, it does the work and sets the label; and run again on the message
/// with the labels that the first run set, it does nothing. Where the
/// message lacks the label, the work must not halt (else the label is
/// never set).
pub proof fn law_label_gated_idempotent(label: Seq<char>, work: Seq<StmtModel>, m: MessageView)
    requires
        has_flag(m, label) || !stmts_run(work, m).halted,
    ensures
        ({
            let ss = seq![gate(label)] + work + seq![StmtModel::Flag(label)];
            let r1 = stmts_run(ss, m);
            let r2 = stmts_run(ss, after(m, r1.effects));
            &&& r2.effects == Seq::<Effect>::empty()
            &&& has_flag(m, label) ==> r1.effects == Seq::<Effect>::empty()
            &&& !has_flag(m, label) ==> r1.effects == stmts_run(work, m).effects.push(
                Effect::Flag(label),
            )
        }),
{
    let g = seq![gate(label)];
    let fl = seq![StmtModel::Flag(label)];
    let ss = g + work + fl;
    assert(ss[0] == gate(label));
    assert(ss.drop_first() =~= work + fl);
    lemma_gated(label, work, m);
    let r1 = stmts_run(ss, m);
    let m2 = after(m, r1.effects);
    if has_flag(m, label) {
        assert(labels_set(r1.effects) == Seq::<Seq<char>>::empty());
        assert(m2.flags =~= m.flags);
        assert(m2 == m);
    } else {
        let w = stmts_run(work, m).effects;
        let effs = w.push(Effect::Flag(label));
        assert(effs.drop_last() =~= w);
        assert(labels_set(effs) == labels_set(w) + seq![label]);
        let fs = m.flags + labels_set(effs);
        assert(fs[fs.len() - 1] == label);
        assert(has_flag(m2, label));
    }
    lemma_gated(label, work, m2);
}

/// The same of the compiled code: run again on the message with the labels
/// that the first run set, the code of a label-gated script asks for no
/// action.
pub proof fn law_compiled_label_gated_idempotent(
    label: Seq<char>,
    work: Seq<StmtModel>,
    known: Seq<Seq<char>>,
    m: MessageView,
)
    requires
        has_flag(m, label) || !stmts_run(work, m).halted,
        stmts_code(
            seq![gate(label)] + work + seq![StmtModel::Flag(label)],
            0,
            Seq::empty(),
            known,
        ) is Ok,
    ensures
        ({
            let ss = seq![gate(label)] + work + seq![StmtModel::Flag(label)];
            let (c, d) = stmts_code(ss, 0, Seq::empty(), known)->Ok_0;
            let first = stmts_run(ss, m);
            &&& run(c, 0, Seq::empty(), m).actions == to_actions(first.effects, d)
            &&& run(c, 0, Seq::empty(), after(m, first.effects)).actions
                == Seq::<crate::ir::closure::ActionModel>::empty()
        }),
{
    let ss = seq![gate(label)] + work + seq![StmtModel::Flag(label)];
    let (c, d) = stmts_code(ss, 0, Seq::empty(), known)->Ok_0;
    let first = stmts_run(ss, m);
    law_label_gated_idempotent(label, work, m);
    lemma_compiled_run(ss, known, m);
    lemma_compiled_run(ss, known, after(m, first.effects));
    assert(to_actions(Seq::<Effect>::empty(), d) =~= Seq::<crate::ir::closure::ActionModel>::empty());
}

proof fn lemma_gated(label: Seq<char>, work: Seq<StmtModel>, m: MessageView)
    requires
        has_flag(m, label) || !stmts_run(work, m).halted,
    ensures
        ({
            let r = stmts_run(seq![gate(label)] + work + seq![StmtModel::Flag(label)], m);
            &&& has_flag(m, label) ==> r.effects == Seq::<Effect>::empty()
            &&& !has_flag(m, label) ==> r.effects == stmts_run(work, m).effects.push(
                Effect::Flag(label),
            )
        }),
{
    let g = seq![gate(label)];
    let fl = seq![StmtModel::Flag(label)];
    let ss = g + work + fl;
    assert(ss[0] == gate(label));
    assert(ss.drop_first() =~= work + fl);
    assert(cond_holds(CondModel::Flagged(label), m) == has_flag(m, label));
    let r0 = stmt_run(gate(label), m);
    assert(stmt_run(StmtModel::Halt, m).halted);
    assert(stmt_run(StmtModel::Halt, m).effects == Seq::<Effect>::empty());
    assert(no_run().effects == Seq::<Effect>::empty());
    assert(r0.halted == has_flag(m, label));
    assert(r0.effects == Seq::<Effect>::empty());
    if !has_flag(m, label) {
        lemma_stmts_run_concat(work, fl, m);
        assert(fl[0] == StmtModel::Flag(label));
        assert(fl.drop_first() =~= Seq::<StmtModel>::empty());
        assert(stmts_run(fl.drop_first(), m) == no_run());
        let rf = stmts_run(fl, m);
        assert(rf.effects == seq![Effect::Flag(label)] + Seq::<Effect>::empty());
        let w = stmts_run(work, m).effects;
        assert(Seq::<Effect>::empty() + (w + seq![Effect::Flag(label)]) =~= w.push(Effect::Flag(label)));
    }
}

/// The code compiled from a script does exactly what the script does.
pub proof fn law_compiled_matches_script(ss: Seq<StmtModel>, known: Seq<Seq<char>>, m: MessageView)
    requires
        stmts_code(ss, 0, Seq::empty(), known) is Ok,
    ensures
        ({
            let (c, d) = stmts_code(ss, 0, Seq::empty(), known)->Ok_0;
            let r = stmts_run(ss, m);
            run(c, 0, Seq::empty(), m) == Outcome {
                actions: to_actions(r.effects, d),
                probes: r.probes,
                fault: None,
            }
        }),
{
    lemma_compiled_run(ss, known, m);
}

} // verus!
