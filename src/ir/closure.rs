//! Running compiled code against one message at a time.

use vstd::prelude::*;

use super::{code_wf, insns_model, Insn, InsnModel, IR};
use crate::message::{
    has_flag, probes_model, received_by_spec, Message, MessageView, Probe, ProbeModel,
};
use crate::value::{PatternView, RecipientPattern};

verus! {

/// A value on the operand stack.
#[derive(Debug, Clone, PartialEq, Eq)]
pub enum Operand {
    Flag(String),
    RecipientPattern(RecipientPattern),
    Destination(usize),
    Cond(bool),
}

pub enum OperandModel {
    Flag(Seq<char>),
    Pattern(PatternView),
    Dest(int),
    Cond(bool),
}

impl View for Operand {
    type V = OperandModel;

    open spec fn view(&self) -> OperandModel {
        match self {
            Operand::Flag(s) => OperandModel::Flag(s@),
            Operand::RecipientPattern(p) => OperandModel::Pattern(p@),
            Operand::Destination(d) => OperandModel::Dest(*d as int),
            Operand::Cond(b) => OperandModel::Cond(*b),
        }
    }
}

/// A run-time error: it only comes of code that the compiler did not emit.
#[derive(Clone, Copy, PartialEq, Eq, Debug, Structural)]
pub enum Fault {
    EmptyStack,
    TypeMismatch,
    BadJump,
}

/// A side effect that running the code asks for, in program order.
#[derive(Debug, Clone, PartialEq, Eq)]
pub enum Action {
    /// Copy the message to the destination with this index.
    Append(usize),
    /// Set this label on the source message.
    Flag(String),
}

pub enum ActionModel {
    Append(int),
    Flag(Seq<char>),
}

impl View for Action {
    type V = ActionModel;

    open spec fn view(&self) -> ActionModel {
        match self {
            Action::Append(d) => ActionModel::Append(*d as int),
            Action::Flag(s) => ActionModel::Flag(s@),
        }
    }
}

pub struct Outcome {
    pub actions: Seq<ActionModel>,
    pub probes: Seq<ProbeModel>,
    pub fault: Option<Fault>,
}

pub open spec fn finished() -> Outcome {
    Outcome { actions: Seq::empty(), probes: Seq::empty(), fault: None }
}

pub open spec fn faulted(f: Fault) -> Outcome {
    Outcome { actions: Seq::empty(), probes: Seq::empty(), fault: Some(f) }
}

/// `o` after the actions `a` and the probes `p`.
pub open spec fn prepend(a: Seq<ActionModel>, p: Seq<ProbeModel>, o: Outcome) -> Outcome {
    Outcome { actions: a + o.actions, probes: p + o.probes, fault: o.fault }
}

/// What running `code` from `pc` with `stack` does to message `m`.
pub open spec fn run(code: Seq<InsnModel>, pc: int, stack: Seq<OperandModel>, m: MessageView) -> Outcome
    decreases code.len() - pc,
{
    if pc < 0 || pc >= code.len() {
        finished()
    } else {
        let n = stack.len();
        let top = stack.last();
        let rest = stack.drop_last();
        match code[pc] {
            InsnModel::LiteralFlag(l) => run(code, pc + 1, stack.push(OperandModel::Flag(l)), m),
            InsnModel::LiteralRecipientPattern(p) => run(
                code,
                pc + 1,
                stack.push(OperandModel::Pattern(p)),
                m,
            ),
            InsnModel::LiteralDest(d) => run(code, pc + 1, stack.push(OperandModel::Dest(d)), m),
            InsnModel::Flagged => if n == 0 {
                faulted(Fault::EmptyStack)
            } else {
                match top {
                    OperandModel::Flag(l) => prepend(
                        Seq::empty(),
                        seq![ProbeModel::Flagged(l)],
                        run(code, pc + 1, rest.push(OperandModel::Cond(has_flag(m, l))), m),
                    ),
                    _ => faulted(Fault::TypeMismatch),
                }
            },
            InsnModel::ReceivedBy => if n == 0 {
                faulted(Fault::EmptyStack)
            } else {
                match top {
                    OperandModel::Pattern(p) => prepend(
                        Seq::empty(),
                        seq![ProbeModel::ReceivedBy(p)],
                        run(code, pc + 1, rest.push(OperandModel::Cond(received_by_spec(m, p))), m),
                    ),
                    _ => faulted(Fault::TypeMismatch),
                }
            },
            InsnModel::Or => if n == 0 {
                faulted(Fault::EmptyStack)
            } else {
                match top {
                    OperandModel::Cond(b1) => if n == 1 {
                        faulted(Fault::EmptyStack)
                    } else {
                        match rest.last() {
                            OperandModel::Cond(b2) => run(
                                code,
                                pc + 1,
                                rest.drop_last().push(OperandModel::Cond(b1 || b2)),
                                m,
                            ),
                            _ => faulted(Fault::TypeMismatch),
                        }
                    },
                    _ => faulted(Fault::TypeMismatch),
                }
            },
            InsnModel::Append => if n == 0 {
                faulted(Fault::EmptyStack)
            } else {
                match top {
                    OperandModel::Dest(d) => prepend(
                        seq![ActionModel::Append(d)],
                        Seq::empty(),
                        run(code, pc + 1, rest, m),
                    ),
                    _ => faulted(Fault::TypeMismatch),
                }
            },
            InsnModel::Flag => if n == 0 {
                faulted(Fault::EmptyStack)
            } else {
                match top {
                    OperandModel::Flag(l) => prepend(
                        seq![ActionModel::Flag(l)],
                        Seq::empty(),
                        run(code, pc + 1, rest, m),
                    ),
                    _ => faulted(Fault::TypeMismatch),
                }
            },
            InsnModel::Halt => finished(),
            InsnModel::Jump(t) => if t <= pc || t > code.len() {
                faulted(Fault::BadJump)
            } else {
                run(code, t, stack, m)
            },
            InsnModel::JumpFalse(t) => if n == 0 {
                faulted(Fault::EmptyStack)
            } else {
                match top {
                    OperandModel::Cond(b) => if b {
                        run(code, pc + 1, rest, m)
                    } else if t <= pc || t > code.len() {
                        faulted(Fault::BadJump)
                    } else {
                        run(code, t, rest, m)
                    },
                    _ => faulted(Fault::TypeMismatch),
                }
            },
        }
    }
}

pub proof fn lemma_prepend_assoc(
    aa: Seq<ActionModel>,
    pa: Seq<ProbeModel>,
    ab: Seq<ActionModel>,
    pb: Seq<ProbeModel>,
    o: Outcome,
)
    ensures
        prepend(aa, pa, prepend(ab, pb, o)) == prepend(aa + ab, pa + pb, o),
{
    assert(aa + (ab + o.actions) =~= (aa + ab) + o.actions);
    assert(pa + (pb + o.probes) =~= (pa + pb) + o.probes);
}

pub open spec fn operands(v: Seq<Operand>) -> Seq<OperandModel> {
    Seq::new(v.len(), |i: int| v[i]@)
}

/// The operand stack.
pub struct Stack(pub Vec<Operand>);

impl View for Stack {
    type V = Seq<OperandModel>;

    open spec fn view(&self) -> Seq<OperandModel> {
        operands(self.0@)
    }
}

impl Stack {
    pub fn new() -> (r: Stack)
        ensures
            r@ == Seq::<OperandModel>::empty(),
    {
        let r = Stack(Vec::new());
        assert(r@ =~= Seq::<OperandModel>::empty());
        r
    }

    pub fn push(&mut self, value: Operand)
        ensures
            final(self)@ == old(self)@.push(value@),
    {
        self.0.push(value);
        assert(self@ =~= old(self)@.push(value@));
    }

    pub fn pop(&mut self) -> (r: Result<Operand, Fault>)
        ensures
            old(self)@.len() == 0 ==> r == Err::<Operand, Fault>(Fault::EmptyStack) && final(self)@
                == old(self)@,
            old(self)@.len() > 0 ==> (r matches Ok(v) && v@ == old(self)@.last() && final(self)@
                == old(self)@.drop_last()),
    {
        match self.0.pop() {
            Some(v) => {
                assert(self@ =~= old(self)@.drop_last());
                Ok(v)
            },
            None => Err(Fault::EmptyStack),
        }
    }

    pub fn pop_cond(&mut self) -> (r: Result<bool, Fault>)
        ensures
            old(self)@.len() == 0 ==> r == Err::<bool, Fault>(Fault::EmptyStack) && final(self)@
                == old(self)@,
            old(self)@.len() > 0 ==> match old(self)@.last() {
                OperandModel::Cond(b) => r == Ok::<bool, Fault>(b) && final(self)@ == old(self)@.drop_last(),
                _ => r == Err::<bool, Fault>(Fault::TypeMismatch) && final(self)@ == old(
                    self,
                )@.drop_last(),
            },
    {
        match self.pop()? {
            Operand::Cond(b) => Ok(b),
            _ => Err(Fault::TypeMismatch),
        }
    }

    pub fn pop_destination(&mut self) -> (r: Result<usize, Fault>)
        ensures
            old(self)@.len() == 0 ==> r == Err::<usize, Fault>(Fault::EmptyStack) && final(self)@
                == old(self)@,
            old(self)@.len() > 0 ==> match old(self)@.last() {
                OperandModel::Dest(d) => r matches Ok(x) && x == d && final(self)@ == old(self)@.drop_last(),
                _ => r == Err::<usize, Fault>(Fault::TypeMismatch) && final(self)@ == old(
                    self,
                )@.drop_last(),
            },
    {
        match self.pop()? {
            Operand::Destination(ix) => Ok(ix),
            _ => Err(Fault::TypeMismatch),
        }
    }

    pub fn pop_flag(&mut self) -> (r: Result<String, Fault>)
        ensures
            old(self)@.len() == 0 ==> (r matches Err(e) && e == Fault::EmptyStack && final(self)@
                == old(self)@),
            old(self)@.len() > 0 ==> match old(self)@.last() {
                OperandModel::Flag(l) => r matches Ok(x) && x@ == l && final(self)@ == old(self)@.drop_last(),
                _ => r matches Err(e) && e == Fault::TypeMismatch && final(self)@ == old(
                    self,
                )@.drop_last(),
            },
    {
        match self.pop()? {
            Operand::Flag(fl) => Ok(fl),
            _ => Err(Fault::TypeMismatch),
        }
    }

    pub fn pop_recipient_pattern(&mut self) -> (r: Result<RecipientPattern, Fault>)
        ensures
            old(self)@.len() == 0 ==> (r matches Err(e) && e == Fault::EmptyStack && final(self)@
                == old(self)@),
            old(self)@.len() > 0 ==> match old(self)@.last() {
                OperandModel::Pattern(p) => r matches Ok(x) && x@ == p && final(self)@ == old(self)@.drop_last(),
                _ => r matches Err(e) && e == Fault::TypeMismatch && final(self)@ == old(
                    self,
                )@.drop_last(),
            },
    {
        match self.pop()? {
            Operand::RecipientPattern(rp) => Ok(rp),
            _ => Err(Fault::TypeMismatch),
        }
    }
}

pub open spec fn actions_model(v: Seq<Action>) -> Seq<ActionModel> {
    Seq::new(v.len(), |i: int| v[i]@)
}

/// What running the code on one message asked for: the side effects to
/// perform in order, the questions put to the message, and the run-time
/// error that stopped it, if any.
pub struct Run {
    pub actions: Vec<Action>,
    pub probes: Vec<Probe>,
    pub fault: Option<Fault>,
}

impl View for Run {
    type V = Outcome;

    open spec fn view(&self) -> Outcome {
        Outcome {
            actions: actions_model(self.actions@),
            probes: probes_model(self.probes@),
            fault: self.fault,
        }
    }
}

/// The state of a run: the operand stack, and what was asked for so far.
pub struct Machine {
    pub stack: Stack,
    pub actions: Vec<Action>,
    pub probes: Vec<Probe>,
}

impl Machine {
    /// The outcome of a run that goes on as `o` from here.
    pub open spec fn prefix(&self, o: Outcome) -> Outcome {
        prepend(actions_model(self.actions@), probes_model(self.probes@), o)
    }

    /// The outcome of a run that stops here.
    pub open spec fn stopped(&self, f: Option<Fault>) -> Outcome {
        Outcome {
            actions: actions_model(self.actions@),
            probes: probes_model(self.probes@),
            fault: f,
        }
    }

    pub fn finish(self, f: Option<Fault>) -> (r: Run)
        ensures
            r@ == self.stopped(f),
            self.prefix(finished()) == self.stopped(None),
    {
        assert(actions_model(self.actions@) + Seq::empty() =~= actions_model(self.actions@));
        assert(probes_model(self.probes@) + Seq::empty() =~= probes_model(self.probes@));
        Run { actions: self.actions, probes: self.probes, fault: f }
    }
}

/// The slots of `opened` that are set, in order.
pub open spec fn opened_slots(opened: Seq<bool>, n: int) -> Seq<usize>
    decreases n,
{
    if n <= 0 {
        Seq::empty()
    } else if opened[n - 1] {
        opened_slots(opened, n - 1).push((n - 1) as usize)
    } else {
        opened_slots(opened, n - 1)
    }
}

/// An interpreter for one compiled script, kept across a batch of messages:
/// it remembers which destinations have been opened.
pub struct Closure<'i> {
    ir: &'i IR,
    opened: Vec<bool>,
}

impl<'i> Closure<'i> {
    #[verifier::type_invariant]
    spec fn inv(&self) -> bool {
        self.opened@.len() == self.ir.table().len()
    }

    pub closed spec fn program(&self) -> IR {
        *self.ir
    }

    pub closed spec fn opened(&self) -> Seq<bool> {
        self.opened@
    }

    pub fn new(ir: &'i IR) -> (r: Closure<'i>)
        ensures
            r.program() == *ir,
            r.opened() == Seq::new(ir.table().len(), |i: int| false),
    {
        let n = ir.dests().len();
        let mut opened: Vec<bool> = Vec::new();
        let mut i: usize = 0;
        while i < n
            invariant
                i <= n == ir.table().len(),
                opened@ == Seq::new(i as nat, |j: int| false),
            decreases n - i,
        {
            opened.push(false);
            i += 1;
            assert(opened@ =~= Seq::new(i as nat, |j: int| false));
        }
        Closure { ir, opened }
    }

    /// Whether destination `ix` must be opened before it is appended to:
    /// it has not been opened yet.
    pub fn slot(&self, ix: usize) -> (r: bool)
        requires
            ix < self.program().table().len(),
        ensures
            r == !self.opened()[ix as int],
    {
        proof {
            use_type_invariant(self);
        }
        !self.opened[ix]
    }

    /// Records that destination `ix` was opened: call it once the
    /// connection succeeded, so that a failed one is tried again.
    pub fn mark_opened(&mut self, ix: usize)
        requires
            ix < old(self).program().table().len(),
        ensures
            final(self).program() == old(self).program(),
            final(self).opened() == old(self).opened().update(ix as int, true),
    {
        proof {
            use_type_invariant(&*self);
        }
        self.opened[ix] = true;
    }

    /// The destinations opened so far, in order: those to disconnect when
    /// the batch is done.
    pub fn finish(&self) -> (r: Vec<usize>)
        ensures
            r@ == opened_slots(self.opened(), self.opened().len() as int),
    {
        let mut r: Vec<usize> = Vec::new();
        let mut i: usize = 0;
        while i < self.opened.len()
            invariant
                i <= self.opened@.len(),
                r@ == opened_slots(self.opened@, i as int),
            decreases self.opened@.len() - i,
        {
            if self.opened[i] {
                r.push(i);
            }
            i += 1;
        }
        r
    }

    /// Performs the instruction at `pc`: where the run goes on, the next
    /// pc; where it stops, what stops it.
    #[verifier::rlimit(40)]
    fn step(&self, insn: &Insn, pc: usize, st: &mut Machine, mail: &Message) -> (r: Result<
        usize,
        Option<Fault>,
    >)
        requires
            pc < self.program().code().len() <= usize::MAX,
            self.program().code()[pc as int] == insn@,
        ensures
            old(st).prefix(run(self.program().code(), pc as int, old(st).stack@, mail@))
                == match r {
                Ok(next) => final(st).prefix(
                    run(self.program().code(), next as int, final(st).stack@, mail@),
                ),
                Err(f) => final(st).stopped(f),
            },
            r matches Ok(next) ==> pc < next,
    {
        let ghost code = self.program().code();
        let ghost m = mail@;
        let ghost acts = actions_model(st.actions@);
        let ghost prs = probes_model(st.probes@);
        proof {
            assert(acts + Seq::empty() =~= acts);
            assert(prs + Seq::empty() =~= prs);
        }
        match insn {
            Insn::LiteralFlag(fl) => st.stack.push(Operand::Flag(fl.clone())),
            Insn::LiteralRecipientPattern(mailbox, plus, host) => {
                st.stack.push(
                    Operand::RecipientPattern(
                        RecipientPattern {
                            mailbox: mailbox.clone(),
                            plus: plus.clone(),
                            host: host.clone(),
                        },
                    ),
                )
            },
            Insn::LiteralDest(dn) => st.stack.push(Operand::Destination(*dn)),
            Insn::Flagged => {
                let fl = match st.stack.pop_flag() {
                    Ok(fl) => fl,
                    Err(e) => return Err(Some(e)),
                };
                let b = mail.flagged(fl.as_str());
                st.probes.push(Probe::Flagged(fl));
                st.stack.push(Operand::Cond(b));
                proof {
                    assert(probes_model(st.probes@) =~= prs + seq![st.probes@.last()@]);
                    lemma_prepend_assoc(acts, prs, Seq::empty(), seq![st.probes@.last()@], run(code, pc + 1, st.stack@, m));
                }
            },
            Insn::ReceivedBy => {
                let p = match st.stack.pop_recipient_pattern() {
                    Ok(p) => p,
                    Err(e) => return Err(Some(e)),
                };
                let b = mail.received_by(&p);
                st.probes.push(Probe::ReceivedBy(p));
                st.stack.push(Operand::Cond(b));
                proof {
                    assert(probes_model(st.probes@) =~= prs + seq![st.probes@.last()@]);
                    lemma_prepend_assoc(acts, prs, Seq::empty(), seq![st.probes@.last()@], run(code, pc + 1, st.stack@, m));
                }
            },
            Insn::Or => {
                let c1 = match st.stack.pop_cond() {
                    Ok(c) => c,
                    Err(e) => return Err(Some(e)),
                };
                let c2 = match st.stack.pop_cond() {
                    Ok(c) => c,
                    Err(e) => return Err(Some(e)),
                };
                st.stack.push(Operand::Cond(c1 || c2));
            },
            Insn::Append => {
                let ix = match st.stack.pop_destination() {
                    Ok(ix) => ix,
                    Err(e) => return Err(Some(e)),
                };
                st.actions.push(Action::Append(ix));
                proof {
                    assert(actions_model(st.actions@) =~= acts + seq![st.actions@.last()@]);
                    lemma_prepend_assoc(acts, prs, seq![st.actions@.last()@], Seq::empty(), run(code, pc + 1, st.stack@, m));
                }
            },
            Insn::Flag => {
                let fl = match st.stack.pop_flag() {
                    Ok(fl) => fl,
                    Err(e) => return Err(Some(e)),
                };
                st.actions.push(Action::Flag(fl));
                proof {
                    assert(actions_model(st.actions@) =~= acts + seq![st.actions@.last()@]);
                    lemma_prepend_assoc(acts, prs, seq![st.actions@.last()@], Seq::empty(), run(code, pc + 1, st.stack@, m));
                }
            },
            Insn::Halt => return Err(None),
            Insn::Jump(t) => {
                if *t <= pc || *t > self.ir.insns().len() {
                    return Err(Some(Fault::BadJump));
                }
                return Ok(*t);
            },
            Insn::JumpFalse(t) => {
                let cond = match st.stack.pop_cond() {
                    Ok(c) => c,
                    Err(e) => return Err(Some(e)),
                };
                if !cond {
                    if *t <= pc || *t > self.ir.insns().len() {
                        return Err(Some(Fault::BadJump));
                    }
                    return Ok(*t);
                }
            },
        }
        Ok(pc + 1)
    }

    /// Runs the code against `mail` until it halts, falls off the end, or
    /// meets a run-time error.
    pub fn process(&self, mail: &Message) -> (r: Run)
        ensures
            r@ == run(self.program().code(), 0, Seq::empty(), mail@),
    {
        let insns = self.ir.insns();
        let ghost code = self.program().code();
        let ghost m = mail@;
        let n = insns.len();
        let mut st = Machine { stack: Stack::new(), actions: Vec::new(), probes: Vec::new() };
        let mut pc: usize = 0;
        assert(actions_model(st.actions@) =~= Seq::<ActionModel>::empty());
        assert(probes_model(st.probes@) =~= Seq::<ProbeModel>::empty());
        assert(st.prefix(run(code, 0, Seq::empty(), m)) =~= run(code, 0, Seq::empty(), m));
        while pc < n
            invariant
                n == insns@.len() == code.len(),
                code == insns_model(insns@),
                code == self.program().code(),
                m == mail@,
                code_wf(code, self.program().table().len() as int),
                pc <= n,
                run(code, 0, Seq::empty(), m) == st.prefix(run(code, pc as int, st.stack@, m)),
            decreases n - pc,
        {
            assert(code[pc as int] == insns@[pc as int]@);
            match self.step(&insns[pc], pc, &mut st, mail) {
                Ok(next) => {
                    if next >= n {
                        assert(run(code, next as int, st.stack@, m) == finished());
                        return st.finish(None);
                    }
                    pc = next;
                },
                Err(f) => {
                    return st.finish(f);
                },
            }
        }
        st.finish(None)
    }
}

} // verus!
