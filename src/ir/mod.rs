//! The stack machine that scripts are compiled to: its instructions, the
//! code the compiler emits for each construct, and the compiled program.

use vstd::prelude::*;

use crate::ast::{CondModel, StmtModel};
use crate::ast::stmt::Stmt;
use crate::text::{digits, hex2, push_char, push_digits, push_hex2, push_quoted, push_str, quoted};
use crate::value::{opt_view, pattern_text, PatternView, RecipientPattern};
use closure::Closure;
use compiler::{names, IRCompiler};

pub mod closure;
pub mod compiler;
pub mod correct;

verus! {

#[derive(Debug, Clone, PartialEq, Eq)]
pub enum Insn {
    LiteralFlag(String),
    LiteralRecipientPattern(Option<String>, Option<String>, Option<String>),
    LiteralDest(usize),
    Flagged,
    ReceivedBy,
    Or,
    Append,
    Flag,
    Halt,
    Jump(usize),
    JumpFalse(usize),
}

pub enum InsnModel {
    LiteralFlag(Seq<char>),
    LiteralRecipientPattern(PatternView),
    LiteralDest(int),
    Flagged,
    ReceivedBy,
    Or,
    Append,
    Flag,
    Halt,
    Jump(int),
    JumpFalse(int),
}

impl View for Insn {
    type V = InsnModel;

    open spec fn view(&self) -> InsnModel {
        match self {
            Insn::LiteralFlag(s) => InsnModel::LiteralFlag(s@),
            Insn::LiteralRecipientPattern(m, p, h) => InsnModel::LiteralRecipientPattern(
                PatternView { mailbox: opt_view(*m), plus: opt_view(*p), host: opt_view(*h) },
            ),
            Insn::LiteralDest(i) => InsnModel::LiteralDest(*i as int),
            Insn::Flagged => InsnModel::Flagged,
            Insn::ReceivedBy => InsnModel::ReceivedBy,
            Insn::Or => InsnModel::Or,
            Insn::Append => InsnModel::Append,
            Insn::Flag => InsnModel::Flag,
            Insn::Halt => InsnModel::Halt,
            Insn::Jump(t) => InsnModel::Jump(*t as int),
            Insn::JumpFalse(t) => InsnModel::JumpFalse(*t as int),
        }
    }
}

/// An instruction as text.
pub open spec fn insn_text(x: InsnModel) -> Seq<char> {
    match x {
        InsnModel::LiteralFlag(l) => seq!['f'] + quoted(l),
        InsnModel::LiteralRecipientPattern(p) => "rp\""@ + pattern_text(p) + seq!['"'],
        InsnModel::LiteralDest(d) => seq!['d'] + digits(d as nat, 10),
        InsnModel::Flagged => "flagged?"@,
        InsnModel::ReceivedBy => "received-by?"@,
        InsnModel::Or => "or"@,
        InsnModel::Append => "append!"@,
        InsnModel::Flag => "flag!"@,
        InsnModel::Halt => "halt!"@,
        InsnModel::Jump(t) => "j "@ + hex2(t as nat),
        InsnModel::JumpFalse(t) => "jfalse "@ + hex2(t as nat),
    }
}

/// Code as text: a newline, then one line per instruction, its index in
/// hexadecimal first.
pub open spec fn code_text(code: Seq<InsnModel>) -> Seq<char>
    decreases code.len(),
{
    if code.len() == 0 {
        seq!['\n']
    } else {
        code_text(code.drop_last()) + hex2((code.len() - 1) as nat) + seq![' '] + insn_text(
            code.last(),
        ) + seq!['\n']
    }
}

impl Insn {
    /// The instruction as text.
    pub fn to_text(&self) -> (r: String)
        ensures
            r@ == insn_text(self@),
    {
        let mut out = String::new();
        self.push_text(&mut out);
        assert(out@ =~= insn_text(self@));
        out
    }

    /// Appends the instruction as text to `out`.
    pub fn push_text(&self, out: &mut String)
        ensures
            final(out)@ == old(out)@ + insn_text(self@),
    {
        match self {
            Insn::LiteralFlag(fl) => {
                push_char(out, 'f');
                push_quoted(out, fl.as_str());
            },
            Insn::LiteralRecipientPattern(mailbox, plus, host) => {
                push_str(out, "rp\"");
                let p = RecipientPattern { mailbox: mailbox.clone(), plus: plus.clone(), host: host.clone() };
                p.push_source(out);
                push_char(out, '"');
            },
            Insn::LiteralDest(d) => {
                push_char(out, 'd');
                push_digits(out, *d, 10);
            },
            Insn::Flagged => push_str(out, "flagged?"),
            Insn::ReceivedBy => push_str(out, "received-by?"),
            Insn::Or => push_str(out, "or"),
            Insn::Append => push_str(out, "append!"),
            Insn::Flag => push_str(out, "flag!"),
            Insn::Halt => push_str(out, "halt!"),
            Insn::Jump(t) => {
                push_str(out, "j ");
                push_hex2(out, *t);
            },
            Insn::JumpFalse(t) => {
                push_str(out, "jfalse ");
                push_hex2(out, *t);
            },
        }
        assert(out@ =~= old(out)@ + insn_text(self@));
    }
}

pub open spec fn insns_model(v: Seq<Insn>) -> Seq<InsnModel> {
    Seq::new(v.len(), |i: int| v[i]@)
}

/// Why a script does not compile.
#[derive(Debug, Clone, PartialEq, Eq)]
pub enum CompileError {
    /// `append!` names a destination that the table does not hold.
    UnknownDestination(String),
    /// An `or` without operands.
    EmptyOr,
}

pub enum CompileErrorModel {
    UnknownDestination(Seq<char>),
    EmptyOr,
}

impl View for CompileError {
    type V = CompileErrorModel;

    open spec fn view(&self) -> CompileErrorModel {
        match self {
            CompileError::UnknownDestination(s) => CompileErrorModel::UnknownDestination(s@),
            CompileError::EmptyOr => CompileErrorModel::EmptyOr,
        }
    }
}

/// Every `or` in the condition has an operand.
pub open spec fn cond_ok(c: CondModel) -> bool
    decreases c,
{
    match c {
        CondModel::Or(cs) => cs.len() > 0 && forall|i: int| 0 <= i < cs.len() ==> cond_ok(#[trigger] cs[i]),
        _ => true,
    }
}

pub open spec fn cond_size(c: CondModel) -> nat
    decreases c,
{
    match c {
        CondModel::Or(cs) => or_size(cs),
        _ => 3,
    }
}

pub open spec fn or_size(cs: Seq<CondModel>) -> nat
    decreases cs,
{
    if cs.len() == 0 {
        0
    } else if cs.len() == 1 {
        cond_size(cs[0])
    } else {
        cond_size(cs[0]) + 1 + or_size(cs.drop_first())
    }
}

/// The code of condition `c` placed at `base`. It runs to its end, or to
/// `t`, where `c` holds, and to `f` where it does not: its last instruction
/// is a `JumpFalse(f)`, and each operand of an `or` but the last is
/// followed by a `Jump(t)`.
pub open spec fn cond_code(c: CondModel, base: int, t: int, f: int) -> Seq<InsnModel>
    decreases c,
{
    match c {
        CondModel::Or(cs) => or_code(cs, base, t, f),
        CondModel::Flagged(l) => seq![InsnModel::LiteralFlag(l), InsnModel::Flagged, InsnModel::JumpFalse(f)],
        CondModel::ReceivedBy(p) => seq![
            InsnModel::LiteralRecipientPattern(p),
            InsnModel::ReceivedBy,
            InsnModel::JumpFalse(f),
        ],
    }
}

pub open spec fn or_code(cs: Seq<CondModel>, base: int, t: int, f: int) -> Seq<InsnModel>
    decreases cs,
{
    if cs.len() == 0 {
        Seq::empty()
    } else if cs.len() == 1 {
        cond_code(cs[0], base, t, f)
    } else {
        let k = cond_size(cs[0]) as int;
        cond_code(cs[0], base, t, base + k + 1) + seq![InsnModel::Jump(t)] + or_code(
            cs.drop_first(),
            base + k + 1,
            t,
            f,
        )
    }
}

/// The index of destination `name` once it is registered in `dests`, and
/// the table after that; `None` where `known` does not hold the name.
pub open spec fn resolve(dests: Seq<Seq<char>>, known: Seq<Seq<char>>, name: Seq<char>) -> Option<
    (int, Seq<Seq<char>>),
> {
    match dests.index_of_first(name) {
        Some(i) => Some((i, dests)),
        None => if known.contains(name) {
            Some((dests.len() as int, dests.push(name)))
        } else {
            None
        },
    }
}

/// The code of statement `s` placed at `base`, with the destination table
/// as it stands after it.
pub open spec fn stmt_code(
    s: StmtModel,
    base: int,
    dests: Seq<Seq<char>>,
    known: Seq<Seq<char>>,
) -> Result<(Seq<InsnModel>, Seq<Seq<char>>), CompileErrorModel>
    decreases s,
{
    match s {
        StmtModel::Halt => Ok((seq![InsnModel::Halt], dests)),
        StmtModel::Flag(l) => Ok((seq![InsnModel::LiteralFlag(l), InsnModel::Flag], dests)),
        StmtModel::Append(n) => match resolve(dests, known, n) {
            None => Err(CompileErrorModel::UnknownDestination(n)),
            Some((ix, d)) => Ok((seq![InsnModel::LiteralDest(ix), InsnModel::Append], d)),
        },
        StmtModel::If(c, t, e) => if !cond_ok(c) {
            Err(CompileErrorModel::EmptyOr)
        } else {
            let cs = cond_size(c) as int;
            match stmt_code(*t, base + cs, dests, known) {
                Err(err) => Err(err),
                Ok((tc, d1)) => match e {
                    None => Ok(
                        (cond_code(c, base, base + cs, base + cs + tc.len()) + tc, d1),
                    ),
                    Some(e) => {
                        let k = base + cs + tc.len();
                        match stmt_code(*e, k + 1, d1, known) {
                            Err(err) => Err(err),
                            Ok((ec, d2)) => Ok(
                                (
                                    cond_code(c, base, base + cs, k + 1) + tc + seq![
                                        InsnModel::Jump(k + 1 + ec.len()),
                                    ] + ec,
                                    d2,
                                ),
                            ),
                        }
                    },
                },
            }
        },
    }
}

/// The code of the statements `ss` placed one after the other from `base`.
pub open spec fn stmts_code(
    ss: Seq<StmtModel>,
    base: int,
    dests: Seq<Seq<char>>,
    known: Seq<Seq<char>>,
) -> Result<(Seq<InsnModel>, Seq<Seq<char>>), CompileErrorModel>
    decreases ss.len(),
{
    if ss.len() == 0 {
        Ok((Seq::empty(), dests))
    } else {
        match stmt_code(ss[0], base, dests, known) {
            Err(e) => Err(e),
            Ok((c, d)) => match stmts_code(ss.drop_first(), base + c.len(), d, known) {
                Err(e) => Err(e),
                Ok((c2, d2)) => Ok((c + c2, d2)),
            },
        }
    }
}

/// A compiled script: its code and the destinations it appends to, in
/// order of first use.
pub struct IR {
    insns: Vec<Insn>,
    dests: Vec<String>,
}

impl IR {
    #[verifier::type_invariant]
    spec fn inv(&self) -> bool {
        code_wf(insns_model(self.insns@), self.dests@.len() as int)
    }

    pub closed spec fn code(&self) -> Seq<InsnModel> {
        insns_model(self.insns@)
    }

    pub closed spec fn table(&self) -> Seq<Seq<char>> {
        names(self.dests@)
    }

    /// Compiles `stmts`; `dests` names the destinations they may append to.
    pub fn compile(stmts: &Vec<Stmt>, dests: Vec<String>) -> (r: Result<IR, CompileError>)
        ensures
            match stmts_code(stmt_models(stmts@), 0, Seq::empty(), names(dests@)) {
                Ok((c, d)) => r matches Ok(ir) && ir.code() == c && ir.table() == d,
                Err(e) => r matches Err(x) && x@ == e,
            },
    {
        IRCompiler::compile(stmts, dests)
    }

    pub(crate) fn from_parts(insns: Vec<Insn>, dests: Vec<String>) -> (r: IR)
        requires
            chunk_wf(insns_model(insns@), 0, insns@.len() as int, dests@.len() as int),
        ensures
            r.code() == insns_model(insns@),
            r.table() == names(dests@),
    {
        IR { insns, dests }
    }

    /// An interpreter for this code, with no destination opened yet.
    pub fn closure(&self) -> (r: Closure<'_>)
        ensures
            r.program() == *self,
            r.opened() == Seq::new(self.table().len(), |i: int| false),
    {
        Closure::new(self)
    }

    /// The code as text.
    pub fn to_text(&self) -> (r: String)
        ensures
            r@ == code_text(self.code()),
    {
        let mut out = String::new();
        push_char(&mut out, '\n');
        let mut ix: usize = 0;
        while ix < self.insns.len()
            invariant
                ix <= self.insns@.len(),
                out@ == code_text(self.code().take(ix as int)),
            decreases self.insns@.len() - ix,
        {
            push_hex2(&mut out, ix);
            push_char(&mut out, ' ');
            self.insns[ix].push_text(&mut out);
            push_char(&mut out, '\n');
            proof {
                let t = self.code().take(ix + 1);
                assert(t.drop_last() =~= self.code().take(ix as int));
                assert(t.last() == self.insns@[ix as int]@);
            }
            ix += 1;
        }
        assert(self.code().take(ix as int) =~= self.code());
        out
    }

    pub fn dests(&self) -> (r: &Vec<String>)
        ensures
            names(r@) == self.table(),
    {
        &self.dests
    }

    /// The code; its jumps go forward to at most its end, and its
    /// destination literals index the table.
    pub fn insns(&self) -> (r: &Vec<Insn>)
        ensures
            insns_model(r@) == self.code(),
            code_wf(self.code(), self.table().len() as int),
    {
        proof {
            use_type_invariant(self);
        }
        &self.insns
    }
}

pub open spec fn stmt_models(v: Seq<Stmt>) -> Seq<StmtModel> {
    Seq::new(v.len(), |i: int| v[i]@)
}

/// A jump to 0 is a placeholder (real jumps go forward, never to 0): the
/// exits of a condition's code before they are known.
pub open spec fn patch_insn(x: InsnModel, t: int, f: int) -> InsnModel {
    match x {
        InsnModel::Jump(j) => if j == 0 {
            InsnModel::Jump(t)
        } else {
            x
        },
        InsnModel::JumpFalse(j) => if j == 0 {
            InsnModel::JumpFalse(f)
        } else {
            x
        },
        _ => x,
    }
}

pub open spec fn patch(code: Seq<InsnModel>, t: int, f: int) -> Seq<InsnModel> {
    code.map_values(|x: InsnModel| patch_insn(x, t, f))
}

pub proof fn lemma_cond_code_len(c: CondModel, base: int, t: int, f: int)
    ensures
        cond_code(c, base, t, f).len() == cond_size(c),
    decreases c, 1nat,
{
    if let CondModel::Or(cs) = c {
        lemma_or_code_len(cs, base, t, f);
    }
}

pub proof fn lemma_or_code_len(cs: Seq<CondModel>, base: int, t: int, f: int)
    ensures
        or_code(cs, base, t, f).len() == or_size(cs),
    decreases cs, 0nat,
{
    if cs.len() == 1 {
        lemma_cond_code_len(cs[0], base, t, f);
    } else if cs.len() > 1 {
        let k = cond_size(cs[0]) as int;
        lemma_cond_code_len(cs[0], base, t, base + k + 1);
        lemma_or_code_len(cs.drop_first(), base + k + 1, t, f);
    }
}

/// Filling in the exits of a condition's code gives the code with those
/// exits.
pub proof fn lemma_patch_cond(c: CondModel, base: int, t: int, f: int)
    requires
        base >= 0,
    ensures
        patch(cond_code(c, base, 0, 0), t, f) == cond_code(c, base, t, f),
    decreases c, 1nat,
{
    match c {
        CondModel::Or(cs) => lemma_patch_or(cs, base, t, f),
        _ => {
            assert(patch(cond_code(c, base, 0, 0), t, f) =~= cond_code(c, base, t, f));
        },
    }
}

pub proof fn lemma_patch_or(cs: Seq<CondModel>, base: int, t: int, f: int)
    requires
        base >= 0,
    ensures
        patch(or_code(cs, base, 0, 0), t, f) == or_code(cs, base, t, f),
    decreases cs, 0nat,
{
    if cs.len() == 0 {
        assert(patch(or_code(cs, base, 0, 0), t, f) =~= or_code(cs, base, t, f));
    } else if cs.len() == 1 {
        lemma_patch_cond(cs[0], base, t, f);
    } else {
        let k = cond_size(cs[0]) as int;
        let a = cond_code(cs[0], base, 0, base + k + 1);
        let r = or_code(cs.drop_first(), base + k + 1, 0, 0);
        lemma_patch_cond(cs[0], base, 0, base + k + 1);
        lemma_patch_cond(cs[0], base, t, base + k + 1);
        lemma_patch_or(cs.drop_first(), base + k + 1, t, f);
        assert(patch(a, t, f) =~= cond_code(cs[0], base, t, base + k + 1)) by {
            assert(patch(a, t, f) =~= patch(patch(cond_code(cs[0], base, 0, 0), 0, base + k + 1), t, f));
            assert(patch(patch(cond_code(cs[0], base, 0, 0), 0, base + k + 1), t, f) =~= patch(
                cond_code(cs[0], base, 0, 0),
                t,
                base + k + 1,
            ));
        }
        assert(patch(a + seq![InsnModel::Jump(0)] + r, t, f) =~= patch(a, t, f) + seq![
            InsnModel::Jump(t),
        ] + patch(r, t, f));
    }
}

/// Every jump goes forward and at most one past the end, and every
/// destination literal indexes the table.
pub open spec fn code_wf(code: Seq<InsnModel>, ndests: int) -> bool {
    forall|i: int|
        0 <= i < code.len() ==> match #[trigger] code[i] {
            InsnModel::Jump(t) => i < t <= code.len(),
            InsnModel::JumpFalse(t) => i < t <= code.len(),
            InsnModel::LiteralDest(d) => 0 <= d < ndests,
            _ => true,
        }
}

/// The code in `code`, placed at `base`, jumps only forward and to at most
/// `hi`, and indexes only the first `nd` destinations.
pub open spec fn chunk_wf(code: Seq<InsnModel>, base: int, hi: int, nd: int) -> bool {
    forall|i: int|
        0 <= i < code.len() ==> match #[trigger] code[i] {
            InsnModel::Jump(t) => base + i < t <= hi,
            InsnModel::JumpFalse(t) => base + i < t <= hi,
            InsnModel::LiteralDest(d) => 0 <= d < nd,
            _ => true,
        }
}

pub proof fn lemma_chunk_concat(a: Seq<InsnModel>, b: Seq<InsnModel>, base: int, hi: int, nd: int)
    requires
        chunk_wf(a, base, hi, nd),
        chunk_wf(b, base + a.len(), hi, nd),
    ensures
        chunk_wf(a + b, base, hi, nd),
{
    assert forall|i: int| 0 <= i < (a + b).len() implies match #[trigger] (a + b)[i] {
        InsnModel::Jump(t) => base + i < t <= hi,
        InsnModel::JumpFalse(t) => base + i < t <= hi,
        InsnModel::LiteralDest(d) => 0 <= d < nd,
        _ => true,
    } by {
        if i >= a.len() {
            assert((a + b)[i] == b[i - a.len()]);
        } else {
            assert((a + b)[i] == a[i]);
        }
    }
}

pub proof fn lemma_chunk_widen(a: Seq<InsnModel>, base: int, hi: int, hi2: int, nd: int, nd2: int)
    requires
        chunk_wf(a, base, hi, nd),
        hi <= hi2,
        nd <= nd2,
    ensures
        chunk_wf(a, base, hi2, nd2),
{
    assert forall|i: int| 0 <= i < a.len() implies match #[trigger] a[i] {
        InsnModel::Jump(t) => base + i < t <= hi2,
        InsnModel::JumpFalse(t) => base + i < t <= hi2,
        InsnModel::LiteralDest(d) => 0 <= d < nd2,
        _ => true,
    } by {
        assert(chunk_wf(a, base, hi, nd));
    }
}

pub proof fn lemma_cond_code_wf(c: CondModel, base: int, t: int, f: int, hi: int)
    requires
        cond_ok(c),
        base + cond_size(c) <= t <= hi,
        base + cond_size(c) <= f <= hi,
    ensures
        chunk_wf(cond_code(c, base, t, f), base, hi, 0),
    decreases c, 1nat,
{
    match c {
        CondModel::Or(cs) => {
            lemma_or_code_wf(cs, base, t, f, hi);
        },
        _ => {},
    }
}

pub proof fn lemma_or_code_wf(cs: Seq<CondModel>, base: int, t: int, f: int, hi: int)
    requires
        cs.len() > 0,
        forall|i: int| 0 <= i < cs.len() ==> cond_ok(#[trigger] cs[i]),
        base + or_size(cs) <= t <= hi,
        base + or_size(cs) <= f <= hi,
    ensures
        chunk_wf(or_code(cs, base, t, f), base, hi, 0),
    decreases cs, 0nat,
{
    assert(cond_ok(cs[0]));
    if cs.len() == 1 {
        lemma_cond_code_wf(cs[0], base, t, f, hi);
    } else {
        let k = cond_size(cs[0]) as int;
        let rest = cs.drop_first();
        assert forall|i: int| 0 <= i < rest.len() implies cond_ok(#[trigger] rest[i]) by {
            assert(rest[i] == cs[i + 1]);
        }
        lemma_cond_code_wf(cs[0], base, t, base + k + 1, hi);
        lemma_cond_code_len(cs[0], base, t, base + k + 1);
        lemma_or_code_wf(rest, base + k + 1, t, f, hi);
        let j = seq![InsnModel::Jump(t)];
        assert(chunk_wf(j, base + k, hi, 0));
        lemma_chunk_concat(cond_code(cs[0], base, t, base + k + 1), j, base, hi, 0);
        lemma_chunk_concat(
            cond_code(cs[0], base, t, base + k + 1) + j,
            or_code(rest, base + k + 1, t, f),
            base,
            hi,
            0,
        );
    }
}

/// The code of a statement jumps only forward and inside itself, and uses
/// only the destinations registered once it is compiled.
pub proof fn lemma_stmt_code_wf(
    s: StmtModel,
    base: int,
    dests: Seq<Seq<char>>,
    known: Seq<Seq<char>>,
)
    requires
        base >= 0,
        stmt_code(s, base, dests, known) is Ok,
    ensures
        ({
            let (c, d) = stmt_code(s, base, dests, known)->Ok_0;
            &&& chunk_wf(c, base, base + c.len(), d.len() as int)
            &&& dests.len() <= d.len()
            &&& d.subrange(0, dests.len() as int) == dests
        }),
    decreases s,
{
    let (c, d) = stmt_code(s, base, dests, known)->Ok_0;
    match s {
        StmtModel::If(cnd, t, e) => {
            let cs = cond_size(cnd) as int;
            let (tc, d1) = stmt_code(*t, base + cs, dests, known)->Ok_0;
            lemma_stmt_code_wf(*t, base + cs, dests, known);
            lemma_cond_code_len(cnd, base, 0, 0);
            match e {
                None => {
                    let f = base + cs + tc.len();
                    lemma_cond_code_len(cnd, base, base + cs, f);
                    lemma_cond_code_wf(cnd, base, base + cs, f, base + c.len());
                    lemma_chunk_widen(cond_code(cnd, base, base + cs, f), base, base + c.len(), base + c.len(), 0, d.len() as int);
                    lemma_chunk_widen(tc, base + cs, base + cs + tc.len(), base + c.len(), d1.len() as int, d.len() as int);
                    lemma_chunk_concat(cond_code(cnd, base, base + cs, f), tc, base, base + c.len(), d.len() as int);
                },
                Some(e) => {
                    let k = base + cs + tc.len();
                    let (ec, d2) = stmt_code(*e, k + 1, d1, known)->Ok_0;
                    lemma_stmt_code_wf(*e, k + 1, d1, known);
                    lemma_cond_code_len(cnd, base, base + cs, k + 1);
                    lemma_cond_code_wf(cnd, base, base + cs, k + 1, base + c.len());
                    let cc = cond_code(cnd, base, base + cs, k + 1);
                    let j = seq![InsnModel::Jump(k + 1 + ec.len())];
                    lemma_chunk_widen(cc, base, base + c.len(), base + c.len(), 0, d.len() as int);
                    lemma_chunk_widen(tc, base + cs, base + cs + tc.len(), base + c.len(), d1.len() as int, d.len() as int);
                    assert(chunk_wf(j, k, base + c.len(), d.len() as int));
                    lemma_chunk_widen(ec, k + 1, k + 1 + ec.len(), base + c.len(), d2.len() as int, d.len() as int);
                    lemma_chunk_concat(cc, tc, base, base + c.len(), d.len() as int);
                    lemma_chunk_concat(cc + tc, j, base, base + c.len(), d.len() as int);
                    lemma_chunk_concat(cc + tc + j, ec, base, base + c.len(), d.len() as int);
                    assert(d2.subrange(0, dests.len() as int) =~= d1.subrange(0, dests.len() as int));
                },
            }
        },
        StmtModel::Append(n) => {
            dests.index_of_first_ensures(n);
            assert(d.subrange(0, dests.len() as int) =~= dests);
        },
        _ => {
            assert(d.subrange(0, dests.len() as int) =~= dests);
        },
    }
}

pub proof fn lemma_stmts_code_wf(
    ss: Seq<StmtModel>,
    base: int,
    dests: Seq<Seq<char>>,
    known: Seq<Seq<char>>,
)
    requires
        base >= 0,
        stmts_code(ss, base, dests, known) is Ok,
    ensures
        ({
            let (c, d) = stmts_code(ss, base, dests, known)->Ok_0;
            &&& chunk_wf(c, base, base + c.len(), d.len() as int)
            &&& dests.len() <= d.len()
        }),
    decreases ss.len(),
{
    if ss.len() > 0 {
        let (c, d) = stmt_code(ss[0], base, dests, known)->Ok_0;
        let (c2, d2) = stmts_code(ss.drop_first(), base + c.len(), d, known)->Ok_0;
        lemma_stmt_code_wf(ss[0], base, dests, known);
        lemma_stmts_code_wf(ss.drop_first(), base + c.len(), d, known);
        lemma_chunk_widen(c, base, base + c.len(), base + c.len() + c2.len(), d.len() as int, d2.len() as int);
        lemma_chunk_concat(c, c2, base, base + c.len() + c2.len(), d2.len() as int);
    }
}

} // verus!
