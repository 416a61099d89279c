//! Conditions: predicates on a message.

use vstd::prelude::*;

use super::{cond_probes, or_probes, form_text, cond_form, cond_forms, cond_text, spaced, cond_holds, cond_of, conds_of, or_holds, str_arg, CondModel, ParseError, ParseErrorModel};
use crate::message::{probes_model, Message, Probe, ProbeModel};
use crate::text::{push_char, push_quoted, push_str};
use crate::value::pattern_text;
use crate::sexp::{forms_of, lemma_list_form, word_eq, Form, SExp};
use crate::value::{Flag, RecipientPattern};

verus! {

#[derive(Debug)]
pub enum Cond {
    Or(Vec<Cond>),
    Flagged(Flag),
    ReceivedBy(RecipientPattern),
}

pub open spec fn cond_model(c: Cond) -> CondModel
    decreases c,
{
    match c {
        Cond::Or(v) => CondModel::Or(
            Seq::new(
                v@.len(),
                |i: int|
                    if 0 <= i < v@.len() {
                        cond_model(v@[i])
                    } else {
                        CondModel::Or(Seq::empty())
                    },
            ),
        ),
        Cond::Flagged(fl) => CondModel::Flagged(fl.0@),
        Cond::ReceivedBy(p) => CondModel::ReceivedBy(p@),
    }
}

pub open spec fn cond_models(v: Seq<Cond>) -> Seq<CondModel> {
    Seq::new(v.len(), |i: int| cond_model(v[i]))
}

pub proof fn lemma_or_model(v: Vec<Cond>)
    ensures
        Cond::Or(v)@ == CondModel::Or(cond_models(v@)),
{
    assert(cond_models(v@) =~= match Cond::Or(v)@ {
        CondModel::Or(x) => x,
        _ => Seq::empty(),
    });
}

impl View for Cond {
    type V = CondModel;

    open spec fn view(&self) -> CondModel {
        cond_model(*self)
    }
}

impl Cond {
    /// The condition as text.
    pub fn to_text(&self) -> (r: String)
        ensures
            r@ == cond_text(self@),
    {
        let mut out = String::new();
        self.push_text(&mut out);
        assert(out@ =~= cond_text(self@));
        out
    }

    /// Appends the condition as text to `out`.
    pub fn push_text(&self, out: &mut String)
        ensures
            final(out)@ == old(out)@ + cond_text(self@),
        decreases self,
    {
        let ghost start = out@;
        match self {
            Cond::Or(cx) => {
                proof {
                    lemma_or_model(*cx);
                }
                let ghost cs = cond_models(cx@);
                let ghost fs = cond_forms(cs);
                let ghost items = cond_form(self@)->List_0;
                assert(items.drop_first() =~= fs);
                push_char(out, '(');
                push_str(out, "or");
                let mut i: usize = 0;
                assert(fs.take(0) =~= Seq::<Form>::empty());
                while i < cx.len()
                    invariant
                        i <= cx@.len() == cs.len() == fs.len(),
                        cs == cond_models(cx@),
                        fs == cond_forms(cs),
                        out@ == start + seq!['('] + "or"@ + spaced(fs.take(i as int)),
                        forall|k: int| 0 <= k < cx@.len() ==> decreases_to!(*self => #[trigger] cx@[k]),
                    decreases cx@.len() - i,
                {
                    push_char(out, ' ');
                    cx[i].push_text(out);
                    proof {
                        let t = fs.take(i + 1);
                        assert(t.drop_last() =~= fs.take(i as int));
                        assert(t.last() == cond_form(cx@[i as int]@));
                    }
                    i += 1;
                }
                push_char(out, ')');
                assert(fs.take(i as int) =~= fs);
                assert(items[0] == Form::Symbol("or"@));
                assert(cond_text(self@) == seq!['('] + (form_text(items[0]) + spaced(items.drop_first()))
                    + seq![')']);
                assert(out@ =~= start + cond_text(self@));
            },
            Cond::Flagged(fl) => {
                push_char(out, '(');
                push_str(out, "flagged");
                push_char(out, ' ');
                push_quoted(out, fl.0.as_str());
                push_char(out, ')');
                let ghost items = cond_form(self@)->List_0;
                assert(items.drop_first() =~= seq![Form::Str(fl.0@)]);
                assert(seq![Form::Str(fl.0@)].drop_last() =~= Seq::<Form>::empty());
                assert(spaced(seq![Form::Str(fl.0@)]) =~= spaced(Seq::<Form>::empty()) + seq![' '] + form_text(Form::Str(fl.0@)));
                assert(items[0] == Form::Symbol("flagged"@));
                assert(cond_text(self@) == seq!['('] + (form_text(items[0]) + spaced(items.drop_first()))
                    + seq![')']);
                assert(out@ =~= start + cond_text(self@));
            },
            Cond::ReceivedBy(p) => {
                let mut src = String::new();
                p.push_source(&mut src);
                push_char(out, '(');
                push_str(out, "received-by");
                push_char(out, ' ');
                push_quoted(out, src.as_str());
                push_char(out, ')');
                let ghost items = cond_form(self@)->List_0;
                assert(items.drop_first() =~= seq![Form::Str(pattern_text(p@))]);
                assert(seq![Form::Str(pattern_text(p@))].drop_last() =~= Seq::<Form>::empty());
                assert(spaced(seq![Form::Str(pattern_text(p@))]) =~= spaced(Seq::<Form>::empty()) + seq![' '] + form_text(Form::Str(pattern_text(p@))));
                assert(items[0] == Form::Symbol("received-by"@));
                assert(cond_text(self@) == seq!['('] + (form_text(items[0]) + spaced(items.drop_first()))
                    + seq![')']);
                assert(src@ =~= pattern_text(p@));
                assert(out@ =~= start + cond_text(self@));
            },
        }
    }

    /// Whether the condition holds of `mail`; the questions put to the
    /// message are appended to `probes`, in order. An `or` asks its
    /// operands from the left and stops at the first that holds.
    pub fn eval(&self, mail: &Message, probes: &mut Vec<Probe>) -> (r: bool)
        ensures
            r == cond_holds(self@, mail@),
            probes_model(final(probes)@) == probes_model(old(probes)@) + cond_probes(self@, mail@),
        decreases self,
    {
        let ghost start = probes_model(probes@);
        match self {
            Cond::Or(cx) => {
                proof {
                    lemma_or_model(*cx);
                }
                let ghost cs = cond_models(cx@);
                let ghost m = mail@;
                let mut i: usize = 0;
                assert(cs.subrange(0, cs.len() as int) == cs);
                assert(start + Seq::<ProbeModel>::empty() =~= start);
                while i < cx.len()
                    invariant
                        i <= cx@.len() == cs.len(),
                        cs == cond_models(cx@),
                        self@ == CondModel::Or(cs),
                        m == mail@,
                        start == probes_model(old(probes)@),
                        or_holds(cs, m) == or_holds(cs.subrange(i as int, cs.len() as int), m),
                        start + or_probes(cs, m) == probes_model(probes@) + or_probes(
                            cs.subrange(i as int, cs.len() as int),
                            m,
                        ),
                        forall|k: int| 0 <= k < cx@.len() ==> decreases_to!(*self => #[trigger] cx@[k]),
                    decreases cx@.len() - i,
                {
                    let ghost rest = cs.subrange(i as int, cs.len() as int);
                    let ghost before = probes_model(probes@);
                    assert(rest[0] == cs[i as int]);
                    assert(rest.drop_first() == cs.subrange(i + 1, cs.len() as int));
                    let b = cx[i].eval(mail, probes);
                    if b {
                        assert(cond_probes(cs[i as int], m) + Seq::<ProbeModel>::empty() =~= cond_probes(
                            cs[i as int],
                            m,
                        ));
                        assert(start + or_probes(cs, m) =~= probes_model(probes@));
                        return true;
                    }
                    assert(before + (cond_probes(cs[i as int], m) + or_probes(rest.drop_first(), m))
                        =~= probes_model(probes@) + or_probes(rest.drop_first(), m));
                    i += 1;
                }
                assert(cs.subrange(i as int, cs.len() as int) =~= Seq::<CondModel>::empty());
                assert(probes_model(probes@) + Seq::<ProbeModel>::empty() =~= probes_model(probes@));
                false
            },
            Cond::Flagged(fl) => {
                let r = mail.flagged(fl.0.as_str());
                probes.push(Probe::Flagged(fl.0.clone()));
                assert(probes_model(probes@) =~= start + cond_probes(self@, mail@));
                r
            },
            Cond::ReceivedBy(p) => {
                let r = mail.received_by(p);
                probes.push(
                    Probe::ReceivedBy(
                        RecipientPattern {
                            mailbox: p.mailbox.clone(),
                            plus: p.plus.clone(),
                            host: p.host.clone(),
                        },
                    ),
                );
                assert(probes_model(probes@) =~= start + cond_probes(self@, mail@));
                r
            },
        }
    }
}

/// The string argument at position `i` of a list's items.
pub fn string_arg(items: &Vec<SExp>, i: usize) -> (r: Result<String, ParseError>)
    ensures
        match r {
            Ok(s) => str_arg(forms_of(items@), i as int) == Ok::<
                Seq<char>,
                ParseErrorModel,
            >(s@),
            Err(e) => str_arg(forms_of(items@), i as int) == Err::<
                Seq<char>,
                ParseErrorModel,
            >(e@),
        },
{
    if i < items.len() {
        match &items[i] {
            SExp::Str(s) => Ok(s.clone()),
            _ => Err(ParseError::BadArgument),
        }
    } else {
        Err(ParseError::BadArgument)
    }
}

impl Cond {
    pub fn from_sexp(sexp: &SExp) -> (r: Result<Cond, ParseError>)
        ensures
            match r {
                Ok(c) => cond_of(sexp@) == Ok::<CondModel, ParseErrorModel>(c@),
                Err(e) => cond_of(sexp@) == Err::<CondModel, ParseErrorModel>(e@),
            },
        decreases sexp,
    {
        let items = match sexp {
            SExp::List(items) => items,
            _ => return Err(ParseError::NotAList),
        };
        let ghost fs: Seq<Form> = forms_of(items@);
        proof {
            lemma_list_form(*items);
        }
        if items.len() == 0 {
            return Err(ParseError::EmptyList);
        }
        let head = match &items[0] {
            SExp::Symbol(h) => h,
            _ => return Err(ParseError::HeadNotSymbol),
        };
        if word_eq(head, "or") {
            let mut cs: Vec<Cond> = Vec::new();
            let mut i: usize = 1;
            assert(fs.drop_first() == fs.subrange(1, fs.len() as int));
            while i < items.len()
                invariant
                    1 <= i <= items@.len(),
                    fs == forms_of(items@),
                    cond_of(sexp@) == match conds_of(fs.drop_first()) {
                        Ok(cs) => Ok(CondModel::Or(cs)),
                        Err(e) => Err(e),
                    },
                    conds_of(fs.drop_first()) == match conds_of(fs.subrange(i as int, fs.len() as int)) {
                        Ok(rest) => Ok(cond_models(cs@) + rest),
                        Err(e) => Err(e),
                    },
                    forall|k: int| 0 <= k < items@.len() ==> decreases_to!(*sexp => #[trigger] items@[k]),
                decreases items@.len() - i,
            {
                let ghost sub = fs.subrange(i as int, fs.len() as int);
                assert(sub[0] == items@[i as int]@);
                assert(sub.drop_first() == fs.subrange(i + 1, fs.len() as int));
                match Cond::from_sexp(&items[i]) {
                    Ok(c) => {
                        let ghost before = cs@;
                        cs.push(c);
                        assert(cond_models(cs@) == cond_models(before) + seq![c@]);
                        proof {
                            match conds_of(sub.drop_first()) {
                                Ok(rest) => {
                                    assert(cond_models(before) + (seq![c@] + rest) == cond_models(
                                        cs@,
                                    ) + rest);
                                },
                                Err(_) => {},
                            }
                        }
                    },
                    Err(e) => {
                        return Err(e);
                    },
                }
                i += 1;
            }
            assert(fs.subrange(i as int, fs.len() as int) == Seq::<Form>::empty());
            assert(cond_models(cs@) + Seq::<CondModel>::empty() == cond_models(cs@));
            let r = Cond::Or(cs);
            proof {
                lemma_or_model(cs);
            }
            Ok(r)
        } else if word_eq(head, "flagged") {
            let s = string_arg(items, 1)?;
            Ok(Cond::Flagged(Flag(s)))
        } else if word_eq(head, "received-by") {
            let s = string_arg(items, 1)?;
            match RecipientPattern::parse(s.as_str()) {
                Ok(p) => Ok(Cond::ReceivedBy(p)),
                Err(e) => Err(ParseError::Pattern(e)),
            }
        } else {
            Err(ParseError::UnknownCond(head.clone()))
        }
    }
}

} // verus!
