//! S-expressions as the reader hands them over: symbols, strings, proper
//! lists, and everything else lumped together.

use vstd::prelude::*;

verus! {

pub enum SExp {
    Symbol(String),
    Str(String),
    List(Vec<SExp>),
    Other,
}

pub enum Form {
    Symbol(Seq<char>),
    Str(Seq<char>),
    List(Seq<Form>),
    Other,
}

pub open spec fn form_of(e: SExp) -> Form
    decreases e,
{
    match e {
        SExp::Symbol(s) => Form::Symbol(s@),
        SExp::Str(s) => Form::Str(s@),
        SExp::List(v) => Form::List(
            Seq::new(
                v@.len(),
                |i: int|
                    if 0 <= i < v@.len() {
                        form_of(v@[i])
                    } else {
                        Form::Other
                    },
            ),
        ),
        SExp::Other => Form::Other,
    }
}

pub open spec fn forms_of(v: Seq<SExp>) -> Seq<Form> {
    Seq::new(v.len(), |i: int| v[i]@)
}

pub proof fn lemma_list_form(v: Vec<SExp>)
    ensures
        SExp::List(v)@ == Form::List(forms_of(v@)),
{
    assert(forms_of(v@) =~= match SExp::List(v)@ {
        Form::List(x) => x,
        _ => Seq::empty(),
    });
}

impl View for SExp {
    type V = Form;

    open spec fn view(&self) -> Form {
        form_of(*self)
    }
}

/// Whether `s` is the word `w`.
pub fn word_eq(s: &String, w: &str) -> (r: bool)
    ensures
        r == (s@ == w@),
{
    *s == w.to_owned()
}

#[verifier::external_type_specification]
#[verifier::external_body]
pub struct ExLexprValue(lexpr::Value);

/// The S-expressions that lexpr's default reader finds in `text`, in order,
/// or `None` where one of them does not read.
pub uninterp spec fn read_forms(text: Seq<char>) -> Option<Seq<Form>>;

/// Relies on lexpr::Value::as_symbol, as_str and to_ref_vec: tells symbols,
/// strings and proper lists apart, recursively.
#[verifier::external_body]
fn sexp_of_value(v: &lexpr::Value) -> SExp {
    if let Some(s) = v.as_symbol() {
        SExp::Symbol(s.to_string())
    } else if let Some(s) = v.as_str() {
        SExp::Str(s.to_string())
    } else {
        match v.to_ref_vec() {
            Some(items) => SExp::List(items.into_iter().map(sexp_of_value).collect()),
            None => SExp::Other,
        }
    }
}

/// Relies on lexpr::Parser::from_str and value_iter: reads the top-level
/// S-expressions of `text` with lexpr's default options; the error is
/// lexpr's message for the first one that does not read.
#[verifier::external_body]
pub(crate) fn read_sexps(text: &str) -> (r: Result<Vec<SExp>, String>)
    ensures
        match r {
            Ok(v) => read_forms(text@) == Some(v@.map_values(|e: SExp| e@)),
            Err(_) => read_forms(text@) is None,
        },
{
    let mut parser = lexpr::Parser::from_str(text);
    let mut out = Vec::new();
    for v in parser.value_iter() {
        out.push(sexp_of_value(&v.map_err(|e| e.to_string())?));
    }
    Ok(out)
}

} // verus!
