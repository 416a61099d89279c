//! The values the filtering language talks about: labels, destination
//! names, recipients and recipient patterns.

use vstd::prelude::*;

use crate::text::{push_char, push_quoted, push_str, quoted};

verus! {

/// A label on a message (a flag of the mail store), compared exactly.
#[derive(Debug, Clone, PartialEq, Eq)]
pub struct Flag(pub String);

impl Flag {
    pub fn new(s: &str) -> (r: Flag)
        ensures
            r.0@ == s@,
    {
        Flag(s.to_owned())
    }
}

/// The name of a destination store.
#[derive(Debug, Clone, PartialEq, Eq)]
pub struct Destination(pub String);

impl Destination {
    pub fn new(s: &str) -> (r: Destination)
        ensures
            r.0@ == s@,
    {
        Destination(s.to_owned())
    }
}

/// One addressee of a message, split at the `@`.
#[derive(Debug, Clone, PartialEq, Eq)]
pub struct Recipient {
    pub mailbox: Vec<u8>,
    pub host: Vec<u8>,
}

pub struct RecipientView {
    pub mailbox: Seq<u8>,
    pub host: Seq<u8>,
}

impl View for Recipient {
    type V = RecipientView;

    open spec fn view(&self) -> RecipientView {
        RecipientView { mailbox: self.mailbox@, host: self.host@ }
    }
}

/// A filter on recipients: `mailbox+plus@host`, each part optional.
#[derive(Debug, Clone, PartialEq, Eq)]
pub struct RecipientPattern {
    pub mailbox: Option<String>,
    pub plus: Option<String>,
    pub host: Option<String>,
}

pub struct PatternView {
    pub mailbox: Option<Seq<char>>,
    pub plus: Option<Seq<char>>,
    pub host: Option<Seq<char>>,
}

pub open spec fn opt_view(o: Option<String>) -> Option<Seq<char>> {
    match o {
        Some(s) => Some(s@),
        None => None,
    }
}

impl View for RecipientPattern {
    type V = PatternView;

    open spec fn view(&self) -> PatternView {
        PatternView {
            mailbox: opt_view(self.mailbox),
            plus: opt_view(self.plus),
            host: opt_view(self.host),
        }
    }
}

pub open spec fn pattern_wf(p: PatternView) -> bool {
    p.mailbox is Some || p.plus is Some || p.host is Some
}

/// The three groups of `\A([^+@]+)?(?:\+([^@]+))?@(.+)?\z` on `s`, or `None`
/// where the expression does not match. The `@` that the expression meets
/// is the first one; a `+` before it opens the plus part, which must not be
/// empty; the host is all that follows the `@` and holds no newline.
pub open spec fn pattern_groups(s: Seq<char>) -> Option<PatternView> {
    match s.index_of_first('@') {
        None => None,
        Some(a) => {
            let pre = s.subrange(0, a);
            let rest = s.subrange(a + 1, s.len() as int);
            let host = if rest.len() == 0 { None } else { Some(rest) };
            if rest.contains('\n') {
                None
            } else {
                match pre.index_of_first('+') {
                    None => Some(
                        PatternView {
                            mailbox: if pre.len() == 0 { None } else { Some(pre) },
                            plus: None,
                            host,
                        },
                    ),
                    Some(k) => {
                        let mb = pre.subrange(0, k);
                        let plus = pre.subrange(k + 1, pre.len() as int);
                        if plus.len() == 0 {
                            None
                        } else {
                            Some(
                                PatternView {
                                    mailbox: if mb.len() == 0 { None } else { Some(mb) },
                                    plus: Some(plus),
                                    host,
                                },
                            )
                        }
                    }
                }
            }
        }
    }
}

/// The syntax of a recipient pattern: optional mailbox, optional `+plus`,
/// a literal `@`, optional host.
pub const PATTERN_SYNTAX: &'static str = r"\A(?<mailbox>[^+@]+)?(?:\+(?<plus>[^@]+))?@(?<host>.+)?\z";

/// Relies on regex::Regex::new and Regex::captures: the named groups of
/// `re` (which compiles) matched against the whole of `s`.
#[verifier::external_body]
fn pattern_captures(re: &str, s: &str) -> (r: Option<(Option<String>, Option<String>, Option<String>)>)
    requires
        re@ == PATTERN_SYNTAX@,
    ensures
        match r {
            Some((m, p, h)) => pattern_groups(s@) == Some(
                PatternView { mailbox: opt_view(m), plus: opt_view(p), host: opt_view(h) },
            ),
            None => pattern_groups(s@) is None,
        },
{
    let re = regex::Regex::new(re).unwrap();
    re.captures(s).map(
        |c|
            (
                c.name("mailbox").map(|m| m.as_str().to_string()),
                c.name("plus").map(|m| m.as_str().to_string()),
                c.name("host").map(|m| m.as_str().to_string()),
            ),
    )
}

pub open spec fn part_or_empty(o: Option<Seq<char>>) -> Seq<char> {
    match o {
        Some(s) => s,
        None => Seq::empty(),
    }
}

/// The source form of a pattern: `mailbox+plus@host`, each part as present.
pub open spec fn pattern_text(p: PatternView) -> Seq<char> {
    part_or_empty(p.mailbox) + match p.plus {
        Some(ps) => seq!['+'] + ps,
        None => Seq::empty(),
    } + seq!['@'] + part_or_empty(p.host)
}

/// A pattern that parses is written back as the text it came from.
pub proof fn lemma_pattern_text(s: Seq<char>)
    requires
        parse_pattern(s) is Ok,
    ensures
        pattern_text(parse_pattern(s)->Ok_0) == s,
{
    let p = parse_pattern(s)->Ok_0;
    s.index_of_first_ensures('@');
    let a = s.index_of_first('@')->Some_0;
    let pre = s.subrange(0, a);
    let rest = s.subrange(a + 1, s.len() as int);
    assert(part_or_empty(p.host) == rest);
    pre.index_of_first_ensures('+');
    match pre.index_of_first('+') {
        None => {
            assert(part_or_empty(p.mailbox) == pre);
            assert(pattern_text(p) =~= s);
        },
        Some(k) => {
            assert(part_or_empty(p.mailbox) == pre.subrange(0, k));
            assert(pattern_text(p) =~= s);
        },
    }
}

#[derive(Clone, Copy, PartialEq, Eq, Debug, Structural)]
pub enum PatternError {
    /// The text is not of the form `mailbox+plus@host`.
    Syntax,
    /// Only the `@` is there: the pattern would restrict nothing.
    Empty,
}

pub open spec fn parse_pattern(s: Seq<char>) -> Result<PatternView, PatternError> {
    match pattern_groups(s) {
        None => Err(PatternError::Syntax),
        Some(p) => if pattern_wf(p) {
            Ok(p)
        } else {
            Err(PatternError::Empty)
        },
    }
}

/// ASCII upper case folded to lower case; every other byte kept.
pub open spec fn fold(c: u8) -> u8 {
    if 65 <= c && c <= 90 {
        (c + 32) as u8
    } else {
        c
    }
}

pub open spec fn equal_folded(a: Seq<u8>, b: Seq<u8>) -> bool {
    &&& a.len() == b.len()
    &&& forall|i: int| 0 <= i < a.len() ==> fold(#[trigger] a[i]) == fold(b[i])
}

pub open spec fn bytes_of(s: Seq<char>) -> Seq<u8> {
    vstd::utf8::encode_utf8(s)
}

/// Whether recipient `r` matches pattern `p`: each part the pattern gives
/// equals, up to ASCII case, the recipient's part before the first `+` of
/// its mailbox, the part after that `+`, and its host.
pub open spec fn pattern_matches(p: PatternView, r: RecipientView) -> bool {
    let pos = r.mailbox.index_of_first(43u8);
    let local = match pos {
        Some(k) => r.mailbox.subrange(0, k),
        None => r.mailbox,
    };
    &&& (p.mailbox matches Some(mb) ==> equal_folded(bytes_of(mb), local))
    &&& (p.plus matches Some(ps) ==> match pos {
        Some(k) => equal_folded(bytes_of(ps), r.mailbox.subrange(k + 1, r.mailbox.len() as int)),
        None => bytes_of(ps).len() == 0,
    })
    &&& (p.host matches Some(h) ==> equal_folded(bytes_of(h), r.host))
}

fn first_plus(b: &[u8]) -> (r: Option<usize>)
    ensures
        match r {
            Some(k) => k < b@.len() && b@[k as int] == 43u8 && b@.index_of_first(43u8) == Some(
                k as int,
            ),
            None => b@.index_of_first(43u8) is None,
        },
{
    proof {
        b@.index_of_first_ensures(43u8);
    }
    let mut i: usize = 0;
    while i < b.len()
        invariant
            i <= b@.len(),
            forall|j: int| 0 <= j < i ==> b@[j] != 43u8,
        decreases b@.len() - i,
    {
        if b[i] == 43u8 {
            assert(b@.contains(43u8));
            proof {
                b@.index_of_first_ensures(43u8);
            }
            let ghost idx = b@.index_of_first(43u8)->Some_0;
            assert(idx == i) by {
                if idx < i {
                    assert(b@[idx] != 43u8);
                } else if i < idx {
                    assert(b@[i as int] != 43u8);
                }
            }
            return Some(i);
        }
        i += 1;
    }
    None
}

impl RecipientPattern {
    /// Reads a pattern from its source form `mailbox+plus@host`.
    pub fn parse(s: &str) -> (r: Result<RecipientPattern, PatternError>)
        ensures
            match r {
                Ok(p) => parse_pattern(s@) == Ok::<PatternView, PatternError>(p@),
                Err(e) => parse_pattern(s@) == Err::<PatternView, PatternError>(e),
            },
    {
        match pattern_captures(PATTERN_SYNTAX, s) {
            None => Err(PatternError::Syntax),
            Some((mailbox, plus, host)) => {
                if mailbox.is_none() && plus.is_none() && host.is_none() {
                    Err(PatternError::Empty)
                } else {
                    Ok(RecipientPattern { mailbox, plus, host })
                }
            },
        }
    }

    /// The pattern in its source form, between double quotes.
    pub fn to_text(&self) -> (r: String)
        ensures
            r@ == quoted(pattern_text(self@)),
    {
        let mut out = String::new();
        self.push_source(&mut out);
        let mut q = String::new();
        push_quoted(&mut q, out.as_str());
        q
    }

    /// Appends the pattern's source form to `out`.
    pub fn push_source(&self, out: &mut String)
        ensures
            final(out)@ == old(out)@ + pattern_text(self@),
    {
        if let Some(mailbox) = &self.mailbox {
            push_str(out, mailbox.as_str());
        }
        if let Some(plus) = &self.plus {
            push_char(out, '+');
            push_str(out, plus.as_str());
        }
        push_char(out, '@');
        if let Some(host) = &self.host {
            push_str(out, host.as_str());
        }
        assert(out@ =~= old(out)@ + pattern_text(self@));
    }

    pub fn matches(&self, recipient: &Recipient) -> (r: bool)
        ensures
            r == pattern_matches(self@, recipient@),
    {
        let mb = recipient.mailbox.as_slice();
        let n = mb.len();
        let pos = first_plus(mb);
        if let Some(p_mailbox) = &self.mailbox {
            let local = match pos {
                Some(k) => &mb[0..k],
                None => mb,
            };
            if !Self::parts_equal(p_mailbox.as_str().as_bytes(), local) {
                return false;
            }
        }
        if let Some(p_plus) = &self.plus {
            match pos {
                Some(k) => {
                    if !Self::parts_equal(p_plus.as_str().as_bytes(), &mb[k + 1..n]) {
                        return false;
                    }
                },
                None => {
                    if p_plus.as_str().as_bytes().len() != 0 {
                        return false;
                    }
                },
            }
        }
        if let Some(p_host) = &self.host {
            if !Self::parts_equal(p_host.as_str().as_bytes(), recipient.host.as_slice()) {
                return false;
            }
        }
        true
    }

    pub fn parts_equal(a: &[u8], b: &[u8]) -> (r: bool)
        ensures
            r == equal_folded(a@, b@),
    {
        if a.len() != b.len() {
            return false;
        }
        let mut i: usize = 0;
        while i < a.len()
            invariant
                a@.len() == b@.len(),
                i <= a@.len(),
                forall|j: int| 0 <= j < i ==> fold(#[trigger] a@[j]) == fold(b@[j]),
            decreases a@.len() - i,
        {
            if Self::part_lower(a[i]) != Self::part_lower(b[i]) {
                return false;
            }
            i += 1;
        }
        true
    }

    pub fn part_lower(c: u8) -> (r: u8)
        ensures
            r == fold(c),
    {
        if 65 <= c && c <= 90 {
            c + 32
        } else {
            c
        }
    }
}

} // verus!
