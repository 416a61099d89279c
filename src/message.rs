//! The message a script is run against: its identifier, its body, the
//! labels it carries and the addresses it was sent to.

use vstd::prelude::*;

use crate::value::{pattern_matches, PatternView, Recipient, RecipientPattern, RecipientView};

verus! {

#[derive(Debug, Clone)]
pub struct Message {
    pub uid: u32,
    pub body: Vec<u8>,
    pub flags: Vec<String>,
    pub recipients: Vec<Recipient>,
}

/// A question put to the message, in the order it was put.
#[derive(Debug, Clone, PartialEq, Eq)]
pub enum Probe {
    Flagged(String),
    ReceivedBy(RecipientPattern),
}

pub enum ProbeModel {
    Flagged(Seq<char>),
    ReceivedBy(PatternView),
}

impl View for Probe {
    type V = ProbeModel;

    open spec fn view(&self) -> ProbeModel {
        match self {
            Probe::Flagged(s) => ProbeModel::Flagged(s@),
            Probe::ReceivedBy(p) => ProbeModel::ReceivedBy(p@),
        }
    }
}

pub open spec fn probes_model(v: Seq<Probe>) -> Seq<ProbeModel> {
    Seq::new(v.len(), |i: int| v[i]@)
}

pub struct MessageView {
    pub uid: u32,
    pub flags: Seq<Seq<char>>,
    pub recipients: Seq<RecipientView>,
}

pub open spec fn flag_views(v: Seq<String>) -> Seq<Seq<char>> {
    v.map_values(|s: String| s@)
}

pub open spec fn recipient_views(v: Seq<Recipient>) -> Seq<RecipientView> {
    v.map_values(|r: Recipient| r@)
}

impl View for Message {
    type V = MessageView;

    open spec fn view(&self) -> MessageView {
        MessageView {
            uid: self.uid,
            flags: flag_views(self.flags@),
            recipients: recipient_views(self.recipients@),
        }
    }
}

pub open spec fn has_flag(m: MessageView, flag: Seq<char>) -> bool {
    m.flags.contains(flag)
}

/// Whether any addressee of the message matches the pattern.
pub open spec fn received_by_spec(m: MessageView, p: PatternView) -> bool {
    exists|i: int| 0 <= i < m.recipients.len() && pattern_matches(p, #[trigger] m.recipients[i])
}

/// A message as the store gives it: no label and no addressee twice.
pub open spec fn message_wf(m: MessageView) -> bool {
    m.flags.no_duplicates() && m.recipients.no_duplicates()
}

proof fn lemma_push_contains<A>(s: Seq<A>, x: A, y: A)
    ensures
        s.push(x).contains(y) <==> (s.contains(y) || y == x),
{
    if s.push(x).contains(y) {
        let i = choose|i: int| 0 <= i < s.push(x).len() && s.push(x)[i] == y;
        if i < s.len() {
            assert(s[i] == y);
        }
    }
    if s.contains(y) {
        let i = choose|i: int| 0 <= i < s.len() && s[i] == y;
        assert(s.push(x)[i] == y);
    }
    if y == x {
        assert(s.push(x)[s.len() as int] == y);
    }
}

fn bytes_equal(a: &Vec<u8>, b: &Vec<u8>) -> (r: bool)
    ensures
        r == (a@ == b@),
{
    if a.len() != b.len() {
        return false;
    }
    let mut i: usize = 0;
    while i < a.len()
        invariant
            i <= a@.len() == b@.len(),
            forall|j: int| 0 <= j < i ==> a@[j] == b@[j],
        decreases a@.len() - i,
    {
        if a[i] != b[i] {
            return false;
        }
        i += 1;
    }
    assert(a@ =~= b@);
    true
}

fn holds_flag(v: &Vec<String>, f: &String) -> (r: bool)
    ensures
        r == flag_views(v@).contains(f@),
{
    let ghost vs = flag_views(v@);
    let mut i: usize = 0;
    while i < v.len()
        invariant
            i <= v@.len(),
            vs == flag_views(v@),
            forall|j: int| 0 <= j < i ==> vs[j] != f@,
        decreases v@.len() - i,
    {
        if v[i] == *f {
            assert(vs[i as int] == f@);
            return true;
        }
        i += 1;
    }
    false
}

fn holds_recipient(v: &Vec<Recipient>, r: &Recipient) -> (b: bool)
    ensures
        b == recipient_views(v@).contains(r@),
{
    let ghost vs = recipient_views(v@);
    let mut i: usize = 0;
    while i < v.len()
        invariant
            i <= v@.len(),
            vs == recipient_views(v@),
            forall|j: int| 0 <= j < i ==> vs[j] != r@,
        decreases v@.len() - i,
    {
        if bytes_equal(&v[i].mailbox, &r.mailbox) && bytes_equal(&v[i].host, &r.host) {
            assert(vs[i as int] == r@);
            return true;
        }
        i += 1;
    }
    false
}

impl Message {
    /// A message with the given labels and addressees, each kept once.
    pub fn new(uid: u32, body: Vec<u8>, flags: Vec<String>, recipients: Vec<Recipient>) -> (r:
        Message)
        ensures
            r.uid == uid,
            r.body@ == body@,
            message_wf(r@),
            forall|f: Seq<char>| #[trigger] r@.flags.contains(f) <==> flag_views(flags@).contains(f),
            forall|x: RecipientView| #[trigger] r@.recipients.contains(x) <==> recipient_views(recipients@).contains(x),
    {
        let ghost fv = flag_views(flags@);
        let mut kept: Vec<String> = Vec::new();
        let mut rest = flags;
        while rest.len() > 0
            invariant
                flag_views(kept@).no_duplicates(),
                forall|f: Seq<char>|
                    fv.contains(f) <==> (#[trigger] flag_views(kept@).contains(f)
                        || flag_views(rest@).contains(f)),
            decreases rest@.len(),
        {
            let ghost before = rest@;
            let ghost kv = flag_views(kept@);
            let f = rest.pop().unwrap();
            proof {
                assert(before =~= rest@.push(f));
                assert(flag_views(before) =~= flag_views(rest@).push(f@));
            }
            let ghost fw = f@;
            if !holds_flag(&kept, &f) {
                kept.push(f);
                assert(flag_views(kept@) =~= kv.push(fw));
            }
            proof {
                assert forall|g: Seq<char>|
                    fv.contains(g) <==> (#[trigger] flag_views(kept@).contains(g) || flag_views(
                        rest@,
                    ).contains(g)) by {
                    lemma_push_contains(flag_views(rest@), fw, g);
                    lemma_push_contains(kv, fw, g);
                }
            }
        }
        let ghost rv = recipient_views(recipients@);
        let mut kept_r: Vec<Recipient> = Vec::new();
        let mut rest_r = recipients;
        while rest_r.len() > 0
            invariant
                recipient_views(kept_r@).no_duplicates(),
                forall|x: RecipientView|
                    rv.contains(x) <==> (#[trigger] recipient_views(kept_r@).contains(x)
                        || recipient_views(rest_r@).contains(x)),
            decreases rest_r@.len(),
        {
            let ghost before = rest_r@;
            let ghost kv = recipient_views(kept_r@);
            let x = rest_r.pop().unwrap();
            proof {
                assert(before =~= rest_r@.push(x));
                assert(recipient_views(before) =~= recipient_views(rest_r@).push(
                    x@,
                ));
            }
            let ghost xw = x@;
            if !holds_recipient(&kept_r, &x) {
                kept_r.push(x);
                assert(recipient_views(kept_r@) =~= kv.push(xw));
            }
            proof {
                assert forall|g: RecipientView|
                    rv.contains(g) <==> (#[trigger] recipient_views(kept_r@).contains(g)
                        || recipient_views(rest_r@).contains(g)) by {
                    lemma_push_contains(recipient_views(rest_r@), xw, g);
                    lemma_push_contains(kv, xw, g);
                }
            }
        }
        Message { uid, body, flags: kept, recipients: kept_r }
    }

    pub fn flagged(&self, flag: &str) -> (r: bool)
        ensures
            r == has_flag(self@, flag@),
    {
        let f = flag.to_owned();
        let mut i: usize = 0;
        while i < self.flags.len()
            invariant
                i <= self.flags@.len(),
                f@ == flag@,
                forall|j: int| 0 <= j < i ==> self.flags@[j]@ != flag@,
            decreases self.flags@.len() - i,
        {
            if self.flags[i] == f {
                assert(self@.flags[i as int] == flag@);
                return true;
            }
            i += 1;
        }
        assert forall|j: int| 0 <= j < self@.flags.len() implies self@.flags[j] != flag@ by {
            assert(self.flags@[j]@ != flag@);
        }
        false
    }

    pub fn received_by(&self, pattern: &RecipientPattern) -> (r: bool)
        ensures
            r == received_by_spec(self@, pattern@),
    {
        let mut i: usize = 0;
        while i < self.recipients.len()
            invariant
                i <= self.recipients@.len(),
                forall|j: int|
                    0 <= j < i ==> !pattern_matches(pattern@, #[trigger] self.recipients@[j]@),
            decreases self.recipients@.len() - i,
        {
            if pattern.matches(&self.recipients[i]) {
                assert(pattern_matches(pattern@, self@.recipients[i as int]));
                return true;
            }
            i += 1;
        }
        assert forall|j: int| 0 <= j < self@.recipients.len() implies !pattern_matches(
            pattern@,
            #[trigger] self@.recipients[j],
        ) by {
            assert(!pattern_matches(pattern@, self.recipients@[j]@));
        }
        false
    }
}

} // verus!
