use mailroute::ast::stmt::Stmt;
use mailroute::ast::ParseError;
use mailroute::ir::closure::{Action, Closure, Fault, Operand, Stack};
use mailroute::ir::compiler::IRCompiler;
use mailroute::value::Destination;
use mailroute::ir::{CompileError, Insn, IR};
use mailroute::message::{Message, Probe};
use mailroute::script::closure::Action as NamedAction;
use mailroute::script::{compile, Script, ScriptError};
use mailroute::sexp::SExp;
use mailroute::value::{PatternError, Recipient, RecipientPattern};

fn recipient(mailbox: &str, host: &str) -> Recipient {
    Recipient { mailbox: mailbox.as_bytes().to_vec(), host: host.as_bytes().to_vec() }
}

fn message(flags: &[&str], recipients: Vec<Recipient>) -> Message {
    Message {
        uid: 1,
        body: b"hello".to_vec(),
        flags: flags.iter().map(|s| s.to_string()).collect(),
        recipients,
    }
}

fn names(v: &[&str]) -> Vec<String> {
    v.iter().map(|s| s.to_string()).collect()
}

fn ir_of(text: &str, dests: &[&str]) -> IR {
    compile(text, names(dests)).unwrap()
}

fn dest_index(ir: &IR, name: &str) -> usize {
    ir.dests().iter().position(|d| d == name).unwrap()
}

#[test]
fn skip_already_seen() {
    let ir = ir_of(r#"(if (flagged "Seen") (halt!)) (append! "archive") (flag! "Seen")"#, &["archive"]);
    let closure = Closure::new(&ir);
    let run = closure.process(&message(&["Seen"], vec![]));
    assert_eq!(run.actions, vec![]);
    assert_eq!(run.probes, vec![Probe::Flagged("Seen".to_string())]);
    assert_eq!(run.fault, None);
    assert_eq!(ir.insns()[3], Insn::Halt);
}

#[test]
fn route_by_recipient() {
    let ir = ir_of(
        r#"(if (or (received-by "fox@den.com") (received-by "fx@")) (append! "foxes") (append! "others"))"#,
        &["others", "foxes"],
    );
    let closure = Closure::new(&ir);
    let m = message(&[], vec![recipient("bar", "den.com"), recipient("fx", "example.org")]);
    let run = closure.process(&m);
    assert_eq!(run.actions, vec![Action::Append(dest_index(&ir, "foxes"))]);
    assert_eq!(run.fault, None);
}

#[test]
fn empty_or_rejected() {
    assert_eq!(
        compile(r#"(if (or) (halt!))"#, vec![]).err(),
        Some(ScriptError::Compile(CompileError::EmptyOr))
    );
}

#[test]
fn unknown_destination_rejected() {
    assert_eq!(
        compile(r#"(append! "nowhere")"#, names(&["archive"])).err(),
        Some(ScriptError::Compile(CompileError::UnknownDestination("nowhere".to_string())))
    );
}

#[test]
fn or_stops_at_first_true() {
    let ir = ir_of(r#"(if (or (flagged "A") (flagged "B")) (flag! "hit"))"#, &[]);
    let closure = Closure::new(&ir);
    let run = closure.process(&message(&["A"], vec![]));
    assert_eq!(run.probes, vec![Probe::Flagged("A".to_string())]);
    assert_eq!(run.actions, vec![Action::Flag("hit".to_string())]);
}

#[test]
fn or_asks_every_operand_when_none_holds() {
    let ir = ir_of(r#"(if (or (flagged "A") (flagged "B") (flagged "C")) (flag! "hit") (flag! "miss"))"#, &[]);
    let closure = Closure::new(&ir);
    let run = closure.process(&message(&[], vec![]));
    assert_eq!(
        run.probes,
        vec![
            Probe::Flagged("A".to_string()),
            Probe::Flagged("B".to_string()),
            Probe::Flagged("C".to_string())
        ]
    );
    assert_eq!(run.actions, vec![Action::Flag("miss".to_string())]);
    let run = closure.process(&message(&["B"], vec![]));
    assert_eq!(run.probes.len(), 2);
    assert_eq!(run.actions, vec![Action::Flag("hit".to_string())]);
}

#[test]
fn nested_or_short_circuits_to_the_branch() {
    let ir = ir_of(
        r#"(if (or (or (flagged "A") (flagged "B")) (flagged "C")) (flag! "hit") (flag! "miss"))"#,
        &[],
    );
    let closure = Closure::new(&ir);
    let run = closure.process(&message(&["B"], vec![]));
    assert_eq!(run.probes, vec![Probe::Flagged("A".to_string()), Probe::Flagged("B".to_string())]);
    assert_eq!(run.actions, vec![Action::Flag("hit".to_string())]);
    let run = closure.process(&message(&["C"], vec![]));
    assert_eq!(run.probes.len(), 3);
    assert_eq!(run.actions, vec![Action::Flag("hit".to_string())]);
}

#[test]
fn halt_first_does_nothing() {
    let ir = ir_of(r#"(halt!) (append! "a") (flag! "x")"#, &["a"]);
    assert_eq!(ir.insns()[0], Insn::Halt);
    let run = Closure::new(&ir).process(&message(&[], vec![]));
    assert_eq!(run.actions, vec![]);
    assert_eq!(run.probes, vec![]);
    assert_eq!(run.fault, None);
}

#[test]
fn if_runs_exactly_one_branch() {
    let ir = ir_of(r#"(if (flagged "X") (append! "then") (append! "else"))"#, &["then", "else"]);
    let closure = Closure::new(&ir);
    let run = closure.process(&message(&["X"], vec![]));
    assert_eq!(run.actions, vec![Action::Append(dest_index(&ir, "then"))]);
    let run = closure.process(&message(&[], vec![]));
    assert_eq!(run.actions, vec![Action::Append(dest_index(&ir, "else"))]);
    let ir = ir_of(r#"(if (flagged "X") (append! "then"))"#, &["then"]);
    let run = Closure::new(&ir).process(&message(&[], vec![]));
    assert_eq!(run.actions, vec![]);
}

#[test]
fn label_gated_script_runs_once() {
    let ir = ir_of(r#"(if (flagged "Seen") (halt!)) (append! "archive") (flag! "Seen")"#, &["archive"]);
    let closure = Closure::new(&ir);
    let mut m = message(&[], vec![]);
    let first = closure.process(&m);
    assert_eq!(first.actions, vec![Action::Append(0), Action::Flag("Seen".to_string())]);
    for a in &first.actions {
        if let Action::Flag(l) = a {
            m.flags.push(l.clone());
        }
    }
    let second = closure.process(&m);
    assert_eq!(second.actions, vec![]);
}

#[test]
fn compiled_jumps_stay_in_range() {
    let ir = ir_of(
        r#"(if (flagged "Seen") (halt!))
           (if (or (received-by "fox@den.com") (or (flagged "a") (received-by "fx@")))
               (if (flagged "b") (append! "x") (append! "y"))
               (append! "x"))
           (flag! "Seen")"#,
        &["y", "x"],
    );
    let n = ir.insns().len();
    for (i, insn) in ir.insns().iter().enumerate() {
        match insn {
            Insn::Jump(t) | Insn::JumpFalse(t) => assert!(i < *t && *t <= n),
            Insn::LiteralDest(d) => assert!(*d < ir.dests().len()),
            _ => {}
        }
    }
    assert_eq!(ir.dests(), &names(&["x", "y"]));
}

#[test]
fn destinations_are_numbered_by_first_use() {
    let ir = ir_of(r#"(append! "b") (append! "a") (append! "b")"#, &["a", "b", "c"]);
    assert_eq!(ir.dests(), &names(&["b", "a"]));
    let run = Closure::new(&ir).process(&message(&[], vec![]));
    assert_eq!(run.actions, vec![Action::Append(0), Action::Append(1), Action::Append(0)]);
}

#[test]
fn compiled_code_of_if_else() {
    let ir = ir_of(r#"(if (flagged "X") (append! "t") (halt!))"#, &["t"]);
    assert_eq!(
        ir.insns(),
        &vec![
            Insn::LiteralFlag("X".to_string()),
            Insn::Flagged,
            Insn::JumpFalse(6),
            Insn::LiteralDest(0),
            Insn::Append,
            Insn::Jump(7),
            Insn::Halt,
        ]
    );
}

#[test]
fn compiled_code_of_or() {
    let ir = ir_of(r#"(if (or (flagged "A") (flagged "B")) (halt!))"#, &[]);
    assert_eq!(
        ir.insns(),
        &vec![
            Insn::LiteralFlag("A".to_string()),
            Insn::Flagged,
            Insn::JumpFalse(4),
            Insn::Jump(7),
            Insn::LiteralFlag("B".to_string()),
            Insn::Flagged,
            Insn::JumpFalse(8),
            Insn::Halt,
        ]
    );
}

#[test]
fn ir_text_lists_instructions() {
    let ir = ir_of(r#"(if (received-by "fx@") (append! "d")) (flag! "a\"b")"#, &["d"]);
    assert_eq!(
        ir.to_text(),
        "\n00 rp\"fx@\"\n01 received-by?\n02 jfalse 05\n03 d0\n04 append!\n05 f\"a\\\"b\"\n06 flag!\n"
    );
}

#[test]
fn insn_text_of_each_kind() {
    assert_eq!(Insn::Jump(0x12).to_text(), "j 12");
    assert_eq!(Insn::JumpFalse(0x1ab).to_text(), "jfalse 1ab");
    assert_eq!(Insn::LiteralDest(12).to_text(), "d12");
    assert_eq!(Insn::Or.to_text(), "or");
    assert_eq!(Insn::Halt.to_text(), "halt!");
    assert_eq!(Insn::Flagged.to_text(), "flagged?");
    assert_eq!(Insn::LiteralFlag("Seen".to_string()).to_text(), "f\"Seen\"");
}

#[test]
fn print_parse_round_trip() {
    let text = r#"(if (flagged "Seen") (halt!))
        (if (or (received-by "fox@den.com") (received-by "a+b@")) (append! "foxes") (append! "others"))
        (flag! "we\"ird\\label")"#;
    let s = Script::parse(text).unwrap();
    let printed = s.to_text();
    let again = Script::parse(&printed).unwrap();
    assert_eq!(again.to_text(), printed);
    assert_eq!(again.0.len(), 3);
}

#[test]
fn script_text_layout() {
    let s = Script::parse(r#"(if (flagged "Seen") (halt!) (if (or (flagged "a")) (append! "x")))"#).unwrap();
    assert_eq!(
        s.to_text(),
        "\n\n(if (flagged \"Seen\")\n    (halt!)\n    (if (or (flagged \"a\"))\n        (append! \"x\")))\n"
    );
    assert_eq!(s.0[0].pp("  "), "\n  (if (flagged \"Seen\")\n      (halt!)\n      (if (or (flagged \"a\"))\n          (append! \"x\")))");
}

#[test]
fn parse_errors() {
    assert_eq!(Script::parse("(bogus)").err(), Some(ParseError::UnknownStmt("bogus".to_string())));
    assert_eq!(Script::parse("(if)").err(), Some(ParseError::MissingCondition));
    assert_eq!(Script::parse(r#"(if (flagged "a"))"#).err(), Some(ParseError::MissingThen));
    assert_eq!(Script::parse("(append! 3)").err(), Some(ParseError::BadArgument));
    assert_eq!(Script::parse("(flag!)").err(), Some(ParseError::BadArgument));
    assert_eq!(Script::parse("(if (nope) (halt!))").err(), Some(ParseError::UnknownCond("nope".to_string())));
    assert_eq!(Script::parse("()").err(), Some(ParseError::EmptyList));
    assert_eq!(Script::parse("halt!").err(), Some(ParseError::NotAList));
    assert_eq!(Script::parse(r#"("x")"#).err(), Some(ParseError::HeadNotSymbol));
    assert_eq!(
        Script::parse(r#"(if (received-by "nobody") (halt!))"#).err(),
        Some(ParseError::Pattern(PatternError::Syntax))
    );
    assert_eq!(
        Script::parse(r#"(if (received-by "@") (halt!))"#).err(),
        Some(ParseError::Pattern(PatternError::Empty))
    );
    assert!(matches!(Script::parse("(halt!"), Err(ParseError::Read(_))));
    assert!(matches!(compile("(halt!", vec![]), Err(ScriptError::Parse(ParseError::Read(_)))));
}

#[test]
fn empty_script_does_nothing() {
    let s = Script::parse("  ").unwrap();
    assert_eq!(s.0.len(), 0);
    let ir = s.compile(vec![]).unwrap();
    assert_eq!(ir.insns().len(), 0);
    let run = Closure::new(&ir).process(&message(&[], vec![]));
    assert_eq!(run.actions, vec![]);
    assert_eq!(run.fault, None::<Fault>);
}

#[test]
fn statements_from_forms() {
    let forms = vec![SExp::List(vec![SExp::Symbol("flag!".to_string()), SExp::Str("x".to_string())])];
    let s = Script::from_sexps(&forms).unwrap();
    assert_eq!(s.0.len(), 1);
    assert!(matches!(&s.0[0], Stmt::Flag(f) if f.0 == "x"));
    let bad = SExp::List(vec![SExp::Symbol("flag!".to_string()), SExp::Other]);
    assert_eq!(Stmt::from_sexp(&bad).err(), Some(ParseError::BadArgument));
}

#[test]
fn slots_open_once_and_are_finished_in_order() {
    let ir = ir_of(r#"(append! "a") (append! "b")"#, &["a", "b"]);
    let mut closure = Closure::new(&ir);
    assert_eq!(closure.finish(), Vec::<usize>::new());
    assert!(closure.slot(1));
    assert!(closure.slot(1));
    closure.mark_opened(1);
    assert!(!closure.slot(1));
    assert!(closure.slot(0));
    closure.mark_opened(0);
    assert_eq!(closure.finish(), vec![0, 1]);
}

#[test]
fn direct_interpreter_agrees() {
    let s = Script::parse(r#"(if (flagged "Seen") (halt!)) (append! "archive") (flag! "Seen")"#).unwrap();
    let dests = names(&["archive"]);
    let c = s.closure(&dests);
    assert_eq!(
        c.process(&message(&[], vec![])).unwrap(),
        vec![NamedAction::Append("archive".to_string()), NamedAction::Flag("Seen".to_string())]
    );
    assert_eq!(c.process(&message(&["Seen"], vec![])).unwrap(), vec![]);
    let none = names(&[]);
    let c = s.closure(&none);
    assert_eq!(
        c.process(&message(&[], vec![])).err(),
        Some(CompileError::UnknownDestination("archive".to_string()))
    );
    assert_eq!(c.process(&message(&["Seen"], vec![])).unwrap(), vec![]);
}

#[test]
fn conditions_evaluate() {
    let s = Script::parse(r#"(if (or (flagged "A") (received-by "x@y")) (halt!))"#).unwrap();
    let c = match &s.0[0] {
        Stmt::If(c, _, _) => c,
        _ => panic!("not an if"),
    };
    let mut asked = vec![];
    assert!(c.eval(&message(&["A"], vec![]), &mut asked));
    assert_eq!(asked, vec![Probe::Flagged("A".to_string())]);
    let mut asked = vec![];
    assert!(c.eval(&message(&[], vec![recipient("X", "Y")]), &mut asked));
    assert_eq!(asked.len(), 2);
    let mut asked = vec![Probe::Flagged("earlier".to_string())];
    assert!(!c.eval(&message(&[], vec![recipient("x", "z")]), &mut asked));
    assert_eq!(asked.len(), 3);
    assert_eq!(c.to_text(), "(or (flagged \"A\") (received-by \"x@y\"))");
}

#[test]
fn patterns_in_scripts_match_recipients() {
    let p = RecipientPattern::parse("Foo@BAR.com").unwrap();
    let ir = ir_of(r#"(if (received-by "Foo@BAR.com") (flag! "hit"))"#, &[]);
    let run = Closure::new(&ir).process(&message(&[], vec![recipient("foo", "bar.com")]));
    assert_eq!(run.probes, vec![Probe::ReceivedBy(p)]);
    assert_eq!(run.actions, vec![Action::Flag("hit".to_string())]);
}

#[test]
fn ir_hands_out_a_fresh_closure() {
    let ir = ir_of(r#"(append! "a")"#, &["a"]);
    let mut closure = ir.closure();
    let run = closure.process(&message(&[], vec![]));
    assert_eq!(run.actions, vec![Action::Append(0)]);
    assert!(closure.slot(0));
    closure.mark_opened(0);
    assert_eq!(closure.finish(), vec![0]);
    let fresh = ir.closure();
    assert_eq!(fresh.finish(), Vec::<usize>::new());
}

#[test]
fn unknown_destination_leaves_actions_alone() {
    let s = Script::parse(r#"(flag! "x") (if (flagged "a") (append! "nowhere"))"#).unwrap();
    let dests = names(&["archive"]);
    let c = s.closure(&dests);
    let m = message(&["a"], vec![]);
    let mut actions = vec![NamedAction::Flag("before".to_string())];
    assert_eq!(c.process_stmt(&m, &s.0[0], &mut actions), Ok(false));
    assert_eq!(actions.len(), 2);
    assert_eq!(
        c.process_stmt(&m, &s.0[1], &mut actions),
        Err(CompileError::UnknownDestination("nowhere".to_string()))
    );
    assert_eq!(
        actions,
        vec![NamedAction::Flag("before".to_string()), NamedAction::Flag("x".to_string())]
    );
}

#[test]
fn failed_pops_leave_the_stack_as_stated() {
    let mut st = Stack::new();
    assert_eq!(st.pop_cond(), Err(Fault::EmptyStack));
    assert_eq!(st.0.len(), 0);
    st.push(Operand::Destination(3));
    st.push(Operand::Cond(true));
    assert_eq!(st.pop_flag(), Err(Fault::TypeMismatch));
    assert_eq!(st.0, vec![Operand::Destination(3)]);
    assert_eq!(st.pop_destination(), Ok(3));
    assert_eq!(st.pop_recipient_pattern(), Err(Fault::EmptyStack));
}

#[test]
fn unknown_destination_leaves_the_compiler_alone() {
    let mut irc = IRCompiler { known: names(&["a"]), insns: vec![Insn::Halt], dests: names(&["a"]) };
    assert_eq!(
        irc.compile_dest(&Destination::new("b")),
        Err(CompileError::UnknownDestination("b".to_string()))
    );
    assert_eq!(irc.insns, vec![Insn::Halt]);
    assert_eq!(irc.dests, names(&["a"]));
    assert_eq!(irc.compile_dest(&Destination::new("a")), Ok(()));
    assert_eq!(irc.insns, vec![Insn::Halt, Insn::LiteralDest(0)]);
}

#[test]
fn new_message_keeps_each_label_and_addressee_once() {
    let m = Message::new(
        9,
        b"x".to_vec(),
        names(&["Seen", "A", "Seen"]),
        vec![recipient("a", "b"), recipient("c", "d"), recipient("a", "b")],
    );
    assert_eq!(m.uid, 9);
    assert_eq!(m.flags.len(), 2);
    assert!(m.flagged("Seen") && m.flagged("A"));
    assert_eq!(m.recipients.len(), 2);
    assert!(m.recipients.contains(&recipient("a", "b")));
    assert!(m.recipients.contains(&recipient("c", "d")));
}
