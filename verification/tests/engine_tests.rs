use turing::error::ParseError;
use turing::machine::TuringMachine;

fn run(text: &[u8], input: &[u8]) -> Vec<String> {
    let mut m = TuringMachine::from_text(text)
        .expect("definition should parse")
        .input(input)
        .expect("input symbols should be declared");
    let mut trace = Vec::new();
    while let Some(snap) = m.next() {
        trace.push(String::from_utf8(snap).expect("snapshots are ASCII"));
        assert!(trace.len() < 10_000, "machine unexpectedly ran away");
    }
    trace
}

fn window(cells: &str) -> String {
    let mut s = String::new();
    for _ in 0..40 {
        s.push(' ');
    }
    s.push_str("v\n");
    s.push_str(cells);
    s
}

#[test]
fn snapshot_is_a_marker_line_and_a_centred_window() {
    let m = TuringMachine::from_text(b"states s\nsyms a\ninitstate s\ntable\ns a . . N\n")
        .unwrap()
        .input(b"a")
        .unwrap();
    let snap = String::from_utf8(m.get_string()).unwrap();
    let cells = format!("{}a{}", "_".repeat(40), "_".repeat(39));
    assert_eq!(snap, window(&cells));
}

#[test]
fn input_is_written_right_aligned_ending_under_the_head() {
    let m = TuringMachine::from_text(b"states s\nsyms a b c\ninitstate s\ntable\ns * . . N\n")
        .unwrap()
        .input(b"a b c")
        .unwrap();
    let snap = String::from_utf8(m.get_string()).unwrap();
    let cells = format!("{}abc{}", "_".repeat(38), "_".repeat(39));
    assert_eq!(snap, window(&cells));
}

#[test]
fn input_rejects_an_undeclared_symbol() {
    let r = TuringMachine::from_text(b"states s\nsyms a\ninitstate s\ntable\ns a . . N\n")
        .unwrap()
        .input(b"a z");
    let e = match r {
        Err(e) => e,
        Ok(_) => panic!("an undeclared input symbol must be rejected"),
    };
    assert!(matches!(e, ParseError::UndeclaredSymbol(t) if t == b"z".to_vec()));
}

#[test]
fn single_rule_machine_halts_after_one_step_rejected() {
    // One rule, no final states: after its single step the machine reads a
    // blank, halts in a non-final state, and is rejected.
    let trace = run(b"states q0\nsyms a\ninitstate q0\ntable\nq0 a . . R\n", b"a");
    assert_eq!(trace.len(), 2);
    assert!(!trace[0].contains("ACCEPTED") && !trace[0].contains("REJECTED"));
    assert!(trace[1].ends_with("\n    REJECTED"));
}

#[test]
fn single_rule_machine_accepts_when_its_state_is_final() {
    let trace = run(
        b"states q0\nsyms a\ninitstate q0\nfinalstates q0\ntable\nq0 a . . R\n",
        b"a",
    );
    assert_eq!(trace.len(), 2);
    assert!(trace[1].ends_with("\n    ACCEPTED"));
}

#[test]
fn halting_in_the_reserved_halt_state_accepts_by_default() {
    let trace = run(b"states s\nsyms a\ninitstate s\ntable\ns a HALT . N\n", b"a");
    assert_eq!(trace.len(), 2);
    assert!(trace[1].ends_with("\n    ACCEPTED"));
}

#[test]
fn no_change_rule_leaves_tape_and_state_unchanged() {
    // `q0 * . . N` read over "x": the step keeps state, symbol and head, so
    // every snapshot is identical and the machine never halts.
    let mut m = TuringMachine::from_text(b"states q0\nsyms x\ninitstate q0\ntable\nq0 * . . N\n")
        .unwrap()
        .input(b"x")
        .unwrap();
    let s1 = m.next().unwrap();
    let s2 = m.next().unwrap();
    let s3 = m.next().unwrap();
    assert_eq!(s1, s2);
    assert_eq!(s2, s3);
    assert!(!String::from_utf8(s3).unwrap().contains("REJECTED"));
}

#[test]
fn trace_ends_after_the_terminal_snapshot() {
    let mut m = TuringMachine::from_text(b"states s\nsyms a\ninitstate s\ntable\n")
        .unwrap()
        .input(b"a")
        .unwrap();
    assert!(m.next().is_some());
    assert!(m.next().is_none());
    assert!(m.next().is_none());
}

#[test]
fn head_moves_follow_the_rule_directions() {
    // Write a marker, move left twice, then right once, leaving a trail.
    let trace = run(
        b"states s t u\nsyms a b\ninitstate s\ntable\ns * t b L\nt * u b L\nu * HALT b R\n",
        b"a",
    );
    // Steps: s@0 writes b moves left; t@-1 writes b left; u@-2 writes b right;
    // HALT@-1 halts. Final tape: b b b at cells -2..=0.
    assert_eq!(trace.len(), 4);
    let last = &trace[3];
    let cells: &str = last.lines().nth(1).unwrap();
    assert_eq!(&cells[39..42], "bbb");
    assert_eq!(&cells[42..44], "__");
    assert!(last.ends_with("\n    ACCEPTED"));
}
