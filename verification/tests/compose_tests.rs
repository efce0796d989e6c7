use turing::compose::{branch, chain, loop_while, serialize_machine};
use turing::parts::parse_parts;
use turing::machine::TuringMachine;

fn run(text: &[u8], input: &[u8]) -> Vec<String> {
    let mut m = TuringMachine::from_text(text)
        .expect("definition should parse")
        .input(input)
        .expect("input symbols should be declared");
    let mut trace = Vec::new();
    while let Some(snap) = m.next() {
        trace.push(String::from_utf8(snap).expect("snapshots are ASCII"));
        assert!(trace.len() < 10_000, "machine unexpectedly ran away");
    }
    trace
}

fn strip_verdict(snap: &str) -> &str {
    snap.trim_end_matches("\n    ACCEPTED").trim_end_matches("\n    REJECTED")
}

#[test]
fn serialization_renames_states_canonically() {
    let a = b"states s0\nsyms x\ninitstate s0\ntable\ns0 x HALT x N\n";
    let out = chain(a, &Vec::new()).expect("chain should succeed");
    assert_eq!(
        String::from_utf8(out).unwrap(),
        "states q0\nsyms x\ninitstate q0\ntable\nq0 x HALT x N\n"
    );
}

#[test]
fn chain_runs_the_first_machine_then_the_second() {
    // A rewrites its input cell and moves right; B writes z wherever it is.
    let a = b"states a0\nsyms x y\ninitstate a0\ntable\na0 x HALT y R\n";
    let b = b"states b0\nsyms z\ninitstate b0\ntable\nb0 * HALT z N\n";
    let composed = chain(a, &vec![b.to_vec()]).expect("chain should succeed");

    let alone = run(a, b"x");
    let chained = run(&composed, b"x");

    // Up to A's hand-off the composed tape evolution equals A's standalone
    // evolution: the same snapshots, apart from A's terminal verdict.
    assert_eq!(alone.len(), 2);
    assert_eq!(chained[0], alone[0]);
    assert_eq!(chained[1], strip_verdict(&alone[1]));

    // Execution then continues into B from that exact tape and head.
    assert_eq!(chained.len(), 3);
    let last = &chained[2];
    let cells = last.lines().nth(1).unwrap();
    // A wrote y at cell 0 and moved right; B wrote z at cell 1.
    assert_eq!(&cells[38..42], "_yz_");
    assert!(last.ends_with("\n    ACCEPTED"));
}

#[test]
fn chain_keeps_the_last_machines_final_states() {
    // B's own state is final, so the chained machine accepts where it
    // halts inside B.
    let a = b"states a0\nsyms x\ninitstate a0\ntable\na0 x HALT . N\n";
    let b = b"states b0\nsyms x\ninitstate b0\nfinalstates b0\ntable\n";
    let composed = chain(a, &vec![b.to_vec()]).expect("chain should succeed");
    let text = String::from_utf8(composed.clone()).unwrap();
    assert!(text.contains("finalstates q1"));
    let trace = run(&composed, b"x");
    assert!(trace.last().unwrap().ends_with("\n    ACCEPTED"));
}

#[test]
fn branch_dispatches_on_the_entry_output_symbol() {
    // The entry halts at once, leaving the input symbol under the head.
    let entry = b"states e0\nsyms 0 1\ninitstate e0\ntable\ne0 * HALT . N\n";
    let m0 = b"states m0\nsyms a\ninitstate m0\ntable\nm0 * HALT a N\n";
    let m1 = b"states m1\nsyms b\ninitstate m1\ntable\nm1 * HALT b N\n";
    let composed = branch(
        entry,
        &vec![b"0".to_vec(), b"1".to_vec()],
        &vec![m0.to_vec(), m1.to_vec()],
    )
    .expect("branch should succeed");

    // Entry output 0 continues into M0: its mark lands right of the head.
    let t0 = run(&composed, b"0");
    let cells0 = t0.last().unwrap().lines().nth(1).unwrap();
    assert!(cells0.contains("0a"));
    assert!(t0.last().unwrap().ends_with("\n    ACCEPTED"));

    // Entry output 1 continues into M1 instead.
    let t1 = run(&composed, b"1");
    let cells1 = t1.last().unwrap().lines().nth(1).unwrap();
    assert!(cells1.contains("1b"));
    assert!(!cells1.contains("a"));
}

#[test]
fn branch_halts_on_a_symbol_with_no_dispatch_rule() {
    let entry = b"states e0\nsyms 0 1\ninitstate e0\ntable\ne0 * HALT . N\n";
    let m0 = b"states m0\nsyms a\ninitstate m0\ntable\nm0 * HALT a N\n";
    let m1 = b"states m1\nsyms b\ninitstate m1\ntable\nm1 * HALT b N\n";
    let composed = branch(
        entry,
        &vec![b"0".to_vec(), b"1".to_vec()],
        &vec![m0.to_vec(), m1.to_vec()],
    )
    .expect("branch should succeed");

    // A blank under the head matches no dispatch rule: the machine halts
    // in the dispatch state with no further transition, and is rejected.
    let t = run(&composed, b"_");
    assert_eq!(t.len(), 2);
    assert!(t.last().unwrap().ends_with("\n    REJECTED"));
}

#[test]
fn loop_while_reruns_the_body_until_the_symbol_changes() {
    // The body erases the cell under the head and moves left.
    let composed = loop_while(
        b"states e0\nsyms x\ninitstate e0\ntable\ne0 x HALT _ L\n",
        &vec![b"x".to_vec()],
    )
    .expect("loop_while should succeed");

    // Three x cells: the body runs three times (one erase each), the check
    // state sees x twice, then a blank, and the machine accepts.
    let trace = run(&composed, b"x x x");
    assert_eq!(trace.len(), 7);
    let last = trace.last().unwrap();
    assert!(last.ends_with("\n    ACCEPTED"));
    let cells = last.lines().nth(1).unwrap();
    assert!(!cells.contains('x'));
}

#[test]
fn loop_while_with_no_loop_symbols_only_adds_the_fallback() {
    let composed = loop_while(
        b"states e0\nsyms x\ninitstate e0\ntable\ne0 x HALT _ L\n",
        &Vec::new(),
    )
    .expect("loop_while should succeed");
    // The body runs once, the check state falls through to the halt state.
    let trace = run(&composed, b"x");
    assert_eq!(trace.len(), 3);
    assert!(trace.last().unwrap().ends_with("\n    ACCEPTED"));
}

#[test]
fn merging_machines_with_equal_state_names_keeps_them_apart() {
    // Both machines declare q0, with different behaviour.
    let a = b"states q0\nsyms x\ninitstate q0\ntable\nq0 x HALT x N\n";
    let b = b"states q0\nsyms x y\ninitstate q0\ntable\nq0 x HALT y R\n";
    let composed = chain(a, &vec![b.to_vec()]).expect("chain should succeed");
    let text = String::from_utf8(composed.clone()).unwrap();

    // Two distinct disambiguated identifiers appear in the output.
    assert!(text.starts_with("states q0 q1\n"));
    // Each table reference went to its own machine's state: A's rule now
    // continues into B's q1, and B's rule still halts.
    assert!(text.contains("q0 x q1 x N"));
    assert!(text.contains("q1 x HALT y R"));

    // Running it shows both behaviours in sequence, with no cross-link:
    // A's rule keeps x, B's rewrites it to y and accepts.
    let trace = run(&composed, b"x");
    assert_eq!(trace.len(), 3);
    let last = trace.last().unwrap();
    assert!(last.lines().nth(1).unwrap().contains('y'));
    assert!(last.ends_with("\n    ACCEPTED"));
}

#[test]
fn extraction_and_serialization_round_trip_at_the_name_level() {
    let text = b"states s t
syms a b
initstate t
finalstates s
table
s,t a-b HALT . R
";
    let p = parse_parts(text).expect("definition should extract");
    assert_eq!(p.states, vec![b"s".to_vec(), b"t".to_vec()]);
    assert_eq!(p.syms, vec![b"a".to_vec(), b"b".to_vec()]);
    assert_eq!(p.init, b"t".to_vec());
    assert_eq!(p.finals, Some(vec![b"s".to_vec()]));
    let out = serialize_machine(&p);
    assert_eq!(
        String::from_utf8(out).unwrap(),
        "states q0 q1
syms a b
finalstates q0
initstate q1
table
q0,q1 a-b HALT . R
"
    );
    let p2 = parse_parts(
        b"states q0 q1
syms a b
finalstates q0
initstate q1
table
q0,q1 a-b HALT . R
",
    )
    .expect("serialized text should extract again");
    assert_eq!(p2.syms, p.syms);
    assert_eq!(p2.init, b"q1".to_vec());
}

#[test]
fn chain_propagates_parse_errors_of_its_sources() {
    let good = b"states a\nsyms x\ninitstate a\ntable\na x . . N\n";
    let bad = b"states a\nsyms x\ntable\na x . . N\n";
    assert!(chain(bad, &Vec::new()).is_err());
    assert!(chain(good, &vec![bad.to_vec()]).is_err());
}
