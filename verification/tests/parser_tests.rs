use turing::error::ParseError;
use turing::grammar::{Dir, Grammar, Step};

fn parse(text: &[u8]) -> Grammar {
    Grammar::parse(text).expect("definition should parse")
}

fn parse_err(text: &[u8]) -> ParseError {
    match Grammar::parse(text) {
        Err(e) => e,
        Ok(_) => panic!("expected a parse error"),
    }
}

#[test]
fn parsing_is_deterministic() {
    let text = b"states s t u\nsyms a b 1-3\ninitstate s\nfinalstates t\ntable\ns a t b R\ns * u . L\nt-u b . a n\n";
    let g1 = parse(text);
    let g2 = parse(text);
    assert_eq!(g1.states, g2.states);
    assert_eq!(g1.syms, g2.syms);
    assert_eq!(g1.init, g2.init);
    assert_eq!(g1.finals, g2.finals);
    for s in 0..g1.states.len() {
        for y in 0..g1.syms.len() {
            assert_eq!(g1.get_move(s, y), g2.get_move(s, y));
        }
    }
}

#[test]
fn interning_is_dense_with_halt_and_blank_first() {
    let g = parse(b"states s t\nsyms a b\ninitstate t\ntable\ns a . . N\n");
    assert_eq!(g.states, vec![b"HALT".to_vec(), b"s".to_vec(), b"t".to_vec()]);
    assert_eq!(g.syms, vec![b"_".to_vec(), b"a".to_vec(), b"b".to_vec()]);
    assert_eq!(g.init, 2);
}

#[test]
fn numeric_range_declares_consecutive_symbols() {
    let g = parse(b"states q\nsyms 1-3\ninitstate q\ntable\nq * . . N\n");
    assert_eq!(
        g.syms,
        vec![b"_".to_vec(), b"1".to_vec(), b"2".to_vec(), b"3".to_vec()]
    );
}

#[test]
fn first_match_wins_on_overlap() {
    let g = parse(b"states s t u\nsyms a b c\ninitstate s\ntable\ns a t b R\ns * u c L\n");
    // (s, a) is covered by both rows; the earlier row decides.
    assert_eq!(
        g.get_move(1, 1),
        Some(Step { next: 2, write: 2, dir: Dir::Right })
    );
    // (s, b) is only covered by the wildcard row.
    assert_eq!(
        g.get_move(1, 2),
        Some(Step { next: 3, write: 3, dir: Dir::Left })
    );
    // (t, a) is covered by no row: the machine halts there.
    assert_eq!(g.get_move(2, 1), None);
}

#[test]
fn dot_fields_keep_state_and_symbol() {
    let g = parse(b"states s\nsyms a b\ninitstate s\ntable\ns * . . r\n");
    assert_eq!(g.get_move(1, 2), Some(Step { next: 1, write: 2, dir: Dir::Right }));
    assert_eq!(g.get_move(1, 0), Some(Step { next: 1, write: 0, dir: Dir::Right }));
}

#[test]
fn directions_are_case_insensitive_with_stay_default() {
    let g = parse(
        b"states s t u v w\nsyms a\ninitstate s\ntable\ns a . . LEFT\nt a . . r\nu a . . N\nv a . . stay\nw a . . x\n",
    );
    assert_eq!(g.get_move(1, 1).unwrap().dir, Dir::Left);
    assert_eq!(g.get_move(2, 1).unwrap().dir, Dir::Right);
    assert_eq!(g.get_move(3, 1).unwrap().dir, Dir::Stay);
    assert_eq!(g.get_move(4, 1).unwrap().dir, Dir::Stay);
    assert_eq!(g.get_move(5, 1).unwrap().dir, Dir::Stay);
}

#[test]
fn comments_and_blank_lines_are_ignored() {
    let g = parse(b"# a machine\nstates s # trailing\nsyms a\n\ninitstate s\ntable\n\ns a . . N # rule\n");
    assert_eq!(g.states, vec![b"HALT".to_vec(), b"s".to_vec()]);
    assert!(g.get_move(1, 1).is_some());
}

#[test]
fn selector_ranges_and_lists_expand() {
    let g = parse(b"states s t u\nsyms a b\ninitstate s\ntable\ns-u a,b t . N\n");
    for st in 1..=3 {
        for sy in 1..=2 {
            assert_eq!(g.get_move(st, sy).unwrap().next, 2);
        }
    }
    assert_eq!(g.get_move(1, 0), None);
}

#[test]
fn undeclared_initstate_is_fatal() {
    let e = parse_err(b"states a\nsyms x\ninitstate b\ntable\n");
    assert!(matches!(e, ParseError::UndeclaredState(t) if t == b"b".to_vec()));
}

#[test]
fn missing_initstate_is_fatal() {
    let e = parse_err(b"states a\nsyms x\ntable\na x . . N\n");
    assert!(matches!(e, ParseError::MissingInitState));
}

#[test]
fn missing_table_is_fatal() {
    let e = parse_err(b"states a\nsyms x\ninitstate a\n");
    assert!(matches!(e, ParseError::MissingTable));
}

#[test]
fn declaration_after_table_is_fatal() {
    let e = parse_err(b"states a\nsyms x\ninitstate a\ntable\na x . . N\nstates b\n");
    assert!(matches!(e, ParseError::DeclarationAfterTable));
}

#[test]
fn wrong_field_count_is_fatal() {
    let e = parse_err(b"states a\nsyms x\ninitstate a\ntable\na x . N\n");
    assert!(matches!(e, ParseError::WrongFieldCount(4)));
}

#[test]
fn undeclared_state_in_row_is_fatal() {
    let e = parse_err(b"states a\nsyms x\ninitstate a\ntable\nb x . . N\n");
    assert!(matches!(e, ParseError::UndeclaredState(t) if t == b"b".to_vec()));
}

#[test]
fn undeclared_symbol_in_row_is_fatal() {
    let e = parse_err(b"states a\nsyms x\ninitstate a\ntable\na y . . N\n");
    assert!(matches!(e, ParseError::UndeclaredSymbol(t) if t == b"y".to_vec()));
}

#[test]
fn backwards_numeric_range_is_fatal() {
    let e = parse_err(b"states a\nsyms 3-1\ninitstate a\ntable\na * . . N\n");
    assert!(matches!(e, ParseError::MalformedRange(t) if t == b"3-1".to_vec()));
}

#[test]
fn backwards_selector_range_is_fatal() {
    let e = parse_err(b"states a b\nsyms x\ninitstate a\ntable\nb-a x . . N\n");
    assert!(matches!(e, ParseError::MalformedRange(t) if t == b"b-a".to_vec()));
}

#[test]
fn final_states_resolve_against_declarations() {
    let g = parse(b"states a b\nsyms x\ninitstate a\nfinalstates b HALT\ntable\na x b . N\n");
    assert_eq!(g.finals, Some(vec![2, 0]));
    let e = parse_err(b"states a\nsyms x\ninitstate a\nfinalstates c\ntable\na x . . N\n");
    assert!(matches!(e, ParseError::UndeclaredState(t) if t == b"c".to_vec()));
}
