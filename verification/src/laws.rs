//! The general laws of the library, each stated over the spec-level models
//! that the executable functions are proved against.

use vstd::prelude::*;

use crate::compose::{rename_parts, rename_tok, tag_of, union_from};
use crate::grammar::{
    first_match_upto, lookup, row_covers, row_effect, spec_parse, table_of, Dir, GrammarV, RowV,
    Step, expand_sym_tok,
};
use crate::machine::{at_halt, run_steps, spec_step, tape_read, ConfigV};
use crate::token::{
    all_digits, dec_digits, dec_val, find_byte_from, has_tok, idx_of_from, is_digit,
    spec_parse_dec,
};

verus! {

/// Parsing is deterministic: identical definition text always parses to
/// the identical grammar — in particular the identical transition table —
/// or to the identical error.
pub proof fn lemma_parse_deterministic(t1: Seq<u8>, t2: Seq<u8>)
    requires
        t1 == t2,
    ensures
        spec_parse(t1) == spec_parse(t2),
{
}

proof fn lemma_fm_upto_none(rows: Seq<RowV>, n: int, s: usize, y: usize)
    requires
        0 <= n <= rows.len(),
        forall|j: int| 0 <= j < n ==> !row_covers(#[trigger] rows[j], s, y),
    ensures
        first_match_upto(rows, n, s, y) is None,
    decreases n,
{
    if n > 0 {
        lemma_fm_upto_none(rows, n - 1, s, y);
    }
}

proof fn lemma_fm_upto_hits(rows: Seq<RowV>, n: int, i: int, s: usize, y: usize)
    requires
        0 <= i < n <= rows.len(),
        row_covers(rows[i], s, y),
        forall|j: int| 0 <= j < i ==> !row_covers(#[trigger] rows[j], s, y),
    ensures
        first_match_upto(rows, n, s, y) == Some(row_effect(rows[i], s, y)),
    decreases n,
{
    if n - 1 > i {
        lemma_fm_upto_hits(rows, n - 1, i, s, y);
    } else {
        lemma_fm_upto_none(rows, i, s, y);
    }
}

/// First-match precedence: when two rows' expansions overlap on a
/// (state, symbol) pair, the effective transition is the earlier row's.
/// Stated generally: if row `i` covers the pair and no earlier row does,
/// the table binds the pair to row `i`'s effect on it.
pub proof fn lemma_first_match_precedence(rows: Seq<RowV>, i: int, s: usize, y: usize)
    requires
        0 <= i < rows.len(),
        row_covers(rows[i], s, y),
        forall|j: int| 0 <= j < i ==> !row_covers(#[trigger] rows[j], s, y),
    ensures
        table_of(rows).dom().contains((s, y)),
        table_of(rows)[(s, y)] == row_effect(rows[i], s, y),
{
    lemma_fm_upto_hits(rows, rows.len() as int, i, s, y);
}

/// A pair no row covers has no transition, so a machine reading it halts.
pub proof fn lemma_unmatched_pair_halts(rows: Seq<RowV>, s: usize, y: usize)
    requires
        forall|j: int| 0 <= j < rows.len() ==> !row_covers(#[trigger] rows[j], s, y),
    ensures
        !table_of(rows).dom().contains((s, y)),
{
    lemma_fm_upto_none(rows, rows.len() as int, s, y);
}

proof fn lemma_dec_digits_are_digits(n: nat)
    ensures
        all_digits(dec_digits(n)),
        dec_digits(n).len() >= 1,
    decreases n,
{
    if n < 10 {
        assert(is_digit(dec_digits(n)[0]));
    } else {
        lemma_dec_digits_are_digits(n / 10);
        let d = dec_digits(n / 10);
        let s = dec_digits(n);
        assert forall|k: int| 0 <= k < s.len() implies is_digit(s[k]) by {
            if k < d.len() {
                assert(s[k] == d[k]);
            } else {
                assert(s[k] == (48 + n % 10) as u8);
            }
        }
    }
}

proof fn lemma_dec_val_round_trip(n: nat)
    ensures
        dec_val(dec_digits(n)) == n,
    decreases n,
{
    if n < 10 {
        let s = dec_digits(n);
        assert(s == seq![(48 + n) as u8]);
        assert(s.len() == 1);
        assert(s.drop_last() =~= Seq::<u8>::empty());
        assert(s.last() == (48 + n) as u8);
        assert(dec_val(s) == dec_val(s.drop_last()) * 10 + s.last() - 48);
        assert(dec_val(s.drop_last()) == 0);
    } else {
        lemma_dec_val_round_trip(n / 10);
        let s = dec_digits(n);
        assert(s == dec_digits(n / 10).push((48 + n % 10) as u8));
        assert(s.len() >= 1);
        assert(s.drop_last() =~= dec_digits(n / 10));
        assert(s.last() == (48 + n % 10) as u8);
        assert(dec_val(s) == dec_val(s.drop_last()) * 10 + s.last() - 48);
        assert(n == 10 * (n / 10) + n % 10) by (nonlinear_arith);
    }
}

proof fn lemma_dec_injective(a: nat, b: nat)
    requires
        dec_digits(a) == dec_digits(b),
    ensures
        a == b,
{
    lemma_dec_val_round_trip(a);
    lemma_dec_val_round_trip(b);
}

proof fn lemma_find_after_digits(t: Seq<u8>, d: Seq<u8>, i: int)
    requires
        all_digits(d),
        t.len() > d.len(),
        t[d.len() as int] == 45,
        forall|k: int| 0 <= k < d.len() ==> t[k] == d[k],
        0 <= i <= d.len(),
    ensures
        find_byte_from(t, 45, i) == d.len(),
    decreases d.len() - i,
{
    if i < d.len() {
        assert(is_digit(d[i]));
        lemma_find_after_digits(t, d, i + 1);
    }
}

/// A numeric symbol range `N-M` with `N <= M` declares exactly the decimal
/// numerals N, N+1, ..., M, in that order, so they receive consecutive
/// indices in declaration order.
pub proof fn lemma_sym_range_expansion(n: u64, m: u64)
    requires
        n <= m,
    ensures
        expand_sym_tok(dec_digits(n as nat) + seq![45u8] + dec_digits(m as nat)) == Ok::<
            Seq<Seq<u8>>,
            crate::error::ParseErrorV,
        >(Seq::new((m - n + 1) as nat, |j: int| dec_digits((n + j) as nat))),
{
    let dn = dec_digits(n as nat);
    let dm = dec_digits(m as nat);
    let t = dn + seq![45u8] + dm;
    lemma_dec_digits_are_digits(n as nat);
    lemma_dec_digits_are_digits(m as nat);
    lemma_find_after_digits(t, dn, 0);
    assert(t.take(dn.len() as int) =~= dn);
    assert(t.skip(dn.len() as int + 1) =~= dm);
    lemma_dec_val_round_trip(n as nat);
    lemma_dec_val_round_trip(m as nat);
    assert(spec_parse_dec(dn) == Some(n));
    assert(spec_parse_dec(dm) == Some(m));
}

/// A row whose next-state and write-symbol are the no-change marker and
/// whose direction stays gives every pair it covers the transition that
/// keeps the state, rewrites the read symbol, and leaves the head alone.
pub proof fn lemma_dot_row_effect(r: RowV, s: usize, y: usize)
    requires
        r.next is None,
        r.write is None,
        r.dir == Dir::Stay,
    ensures
        row_effect(r, s, y) == (Step { next: s, write: y, dir: Dir::Stay }),
{
}

/// Stepping through a transition that keeps the state, rewrites the read
/// symbol and stays leaves the configuration observably unchanged: same
/// state, same head position, same symbol in every cell, same verdict
/// flag. Reached repeatedly, such a rule keeps the machine exactly where
/// it was, which is what makes a loop check-state sound.
pub proof fn lemma_stay_step_preserves(g: GrammarV, c: ConfigV)
    requires
        lookup(g, c.state, tape_read(c.tape, c.pointer)) == Some(
            Step { next: c.state, write: tape_read(c.tape, c.pointer), dir: Dir::Stay },
        ),
    ensures
        spec_step(g, c).state == c.state,
        spec_step(g, c).pointer == c.pointer,
        spec_step(g, c).done == c.done,
        forall|q: i64| tape_read(#[trigger] spec_step(g, c).tape, q) == tape_read(c.tape, q),
{
    let w = tape_read(c.tape, c.pointer);
    assert forall|q: i64| tape_read(#[trigger] spec_step(g, c).tape, q) == tape_read(c.tape, q) by {
        if q == c.pointer {
            assert(spec_step(g, c).tape[q] == w);
        }
    }
}

/// Renaming never cross-links: two declared names that rename to the same
/// name were the same name already.
pub proof fn lemma_rename_injective(decl: Seq<Seq<u8>>, tag: Seq<u8>, t1: Seq<u8>, t2: Seq<u8>)
    requires
        has_tok(decl, t1),
        has_tok(decl, t2),
        rename_tok(decl, tag, t1) == rename_tok(decl, tag, t2),
    ensures
        t1 == t2,
{
    assert(t1 =~= (tag + t1).skip(tag.len() as int));
    assert(t2 =~= (tag + t2).skip(tag.len() as int));
}

proof fn lemma_tag_prefix_ne(j: int, k: int, a: Seq<u8>, b: Seq<u8>)
    requires
        j >= 0,
        k >= 0,
        j != k,
    ensures
        tag_of(j) + a != tag_of(k) + b,
{
    let dj = dec_digits(j as nat);
    let dk = dec_digits(k as nat);
    lemma_dec_digits_are_digits(j as nat);
    lemma_dec_digits_are_digits(k as nat);
    if tag_of(j) + a == tag_of(k) + b {
        let sj = tag_of(j) + a;
        let sk = tag_of(k) + b;
        if dj.len() == dk.len() {
            assert(dj =~= dk) by {
                assert forall|x: int| 0 <= x < dj.len() implies dj[x] == dk[x] by {
                    assert(sj[x] == dj[x]);
                    assert(sk[x] == dk[x]);
                }
            }
            lemma_dec_injective(j as nat, k as nat);
        } else if dj.len() < dk.len() {
            assert(sj[dj.len() as int] == 58);
            assert(sk[dj.len() as int] == dk[dj.len() as int]);
            assert(is_digit(dk[dj.len() as int]));
        } else {
            assert(sk[dk.len() as int] == 58);
            assert(sj[dk.len() as int] == dj[dk.len() as int]);
            assert(is_digit(dj[dk.len() as int]));
        }
    }
}

/// Merging machines that declare the same state name yields distinct
/// disambiguated identifiers: names renamed into distinct namespaces can
/// never be equal, whatever the machines declared.
pub proof fn lemma_renamed_disjoint(
    pa: crate::parts::MachinePartsV,
    pb: crate::parts::MachinePartsV,
    j: int,
    k: int,
    x: int,
    y: int,
)
    requires
        j >= 0,
        k >= 0,
        j != k,
        0 <= x < pa.states.len(),
        0 <= y < pb.states.len(),
    ensures
        rename_parts(pa, j).states[x] != rename_parts(pb, k).states[y],
{
    lemma_tag_prefix_ne(j, k, pa.states[x], pb.states[y]);
}

/// Retargeting the halt edges touches nothing else: every selector, write
/// field and direction is kept, and every next-state that is not the halt
/// marker is kept; exactly the halt markers become the new target. This is
/// why a machine's behaviour before its hand-off point survives
/// composition unchanged.
pub proof fn lemma_patch_only_retargets_halt(
    rows: Seq<crate::parts::RawRowV>,
    target: Seq<u8>,
    i: int,
)
    requires
        0 <= i < rows.len(),
    ensures
        crate::compose::patch_next(rows, target).len() == rows.len(),
        crate::compose::patch_next(rows, target)[i].ssel == rows[i].ssel,
        crate::compose::patch_next(rows, target)[i].ysel == rows[i].ysel,
        crate::compose::patch_next(rows, target)[i].write == rows[i].write,
        crate::compose::patch_next(rows, target)[i].dir == rows[i].dir,
        rows[i].next == crate::grammar::halt_name() ==> crate::compose::patch_next(
            rows,
            target,
        )[i].next == target,
        rows[i].next != crate::grammar::halt_name() ==> crate::compose::patch_next(
            rows,
            target,
        )[i].next == rows[i].next,
{
}

proof fn lemma_idx_of_from_char(l: Seq<Seq<u8>>, t: Seq<u8>, i: int)
    requires
        0 <= i <= l.len(),
    ensures
        i <= idx_of_from(l, t, i) <= l.len(),
        idx_of_from(l, t, i) < l.len() ==> l[idx_of_from(l, t, i)] == t,
        (idx_of_from(l, t, i) < l.len()) <==> exists|j: int| i <= j < l.len() && #[trigger] l[j]
            == t,
    decreases l.len() - i,
{
    if i < l.len() && l[i] != t {
        lemma_idx_of_from_char(l, t, i + 1);
    }
}

/// The accumulated symbol list is kept unchanged, as a prefix, by the
/// alphabet union: incoming symbols only ever append.
pub proof fn lemma_union_keeps_prefix(acc: Seq<Seq<u8>>, inc: Seq<Seq<u8>>, i: int)
    requires
        0 <= i <= inc.len(),
    ensures
        union_from(acc, inc, i).len() >= acc.len(),
        forall|k: int| 0 <= k < acc.len() ==> #[trigger] union_from(acc, inc, i)[k] == acc[k],
    decreases inc.len() - i,
{
    if i < inc.len() {
        if has_tok(acc, inc[i]) {
            lemma_union_keeps_prefix(acc, inc, i + 1);
        } else {
            lemma_union_keeps_prefix(acc.push(inc[i]), inc, i + 1);
        }
    }
}

/// Membership in the alphabet union: the union holds a symbol exactly when
/// the accumulated list already held it or the incoming list declares it,
/// so unioning adds each incoming symbol once and drops nothing.
pub proof fn lemma_union_membership(acc: Seq<Seq<u8>>, inc: Seq<Seq<u8>>, i: int, t: Seq<u8>)
    requires
        0 <= i <= inc.len(),
    ensures
        has_tok(union_from(acc, inc, i), t) <==> has_tok(acc, t) || exists|j: int|
            i <= j < inc.len() && #[trigger] inc[j] == t,
    decreases inc.len() - i,
{
    lemma_idx_of_from_char(acc, t, 0);
    if i < inc.len() {
        let acc1 = if has_tok(acc, inc[i]) {
            acc
        } else {
            acc.push(inc[i])
        };
        lemma_union_membership(acc1, inc, i + 1, t);
        lemma_idx_of_from_char(acc1, t, 0);
        lemma_idx_of_from_char(acc, inc[i], 0);
        // The one-step list holds `t` exactly when `acc` did or `inc[i]` is `t`.
        if has_tok(acc1, t) {
            let j = choose|j: int| 0 <= j < acc1.len() && acc1[j] == t;
            if j < acc.len() {
                assert(acc[j] == t);
            } else {
                assert(inc[i] == t);
            }
        }
        if has_tok(acc, t) {
            let j = choose|j: int| 0 <= j < acc.len() && acc[j] == t;
            assert(acc1[j] == t);
        }
        if inc[i] == t && !has_tok(acc, t) {
            assert(acc1[acc.len() as int] == t);
        }
        // Shift the incoming-range witness across the first element.
        if exists|j: int| i <= j < inc.len() && #[trigger] inc[j] == t {
            let j = choose|j: int| i <= j < inc.len() && #[trigger] inc[j] == t;
            if j > i {
                assert(i + 1 <= j < inc.len() && inc[j] == t);
            }
        }
    }
}

/// Each dispatch rule of a branch routes exactly its own symbol: the rule
/// for the `i`-th (symbol, machine) pair fires on the synthetic dispatch
/// state and that exact symbol, jumps to that machine's renamed initial
/// state, writes nothing new, and moves right. Pairs beyond the shorter of
/// the two lists get no rule, so their symbols halt implicitly.
pub proof fn lemma_dispatch_rows_shape(bsyms: Seq<Seq<u8>>, inits: Seq<Seq<u8>>, i: int)
    requires
        0 <= i < bsyms.len(),
        0 <= i < inits.len(),
    ensures
        crate::compose::dispatch_rows(bsyms, inits, i)[0] == (crate::parts::RawRowV {
            ssel: seq![crate::compose::branch_name()],
            ysel: seq![bsyms[i]],
            next: inits[i],
            write: crate::grammar::dot_tok(),
            dir: seq![82u8],
        }),
{
}

/// Two grammars whose tables correspond through a state map `f` step in
/// lockstep. Wherever the first grammar has a transition, one step of the
/// second, from the corresponding configuration, yields the same tape and
/// head and the corresponding state. This is the sense in which a composed
/// machine re-enacts a component machine's tape evolution up to the
/// component's hand-off point.
pub proof fn lemma_lockstep_step(
    g1: GrammarV,
    g2: GrammarV,
    f: spec_fn(usize) -> usize,
    c1: ConfigV,
    c2: ConfigV,
)
    requires
        c2.tape == c1.tape,
        c2.pointer == c1.pointer,
        c2.done == c1.done,
        c2.state == f(c1.state),
        !at_halt(g1, c1),
        forall|s: usize, y: usize| #[trigger]
            lookup(g1, s, y) matches Some(st) ==> lookup(g2, f(s), y) == Some(
                Step { next: f(st.next), write: st.write, dir: st.dir },
            ),
    ensures
        spec_step(g2, c2).tape == spec_step(g1, c1).tape,
        spec_step(g2, c2).pointer == spec_step(g1, c1).pointer,
        spec_step(g2, c2).done == spec_step(g1, c1).done,
        spec_step(g2, c2).state == f(spec_step(g1, c1).state),
{
    let y = tape_read(c1.tape, c1.pointer);
    assert(lookup(g1, c1.state, y) matches Some(_));
}

/// The lockstep property over whole runs: as long as the first grammar has
/// not reached a halting point, `n` steps of the second grammar from the
/// corresponding configuration reproduce the first's tape evolution cell
/// for cell, step for step.
pub proof fn lemma_lockstep_run(
    g1: GrammarV,
    g2: GrammarV,
    f: spec_fn(usize) -> usize,
    c1: ConfigV,
    c2: ConfigV,
    n: nat,
)
    requires
        c2.tape == c1.tape,
        c2.pointer == c1.pointer,
        c2.done == c1.done,
        c2.state == f(c1.state),
        forall|k: nat| k < n ==> !at_halt(g1, #[trigger] run_steps(g1, c1, k)),
        forall|s: usize, y: usize| #[trigger]
            lookup(g1, s, y) matches Some(st) ==> lookup(g2, f(s), y) == Some(
                Step { next: f(st.next), write: st.write, dir: st.dir },
            ),
    ensures
        run_steps(g2, c2, n).tape == run_steps(g1, c1, n).tape,
        run_steps(g2, c2, n).pointer == run_steps(g1, c1, n).pointer,
        run_steps(g2, c2, n).done == run_steps(g1, c1, n).done,
        run_steps(g2, c2, n).state == f(run_steps(g1, c1, n).state),
    decreases n,
{
    if n > 0 {
        lemma_lockstep_run(g1, g2, f, c1, c2, (n - 1) as nat);
        assert(!at_halt(g1, run_steps(g1, c1, (n - 1) as nat)));
        lemma_lockstep_step(
            g1,
            g2,
            f,
            run_steps(g1, c1, (n - 1) as nat),
            run_steps(g2, c2, (n - 1) as nat),
        );
    }
}

} // verus!
