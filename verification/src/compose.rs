//! Composition of machine definitions at the name level: sequencing
//! (`chain`), N-way branching (`branch`) and looping (`loop_while`), plus
//! the shared namespace renaming and the serializer back to definition
//! text.
//!
//! Collision avoidance is deterministic: the states of the `k`-th source
//! machine of a composition are prefixed with the tag `<k>::`. Tags of
//! distinct machines can never produce equal names (see
//! `lemma_renamed_disjoint`), so merged namespaces stay collision-free.
//! All rewriting is structural, over parsed rows, never over raw text:
//! patching the halt edge updates exactly the next-state fields that hold
//! the halt marker, and renaming rewrites whole tokens only.

use vstd::prelude::*;

use crate::error::{ParseError, ParseErrorV};
use crate::grammar::{dot_tok, halt_name, star_tok};
use crate::parts::{
    parse_parts, spec_parse_parts, MachineParts, MachinePartsV, RawRow, RawRowV,
};
use crate::token::{
    bytes_eq, copy_bytes, copy_tokens, dec_digits, find_byte_from, has_tok, has_tok_exec, join,
    join_exec, u64_to_dec, copy_range, append_bytes,
};

verus! {

/// The synthetic dispatch state of `branch`.
pub open spec fn branch_name() -> Seq<u8> {
    seq![66u8, 82, 65, 78, 67, 72]
}

/// The synthetic check state of `loop_while`.
pub open spec fn check_name() -> Seq<u8> {
    seq![67u8, 72, 69, 67, 75]
}

pub fn branch_name_vec() -> (r: Vec<u8>)
    ensures
        r@ == branch_name(),
{
    let k: [u8; 6] = [66, 82, 65, 78, 67, 72];
    assert(k@ =~= branch_name());
    copy_range(k.as_slice(), 0, 6)
}

pub fn check_name_vec() -> (r: Vec<u8>)
    ensures
        r@ == check_name(),
{
    let k: [u8; 5] = [67, 72, 69, 67, 75];
    assert(k@ =~= check_name());
    copy_range(k.as_slice(), 0, 5)
}

fn halt_vec() -> (r: Vec<u8>)
    ensures
        r@ == halt_name(),
{
    crate::grammar::halt_name_vec()
}

fn dot_vec() -> (r: Vec<u8>)
    ensures
        r@ == dot_tok(),
{
    let k: [u8; 1] = [46];
    assert(k@ =~= dot_tok());
    copy_range(k.as_slice(), 0, 1)
}

fn star_vec() -> (r: Vec<u8>)
    ensures
        r@ == star_tok(),
{
    let k: [u8; 1] = [42];
    assert(k@ =~= star_tok());
    copy_range(k.as_slice(), 0, 1)
}

/// The namespace tag of the `k`-th source machine of a composition.
pub open spec fn tag_of(k: int) -> Seq<u8> {
    dec_digits(k as nat) + seq![58u8, 58u8]
}

pub fn tag_vec(k: u64) -> (r: Vec<u8>)
    ensures
        r@ == tag_of(k as int),
{
    let mut r = u64_to_dec(k);
    r.push(58);
    r.push(58);
    assert(r@ =~= tag_of(k as int));
    r
}

/// A token after renaming: declared state names get the tag prefixed,
/// anything else is untouched.
pub open spec fn rename_tok(decl: Seq<Seq<u8>>, tag: Seq<u8>, t: Seq<u8>) -> Seq<u8> {
    if has_tok(decl, t) {
        tag + t
    } else {
        t
    }
}

fn rename_tok_exec(decl: &Vec<Vec<u8>>, tag: &Vec<u8>, t: &Vec<u8>) -> (r: Vec<u8>)
    ensures
        r@ == rename_tok(decl.deep_view(), tag@, t@),
{
    if has_tok_exec(decl, t.as_slice()) {
        let mut r = copy_bytes(tag);
        append_bytes(&mut r, t.as_slice());
        r
    } else {
        copy_bytes(t)
    }
}

/// A selector atom after renaming. A range atom is renamed on both sides
/// of its first hyphen, matching how resolution reads it, so renaming only
/// ever rewrites whole tokens.
pub open spec fn rename_atom(decl: Seq<Seq<u8>>, tag: Seq<u8>, a: Seq<u8>) -> Seq<u8> {
    let d = find_byte_from(a, 45, 0);
    if d >= a.len() {
        rename_tok(decl, tag, a)
    } else {
        rename_tok(decl, tag, a.take(d)) + seq![45u8] + rename_tok(decl, tag, a.skip(d + 1))
    }
}

fn rename_atom_exec(decl: &Vec<Vec<u8>>, tag: &Vec<u8>, a: &Vec<u8>) -> (r: Vec<u8>)
    ensures
        r@ == rename_atom(decl.deep_view(), tag@, a@),
{
    let d = crate::token::find_byte_exec(a.as_slice(), 45, 0);
    if d == a.len() {
        rename_tok_exec(decl, tag, a)
    } else {
        let a1 = copy_range(a.as_slice(), 0, d);
        let a2 = copy_range(a.as_slice(), d + 1, a.len());
        proof {
            assert(a1@ =~= a@.take(d as int));
            assert(a2@ =~= a@.skip(d as int + 1));
        }
        let mut r = rename_tok_exec(decl, tag, &a1);
        r.push(45);
        let right = rename_tok_exec(decl, tag, &a2);
        append_bytes(&mut r, right.as_slice());
        assert(r@ =~= rename_atom(decl.deep_view(), tag@, a@));
        r
    }
}

/// A row after renaming: state-selector atoms and the next-state token are
/// rewritten; symbol fields and the direction are untouched.
pub open spec fn rename_row(decl: Seq<Seq<u8>>, tag: Seq<u8>, r: RawRowV) -> RawRowV {
    RawRowV {
        ssel: r.ssel.map_values(|a: Seq<u8>| rename_atom(decl, tag, a)),
        ysel: r.ysel,
        next: rename_tok(decl, tag, r.next),
        write: r.write,
        dir: r.dir,
    }
}

fn rename_row_exec(decl: &Vec<Vec<u8>>, tag: &Vec<u8>, r: &RawRow) -> (out: RawRow)
    ensures
        out@ == rename_row(decl.deep_view(), tag@, r@),
{
    let mut ssel: Vec<Vec<u8>> = Vec::new();
    let mut i: usize = 0;
    while i < r.ssel.len()
        invariant
            i <= r.ssel@.len(),
            ssel.deep_view() =~~= r.ssel.deep_view().map_values(
                |a: Seq<u8>| rename_atom(decl.deep_view(), tag@, a),
            ).take(i as int),
        decreases r.ssel@.len() - i,
    {
        proof {
            assert(r.ssel.deep_view()[i as int] =~= r.ssel@[i as int]@);
        }
        let a = rename_atom_exec(decl, tag, &r.ssel[i]);
        let ghost prev = ssel.deep_view();
        ssel.push(a);
        i = i + 1;
        assert(ssel.deep_view() =~~= prev.push(a@));
        assert(prev.push(a@) =~~= r.ssel.deep_view().map_values(
            |a: Seq<u8>| rename_atom(decl.deep_view(), tag@, a),
        ).take(i as int));
    }
    proof {
        let m = r.ssel.deep_view().map_values(|a: Seq<u8>| rename_atom(decl.deep_view(), tag@, a));
        assert(m.take(m.len() as int) =~= m);
    }
    let out = RawRow {
        ssel,
        ysel: copy_tokens(&r.ysel),
        next: rename_tok_exec(decl, tag, &r.next),
        write: copy_bytes(&r.write),
        dir: copy_bytes(&r.dir),
    };
    out
}

/// A whole definition after renaming into namespace `k`: every declared
/// state name gets the tag, the initial state gets the tag, final states
/// and table references to declared names are rewritten consistently, and
/// symbols are untouched. The halt marker is never a declared name here,
/// so it survives renaming.
pub open spec fn rename_parts(p: MachinePartsV, k: int) -> MachinePartsV {
    let tag = tag_of(k);
    MachinePartsV {
        states: p.states.map_values(|t: Seq<u8>| tag + t),
        syms: p.syms,
        init: tag + p.init,
        finals: match p.finals {
            Some(f) => Some(f.map_values(|t: Seq<u8>| rename_tok(p.states, tag, t))),
            None => None,
        },
        rows: p.rows.map_values(|r: RawRowV| rename_row(p.states, tag, r)),
    }
}

fn rename_parts_exec(p: &MachineParts, k: u64) -> (out: MachineParts)
    ensures
        out@ == rename_parts(p@, k as int),
{
    let tag = tag_vec(k);
    let ghost decl = p.states.deep_view();

    let mut states: Vec<Vec<u8>> = Vec::new();
    let mut i: usize = 0;
    while i < p.states.len()
        invariant
            i <= p.states@.len(),
            tag@ == tag_of(k as int),
            decl == p.states.deep_view(),
            states.deep_view() =~~= decl.map_values(|t: Seq<u8>| tag@ + t).take(i as int),
        decreases p.states@.len() - i,
    {
        proof {
            assert(decl[i as int] =~= p.states@[i as int]@);
        }
        let mut t = copy_bytes(&tag);
        append_bytes(&mut t, p.states[i].as_slice());
        let ghost prev = states.deep_view();
        states.push(t);
        i = i + 1;
        assert(states.deep_view() =~~= prev.push(t@));
        assert(prev.push(t@) =~~= decl.map_values(|t: Seq<u8>| tag@ + t).take(i as int));
    }
    proof {
        let m = decl.map_values(|t: Seq<u8>| tag@ + t);
        assert(m.take(m.len() as int) =~= m);
    }

    let mut init = copy_bytes(&tag);
    append_bytes(&mut init, p.init.as_slice());

    let finals: Option<Vec<Vec<u8>>> = match &p.finals {
        None => None,
        Some(f) => {
            let mut nf: Vec<Vec<u8>> = Vec::new();
            let mut j: usize = 0;
            while j < f.len()
                invariant
                    j <= f@.len(),
                    tag@ == tag_of(k as int),
                    decl == p.states.deep_view(),
                    nf.deep_view() =~~= f.deep_view().map_values(
                        |t: Seq<u8>| rename_tok(decl, tag@, t),
                    ).take(j as int),
                decreases f@.len() - j,
            {
                proof {
                    assert(f.deep_view()[j as int] =~= f@[j as int]@);
                }
                let t = rename_tok_exec(&p.states, &tag, &f[j]);
                let ghost prev = nf.deep_view();
                nf.push(t);
                j = j + 1;
                assert(nf.deep_view() =~~= prev.push(t@));
                assert(prev.push(t@) =~~= f.deep_view().map_values(
                    |t: Seq<u8>| rename_tok(decl, tag@, t),
                ).take(j as int));
            }
            proof {
                let m = f.deep_view().map_values(|t: Seq<u8>| rename_tok(decl, tag@, t));
                assert(m.take(m.len() as int) =~= m);
            }
            Some(nf)
        },
    };

    let mut rows: Vec<RawRow> = Vec::new();
    let mut j: usize = 0;
    while j < p.rows.len()
        invariant
            j <= p.rows@.len(),
            tag@ == tag_of(k as int),
            decl == p.states.deep_view(),
            rows@.map_values(|r: RawRow| r@) =~~= p.rows@.map_values(|r: RawRow| r@).map_values(
                |r: RawRowV| rename_row(decl, tag@, r),
            ).take(j as int),
        decreases p.rows@.len() - j,
    {
        let row = rename_row_exec(&p.states, &tag, &p.rows[j]);
        let ghost prev = rows@.map_values(|r: RawRow| r@);
        let ghost rv = row@;
        rows.push(row);
        j = j + 1;
        assert(rows@.map_values(|r: RawRow| r@) =~~= prev.push(rv));
        assert(prev.push(rv) =~~= p.rows@.map_values(|r: RawRow| r@).map_values(
            |r: RawRowV| rename_row(decl, tag@, r),
        ).take(j as int));
    }
    proof {
        let m = p.rows@.map_values(|r: RawRow| r@).map_values(
            |r: RawRowV| rename_row(decl, tag@, r),
        );
        assert(m.take(m.len() as int) =~= m);
    }

    let out = MachineParts { states, syms: copy_tokens(&p.syms), init, finals, rows };
    proof {
        assert(out@.rows =~~= rename_parts(p@, k as int).rows);
        assert(out@.states =~~= rename_parts(p@, k as int).states);
    }
    out
}

/// Rows with every halt-marker next-state retargeted: patching the "stop"
/// edge into a "continue" edge, structurally, in the next-state field only.
pub open spec fn patch_next(rows: Seq<RawRowV>, target: Seq<u8>) -> Seq<RawRowV> {
    rows.map_values(
        |r: RawRowV| RawRowV {
            next: if r.next == halt_name() {
                target
            } else {
                r.next
            },
            ..r
        },
    )
}

fn patch_next_exec(rows: &Vec<RawRow>, target: &Vec<u8>) -> (out: Vec<RawRow>)
    ensures
        out@.map_values(|r: RawRow| r@) == patch_next(rows@.map_values(|r: RawRow| r@), target@),
{
    let mut out: Vec<RawRow> = Vec::new();
    let mut i: usize = 0;
    while i < rows.len()
        invariant
            i <= rows@.len(),
            out@.map_values(|r: RawRow| r@) =~~= patch_next(
                rows@.map_values(|r: RawRow| r@),
                target@,
            ).take(i as int),
        decreases rows@.len() - i,
    {
        let r = &rows[i];
        let next = if bytes_eq(r.next.as_slice(), crate::grammar::halt_name_vec().as_slice()) {
            copy_bytes(target)
        } else {
            copy_bytes(&r.next)
        };
        let nr = RawRow {
            ssel: copy_tokens(&r.ssel),
            ysel: copy_tokens(&r.ysel),
            next,
            write: copy_bytes(&r.write),
            dir: copy_bytes(&r.dir),
        };
        let ghost prev = out@.map_values(|r: RawRow| r@);
        let ghost nv = nr@;
        out.push(nr);
        i = i + 1;
        assert(out@.map_values(|r: RawRow| r@) =~~= prev.push(nv));
        assert(prev.push(nv) =~~= patch_next(rows@.map_values(|r: RawRow| r@), target@).take(
            i as int,
        ));
    }
    proof {
        let m = patch_next(rows@.map_values(|r: RawRow| r@), target@);
        assert(m.take(m.len() as int) =~= m);
    }
    out
}

/// The token union: elements of `inc` at or after `i` appended to `acc` in
/// first-seen order, duplicates dropped.
pub open spec fn union_from(acc: Seq<Seq<u8>>, inc: Seq<Seq<u8>>, i: int) -> Seq<Seq<u8>>
    decreases inc.len() - i,
{
    if i < 0 || i >= inc.len() {
        acc
    } else {
        union_from(
            if has_tok(acc, inc[i]) {
                acc
            } else {
                acc.push(inc[i])
            },
            inc,
            i + 1,
        )
    }
}

fn union_exec(acc: &mut Vec<Vec<u8>>, inc: &Vec<Vec<u8>>)
    ensures
        final(acc).deep_view() == union_from(old(acc).deep_view(), inc.deep_view(), 0),
{
    let mut i: usize = 0;
    while i < inc.len()
        invariant
            i <= inc@.len(),
            union_from(old(acc).deep_view(), inc.deep_view(), 0) == union_from(
                acc.deep_view(),
                inc.deep_view(),
                i as int,
            ),
        decreases inc@.len() - i,
    {
        proof {
            assert(inc.deep_view()[i as int] =~= inc@[i as int]@);
        }
        let ghost prev = acc.deep_view();
        if !has_tok_exec(acc, inc[i].as_slice()) {
            let t = copy_bytes(&inc[i]);
            acc.push(t);
            assert(acc.deep_view() =~~= prev.push(inc.deep_view()[i as int]));
        }
        i = i + 1;
    }
}

/// The canonical serialized name of the state at index `i`: `q<i>`.
pub open spec fn q_of(i: int) -> Seq<u8> {
    seq![113u8] + dec_digits(i as nat)
}

fn q_of_vec(i: usize) -> (r: Vec<u8>)
    ensures
        r@ == q_of(i as int),
{
    let mut r: Vec<u8> = Vec::new();
    r.push(113);
    let d = u64_to_dec(i as u64);
    append_bytes(&mut r, d.as_slice());
    assert(r@ =~= q_of(i as int));
    r
}

/// A token under canonical serialization: a declared state name becomes
/// `q<index>`, anything else is untouched.
pub open spec fn q_tok(states: Seq<Seq<u8>>, t: Seq<u8>) -> Seq<u8> {
    let k = crate::token::idx_of(states, t);
    if k < states.len() {
        q_of(k)
    } else {
        t
    }
}

fn q_tok_exec(states: &Vec<Vec<u8>>, t: &Vec<u8>) -> (r: Vec<u8>)
    ensures
        r@ == q_tok(states.deep_view(), t@),
{
    let k = crate::token::idx_of_exec(states, t.as_slice());
    if k < states.len() {
        q_of_vec(k)
    } else {
        copy_bytes(t)
    }
}

/// A selector atom under canonical serialization, both sides of a range.
pub open spec fn q_atom(states: Seq<Seq<u8>>, a: Seq<u8>) -> Seq<u8> {
    let d = find_byte_from(a, 45, 0);
    if d >= a.len() {
        q_tok(states, a)
    } else {
        q_tok(states, a.take(d)) + seq![45u8] + q_tok(states, a.skip(d + 1))
    }
}

fn q_atom_exec(states: &Vec<Vec<u8>>, a: &Vec<u8>) -> (r: Vec<u8>)
    ensures
        r@ == q_atom(states.deep_view(), a@),
{
    let d = crate::token::find_byte_exec(a.as_slice(), 45, 0);
    if d == a.len() {
        q_tok_exec(states, a)
    } else {
        let a1 = copy_range(a.as_slice(), 0, d);
        let a2 = copy_range(a.as_slice(), d + 1, a.len());
        proof {
            assert(a1@ =~= a@.take(d as int));
            assert(a2@ =~= a@.skip(d as int + 1));
        }
        let mut r = q_tok_exec(states, &a1);
        r.push(45);
        let right = q_tok_exec(states, &a2);
        append_bytes(&mut r, right.as_slice());
        assert(r@ =~= q_atom(states.deep_view(), a@));
        r
    }
}

/// A row under canonical serialization.
pub open spec fn q_row(states: Seq<Seq<u8>>, r: RawRowV) -> RawRowV {
    RawRowV {
        ssel: r.ssel.map_values(|a: Seq<u8>| q_atom(states, a)),
        ysel: r.ysel,
        next: q_tok(states, r.next),
        write: r.write,
        dir: r.dir,
    }
}

fn q_row_exec(states: &Vec<Vec<u8>>, r: &RawRow) -> (out: RawRow)
    ensures
        out@ == q_row(states.deep_view(), r@),
{
    let mut ssel: Vec<Vec<u8>> = Vec::new();
    let mut i: usize = 0;
    while i < r.ssel.len()
        invariant
            i <= r.ssel@.len(),
            ssel.deep_view() =~~= r.ssel.deep_view().map_values(
                |a: Seq<u8>| q_atom(states.deep_view(), a),
            ).take(i as int),
        decreases r.ssel@.len() - i,
    {
        proof {
            assert(r.ssel.deep_view()[i as int] =~= r.ssel@[i as int]@);
        }
        let a = q_atom_exec(states, &r.ssel[i]);
        let ghost prev = ssel.deep_view();
        ssel.push(a);
        i = i + 1;
        assert(ssel.deep_view() =~~= prev.push(a@));
        assert(prev.push(a@) =~~= r.ssel.deep_view().map_values(
            |a: Seq<u8>| q_atom(states.deep_view(), a),
        ).take(i as int));
    }
    proof {
        let m = r.ssel.deep_view().map_values(|a: Seq<u8>| q_atom(states.deep_view(), a));
        assert(m.take(m.len() as int) =~= m);
    }
    RawRow {
        ssel,
        ysel: copy_tokens(&r.ysel),
        next: q_tok_exec(states, &r.next),
        write: copy_bytes(&r.write),
        dir: copy_bytes(&r.dir),
    }
}

/// The serialized text of one row: comma-joined selectors and the three
/// effect fields, space-separated.
pub open spec fn row_text(r: RawRowV) -> Seq<u8> {
    join(r.ssel, 44) + seq![32u8] + join(r.ysel, 44) + seq![32u8] + r.next + seq![32u8] + r.write
        + seq![32u8] + r.dir
}

fn row_text_exec(r: &RawRow) -> (out: Vec<u8>)
    ensures
        out@ == row_text(r@),
{
    let mut out = join_exec(&r.ssel, 44);
    out.push(32);
    let y = join_exec(&r.ysel, 44);
    append_bytes(&mut out, y.as_slice());
    out.push(32);
    append_bytes(&mut out, r.next.as_slice());
    out.push(32);
    append_bytes(&mut out, r.write.as_slice());
    out.push(32);
    append_bytes(&mut out, r.dir.as_slice());
    assert(out@ =~= row_text(r@));
    out
}

/// The serialized table section: one line per row, at or after row `i`.
pub open spec fn rows_text_from(rows: Seq<RawRowV>, i: int) -> Seq<u8>
    decreases rows.len() - i,
{
    if i < 0 || i >= rows.len() {
        Seq::empty()
    } else {
        row_text(rows[i]) + seq![10u8] + rows_text_from(rows, i + 1)
    }
}

/// The serialized text of a merged definition: the state list renamed to
/// canonical `q<i>` names (with every reference rewritten consistently),
/// then the symbol list, the final-state set when one is declared, the
/// initial state, and the table.
pub open spec fn spec_serialize(p: MachinePartsV) -> Seq<u8> {
    let qstates = Seq::new(p.states.len(), |i: int| q_of(i));
    crate::parts::kw_states() + seq![32u8] + join(qstates, 32) + seq![10u8]
        + crate::parts::kw_syms() + seq![32u8] + join(p.syms, 32) + seq![10u8] + (match p.finals {
        Some(f) => crate::parts::kw_finalstates() + seq![32u8] + join(
            f.map_values(|t: Seq<u8>| q_tok(p.states, t)),
            32,
        ) + seq![10u8],
        None => Seq::empty(),
    }) + crate::parts::kw_initstate() + seq![32u8] + q_tok(p.states, p.init) + seq![10u8]
        + crate::parts::kw_table() + seq![10u8] + rows_text_from(
        p.rows.map_values(|r: RawRowV| q_row(p.states, r)),
        0,
    )
}

/// Serialize a merged definition back to definition-language text.
pub fn serialize_machine(p: &MachineParts) -> (out: Vec<u8>)
    ensures
        out@ == spec_serialize(p@),
{
    let ghost pv = p@;

    // The canonical state names, in index order.
    let mut qstates: Vec<Vec<u8>> = Vec::new();
    let mut i: usize = 0;
    while i < p.states.len()
        invariant
            i <= p.states@.len(),
            qstates.deep_view() =~~= Seq::new(i as nat, |t: int| q_of(t)),
        decreases p.states@.len() - i,
    {
        let ghost prev = qstates.deep_view();
        let q = q_of_vec(i);
        qstates.push(q);
        i = i + 1;
        assert(qstates.deep_view() =~~= prev.push(q@));
        assert(prev.push(q@) =~~= Seq::new(i as nat, |t: int| q_of(t)));
    }

    let mut out = crate::parts::kw_states_vec();
    out.push(32);
    let js = join_exec(&qstates, 32);
    append_bytes(&mut out, js.as_slice());
    out.push(10);
    assert(out@ =~= crate::parts::kw_states() + seq![32u8] + join(
        Seq::new(pv.states.len(), |t: int| q_of(t)),
        32,
    ) + seq![10u8]);
    let ghost part1 = out@;

    let ks = crate::parts::kw_syms_vec();
    append_bytes(&mut out, ks.as_slice());
    out.push(32);
    let jy = join_exec(&p.syms, 32);
    append_bytes(&mut out, jy.as_slice());
    out.push(10);
    assert(out@ =~= part1 + crate::parts::kw_syms() + seq![32u8] + join(pv.syms, 32)
        + seq![10u8]);
    let ghost part2 = out@;

    match &p.finals {
        None => {
            assert(out@ =~= part2 + Seq::<u8>::empty());
        },
        Some(f) => {
            let mut qf: Vec<Vec<u8>> = Vec::new();
            let mut j: usize = 0;
            while j < f.len()
                invariant
                    j <= f@.len(),
                    qf.deep_view() =~~= f.deep_view().map_values(
                        |t: Seq<u8>| q_tok(p.states.deep_view(), t),
                    ).take(j as int),
                decreases f@.len() - j,
            {
                proof {
                    assert(f.deep_view()[j as int] =~= f@[j as int]@);
                }
                let t = q_tok_exec(&p.states, &f[j]);
                let ghost prev = qf.deep_view();
                qf.push(t);
                j = j + 1;
                assert(qf.deep_view() =~~= prev.push(t@));
                assert(prev.push(t@) =~~= f.deep_view().map_values(
                    |t: Seq<u8>| q_tok(p.states.deep_view(), t),
                ).take(j as int));
            }
            proof {
                let m = f.deep_view().map_values(|t: Seq<u8>| q_tok(p.states.deep_view(), t));
                assert(m.take(m.len() as int) =~= m);
            }
            let kf = crate::parts::kw_finalstates_vec();
            append_bytes(&mut out, kf.as_slice());
            out.push(32);
            let jf = join_exec(&qf, 32);
            append_bytes(&mut out, jf.as_slice());
            out.push(10);
            assert(out@ =~= part2 + (crate::parts::kw_finalstates() + seq![32u8] + join(
                f.deep_view().map_values(|t: Seq<u8>| q_tok(p.states.deep_view(), t)),
                32,
            ) + seq![10u8]));
        },
    }
    let ghost part3 = out@;

    let ki = crate::parts::kw_initstate_vec();
    append_bytes(&mut out, ki.as_slice());
    out.push(32);
    let qi = q_tok_exec(&p.states, &p.init);
    append_bytes(&mut out, qi.as_slice());
    out.push(10);
    let kt = crate::parts::kw_table_vec();
    append_bytes(&mut out, kt.as_slice());
    out.push(10);
    assert(out@ =~= part3 + crate::parts::kw_initstate() + seq![32u8] + q_tok(
        pv.states,
        pv.init,
    ) + seq![10u8] + crate::parts::kw_table() + seq![10u8]);
    let ghost part4 = out@;

    let ghost qrows = pv.rows.map_values(|r: RawRowV| q_row(pv.states, r));
    let mut j: usize = 0;
    while j < p.rows.len()
        invariant
            j <= p.rows@.len(),
            qrows == p@.rows.map_values(|r: RawRowV| q_row(p@.states, r)),
            out@ + rows_text_from(qrows, j as int) =~= part4 + rows_text_from(qrows, 0),
        decreases p.rows@.len() - j,
    {
        let ghost prev = out@;
        let qr = q_row_exec(&p.states, &p.rows[j]);
        let rt = row_text_exec(&qr);
        append_bytes(&mut out, rt.as_slice());
        out.push(10);
        proof {
            assert(qrows[j as int] == q_row(p@.states, p@.rows[j as int]));
            assert(out@ =~= prev + (row_text(qrows[j as int]) + seq![10u8]));
        }
        j = j + 1;
    }
    assert(out@ + Seq::<u8>::empty() =~= out@);
    proof {
        assert(out@ =~= spec_serialize(pv));
    }
    out
}

/// One sequencing step: rename the successor into its own namespace,
/// retarget every halt edge of the accumulated machine at the successor's
/// initial state, and merge states, symbols, rows and the final-state set.
pub open spec fn merge_one(acc: MachinePartsV, p: MachinePartsV, k: int) -> MachinePartsV {
    let q = rename_parts(p, k);
    MachinePartsV {
        states: acc.states + q.states,
        syms: union_from(acc.syms, q.syms, 0),
        init: acc.init,
        finals: q.finals,
        rows: patch_next(acc.rows, q.init) + q.rows,
    }
}

/// Sequencing of the texts at or after `i` onto an accumulated machine.
pub open spec fn spec_chain_from(acc: MachinePartsV, texts: Seq<Seq<u8>>, i: int) -> Result<
    MachinePartsV,
    ParseErrorV,
>
    decreases texts.len() - i,
{
    if i < 0 || i >= texts.len() {
        Ok(acc)
    } else {
        match spec_parse_parts(texts[i]) {
            Err(e) => Err(e),
            Ok(p) => spec_chain_from(merge_one(acc, p, i + 1), texts, i + 1),
        }
    }
}

/// The chained machine: the first machine runs to completion, then each
/// successor in order; only the last machine's halt remains a true halt.
pub open spec fn spec_chain(first: Seq<u8>, rest: Seq<Seq<u8>>) -> Result<Seq<u8>, ParseErrorV> {
    match spec_parse_parts(first) {
        Err(e) => Err(e),
        Ok(p0) => match spec_chain_from(rename_parts(p0, 0), rest, 0) {
            Err(e) => Err(e),
            Ok(m) => Ok(spec_serialize(m)),
        },
    }
}

/// Compose machines in sequence: the result runs `machine1` to
/// completion, then each machine of `machines` in order, by retargeting
/// each predecessor's halt edges at its successor's initial state. The
/// result's initial state is `machine1`'s; its final-state set is the last
/// machine's, translated through renaming; symbol alphabets are unioned in
/// first-seen order.
pub fn chain(machine1: &[u8], machines: &Vec<Vec<u8>>) -> (r: Result<Vec<u8>, ParseError>)
    ensures
        r matches Ok(out) ==> spec_chain(machine1@, machines.deep_view()) == Ok::<
            Seq<u8>,
            ParseErrorV,
        >(out@),
        r matches Err(e) ==> spec_chain(machine1@, machines.deep_view()) == Err::<
            Seq<u8>,
            ParseErrorV,
        >(e@),
{
    let p0 = match parse_parts(machine1) {
        Err(e) => {
            return Err(e);
        },
        Ok(p) => p,
    };
    let mut acc = rename_parts_exec(&p0, 0);
    let ghost start = rename_parts(p0@, 0);
    let ghost mts = machines.deep_view();
    let mut i: usize = 0;
    while i < machines.len()
        invariant
            i <= machines@.len(),
            mts == machines.deep_view(),
            spec_parse_parts(machine1@) == Ok::<MachinePartsV, ParseErrorV>(p0@),
            start == rename_parts(p0@, 0),
            spec_chain_from(start, mts, 0) == spec_chain_from(acc@, mts, i as int),
        decreases machines@.len() - i,
    {
        proof {
            assert(mts[i as int] =~= machines@[i as int]@);
        }
        let p = match parse_parts(machines[i].as_slice()) {
            Err(e) => {
                return Err(e);
            },
            Ok(p) => p,
        };
        let q = rename_parts_exec(&p, (i + 1) as u64);
        let MachineParts { states: mut qs, syms: qsyms, init: qinit, finals: qfinals, rows: mut qrows } = q;
        let MachineParts { states: mut astates, syms: mut asyms, init: ainit, finals: _afinals, rows: arows } = acc;
        let ghost accv = MachinePartsV {
            states: astates.deep_view(),
            syms: asyms.deep_view(),
            init: ainit@,
            finals: match _afinals {
                Some(f) => Some(f.deep_view()),
                None => None,
            },
            rows: arows@.map_values(|r: RawRow| r@),
        };
        let mut rows = patch_next_exec(&arows, &qinit);
        rows.append(&mut qrows);
        astates.append(&mut qs);
        union_exec(&mut asyms, &qsyms);
        acc = MachineParts { states: astates, syms: asyms, init: ainit, finals: qfinals, rows };
        proof {
            assert(acc@.rows =~~= merge_one(accv, p@, i as int + 1).rows);
            assert(acc@.states =~~= merge_one(accv, p@, i as int + 1).states);
            assert(acc@ == merge_one(accv, p@, i as int + 1));
        }
        i = i + 1;
    }
    Ok(serialize_machine(&acc))
}

/// Branch-merging of machine texts: parse, rename and merge each machine
/// at or after `i` into the accumulator, collecting each renamed initial
/// state in order.
pub open spec fn spec_branch_from(
    acc: MachinePartsV,
    inits: Seq<Seq<u8>>,
    texts: Seq<Seq<u8>>,
    i: int,
) -> Result<(MachinePartsV, Seq<Seq<u8>>), ParseErrorV>
    decreases texts.len() - i,
{
    if i < 0 || i >= texts.len() {
        Ok((acc, inits))
    } else {
        match spec_parse_parts(texts[i]) {
            Err(e) => Err(e),
            Ok(p) => {
                let q = rename_parts(p, i + 1);
                spec_branch_from(
                    MachinePartsV {
                        states: acc.states + q.states,
                        syms: union_from(acc.syms, q.syms, 0),
                        init: acc.init,
                        finals: None,
                        rows: acc.rows + q.rows,
                    },
                    inits.push(q.init),
                    texts,
                    i + 1,
                )
            },
        }
    }
}

/// The dispatch rows of a branch, one per (symbol, machine) pair up to the
/// shorter list: on that exact symbol, jump to that machine's initial
/// state, write nothing new, move right.
pub open spec fn dispatch_rows(bsyms: Seq<Seq<u8>>, inits: Seq<Seq<u8>>, i: int) -> Seq<RawRowV>
    decreases bsyms.len() + inits.len() - i,
{
    let n: int = if bsyms.len() <= inits.len() {
        bsyms.len() as int
    } else {
        inits.len() as int
    };
    if i < 0 || i >= n {
        Seq::empty()
    } else {
        seq![
            RawRowV {
                ssel: seq![branch_name()],
                ysel: seq![bsyms[i]],
                next: inits[i],
                write: dot_tok(),
                dir: seq![82u8],
            },
        ] + dispatch_rows(bsyms, inits, i + 1)
    }
}

/// The entry machine prepared for branching: renamed into its namespace,
/// every halt edge retargeted at the synthetic dispatch state, the
/// dispatch state appended, the branch symbols unioned in.
pub open spec fn branch_base(p0: MachinePartsV, bsyms: Seq<Seq<u8>>) -> MachinePartsV {
    let q0 = rename_parts(p0, 0);
    MachinePartsV {
        states: q0.states.push(branch_name()),
        syms: union_from(q0.syms, bsyms, 0),
        init: q0.init,
        finals: None,
        rows: patch_next(q0.rows, branch_name()),
    }
}

/// The branched machine: the entry runs to completion into a synthetic
/// dispatch state; each listed symbol routes to its machine's initial
/// state; a symbol with no dispatch rule halts implicitly.
pub open spec fn spec_branch(entry: Seq<u8>, bsyms: Seq<Seq<u8>>, texts: Seq<Seq<u8>>) -> Result<
    Seq<u8>,
    ParseErrorV,
> {
    match spec_parse_parts(entry) {
        Err(e) => Err(e),
        Ok(p0) => {
            match spec_branch_from(branch_base(p0, bsyms), Seq::empty(), texts, 0) {
                Err(e) => Err(e),
                Ok((m, inits)) => Ok(
                    spec_serialize(
                        MachinePartsV { rows: m.rows + dispatch_rows(bsyms, inits, 0), ..m },
                    ),
                ),
            }
        },
    }
}

/// Compose an N-way branch: run `entry` to completion, then dispatch on
/// the symbol under the head. For each (symbol, machine) pair, the symbol
/// routes right into that machine's initial state; any other symbol halts
/// with no further transition.
pub fn branch(entry: &[u8], branch_syms: &Vec<Vec<u8>>, machines: &Vec<Vec<u8>>) -> (r: Result<
    Vec<u8>,
    ParseError,
>)
    ensures
        r matches Ok(out) ==> spec_branch(entry@, branch_syms.deep_view(), machines.deep_view())
            == Ok::<Seq<u8>, ParseErrorV>(out@),
        r matches Err(e) ==> spec_branch(entry@, branch_syms.deep_view(), machines.deep_view())
            == Err::<Seq<u8>, ParseErrorV>(e@),
{
    let ghost bsv = branch_syms.deep_view();
    let ghost mts = machines.deep_view();
    let p0 = match parse_parts(entry) {
        Err(e) => {
            return Err(e);
        },
        Ok(p) => p,
    };
    let q0 = rename_parts_exec(&p0, 0);
    let MachineParts { states: mut states, syms: mut syms, init, finals: _f0, rows: rows0 } = q0;
    let bn = branch_name_vec();
    let rows = patch_next_exec(&rows0, &bn);
    states.push(bn);
    union_exec(&mut syms, branch_syms);
    let mut acc = MachineParts { states, syms, init, finals: None, rows };
    let ghost base = branch_base(p0@, bsv);
    proof {
        assert(acc@.states =~~= base.states);
        assert(acc@ == base);
    }
    let mut inits: Vec<Vec<u8>> = Vec::new();
    assert(inits.deep_view() =~= Seq::<Seq<u8>>::empty());
    let mut i: usize = 0;
    while i < machines.len()
        invariant
            i <= machines@.len(),
            mts == machines.deep_view(),
            spec_parse_parts(entry@) == Ok::<MachinePartsV, ParseErrorV>(p0@),
            bsv == branch_syms.deep_view(),
            base == branch_base(p0@, bsv),
            acc@.finals == None::<Seq<Seq<u8>>>,
            spec_branch_from(base, Seq::empty(), mts, 0) == spec_branch_from(
                acc@,
                inits.deep_view(),
                mts,
                i as int,
            ),
        decreases machines@.len() - i,
    {
        proof {
            assert(mts[i as int] =~= machines@[i as int]@);
        }
        let p = match parse_parts(machines[i].as_slice()) {
            Err(e) => {
                return Err(e);
            },
            Ok(p) => p,
        };
        let q = rename_parts_exec(&p, (i + 1) as u64);
        let MachineParts { states: mut qs, syms: qsyms, init: qinit, finals: _qf, rows: mut qrows } = q;
        let MachineParts { states: mut astates, syms: mut asyms, init: ainit, finals: _af, rows: mut arows } = acc;
        let ghost accv = MachinePartsV {
            states: astates.deep_view(),
            syms: asyms.deep_view(),
            init: ainit@,
            finals: None,
            rows: arows@.map_values(|r: RawRow| r@),
        };
        let ghost initsv = inits.deep_view();
        astates.append(&mut qs);
        union_exec(&mut asyms, &qsyms);
        arows.append(&mut qrows);
        inits.push(qinit);
        acc = MachineParts { states: astates, syms: asyms, init: ainit, finals: None, rows: arows };
        proof {
            assert(acc@.states =~~= accv.states + rename_parts(p@, i as int + 1).states);
            assert(acc@.rows =~~= accv.rows + rename_parts(p@, i as int + 1).rows);
            assert(inits.deep_view() =~~= initsv.push(rename_parts(p@, i as int + 1).init));
        }
        i = i + 1;
    }
    // Dispatch rows, one per (symbol, machine) pair up to the shorter list.
    let n = if branch_syms.len() <= inits.len() {
        branch_syms.len()
    } else {
        inits.len()
    };
    let ghost initsv = inits.deep_view();
    let mut drows: Vec<RawRow> = Vec::new();
    let mut j: usize = 0;
    while j < n
        invariant
            j <= n,
            initsv == inits.deep_view(),
            n == if bsv.len() <= initsv.len() {
                bsv.len() as int
            } else {
                initsv.len() as int
            },
            bsv == branch_syms.deep_view(),
            drows@.map_values(|r: RawRow| r@) + dispatch_rows(bsv, initsv, j as int)
                =~= dispatch_rows(bsv, initsv, 0),
        decreases n - j,
    {
        proof {
            assert(bsv[j as int] =~= branch_syms@[j as int]@);
            assert(initsv[j as int] =~= inits@[j as int]@);
        }
        let mut ssel: Vec<Vec<u8>> = Vec::new();
        ssel.push(branch_name_vec());
        let mut ysel: Vec<Vec<u8>> = Vec::new();
        ysel.push(copy_bytes(&branch_syms[j]));
        let dr = RawRow {
            ssel,
            ysel,
            next: copy_bytes(&inits[j]),
            write: dot_vec(),
            dir: {
                let k: [u8; 1] = [82];
                copy_range(k.as_slice(), 0, 1)
            },
        };
        let ghost prev = drows@.map_values(|r: RawRow| r@);
        let ghost dv = dr@;
        proof {
            assert(dv.ssel =~~= seq![branch_name()]);
            assert(dv.ysel =~~= seq![bsv[j as int]]);
            assert(dv.next =~= initsv[j as int]);
            assert(dv.dir =~= seq![82u8]);
            assert(dispatch_rows(bsv, initsv, j as int) == seq![
                RawRowV {
                    ssel: seq![branch_name()],
                    ysel: seq![bsv[j as int]],
                    next: initsv[j as int],
                    write: dot_tok(),
                    dir: seq![82u8],
                },
            ] + dispatch_rows(bsv, initsv, j as int + 1));
            assert(dv == dispatch_rows(bsv, initsv, j as int)[0]);
        }
        drows.push(dr);
        j = j + 1;
        assert(drows@.map_values(|r: RawRow| r@) =~= prev.push(dv));
        assert(prev.push(dv) + dispatch_rows(bsv, initsv, j as int) =~= prev + dispatch_rows(
            bsv,
            initsv,
            j - 1,
        ));
    }
    assert(dispatch_rows(bsv, initsv, n as int) =~= Seq::<RawRowV>::empty());
    assert(drows@.map_values(|r: RawRow| r@) =~= dispatch_rows(bsv, initsv, 0));
    let MachineParts { states, syms, init, finals: _f, rows: mut rows } = acc;
    let ghost accrows = rows@.map_values(|r: RawRow| r@);
    rows.append(&mut drows);
    let outp = MachineParts { states, syms, init, finals: None, rows };
    proof {
        assert(outp@.rows =~= accrows + dispatch_rows(bsv, initsv, 0));
        if let Ok((m, ins)) = spec_branch_from(base, Seq::empty(), mts, 0) {
            assert(outp@.states == m.states);
            assert(outp@.syms == m.syms);
            assert(outp@.init == m.init);
            assert(outp@.finals == m.finals);
            assert(outp@.rows =~= m.rows + dispatch_rows(bsv, ins, 0));
            assert(outp@ == MachinePartsV { rows: m.rows + dispatch_rows(bsv, ins, 0), ..m });
        }
    }
    Ok(serialize_machine(&outp))
}

/// The looping machine: the entry runs to completion into a synthetic
/// check state; a loop symbol under the head jumps back to the entry's
/// initial state without moving; a wildcard fallback, declared after the
/// loop rule so first-match precedence keeps it a catch-all, halts on
/// every other symbol. With no loop symbols only the fallback is emitted.
pub open spec fn spec_loop_while(entry: Seq<u8>, lsyms: Seq<Seq<u8>>) -> Result<
    Seq<u8>,
    ParseErrorV,
> {
    match spec_parse_parts(entry) {
        Err(e) => Err(e),
        Ok(p0) => {
            let q = rename_parts(p0, 0);
            let back_row = RawRowV {
                ssel: seq![check_name()],
                ysel: lsyms,
                next: q.init,
                write: dot_tok(),
                dir: seq![78u8],
            };
            let halt_row = RawRowV {
                ssel: seq![check_name()],
                ysel: seq![star_tok()],
                next: halt_name(),
                write: dot_tok(),
                dir: seq![78u8],
            };
            let rows = patch_next(q.rows, check_name()) + (if lsyms.len() > 0 {
                seq![back_row]
            } else {
                Seq::empty()
            }) + seq![halt_row];
            Ok(
                spec_serialize(
                    MachinePartsV {
                        states: q.states.push(check_name()),
                        syms: union_from(q.syms, lsyms, 0),
                        init: q.init,
                        finals: None,
                        rows,
                    },
                ),
            )
        },
    }
}

/// Compose a loop: run `entry` to completion, then, while the symbol under
/// the head is one of `loop_syms`, re-run the entry's body from its
/// initial state with the head unmoved; halt the first time it is not.
pub fn loop_while(entry: &[u8], loop_syms: &Vec<Vec<u8>>) -> (r: Result<Vec<u8>, ParseError>)
    ensures
        r matches Ok(out) ==> spec_loop_while(entry@, loop_syms.deep_view()) == Ok::<
            Seq<u8>,
            ParseErrorV,
        >(out@),
        r matches Err(e) ==> spec_loop_while(entry@, loop_syms.deep_view()) == Err::<
            Seq<u8>,
            ParseErrorV,
        >(e@),
{
    let p0 = match parse_parts(entry) {
        Err(e) => {
            return Err(e);
        },
        Ok(p) => p,
    };
    let q = rename_parts_exec(&p0, 0);
    let MachineParts { states: mut states, syms: mut syms, init, finals: _f, rows: rows0 } = q;
    let cn = check_name_vec();
    let mut rows = patch_next_exec(&rows0, &cn);
    let ghost patched = rows@.map_values(|r: RawRow| r@);
    if loop_syms.len() > 0 {
        let mut ssel: Vec<Vec<u8>> = Vec::new();
        ssel.push(check_name_vec());
        let back = RawRow {
            ssel,
            ysel: copy_tokens(loop_syms),
            next: copy_bytes(&init),
            write: dot_vec(),
            dir: {
                let k: [u8; 1] = [78];
                copy_range(k.as_slice(), 0, 1)
            },
        };
        proof {
            assert(back@.ssel =~~= seq![check_name()]);
            assert(back@.dir =~= seq![78u8]);
        }
        let ghost backv = back@;
        rows.push(back);
        assert(rows@.map_values(|r: RawRow| r@) =~= patched.push(backv));
    }
    let mut hssel: Vec<Vec<u8>> = Vec::new();
    hssel.push(check_name_vec());
    let mut hysel: Vec<Vec<u8>> = Vec::new();
    hysel.push(star_vec());
    let halt_row = RawRow {
        ssel: hssel,
        ysel: hysel,
        next: halt_vec(),
        write: dot_vec(),
        dir: {
            let k: [u8; 1] = [78];
            copy_range(k.as_slice(), 0, 1)
        },
    };
    proof {
        assert(halt_row@.ssel =~~= seq![check_name()]);
        assert(halt_row@.ysel =~~= seq![star_tok()]);
        assert(halt_row@.dir =~= seq![78u8]);
    }
    let ghost hv = halt_row@;
    let ghost before_halt = rows@.map_values(|r: RawRow| r@);
    rows.push(halt_row);
    assert(rows@.map_values(|r: RawRow| r@) =~= before_halt.push(hv));
    states.push(cn);
    union_exec(&mut syms, loop_syms);
    let outp = MachineParts { states, syms, init, finals: None, rows };
    proof {
        let qv = rename_parts(p0@, 0);
        let back_row = RawRowV {
            ssel: seq![check_name()],
            ysel: loop_syms.deep_view(),
            next: qv.init,
            write: dot_tok(),
            dir: seq![78u8],
        };
        let halt_rowv = RawRowV {
            ssel: seq![check_name()],
            ysel: seq![star_tok()],
            next: halt_name(),
            write: dot_tok(),
            dir: seq![78u8],
        };
        let expect_rows = patch_next(qv.rows, check_name()) + (if loop_syms.deep_view().len() > 0 {
            seq![back_row]
        } else {
            Seq::<RawRowV>::empty()
        }) + seq![halt_rowv];
        assert(outp@.rows =~= expect_rows);
        assert(outp@.states =~~= qv.states.push(check_name()));
    }
    Ok(serialize_machine(&outp))
}

} // verus!
