//! Interning and resolution: a name-level definition becomes a `Grammar`
//! with dense state and symbol indices and a resolved transition table.
//!
//! Index 0 of the state list is always the implicit halting state `HALT`;
//! index 0 of the symbol list is always the blank symbol `_`; declared
//! names follow in declaration order. A name is looked up as its first
//! index in the list. Each table row expands to the Cartesian product of
//! its two selector sets, and a pair is bound only if no earlier row bound
//! it: the first declared rule wins.

use vstd::prelude::*;

use crate::error::{ParseError, ParseErrorV};
use crate::parts::{MachinePartsV, RawRowV};
use crate::token::{
    bytes_eq, copy_bytes, dec_digits, find_byte_from, idx_of, idx_of_exec, lower_seq,
    spec_parse_dec, copy_range, parse_dec, to_lower,
};

use std::collections::HashMap;

verus! {

broadcast use vstd::std_specs::hash::group_hash_axioms;

/// Head movement of one transition.
#[derive(Clone, Copy, Debug, PartialEq, Eq, Structural)]
pub enum Dir {
    Left,
    Right,
    Stay,
}

/// One resolved transition: target state, symbol to write, head movement.
#[derive(Clone, Copy, Debug, PartialEq, Eq, Structural)]
pub struct Step {
    pub next: usize,
    pub write: usize,
    pub dir: Dir,
}

/// The implicit halting state, always interned at index 0.
pub open spec fn halt_name() -> Seq<u8> {
    seq![72u8, 65, 76, 84]
}

/// The blank symbol, always interned at index 0.
pub open spec fn blank_name() -> Seq<u8> {
    seq![95u8]
}

/// The no-change marker for next-state and write-symbol fields.
pub open spec fn dot_tok() -> Seq<u8> {
    seq![46u8]
}

/// The wildcard selector over the full declared domain.
pub open spec fn star_tok() -> Seq<u8> {
    seq![42u8]
}

pub fn halt_name_vec() -> (r: Vec<u8>)
    ensures
        r@ == halt_name(),
{
    let k: [u8; 4] = [72, 65, 76, 84];
    assert(k@ =~= halt_name());
    copy_range(k.as_slice(), 0, 4)
}

pub fn blank_name_vec() -> (r: Vec<u8>)
    ensures
        r@ == blank_name(),
{
    let k: [u8; 1] = [95];
    assert(k@ =~= blank_name());
    copy_range(k.as_slice(), 0, 1)
}

pub fn is_dot(t: &[u8]) -> (r: bool)
    ensures
        r == (t@ == dot_tok()),
{
    let k: [u8; 1] = [46];
    assert(k@ =~= dot_tok());
    bytes_eq(t, k.as_slice())
}

pub fn is_star(t: &[u8]) -> (r: bool)
    ensures
        r == (t@ == star_tok()),
{
    let k: [u8; 1] = [42];
    assert(k@ =~= star_tok());
    bytes_eq(t, k.as_slice())
}

/// Direction read from a token, case-insensitively: `l`/`left` moves left,
/// `r`/`right` moves right, anything else stays.
pub open spec fn dir_of_tok(t: Seq<u8>) -> Dir {
    let l = lower_seq(t);
    if l == seq![108u8] || l == seq![108u8, 101, 102, 116] {
        Dir::Left
    } else if l == seq![114u8] || l == seq![114u8, 105, 103, 104, 116] {
        Dir::Right
    } else {
        Dir::Stay
    }
}

pub fn dir_from_token(t: &[u8]) -> (r: Dir)
    ensures
        r == dir_of_tok(t@),
{
    let low = to_lower(t);
    let kl: [u8; 1] = [108];
    let kleft: [u8; 4] = [108, 101, 102, 116];
    let kr: [u8; 1] = [114];
    let kright: [u8; 5] = [114, 105, 103, 104, 116];
    assert(kl@ =~= seq![108u8]);
    assert(kleft@ =~= seq![108u8, 101, 102, 116]);
    assert(kr@ =~= seq![114u8]);
    assert(kright@ =~= seq![114u8, 105, 103, 104, 116]);
    if bytes_eq(low.as_slice(), kl.as_slice()) || bytes_eq(low.as_slice(), kleft.as_slice()) {
        Dir::Left
    } else if bytes_eq(low.as_slice(), kr.as_slice()) || bytes_eq(
        low.as_slice(),
        kright.as_slice(),
    ) {
        Dir::Right
    } else {
        Dir::Stay
    }
}

/// One resolved table row: the expanded state and symbol index sets and the
/// resolved effect fields (`None` meaning no change).
pub struct Row {
    pub states: Vec<usize>,
    pub syms: Vec<usize>,
    pub next: Option<usize>,
    pub write: Option<usize>,
    pub dir: Dir,
}

pub struct RowV {
    pub states: Seq<usize>,
    pub syms: Seq<usize>,
    pub next: Option<usize>,
    pub write: Option<usize>,
    pub dir: Dir,
}

impl View for Row {
    type V = RowV;

    open spec fn view(&self) -> RowV {
        RowV {
            states: self.states@,
            syms: self.syms@,
            next: self.next,
            write: self.write,
            dir: self.dir,
        }
    }
}

/// The state-name list of a definition: `HALT` first, declared names after.
pub open spec fn state_names_of(p: MachinePartsV) -> Seq<Seq<u8>> {
    seq![halt_name()] + p.states
}

/// Expansion of one declared symbol token: a numeric range `N-M` with
/// `N <= M` becomes the consecutive decimal numerals `N ..= M`; a numeric
/// range out of order is fatal; anything else is one literal symbol.
pub open spec fn expand_sym_tok(t: Seq<u8>) -> Result<Seq<Seq<u8>>, ParseErrorV> {
    let d = find_byte_from(t, 45, 0);
    if d >= t.len() {
        Ok(seq![t])
    } else {
        match (spec_parse_dec(t.take(d)), spec_parse_dec(t.skip(d + 1))) {
            (Some(lo), Some(hi)) => if lo <= hi {
                Ok(Seq::new((hi - lo + 1) as nat, |j: int| dec_digits((lo + j) as nat)))
            } else {
                Err(ParseErrorV::MalformedRange(t))
            },
            _ => Ok(seq![t]),
        }
    }
}

/// Expansion of the declared symbol tokens at or after `i`, in order.
pub open spec fn expand_syms_from(toks: Seq<Seq<u8>>, i: int) -> Result<Seq<Seq<u8>>, ParseErrorV>
    decreases toks.len() - i,
{
    if i < 0 || i >= toks.len() {
        Ok(Seq::empty())
    } else {
        match expand_sym_tok(toks[i]) {
            Err(e) => Err(e),
            Ok(s) => match expand_syms_from(toks, i + 1) {
                Err(e) => Err(e),
                Ok(rest) => Ok(s + rest),
            },
        }
    }
}

/// The symbol-name list of a definition: blank first, expansions after.
pub open spec fn sym_names_of(p: MachinePartsV) -> Result<Seq<Seq<u8>>, ParseErrorV> {
    match expand_syms_from(p.syms, 0) {
        Err(e) => Err(e),
        Ok(l) => Ok(seq![blank_name()] + l),
    }
}

pub open spec fn undeclared(t: Seq<u8>, is_state: bool) -> ParseErrorV {
    if is_state {
        ParseErrorV::UndeclaredState(t)
    } else {
        ParseErrorV::UndeclaredSymbol(t)
    }
}

/// The index set selected by one selector atom over the name list: the
/// wildcard selects the whole domain; a range `a-b` selects the consecutive
/// indices from `a`'s to `b`'s (out of order is fatal); a single token
/// selects its own index; an unresolvable token is fatal.
pub open spec fn resolve_atom(names: Seq<Seq<u8>>, a: Seq<u8>, is_state: bool) -> Result<
    Seq<usize>,
    ParseErrorV,
> {
    if a == star_tok() {
        Ok(Seq::new(names.len(), |j: int| j as usize))
    } else {
        let d = find_byte_from(a, 45, 0);
        if d >= a.len() {
            let k = idx_of(names, a);
            if k < names.len() {
                Ok(seq![k as usize])
            } else {
                Err(undeclared(a, is_state))
            }
        } else {
            let a1 = a.take(d);
            let a2 = a.skip(d + 1);
            let k1 = idx_of(names, a1);
            let k2 = idx_of(names, a2);
            if k1 >= names.len() {
                Err(undeclared(a1, is_state))
            } else if k2 >= names.len() {
                Err(undeclared(a2, is_state))
            } else if k1 > k2 {
                Err(ParseErrorV::MalformedRange(a))
            } else {
                Ok(Seq::new((k2 - k1 + 1) as nat, |j: int| (k1 + j) as usize))
            }
        }
    }
}

/// The index set selected by the selector atoms at or after `i`, in order.
pub open spec fn resolve_sel_from(
    names: Seq<Seq<u8>>,
    atoms: Seq<Seq<u8>>,
    i: int,
    is_state: bool,
) -> Result<Seq<usize>, ParseErrorV>
    decreases atoms.len() - i,
{
    if i < 0 || i >= atoms.len() {
        Ok(Seq::empty())
    } else {
        match resolve_atom(names, atoms[i], is_state) {
            Err(e) => Err(e),
            Ok(s) => match resolve_sel_from(names, atoms, i + 1, is_state) {
                Err(e) => Err(e),
                Ok(rest) => Ok(s + rest),
            },
        }
    }
}

/// Resolution of a next-state or write-symbol field: the no-change marker
/// resolves to `None`, anything else must be a declared name.
pub open spec fn resolve_field(names: Seq<Seq<u8>>, t: Seq<u8>, is_state: bool) -> Result<
    Option<usize>,
    ParseErrorV,
> {
    if t == dot_tok() {
        Ok(None)
    } else {
        let k = idx_of(names, t);
        if k < names.len() {
            Ok(Some(k as usize))
        } else {
            Err(undeclared(t, is_state))
        }
    }
}

/// Resolution of one raw row against the name lists.
pub open spec fn resolve_row(states: Seq<Seq<u8>>, syms: Seq<Seq<u8>>, r: RawRowV) -> Result<
    RowV,
    ParseErrorV,
> {
    match resolve_sel_from(states, r.ssel, 0, true) {
        Err(e) => Err(e),
        Ok(ss) => match resolve_sel_from(syms, r.ysel, 0, false) {
            Err(e) => Err(e),
            Ok(ys) => match resolve_field(states, r.next, true) {
                Err(e) => Err(e),
                Ok(next) => match resolve_field(syms, r.write, false) {
                    Err(e) => Err(e),
                    Ok(write) => Ok(
                        RowV { states: ss, syms: ys, next, write, dir: dir_of_tok(r.dir) },
                    ),
                },
            },
        },
    }
}

/// Resolution of the raw rows at or after `i`, in order.
pub open spec fn resolve_rows_from(
    states: Seq<Seq<u8>>,
    syms: Seq<Seq<u8>>,
    rows: Seq<RawRowV>,
    i: int,
) -> Result<Seq<RowV>, ParseErrorV>
    decreases rows.len() - i,
{
    if i < 0 || i >= rows.len() {
        Ok(Seq::empty())
    } else {
        match resolve_row(states, syms, rows[i]) {
            Err(e) => Err(e),
            Ok(r) => match resolve_rows_from(states, syms, rows, i + 1) {
                Err(e) => Err(e),
                Ok(rest) => Ok(seq![r] + rest),
            },
        }
    }
}

/// Resolution of the declared final-state names at or after `i`, in order.
pub open spec fn resolve_finals_from(names: Seq<Seq<u8>>, toks: Seq<Seq<u8>>, i: int) -> Result<
    Seq<usize>,
    ParseErrorV,
>
    decreases toks.len() - i,
{
    if i < 0 || i >= toks.len() {
        Ok(Seq::empty())
    } else {
        let k = idx_of(names, toks[i]);
        if k >= names.len() {
            Err(ParseErrorV::UndeclaredState(toks[i]))
        } else {
            match resolve_finals_from(names, toks, i + 1) {
                Err(e) => Err(e),
                Ok(rest) => Ok(seq![k as usize] + rest),
            }
        }
    }
}

/// Whether a resolved row binds the pair `(s, y)`.
pub open spec fn row_covers(r: RowV, s: usize, y: usize) -> bool {
    r.states.contains(s) && r.syms.contains(y)
}

/// The transition a resolved row gives the pair `(s, y)`: a `None` field
/// keeps the current state or the read symbol.
pub open spec fn row_effect(r: RowV, s: usize, y: usize) -> Step {
    Step {
        next: match r.next {
            Some(n) => n,
            None => s,
        },
        write: match r.write {
            Some(w) => w,
            None => y,
        },
        dir: r.dir,
    }
}

/// The transition bound to `(s, y)` by the first covering row among the
/// first `n` rows, if any: the first declared rule wins.
pub open spec fn first_match_upto(rows: Seq<RowV>, n: int, s: usize, y: usize) -> Option<Step>
    decreases n,
{
    if n <= 0 {
        None
    } else {
        match first_match_upto(rows, n - 1, s, y) {
            Some(st) => Some(st),
            None => if n - 1 < rows.len() && row_covers(rows[n - 1], s, y) {
                Some(row_effect(rows[n - 1], s, y))
            } else {
                None
            },
        }
    }
}

/// The transition bound to `(s, y)` by the whole row list.
pub open spec fn first_match(rows: Seq<RowV>, s: usize, y: usize) -> Option<Step> {
    first_match_upto(rows, rows.len() as int, s, y)
}

/// The transition table induced by a row list, as a map on index pairs.
pub open spec fn table_of(rows: Seq<RowV>) -> Map<(usize, usize), Step> {
    Map::new(
        |p: (usize, usize)| first_match(rows, p.0, p.1) matches Some(_),
        |p: (usize, usize)| match first_match(rows, p.0, p.1) {
            Some(st) => st,
            None => Step { next: 0, write: 0, dir: Dir::Stay },
        },
    )
}

/// Spec-level model of a parsed grammar.
pub struct GrammarV {
    pub states: Seq<Seq<u8>>,
    pub syms: Seq<Seq<u8>>,
    pub init: usize,
    pub finals: Option<Seq<usize>>,
    pub table: Map<(usize, usize), Step>,
}

/// Resolution of a name-level definition into a grammar model. Errors are
/// found in this order: symbol range expansion, the initial state, the
/// final-state set, then the rows in declaration order (within a row:
/// state selector, symbol selector, next state, write symbol).
pub open spec fn spec_resolve(p: MachinePartsV) -> Result<GrammarV, ParseErrorV> {
    let states = state_names_of(p);
    match sym_names_of(p) {
        Err(e) => Err(e),
        Ok(syms) => {
            let ki = idx_of(states, p.init);
            if ki >= states.len() {
                Err(ParseErrorV::UndeclaredState(p.init))
            } else {
                let finals_res = match p.finals {
                    None => Ok(None),
                    Some(ftoks) => match resolve_finals_from(states, ftoks, 0) {
                        Err(e) => Err(e),
                        Ok(f) => Ok(Some(f)),
                    },
                };
                match finals_res {
                    Err(e) => Err(e),
                    Ok(finals) => match resolve_rows_from(states, syms, p.rows, 0) {
                        Err(e) => Err(e),
                        Ok(rows) => Ok(
                            GrammarV {
                                states,
                                syms,
                                init: ki as usize,
                                finals,
                                table: table_of(rows),
                            },
                        ),
                    },
                }
            }
        },
    }
}

/// Parsing of a whole definition text into a grammar model.
pub open spec fn spec_parse(text: Seq<u8>) -> Result<GrammarV, ParseErrorV> {
    match crate::parts::spec_parse_parts(text) {
        Err(e) => Err(e),
        Ok(p) => spec_resolve(p),
    }
}

/// The packed table key of an index pair, as unbounded arithmetic.
pub open spec fn pair_val(s: usize, y: usize) -> int {
    s as int * 0x1_0000_0000_0000_0000 + y as int
}

/// The packed table key of an index pair.
pub open spec fn key_of(s: usize, y: usize) -> u128 {
    pair_val(s, y) as u128
}

/// The packed key fits in its type.
pub proof fn lemma_pair_val_bounds(s: usize, y: usize)
    ensures
        0 <= pair_val(s, y) <= u128::MAX,
{
    let a = s as int;
    let b = y as int;
    assert((0 <= a < 0x1_0000_0000_0000_0000 && 0 <= b < 0x1_0000_0000_0000_0000) ==> (0 <= a
        * 0x1_0000_0000_0000_0000 + b <= u128::MAX)) by (nonlinear_arith);
}

/// Distinct index pairs pack to distinct keys.
pub proof fn lemma_key_of_injective(s1: usize, y1: usize, s2: usize, y2: usize)
    requires
        key_of(s1, y1) == key_of(s2, y2),
    ensures
        s1 == s2 && y1 == y2,
{
    lemma_pair_val_bounds(s1, y1);
    lemma_pair_val_bounds(s2, y2);
    assert(pair_val(s1, y1) == pair_val(s2, y2));
    let a1 = s1 as int;
    let b1 = y1 as int;
    let a2 = s2 as int;
    let b2 = y2 as int;
    assert((a1 * 0x1_0000_0000_0000_0000 + b1 == a2 * 0x1_0000_0000_0000_0000 + b2 && 0 <= b1
        < 0x1_0000_0000_0000_0000 && 0 <= b2 < 0x1_0000_0000_0000_0000 && 0 <= a1 && 0 <= a2)
        ==> (a1 == a2 && b1 == b2)) by (nonlinear_arith);
}

/// A parsed, immutable machine: interned names, initial state, optional
/// final-state set, and the resolved transition table.
pub struct Grammar {
    pub states: Vec<Vec<u8>>,
    pub syms: Vec<Vec<u8>>,
    pub init: usize,
    pub finals: Option<Vec<usize>>,
    pub table: HashMap<u128, Step>,
}

impl View for Grammar {
    type V = GrammarV;

    open spec fn view(&self) -> GrammarV {
        GrammarV {
            states: self.states.deep_view(),
            syms: self.syms.deep_view(),
            init: self.init,
            finals: match self.finals {
                Some(f) => Some(f@),
                None => None,
            },
            table: Map::new(
                |p: (usize, usize)| self.table@.contains_key(key_of(p.0, p.1)),
                |p: (usize, usize)| self.table@[key_of(p.0, p.1)],
            ),
        }
    }
}

/// The transition of a grammar model for a state and a read symbol, if any.
pub open spec fn lookup(g: GrammarV, st: usize, sym: usize) -> Option<Step> {
    if g.table.dom().contains((st, sym)) {
        Some(g.table[(st, sym)])
    } else {
        None
    }
}

fn undeclared_err(t: &Vec<u8>, is_state: bool) -> (r: ParseError)
    ensures
        r@ == undeclared(t@, is_state),
{
    let c = copy_bytes(t);
    if is_state {
        ParseError::UndeclaredState(c)
    } else {
        ParseError::UndeclaredSymbol(c)
    }
}

fn resolve_atom_exec(names: &Vec<Vec<u8>>, a: &Vec<u8>, is_state: bool) -> (r: Result<
    Vec<usize>,
    ParseError,
>)
    ensures
        crate::error::res_view(r) == resolve_atom(names.deep_view(), a@, is_state),
{
    if is_star(a.as_slice()) {
        let mut v: Vec<usize> = Vec::new();
        let mut j: usize = 0;
        while j < names.len()
            invariant
                j <= names@.len(),
                v@.len() == j,
                forall|k: int| 0 <= k < j ==> v@[k] == k as usize,
            decreases names@.len() - j,
        {
            v.push(j);
            j = j + 1;
        }
        assert(v@ =~= Seq::new(names.deep_view().len(), |k: int| k as usize));
        Ok(v)
    } else {
        let d = crate::token::find_byte_exec(a.as_slice(), 45, 0);
        if d == a.len() {
            let k = idx_of_exec(names, a.as_slice());
            if k < names.len() {
                let mut v: Vec<usize> = Vec::new();
                v.push(k);
                assert(v@ =~= seq![k]);
                Ok(v)
            } else {
                Err(undeclared_err(a, is_state))
            }
        } else {
            let a1 = copy_range(a.as_slice(), 0, d);
            let a2 = copy_range(a.as_slice(), d + 1, a.len());
            proof {
                assert(a1@ =~= a@.take(d as int));
                assert(a2@ =~= a@.skip(d as int + 1));
            }
            let k1 = idx_of_exec(names, a1.as_slice());
            if k1 == names.len() {
                return Err(undeclared_err(&a1, is_state));
            }
            let k2 = idx_of_exec(names, a2.as_slice());
            if k2 == names.len() {
                Err(undeclared_err(&a2, is_state))
            } else if k1 > k2 {
                Err(ParseError::MalformedRange(copy_bytes(a)))
            } else {
                let mut v: Vec<usize> = Vec::new();
                let mut j: usize = k1;
                while j <= k2
                    invariant
                        k1 <= j <= k2 + 1,
                        k2 < usize::MAX,
                        k2 < names@.len(),
                        v@.len() == j - k1,
                        forall|t: int| 0 <= t < v@.len() ==> v@[t] == (k1 + t) as usize,
                    decreases k2 + 1 - j,
                {
                    v.push(j);
                    j = j + 1;
                }
                assert(v@ =~= Seq::new((k2 - k1 + 1) as nat, |t: int| (k1 + t) as usize));
                Ok(v)
            }
        }
    }
}

fn resolve_sel_exec(names: &Vec<Vec<u8>>, atoms: &Vec<Vec<u8>>, is_state: bool) -> (r: Result<
    Vec<usize>,
    ParseError,
>)
    ensures
        crate::error::res_view(r) == resolve_sel_from(names.deep_view(), atoms.deep_view(), 0, is_state),
{
    let mut acc: Vec<usize> = Vec::new();
    let mut i: usize = 0;
    while i < atoms.len()
        invariant
            i <= atoms@.len(),
            match resolve_sel_from(names.deep_view(), atoms.deep_view(), i as int, is_state) {
                Ok(rest) => resolve_sel_from(names.deep_view(), atoms.deep_view(), 0, is_state)
                    == Ok::<Seq<usize>, ParseErrorV>(acc@ + rest),
                Err(e) => resolve_sel_from(names.deep_view(), atoms.deep_view(), 0, is_state)
                    == Err::<Seq<usize>, ParseErrorV>(e),
            },
        decreases atoms@.len() - i,
    {
        proof {
            assert(atoms.deep_view()[i as int] =~= atoms@[i as int]@);
        }
        let ghost prev = acc@;
        match resolve_atom_exec(names, &atoms[i], is_state) {
            Err(e) => {
                return Err(e);
            },
            Ok(mut s) => {
                let ghost sv = s@;
                acc.append(&mut s);
                proof {
                    if let Ok(rest) = resolve_sel_from(
                        names.deep_view(),
                        atoms.deep_view(),
                        i as int + 1,
                        is_state,
                    ) {
                        assert(prev + (sv + rest) =~= (prev + sv) + rest);
                    }
                }
            },
        }
        i = i + 1;
    }
    assert(acc@ + Seq::<usize>::empty() =~= acc@);
    Ok(acc)
}

fn expand_sym_exec(t: &Vec<u8>) -> (r: Result<Vec<Vec<u8>>, ParseError>)
    ensures
        r matches Ok(v) ==> expand_sym_tok(t@) == Ok::<Seq<Seq<u8>>, ParseErrorV>(v.deep_view()),
        r matches Err(e) ==> expand_sym_tok(t@) == Err::<Seq<Seq<u8>>, ParseErrorV>(e@),
{
    let d = crate::token::find_byte_exec(t.as_slice(), 45, 0);
    if d == t.len() {
        let mut v: Vec<Vec<u8>> = Vec::new();
        v.push(copy_bytes(t));
        assert(v.deep_view() =~~= seq![t@]);
        return Ok(v);
    }
    let a = copy_range(t.as_slice(), 0, d);
    let b = copy_range(t.as_slice(), d + 1, t.len());
    proof {
        assert(a@ =~= t@.take(d as int));
        assert(b@ =~= t@.skip(d as int + 1));
    }
    let lo = parse_dec(a.as_slice());
    let hi = parse_dec(b.as_slice());
    match (lo, hi) {
        (Some(lo), Some(hi)) => {
            if lo > hi {
                return Err(ParseError::MalformedRange(copy_bytes(t)));
            }
            let mut out: Vec<Vec<u8>> = Vec::new();
            let mut v: u64 = lo;
            loop
                invariant_except_break
                    lo <= v <= hi,
                    out.deep_view() =~~= Seq::new(
                        (v - lo) as nat,
                        |j: int| dec_digits((lo + j) as nat),
                    ),
                ensures
                    out.deep_view() =~~= Seq::new(
                        (hi - lo + 1) as nat,
                        |j: int| dec_digits((lo + j) as nat),
                    ),
                decreases hi - v,
            {
                let ghost prev = out.deep_view();
                out.push(crate::token::u64_to_dec(v));
                assert(out.deep_view() =~~= prev.push(dec_digits(v as nat)));
                assert(prev.push(dec_digits(v as nat)) =~~= Seq::new(
                    (v + 1 - lo) as nat,
                    |j: int| dec_digits((lo + j) as nat),
                ));
                if v == hi {
                    break;
                }
                v = v + 1;
            }
            Ok(out)
        },
        _ => {
            let mut v: Vec<Vec<u8>> = Vec::new();
            v.push(copy_bytes(t));
            assert(v.deep_view() =~~= seq![t@]);
            Ok(v)
        },
    }
}

fn expand_syms_exec(toks: &Vec<Vec<u8>>) -> (r: Result<Vec<Vec<u8>>, ParseError>)
    ensures
        r matches Ok(v) ==> expand_syms_from(toks.deep_view(), 0) == Ok::<
            Seq<Seq<u8>>,
            ParseErrorV,
        >(v.deep_view()),
        r matches Err(e) ==> expand_syms_from(toks.deep_view(), 0) == Err::<
            Seq<Seq<u8>>,
            ParseErrorV,
        >(e@),
{
    let mut acc: Vec<Vec<u8>> = Vec::new();
    let mut i: usize = 0;
    while i < toks.len()
        invariant
            i <= toks@.len(),
            match expand_syms_from(toks.deep_view(), i as int) {
                Ok(rest) => expand_syms_from(toks.deep_view(), 0) == Ok::<
                    Seq<Seq<u8>>,
                    ParseErrorV,
                >(acc.deep_view() + rest),
                Err(e) => expand_syms_from(toks.deep_view(), 0) == Err::<
                    Seq<Seq<u8>>,
                    ParseErrorV,
                >(e),
            },
        decreases toks@.len() - i,
    {
        proof {
            assert(toks.deep_view()[i as int] =~= toks@[i as int]@);
        }
        let ghost prev = acc.deep_view();
        match expand_sym_exec(&toks[i]) {
            Err(e) => {
                return Err(e);
            },
            Ok(mut s) => {
                let ghost sv = s.deep_view();
                acc.append(&mut s);
                proof {
                    assert(acc.deep_view() =~~= prev + sv);
                    if let Ok(rest) = expand_syms_from(toks.deep_view(), i as int + 1) {
                        assert(prev + (sv + rest) =~= (prev + sv) + rest);
                    }
                }
            },
        }
        i = i + 1;
    }
    assert(acc.deep_view() + Seq::<Seq<u8>>::empty() =~= acc.deep_view());
    Ok(acc)
}

fn resolve_field_exec(names: &Vec<Vec<u8>>, t: &Vec<u8>, is_state: bool) -> (r: Result<
    Option<usize>,
    ParseError,
>)
    ensures
        r matches Ok(o) ==> resolve_field(names.deep_view(), t@, is_state) == Ok::<
            Option<usize>,
            ParseErrorV,
        >(o),
        r matches Err(e) ==> resolve_field(names.deep_view(), t@, is_state) == Err::<
            Option<usize>,
            ParseErrorV,
        >(e@),
{
    if is_dot(t.as_slice()) {
        Ok(None)
    } else {
        let k = idx_of_exec(names, t.as_slice());
        if k < names.len() {
            Ok(Some(k))
        } else {
            Err(undeclared_err(t, is_state))
        }
    }
}

fn resolve_row_exec(states: &Vec<Vec<u8>>, syms: &Vec<Vec<u8>>, raw: &crate::parts::RawRow) -> (r:
    Result<Row, ParseError>)
    ensures
        crate::error::res_view(r) == resolve_row(states.deep_view(), syms.deep_view(), raw@),
{
    let ss = match resolve_sel_exec(states, &raw.ssel, true) {
        Err(e) => {
            return Err(e);
        },
        Ok(v) => v,
    };
    let ys = match resolve_sel_exec(syms, &raw.ysel, false) {
        Err(e) => {
            return Err(e);
        },
        Ok(v) => v,
    };
    let next = match resolve_field_exec(states, &raw.next, true) {
        Err(e) => {
            return Err(e);
        },
        Ok(o) => o,
    };
    let write = match resolve_field_exec(syms, &raw.write, false) {
        Err(e) => {
            return Err(e);
        },
        Ok(o) => o,
    };
    let dir = dir_from_token(raw.dir.as_slice());
    Ok(Row { states: ss, syms: ys, next, write, dir })
}

fn resolve_rows_exec(
    states: &Vec<Vec<u8>>,
    syms: &Vec<Vec<u8>>,
    raws: &Vec<crate::parts::RawRow>,
) -> (r: Result<Vec<Row>, ParseError>)
    ensures
        match r {
            Ok(rows) => resolve_rows_from(
                states.deep_view(),
                syms.deep_view(),
                raws@.map_values(|x: crate::parts::RawRow| x@),
                0,
            ) == Ok::<Seq<RowV>, ParseErrorV>(rows@.map_values(|x: Row| x@)),
            Err(e) => resolve_rows_from(
                states.deep_view(),
                syms.deep_view(),
                raws@.map_values(|x: crate::parts::RawRow| x@),
                0,
            ) == Err::<Seq<RowV>, ParseErrorV>(e@),
        },
{
    let ghost rawv = raws@.map_values(|x: crate::parts::RawRow| x@);
    let mut rows: Vec<Row> = Vec::new();
    let mut i: usize = 0;
    while i < raws.len()
        invariant
            i <= raws@.len(),
            rawv == raws@.map_values(|x: crate::parts::RawRow| x@),
            match resolve_rows_from(states.deep_view(), syms.deep_view(), rawv, i as int) {
                Ok(rest) => resolve_rows_from(states.deep_view(), syms.deep_view(), rawv, 0)
                    == Ok::<Seq<RowV>, ParseErrorV>(rows@.map_values(|x: Row| x@) + rest),
                Err(e) => resolve_rows_from(states.deep_view(), syms.deep_view(), rawv, 0)
                    == Err::<Seq<RowV>, ParseErrorV>(e),
            },
        decreases raws@.len() - i,
    {
        let ghost prev = rows@.map_values(|x: Row| x@);
        match resolve_row_exec(states, syms, &raws[i]) {
            Err(e) => {
                return Err(e);
            },
            Ok(row) => {
                let ghost rv = row@;
                rows.push(row);
                proof {
                    assert(rows@.map_values(|x: Row| x@) =~= prev.push(rv));
                    if let Ok(rest) = resolve_rows_from(
                        states.deep_view(),
                        syms.deep_view(),
                        rawv,
                        i as int + 1,
                    ) {
                        assert(prev + (seq![rv] + rest) =~= prev.push(rv) + rest);
                    }
                }
            },
        }
        i = i + 1;
    }
    assert(rows@.map_values(|x: Row| x@) + Seq::<RowV>::empty() =~= rows@.map_values(
        |x: Row| x@,
    ));
    Ok(rows)
}

fn resolve_finals_exec(names: &Vec<Vec<u8>>, toks: &Vec<Vec<u8>>) -> (r: Result<
    Vec<usize>,
    ParseError,
>)
    ensures
        crate::error::res_view(r) == resolve_finals_from(names.deep_view(), toks.deep_view(), 0),
{
    let mut acc: Vec<usize> = Vec::new();
    let mut i: usize = 0;
    while i < toks.len()
        invariant
            i <= toks@.len(),
            match resolve_finals_from(names.deep_view(), toks.deep_view(), i as int) {
                Ok(rest) => resolve_finals_from(names.deep_view(), toks.deep_view(), 0) == Ok::<
                    Seq<usize>,
                    ParseErrorV,
                >(acc@ + rest),
                Err(e) => resolve_finals_from(names.deep_view(), toks.deep_view(), 0) == Err::<
                    Seq<usize>,
                    ParseErrorV,
                >(e),
            },
        decreases toks@.len() - i,
    {
        proof {
            assert(toks.deep_view()[i as int] =~= toks@[i as int]@);
        }
        let ghost prev = acc@;
        let k = idx_of_exec(names, toks[i].as_slice());
        if k == names.len() {
            return Err(ParseError::UndeclaredState(copy_bytes(&toks[i])));
        }
        acc.push(k);
        proof {
            if let Ok(rest) = resolve_finals_from(
                names.deep_view(),
                toks.deep_view(),
                i as int + 1,
            ) {
                assert(prev + (seq![k] + rest) =~= prev.push(k) + rest);
            }
        }
        i = i + 1;
    }
    assert(acc@ + Seq::<usize>::empty() =~= acc@);
    Ok(acc)
}

/// Whether a lookup found a transition.
pub open spec fn is_bound(o: Option<Step>) -> bool {
    match o {
        Some(_) => true,
        None => false,
    }
}

/// The transition of a successful lookup.
pub open spec fn bound_step(o: Option<Step>) -> Step {
    match o {
        Some(st) => st,
        None => Step { next: 0, write: 0, dir: Dir::Stay },
    }
}

/// Pairs bound after walking the first `a` state indices of a row wholly,
/// and the first `b` symbol indices against state index `a`.
pub open spec fn row_partial_covers(r: RowV, a: int, b: int, s: usize, y: usize) -> bool {
    (exists|c: int| 0 <= c < a && r.states[c] == s && r.syms.contains(y)) || (0 <= a
        < r.states.len() && r.states[a] == s && exists|d: int| 0 <= d < b && r.syms[d] == y)
}

/// Fill the transition table from the resolved rows: each row binds the
/// Cartesian product of its index sets, inserting a pair only if absent,
/// so the first declared rule wins.
fn build_table(rows: &Vec<Row>) -> (t: HashMap<u128, Step>)
    ensures
        forall|s: usize, y: usize|
            {
                let fm = first_match(rows@.map_values(|x: Row| x@), s, y);
                &&& t@.contains_key(#[trigger] key_of(s, y)) == is_bound(fm)
                &&& is_bound(fm) ==> t@[key_of(s, y)] == bound_step(fm)
            },
{
    let ghost rv = rows@.map_values(|x: Row| x@);
    let mut t: HashMap<u128, Step> = HashMap::new();
    let mut i: usize = 0;
    while i < rows.len()
        invariant
            i <= rows@.len(),
            rv == rows@.map_values(|x: Row| x@),
            forall|s: usize, y: usize|
                {
                    let fm = first_match_upto(rv, i as int, s, y);
                    &&& t@.contains_key(#[trigger] key_of(s, y)) == is_bound(fm)
                    &&& is_bound(fm) ==> t@[key_of(s, y)] == bound_step(fm)
                },
        decreases rows@.len() - i,
    {
        let row = &rows[i];
        let ghost ri = rv[i as int];
        proof {
            assert(ri == rows@[i as int]@);
        }
        let mut a: usize = 0;
        while a < row.states.len()
            invariant
                a <= row.states@.len(),
                0 <= i < rows@.len(),
                rv == rows@.map_values(|x: Row| x@),
                ri == rv[i as int],
                ri == rows@[i as int]@,
                row@ == ri,
                forall|s: usize, y: usize|
                    {
                        let fm = first_match_upto(rv, i as int, s, y);
                        &&& t@.contains_key(#[trigger] key_of(s, y)) == (is_bound(fm)
                            || row_partial_covers(ri, a as int, 0, s, y))
                        &&& t@.contains_key(key_of(s, y)) ==> t@[key_of(s, y)] == (if is_bound(fm) {
                            bound_step(fm)
                        } else {
                            row_effect(ri, s, y)
                        })
                    },
            decreases row.states@.len() - a,
        {
            let s0 = row.states[a];
            let mut b: usize = 0;
            while b < row.syms.len()
                invariant
                    b <= row.syms@.len(),
                    a < row.states@.len(),
                    0 <= i < rows@.len(),
                    rv == rows@.map_values(|x: Row| x@),
                    ri == rv[i as int],
                    ri == rows@[i as int]@,
                    row@ == ri,
                    s0 == ri.states[a as int],
                    forall|s: usize, y: usize|
                        {
                            let fm = first_match_upto(rv, i as int, s, y);
                            &&& t@.contains_key(#[trigger] key_of(s, y)) == (is_bound(fm)
                                || row_partial_covers(ri, a as int, b as int, s, y))
                            &&& t@.contains_key(key_of(s, y)) ==> t@[key_of(s, y)] == (if is_bound(
                                fm,
                            ) {
                                bound_step(fm)
                            } else {
                                row_effect(ri, s, y)
                            })
                        },
                decreases row.syms@.len() - b,
            {
                let y0 = row.syms[b];
                let key = make_key(s0, y0);
                let ghost told = t@;
                if !t.contains_key(&key) {
                    let eff = Step {
                        next: match row.next {
                            Some(n) => n,
                            None => s0,
                        },
                        write: match row.write {
                            Some(w) => w,
                            None => y0,
                        },
                        dir: row.dir,
                    };
                    assert(eff == row_effect(ri, s0, y0));
                    t.insert(key, eff);
                }
                proof {
                    assert forall|s: usize, y: usize| (s, y) != (s0, y0) implies key_of(s, y)
                        != key_of(s0, y0) by {
                        if key_of(s, y) == key_of(s0, y0) {
                            lemma_key_of_injective(s, y, s0, y0);
                        }
                    }
                }
                assert(ri.syms[b as int] == y0);
                b = b + 1;
            }
            a = a + 1;
            proof {
                assert forall|s: usize, y: usize|
                    row_partial_covers(ri, a - 1, ri.syms.len() as int, s, y)
                        == row_partial_covers(ri, a as int, 0, s, y) by {
                    if row_partial_covers(ri, a - 1, ri.syms.len() as int, s, y) {
                        if exists|d: int| 0 <= d < ri.syms.len() && ri.syms[d] == y {
                            assert(ri.syms.contains(y));
                        }
                    }
                    if row_partial_covers(ri, a as int, 0, s, y) {
                        let c = choose|c: int|
                            0 <= c < a && ri.states[c] == s && ri.syms.contains(y);
                        if c < a - 1 {
                        } else {
                            let d = choose|d: int| 0 <= d < ri.syms.len() && ri.syms[d] == y;
                            assert(0 <= d < ri.syms.len() && ri.syms[d] == y);
                        }
                    }
                }
            }
        }
        i = i + 1;
        proof {
            assert forall|s: usize, y: usize|
                (is_bound(first_match_upto(rv, i - 1, s, y)) || row_partial_covers(
                    ri,
                    ri.states.len() as int,
                    0,
                    s,
                    y,
                )) == is_bound(first_match_upto(rv, i as int, s, y)) by {
                if row_partial_covers(ri, ri.states.len() as int, 0, s, y) {
                    assert(ri.states.contains(s));
                }
                if row_covers(ri, s, y) {
                    assert(row_partial_covers(ri, ri.states.len() as int, 0, s, y));
                }
            }
        }
    }
    t
}

/// The packed table key of an index pair.
pub fn make_key(st: usize, sym: usize) -> (k: u128)
    ensures
        k == key_of(st, sym),
{
    proof {
        lemma_pair_val_bounds(st, sym);
    }
    st as u128 * 0x1_0000_0000_0000_0000u128 + sym as u128
}

impl Grammar {
    /// Parse a definition text into a grammar: the name-level reading
    /// followed by interning and table resolution. The result is exactly
    /// the model `spec_parse` gives the text, so identical text always
    /// parses to an identical grammar.
    pub fn parse(text: &[u8]) -> (r: Result<Grammar, ParseError>)
        ensures
            r matches Ok(g) ==> spec_parse(text@) == Ok::<GrammarV, ParseErrorV>(g@),
            r matches Err(e) ==> spec_parse(text@) == Err::<GrammarV, ParseErrorV>(e@),
    {
        let p = match crate::parts::parse_parts(text) {
            Err(e) => {
                return Err(e);
            },
            Ok(p) => p,
        };
        let ghost pv = p@;

        // State names: HALT, then the declared names in order.
        let mut states: Vec<Vec<u8>> = Vec::new();
        states.push(halt_name_vec());
        assert(states.deep_view() =~~= seq![halt_name()] + p.states.deep_view().take(0));
        let mut i: usize = 0;
        while i < p.states.len()
            invariant
                i <= p.states@.len(),
                states.deep_view() =~~= seq![halt_name()] + p.states.deep_view().take(i as int),
            decreases p.states@.len() - i,
        {
            let t = copy_bytes(&p.states[i]);
            proof {
                assert(p.states.deep_view()[i as int] =~= p.states@[i as int]@);
            }
            let ghost prev = states.deep_view();
            states.push(t);
            i = i + 1;
            assert(states.deep_view() =~~= prev.push(t@));
            assert(prev.push(t@) =~~= seq![halt_name()] + p.states.deep_view().take(i as int));
        }
        proof {
            assert(p.states.deep_view().take(p.states@.len() as int) =~= p.states.deep_view());
            assert(states.deep_view() == state_names_of(pv));
        }

        // Symbol names: blank, then the expanded declarations in order.
        let mut expanded = match expand_syms_exec(&p.syms) {
            Err(e) => {
                return Err(e);
            },
            Ok(v) => v,
        };
        let ghost ev = expanded.deep_view();
        let mut syms: Vec<Vec<u8>> = Vec::new();
        syms.push(blank_name_vec());
        syms.append(&mut expanded);
        proof {
            assert(syms.deep_view() =~~= seq![blank_name()] + ev);
            assert(sym_names_of(pv) == Ok::<Seq<Seq<u8>>, ParseErrorV>(syms.deep_view()));
        }

        // The initial state must be declared.
        let ki = idx_of_exec(&states, p.init.as_slice());
        if ki == states.len() {
            return Err(ParseError::UndeclaredState(p.init));
        }

        // The final-state set, when declared, must resolve.
        let finals: Option<Vec<usize>> = match &p.finals {
            None => None,
            Some(ftoks) => match resolve_finals_exec(&states, ftoks) {
                Err(e) => {
                    return Err(e);
                },
                Ok(f) => Some(f),
            },
        };

        // Rows, then the table under first-declared-wins precedence.
        let rows = match resolve_rows_exec(&states, &syms, &p.rows) {
            Err(e) => {
                return Err(e);
            },
            Ok(r) => r,
        };
        let ghost rowsv = rows@.map_values(|x: Row| x@);
        let table = build_table(&rows);
        let g = Grammar { states, syms, init: ki, finals, table };
        proof {
            assert(g@.table =~= table_of(rowsv));
            assert(spec_resolve(pv) == Ok::<GrammarV, ParseErrorV>(g@));
        }
        Ok(g)
    }

    /// What to do in state `st` reading symbol `sym`: `None` means halt.
    pub fn get_move(&self, st: usize, sym: usize) -> (r: Option<Step>)
        ensures
            r == lookup(self@, st, sym),
    {
        let key = make_key(st, sym);
        match self.table.get(&key) {
            Some(s) => Some(*s),
            None => None,
        }
    }
}

} // verus!
