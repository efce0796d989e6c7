//! Token-level reading of a machine definition: declared state names, the
//! raw symbol token list, the initial-state name, the optional final-state
//! set, and the table rows as fields of name-level tokens. This is the
//! input both to interning (which produces a `Grammar`) and to the
//! composition combinators (which work on names, never on indices).
//!
//! Error precedence is fixed: a missing `table` marker, then a declaration
//! after the marker, then a row with a wrong field count (earliest row
//! first), then a missing `initstate`.

use vstd::prelude::*;

use crate::error::{ParseError, ParseErrorV};
use crate::token::{
    copy_bytes, line_content, split_sep, split_sep_exec, split_ws, split_ws_exec, bytes_eq,
    line_content_exec,
};

verus! {

// Keywords of the definition language, as byte tokens.
pub open spec fn kw_states() -> Seq<u8> {
    seq![115u8, 116, 97, 116, 101, 115]
}

pub open spec fn kw_syms() -> Seq<u8> {
    seq![115u8, 121, 109, 115]
}

pub open spec fn kw_blank() -> Seq<u8> {
    seq![98u8, 108, 97, 110, 107]
}

pub open spec fn kw_initstate() -> Seq<u8> {
    seq![105u8, 110, 105, 116, 115, 116, 97, 116, 101]
}

pub open spec fn kw_finalstates() -> Seq<u8> {
    seq![102u8, 105, 110, 97, 108, 115, 116, 97, 116, 101, 115]
}

pub open spec fn kw_table() -> Seq<u8> {
    seq![116u8, 97, 98, 108, 101]
}

pub fn kw_states_vec() -> (r: Vec<u8>)
    ensures
        r@ == kw_states(),
{
    let k: [u8; 6] = [115, 116, 97, 116, 101, 115];
    assert(k@ =~= kw_states());
    crate::token::copy_range(k.as_slice(), 0, 6)
}

pub fn kw_syms_vec() -> (r: Vec<u8>)
    ensures
        r@ == kw_syms(),
{
    let k: [u8; 4] = [115, 121, 109, 115];
    assert(k@ =~= kw_syms());
    crate::token::copy_range(k.as_slice(), 0, 4)
}

pub fn kw_initstate_vec() -> (r: Vec<u8>)
    ensures
        r@ == kw_initstate(),
{
    let k: [u8; 9] = [105, 110, 105, 116, 115, 116, 97, 116, 101];
    assert(k@ =~= kw_initstate());
    crate::token::copy_range(k.as_slice(), 0, 9)
}

pub fn kw_finalstates_vec() -> (r: Vec<u8>)
    ensures
        r@ == kw_finalstates(),
{
    let k: [u8; 11] = [102, 105, 110, 97, 108, 115, 116, 97, 116, 101, 115];
    assert(k@ =~= kw_finalstates());
    crate::token::copy_range(k.as_slice(), 0, 11)
}

pub fn kw_table_vec() -> (r: Vec<u8>)
    ensures
        r@ == kw_table(),
{
    let k: [u8; 5] = [116, 97, 98, 108, 101];
    assert(k@ =~= kw_table());
    crate::token::copy_range(k.as_slice(), 0, 5)
}

pub fn is_kw_states(t: &[u8]) -> (r: bool)
    ensures
        r == (t@ == kw_states()),
{
    let k: [u8; 6] = [115, 116, 97, 116, 101, 115];
    assert(k@ =~= kw_states());
    bytes_eq(t, k.as_slice())
}

pub fn is_kw_syms(t: &[u8]) -> (r: bool)
    ensures
        r == (t@ == kw_syms()),
{
    let k: [u8; 4] = [115, 121, 109, 115];
    assert(k@ =~= kw_syms());
    bytes_eq(t, k.as_slice())
}

pub fn is_kw_blank(t: &[u8]) -> (r: bool)
    ensures
        r == (t@ == kw_blank()),
{
    let k: [u8; 5] = [98, 108, 97, 110, 107];
    assert(k@ =~= kw_blank());
    bytes_eq(t, k.as_slice())
}

pub fn is_kw_initstate(t: &[u8]) -> (r: bool)
    ensures
        r == (t@ == kw_initstate()),
{
    let k: [u8; 9] = [105, 110, 105, 116, 115, 116, 97, 116, 101];
    assert(k@ =~= kw_initstate());
    bytes_eq(t, k.as_slice())
}

pub fn is_kw_finalstates(t: &[u8]) -> (r: bool)
    ensures
        r == (t@ == kw_finalstates()),
{
    let k: [u8; 11] = [102, 105, 110, 97, 108, 115, 116, 97, 116, 101, 115];
    assert(k@ =~= kw_finalstates());
    bytes_eq(t, k.as_slice())
}

pub fn is_kw_table(t: &[u8]) -> (r: bool)
    ensures
        r == (t@ == kw_table()),
{
    let k: [u8; 5] = [116, 97, 98, 108, 101];
    assert(k@ =~= kw_table());
    bytes_eq(t, k.as_slice())
}

/// One table row at the name level: comma-split state and symbol selectors,
/// plus the next-state, write-symbol and direction tokens.
pub struct RawRow {
    pub ssel: Vec<Vec<u8>>,
    pub ysel: Vec<Vec<u8>>,
    pub next: Vec<u8>,
    pub write: Vec<u8>,
    pub dir: Vec<u8>,
}

pub struct RawRowV {
    pub ssel: Seq<Seq<u8>>,
    pub ysel: Seq<Seq<u8>>,
    pub next: Seq<u8>,
    pub write: Seq<u8>,
    pub dir: Seq<u8>,
}

impl View for RawRow {
    type V = RawRowV;

    open spec fn view(&self) -> RawRowV {
        RawRowV {
            ssel: self.ssel.deep_view(),
            ysel: self.ysel.deep_view(),
            next: self.next@,
            write: self.write@,
            dir: self.dir@,
        }
    }
}

/// A machine definition at the name level.
pub struct MachineParts {
    pub states: Vec<Vec<u8>>,
    pub syms: Vec<Vec<u8>>,
    pub init: Vec<u8>,
    pub finals: Option<Vec<Vec<u8>>>,
    pub rows: Vec<RawRow>,
}

pub struct MachinePartsV {
    pub states: Seq<Seq<u8>>,
    pub syms: Seq<Seq<u8>>,
    pub init: Seq<u8>,
    pub finals: Option<Seq<Seq<u8>>>,
    pub rows: Seq<RawRowV>,
}

impl View for MachineParts {
    type V = MachinePartsV;

    open spec fn view(&self) -> MachinePartsV {
        MachinePartsV {
            states: self.states.deep_view(),
            syms: self.syms.deep_view(),
            init: self.init@,
            finals: match self.finals {
                Some(f) => Some(f.deep_view()),
                None => None,
            },
            rows: self.rows@.map_values(|r: RawRow| r@),
        }
    }
}

/// The lines of a text, each comment-stripped and split into tokens.
pub open spec fn spec_token_lines(text: Seq<u8>) -> Seq<Seq<Seq<u8>>> {
    split_sep(text, 10).map_values(|l: Seq<u8>| split_ws(line_content(l)))
}

pub fn token_lines(text: &[u8]) -> (r: Vec<Vec<Vec<u8>>>)
    ensures
        r.deep_view() == spec_token_lines(text@),
{
    let lines = split_sep_exec(text, 10);
    let mut r: Vec<Vec<Vec<u8>>> = Vec::new();
    let mut i: usize = 0;
    while i < lines.len()
        invariant
            i <= lines@.len(),
            lines.deep_view() == split_sep(text@, 10),
            r.deep_view() =~~= spec_token_lines(text@).take(i as int),
        decreases lines@.len() - i,
    {
        let content = line_content_exec(lines[i].as_slice());
        let toks = split_ws_exec(content.as_slice());
        proof {
            assert(lines.deep_view()[i as int] =~= lines@[i as int]@);
        }
        r.push(toks);
        i = i + 1;
        assert(r.deep_view() =~~= spec_token_lines(text@).take(i as int));
    }
    assert(spec_token_lines(text@).take(spec_token_lines(text@).len() as int) =~= spec_token_lines(
        text@,
    ));
    assert(lines@.len() == spec_token_lines(text@).len());
    r
}

/// Whether a token line opens the table section.
pub open spec fn is_table_marker(toks: Seq<Seq<u8>>) -> bool {
    toks.len() > 0 && toks[0] == kw_table()
}

/// Whether a token line is a prologue declaration.
pub open spec fn is_decl_line(toks: Seq<Seq<u8>>) -> bool {
    toks.len() > 0 && (toks[0] == kw_states() || toks[0] == kw_syms() || toks[0] == kw_blank()
        || toks[0] == kw_initstate() || toks[0] == kw_finalstates())
}

/// Index of the first table-marker line at or after `i`, or `tls.len()`.
pub open spec fn find_table_from(tls: Seq<Seq<Seq<u8>>>, i: int) -> int
    decreases tls.len() - i,
{
    if i < 0 || i >= tls.len() {
        tls.len() as int
    } else if is_table_marker(tls[i]) {
        i
    } else {
        find_table_from(tls, i + 1)
    }
}

/// Index of the first declaration line at or after `i`, or `tls.len()`.
pub open spec fn find_decl_from(tls: Seq<Seq<Seq<u8>>>, i: int) -> int
    decreases tls.len() - i,
{
    if i < 0 || i >= tls.len() {
        tls.len() as int
    } else if is_decl_line(tls[i]) {
        i
    } else {
        find_decl_from(tls, i + 1)
    }
}

/// The accumulated prologue declarations.
pub struct PrologueV {
    pub states: Seq<Seq<u8>>,
    pub syms: Seq<Seq<u8>>,
    pub init: Option<Seq<u8>>,
    pub finals: Option<Seq<Seq<u8>>>,
}

/// Effect of one prologue line on the accumulated declarations. `states`
/// and `syms` lines append; a later `initstate` or `finalstates` replaces
/// an earlier one; `blank` is accepted and ignored (the blank symbol is
/// canonically fixed at index 0); anything else is a no-op.
pub open spec fn prologue_step(acc: PrologueV, toks: Seq<Seq<u8>>) -> PrologueV {
    if toks.len() == 0 {
        acc
    } else if toks[0] == kw_states() {
        PrologueV { states: acc.states + toks.skip(1), ..acc }
    } else if toks[0] == kw_syms() {
        PrologueV { syms: acc.syms + toks.skip(1), ..acc }
    } else if toks[0] == kw_initstate() {
        if toks.len() >= 2 {
            PrologueV { init: Some(toks[1]), ..acc }
        } else {
            acc
        }
    } else if toks[0] == kw_finalstates() {
        PrologueV { finals: Some(toks.skip(1)), ..acc }
    } else {
        acc
    }
}

/// The declarations accumulated over the first `i` token lines.
pub open spec fn prologue_upto(tls: Seq<Seq<Seq<u8>>>, i: int) -> PrologueV
    decreases i,
{
    if i <= 0 {
        PrologueV { states: Seq::empty(), syms: Seq::empty(), init: None, finals: None }
    } else {
        prologue_step(prologue_upto(tls, i - 1), tls[i - 1])
    }
}

/// The row read from a five-token line.
pub open spec fn row_of_toks(toks: Seq<Seq<u8>>) -> RawRowV {
    RawRowV {
        ssel: split_sep(toks[0], 44),
        ysel: split_sep(toks[1], 44),
        next: toks[2],
        write: toks[3],
        dir: toks[4],
    }
}

/// The rows read from the token lines at or after `i`. Empty lines are
/// skipped; a line with a field count other than five is fatal.
pub open spec fn rows_from(tls: Seq<Seq<Seq<u8>>>, i: int) -> Result<Seq<RawRowV>, ParseErrorV>
    decreases tls.len() - i,
{
    if i < 0 || i >= tls.len() {
        Ok(Seq::empty())
    } else {
        let toks = tls[i];
        if toks.len() == 0 {
            rows_from(tls, i + 1)
        } else if toks.len() != 5 {
            Err(ParseErrorV::WrongFieldCount(toks.len() as int))
        } else {
            match rows_from(tls, i + 1) {
                Ok(rest) => Ok(seq![row_of_toks(toks)] + rest),
                Err(e) => Err(e),
            }
        }
    }
}

/// The name-level reading of a whole definition text.
pub open spec fn spec_parse_parts(text: Seq<u8>) -> Result<MachinePartsV, ParseErrorV> {
    let tls = spec_token_lines(text);
    let ti = find_table_from(tls, 0);
    if ti >= tls.len() {
        Err(ParseErrorV::MissingTable)
    } else if find_decl_from(tls, ti + 1) < tls.len() {
        Err(ParseErrorV::DeclarationAfterTable)
    } else {
        let p = prologue_upto(tls, ti);
        match rows_from(tls, ti + 1) {
            Err(e) => Err(e),
            Ok(rows) => match p.init {
                None => Err(ParseErrorV::MissingInitState),
                Some(init) => Ok(
                    MachinePartsV {
                        states: p.states,
                        syms: p.syms,
                        init,
                        finals: p.finals,
                        rows,
                    },
                ),
            },
        }
    }
}

spec fn opt_bytes_view(o: Option<Vec<u8>>) -> Option<Seq<u8>> {
    match o {
        Some(v) => Some(v@),
        None => None,
    }
}

spec fn opt_toks_view(o: Option<Vec<Vec<u8>>>) -> Option<Seq<Seq<u8>>> {
    match o {
        Some(v) => Some(v.deep_view()),
        None => None,
    }
}

/// Append copies of `toks[1..]` to `out`.
fn append_tail(out: &mut Vec<Vec<u8>>, toks: &Vec<Vec<u8>>)
    requires
        toks@.len() >= 1,
    ensures
        final(out).deep_view() == old(out).deep_view() + toks.deep_view().skip(1),
{
    let mut j: usize = 1;
    while j < toks.len()
        invariant
            1 <= j <= toks@.len(),
            out.deep_view() =~~= old(out).deep_view() + toks.deep_view().subrange(1, j as int),
        decreases toks@.len() - j,
    {
        let t = copy_bytes(&toks[j]);
        proof {
            assert(toks.deep_view()[j as int] =~= toks@[j as int]@);
        }
        let ghost prev = out.deep_view();
        out.push(t);
        j = j + 1;
        assert(out.deep_view() =~~= prev.push(t@));
        assert(prev.push(t@) =~~= old(out).deep_view() + toks.deep_view().subrange(
            1,
            j as int,
        ));
    }
    assert(toks.deep_view().subrange(1, toks@.len() as int) =~= toks.deep_view().skip(1));
}

/// Read a definition text at the name level.
pub fn parse_parts(text: &[u8]) -> (r: Result<MachineParts, ParseError>)
    ensures
        crate::error::res_view(r) == spec_parse_parts(text@),
{
    let tls = token_lines(text);
    let ghost tlsv = spec_token_lines(text@);

    // Locate the table marker.
    let mut ti: usize = 0;
    while ti < tls.len() && !(tls[ti].len() > 0 && is_kw_table(tls[ti][0].as_slice()))
        invariant
            ti <= tls@.len(),
            tls.deep_view() == tlsv,
            find_table_from(tlsv, 0) == find_table_from(tlsv, ti as int),
        decreases tls@.len() - ti,
    {
        proof {
            assert(tlsv[ti as int] =~~= tls@[ti as int].deep_view());
            if tls@[ti as int]@.len() > 0 {
                assert(tls@[ti as int].deep_view()[0] =~= tls@[ti as int]@[0]@);
            }
        }
        ti = ti + 1;
    }
    proof {
        if ti < tls@.len() {
            assert(tlsv[ti as int] =~~= tls@[ti as int].deep_view());
            if tls@[ti as int]@.len() > 0 {
                assert(tls@[ti as int].deep_view()[0] =~= tls@[ti as int]@[0]@);
            }
        }
    }
    if ti == tls.len() {
        return Err(ParseError::MissingTable);
    }

    // No declaration may follow the table marker.
    let mut di: usize = ti + 1;
    while di < tls.len() && !(tls[di].len() > 0 && (is_kw_states(tls[di][0].as_slice())
        || is_kw_syms(tls[di][0].as_slice()) || is_kw_blank(tls[di][0].as_slice())
        || is_kw_initstate(tls[di][0].as_slice()) || is_kw_finalstates(tls[di][0].as_slice())))
        invariant
            ti + 1 <= di <= tls@.len(),
            tls.deep_view() == tlsv,
            find_decl_from(tlsv, ti as int + 1) == find_decl_from(tlsv, di as int),
        decreases tls@.len() - di,
    {
        proof {
            assert(tlsv[di as int] =~~= tls@[di as int].deep_view());
            if tls@[di as int]@.len() > 0 {
                assert(tls@[di as int].deep_view()[0] =~= tls@[di as int]@[0]@);
            }
        }
        di = di + 1;
    }
    proof {
        if di < tls@.len() {
            assert(tlsv[di as int] =~~= tls@[di as int].deep_view());
            if tls@[di as int]@.len() > 0 {
                assert(tls@[di as int].deep_view()[0] =~= tls@[di as int]@[0]@);
            }
        }
    }
    if di < tls.len() {
        return Err(ParseError::DeclarationAfterTable);
    }

    // Accumulate the prologue declarations over the lines before the marker.
    let mut states: Vec<Vec<u8>> = Vec::new();
    let mut syms: Vec<Vec<u8>> = Vec::new();
    let mut init: Option<Vec<u8>> = None;
    let mut finals: Option<Vec<Vec<u8>>> = None;
    let mut i: usize = 0;
    while i < ti
        invariant
            i <= ti <= tls@.len(),
            tls.deep_view() == tlsv,
            states.deep_view() == prologue_upto(tlsv, i as int).states,
            syms.deep_view() == prologue_upto(tlsv, i as int).syms,
            opt_bytes_view(init) == prologue_upto(tlsv, i as int).init,
            opt_toks_view(finals) == prologue_upto(tlsv, i as int).finals,
        decreases ti - i,
    {
        let toks = &tls[i];
        proof {
            assert(tlsv[i as int] =~~= tls@[i as int].deep_view());
            if tls@[i as int]@.len() > 0 {
                assert(tls@[i as int].deep_view()[0] =~= tls@[i as int]@[0]@);
            }
        }
        if toks.len() > 0 {
            if is_kw_states(toks[0].as_slice()) {
                append_tail(&mut states, toks);
            } else if is_kw_syms(toks[0].as_slice()) {
                append_tail(&mut syms, toks);
            } else if is_kw_initstate(toks[0].as_slice()) {
                if toks.len() >= 2 {
                    proof {
                        assert(tls@[i as int].deep_view()[1] =~= tls@[i as int]@[1]@);
                    }
                    init = Some(copy_bytes(&toks[1]));
                }
            } else if is_kw_finalstates(toks[0].as_slice()) {
                let mut f: Vec<Vec<u8>> = Vec::new();
                append_tail(&mut f, toks);
                finals = Some(f);
            }
        }
        i = i + 1;
    }

    // Read the table rows after the marker.
    let mut rows: Vec<RawRow> = Vec::new();
    let mut j: usize = ti + 1;
    while j < tls.len()
        invariant
            ti + 1 <= j <= tls@.len(),
            tls.deep_view() == tlsv,
            tlsv == spec_token_lines(text@),
            is_table_marker(tlsv[ti as int]),
            find_table_from(tlsv, 0) == ti as int,
            find_decl_from(tlsv, ti as int + 1) == tlsv.len() as int,
            match rows_from(tlsv, j as int) {
                Ok(rest) => rows_from(tlsv, ti as int + 1) == Ok::<Seq<RawRowV>, ParseErrorV>(
                    rows@.map_values(|r: RawRow| r@) + rest,
                ),
                Err(e) => rows_from(tlsv, ti as int + 1) == Err::<Seq<RawRowV>, ParseErrorV>(e),
            },
        decreases tls@.len() - j,
    {
        let toks = &tls[j];
        proof {
            assert(tlsv[j as int] =~~= tls@[j as int].deep_view());
        }
        if toks.len() != 0 {
            if toks.len() != 5 {
                proof {
                    assert(tlsv[j as int].len() == toks@.len());
                    assert(rows_from(tlsv, j as int) == Err::<Seq<RawRowV>, ParseErrorV>(
                        ParseErrorV::WrongFieldCount(toks@.len() as int),
                    ));
                }
                return Err(ParseError::WrongFieldCount(toks.len()));
            }
            proof {
                assert(tls@[j as int].deep_view()[0] =~= tls@[j as int]@[0]@);
                assert(tls@[j as int].deep_view()[1] =~= tls@[j as int]@[1]@);
                assert(tls@[j as int].deep_view()[2] =~= tls@[j as int]@[2]@);
                assert(tls@[j as int].deep_view()[3] =~= tls@[j as int]@[3]@);
                assert(tls@[j as int].deep_view()[4] =~= tls@[j as int]@[4]@);
            }
            let row = RawRow {
                ssel: split_sep_exec(toks[0].as_slice(), 44),
                ysel: split_sep_exec(toks[1].as_slice(), 44),
                next: copy_bytes(&toks[2]),
                write: copy_bytes(&toks[3]),
                dir: copy_bytes(&toks[4]),
            };
            let ghost prev = rows@.map_values(|r: RawRow| r@);
            assert(row@ == row_of_toks(tlsv[j as int]));
            rows.push(row);
            assert(rows@.map_values(|r: RawRow| r@) =~= prev.push(row@));
            proof {
                if let Ok(rest) = rows_from(tlsv, j as int + 1) {
                    assert(prev.push(row@) + rest =~= prev + (seq![row_of_toks(tlsv[j as int])]
                        + rest));
                }
            }
        }
        j = j + 1;
    }

    match init {
        None => Err(ParseError::MissingInitState),
        Some(init) => Ok(MachineParts { states, syms, init, finals, rows }),
    }
}

} // verus!
