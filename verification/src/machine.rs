//! Execution engine: a grammar plus a live sparse tape, current state,
//! head pointer and halted flag. `next` performs one step and returns one
//! trace snapshot; after the terminal snapshot (which carries the
//! ACCEPTED/REJECTED verdict) it returns `None`, so the trace is a finite,
//! non-restartable sequence.
//!
//! The tape is conceptually infinite; head positions are 64-bit and wrap
//! at the type bounds, which no bounded run can reach. Cells never written
//! read as the blank symbol, index 0. There is no built-in step limit:
//! bounding execution is the caller's responsibility.

use vstd::prelude::*;

use std::collections::HashMap;

use crate::error::{ParseError, ParseErrorV};
use crate::grammar::{blank_name, lookup, Dir, Grammar, GrammarV, Step};
use crate::token::{copy_bytes, idx_of, idx_of_exec, split_ws, split_ws_exec, append_bytes};

verus! {

broadcast use vstd::std_specs::hash::group_hash_axioms;

/// A machine configuration: tape contents, current state, head position,
/// and whether the terminal snapshot has been produced.
pub struct ConfigV {
    pub tape: Map<i64, usize>,
    pub state: usize,
    pub pointer: i64,
    pub done: bool,
}

/// The symbol at a tape position: unset cells are blank (index 0).
pub open spec fn tape_read(tape: Map<i64, usize>, pos: i64) -> usize {
    if tape.contains_key(pos) {
        tape[pos]
    } else {
        0
    }
}

/// The head position after a move, wrapping at the i64 bounds.
pub open spec fn moved(p: i64, d: Dir) -> i64 {
    match d {
        Dir::Left => vstd::wrapping::i64_specs::wrapping_sub(p, 1),
        Dir::Right => vstd::wrapping::i64_specs::wrapping_add(p, 1),
        Dir::Stay => p,
    }
}

/// One execution step: apply the transition for the current state and the
/// symbol under the head, or mark the machine halted if there is none.
pub open spec fn spec_step(g: GrammarV, c: ConfigV) -> ConfigV {
    match lookup(g, c.state, tape_read(c.tape, c.pointer)) {
        Some(st) => ConfigV {
            tape: c.tape.insert(c.pointer, st.write),
            state: st.next,
            pointer: moved(c.pointer, st.dir),
            done: c.done,
        },
        None => ConfigV { done: true, ..c },
    }
}

/// Whether halting in state `s` accepts: with a declared final-state set,
/// membership decides; with none, exactly the reserved HALT state accepts.
pub open spec fn spec_accepted(g: GrammarV, s: usize) -> bool {
    match g.finals {
        Some(f) => f.contains(s),
        None => s == 0,
    }
}

/// The display name of a symbol index; an index outside the declared
/// alphabet renders as the blank.
pub open spec fn sym_name(g: GrammarV, idx: usize) -> Seq<u8> {
    if idx < g.syms.len() {
        g.syms[idx as int]
    } else {
        blank_name()
    }
}

/// The window cells of a snapshot at and after offset `k`: 80 cells
/// centred on the head, 40 to its left and 39 to its right.
pub open spec fn render_cells(g: GrammarV, tape: Map<i64, usize>, p: i64, k: int) -> Seq<u8>
    decreases 80 - k,
{
    if k < 0 || k >= 80 {
        Seq::empty()
    } else {
        sym_name(g, tape_read(tape, vstd::wrapping::i64_specs::wrapping_add(p, (k - 40) as i64)))
            + render_cells(g, tape, p, k + 1)
    }
}

/// One snapshot without any verdict mark: a marker line pointing at the
/// head's column, then the tape window.
pub open spec fn spec_render(g: GrammarV, tape: Map<i64, usize>, p: i64) -> Seq<u8> {
    Seq::new(40, |j: int| 32u8) + seq![118u8, 10u8] + render_cells(g, tape, p, 0)
}

/// The verdict marker appended to the terminal snapshot.
pub open spec fn verdict_mark(acc: bool) -> Seq<u8> {
    if acc {
        seq![10u8, 32, 32, 32, 32, 65, 67, 67, 69, 80, 84, 69, 68]
    } else {
        seq![10u8, 32, 32, 32, 32, 82, 69, 74, 69, 67, 84, 69, 68]
    }
}

/// The snapshot produced by one step from configuration `c`: the rendered
/// window, with the verdict appended exactly when this step halts.
pub open spec fn spec_snapshot(g: GrammarV, c: ConfigV) -> Seq<u8> {
    let base = spec_render(g, c.tape, c.pointer);
    match lookup(g, c.state, tape_read(c.tape, c.pointer)) {
        Some(_) => base,
        None => base + verdict_mark(spec_accepted(g, c.state)),
    }
}

/// The tape after writing the input tokens right-aligned: the last token
/// sits at position 0, earlier tokens at consecutive cells to its left.
pub open spec fn input_tape(g: GrammarV, base: Map<i64, usize>, toks: Seq<Seq<u8>>) -> Map<
    i64,
    usize,
> {
    base.union_prefer_right(
        Map::new(
            |p: i64| -(toks.len() as int) < p as int <= 0,
            |p: i64| idx_of(g.syms, toks[toks.len() - 1 + p as int]) as usize,
        ),
    )
}

/// The first input token, counted from the right, that is not a declared
/// symbol; `toks.len()` if all are declared.
pub open spec fn first_unknown_from_right(syms: Seq<Seq<u8>>, toks: Seq<Seq<u8>>, j: int) -> int
    decreases toks.len() - j,
{
    if j < 0 || j >= toks.len() {
        toks.len() as int
    } else if idx_of(syms, toks[toks.len() - 1 - j]) >= syms.len() {
        j
    } else {
        first_unknown_from_right(syms, toks, j + 1)
    }
}

/// The configuration after `n` execution steps.
pub open spec fn run_steps(g: GrammarV, c: ConfigV, n: nat) -> ConfigV
    decreases n,
{
    if n == 0 {
        c
    } else {
        spec_step(g, run_steps(g, c, (n - 1) as nat))
    }
}

/// Whether a configuration is at a halting point: no transition applies.
pub open spec fn at_halt(g: GrammarV, c: ConfigV) -> bool {
    lookup(g, c.state, tape_read(c.tape, c.pointer)) is None
}

/// A machine in flight: its grammar, tape, state, head, and halted flag.
pub struct TuringMachine {
    pub rules: Grammar,
    pub tape: HashMap<i64, usize>,
    pub state: usize,
    pub pointer: i64,
    pub done: bool,
}

impl TuringMachine {
    /// The configuration this machine is in.
    pub open spec fn cfg(&self) -> ConfigV {
        ConfigV { tape: self.tape@, state: self.state, pointer: self.pointer, done: self.done }
    }

    /// A fresh machine over a grammar: empty tape, head at 0, the
    /// grammar's initial state, not yet halted.
    pub fn new(rules: Grammar) -> (m: TuringMachine)
        ensures
            m.rules == rules,
            m.cfg() == (ConfigV {
                tape: Map::<i64, usize>::empty(),
                state: rules.init,
                pointer: 0,
                done: false,
            }),
    {
        let state = rules.init;
        TuringMachine { rules, tape: HashMap::new(), state, pointer: 0, done: false }
    }

    /// A fresh machine parsed from definition text.
    pub fn from_text(text: &[u8]) -> (r: Result<TuringMachine, ParseError>)
        ensures
            r matches Ok(m) ==> crate::grammar::spec_parse(text@) == Ok::<GrammarV, ParseErrorV>(
                m.rules@,
            ) && m.cfg() == (ConfigV {
                tape: Map::<i64, usize>::empty(),
                state: m.rules.init,
                pointer: 0,
                done: false,
            }),
            r matches Err(e) ==> crate::grammar::spec_parse(text@) == Err::<
                GrammarV,
                ParseErrorV,
            >(e@),
    {
        match Grammar::parse(text) {
            Err(e) => Err(e),
            Ok(g) => Ok(TuringMachine::new(g)),
        }
    }

    /// Write a whitespace-separated input onto the tape, right-aligned so
    /// the last token lands under the head at position 0. Fails on the
    /// first token (from the right) that is not a declared symbol. The
    /// length bound keeps every written position within the pointer type.
    pub fn input(self, text: &[u8]) -> (r: Result<TuringMachine, ParseError>)
        requires
            text@.len() <= i64::MAX,
        ensures
            ({
                let toks = split_ws(text@);
                let bad = first_unknown_from_right(self.rules@.syms, toks, 0);
                &&& bad == toks.len() ==> (r matches Ok(m) && m.rules == self.rules && m.state
                    == self.state && m.pointer == self.pointer && m.done == self.done && m.tape@
                    == input_tape(self.rules@, self.tape@, toks))
                &&& bad < toks.len() ==> (r matches Err(e) && e@ == ParseErrorV::UndeclaredSymbol(
                    toks[toks.len() - 1 - bad],
                ))
            }),
    {
        let toks = split_ws_exec(text);
        proof {
            crate::token::lemma_split_ws_len(text@, 0);
        }
        let ghost toksv = split_ws(text@);
        let ghost symsv = self.rules@.syms;
        let ghost base = self.tape@;
        let mut m = self;
        let mut j: usize = 0;
        while j < toks.len()
            invariant
                j <= toks@.len() <= i64::MAX,
                toksv == split_ws(text@),
                toks.deep_view() == toksv,
                m.rules == self.rules,
                symsv == self.rules@.syms,
                base == self.tape@,
                m.state == self.state,
                m.pointer == self.pointer,
                m.done == self.done,
                first_unknown_from_right(symsv, toksv, 0) == first_unknown_from_right(
                    symsv,
                    toksv,
                    j as int,
                ),
                m.tape@ =~= base.union_prefer_right(
                    Map::new(
                        |p: i64| -(j as int) < p as int <= 0,
                        |p: i64| idx_of(symsv, toksv[toksv.len() - 1 + p as int]) as usize,
                    ),
                ),
            decreases toks@.len() - j,
        {
            let t = &toks[toks.len() - 1 - j];
            proof {
                assert(toks.deep_view()[toksv.len() - 1 - j as int] =~= t@);
            }
            let k = idx_of_exec(&m.rules.syms, t.as_slice());
            if k == m.rules.syms.len() {
                return Err(ParseError::UndeclaredSymbol(copy_bytes(t)));
            }
            let pos: i64 = -(j as i64);
            m.tape.insert(pos, k);
            j = j + 1;
            proof {
                assert(m.tape@ =~= base.union_prefer_right(
                    Map::new(
                        |p: i64| -(j as int) < p as int <= 0,
                        |p: i64| idx_of(symsv, toksv[toksv.len() - 1 + p as int]) as usize,
                    ),
                ));
            }
        }
        proof {
            assert(m.tape@ =~= input_tape(self.rules@, self.tape@, toksv));
        }
        Ok(m)
    }

    /// The symbol under the head.
    fn read_head(&self) -> (y: usize)
        ensures
            y == tape_read(self.tape@, self.pointer),
    {
        match self.tape.get(&self.pointer) {
            Some(v) => *v,
            None => 0,
        }
    }

    /// Whether halting in the current state accepts.
    fn accepted(&self) -> (r: bool)
        ensures
            r == spec_accepted(self.rules@, self.state),
    {
        match &self.rules.finals {
            None => self.state == 0,
            Some(f) => {
                let mut i: usize = 0;
                while i < f.len()
                    invariant
                        i <= f@.len(),
                        spec_accepted(self.rules@, self.state) == f@.contains(self.state),
                        forall|k: int| 0 <= k < i ==> f@[k] != self.state,
                    decreases f@.len() - i,
                {
                    if f[i] == self.state {
                        return true;
                    }
                    i = i + 1;
                }
                assert(!f@.contains(self.state));
                false
            },
        }
    }

    /// One snapshot of the tape: a marker line pointing at the head's
    /// column, then a fixed window of 80 cells centred on the head, each
    /// unset cell shown as the blank symbol.
    pub fn get_string(&self) -> (r: Vec<u8>)
        ensures
            r@ == spec_render(self.rules@, self.tape@, self.pointer),
    {
        let mut out: Vec<u8> = Vec::new();
        let mut j: usize = 0;
        while j < 40
            invariant
                j <= 40,
                out@ =~= Seq::new(j as nat, |t: int| 32u8),
            decreases 40 - j,
        {
            out.push(32);
            j = j + 1;
            assert(out@ =~= Seq::new(j as nat, |t: int| 32u8));
        }
        out.push(118);
        out.push(10);
        assert(out@ =~= Seq::new(40, |t: int| 32u8) + seq![118u8, 10u8]);
        let ghost marker = out@;
        let mut k: usize = 0;
        while k < 80
            invariant
                k <= 80,
                out@ + render_cells(self.rules@, self.tape@, self.pointer, k as int) =~= marker
                    + render_cells(self.rules@, self.tape@, self.pointer, 0),
            decreases 80 - k,
        {
            let off: i64 = (k as i64) - 40;
            let pos = self.pointer.wrapping_add(off);
            let idx = match self.tape.get(&pos) {
                Some(v) => *v,
                None => 0,
            };
            let ghost prev = out@;
            if idx < self.rules.syms.len() {
                append_bytes(&mut out, self.rules.syms[idx].as_slice());
                proof {
                    assert(self.rules@.syms[idx as int] =~= self.rules.syms@[idx as int]@);
                }
            } else {
                let b = crate::grammar::blank_name_vec();
                append_bytes(&mut out, b.as_slice());
            }
            proof {
                assert(out@ =~= prev + sym_name(
                    self.rules@,
                    tape_read(self.tape@, self.pointer.wrapping_add(off)),
                ));
            }
            k = k + 1;
        }
        assert(out@ + Seq::<u8>::empty() =~= out@);
        out
    }

    /// One step of the trace. On a live machine: apply the transition for
    /// the current state and head symbol and return the snapshot taken
    /// before moving, or, if no transition exists, halt and return the
    /// terminal snapshot with its verdict. On a halted machine: `None`,
    /// and nothing changes.
    pub fn next(&mut self) -> (r: Option<Vec<u8>>)
        ensures
            old(self).done ==> r is None && *final(self) == *old(self),
            !old(self).done ==> {
                &&& final(self).rules == old(self).rules
                &&& final(self).cfg() == spec_step(old(self).rules@, old(self).cfg())
                &&& (r matches Some(snap) && snap@ == spec_snapshot(
                    old(self).rules@,
                    old(self).cfg(),
                ))
            },
    {
        if self.done {
            return None;
        }
        let mut snap = self.get_string();
        let cur = self.read_head();
        match self.rules.get_move(self.state, cur) {
            Some(st) => {
                self.state = st.next;
                self.tape.insert(self.pointer, st.write);
                match st.dir {
                    Dir::Left => {
                        self.pointer = self.pointer.wrapping_sub(1);
                    },
                    Dir::Right => {
                        self.pointer = self.pointer.wrapping_add(1);
                    },
                    Dir::Stay => {},
                }
            },
            None => {
                let acc = self.accepted();
                let mark: [u8; 13] = if acc {
                    [10, 32, 32, 32, 32, 65, 67, 67, 69, 80, 84, 69, 68]
                } else {
                    [10, 32, 32, 32, 32, 82, 69, 74, 69, 67, 84, 69, 68]
                };
                proof {
                    assert(mark@ =~= verdict_mark(spec_accepted(old(self).rules@, old(self).state)));
                }
                append_bytes(&mut snap, mark.as_slice());
                self.done = true;
            },
        }
        Some(snap)
    }
}

} // verus!
