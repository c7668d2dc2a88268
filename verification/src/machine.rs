//! The automaton engine: the closed set of control states, the transition
//! table stated as a specification over mathematical configurations, and the
//! executable engine that owns one tape, one head position and three one-bit
//! scratch registers and is proved to follow the table step by step.

use std::collections::HashMap;
use vstd::math::abs;
use vstd::prelude::*;

use crate::tape::{
    cell, covers, initial_tape, lemma_result_of_cover, lemma_trim_inner, result_of, sparse,
    tape_write, window, BLANK,
};

verus! {

/// The phases of the addition algorithm. `Halt` is the unique terminal state.
///
/// Consumed right-operand digits are overwritten with the marker `X`; each
/// column sum is written over the left operand as a marked digit, `a` for 0
/// and `b` for 1, so that a later pass can tell a finished column from an
/// unprocessed left digit. The cleanup phase unmarks `a` and `b` to `0` and
/// `1` and blanks the markers and the separator.
#[derive(Clone, Copy, Debug, PartialEq, Eq, Structural)]
pub enum State {
    /// Walk right to the end of the written input.
    ScanRight,
    /// Walk left to the next unconsumed right-operand digit and mark it.
    MarkRightDigit,
    /// Walk left to the separator between the operands.
    FindSpaceGoingLeft,
    /// Walk left past the finished columns, then add the recorded digit and
    /// the carry into the current column, writing the sum as a marked digit.
    AddDigits,
    /// Walk right back past the written input.
    ReturnRight,
    /// Ripple a remaining carry leftward once the right operand is consumed.
    PropagateCarry,
    /// Walk left to the start of the written span.
    FindStart,
    /// Walk right unmarking result digits and blanking markers and the
    /// separator.
    CleanupMarkers,
    /// Terminal: no outgoing transition.
    Halt,
}

/// The error that aborts a run: the head read a symbol for which the current
/// state has no transition rule. Unrecoverable; the engine is left exactly as
/// it was when the symbol was read.
#[derive(Clone, Copy, Debug, PartialEq, Eq, Structural)]
pub struct UnexpectedSymbol {
    pub state: State,
    pub symbol: char,
}

/// How a run that did not abort ended: in the terminal state after `steps`
/// transitions, or still working when the step budget ran out.
#[derive(Clone, Copy, Debug, PartialEq, Eq, Structural)]
pub enum RunOutcome {
    Halted { steps: usize },
    BudgetExhausted,
}

/// The mathematical state of the engine: tape contents, control state, head
/// position and the three scratch registers.
#[verifier::ext_equal]
pub struct Config {
    pub tape: Map<i128, char>,
    pub state: State,
    pub pos: int,
    pub right_digit: u8,
    pub left_digit: u8,
    pub carry: u8,
}

/// One transition of the table: from configuration `c`, the configuration one
/// step later, or the unexpected symbol on which the table has no rule.
pub open spec fn step_config(c: Config) -> Result<Config, char> {
    let sym = cell(c.tape, c.pos);
    match c.state {
        State::ScanRight => Ok(
            if sym == BLANK {
                Config { pos: c.pos - 1, state: State::MarkRightDigit, ..c }
            } else {
                Config { pos: c.pos + 1, ..c }
            },
        ),
        State::MarkRightDigit => {
            if sym == 'X' {
                Ok(Config { pos: c.pos - 1, ..c })
            } else if sym == '0' || sym == '1' {
                Ok(Config {
                    right_digit: if sym == '1' { 1 } else { 0 },
                    tape: tape_write(c.tape, c.pos, 'X'),
                    pos: c.pos - 1,
                    state: State::FindSpaceGoingLeft,
                    ..c
                })
            } else if sym == ' ' {
                if c.carry == 1 {
                    Ok(Config { pos: c.pos - 1, state: State::PropagateCarry, ..c })
                } else {
                    Ok(Config { state: State::FindStart, ..c })
                }
            } else if sym == BLANK {
                Ok(Config { pos: c.pos - 1, ..c })
            } else {
                Err(sym)
            }
        },
        State::FindSpaceGoingLeft => Ok(
            if sym == ' ' {
                Config { pos: c.pos - 1, state: State::AddDigits, ..c }
            } else {
                Config { pos: c.pos - 1, ..c }
            },
        ),
        State::AddDigits => {
            if sym == 'a' || sym == 'b' {
                // a finished column: its sum is already written
                Ok(Config { pos: c.pos - 1, ..c })
            } else if sym == '0' || sym == '1' || sym == 'X' || sym == BLANK {
                let ld: u8 = if sym == '1' { 1 } else { 0 };
                let sum = ld + c.right_digit + c.carry;
                Ok(Config {
                    left_digit: ld,
                    carry: (sum / 2) as u8,
                    tape: tape_write(c.tape, c.pos, if sum % 2 == 0 { 'a' } else { 'b' }),
                    pos: c.pos + 1,
                    state: State::ReturnRight,
                    ..c
                })
            } else {
                Err(sym)
            }
        },
        State::ReturnRight => Ok(
            if sym == BLANK {
                Config { pos: c.pos - 1, state: State::ScanRight, ..c }
            } else {
                Config { pos: c.pos + 1, ..c }
            },
        ),
        State::PropagateCarry => Ok(
            if sym == 'a' || sym == 'b' || sym == 'X' || sym == ' ' {
                // walk past finished columns and markers to the column the
                // carry belongs to
                Config { pos: c.pos - 1, ..c }
            } else if sym == '1' {
                // the carry ripples: this digit flips and the carry moves on
                Config { tape: tape_write(c.tape, c.pos, '0'), pos: c.pos - 1, ..c }
            } else {
                // a zero digit, a blank cell left of the operands, or any
                // other symbol absorbs the carry as a one
                Config {
                    tape: tape_write(c.tape, c.pos, '1'),
                    carry: 0,
                    state: State::FindStart,
                    ..c
                }
            },
        ),
        State::FindStart => Ok(
            if c.pos > -20 {
                if cell(c.tape, c.pos - 1) == BLANK {
                    Config { state: State::CleanupMarkers, ..c }
                } else {
                    Config { pos: c.pos - 1, ..c }
                }
            } else {
                // safety bound: snap back to the origin
                Config { pos: 0, state: State::CleanupMarkers, ..c }
            },
        ),
        State::CleanupMarkers => {
            if sym == 'X' || sym == ' ' {
                Ok(Config { tape: tape_write(c.tape, c.pos, BLANK), pos: c.pos + 1, ..c })
            } else if sym == 'a' {
                Ok(Config { tape: tape_write(c.tape, c.pos, '0'), pos: c.pos + 1, ..c })
            } else if sym == 'b' {
                Ok(Config { tape: tape_write(c.tape, c.pos, '1'), pos: c.pos + 1, ..c })
            } else if sym == BLANK {
                Ok(Config { state: State::Halt, ..c })
            } else {
                Ok(Config { pos: c.pos + 1, ..c })
            }
        },
        State::Halt => Ok(c),
    }
}

/// The outcome of a bounded run from a configuration under the table.
pub enum RunSpec {
    /// The terminal state was reached, in exactly `steps` transitions.
    Halted { end: Config, steps: nat },
    /// The budget ran out with the engine still working.
    Exhausted { end: Config },
    /// The table had no rule; the engine stays in the configuration that read
    /// the symbol.
    Failed { end: Config, state: State, symbol: char },
}

/// `r` with `k` more transitions charged to a halted outcome.
pub open spec fn add_steps(r: RunSpec, k: nat) -> RunSpec {
    match r {
        RunSpec::Halted { end, steps } => RunSpec::Halted { end, steps: steps + k },
        _ => r,
    }
}

/// Runs the table from `c` until the terminal state, for at most `budget`
/// transitions.
pub open spec fn run_from(c: Config, budget: nat) -> RunSpec
    decreases budget,
{
    if c.state == State::Halt {
        RunSpec::Halted { end: c, steps: 0 }
    } else if budget == 0 {
        RunSpec::Exhausted { end: c }
    } else {
        match step_config(c) {
            Err(sym) => RunSpec::Failed { end: c, state: c.state, symbol: sym },
            Ok(c2) => add_steps(run_from(c2, (budget - 1) as nat), 1),
        }
    }
}

/// One transition moves the head by at most one cell, except for the safety
/// snap back to the origin.
proof fn lemma_step_pos(c: Config)
    ensures
        step_config(c) matches Ok(c2) ==> c.pos - 1 <= c2.pos <= c.pos + 1 || c2.pos == 0,
{
}

/// The terminal state has no outgoing transition: a halted engine stays
/// halted, at no further cost, under any budget.
pub proof fn lemma_halt_is_terminal(c: Config, budget: nat)
    requires
        c.state == State::Halt,
    ensures
        step_config(c) == Ok::<Config, char>(c),
        run_from(c, budget) == (RunSpec::Halted { end: c, steps: 0 }),
{
}

/// A halted run never reports more transitions than its budget allows: the
/// step count that comes back with the terminal state is at most `budget`.
pub proof fn lemma_run_steps_within_budget(c: Config, budget: nat)
    ensures
        run_from(c, budget) matches RunSpec::Halted { end, steps } ==> steps <= budget,
    decreases budget,
{
    if c.state != State::Halt && budget > 0 {
        match step_config(c) {
            Ok(c2) => lemma_run_steps_within_budget(c2, (budget - 1) as nat),
            Err(_) => {},
        }
    }
}

/// One addition column is exact: from `AddDigits` on an unfinished column,
/// the marked digit written under the head and the carry kept behind satisfy
/// `digit + 2 * carry = left + right + old carry`.
pub proof fn lemma_add_digits_column_exact(c: Config)
    requires
        c.state == State::AddDigits,
        cell(c.tape, c.pos) == '0' || cell(c.tape, c.pos) == '1' || cell(c.tape, c.pos) == 'X'
            || cell(c.tape, c.pos) == BLANK,
        i128::MIN <= c.pos <= i128::MAX,
    ensures
        step_config(c) matches Ok(c2) ==> {
            let left: int = if cell(c.tape, c.pos) == '1' {
                1
            } else {
                0
            };
            let digit: int = if cell(c2.tape, c.pos) == 'b' {
                1
            } else {
                0
            };
            digit + 2 * c2.carry == left + c.right_digit + c.carry
        },
{
}

/// Result extraction is a pure function of the tape: engines whose tapes hold
/// the same entries extract the same string, so extracting twice from one
/// halted engine yields the same string both times.
pub proof fn lemma_result_extraction_idempotent(a: TuringMachine, b: TuringMachine)
    requires
        a.tape@ == b.tape@,
    ensures
        result_of(a.tape@) == result_of(b.tape@),
{
}

/// The engine: one sparse tape, the control state, the head position and the
/// scratch registers, together with conservative bounds on the occupied span.
pub struct TuringMachine {
    pub tape: HashMap<i128, char>,
    pub state: State,
    pub position: i128,
    pub right_digit: u8,
    pub left_digit: u8,
    pub carry: u8,
    /// No occupied position lies below this bound.
    pub lo: i128,
    /// No occupied position lies above this bound.
    pub hi: i128,
}

impl View for TuringMachine {
    type V = Config;

    open spec fn view(&self) -> Config {
        Config {
            tape: self.tape@,
            state: self.state,
            pos: self.position as int,
            right_digit: self.right_digit,
            left_digit: self.left_digit,
            carry: self.carry,
        }
    }
}

impl TuringMachine {
    /// The engine's invariant: the tape is sparse, the tracked bounds cover
    /// every occupied position, and the scratch registers hold single bits.
    pub open spec fn wf(self) -> bool {
        &&& sparse(self.tape@)
        &&& covers(self.tape@, self.lo as int, self.hi as int)
        &&& self.lo <= self.hi
        &&& self.right_digit <= 1
        &&& self.left_digit <= 1
        &&& self.carry <= 1
    }

    /// Loads the input onto the tape, one symbol per character starting at
    /// the origin, and puts the engine at the origin in the first state with
    /// cleared registers.
    pub fn new(input: &str) -> (m: TuringMachine)
        ensures
            m.wf(),
            m@ == (Config {
                tape: initial_tape(input@),
                state: State::ScanRight,
                pos: 0,
                right_digit: 0,
                left_digit: 0,
                carry: 0,
            }),
    {
        let n = input.unicode_len();
        let mut m = TuringMachine {
            tape: HashMap::new(),
            state: State::ScanRight,
            position: 0,
            right_digit: 0,
            left_digit: 0,
            carry: 0,
            lo: 0,
            hi: 0,
        };
        let mut i: usize = 0;
        while i < n
            invariant
                n == input@.len(),
                i <= n,
                m.wf(),
                m.state == State::ScanRight,
                m.position == 0,
                m.right_digit == 0,
                m.left_digit == 0,
                m.carry == 0,
                m.tape@ == initial_tape(input@.take(i as int)),
            decreases n - i,
        {
            let c = input.get_char(i);
            if c != BLANK {
                m.set_cell(i as i128, c);
            }
            proof {
                let prev = initial_tape(input@.take(i as int));
                let next = initial_tape(input@.take(i + 1));
                if c == BLANK {
                    assert(next =~= prev);
                } else {
                    assert(next =~= prev.insert(i as i128, c));
                }
            }
            i += 1;
        }
        proof {
            assert(input@.take(n as int) =~= input@);
        }
        m
    }

    /// Writes `c` at position `p`: blank removes the entry, any other symbol
    /// inserts or overwrites it, and the tracked bounds widen to keep
    /// covering the occupied span.
    fn set_cell(&mut self, p: i128, c: char)
        requires
            old(self).wf(),
        ensures
            final(self).wf(),
            final(self).tape@ == tape_write(old(self).tape@, p as int, c),
            final(self).state == old(self).state,
            final(self).position == old(self).position,
            final(self).right_digit == old(self).right_digit,
            final(self).left_digit == old(self).left_digit,
            final(self).carry == old(self).carry,
    {
        if c == BLANK {
            self.tape.remove(&p);
        } else {
            self.tape.insert(p, c);
            if p < self.lo {
                self.lo = p;
            }
            if p > self.hi {
                self.hi = p;
            }
        }
    }

    /// The symbol at position `p`, blank where no entry exists.
    fn read_at(&self, p: i128) -> (c: char)
        ensures
            c == cell(self.tape@, p as int),
    {
        match self.tape.get(&p) {
            Some(c) => *c,
            None => BLANK,
        }
    }

    /// Reads the symbol under the head. Total: every position is implicitly
    /// defined, so reading never fails.
    pub fn read(&self) -> (c: char)
        ensures
            c == cell(self.tape@, self.position as int),
    {
        self.read_at(self.position)
    }

    /// Writes `c` at the head position: blank removes the cell, any other
    /// symbol inserts or overwrites it. No cell but the one under the head
    /// changes.
    pub fn write(&mut self, c: char)
        requires
            old(self).wf(),
        ensures
            final(self).wf(),
            final(self)@ == (Config { tape: tape_write(old(self)@.tape, old(self)@.pos, c), ..old(self)@ }),
    {
        let p = self.position;
        self.set_cell(p, c);
    }

    /// One transition of the table: reads the symbol under the head and
    /// applies the rule of the current state. Where the table has no rule the
    /// symbol is reported and the engine is left unchanged.
    pub fn step(&mut self) -> (r: Result<(), UnexpectedSymbol>)
        requires
            old(self).wf(),
            i128::MIN < old(self).position < i128::MAX,
        ensures
            final(self).wf(),
            (match step_config(old(self)@) {
                Ok(c) => r is Ok && final(self)@ == c,
                Err(sym) => {
                    &&& final(self)@ == old(self)@
                    &&& r == Err::<(), UnexpectedSymbol>(UnexpectedSymbol {
                        state: old(self).state,
                        symbol: sym,
                    })
                },
            }),
    {
        let c = self.read();
        match self.state {
            State::ScanRight => {
                if c == BLANK {
                    self.position -= 1;
                    self.state = State::MarkRightDigit;
                } else {
                    self.position += 1;
                }
                Ok(())
            },
            State::MarkRightDigit => {
                if c == 'X' {
                    self.position -= 1;
                    Ok(())
                } else if c == '0' || c == '1' {
                    self.right_digit = if c == '1' { 1 } else { 0 };
                    self.write('X');
                    self.position -= 1;
                    self.state = State::FindSpaceGoingLeft;
                    Ok(())
                } else if c == ' ' {
                    if self.carry == 1 {
                        self.position -= 1;
                        self.state = State::PropagateCarry;
                    } else {
                        self.state = State::FindStart;
                    }
                    Ok(())
                } else if c == BLANK {
                    self.position -= 1;
                    Ok(())
                } else {
                    Err(UnexpectedSymbol { state: self.state, symbol: c })
                }
            },
            State::FindSpaceGoingLeft => {
                if c == ' ' {
                    self.position -= 1;
                    self.state = State::AddDigits;
                } else {
                    self.position -= 1;
                }
                Ok(())
            },
            State::AddDigits => {
                if c == 'a' || c == 'b' {
                    self.position -= 1;
                    Ok(())
                } else if c == '0' || c == '1' || c == 'X' || c == BLANK {
                    let ld: u8 = if c == '1' { 1 } else { 0 };
                    self.left_digit = ld;
                    let sum: u8 = ld + self.right_digit + self.carry;
                    let digit = sum % 2;
                    self.carry = sum / 2;
                    self.write(if digit == 0 { 'a' } else { 'b' });
                    self.position += 1;
                    self.state = State::ReturnRight;
                    Ok(())
                } else {
                    Err(UnexpectedSymbol { state: self.state, symbol: c })
                }
            },
            State::ReturnRight => {
                if c == BLANK {
                    self.position -= 1;
                    self.state = State::ScanRight;
                } else {
                    self.position += 1;
                }
                Ok(())
            },
            State::PropagateCarry => {
                if c == 'a' || c == 'b' || c == 'X' || c == ' ' {
                    self.position -= 1;
                } else if c == '1' {
                    self.write('0');
                    self.position -= 1;
                } else {
                    self.write('1');
                    self.carry = 0;
                    self.state = State::FindStart;
                }
                Ok(())
            },
            State::FindStart => {
                if self.position > -20 {
                    self.position -= 1;
                    let under = self.read();
                    if under == BLANK {
                        self.position += 1;
                        self.state = State::CleanupMarkers;
                    }
                } else {
                    self.position = 0;
                    self.state = State::CleanupMarkers;
                }
                Ok(())
            },
            State::CleanupMarkers => {
                if c == 'X' || c == ' ' {
                    self.write(BLANK);
                    self.position += 1;
                } else if c == 'a' {
                    self.write('0');
                    self.position += 1;
                } else if c == 'b' {
                    self.write('1');
                    self.position += 1;
                } else if c == BLANK {
                    self.state = State::Halt;
                } else {
                    self.position += 1;
                }
                Ok(())
            },
            State::Halt => Ok(()),
        }
    }

    /// Runs single steps until the terminal state is reached or `max_steps`
    /// transitions have been taken, whichever comes first. An unexpected
    /// symbol aborts the whole run at once and leaves the engine exactly as
    /// it was when the symbol was read.
    pub fn run(&mut self, max_steps: usize) -> (r: Result<RunOutcome, UnexpectedSymbol>)
        requires
            old(self).wf(),
            abs(old(self).position as int) + max_steps < i128::MAX,
        ensures
            final(self).wf(),
            (match run_from(old(self)@, max_steps as nat) {
                RunSpec::Halted { end, steps } => {
                    &&& r matches Ok(RunOutcome::Halted { steps: n }) && n == steps
                    &&& final(self)@ == end
                },
                RunSpec::Exhausted { end } => {
                    &&& r == Ok::<RunOutcome, UnexpectedSymbol>(RunOutcome::BudgetExhausted)
                    &&& final(self)@ == end
                },
                RunSpec::Failed { end, state, symbol } => {
                    &&& r == Err::<RunOutcome, UnexpectedSymbol>(UnexpectedSymbol {
                        state: state,
                        symbol: symbol,
                    })
                    &&& final(self)@ == end
                },
            }),
    {
        let ghost c0 = old(self)@;
        let mut steps: usize = 0;
        while self.state != State::Halt && steps < max_steps
            invariant
                c0 == old(self)@,
                self.wf(),
                steps <= max_steps,
                abs(c0.pos) + max_steps < i128::MAX,
                abs(self@.pos) <= abs(c0.pos) + steps,
                run_from(c0, max_steps as nat) == add_steps(
                    run_from(self@, (max_steps - steps) as nat),
                    steps as nat,
                ),
            decreases max_steps - steps,
        {
            let ghost pre = self@;
            let res = self.step();
            proof {
                lemma_step_pos(pre);
            }
            match res {
                Ok(()) => {
                    steps += 1;
                },
                Err(e) => {
                    proof {
                        let sym = step_config(pre)->Err_0;
                        assert(run_from(pre, (max_steps - steps) as nat) == (RunSpec::Failed {
                            end: pre,
                            state: pre.state,
                            symbol: sym,
                        }));
                    }
                    return Err(e);
                },
            }
        }
        if self.state == State::Halt {
            Ok(RunOutcome::Halted { steps })
        } else {
            Ok(RunOutcome::BudgetExhausted)
        }
    }

    /// The extracted result: the single digit `0` for a tape that holds
    /// nothing, otherwise every symbol of the occupied span, blanks
    /// substituted for unwritten cells, with leading and trailing blanks
    /// stripped.
    pub fn get_result(&self) -> (r: String)
        requires
            self.wf(),
        ensures
            r@ == result_of(self.tape@),
    {
        if self.tape.is_empty() {
            proof {
                reveal_strlit("0");
            }
            return String::from_str("0");
        }
        let ghost t = self.tape@;
        proof {
            assert(exists|k: i128| t.dom().contains(k)) by {
                if forall|k: i128| !#[trigger] t.dom().contains(k) {
                    assert(t.dom() =~= Set::<i128>::empty());
                }
            }
        }
        let mut chars: Vec<char> = Vec::new();
        let mut p: i128 = self.lo;
        while p < self.hi
            invariant
                self.wf(),
                t == self.tape@,
                self.lo <= p <= self.hi,
                chars@ == window(t, self.lo as int, p - 1),
            decreases self.hi - p,
        {
            chars.push(self.read_at(p));
            p += 1;
            proof {
                assert(chars@ =~= window(t, self.lo as int, p - 1));
            }
        }
        chars.push(self.read_at(p));
        proof {
            assert(chars@ =~= window(t, self.lo as int, self.hi as int));
        }
        let ghost w = chars@;
        let n = chars.len();
        proof {
            let k = choose|k: i128| t.dom().contains(k);
            assert(self.lo <= k <= self.hi);
            assert(w[k - self.lo] == t[k]);
            assert(w[k - self.lo] != BLANK);
        }
        let mut first: usize = 0;
        while chars[first] == BLANK
            invariant
                w == chars@,
                n == w.len(),
                first < n,
                forall|k: int| 0 <= k < first ==> w[k] == BLANK,
                exists|k: int| first <= k < w.len() && w[k] != BLANK,
            decreases n - first,
        {
            first += 1;
        }
        let mut last: usize = n - 1;
        while chars[last] == BLANK
            invariant
                w == chars@,
                n == w.len(),
                first <= last < n,
                w[first as int] != BLANK,
                forall|k: int| last < k < w.len() ==> w[k] == BLANK,
            decreases last,
        {
            last -= 1;
        }
        let mut out = String::new();
        let mut i = first;
        while i <= last
            invariant
                w == chars@,
                n == w.len(),
                first <= i <= last + 1,
                last < n,
                out@ == w.subrange(first as int, i as int),
            decreases last + 1 - i,
        {
            out.push(chars[i]);
            proof {
                assert(out@ =~= w.subrange(first as int, i + 1));
            }
            i += 1;
        }
        proof {
            lemma_trim_inner(w, first as int, last as int);
            lemma_result_of_cover(t, self.lo as int, self.hi as int);
        }
        out
    }
}

/// Relies on String::push: appends the given character to the end of the
/// string.
pub assume_specification[ String::push ](s: &mut String, c: char)
    ensures
        final(s)@ == old(s)@.push(c),
;

} // verus!
