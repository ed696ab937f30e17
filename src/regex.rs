//! A table-driven pattern matcher.
//!
//! A pattern compiles to a sequence of columns, one per pattern atom, each a
//! row of actions indexed by symbol code. Column 0 is the failure sink and the
//! index one past the last column accepts, once the whole input is read. `.`
//! matches any printable symbol, `$` matches only the end of the input and `*`
//! lets the preceding atom repeat zero or more times (greedily, without
//! backtracking).
use vstd::prelude::*;

use crate::text::chars_of;

verus! {

/// Width of a transition row: one slot per symbol code.
pub const FSM_COLUMN_SIZE: usize = 130;

/// The last slot of a row, reserved for the end of the input.
pub const FSM_NEW_LINE: usize = FSM_COLUMN_SIZE - 1;

pub type FsmIndex = usize;

/// One entry of a transition row: the state to go to and how far the input
/// cursor moves.
#[derive(Clone, Copy, Debug, PartialEq, Eq, Structural)]
pub struct FsmAction {
    pub next: FsmIndex,
    pub offset: i32,
}

impl View for FsmAction {
    type V = (int, int);

    open spec fn view(&self) -> (int, int) {
        (self.next as int, self.offset as int)
    }
}

/// One state of the machine: an action for every symbol code.
#[derive(Debug)]
pub struct FsmColumn {
    pub transition: Vec<FsmAction>,
}

impl View for FsmColumn {
    type V = Seq<(int, int)>;

    open spec fn view(&self) -> Seq<(int, int)> {
        self.transition@.map_values(|a: FsmAction| a@)
    }
}

/// A compiled pattern.
pub struct Regex {
    columns: Vec<FsmColumn>,
}

impl View for Regex {
    type V = Seq<Seq<(int, int)>>;

    closed spec fn view(&self) -> Seq<Seq<(int, int)>> {
        self.columns@.map_values(|c: FsmColumn| c@)
    }
}

// ---------------------------------------------------------------------------
// The model: rows and tables of (next state, head movement) pairs.

/// The table slot of symbol `c`.
pub open spec fn symbol_code(c: char) -> int {
    (c as u32) as int
}

/// The action that leads to the failure sink.
pub open spec fn fail_action() -> (int, int) {
    (0, 0)
}

/// The action that consumes one symbol and goes to state `k`.
pub open spec fn advance(k: int) -> (int, int) {
    (k, 1)
}

/// A row that fails on every symbol.
pub open spec fn empty_row() -> Seq<(int, int)> {
    Seq::new(FSM_COLUMN_SIZE as nat, |i: int| fail_action())
}

/// The row of a literal symbol `c` for a state whose successor is `k`: the
/// symbol's own slot advances. A symbol beyond the table has no slot, so its
/// row fails.
pub open spec fn literal_row(c: char, k: int) -> Seq<(int, int)> {
    if symbol_code(c) < FSM_COLUMN_SIZE {
        empty_row().update(symbol_code(c), advance(k))
    } else {
        empty_row()
    }
}

/// The row of the wildcard: every printable symbol advances.
pub open spec fn any_row(k: int) -> Seq<(int, int)> {
    Seq::new(
        FSM_COLUMN_SIZE as nat,
        |i: int|
            if is_printable_code(i) {
                advance(k)
            } else {
                fail_action()
            },
    )
}

/// The row of the end anchor: only the end-of-input slot advances.
pub open spec fn end_row(k: int) -> Seq<(int, int)> {
    empty_row().update(FSM_NEW_LINE as int, advance(k))
}

/// Symbol codes that the wildcard accepts.
pub open spec fn is_printable_code(i: int) -> bool {
    32 <= i < 127
}

/// The row compiled for pattern symbol `c` at a state whose successor is `k`.
pub open spec fn atom_row(c: char, k: int) -> Seq<(int, int)> {
    if c == '.' {
        any_row(k)
    } else if c == '$' {
        end_row(k)
    } else {
        literal_row(c, k)
    }
}

/// Repetition applied to the last row of a table of `n` states: a successful
/// match loops back onto the same state, a failing one falls through to the
/// next state without consuming.
pub open spec fn starred_row(row: Seq<(int, int)>, n: int) -> Seq<(int, int)> {
    row.map_values(
        |a: (int, int)|
            if a.0 == n {
                (n - 1, a.1)
            } else if a.0 == 0 {
                (n, 0)
            } else {
                a
            },
    )
}

/// One compilation step: the table so far, whether its last state is an atom
/// that repetition may still apply to, and the next pattern symbol. A `*` with
/// no such atom before it is ignored.
pub open spec fn compile_step(t: Seq<Seq<(int, int)>>, open: bool, c: char) -> (
    Seq<Seq<(int, int)>>,
    bool,
) {
    if c == '*' {
        if open {
            (t.update(t.len() - 1, starred_row(t.last(), t.len() as int)), false)
        } else {
            (t, false)
        }
    } else {
        (t.push(atom_row(c, t.len() as int + 1)), true)
    }
}

/// The compilation of `p`, symbol by symbol from the left.
pub open spec fn compile_state(p: Seq<char>) -> (Seq<Seq<(int, int)>>, bool)
    decreases p.len(),
{
    if p.len() == 0 {
        (seq![empty_row()], false)
    } else {
        let (t, open) = compile_state(p.drop_last());
        compile_step(t, open, p.last())
    }
}

/// The table compiled from pattern `p`.
pub open spec fn compiled(p: Seq<char>) -> Seq<Seq<(int, int)>> {
    compile_state(p).0
}

/// The action for input symbol `c` in `row`; a symbol outside the input slots
/// fails.
pub open spec fn lookup(row: Seq<(int, int)>, c: char) -> (int, int) {
    if symbol_code(c) < FSM_NEW_LINE {
        row[symbol_code(c)]
    } else {
        fail_action()
    }
}

/// Whether an action taken in `state` makes progress: it stays with one symbol
/// consumed, or moves to the next state consuming zero or one symbol.
pub open spec fn moves_forward(a: (int, int), state: int) -> bool {
    ||| (a.0 == state && a.1 == 1)
    ||| (a.0 == state + 1 && (a.1 == 0 || a.1 == 1))
}

/// The verdict of running table `t` on `input` from `state` with the cursor at
/// `head`: actions are taken while the state is a real one and input is left;
/// once the input is exhausted the end-of-input slot is consulted once. The
/// input is accepted when the state reaches the accept index with the whole
/// input read. Compiled tables always make progress; a step that does not is
/// taken as a failure.
pub open spec fn run(t: Seq<Seq<(int, int)>>, input: Seq<char>, state: int, head: int) -> bool
    decreases (input.len() - head) + (t.len() - state),
{
    if state <= 0 {
        false
    } else if state >= t.len() {
        head >= input.len()
    } else if head >= input.len() || head < 0 {
        head >= input.len() && t[state][FSM_NEW_LINE as int].0 >= t.len()
    } else {
        let a = lookup(t[state], input[head]);
        if a.0 != 0 && moves_forward(a, state) {
            run(t, input, a.0, head + a.1)
        } else {
            false
        }
    }
}

/// Whether table `t` accepts `input`: the run starts at state 1 with the
/// cursor on the first symbol.
pub open spec fn accepts(t: Seq<Seq<(int, int)>>, input: Seq<char>) -> bool {
    run(t, input, 1, 0)
}

/// Whether pattern `p` matches the whole of `input`.
pub open spec fn pattern_matches(p: Seq<char>, input: Seq<char>) -> bool {
    accepts(compiled(p), input)
}

/// A table in which every real state only makes progress.
pub open spec fn wf_table(t: Seq<Seq<(int, int)>>) -> bool {
    &&& t.len() >= 1
    &&& forall|s: int| 0 <= s < t.len() ==> (#[trigger] t[s]).len() == FSM_COLUMN_SIZE
    &&& forall|s: int, i: int|
        1 <= s < t.len() && 0 <= i < FSM_COLUMN_SIZE ==> {
            let a = #[trigger] t[s][i];
            a.0 == 0 || moves_forward(a, s)
        }
}

/// A row that repetition has not touched: each action fails or advances to
/// `n`, consuming one symbol.
pub open spec fn fresh_row(row: Seq<(int, int)>, n: int) -> bool {
    forall|i: int| 0 <= i < row.len() ==> (#[trigger] row[i] == fail_action() || row[i] == advance(n))
}

// ---------------------------------------------------------------------------
// Facts about compiled tables.

/// A freshly compiled row is full width, and each of its actions fails or
/// advances to `k`.
pub proof fn lemma_atom_row(c: char, k: int)
    ensures
        atom_row(c, k).len() == FSM_COLUMN_SIZE,
        fresh_row(atom_row(c, k), k),
{
    let row = atom_row(c, k);
    assert forall|i: int| 0 <= i < row.len() implies (#[trigger] row[i] == fail_action()
        || row[i] == advance(k)) by {
        if c != '.' && c != '$' && symbol_code(c) < FSM_COLUMN_SIZE {
            assert(row == empty_row().update(symbol_code(c), advance(k)));
        }
    }
}

/// Compilation yields a table whose states only make progress; while
/// repetition may still apply, the last row is untouched.
pub proof fn lemma_compile_wf(p: Seq<char>)
    ensures
        wf_table(compiled(p)),
        compiled(p).len() <= p.len() + 1,
        compile_state(p).1 ==> compiled(p).len() >= 2 && fresh_row(
            compiled(p).last(),
            compiled(p).len() as int,
        ),
    decreases p.len(),
{
    if p.len() > 0 {
        lemma_compile_wf(p.drop_last());
        let (t, open) = compile_state(p.drop_last());
        let c = p.last();
        let n = t.len() as int;
        if c == '*' {
            if open {
                let t2 = compiled(p);
                assert forall|s: int, i: int|
                    1 <= s < t2.len() && 0 <= i < FSM_COLUMN_SIZE implies {
                        let a = #[trigger] t2[s][i];
                        a.0 == 0 || moves_forward(a, s)
                    } by {
                    if s == n - 1 {
                        assert(t.last()[i] == fail_action() || t.last()[i] == advance(n));
                    }
                }
            }
        } else {
            let row = atom_row(c, n + 1);
            lemma_atom_row(c, n + 1);
            let t2 = compiled(p);
            assert(t2 == t.push(row));
            assert forall|s: int, i: int|
                1 <= s < t2.len() && 0 <= i < FSM_COLUMN_SIZE implies {
                    let a = #[trigger] t2[s][i];
                    a.0 == 0 || moves_forward(a, s)
                } by {
                if s == n {
                    assert(row[i] == fail_action() || row[i] == advance(n + 1));
                } else {
                    assert(t2[s] == t[s]);
                }
            }
        }
    }
}

/// Whether pattern symbol `p`, read as an atom of its own, accepts input
/// symbol `c`.
pub open spec fn symbol_accepts(p: char, c: char) -> bool {
    if p == '.' {
        is_printable_code(symbol_code(c))
    } else {
        p == c && symbol_code(c) < FSM_NEW_LINE
    }
}

/// A pattern with neither repetition nor end anchor, nor the symbol whose
/// code is the end-of-input slot.
pub open spec fn is_plain(p: Seq<char>) -> bool {
    forall|i: int|
        0 <= i < p.len() ==> #[trigger] p[i] != '*' && p[i] != '$' && symbol_code(p[i])
            != FSM_NEW_LINE
}

/// A plain pattern compiles to one row per symbol after the sink.
proof fn lemma_plain_shape(p: Seq<char>)
    requires
        is_plain(p),
    ensures
        compiled(p).len() == p.len() + 1,
        compile_state(p).1 == (p.len() > 0),
        forall|k: int| 1 <= k <= p.len() ==> #[trigger] compiled(p)[k] == atom_row(p[k - 1], k + 1),
    decreases p.len(),
{
    if p.len() > 0 {
        let q = p.drop_last();
        assert(is_plain(q)) by {
            assert(forall|i: int| 0 <= i < q.len() ==> #[trigger] q[i] == p[i]);
        }
        lemma_plain_shape(q);
        assert(p.last() == p[p.len() - 1]);
        assert forall|k: int| 1 <= k <= p.len() implies #[trigger] compiled(p)[k] == atom_row(
            p[k - 1],
            k + 1,
        ) by {
            if k < p.len() {
                assert(compiled(p)[k] == compiled(q)[k]);
                assert(q[k - 1] == p[k - 1]);
            }
        }
    }
}

/// The action of a compiled atom row on one input symbol.
proof fn lemma_atom_lookup(p: char, c: char, k: int)
    requires
        p != '*',
        p != '$',
        symbol_code(p) != FSM_NEW_LINE,
    ensures
        lookup(atom_row(p, k), c) == if symbol_accepts(p, c) {
            advance(k)
        } else {
            fail_action()
        },
        atom_row(p, k)[FSM_NEW_LINE as int] == fail_action(),
{
    vstd::utf8::char_u32_cast(p, p as u32);
    vstd::utf8::char_u32_cast(c, c as u32);
}

/// The run of a table whose states `1..=p.len()` are those of plain pattern
/// `p`, from the state of its `k`-th symbol with the cursor on input symbol
/// `k - 1`: it passes those states exactly when the input symbols are
/// accepted one by one, and then goes on from state `p.len() + 1`.
proof fn lemma_plain_run(t: Seq<Seq<(int, int)>>, p: Seq<char>, s: Seq<char>, k: int)
    requires
        is_plain(p),
        t.len() >= p.len() + 1,
        forall|j: int| 1 <= j <= p.len() ==> #[trigger] t[j] == atom_row(p[j - 1], j + 1),
        1 <= k <= p.len() + 1,
        k - 1 <= s.len(),
    ensures
        run(t, s, k, k - 1) <==> (s.len() >= p.len() && (forall|i: int|
            k - 1 <= i < p.len() ==> #[trigger] symbol_accepts(p[i], s[i])) && run(
            t,
            s,
            p.len() as int + 1,
            p.len() as int,
        )),
    decreases p.len() + 1 - k,
{
    if k <= p.len() {
        assert(t[k] == atom_row(p[k - 1], k + 1));
        lemma_atom_lookup(p[k - 1], s[k - 1], k + 1);
        if k - 1 < s.len() {
            lemma_plain_run(t, p, s, k + 1);
            if !symbol_accepts(p[k - 1], s[k - 1]) {
                assert(!run(t, s, k, k - 1));
            }
        } else {
            assert(!run(t, s, k, k - 1));
        }
    }
}

/// A pattern with neither repetition nor end anchor matches an input exactly
/// when the input has the pattern's length and each pattern symbol accepts
/// the input symbol at its position.
pub proof fn lemma_plain_pattern(p: Seq<char>, s: Seq<char>)
    requires
        is_plain(p),
    ensures
        pattern_matches(p, s) <==> (s.len() == p.len() && forall|i: int|
            0 <= i < p.len() ==> #[trigger] symbol_accepts(p[i], s[i])),
{
    lemma_plain_shape(p);
    lemma_plain_run(compiled(p), p, s, 1);
}

/// A pattern with neither repetition nor end anchor, followed by `$`,
/// matches an input exactly when the input has the pattern's length and each
/// pattern symbol accepts the input symbol at its position.
pub proof fn lemma_anchored_pattern(p: Seq<char>, s: Seq<char>)
    requires
        is_plain(p),
    ensures
        pattern_matches(p.push('$'), s) <==> (s.len() == p.len() && forall|i: int|
            0 <= i < p.len() ==> #[trigger] symbol_accepts(p[i], s[i])),
{
    lemma_plain_shape(p);
    let q = p.push('$');
    assert(q.drop_last() =~= p);
    let t = compiled(q);
    let n = p.len() as int;
    assert(t == compiled(p).push(end_row(n + 2)));
    assert forall|j: int| 1 <= j <= p.len() implies #[trigger] t[j] == atom_row(p[j - 1], j + 1) by {
        assert(t[j] == compiled(p)[j]);
    }
    lemma_plain_run(t, p, s, 1);
    if s.len() > n {
        assert(!run(t, s, n + 1, n));
    }
}

/// A pattern of literal symbols that input can hold matches exactly itself.
pub proof fn lemma_literal_pattern(p: Seq<char>, s: Seq<char>)
    requires
        forall|i: int|
            0 <= i < p.len() ==> #[trigger] p[i] != '*' && p[i] != '$' && p[i] != '.'
                && symbol_code(p[i]) < FSM_NEW_LINE,
    ensures
        pattern_matches(p, s) <==> s == p,
{
    lemma_plain_pattern(p, s);
    if s.len() == p.len() && (forall|i: int| 0 <= i < p.len() ==> #[trigger] symbol_accepts(p[i], s[i])) {
        assert forall|i: int| 0 <= i < p.len() implies s[i] == p[i] by {
            assert(symbol_accepts(p[i], s[i]));
        }
        assert(s =~= p);
    }
}

/// A run that still has to read input symbol `j`, whose code has no input
/// slot, fails.
proof fn lemma_unreadable_run(t: Seq<Seq<(int, int)>>, s: Seq<char>, state: int, head: int, j: int)
    requires
        0 <= head <= j < s.len(),
        symbol_code(s[j]) >= FSM_NEW_LINE,
    ensures
        !run(t, s, state, head),
    decreases (s.len() - head) + (t.len() - state),
{
    if 0 < state < t.len() && head < j {
        let a = lookup(t[state], s[head]);
        if a.0 != 0 && moves_forward(a, state) {
            lemma_unreadable_run(t, s, a.0, head + a.1, j);
        }
    }
}

/// No pattern matches an input holding a symbol that the table has no input
/// slot for.
pub proof fn lemma_unreadable_input(p: Seq<char>, s: Seq<char>, j: int)
    requires
        0 <= j < s.len(),
        symbol_code(s[j]) >= FSM_NEW_LINE,
    ensures
        !pattern_matches(p, s),
{
    lemma_unreadable_run(compiled(p), s, 1, 0, j);
}

/// Compiling is deterministic: two machines compiled from the same pattern
/// have the same table and give the same verdict on every input.
pub proof fn lemma_compile_deterministic(r1: &Regex, r2: &Regex, p: Seq<char>, s: Seq<char>)
    requires
        r1@ == compiled(p),
        r2@ == compiled(p),
    ensures
        r1@ == r2@,
        accepts(r1@, s) == accepts(r2@, s),
{
}

// ---------------------------------------------------------------------------
// Executable code.

impl FsmColumn {
    /// A column that fails on every symbol.
    pub fn new() -> (r: FsmColumn)
        ensures
            r@ == empty_row(),
            r.transition@.len() == FSM_COLUMN_SIZE,
    {
        let r = FsmColumn { transition: vec![FsmAction { next: 0, offset: 0 }; FSM_COLUMN_SIZE] };
        assert(r@ =~= empty_row());
        r
    }

    /// The column of a literal symbol whose successor state is `k`.
    pub fn literal(c: char, k: usize) -> (r: FsmColumn)
        ensures
            r@ == literal_row(c, k as int),
    {
        let mut r = FsmColumn::new();
        let code = c as u32;
        if code < (FSM_COLUMN_SIZE as u32) {
            r.transition.set(code as usize, FsmAction { next: k, offset: 1 });
        }
        assert(r@ =~= literal_row(c, k as int));
        r
    }

    /// The wildcard column whose successor state is `k`.
    pub fn any(k: usize) -> (r: FsmColumn)
        ensures
            r@ == any_row(k as int),
    {
        let mut r = FsmColumn::new();
        assert(forall|j: int| 0 <= j < FSM_COLUMN_SIZE ==> (#[trigger] r.transition@[j])@ == r@[j]);
        for i in 32..127usize
            invariant
                r.transition@.len() == FSM_COLUMN_SIZE,
                forall|j: int|
                    0 <= j < FSM_COLUMN_SIZE ==> (#[trigger] r.transition@[j])@ == (if 32 <= j < i {
                        advance(k as int)
                    } else {
                        fail_action()
                    }),
        {
            r.transition.set(i, FsmAction { next: k, offset: 1 });
        }
        assert(r@ =~= any_row(k as int));
        r
    }

    /// The end-anchor column whose successor state is `k`.
    pub fn end(k: usize) -> (r: FsmColumn)
        ensures
            r@ == end_row(k as int),
    {
        let mut r = FsmColumn::new();
        r.transition.set(FSM_NEW_LINE, FsmAction { next: k, offset: 1 });
        assert(r@ =~= end_row(k as int));
        r
    }
}

impl Regex {
    /// Compiles `src`, one symbol at a time. A `*` rewrites the last state in
    /// place rather than adding one; a `*` with no atom before it is ignored.
    pub fn compile(src: &str) -> (r: Regex)
        requires
            src@.len() < usize::MAX,
        ensures
            r.wf(),
            r@ == compiled(src@),
    {
        let pattern = chars_of(src);
        let mut fsm = Regex { columns: Vec::new() };
        fsm.push(FsmColumn::new());
        assert(fsm@ =~= compiled(pattern@.take(0)));
        let mut open = false;
        let mut i: usize = 0;
        while i < pattern.len()
            invariant
                i <= pattern@.len(),
                pattern@ == src@,
                src@.len() < usize::MAX,
                fsm@ == compiled(pattern@.take(i as int)),
                open == compile_state(pattern@.take(i as int)).1,
                fsm.columns.len() == fsm@.len(),
            decreases pattern.len() - i,
        {
            proof {
                lemma_compile_wf(pattern@.take(i as int));
                assert(pattern@.take(i + 1).drop_last() =~= pattern@.take(i as int));
            }
            let c = pattern[i];
            let n = fsm.columns.len();
            if c == '*' {
                if open {
                    fsm.star_last();
                }
                open = false;
            } else {
                let col = if c == '.' {
                    FsmColumn::any(n + 1)
                } else if c == '$' {
                    FsmColumn::end(n + 1)
                } else {
                    FsmColumn::literal(c, n + 1)
                };
                fsm.push(col);
                open = true;
            }
            i += 1;
        }
        proof {
            assert(pattern@.take(i as int) =~= src@);
            lemma_compile_wf(src@);
        }
        fsm
    }

    /// Runs the machine on `input`: from state 1, take the action for the
    /// symbol under the cursor while the state is a real one and input is
    /// left; then, if still short of the accept index, consult the
    /// end-of-input slot once. Accepts when the accept index is reached
    /// with the whole input read.
    pub fn match_str(&self, input: &str) -> (r: bool)
        requires
            self.wf(),
        ensures
            r == accepts(self@, input@),
    {
        let chars = chars_of(input);
        let len = self.columns.len();
        let mut state: usize = 1;
        let mut head: usize = 0;
        while 0 < state && state < len && head < chars.len()
            invariant
                self.wf(),
                len == self@.len(),
                chars@ == input@,
                0 <= state <= len,
                head <= chars.len(),
                run(self@, input@, state as int, head as int) == accepts(self@, input@),
            decreases (chars.len() - head) + (len - state),
        {
            let c = chars[head];
            let code = c as u32;
            let action = if code < (FSM_NEW_LINE as u32) {
                self.action(state, code as usize)
            } else {
                FsmAction { next: 0, offset: 0 }
            };
            assert(action@ == lookup(self@[state as int], input@[head as int]));
            if action.next == 0 {
                return false;
            }
            state = action.next;
            head = head + action.offset as usize;
        }
        if state == 0 {
            return false;
        }
        if state < len {
            let action = self.action(state, FSM_NEW_LINE);
            state = action.next;
        }
        state >= len && head == chars.len()
    }

    /// Applies repetition to the last state: actions that advanced to the
    /// accept index now loop back, failing ones fall through without
    /// consuming. The last row is untouched by repetition so far, so no
    /// action of any other kind can meet the rewrite.
    fn star_last(&mut self)
        requires
            old(self)@.len() >= 2,
            fresh_row(old(self)@.last(), old(self)@.len() as int),
            old(self).columns.len() == old(self)@.len(),
            wf_table(old(self)@),
        ensures
            final(self)@ == old(self)@.update(
                old(self)@.len() - 1,
                starred_row(old(self)@.last(), old(self)@.len() as int),
            ),
            final(self).columns.len() == final(self)@.len(),
    {
        let n = self.columns.len();
        let ghost before = self@;
        proof {
            self.lemma_view_at(n - 1);
        }
        let mut col = self.columns.pop().unwrap();
        let ghost orig = col@;
        assert(orig == before.last());
        assert(forall|k: int| 0 <= k < FSM_COLUMN_SIZE ==> (#[trigger] col.transition@[k])@ == orig[k]);
        let ghost target = starred_row(orig, n as int);
        for j in 0..FSM_COLUMN_SIZE
            invariant
                n == before.len(),
                n >= 2,
                orig.len() == FSM_COLUMN_SIZE,
                col.transition@.len() == FSM_COLUMN_SIZE,
                target == starred_row(orig, n as int),
                forall|k: int| 0 <= k < j ==> (#[trigger] col.transition@[k])@ == target[k],
                forall|k: int| j <= k < FSM_COLUMN_SIZE ==> (#[trigger] col.transition@[k])@ == orig[k],
        {
            let a = col.transition[j];
            assert(a@ == orig[j as int]);
            if a.next == n {
                col.transition.set(j, FsmAction { next: n - 1, offset: a.offset });
            } else if a.next == 0 {
                col.transition.set(j, FsmAction { next: n, offset: 0 });
            }
            assert(col.transition@[j as int]@ == target[j as int]);
        }
        assert(col@ =~= target);
        self.columns.push(col);
        assert(self@ =~= before.update(n - 1, target));
    }

    /// The machine's states only make progress.
    pub closed spec fn wf(&self) -> bool {
        &&& wf_table(self@)
        &&& self.columns.len() >= 1
    }

    fn push(&mut self, column: FsmColumn)
        ensures
            final(self)@ == old(self)@.push(column@),
    {
        self.columns.push(column);
        assert(final(self)@ =~= old(self)@.push(column@));
    }

    /// Number of states, the failure sink included; it is also the accept
    /// index.
    pub fn len(&self) -> (r: usize)
        ensures
            r == self@.len(),
    {
        self.columns.len()
    }

    /// The action of `state` on symbol code `symbol`.
    pub fn action(&self, state: usize, symbol: usize) -> (r: FsmAction)
        requires
            self.wf(),
            state < self@.len(),
            symbol < FSM_COLUMN_SIZE,
        ensures
            r@ == self@[state as int][symbol as int],
    {
        proof {
            self.lemma_view_at(state as int);
        }
        self.columns[state].transition[symbol]
    }

    proof fn lemma_view_at(&self, s: int)
        requires
            0 <= s < self.columns.len(),
        ensures
            self@[s] == self.columns@[s]@,
            self@[s].len() == self.columns@[s].transition@.len(),
            self@.len() == self.columns@.len(),
            forall|i: int| 0 <= i < self@[s].len() ==> #[trigger] self@[s][i] == self.columns@[s].transition@[i]@,
    {
    }
}

} // verus!
