//! Trace generation for the skinny permutation circuit: nine rows per
//! permutation invocation of the record, then padding.
use vstd::prelude::*;
use crate::runtime::{Event, Poseidon2Event, Instruction, EventView, events_view, run_spec, view_ok, lemma_runtime_events_ok};
use crate::air::{
    Row, NUM_INTERNAL_STATES, ROWS_PER_INVOCATION, row_ok, boundary_ok, trace_ok,
    chain_state, lemma_trace_push, lemma_trace_row, is_state_exec, states_equal,
};
use crate::poseidon2::{
    RoundConstants, WIDTH, NUM_INTERNAL_ROUNDS, is_state, after_rounds, round_step, permutation,
    add_rc_and_sbox, external_linear_layer, apply_internal_round, lemma_permutation_rounds, permute,
    external_layer,
};

verus! {

/// The round index of row `j` of an invocation, which is also the number
/// of rounds applied before it.
pub open spec fn row_round(j: int) -> int {
    if j <= 4 {
        j
    } else {
        j + 12
    }
}

/// Builds the row of external round `r` from the state `pre`.
fn external_row(c: &RoundConstants, pre: [u32; WIDTH], r: usize) -> (row: Row)
    requires
        c.wf(),
        is_state(pre@),
        r < 4 || 17 <= r < 21,
    ensures
        row_ok(*c, row),
        row.pre == pre,
        row.post@ == round_step(*c, pre@, r as nat),
        is_state(row.post@),
        row.is_external,
        row.round == r,
{
    proof {
        reveal(round_step);
    }
    let rc: &[u32; WIDTH] = if r < 4 {
        &c.external[r]
    } else {
        &c.external[r - 13]
    };
    let sbox = add_rc_and_sbox(&pre, rc);
    let mut post = sbox;
    external_linear_layer(&mut post);
    Row {
        is_real: false,
        is_first: false,
        is_last: false,
        is_external: true,
        round: r,
        pre,
        sbox,
        internal_states: [[0; WIDTH]; NUM_INTERNAL_STATES],
        post,
        mem_input: [0; WIDTH],
        mem_output: [0; WIDTH],
    }
}

/// Builds the row of all internal rounds from the state `pre`, reached
/// from `input` after the first external rounds.
fn internal_row(c: &RoundConstants, pre: [u32; WIDTH], Ghost(input): Ghost<Seq<u32>>) -> (row: Row)
    requires
        c.wf(),
        is_state(pre@),
        pre@ == after_rounds(*c, input, 4),
    ensures
        row_ok(*c, row),
        row.pre == pre,
        row.post@ == after_rounds(*c, input, 17),
        is_state(row.post@),
        !row.is_external,
        row.round == 4,
{
    let mut states: [[u32; WIDTH]; NUM_INTERNAL_STATES] = [[0; WIDTH]; NUM_INTERNAL_STATES];
    let mut s = pre;
    let mut k: usize = 0;
    while k < NUM_INTERNAL_ROUNDS
        invariant
            c.wf(),
            k <= NUM_INTERNAL_ROUNDS,
            pre@ == after_rounds(*c, input, 4),
            s@ == after_rounds(*c, input, (4 + k) as nat),
            is_state(s@),
            forall|j: int| 0 <= j < k && j < NUM_INTERNAL_STATES ==> #[trigger] states@[j]@ == after_rounds(*c, input, (5 + j) as nat),
        decreases NUM_INTERNAL_ROUNDS - k,
    {
        apply_internal_round(&mut s, c.internal[k]);
        assert(s@ == after_rounds(*c, input, (5 + k) as nat)) by {
            reveal(round_step);
        }
        if k < NUM_INTERNAL_STATES {
            states[k] = s;
        }
        k = k + 1;
    }
    let row = Row {
        is_real: false,
        is_first: false,
        is_last: false,
        is_external: false,
        round: 4,
        pre,
        sbox: [0; WIDTH],
        internal_states: states,
        post: s,
        mem_input: [0; WIDTH],
        mem_output: [0; WIDTH],
    };
    assert forall|j: int| 0 <= j <= NUM_INTERNAL_ROUNDS implies #[trigger] chain_state(row, j) == after_rounds(*c, input, (4 + j) as nat) by {}
    assert forall|j: int| 0 <= j < NUM_INTERNAL_ROUNDS implies #[trigger] chain_state(row, j + 1) == crate::poseidon2::internal_round(
        chain_state(row, j),
        c.internal@[j],
    ) by {
        reveal(round_step);
        assert(chain_state(row, j) == after_rounds(*c, input, (4 + j) as nat));
        assert(chain_state(row, j + 1) == after_rounds(*c, input, (5 + j) as nat));
    }
    row
}

/// The rows `rows[base..base + ROWS_PER_INVOCATION]` lay out an invocation
/// with input `input` and output `output`, live or padding.
pub open spec fn invocation_at(rows: Seq<Row>, base: int, input: Seq<u32>, output: Seq<u32>, live: bool) -> bool {
    &&& 0 <= base
    &&& base + ROWS_PER_INVOCATION <= rows.len()
    &&& forall|j: int| 0 <= j < ROWS_PER_INVOCATION ==> row_place_ok(#[trigger] rows[base + j], j, live)
    &&& rows[base].pre@ == external_layer(input)
    &&& rows[base + ROWS_PER_INVOCATION - 1].post@ == output
    &&& live ==> rows[base].mem_input@ == input
    &&& live ==> rows[base + ROWS_PER_INVOCATION - 1].mem_output@ == output
}

/// Row `k` of an invocation carries the flags and round index of its place.
pub open spec fn row_place_ok(r: Row, k: int, live: bool) -> bool {
    &&& r.is_real == live
    &&& r.is_first == (live && k == 0)
    &&& r.is_last == (live && k == ROWS_PER_INVOCATION - 1)
    &&& r.is_external == (k != 4)
    &&& r.round == row_round(k)
}

/// `row` with the flags and memory columns of row `k` of an invocation on
/// `input`.
fn place_row(c: &RoundConstants, row: Row, k: usize, live: bool, input: [u32; WIDTH]) -> (r: Row)
    requires
        row_ok(*c, row),
        k < ROWS_PER_INVOCATION,
        row.is_external == (k != 4),
        row.round == row_round(k as int),
        k == 0 ==> is_state(input@) && row.pre@ == external_layer(input@),
    ensures
        row_ok(*c, r),
        boundary_ok(r),
        row_place_ok(r, k as int, live),
        r.pre == row.pre,
        r.post == row.post,
        live && k == 0 ==> r.mem_input@ == input@,
        live && k == ROWS_PER_INVOCATION - 1 ==> r.mem_output == row.post,
{
    let is_first = live && k == 0;
    let is_last = live && k + 1 == ROWS_PER_INVOCATION;
    let r = Row {
        is_real: live,
        is_first,
        is_last,
        is_external: row.is_external,
        round: row.round,
        pre: row.pre,
        sbox: row.sbox,
        internal_states: row.internal_states,
        post: row.post,
        mem_input: if is_first { input } else { [0; WIDTH] },
        mem_output: if is_last { row.post } else { [0; WIDTH] },
    };
    assert(forall|j: int| #![auto] 0 <= j <= NUM_INTERNAL_ROUNDS ==> chain_state(r, j) == chain_state(row, j));
    r
}

/// The all-zero state.
pub open spec fn zero_state() -> Seq<u32> {
    Seq::new(WIDTH as nat, |i: int| 0u32)
}

/// `r` is row `j` of the padding invocation: the permutation of the all-zero
/// state, with every flag off.
pub open spec fn dummy_row_ok(c: RoundConstants, r: Row, j: int) -> bool {
    &&& row_place_ok(r, j, false)
    &&& r.pre@ == after_rounds(c, external_layer(zero_state()), row_round(j) as nat)
}

/// Appends the rows of one invocation of the permutation on `input` and
/// returns its output.
#[verifier::rlimit(50)]
fn push_invocation(c: &RoundConstants, rows: &mut Vec<Row>, input: [u32; WIDTH], live: bool) -> (out: [u32; WIDTH])
    requires
        c.wf(),
        is_state(input@),
        trace_ok(*c, old(rows)@),
        old(rows)@.len() > 0 ==> (old(rows)@.last().is_last || !old(rows)@.last().is_real),
    ensures
        out@ == permutation(*c, input@),
        final(rows)@.len() == old(rows)@.len() + ROWS_PER_INVOCATION,
        final(rows)@.subrange(0, old(rows)@.len() as int) == old(rows)@,
        invocation_at(final(rows)@, old(rows)@.len() as int, input@, out@, live),
        forall|k: int| 0 <= k < ROWS_PER_INVOCATION ==> (#[trigger] final(rows)@[old(rows)@.len() + k]).pre@ == after_rounds(*c, external_layer(input@), row_round(k) as nat),
        trace_ok(*c, final(rows)@),
        final(rows)@.last().is_last || !final(rows)@.last().is_real,
{
    let ghost rows0 = rows@;
    let ghost base = rows0.len() as int;
    let mut s = input;
    external_linear_layer(&mut s);
    let ghost start = s@;
    let mut j: usize = 0;
    while j < ROWS_PER_INVOCATION
        invariant
            c.wf(),
            j <= ROWS_PER_INVOCATION,
            is_state(input@),
            is_state(s@),
            base == rows0.len(),
            start == external_layer(input@),
            s@ == after_rounds(*c, start, row_round(j as int) as nat),
            forall|k: int| 0 <= k < j ==> (#[trigger] rows@[base + k]).pre@ == after_rounds(*c, start, row_round(k) as nat),
            rows@.len() == base + j,
            rows@.subrange(0, base) == rows0,
            trace_ok(*c, rows@),
            rows@.len() > 0 ==> (rows@.last().is_last || !rows@.last().is_real || rows@.last().post == s),
            j > 0 ==> rows@.last().post == s,
            j == ROWS_PER_INVOCATION && live ==> rows@.last().mem_output == s,
            j > 0 ==> rows@[base].pre@ == start,
            j > 0 && live ==> rows@[base].mem_input@ == input@,
            forall|k: int| 0 <= k < j ==> row_place_ok(#[trigger] rows@[base + k], k, live),
        decreases ROWS_PER_INVOCATION - j,
    {
        let core = if j == 4 {
            internal_row(c, s, Ghost(start))
        } else {
            let r: usize = if j < 4 { j } else { j + 12 };
            let row = external_row(c, s, r);
            assert(after_rounds(*c, start, (r + 1) as nat) == round_step(*c, s@, r as nat));
            row
        };
        let row = place_row(c, core, j, live, input);
        s = row.post;
        let ghost before = rows@;
        proof {
            lemma_trace_push(*c, before, row);
        }
        rows.push(row);
        assert(rows@.subrange(0, base) =~= rows0) by {
            assert(before.subrange(0, base) == rows0);
        }
        assert forall|k: int| 0 <= k <= j implies row_place_ok(#[trigger] rows@[base + k], k, live) && rows@[base + k].pre@ == after_rounds(*c, start, row_round(k) as nat) by {
            if k < j {
                assert(rows@[base + k] == before[base + k]);
            }
        }
        j = j + 1;
    }
    proof {
        lemma_permutation_rounds(*c, input@);
    }
    assert(rows@.subrange(0, base) =~= rows0);
    assert(rows@.last() == rows@[base + ROWS_PER_INVOCATION - 1]);
    assert(row_place_ok(rows@[base + 8], 8, live));
    s
}

/// An invocation laid out in `rows` stays so when rows are appended.
proof fn lemma_invocation_extend(rows: Seq<Row>, rows2: Seq<Row>, base: int, input: Seq<u32>, output: Seq<u32>, live: bool)
    requires
        invocation_at(rows, base, input, output, live),
        rows.len() <= rows2.len(),
        rows2.subrange(0, rows.len() as int) == rows,
    ensures
        invocation_at(rows2, base, input, output, live),
{
    assert forall|j: int| 0 <= j < ROWS_PER_INVOCATION implies row_place_ok(#[trigger] rows2[base + j], j, live) by {
        assert(rows2[base + j] == rows2.subrange(0, rows.len() as int)[base + j]);
    }
    assert(rows2[base] == rows2.subrange(0, rows.len() as int)[base]);
    assert(rows2[base + ROWS_PER_INVOCATION - 1] == rows2.subrange(0, rows.len() as int)[base + ROWS_PER_INVOCATION - 1]);
}

/// The permutation invocations of a record, in order.
pub open spec fn p2_events(record: Seq<Event>) -> Seq<Poseidon2Event>
    decreases record.len(),
{
    if record.len() == 0 {
        seq![]
    } else {
        let rest = p2_events(record.drop_last());
        match record.last() {
            Event::Poseidon2(e) => rest.push(e),
            _ => rest,
        }
    }
}

/// The event's input is a state and its output is the permutation of it.
pub open spec fn event_ok(c: RoundConstants, e: Poseidon2Event) -> bool {
    &&& is_state(e.input@)
    &&& e.output@ == permutation(c, e.input@)
}

/// The index of the first event from `i` on that is not consistent.
pub open spec fn first_bad_event(c: RoundConstants, evs: Seq<Poseidon2Event>, i: nat) -> Option<usize>
    decreases evs.len() - i,
{
    if i >= evs.len() {
        None
    } else if !event_ok(c, evs[i as int]) {
        Some(i as usize)
    } else {
        first_bad_event(c, evs, i + 1)
    }
}

/// `n` is a power of two.
pub open spec fn is_pow2(n: nat) -> bool
    decreases n,
{
    if n <= 1 {
        n == 1
    } else {
        n % 2 == 0 && is_pow2(n / 2)
    }
}

/// Two to the power `l`.
pub open spec fn two_to(l: nat) -> nat
    decreases l,
{
    if l == 0 {
        1
    } else {
        2 * two_to((l - 1) as nat)
    }
}

/// Why a trace could not be generated.
#[derive(Clone, Copy, Debug, PartialEq, Eq, Structural)]
pub enum TraceError {
    /// The permutation event with this index (among the record's
    /// permutation events) has an input that is no state, or an output that
    /// is not the permutation of its input.
    InconsistentEvent { index: usize },
    /// The fixed row count is smaller than the rows of the invocations.
    TooManyRows,
}

/// A chip that implements the Poseidon2 permutation in the skinny variant
/// (one external round per row and one row for all internal rounds).
pub struct Poseidon2SkinnyChip<const DEGREE: usize> {
    /// Pad to exactly `2^l` rows, rather than to the next power of two.
    pub fixed_log2_rows: Option<usize>,
    /// Pad the trace at all.
    pub pad: bool,
}

impl<const DEGREE: usize> Poseidon2SkinnyChip<DEGREE> {
    /// The chip that pads to the next power of two; only machines of degree
    /// at least nine are supported.
    pub fn new() -> (r: Option<Self>)
        ensures
            r is Some <==> DEGREE >= 9,
            r matches Some(chip) ==> chip.fixed_log2_rows is None && chip.pad,
    {
        if DEGREE >= 9 {
            Some(Poseidon2SkinnyChip { fixed_log2_rows: None, pad: true })
        } else {
            None
        }
    }

    /// The trace of the permutation events of `record`: nine rows per event,
    /// in record order, then padding rows that replay the invocation on the
    /// all-zero state.
    pub fn generate_trace(&self, c: &RoundConstants, record: &Vec<Event>) -> (r: Result<Vec<Row>, TraceError>)
        requires
            c.wf(),
            record@.len() <= usize::MAX / 32,
            self.fixed_log2_rows matches Some(l) ==> l < 32,
        ensures
            match r {
                Ok(rows) => {
                    let evs = p2_events(record@);
                    let n = ROWS_PER_INVOCATION * evs.len();
                    &&& first_bad_event(*c, evs, 0) is None
                    &&& trace_ok(*c, rows@)
                    &&& n <= rows@.len()
                    &&& forall|k: int| 0 <= k < evs.len() ==> invocation_at(rows@, ROWS_PER_INVOCATION * k, (#[trigger] evs[k]).input@, evs[k].output@, true)
                    &&& forall|i: int| n <= i < rows@.len() ==> !(#[trigger] rows@[i]).is_real && !rows@[i].is_first && !rows@[i].is_last
                    &&& forall|i: int| n <= i < rows@.len() ==> dummy_row_ok(*c, #[trigger] rows@[i], i % ROWS_PER_INVOCATION as int)
                    &&& !self.pad ==> rows@.len() == n
                    &&& self.pad ==> is_pow2(rows@.len() as nat)
                    &&& self.pad ==> match self.fixed_log2_rows {
                        Some(l) => rows@.len() == two_to(l as nat),
                        None => rows@.len() == 1 || rows@.len() / 2 < n,
                    }
                },
                Err(TraceError::InconsistentEvent { index }) => first_bad_event(*c, p2_events(record@), 0) == Some(index),
                Err(TraceError::TooManyRows) => {
                    &&& first_bad_event(*c, p2_events(record@), 0) is None
                    &&& self.pad
                    &&& self.fixed_log2_rows matches Some(l) && two_to(l as nat) < ROWS_PER_INVOCATION * p2_events(record@).len()
                },
            },
    {
        let evs = collect_poseidon2_events(record);
        let mut k: usize = 0;
        while k < evs.len()
            invariant
                c.wf(),
                k <= evs@.len(),
                evs@ == p2_events(record@),
                first_bad_event(*c, evs@, 0) == first_bad_event(*c, evs@, k as nat),
                forall|j: int| 0 <= j < k ==> event_ok(*c, #[trigger] evs@[j]),
            decreases evs@.len() - k,
        {
            let e = &evs[k];
            if !is_state_exec(&e.input) {
                return Err(TraceError::InconsistentEvent { index: k });
            }
            let out = permute(c, e.input);
            if !states_equal(&out, &e.output) {
                return Err(TraceError::InconsistentEvent { index: k });
            }
            k = k + 1;
        }
        let mut rows: Vec<Row> = Vec::new();
        proof {
            reveal(trace_ok);
        }
        let mut k: usize = 0;
        while k < evs.len()
            invariant
                c.wf(),
                k <= evs@.len(),
                evs@.len() <= usize::MAX / 32,
                rows@.len() == ROWS_PER_INVOCATION * k,
                trace_ok(*c, rows@),
                rows@.len() > 0 ==> (rows@.last().is_last || !rows@.last().is_real),
                evs@ == p2_events(record@),
                forall|j: int| 0 <= j < evs@.len() ==> event_ok(*c, #[trigger] evs@[j]),
                forall|j: int| 0 <= j < k ==> invocation_at(rows@, ROWS_PER_INVOCATION * j, (#[trigger] evs@[j]).input@, evs@[j].output@, true),
            decreases evs@.len() - k,
        {
            let ghost before = rows@;
            let out = push_invocation(c, &mut rows, evs[k].input, true);
            assert forall|j: int| 0 <= j <= k implies invocation_at(rows@, ROWS_PER_INVOCATION * j, (#[trigger] evs@[j]).input@, evs@[j].output@, true) by {
                if j < k {
                    lemma_invocation_extend(before, rows@, ROWS_PER_INVOCATION * j, evs@[j].input@, evs@[j].output@, true);
                }
            }
            k = k + 1;
        }
        if !self.pad {
            return Ok(rows);
        }
        let n = rows.len();
        let target: usize = match self.fixed_log2_rows {
            Some(l) => {
                let t = two_to_exec(l);
                if t < n {
                    return Err(TraceError::TooManyRows);
                }
                t
            },
            None => next_pow2(n),
        };
        let mut dummy: Vec<Row> = Vec::new();
        proof {
            reveal(trace_ok);
        }
        let zero: [u32; WIDTH] = [0; WIDTH];
        assert(zero@ =~= zero_state());
        let _ = push_invocation(c, &mut dummy, zero, false);
        while rows.len() < target
            invariant
                c.wf(),
                n <= rows@.len() <= target,
                n == ROWS_PER_INVOCATION * evs@.len(),
                evs@ == p2_events(record@),
                trace_ok(*c, rows@),
                trace_ok(*c, dummy@),
                dummy@.len() == ROWS_PER_INVOCATION,
                forall|j: int| 0 <= j < ROWS_PER_INVOCATION ==> row_place_ok(#[trigger] dummy@[0 + j], j, false),
                forall|j: int| 0 <= j < ROWS_PER_INVOCATION ==> (#[trigger] dummy@[0 + j]).pre@ == after_rounds(*c, external_layer(zero_state()), row_round(j) as nat),
                forall|i: int| n <= i < rows@.len() ==> dummy_row_ok(*c, #[trigger] rows@[i], i % ROWS_PER_INVOCATION as int),
                forall|j: int| 0 <= j < evs@.len() ==> invocation_at(rows@, ROWS_PER_INVOCATION * j, (#[trigger] evs@[j]).input@, evs@[j].output@, true),
                forall|i: int| n <= i < rows@.len() ==> !(#[trigger] rows@[i]).is_real && !rows@[i].is_first && !rows@[i].is_last,
            decreases target - rows@.len(),
        {
            let ghost before = rows@;
            let d = dummy[rows.len() % ROWS_PER_INVOCATION];
            proof {
                let m = (before.len() % ROWS_PER_INVOCATION as nat) as int;
                assert(row_place_ok(dummy@[0 + m], m, false));
                assert(dummy_row_ok(*c, d, m));
                lemma_trace_row(*c, dummy@, m);
                lemma_trace_push(*c, before, d);
            }
            rows.push(d);
            assert forall|j: int| 0 <= j < evs@.len() implies invocation_at(rows@, ROWS_PER_INVOCATION * j, (#[trigger] evs@[j]).input@, evs@[j].output@, true) by {
                assert(rows@.subrange(0, before.len() as int) =~= before);
                lemma_invocation_extend(before, rows@, ROWS_PER_INVOCATION * j, evs@[j].input@, evs@[j].output@, true);
            }
            assert forall|i: int| n <= i < rows@.len() implies !(#[trigger] rows@[i]).is_real && !rows@[i].is_first && !rows@[i].is_last && dummy_row_ok(*c, rows@[i], i % ROWS_PER_INVOCATION as int) by {
                if i < before.len() {
                    assert(rows@[i] == before[i]);
                }
            }
        }
        Ok(rows)
    }
}

/// The permutation events of `record`, in order.
fn collect_poseidon2_events(record: &Vec<Event>) -> (r: Vec<Poseidon2Event>)
    ensures
        r@ == p2_events(record@),
        r@.len() <= record@.len(),
{
    let mut evs: Vec<Poseidon2Event> = Vec::new();
    let mut i: usize = 0;
    while i < record.len()
        invariant
            i <= record@.len(),
            evs@ == p2_events(record@.take(i as int)),
            evs@.len() <= i,
        decreases record@.len() - i,
    {
        assert(record@.take(i + 1).drop_last() =~= record@.take(i as int));
        match record[i] {
            Event::Poseidon2(e) => {
                evs.push(e);
            },
            _ => {},
        }
        i = i + 1;
    }
    assert(record@.take(i as int) =~= record@);
    evs
}

/// Two to the power `l`.
fn two_to_exec(l: usize) -> (r: usize)
    requires
        l < 32,
    ensures
        r == two_to(l as nat),
        is_pow2(r as nat),
{
    let mut t: usize = 1;
    let mut k: usize = 0;
    while k < l
        invariant
            k <= l < 32,
            t == two_to(k as nat),
            t <= 0x8000_0000,
            is_pow2(t as nat),
        decreases l - k,
    {
        assert(two_to(k as nat) <= 0x4000_0000) by {
            lemma_two_to_mono(k as nat, 30);
            reveal_with_fuel(two_to, 31);
        }
        t = t * 2;
        k = k + 1;
    }
    t
}

proof fn lemma_two_to_mono(k: nat, m: nat)
    requires
        k <= m,
    ensures
        1 <= two_to(k) <= two_to(m),
    decreases m,
{
    if m > k {
        lemma_two_to_mono(k, (m - 1) as nat);
    } else if k > 0 {
        lemma_two_to_mono((k - 1) as nat, (k - 1) as nat);
    }
}

/// The least power of two that is at least `n` and at least one.
fn next_pow2(n: usize) -> (r: usize)
    requires
        n <= usize::MAX / 2,
    ensures
        is_pow2(r as nat),
        n <= r,
        r == 1 || r / 2 < n,
{
    let mut t: usize = 1;
    while t < n
        invariant
            1 <= t,
            is_pow2(t as nat),
            t == 1 || t / 2 < n,
            t == 1 || t < 2 * n,
            n <= usize::MAX / 2,
        decreases 2 * n - t,
    {
        t = t * 2;
    }
    t
}

proof fn lemma_p2_events_ok(c: RoundConstants, record: Seq<Event>)
    requires
        forall|j: int| 0 <= j < record.len() ==> view_ok(c, #[trigger] record[j]@),
    ensures
        forall|k: int| 0 <= k < p2_events(record).len() ==> event_ok(c, #[trigger] p2_events(record)[k]),
    decreases record.len(),
{
    if record.len() > 0 {
        let rest = record.drop_last();
        assert forall|j: int| 0 <= j < rest.len() implies view_ok(c, #[trigger] rest[j]@) by {
            assert(rest[j] == record[j]);
        }
        lemma_p2_events_ok(c, rest);
        assert(view_ok(c, record[record.len() - 1]@));
        let pe = p2_events(rest);
        match record.last() {
            Event::Poseidon2(e) => {
                assert(event_ok(c, e));
                assert forall|k: int| 0 <= k < p2_events(record).len() implies event_ok(c, #[trigger] p2_events(record)[k]) by {
                    if k < pe.len() {
                        assert(p2_events(record)[k] == pe[k]);
                    }
                }
            },
            _ => {},
        }
    }
}

proof fn lemma_no_bad_event(c: RoundConstants, evs: Seq<Poseidon2Event>, i: nat)
    requires
        forall|k: int| 0 <= k < evs.len() ==> event_ok(c, #[trigger] evs[k]),
    ensures
        first_bad_event(c, evs, i) is None,
    decreases evs.len() - i,
{
    if i < evs.len() {
        lemma_no_bad_event(c, evs, i + 1);
    }
}

/// A record that the runtime produced holds no inconsistent permutation
/// event, so trace generation accepts it and the trace it returns satisfies
/// every constraint.
pub proof fn lemma_runtime_record_traceable(c: RoundConstants, prog: Seq<Instruction>, n: nat, record: Seq<Event>)
    requires
        c.wf(),
        run_spec(c, prog, n) == Ok::<Seq<EventView>, crate::runtime::RuntimeError>(events_view(record)),
    ensures
        first_bad_event(c, p2_events(record), 0) is None,
{
    lemma_runtime_events_ok(c, prog, n, record);
    lemma_p2_events_ok(c, record);
    lemma_no_bad_event(c, p2_events(record), 0);
}

} // verus!
