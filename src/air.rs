//! The trace layout of the skinny permutation circuit and the constraints
//! that every row of a valid trace satisfies.
//!
//! A permutation invocation takes nine rows: one per external round before
//! the internal rounds, one row for all internal rounds, and one per
//! external round after them.
use vstd::prelude::*;
use crate::field::is_fe;
use crate::poseidon2::{
    RoundConstants, WIDTH, NUM_INTERNAL_ROUNDS, add_rc, sbox_all, external_layer, internal_round,
    is_state, add_rc_and_sbox, external_linear_layer, apply_internal_round,
};

verus! {

/// The number of intermediate states held by the internal-rounds row.
pub const NUM_INTERNAL_STATES: usize = 12;

/// The number of rows of one invocation.
pub const ROWS_PER_INVOCATION: usize = 9;

/// One row of the trace.
#[derive(Clone, Copy, Debug, PartialEq, Eq)]
pub struct Row {
    /// The row belongs to a real invocation, not to padding.
    pub is_real: bool,
    /// The first row of a real invocation.
    pub is_first: bool,
    /// The last row of a real invocation.
    pub is_last: bool,
    /// An external round, or else all internal rounds.
    pub is_external: bool,
    /// The index of the row's (first) round in the permutation.
    pub round: usize,
    /// The state before the row's rounds.
    pub pre: [u32; WIDTH],
    /// External rounds: the state after round constants and S-box.
    pub sbox: [u32; WIDTH],
    /// Internal rounds: the state after each internal round but the last.
    pub internal_states: [[u32; WIDTH]; NUM_INTERNAL_STATES],
    /// The state after the row's rounds.
    pub post: [u32; WIDTH],
    /// On the first row, the input read from memory.
    pub mem_input: [u32; WIDTH],
    /// On the last row, the output written to memory.
    pub mem_output: [u32; WIDTH],
}

/// The round constants of external round `r`.
pub open spec fn external_rc(c: RoundConstants, r: nat) -> Seq<u32> {
    if r < 4 {
        c.external@[r as int]@
    } else {
        c.external@[r - 13]@
    }
}

/// State `k` of the internal-rounds row: `pre`, the intermediate states,
/// then `post` (`0 <= k <= NUM_INTERNAL_ROUNDS`).
pub open spec fn chain_state(row: Row, k: int) -> Seq<u32> {
    if k == 0 {
        row.pre@
    } else if k == NUM_INTERNAL_ROUNDS {
        row.post@
    } else {
        row.internal_states@[k - 1]@
    }
}

/// The constraints of one row: the S-box columns, the linear layer, and the
/// round constants chosen by the row's round index.
pub open spec fn row_ok(c: RoundConstants, row: Row) -> bool {
    &&& is_state(row.pre@)
    &&& row_rounds_ok(c, row)
}

/// The round constraints of one row.
pub open spec fn row_rounds_ok(c: RoundConstants, row: Row) -> bool {
    if row.is_external {
        &&& (row.round < 4 || 17 <= row.round < 21)
        &&& row.sbox@ == sbox_all(add_rc(row.pre@, external_rc(c, row.round as nat)))
        &&& row.post@ == external_layer(row.sbox@)
    } else {
        &&& row.round == 4
        &&& forall|k: int|
            0 <= k < NUM_INTERNAL_ROUNDS ==> #[trigger] chain_state(row, k + 1) == internal_round(
                chain_state(row, k),
                c.internal@[k],
            )
    }
}

/// The boundary constraints: the first row starts from the memory input
/// after the initial external linear layer, the last row ends in the memory
/// output.
pub open spec fn boundary_ok(row: Row) -> bool {
    &&& row.is_first ==> is_state(row.mem_input@) && row.pre@ == external_layer(row.mem_input@)
    &&& row.is_last ==> row.post@ == row.mem_output@
}

/// The constraint between adjacent rows: within a real invocation, a row
/// starts from the state that the row before it ended in.
pub open spec fn transition_ok(cur: Row, next: Row) -> bool {
    (cur.is_real && next.is_real && !cur.is_last) ==> next.pre@ == cur.post@
}

/// Every constraint holds on every row of `rows`.
#[verifier::opaque]
pub open spec fn trace_ok(c: RoundConstants, rows: Seq<Row>) -> bool {
    &&& forall|i: int| 0 <= i < rows.len() ==> row_ok(c, #[trigger] rows[i])
    &&& forall|i: int| 0 <= i < rows.len() ==> boundary_ok(#[trigger] rows[i])
    &&& forall|i: int| 0 <= i < rows.len() - 1 ==> transition_ok(#[trigger] rows[i], rows[i + 1])
}

/// The two states are equal.
pub fn states_equal(a: &[u32; WIDTH], b: &[u32; WIDTH]) -> (r: bool)
    ensures
        r == (a@ == b@),
{
    let mut i: usize = 0;
    while i < WIDTH
        invariant
            i <= WIDTH,
            forall|k: int| 0 <= k < i ==> a@[k] == b@[k],
        decreases WIDTH - i,
    {
        if a[i] != b[i] {
            return false;
        }
        i = i + 1;
    }
    assert(a@ =~= b@);
    true
}

/// Every entry of `a` is a field element.
pub fn is_state_exec(a: &[u32; WIDTH]) -> (r: bool)
    ensures
        r == is_state(a@),
{
    let mut i: usize = 0;
    while i < WIDTH
        invariant
            i <= WIDTH,
            forall|k: int| 0 <= k < i ==> is_fe(#[trigger] a@[k]),
        decreases WIDTH - i,
    {
        if a[i] >= crate::field::P {
            return false;
        }
        i = i + 1;
    }
    true
}

/// Checks the constraints of one row.
pub fn row_satisfies(c: &RoundConstants, row: &Row) -> (r: bool)
    requires
        c.wf(),
    ensures
        r == row_ok(*c, *row),
{
    if !is_state_exec(&row.pre) {
        return false;
    }
    if row.is_external {
        let r = row.round;
        if !(r < 4 || (17 <= r && r < 21)) {
            return false;
        }
        let rc: &[u32; WIDTH] = if r < 4 {
            &c.external[r]
        } else {
            &c.external[r - 13]
        };
        let s = add_rc_and_sbox(&row.pre, rc);
        if !states_equal(&s, &row.sbox) {
            return false;
        }
        let mut t = s;
        external_linear_layer(&mut t);
        states_equal(&t, &row.post)
    } else {
        if row.round != 4 {
            return false;
        }
        let mut cur: [u32; WIDTH] = row.pre;
        let mut k: usize = 0;
        while k < NUM_INTERNAL_ROUNDS
            invariant
                c.wf(),
                k <= NUM_INTERNAL_ROUNDS,
                !row.is_external,
                row.round == 4,
                cur@ == chain_state(*row, k as int),
                is_state(cur@),
                forall|j: int| 0 <= j < k ==> #[trigger] chain_state(*row, j + 1) == internal_round(
                    chain_state(*row, j),
                    c.internal@[j],
                ),
            decreases NUM_INTERNAL_ROUNDS - k,
        {
            apply_internal_round(&mut cur, c.internal[k]);
            let next: &[u32; WIDTH] = if k + 1 == NUM_INTERNAL_ROUNDS {
                &row.post
            } else {
                &row.internal_states[k]
            };
            if !states_equal(&cur, next) {
                assert(chain_state(*row, k + 1) != internal_round(chain_state(*row, k as int), c.internal@[k as int]));
                return false;
            }
            k = k + 1;
        }
        true
    }
}

/// Checks every constraint on every row of `rows`.
pub fn trace_satisfies(c: &RoundConstants, rows: &Vec<Row>) -> (r: bool)
    requires
        c.wf(),
    ensures
        r == trace_ok(*c, rows@),
{
    let mut i: usize = 0;
    while i < rows.len()
        invariant
            c.wf(),
            i <= rows@.len(),
            forall|j: int| 0 <= j < i ==> row_ok(*c, #[trigger] rows@[j]),
            forall|j: int| 0 <= j < i ==> boundary_ok(#[trigger] rows@[j]),
            forall|j: int| 0 <= j < i && j + 1 < rows@.len() ==> transition_ok(#[trigger] rows@[j], rows@[j + 1]),
        decreases rows@.len() - i,
    {
        let row = &rows[i];
        if !row_satisfies(c, row) {
            proof {
                reveal(trace_ok);
            }
            return false;
        }
        if row.is_first {
            if !is_state_exec(&row.mem_input) {
                assert(!boundary_ok(rows@[i as int]));
                proof {
                    reveal(trace_ok);
                }
                return false;
            }
            let mut layered = row.mem_input;
            external_linear_layer(&mut layered);
            if !states_equal(&row.pre, &layered) {
                assert(!boundary_ok(rows@[i as int]));
                proof {
                    reveal(trace_ok);
                }
                return false;
            }
        }
        if row.is_last && !states_equal(&row.post, &row.mem_output) {
            assert(!boundary_ok(rows@[i as int]));
            proof {
                reveal(trace_ok);
            }
            return false;
        }
        if i + 1 < rows.len() {
            let next = &rows[i + 1];
            if row.is_real && next.is_real && !row.is_last && !states_equal(&next.pre, &row.post) {
                assert(!transition_ok(rows@[i as int], rows@[i + 1]));
                proof {
                reveal(trace_ok);
            }
            return false;
            }
        }
        i = i + 1;
    }
    proof {
        reveal(trace_ok);
    }
    true
}

/// Each row of a valid trace satisfies its own constraints.
pub proof fn lemma_trace_row(c: RoundConstants, rows: Seq<Row>, i: int)
    requires
        trace_ok(c, rows),
        0 <= i < rows.len(),
    ensures
        row_ok(c, rows[i]),
        boundary_ok(rows[i]),
{
    reveal(trace_ok);
}

/// Appending a row that satisfies its own constraints, and follows the last
/// row, keeps a trace valid.
pub proof fn lemma_trace_push(c: RoundConstants, rows: Seq<Row>, row: Row)
    requires
        trace_ok(c, rows),
        row_ok(c, row),
        boundary_ok(row),
        rows.len() > 0 ==> transition_ok(rows.last(), row),
    ensures
        trace_ok(c, rows.push(row)),
{
    reveal(trace_ok);
    let r2 = rows.push(row);
    assert forall|i: int| 0 <= i < r2.len() implies row_ok(c, #[trigger] r2[i]) by {
        if i < rows.len() {
            assert(r2[i] == rows[i]);
        }
    }
    assert forall|i: int| 0 <= i < r2.len() implies boundary_ok(#[trigger] r2[i]) by {
        if i < rows.len() {
            assert(r2[i] == rows[i]);
        }
    }
    assert forall|i: int| 0 <= i < r2.len() - 1 implies transition_ok(#[trigger] r2[i], r2[i + 1]) by {
        if i < rows.len() - 1 {
            assert(r2[i] == rows[i] && r2[i + 1] == rows[i + 1]);
        } else {
            assert(r2[i] == rows.last());
        }
    }
}

/// In a valid trace, within a real invocation, each row starts from the
/// state that the row before it ended in.
pub proof fn lemma_round_chaining(c: RoundConstants, rows: Seq<Row>, i: int)
    requires
        trace_ok(c, rows),
        0 <= i,
        i + 1 < rows.len(),
        rows[i].is_real,
        rows[i + 1].is_real,
        !rows[i].is_last,
    ensures
        rows[i + 1].pre@ == rows[i].post@,
{
    reveal(trace_ok);
}

/// In a valid trace, the first row of an invocation starts from the memory
/// input after the initial external linear layer, and the last row ends in
/// the memory output.
pub proof fn lemma_boundary(c: RoundConstants, rows: Seq<Row>, i: int)
    requires
        trace_ok(c, rows),
        0 <= i < rows.len(),
    ensures
        rows[i].is_first ==> rows[i].pre@ == external_layer(rows[i].mem_input@),
        rows[i].is_last ==> rows[i].post@ == rows[i].mem_output@,
{
    reveal(trace_ok);
}

} // verus!
