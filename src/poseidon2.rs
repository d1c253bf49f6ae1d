//! The Poseidon2 permutation of width sixteen over the field of `crate::field`.
//!
//! Each layer is stated as a spec function over `Seq<u32>`, and the executable
//! code is proved to compute it.
use vstd::prelude::*;
use crate::field::{P, fe, is_fe, pow7, fadd, fmul, exp7};
use p3_baby_bear::{BabyBear, MONTY_INVERSE, POSEIDON2_INTERNAL_MATRIX_DIAG_16_BABYBEAR_MONTY};
use p3_field::{AbstractField, PrimeField32};
use p3_poseidon2::matmul_internal;

verus! {

/// The width of the permutation.
pub const WIDTH: usize = 16;

pub const RATE: usize = WIDTH / 2;

pub const NUM_EXTERNAL_ROUNDS: usize = 8;

pub const NUM_INTERNAL_ROUNDS: usize = 13;

pub const NUM_ROUNDS: usize = NUM_EXTERNAL_ROUNDS + NUM_INTERNAL_ROUNDS;

/// The canonical value of the constant that undoes the Montgomery scaling of
/// the internal matrix: `2^-32` modulo `P`.
pub const MONTY_INV: u32 = 943718400;

/// `s` is a permutation state: sixteen field elements.
pub open spec fn is_state(s: Seq<u32>) -> bool {
    &&& s.len() == WIDTH
    &&& forall|i: int| 0 <= i < WIDTH ==> is_fe(#[trigger] s[i])
}

/// The 4x4 matrix of the external layer applied to `x[0..4]`.
pub open spec fn m4(x: Seq<u32>) -> Seq<u32> {
    seq![
        fe(2 * x[0] + 3 * x[1] + x[2] + x[3]),
        fe(x[0] + 2 * x[1] + 3 * x[2] + x[3]),
        fe(x[0] + x[1] + 2 * x[2] + 3 * x[3]),
        fe(3 * x[0] + x[1] + x[2] + 2 * x[3]),
    ]
}

/// Every block of four of `s` multiplied by the 4x4 matrix.
pub open spec fn blocks_m4(s: Seq<u32>) -> Seq<u32> {
    Seq::new(WIDTH as nat, |i: int| m4(s.subrange(4 * (i / 4), 4 * (i / 4) + 4))[i % 4])
}

/// The external linear layer: the 4x4 matrix on each block, then to each
/// entry the sum of the entries at the same position of all four blocks.
pub open spec fn external_layer(s: Seq<u32>) -> Seq<u32> {
    add_column_sums(blocks_m4(s))
}

/// To each entry of `y`, the sum of the entries at the same position of all
/// four blocks.
pub open spec fn add_column_sums(y: Seq<u32>) -> Seq<u32> {
    Seq::new(
        WIDTH as nat,
        |i: int| fe(y[i] + y[i % 4] + y[4 + i % 4] + y[8 + i % 4] + y[12 + i % 4]),
    )
}

/// The diagonal of the internal matrix, less the identity, in Montgomery form.
pub open spec fn internal_diag() -> Seq<u32> {
    seq![
        2013265919u32, 1, 2, 4, 8, 16, 32, 64, 128, 256, 512, 1024, 2048, 4096, 8192, 32768,
    ]
}

/// The sum of the entries of `s`, as an integer.
pub open spec fn seq_sum(s: Seq<u32>) -> int
    decreases s.len(),
{
    if s.len() == 0 {
        0
    } else {
        seq_sum(s.drop_last()) + s.last()
    }
}

/// The internal product `(1 + diag(d)) s` computed by `matmul_internal`,
/// before the Montgomery correction.
pub open spec fn internal_matmul(s: Seq<u32>, d: Seq<u32>) -> Seq<u32> {
    Seq::new(WIDTH as nat, |i: int| fe(seq_sum(s) + d[i] * s[i]))
}

/// The internal linear layer: the internal product, each entry then
/// multiplied by the Montgomery correction.
pub open spec fn internal_layer(s: Seq<u32>) -> Seq<u32> {
    Seq::new(WIDTH as nat, |i: int| fe(internal_matmul(s, internal_diag())[i] * MONTY_INV))
}

/// Round constants added to every entry of the state.
pub open spec fn add_rc(s: Seq<u32>, rc: Seq<u32>) -> Seq<u32> {
    Seq::new(WIDTH as nat, |i: int| fe(s[i] + rc[i]))
}

/// The S-box on every entry of the state.
pub open spec fn sbox_all(s: Seq<u32>) -> Seq<u32> {
    Seq::new(WIDTH as nat, |i: int| pow7(s[i]))
}

/// One external round with round constants `rc`.
pub open spec fn external_round(s: Seq<u32>, rc: Seq<u32>) -> Seq<u32> {
    external_layer(sbox_all(add_rc(s, rc)))
}

/// One internal round with round constant `c`: only entry zero goes through
/// the S-box.
pub open spec fn internal_round(s: Seq<u32>, c: u32) -> Seq<u32> {
    internal_layer(s.update(0, pow7(fe(s[0] + c))))
}

/// The round constants of the permutation, shared by every invocation.
pub struct RoundConstants {
    /// One row of sixteen constants per external round, in round order.
    pub external: Vec<[u32; WIDTH]>,
    /// One constant per internal round, in round order.
    pub internal: Vec<u32>,
}

impl RoundConstants {
    pub open spec fn wf(&self) -> bool {
        &&& self.external@.len() == NUM_EXTERNAL_ROUNDS
        &&& self.internal@.len() == NUM_INTERNAL_ROUNDS
        &&& forall|r: int| 0 <= r < NUM_EXTERNAL_ROUNDS ==> is_state(#[trigger] self.external@[r]@)
        &&& forall|r: int| 0 <= r < NUM_INTERNAL_ROUNDS ==> is_fe(#[trigger] self.internal@[r])
    }
}

/// Round `r` of the permutation (`0 <= r < NUM_ROUNDS`): half the external
/// rounds, then the internal rounds, then the other external rounds.
#[verifier::opaque]
pub open spec fn round_step(c: RoundConstants, s: Seq<u32>, r: nat) -> Seq<u32> {
    if r < 4 {
        external_round(s, c.external@[r as int]@)
    } else if r < 17 {
        internal_round(s, c.internal@[r - 4])
    } else {
        external_round(s, c.external@[r - 13]@)
    }
}

/// The state after the first `n` rounds.
pub open spec fn after_rounds(c: RoundConstants, s: Seq<u32>, n: nat) -> Seq<u32>
    decreases n,
{
    if n == 0 {
        s
    } else {
        round_step(c, after_rounds(c, s, (n - 1) as nat), (n - 1) as nat)
    }
}

/// The permutation: the external linear layer once, then all the rounds.
#[verifier::opaque]
pub open spec fn permutation(c: RoundConstants, s: Seq<u32>) -> Seq<u32> {
    after_rounds(c, external_layer(s), NUM_ROUNDS as nat)
}

/// Multiplies `x[0..4]` in place by the 4x4 matrix of the external layer.
pub fn apply_m_4(x: &mut [u32])
    requires
        old(x)@.len() >= 4,
        forall|i: int| 0 <= i < 4 ==> is_fe(#[trigger] old(x)@[i]),
    ensures
        final(x)@.len() == old(x)@.len(),
        final(x)@.subrange(0, 4) == m4(old(x)@),
        final(x)@.subrange(4, old(x)@.len() as int) == old(x)@.subrange(4, old(x)@.len() as int),
{
    let x0 = x[0] as u64;
    let x1 = x[1] as u64;
    let x2 = x[2] as u64;
    let x3 = x[3] as u64;
    let p = P as u64;
    // All four outputs are computed before any input is overwritten.
    let y0 = ((2 * x0 + 3 * x1 + x2 + x3) % p) as u32;
    let y1 = ((x0 + 2 * x1 + 3 * x2 + x3) % p) as u32;
    let y2 = ((x0 + x1 + 2 * x2 + 3 * x3) % p) as u32;
    let y3 = ((3 * x0 + x1 + x2 + 2 * x3) % p) as u32;
    x[0] = y0;
    x[1] = y1;
    x[2] = y2;
    x[3] = y3;
    assert(x@.subrange(0, 4) =~= m4(old(x)@));
    assert(x@.subrange(4, old(x)@.len() as int) =~= old(x)@.subrange(4, old(x)@.len() as int));
}

/// The external linear layer, in place.
pub fn external_linear_layer(state: &mut [u32; WIDTH])
    requires
        is_state(old(state)@),
    ensures
        final(state)@ == external_layer(old(state)@),
        is_state(final(state)@),
{
    let ghost s0 = state@;
    let mut j: usize = 0;
    while j < WIDTH
        invariant
            j % 4 == 0,
            j <= WIDTH,
            state@.len() == WIDTH,
            forall|i: int| 0 <= i < j ==> #[trigger] state@[i] == blocks_m4(s0)[i],
            forall|i: int| j <= i < WIDTH ==> #[trigger] state@[i] == s0[i],
            is_state(s0),
        decreases WIDTH - j,
    {
        let mut blk: [u32; 4] = [state[j], state[j + 1], state[j + 2], state[j + 3]];
        assert(blk@ =~= s0.subrange(j as int, j + 4));
        apply_m_4(&mut blk);
        assert(blk@.subrange(0, 4) =~= blk@);
        state[j] = blk[0];
        state[j + 1] = blk[1];
        state[j + 2] = blk[2];
        state[j + 3] = blk[3];
        assert forall|i: int| j <= i < j + 4 implies #[trigger] state@[i] == blocks_m4(s0)[i] by {
            assert(i / 4 == j / 4);
            assert(4 * (i / 4) == j);
        }
        j = j + 4;
    }
    let y: [u32; WIDTH] = *state;
    assert(y@ =~= blocks_m4(s0));
    assert(is_state(y@));
    add_column_sums_in_place(state);
}

fn add_column_sums_in_place(state: &mut [u32; WIDTH])
    requires
        is_state(old(state)@),
    ensures
        final(state)@ == add_column_sums(old(state)@),
{
    let y: [u32; WIDTH] = *state;
    let mut i: usize = 0;
    while i < WIDTH
        invariant
            i <= WIDTH,
            is_state(y@),
            state@.len() == WIDTH,
            forall|k: int| 0 <= k < i ==> #[trigger] state@[k] == add_column_sums(y@)[k],
            forall|k: int| i <= k < WIDTH ==> #[trigger] state@[k] == y@[k],
        decreases WIDTH - i,
    {
        let k = i % 4;
        let t = y[i] as u64 + y[k] as u64 + y[4 + k] as u64 + y[8 + k] as u64 + y[12 + k] as u64;
        state[i] = (t % (P as u64)) as u32;
        assert(state@[i as int] == add_column_sums(y@)[i as int]);
        i = i + 1;
    }
    assert(state@ =~= add_column_sums(y@));
}

/// Relies on p3_baby_bear::POSEIDON2_INTERNAL_MATRIX_DIAG_16_BABYBEAR_MONTY:
/// the canonical value of its entry `i`.
#[verifier::external_body]
fn internal_diag_entry(i: usize) -> (r: u32)
    requires
        i < WIDTH,
    ensures
        r == internal_diag()[i as int],
{
    POSEIDON2_INTERNAL_MATRIX_DIAG_16_BABYBEAR_MONTY[i].as_canonical_u32()
}

/// Relies on p3_baby_bear::MONTY_INVERSE: its canonical value, `2^-32` modulo `P`.
#[verifier::external_body]
fn monty_inverse() -> (r: u32)
    ensures
        r == MONTY_INV,
{
    MONTY_INVERSE.as_canonical_u32()
}

/// Relies on p3_poseidon2::matmul_internal over BabyBear: entry `i` becomes
/// `d[i] * s[i]` plus the sum of all entries of `s`.
#[verifier::external_body]
fn matmul_internal_babybear(state: &mut [u32; WIDTH], d: [u32; WIDTH])
    requires
        is_state(old(state)@),
        is_state(d@),
    ensures
        final(state)@ == internal_matmul(old(state)@, d@),
{
    let mut s: [BabyBear; WIDTH] = state.map(BabyBear::from_canonical_u32);
    let m: [BabyBear; WIDTH] = d.map(BabyBear::from_canonical_u32);
    matmul_internal(&mut s, m);
    *state = s.map(|x| x.as_canonical_u32());
}

/// The internal linear layer, in place.
pub fn internal_linear_layer(state: &mut [u32; WIDTH])
    requires
        is_state(old(state)@),
    ensures
        final(state)@ == internal_layer(old(state)@),
        is_state(final(state)@),
{
    let ghost s0 = state@;
    let mut d: [u32; WIDTH] = [0; WIDTH];
    let mut i: usize = 0;
    while i < WIDTH
        invariant
            i <= WIDTH,
            d@.len() == WIDTH,
            forall|k: int| 0 <= k < i ==> #[trigger] d@[k] == internal_diag()[k],
            forall|k: int| i <= k < WIDTH ==> #[trigger] d@[k] == 0,
        decreases WIDTH - i,
    {
        d[i] = internal_diag_entry(i);
        i = i + 1;
    }
    assert(d@ =~= internal_diag());
    assert(is_state(d@));
    matmul_internal_babybear(state, d);
    assert(is_state(state@));
    let minv = monty_inverse();
    let mut i: usize = 0;
    while i < WIDTH
        invariant
            i <= WIDTH,
            minv == MONTY_INV,
            state@.len() == WIDTH,
            forall|k: int| 0 <= k < i ==> #[trigger] state@[k] == internal_layer(s0)[k],
            forall|k: int| i <= k < WIDTH ==> #[trigger] state@[k] == internal_matmul(s0, internal_diag())[k],
            is_state(internal_matmul(s0, internal_diag())),
        decreases WIDTH - i,
    {
        state[i] = fmul(state[i], minv);
        i = i + 1;
    }
    assert(state@ =~= internal_layer(s0));
}

/// The round constants `rc` added to `state`, then the S-box on every entry.
pub fn add_rc_and_sbox(state: &[u32; WIDTH], rc: &[u32; WIDTH]) -> (r: [u32; WIDTH])
    requires
        is_state(state@),
        is_state(rc@),
    ensures
        r@ == sbox_all(add_rc(state@, rc@)),
        is_state(r@),
{
    let mut out: [u32; WIDTH] = *state;
    let mut i: usize = 0;
    while i < WIDTH
        invariant
            i <= WIDTH,
            is_state(rc@),
            is_state(state@),
            out@.len() == WIDTH,
            forall|k: int| 0 <= k < i ==> #[trigger] out@[k] == sbox_all(add_rc(state@, rc@))[k],
            forall|k: int| i <= k < WIDTH ==> #[trigger] out@[k] == state@[k],
        decreases WIDTH - i,
    {
        out[i] = exp7(fadd(out[i], rc[i]));
        i = i + 1;
    }
    assert(out@ =~= sbox_all(add_rc(state@, rc@)));
    out
}

/// One external round with round constants `rc`, in place.
pub fn apply_external_round(state: &mut [u32; WIDTH], rc: &[u32; WIDTH])
    requires
        is_state(old(state)@),
        is_state(rc@),
    ensures
        final(state)@ == external_round(old(state)@, rc@),
        is_state(final(state)@),
{
    *state = add_rc_and_sbox(state, rc);
    external_linear_layer(state);
}

/// One internal round with round constant `c`, in place.
pub fn apply_internal_round(state: &mut [u32; WIDTH], c: u32)
    requires
        is_state(old(state)@),
        is_fe(c),
    ensures
        final(state)@ == internal_round(old(state)@, c),
        is_state(final(state)@),
{
    state[0] = exp7(fadd(state[0], c));
    internal_linear_layer(state);
}

/// Round `r` of the permutation, in place.
pub fn apply_round(c: &RoundConstants, state: &mut [u32; WIDTH], r: usize)
    requires
        c.wf(),
        is_state(old(state)@),
        r < NUM_ROUNDS,
    ensures
        final(state)@ == round_step(*c, old(state)@, r as nat),
        is_state(final(state)@),
{
    proof {
        reveal(round_step);
    }
    if r < 4 {
        apply_external_round(state, &c.external[r]);
    } else if r < 17 {
        apply_internal_round(state, c.internal[r - 4]);
    } else {
        apply_external_round(state, &c.external[r - 13]);
    }
}

/// The permutation of `input`.
pub fn permute(c: &RoundConstants, input: [u32; WIDTH]) -> (r: [u32; WIDTH])
    requires
        c.wf(),
        is_state(input@),
    ensures
        r@ == permutation(*c, input@),
        is_state(r@),
{
    let mut s = input;
    external_linear_layer(&mut s);
    let ghost start = s@;
    let mut n: usize = 0;
    while n < NUM_ROUNDS
        invariant
            c.wf(),
            n <= NUM_ROUNDS,
            start == external_layer(input@),
            s@ == after_rounds(*c, start, n as nat),
            is_state(s@),
        decreases NUM_ROUNDS - n,
    {
        apply_round(c, &mut s, n);
        n = n + 1;
    }
    proof {
        lemma_permutation_rounds(*c, input@);
    }
    s
}

/// The permutation is the state after all its rounds.
pub proof fn lemma_permutation_rounds(c: RoundConstants, s: Seq<u32>)
    ensures
        permutation(c, s) == after_rounds(c, external_layer(s), NUM_ROUNDS as nat),
{
    reveal(permutation);
}

/// The permutation's output is a state, whatever its input.
pub proof fn lemma_permutation_is_state(c: RoundConstants, s: Seq<u32>)
    ensures
        is_state(permutation(c, s)),
{
    reveal(permutation);
    reveal(round_step);
    let prev = after_rounds(c, external_layer(s), (NUM_ROUNDS - 1) as nat);
    let z = external_layer(sbox_all(add_rc(prev, c.external@[7]@)));
    assert forall|i: int| 0 <= i < WIDTH implies is_fe(#[trigger] z[i]) by {
        crate::field::lemma_fe_bound(blocks_m4(sbox_all(add_rc(prev, c.external@[7]@)))[i] as int);
    }
}

/// Calling the permutation twice on one input gives one output: its result
/// is a function of the round constants and the input alone.
pub proof fn permutation_is_deterministic(c: RoundConstants, a: Seq<u32>, b: Seq<u32>)
    requires
        a == b,
    ensures
        permutation(c, a) == permutation(c, b),
{
}

} // verus!
