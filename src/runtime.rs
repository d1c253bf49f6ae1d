//! The instruction runtime: runs a program of memory accesses and permutation
//! invocations over a field-valued memory and records one event per
//! instruction.
use vstd::prelude::*;
use crate::field::is_fe;
use crate::poseidon2::{RoundConstants, WIDTH, is_state, permutation, permute, lemma_permutation_is_state};

verus! {

#[derive(Clone, Copy, Debug, PartialEq, Eq, Structural)]
pub enum MemAccessKind {
    Read,
    Write,
}

/// One instruction of a program.
#[derive(Clone, Copy, Debug)]
pub enum Instruction {
    /// Reads `value` from `addr` (it must be there), or writes it there.
    Mem { kind: MemAccessKind, addr: u32, value: u32 },
    /// Permutes the values at `input_addrs` and writes the result to
    /// `output_addrs`, in order.
    Poseidon2 { seed: u32, input_addrs: [u32; WIDTH], output_addrs: [u32; WIDTH] },
}

/// What one permutation invocation read and wrote.
#[derive(Clone, Copy, Debug, PartialEq, Eq)]
pub struct Poseidon2Event {
    pub seed: u32,
    pub input_addrs: [u32; WIDTH],
    pub output_addrs: [u32; WIDTH],
    pub input: [u32; WIDTH],
    pub output: [u32; WIDTH],
}

/// One entry of the record, one per executed instruction.
#[derive(Clone, Copy, Debug, PartialEq, Eq)]
pub enum Event {
    Mem { kind: MemAccessKind, addr: u32, value: u32 },
    Poseidon2(Poseidon2Event),
}

/// The mathematical value of an event.
pub enum EventView {
    Mem { kind: MemAccessKind, addr: u32, value: u32 },
    Poseidon2 {
        seed: u32,
        input_addrs: Seq<u32>,
        output_addrs: Seq<u32>,
        input: Seq<u32>,
        output: Seq<u32>,
    },
}

impl View for Event {
    type V = EventView;

    open spec fn view(&self) -> EventView {
        match *self {
            Event::Mem { kind, addr, value } => EventView::Mem { kind, addr, value },
            Event::Poseidon2(e) => EventView::Poseidon2 {
                seed: e.seed,
                input_addrs: e.input_addrs@,
                output_addrs: e.output_addrs@,
                input: e.input@,
                output: e.output@,
            },
        }
    }
}

pub open spec fn events_view(v: Seq<Event>) -> Seq<EventView> {
    v.map_values(|e: Event| e@)
}

/// Why a program could not run; `index` is the failing instruction's.
#[derive(Clone, Copy, Debug, PartialEq, Eq, Structural)]
pub enum RuntimeError {
    /// An address of the instruction lies outside the memory.
    AddressOutOfRange { index: usize },
    /// The instruction's value is no field element.
    ValueOutOfRange { index: usize },
    /// A read found another value than the one declared, or no value at all.
    MemoryConsistencyError { index: usize, addr: u32 },
}

/// The instruction's addresses and value fit a memory of `n` cells.
pub open spec fn instr_ok(ins: Instruction, n: nat) -> bool {
    match ins {
        Instruction::Mem { addr, value, .. } => addr < n && is_fe(value),
        Instruction::Poseidon2 { input_addrs, output_addrs, .. } => {
            &&& forall|k: int| 0 <= k < WIDTH ==> #[trigger] input_addrs@[k] < n
            &&& forall|k: int| 0 <= k < WIDTH ==> #[trigger] output_addrs@[k] < n
        },
    }
}

/// The error reported for an instruction that does not fit the memory.
pub open spec fn config_error(ins: Instruction, index: int, n: nat) -> RuntimeError {
    match ins {
        Instruction::Mem { addr, .. } => if addr >= n {
            RuntimeError::AddressOutOfRange { index: index as usize }
        } else {
            RuntimeError::ValueOutOfRange { index: index as usize }
        },
        Instruction::Poseidon2 { .. } => RuntimeError::AddressOutOfRange { index: index as usize },
    }
}

/// The error of the first instruction from `i` on that does not fit.
pub open spec fn first_config_error(prog: Seq<Instruction>, n: nat, i: nat) -> Option<RuntimeError>
    decreases prog.len() - i,
{
    if i >= prog.len() {
        None
    } else if !instr_ok(prog[i as int], n) {
        Some(config_error(prog[i as int], i as int, n))
    } else {
        first_config_error(prog, n, i + 1)
    }
}

/// The first address among `addrs[k..WIDTH]` that holds no value.
pub open spec fn first_unset(mem: Seq<Option<u32>>, addrs: Seq<u32>, k: nat) -> Option<u32>
    decreases WIDTH - k,
{
    if k >= WIDTH {
        None
    } else if mem[addrs[k as int] as int] is None {
        Some(addrs[k as int])
    } else {
        first_unset(mem, addrs, k + 1)
    }
}

/// `mem` after writing `vals[j]` to `addrs[j]` for `j < k`, in order.
pub open spec fn write_all(mem: Seq<Option<u32>>, addrs: Seq<u32>, vals: Seq<u32>, k: nat) -> Seq<
    Option<u32>,
>
    decreases k,
{
    if k == 0 {
        mem
    } else {
        write_all(mem, addrs, vals, (k - 1) as nat).update(
            addrs[k - 1] as int,
            Some(vals[k - 1]),
        )
    }
}

/// The memory after instruction number `index`, and its event, or the fault.
pub open spec fn step_spec(c: RoundConstants, ins: Instruction, index: int, mem: Seq<Option<u32>>) -> Result<
    (Seq<Option<u32>>, EventView),
    RuntimeError,
> {
    match ins {
        Instruction::Mem { kind, addr, value } => match kind {
            MemAccessKind::Read => if mem[addr as int] == Some(value) {
                Ok((mem, EventView::Mem { kind, addr, value }))
            } else {
                Err(RuntimeError::MemoryConsistencyError { index: index as usize, addr })
            },
            MemAccessKind::Write => Ok(
                (mem.update(addr as int, Some(value)), EventView::Mem { kind, addr, value }),
            ),
        },
        Instruction::Poseidon2 { seed, input_addrs, output_addrs } => match first_unset(
            mem,
            input_addrs@,
            0,
        ) {
            Some(a) => Err(RuntimeError::MemoryConsistencyError { index: index as usize, addr: a }),
            None => {
                let input = Seq::new(WIDTH as nat, |k: int| mem[input_addrs@[k] as int]->Some_0);
                let output = permutation(c, input);
                Ok(
                    (
                        write_all(mem, output_addrs@, output, WIDTH as nat),
                        EventView::Poseidon2 {
                            seed,
                            input_addrs: input_addrs@,
                            output_addrs: output_addrs@,
                            input,
                            output,
                        },
                    ),
                )
            },
        },
    }
}

/// The record of running `prog[i..]` from memory `mem`, after `events`.
pub open spec fn exec_from(
    c: RoundConstants,
    prog: Seq<Instruction>,
    i: nat,
    mem: Seq<Option<u32>>,
    events: Seq<EventView>,
) -> Result<Seq<EventView>, RuntimeError>
    decreases prog.len() - i,
{
    if i >= prog.len() {
        Ok(events)
    } else {
        match step_spec(c, prog[i as int], i as int, mem) {
            Err(e) => Err(e),
            Ok(p) => exec_from(c, prog, i + 1, p.0, events.push(p.1)),
        }
    }
}

/// The record of running `prog` on a fresh memory of `n` cells, or the
/// first fault: configuration errors before execution begins.
pub open spec fn run_spec(c: RoundConstants, prog: Seq<Instruction>, n: nat) -> Result<
    Seq<EventView>,
    RuntimeError,
> {
    match first_config_error(prog, n, 0) {
        Some(e) => Err(e),
        None => exec_from(c, prog, 0, Seq::new(n, |a: int| None), seq![]),
    }
}

/// Every value held in memory is a field element.
pub open spec fn mem_wf(mem: Seq<Option<u32>>) -> bool {
    forall|a: int| 0 <= a < mem.len() && (#[trigger] mem[a]) is Some ==> is_fe(mem[a]->Some_0)
}

/// Checks that instruction number `index` fits a memory of `n` cells.
fn check_instruction(ins: &Instruction, index: usize, n: usize) -> (r: Option<RuntimeError>)
    ensures
        r is None <==> instr_ok(*ins, n as nat),
        r is Some ==> r->Some_0 == config_error(*ins, index as int, n as nat),
{
    match *ins {
        Instruction::Mem { addr, value, .. } => {
            if addr as usize >= n {
                Some(RuntimeError::AddressOutOfRange { index })
            } else if value >= crate::field::P {
                Some(RuntimeError::ValueOutOfRange { index })
            } else {
                None
            }
        },
        Instruction::Poseidon2 { input_addrs, output_addrs, .. } => {
            let mut k: usize = 0;
            while k < WIDTH
                invariant
                    k <= WIDTH,
                    ins is Poseidon2,
                    ins->input_addrs == input_addrs,
                    ins->output_addrs == output_addrs,
                    forall|j: int| 0 <= j < k ==> #[trigger] input_addrs@[j] < n,
                    forall|j: int| 0 <= j < k ==> #[trigger] output_addrs@[j] < n,
                decreases WIDTH - k,
            {
                if input_addrs[k] as usize >= n || output_addrs[k] as usize >= n {
                    return Some(RuntimeError::AddressOutOfRange { index });
                }
                k = k + 1;
            }
            None
        },
    }
}

/// Runs the memory access `ins` on `memory` and returns its event.
fn step_mem(c: &RoundConstants, ins: &Instruction, index: usize, memory: &mut Vec<Option<u32>>) -> (r: Result<
    Event,
    RuntimeError,
>)
    requires
        ins is Mem,
        instr_ok(*ins, old(memory)@.len()),
        mem_wf(old(memory)@),
    ensures
        match (r, step_spec(*c, *ins, index as int, old(memory)@)) {
            (Ok(e), Ok(p)) => e@ == p.1 && final(memory)@ == p.0,
            (Err(e), Err(f)) => e == f,
            _ => false,
        },
        mem_wf(final(memory)@),
        final(memory)@.len() == old(memory)@.len(),
{
    match ins {
        Instruction::Mem { kind, addr, value } => {
            let a = *addr as usize;
            match kind {
                MemAccessKind::Read => {
                    if memory[a] == Some(*value) {
                        Ok(Event::Mem { kind: *kind, addr: *addr, value: *value })
                    } else {
                        Err(RuntimeError::MemoryConsistencyError { index, addr: *addr })
                    }
                },
                MemAccessKind::Write => {
                    memory.set(a, Some(*value));
                    Ok(Event::Mem { kind: *kind, addr: *addr, value: *value })
                },
            }
        },
        Instruction::Poseidon2 { .. } => Err(RuntimeError::AddressOutOfRange { index }),
    }
}

/// Runs a permutation invocation on `memory` and returns its event.
fn step_poseidon2(
    c: &RoundConstants,
    seed: u32,
    input_addrs: &[u32; WIDTH],
    output_addrs: &[u32; WIDTH],
    index: usize,
    memory: &mut Vec<Option<u32>>,
) -> (r: Result<Event, RuntimeError>)
    requires
        c.wf(),
        instr_ok(Instruction::Poseidon2 { seed, input_addrs: *input_addrs, output_addrs: *output_addrs }, old(memory)@.len()),
        mem_wf(old(memory)@),
    ensures
        match (r, step_spec(*c, Instruction::Poseidon2 { seed, input_addrs: *input_addrs, output_addrs: *output_addrs }, index as int, old(memory)@)) {
            (Ok(e), Ok(p)) => e@ == p.1 && final(memory)@ == p.0,
            (Err(e), Err(f)) => e == f,
            _ => false,
        },
        mem_wf(final(memory)@),
        final(memory)@.len() == old(memory)@.len(),
{
    let ghost mem0 = memory@;
    let mut input: [u32; WIDTH] = [0; WIDTH];
    let mut k: usize = 0;
    while k < WIDTH
        invariant
            k <= WIDTH,
            memory@ == mem0,
            mem_wf(mem0),
            forall|j: int| 0 <= j < WIDTH ==> #[trigger] input_addrs@[j] < mem0.len(),
            first_unset(mem0, input_addrs@, 0) == first_unset(mem0, input_addrs@, k as nat),
            forall|j: int| 0 <= j < k ==> #[trigger] input@[j] == mem0[input_addrs@[j] as int]->Some_0,
            forall|j: int| 0 <= j < k ==> is_fe(#[trigger] input@[j]),
        decreases WIDTH - k,
    {
        assert(input_addrs@[k as int] < mem0.len());
        match memory[input_addrs[k] as usize] {
            Some(v) => {
                input[k] = v;
            },
            None => {
                return Err(RuntimeError::MemoryConsistencyError { index, addr: input_addrs[k] });
            },
        }
        k = k + 1;
    }
    assert(input@ =~= Seq::new(WIDTH as nat, |j: int| mem0[input_addrs@[j] as int]->Some_0));
    let output = permute(c, input);
    let mut k: usize = 0;
    while k < WIDTH
        invariant
            k <= WIDTH,
            mem_wf(mem0),
            is_state(output@),
            forall|j: int| 0 <= j < WIDTH ==> #[trigger] output_addrs@[j] < mem0.len(),
            memory@ == write_all(mem0, output_addrs@, output@, k as nat),
            mem_wf(memory@),
            memory@.len() == mem0.len(),
        decreases WIDTH - k,
    {
        memory.set(output_addrs[k] as usize, Some(output[k]));
        k = k + 1;
    }
    Ok(
        Event::Poseidon2(
            Poseidon2Event {
                seed,
                input_addrs: *input_addrs,
                output_addrs: *output_addrs,
                input,
                output,
            },
        ),
    )
}

/// Runs instruction number `index` on `memory` and returns its event.
fn step(c: &RoundConstants, ins: &Instruction, index: usize, memory: &mut Vec<Option<u32>>) -> (r:
    Result<Event, RuntimeError>)
    requires
        c.wf(),
        instr_ok(*ins, old(memory)@.len()),
        mem_wf(old(memory)@),
    ensures
        match (r, step_spec(*c, *ins, index as int, old(memory)@)) {
            (Ok(e), Ok(p)) => e@ == p.1 && final(memory)@ == p.0,
            (Err(e), Err(f)) => e == f,
            _ => false,
        },
        mem_wf(final(memory)@),
        final(memory)@.len() == old(memory)@.len(),
{
    match ins {
        Instruction::Mem { .. } => step_mem(c, ins, index, memory),
        Instruction::Poseidon2 { seed, input_addrs, output_addrs } => step_poseidon2(
            c,
            *seed,
            input_addrs,
            output_addrs,
            index,
            memory,
        ),
    }
}

/// Runs `program` on a fresh memory of `mem_size` cells, each without a
/// value, and returns the record: one event per instruction, in program
/// order. Configuration errors are reported before any instruction runs.
pub fn execute(c: &RoundConstants, program: &Vec<Instruction>, mem_size: usize) -> (r: Result<
    Vec<Event>,
    RuntimeError,
>)
    requires
        c.wf(),
    ensures
        match (r, run_spec(*c, program@, mem_size as nat)) {
            (Ok(evs), Ok(sv)) => events_view(evs@) == sv,
            (Err(e), Err(f)) => e == f,
            _ => false,
        },
{
    let ghost prog = program@;
    let ghost n = mem_size as nat;
    let mut i: usize = 0;
    while i < program.len()
        invariant
            i <= prog.len(),
            prog == program@,
            n == mem_size as nat,
            first_config_error(prog, n, 0) == first_config_error(prog, n, i as nat),
            forall|j: int| 0 <= j < i ==> instr_ok(#[trigger] prog[j], n),
        decreases prog.len() - i,
    {
        match check_instruction(&program[i], i, mem_size) {
            Some(e) => {
                assert(first_config_error(prog, n, i as nat) == Some(e));
                return Err(e);
            },
            None => {},
        }
        assert(first_config_error(prog, n, i as nat) == first_config_error(prog, n, (i + 1) as nat));
        i = i + 1;
    }
    assert(first_config_error(prog, n, i as nat) is None);
    let mut memory: Vec<Option<u32>> = Vec::new();
    while memory.len() < mem_size
        invariant
            memory@.len() <= mem_size,
            forall|a: int| 0 <= a < memory@.len() ==> #[trigger] memory@[a] is None,
        decreases mem_size - memory@.len(),
    {
        memory.push(None);
    }
    assert(memory@ =~= Seq::new(n, |a: int| None));
    let mut events: Vec<Event> = Vec::new();
    assert(events_view(events@) =~= seq![]);
    let mut i: usize = 0;
    while i < program.len()
        invariant
            c.wf(),
            i <= prog.len(),
            prog == program@,
            n == mem_size as nat,
            forall|j: int| 0 <= j < prog.len() ==> instr_ok(#[trigger] prog[j], n),
            memory@.len() == n,
            mem_wf(memory@),
            run_spec(*c, prog, n) == exec_from(*c, prog, i as nat, memory@, events_view(events@)),
        decreases prog.len() - i,
    {
        let ghost before = events@;
        match step(c, &program[i], i, &mut memory) {
            Ok(e) => {
                events.push(e);
                assert(events_view(events@) =~= events_view(before).push(e@));
            },
            Err(e) => {
                return Err(e);
            },
        }
        i = i + 1;
    }
    Ok(events)
}

/// A permutation event's input is a state and its output the permutation
/// of that input.
pub open spec fn view_ok(c: RoundConstants, ev: EventView) -> bool {
    match ev {
        EventView::Poseidon2 { input, output, .. } => is_state(input) && output == permutation(c, input),
        _ => true,
    }
}

proof fn lemma_first_unset_none(mem: Seq<Option<u32>>, addrs: Seq<u32>, k: nat)
    requires
        first_unset(mem, addrs, k) is None,
        k <= WIDTH,
    ensures
        forall|j: int| k <= j < WIDTH ==> mem[#[trigger] addrs[j] as int] is Some,
    decreases WIDTH - k,
{
    if k < WIDTH {
        lemma_first_unset_none(mem, addrs, k + 1);
    }
}

proof fn lemma_write_all_wf(mem: Seq<Option<u32>>, addrs: Seq<u32>, vals: Seq<u32>, k: nat)
    requires
        mem_wf(mem),
        is_state(vals),
        k <= WIDTH,
        forall|j: int| 0 <= j < WIDTH ==> #[trigger] addrs[j] < mem.len(),
    ensures
        mem_wf(write_all(mem, addrs, vals, k)),
        write_all(mem, addrs, vals, k).len() == mem.len(),
    decreases k,
{
    if k > 0 {
        lemma_write_all_wf(mem, addrs, vals, (k - 1) as nat);
        let m = write_all(mem, addrs, vals, (k - 1) as nat);
        assert(addrs[k - 1] < mem.len());
        assert(is_fe(vals[k - 1]));
        let m2 = m.update(addrs[k - 1] as int, Some(vals[k - 1]));
        assert forall|a: int| 0 <= a < m2.len() && (#[trigger] m2[a]) is Some implies is_fe(m2[a]->Some_0) by {
            if a != addrs[k - 1] as int {
                assert(m2[a] == m[a]);
            }
        }
    }
}

proof fn lemma_step_ok(c: RoundConstants, ins: Instruction, index: int, mem: Seq<Option<u32>>)
    requires
        c.wf(),
        instr_ok(ins, mem.len()),
        mem_wf(mem),
        step_spec(c, ins, index, mem) is Ok,
    ensures
        mem_wf(step_spec(c, ins, index, mem)->Ok_0.0),
        step_spec(c, ins, index, mem)->Ok_0.0.len() == mem.len(),
        view_ok(c, step_spec(c, ins, index, mem)->Ok_0.1),
{
    match ins {
        Instruction::Mem { kind, addr, value } => {
            let m2 = mem.update(addr as int, Some(value));
            assert forall|a: int| 0 <= a < m2.len() && (#[trigger] m2[a]) is Some implies is_fe(m2[a]->Some_0) by {
                if a != addr as int {
                    assert(m2[a] == mem[a]);
                }
            }
        },
        Instruction::Poseidon2 { seed, input_addrs, output_addrs } => {
            lemma_first_unset_none(mem, input_addrs@, 0);
            let input = Seq::new(WIDTH as nat, |k: int| mem[input_addrs@[k] as int]->Some_0);
            assert forall|k: int| 0 <= k < WIDTH implies is_fe(#[trigger] input[k]) by {
                assert(input_addrs@[k] < mem.len());
                assert(mem[input_addrs@[k] as int] is Some);
            }
            lemma_permutation_is_state(c, input);
            lemma_write_all_wf(mem, output_addrs@, permutation(c, input), WIDTH as nat);
        },
    }
}

proof fn lemma_exec_from_ok(
    c: RoundConstants,
    prog: Seq<Instruction>,
    i: nat,
    mem: Seq<Option<u32>>,
    evs: Seq<EventView>,
)
    requires
        c.wf(),
        exec_from(c, prog, i, mem, evs) is Ok,
        mem_wf(mem),
        forall|j: int| 0 <= j < prog.len() ==> instr_ok(#[trigger] prog[j], mem.len()),
        forall|j: int| 0 <= j < evs.len() ==> view_ok(c, #[trigger] evs[j]),
    ensures
        forall|j: int| 0 <= j < exec_from(c, prog, i, mem, evs)->Ok_0.len() ==> view_ok(
            c,
            #[trigger] exec_from(c, prog, i, mem, evs)->Ok_0[j],
        ),
    decreases prog.len() - i,
{
    if i < prog.len() {
        let st = step_spec(c, prog[i as int], i as int, mem);
        if st is Ok {
            lemma_step_ok(c, prog[i as int], i as int, mem);
            let p = st->Ok_0;
            let evs2 = evs.push(p.1);
            assert forall|j: int| 0 <= j < evs2.len() implies view_ok(c, #[trigger] evs2[j]) by {
                if j < evs.len() {
                    assert(evs2[j] == evs[j]);
                }
            }
            lemma_exec_from_ok(c, prog, i + 1, p.0, evs2);
        }
    }
}

/// Every event of a record that the runtime produced is consistent: a
/// permutation event holds a state as input and its permutation as output.
pub proof fn lemma_runtime_events_ok(c: RoundConstants, prog: Seq<Instruction>, n: nat, record: Seq<Event>)
    requires
        c.wf(),
        run_spec(c, prog, n) == Ok::<Seq<EventView>, RuntimeError>(events_view(record)),
    ensures
        forall|j: int| 0 <= j < record.len() ==> view_ok(c, #[trigger] record[j]@),
{
    let mem = Seq::new(n, |a: int| None::<u32>);
    assert(first_config_error(prog, n, 0) is None);
    lemma_config_ok(prog, n, 0);
    assert(mem_wf(mem));
    assert(mem =~= Seq::new(n, |a: int| None));
    lemma_exec_from_ok(c, prog, 0, mem, seq![]);
    let out = exec_from(c, prog, 0, mem, seq![])->Ok_0;
    assert(out == events_view(record));
    assert forall|j: int| 0 <= j < record.len() implies view_ok(c, #[trigger] record[j]@) by {
        assert(events_view(record)[j] == record[j]@);
        assert(view_ok(c, out[j]));
    }
}

proof fn lemma_config_ok(prog: Seq<Instruction>, n: nat, i: nat)
    requires
        first_config_error(prog, n, i) is None,
    ensures
        forall|j: int| i <= j < prog.len() ==> instr_ok(#[trigger] prog[j], n),
    decreases prog.len() - i,
{
    if i < prog.len() {
        lemma_config_ok(prog, n, i + 1);
    }
}

} // verus!
