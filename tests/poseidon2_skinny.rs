use poseidon2_skinny::air::{row_satisfies, trace_satisfies, Row};
use poseidon2_skinny::build_opts::{
    build_program, build_program_with, build_program_with_args, BuildArgs, BuildScriptOpts,
};
use poseidon2_skinny::field::{exp7, fadd, fdouble, fmul, fsub, P};
use poseidon2_skinny::poseidon2::{
    apply_m_4, external_linear_layer, internal_linear_layer, permute, RoundConstants,
    NUM_EXTERNAL_ROUNDS, NUM_INTERNAL_ROUNDS, WIDTH,
};
use poseidon2_skinny::runtime::{execute, Event, Instruction, MemAccessKind, RuntimeError};
use poseidon2_skinny::trace::{Poseidon2SkinnyChip, TraceError};
use p3_baby_bear::{BabyBear, DiffusionMatrixBabyBear};
use p3_field::{AbstractField, PrimeField32};
use p3_poseidon2::{Poseidon2, Poseidon2ExternalMatrixGeneral};
use p3_symmetric::Permutation;

fn constants() -> RoundConstants {
    let external = (0..NUM_EXTERNAL_ROUNDS)
        .map(|r| {
            let mut rc = [0u32; WIDTH];
            for (i, x) in rc.iter_mut().enumerate() {
                *x = (((r * WIDTH + i + 1) as u64 * 1_000_003) % P as u64) as u32;
            }
            rc
        })
        .collect();
    let internal = (0..NUM_INTERNAL_ROUNDS)
        .map(|r| (((r + 1) as u64 * 7_919_999) % P as u64) as u32)
        .collect();
    RoundConstants { external, internal }
}

/// The permutation as p3_poseidon2 computes it, with the same constants.
fn reference_permute(c: &RoundConstants, input: [u32; WIDTH]) -> [u32; WIDTH] {
    let external: Vec<[BabyBear; WIDTH]> =
        c.external.iter().map(|rc| rc.map(BabyBear::from_canonical_u32)).collect();
    let internal: Vec<BabyBear> =
        c.internal.iter().map(|&x| BabyBear::from_canonical_u32(x)).collect();
    let perm: Poseidon2<BabyBear, Poseidon2ExternalMatrixGeneral, DiffusionMatrixBabyBear, WIDTH, 7> =
        Poseidon2::new(
            NUM_EXTERNAL_ROUNDS,
            external,
            Poseidon2ExternalMatrixGeneral,
            NUM_INTERNAL_ROUNDS,
            internal,
            DiffusionMatrixBabyBear,
        );
    perm.permute(input.map(BabyBear::from_canonical_u32)).map(|x| x.as_canonical_u32())
}

fn mem(kind: MemAccessKind, addr: u32, value: u32) -> Instruction {
    Instruction::Mem { kind, addr, value }
}

fn poseidon2(input_addrs: [u32; WIDTH], output_addrs: [u32; WIDTH]) -> Instruction {
    Instruction::Poseidon2 { seed: 1, input_addrs, output_addrs }
}

fn chip() -> Poseidon2SkinnyChip<9> {
    Poseidon2SkinnyChip::<9>::new().unwrap()
}

#[test]
fn test_poseidon2() {
    let c = constants();
    let input = [1u32; WIDTH];
    let output = reference_permute(&c, input);
    let input_1: [u32; WIDTH] = std::array::from_fn(|i| (i as u32 * 123_456_789 + 17) % P);
    let output_1 = reference_permute(&c, input_1);

    let mut instructions: Vec<Instruction> = Vec::new();
    for i in 0..WIDTH {
        instructions.push(mem(MemAccessKind::Write, i as u32, input[i]));
    }
    instructions.push(poseidon2(
        std::array::from_fn(|i| i as u32),
        std::array::from_fn(|i| (i + WIDTH) as u32),
    ));
    for i in 0..WIDTH {
        instructions.push(mem(MemAccessKind::Read, (i + WIDTH) as u32, output[i]));
    }
    for i in 0..WIDTH {
        instructions.push(mem(MemAccessKind::Write, (2 * WIDTH + i) as u32, input_1[i]));
    }
    instructions.push(poseidon2(
        std::array::from_fn(|i| (i + 2 * WIDTH) as u32),
        std::array::from_fn(|i| (i + 3 * WIDTH) as u32),
    ));
    for i in 0..WIDTH {
        instructions.push(mem(MemAccessKind::Read, (i + 3 * WIDTH) as u32, output_1[i]));
    }

    let record = execute(&c, &instructions, 4 * WIDTH).unwrap();
    assert_eq!(record.len(), instructions.len());
    let rows = chip().generate_trace(&c, &record).unwrap();
    if !trace_satisfies(&c, &rows) {
        panic!("Verification failed: {:?}", rows.len());
    }
}

#[test]
fn field_operations_reduce() {
    assert_eq!(fadd(P - 1, 1), 0);
    assert_eq!(fadd(5, 7), 12);
    assert_eq!(fsub(0, 1), P - 1);
    assert_eq!(fsub(9, 4), 5);
    assert_eq!(fmul(2, P - 1), P - 2);
    assert_eq!(fmul(1 << 20, 1 << 20), ((1u64 << 40) % P as u64) as u32);
    assert_eq!(fdouble(P - 1), P - 2);
    assert_eq!(exp7(2), 128);
    assert_eq!(exp7(P - 1), P - 1);
    assert_eq!(exp7(0), 0);
}

#[test]
fn m4_matrix_on_one_block() {
    let mut x = [1u32, 2, 3, 4];
    apply_m_4(&mut x);
    assert_eq!(x, [15, 18, 21, 16]);
    let mut y = [1u32, 2, 3, 4, 99];
    apply_m_4(&mut y);
    assert_eq!(y, [15, 18, 21, 16, 99]);
}

#[test]
fn external_layer_mixes_blocks() {
    let mut s = [0u32; WIDTH];
    s[0] = 1;
    external_linear_layer(&mut s);
    assert_eq!(s, [4, 2, 2, 6, 2, 1, 1, 3, 2, 1, 1, 3, 2, 1, 1, 3]);
}

#[test]
fn internal_layer_on_ones() {
    let mut s = [1u32; WIDTH];
    internal_linear_layer(&mut s);
    assert_eq!(
        s,
        [
            1132462074, 1950351353, 880803832, 754974711, 503316469, 2013265906, 1006632938,
            1006632923, 1006632893, 1006632833, 1006632713, 1006632473, 1006631993, 1006631033,
            1006629113, 1006617593
        ]
    );
}

#[test]
fn permutation_matches_p3_poseidon2() {
    let c = constants();
    let inputs: [[u32; WIDTH]; 4] = [
        [0; WIDTH],
        [1; WIDTH],
        std::array::from_fn(|i| i as u32),
        std::array::from_fn(|i| (P - 1 - i as u32 * 99_991) % P),
    ];
    for input in inputs {
        assert_eq!(permute(&c, input), reference_permute(&c, input));
    }
}

#[test]
fn permutation_is_deterministic_and_moves_state() {
    let c = constants();
    let input: [u32; WIDTH] = std::array::from_fn(|i| i as u32);
    let a = permute(&c, input);
    let b = permute(&c, input);
    assert_eq!(a, b);
    assert_ne!(a, input);
    assert!(a.iter().all(|&x| x < P));
    let other = permute(&c, [0u32; WIDTH]);
    assert_ne!(a, other);
}

#[test]
fn write_then_read_same_value() {
    let c = constants();
    let program = vec![mem(MemAccessKind::Write, 5, 7), mem(MemAccessKind::Read, 5, 7)];
    let record = execute(&c, &program, 8).unwrap();
    assert_eq!(record.len(), 2);
    assert_eq!(record[0], Event::Mem { kind: MemAccessKind::Write, addr: 5, value: 7 });
    assert_eq!(record[1], Event::Mem { kind: MemAccessKind::Read, addr: 5, value: 7 });
}

#[test]
fn read_of_other_value_faults() {
    let c = constants();
    let program = vec![mem(MemAccessKind::Write, 5, 7), mem(MemAccessKind::Read, 5, 8)];
    assert_eq!(
        execute(&c, &program, 8),
        Err(RuntimeError::MemoryConsistencyError { index: 1, addr: 5 })
    );
}

#[test]
fn read_before_write_faults() {
    let c = constants();
    let program = vec![mem(MemAccessKind::Read, 3, 0)];
    assert_eq!(
        execute(&c, &program, 8),
        Err(RuntimeError::MemoryConsistencyError { index: 0, addr: 3 })
    );
    let program = vec![poseidon2([0; WIDTH], [1; WIDTH])];
    assert_eq!(
        execute(&c, &program, 8),
        Err(RuntimeError::MemoryConsistencyError { index: 0, addr: 0 })
    );
}

#[test]
fn configuration_errors_come_first() {
    let c = constants();
    let program = vec![mem(MemAccessKind::Read, 0, 1), mem(MemAccessKind::Write, 8, 1)];
    assert_eq!(execute(&c, &program, 8), Err(RuntimeError::AddressOutOfRange { index: 1 }));
    let program = vec![mem(MemAccessKind::Write, 0, P)];
    assert_eq!(execute(&c, &program, 8), Err(RuntimeError::ValueOutOfRange { index: 0 }));
    let mut outs = [0u32; WIDTH];
    outs[15] = 100;
    let program = vec![poseidon2([0; WIDTH], outs)];
    assert_eq!(execute(&c, &program, 16), Err(RuntimeError::AddressOutOfRange { index: 0 }));
}

fn one_invocation_program(input: [u32; WIDTH], output: [u32; WIDTH]) -> Vec<Instruction> {
    let mut program = Vec::new();
    for i in 0..WIDTH {
        program.push(mem(MemAccessKind::Write, i as u32, input[i]));
    }
    program.push(poseidon2(
        std::array::from_fn(|i| i as u32),
        std::array::from_fn(|i| (i + WIDTH) as u32),
    ));
    for i in 0..WIDTH {
        program.push(mem(MemAccessKind::Read, (i + WIDTH) as u32, output[i]));
    }
    program
}

#[test]
fn end_to_end_single_invocation() {
    let c = constants();
    let input: [u32; WIDTH] = std::array::from_fn(|i| (i as u32 + 1) * 1000);
    let output = reference_permute(&c, input);
    let program = one_invocation_program(input, output);
    let record = execute(&c, &program, 2 * WIDTH).unwrap();
    assert_eq!(record.len(), 2 * WIDTH + 1);
    match record[WIDTH] {
        Event::Poseidon2(e) => {
            assert_eq!(e.input, input);
            assert_eq!(e.output, output);
        }
        _ => panic!("expected a permutation event"),
    }
    let rows = chip().generate_trace(&c, &record).unwrap();
    assert_eq!(rows.len(), 16);
    assert!(trace_satisfies(&c, &rows));
    assert!(rows[0].is_first && rows[0].is_real);
    let mut layered = input;
    external_linear_layer(&mut layered);
    assert_eq!(rows[0].pre, layered);
    assert_eq!(rows[0].mem_input, input);
    assert!(rows[8].is_last);
    assert_eq!(rows[8].post, output);
    assert_eq!(rows[8].mem_output, output);
    for i in 0..8 {
        assert_eq!(rows[i + 1].pre, rows[i].post);
        assert!(row_satisfies(&c, &rows[i]));
    }
    let mut zero = [0u32; WIDTH];
    external_linear_layer(&mut zero);
    let only_padding = chip().generate_trace(&c, &record_of(&c, 0)).unwrap();
    assert_eq!(only_padding[0].pre, zero);
    for (i, r) in rows.iter().enumerate().skip(9) {
        assert!(!r.is_real && !r.is_first && !r.is_last);
        assert!(row_satisfies(&c, r));
        if i % 9 == 0 {
            assert_eq!(r.pre, zero);
        }
        if i % 9 != 8 && i + 1 < rows.len() {
            assert_eq!(rows[i + 1].pre, r.post);
        }
    }
}

#[test]
fn wrong_expected_output_faults() {
    let c = constants();
    let input = [3u32; WIDTH];
    let mut output = permute(&c, input);
    output[4] = (output[4] + 1) % P;
    let program = one_invocation_program(input, output);
    assert_eq!(
        execute(&c, &program, 2 * WIDTH),
        Err(RuntimeError::MemoryConsistencyError { index: (WIDTH + 1 + 4) as u32 as usize, addr: (WIDTH + 4) as u32 })
    );
}

fn record_of(c: &RoundConstants, n: usize) -> Vec<Event> {
    let mut program = Vec::new();
    for i in 0..WIDTH {
        program.push(mem(MemAccessKind::Write, i as u32, i as u32 + 5));
    }
    for _ in 0..n {
        program.push(poseidon2(std::array::from_fn(|i| i as u32), std::array::from_fn(|i| i as u32)));
    }
    execute(c, &program, WIDTH).unwrap()
}

#[test]
fn padding_reaches_a_power_of_two() {
    let c = constants();
    for n in 0..5usize {
        let record = record_of(&c, n);
        let rows = chip().generate_trace(&c, &record).unwrap();
        assert!(rows.len().is_power_of_two());
        assert!(rows.len() >= 9 * n);
        assert!(trace_satisfies(&c, &rows));
        assert_eq!(rows.iter().filter(|r| r.is_real).count(), 9 * n);
    }
    let rows = chip().generate_trace(&c, &record_of(&c, 0)).unwrap();
    assert_eq!(rows.len(), 1);
    let rows = chip().generate_trace(&c, &record_of(&c, 4)).unwrap();
    assert_eq!(rows.len(), 64);
}

#[test]
fn fixed_and_no_padding() {
    let c = constants();
    let record = record_of(&c, 1);
    let fixed = Poseidon2SkinnyChip::<9> { fixed_log2_rows: Some(5), pad: true };
    assert_eq!(fixed.generate_trace(&c, &record).unwrap().len(), 32);
    let small = Poseidon2SkinnyChip::<9> { fixed_log2_rows: Some(3), pad: true };
    assert_eq!(small.generate_trace(&c, &record), Err(TraceError::TooManyRows));
    let bare = Poseidon2SkinnyChip::<9> { fixed_log2_rows: None, pad: false };
    assert_eq!(bare.generate_trace(&c, &record).unwrap().len(), 9);
}

#[test]
fn inconsistent_event_is_rejected() {
    let c = constants();
    let mut record = record_of(&c, 2);
    let last = record.len() - 1;
    if let Event::Poseidon2(e) = &mut record[last] {
        e.output[0] = (e.output[0] + 1) % P;
    }
    assert_eq!(
        chip().generate_trace(&c, &record),
        Err(TraceError::InconsistentEvent { index: 1 })
    );
}

#[test]
fn tampered_trace_fails_constraints() {
    let c = constants();
    let rows = chip().generate_trace(&c, &record_of(&c, 1)).unwrap();
    let mut bad: Vec<Row> = rows.clone();
    bad[2].post[0] = (bad[2].post[0] + 1) % P;
    assert!(!row_satisfies(&c, &bad[2]));
    assert!(!trace_satisfies(&c, &bad));
    let mut bad = rows.clone();
    bad[4].internal_states[3][1] = (bad[4].internal_states[3][1] + 1) % P;
    assert!(!row_satisfies(&c, &bad[4]));
    let mut bad = rows.clone();
    bad[0].mem_input[0] = (bad[0].mem_input[0] + 1) % P;
    assert!(row_satisfies(&c, &bad[0]));
    assert!(!trace_satisfies(&c, &bad));
}

#[test]
fn chip_needs_degree_nine() {
    assert!(Poseidon2SkinnyChip::<3>::new().is_none());
    let chip = Poseidon2SkinnyChip::<9>::new().unwrap();
    assert!(chip.pad);
    assert_eq!(chip.fixed_log2_rows, None);
}

#[test]
fn build_requests_carry_options() {
    let args = BuildArgs::default();
    assert!(!args.docker);
    assert_eq!(args.tag, "v1.1.0");
    assert!(args.features.is_empty());
    assert_eq!(args.binary, "");
    assert_eq!(args.output_directory, "elf");
    let r = build_program("program");
    assert_eq!(r.path, "program");
    assert_eq!(r.opts.args.tag, "v1.1.0");
    assert!(!r.opts.quiet);
    let mut custom = BuildArgs::default();
    custom.docker = true;
    custom.features = vec!["a".to_string()];
    let r = build_program_with_args("p", custom);
    assert!(r.opts.args.docker);
    assert_eq!(r.opts.args.features, vec!["a".to_string()]);
    let opts = BuildScriptOpts { args: BuildArgs::default(), quiet: true };
    let r = build_program_with("q", opts);
    assert!(r.opts.quiet);
    assert_eq!(r.path, "q");
}
