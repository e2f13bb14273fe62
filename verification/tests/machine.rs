use risc16::compiler::{compile_raw, force_u8, read_u16};
use risc16::machine::{load, run_for, ConsoleOut, MainProcessor, PrintMemory, Query, Response};

fn memory_with(words: &[u16]) -> PrintMemory {
    let mut image = vec![0u16; 65536];
    assert_eq!(image.len(), 65536);
    for (i, w) in words.iter().enumerate() {
        image[i] = *w;
    }
    PrintMemory::from_data(image)
}

fn step(words: &[u16], regs: &[(usize, u16)]) -> (MainProcessor, PrintMemory, Result<(), u16>) {
    let mut mem = memory_with(words);
    let mut proc = MainProcessor::new();
    for (i, v) in regs {
        proc.set_reg(*i, *v);
    }
    let r = proc.exe_ins(&mut mem);
    (proc, mem, r)
}

#[test]
fn halt_program_halts_immediately() {
    // End-to-end scenario: a program of one HLT word reaches the normal
    // halt with no register touched.
    let (proc, _mem, r) = step(&[0], &[]);
    assert_eq!(r, Err(0));
    for i in 0..8 {
        assert_eq!(proc.reg(i), 0);
    }
}

#[test]
fn add_wraps_modulo_65536() {
    let cases = [
        (0u16, 0u16, 0u16),
        (1, 2, 3),
        (65535, 1, 0),
        (40000, 40000, 14464),
    ];
    for (x, y, want) in cases {
        let (proc, _, r) = step(&[5, 2, 3], &[(2, x), (3, y)]);
        assert_eq!(r, Ok(()));
        assert_eq!(proc.reg(0), want, "ADD {} {}", x, y);
        assert_eq!(proc.reg(1), 3);
    }
}

#[test]
fn sub_wraps_modulo_65536() {
    let cases = [(5u16, 3u16, 2u16), (0, 1, 65535), (3, 5, 65534)];
    for (x, y, want) in cases {
        let (proc, _, r) = step(&[6, 2, 3], &[(2, x), (3, y)]);
        assert_eq!(r, Ok(()));
        assert_eq!(proc.reg(0), want, "SUB {} {}", x, y);
    }
}

#[test]
fn bitwise_operations() {
    let x = 0b1100_1010_1111_0000u16;
    let y = 0b1010_0110_0000_1111u16;
    let (proc, _, _) = step(&[7, 2, 3], &[(2, x), (3, y)]);
    assert_eq!(proc.reg(0), x ^ y);
    let (proc, _, _) = step(&[8, 2, 3], &[(2, x), (3, y)]);
    assert_eq!(proc.reg(0), !(x | y));
    let (proc, _, _) = step(&[9, 2, 3], &[(2, x), (3, y)]);
    assert_eq!(proc.reg(0), x & y);
}

#[test]
fn lst_is_unsigned_compare() {
    let (proc, _, _) = step(&[10, 2, 3], &[(2, 3), (3, 5)]);
    assert_eq!(proc.reg(0), 1);
    let (proc, _, _) = step(&[10, 2, 3], &[(2, 5), (3, 3)]);
    assert_eq!(proc.reg(0), 0);
    let (proc, _, _) = step(&[10, 2, 3], &[(2, 4), (3, 4)]);
    assert_eq!(proc.reg(0), 0);
}

#[test]
fn jnz_not_taken_advances_count_by_three() {
    let (proc, _, r) = step(&[11, 2, 3], &[(2, 0), (3, 77)]);
    assert_eq!(r, Ok(()));
    assert_eq!(proc.reg(1), 3);
}

#[test]
fn jnz_taken_lands_exactly_on_target() {
    let (proc, _, r) = step(&[11, 2, 3], &[(2, 9), (3, 77)]);
    assert_eq!(r, Ok(()));
    assert_eq!(proc.reg(1), 77);
}

#[test]
fn set_writes_immediate() {
    let (proc, _, r) = step(&[3, 4, 12345], &[]);
    assert_eq!(r, Ok(()));
    assert_eq!(proc.reg(4), 12345);
}

#[test]
fn cpy_copies_register() {
    let (proc, _, r) = step(&[4, 2, 7], &[(2, 999)]);
    assert_eq!(r, Ok(()));
    assert_eq!(proc.reg(7), 999);
}

#[test]
fn pnt_dereferences_memory() {
    // PNT a b with a = 100 and mem[100] = 55: register b gets 55.
    let mut words = vec![1u16, 2, 3];
    words.resize(101, 0);
    words[100] = 55;
    let (proc, _, r) = step(&words, &[(2, 100)]);
    assert_eq!(r, Ok(()));
    assert_eq!(proc.reg(3), 55);
}

#[test]
fn sav_stores_register() {
    let (_, mem, r) = step(&[2, 2, 3], &[(2, 777), (3, 5000)]);
    assert_eq!(r, Ok(()));
    assert_eq!(mem.word(5000), 777);
}

#[test]
fn unknown_opcode_faults_with_code_1() {
    let (proc, _, r) = step(&[12, 0, 0], &[]);
    assert_eq!(r, Err(1));
    assert_eq!(proc.reg(1), 0);
}

#[test]
fn out_of_range_operand_faults_with_code_2() {
    // Fault isolation: opcode 5 with operand 9 halts with fault 2, the
    // counter has advanced past the instruction, and nothing else moved.
    let (proc, mem, r) = step(&[5, 9, 3], &[(3, 42)]);
    assert_eq!(r, Err(2));
    assert_eq!(proc.reg(1), 3);
    assert_eq!(proc.reg(0), 0);
    for i in 2..8 {
        let want = if i == 3 { 42 } else { 0 };
        assert_eq!(proc.reg(i), want);
    }
    assert_eq!(mem.word(0), 5);
}

#[test]
fn second_operand_out_of_range_also_faults() {
    let (_, _, r) = step(&[4, 2, 8], &[]);
    assert_eq!(r, Err(2));
}

#[test]
fn bus_load_and_store() {
    let mut mem = memory_with(&[7, 8, 9]);
    assert_eq!(mem.handle(Query::LoadRequest(1)), Ok(Response::Data(8)));
    assert_eq!(mem.handle(Query::SaveRequest(33, 2)), Ok(Response::Good));
    assert_eq!(mem.handle(Query::LoadRequest(2)), Ok(Response::Data(33)));
}

#[test]
fn load_wraps_addresses() {
    let mut mem = memory_with(&[]);
    load(&mut mem, &vec![10, 20], 65535);
    assert_eq!(mem.word(65535), 10);
    assert_eq!(mem.word(0), 20);
}

#[test]
fn console_prints_one_character() {
    // Store 'H' in the data word, raise the flag with 1: one character.
    let src = "SET a 72\nSET b 8081\nSAV a b\nSET a 1\nSET b 8080\nSAV a b\nHLT";
    let words = compile_raw(src).unwrap();
    let mut mem = memory_with(&[]);
    load(&mut mem, &words, 0);
    let mut proc = MainProcessor::new();
    let (halt, outs) = run_for(&mut proc, &mut mem, 1000);
    assert_eq!(halt, Some(0));
    assert_eq!(outs, vec![ConsoleOut::Single(72)]);
    assert_eq!(mem.word(8080), 0);
}

#[test]
fn console_prints_two_characters_on_flag_2() {
    // 0x4849 is 'H' then 'I'; flag 2 publishes both bytes.
    let src = "SET a 18505\nSET b 8081\nSAV a b\nSET a 2\nSET b 8080\nSAV a b\nHLT";
    let words = compile_raw(src).unwrap();
    let mut mem = memory_with(&[]);
    load(&mut mem, &words, 0);
    let mut proc = MainProcessor::new();
    let (halt, outs) = run_for(&mut proc, &mut mem, 1000);
    assert_eq!(halt, Some(0));
    assert_eq!(outs, vec![ConsoleOut::Pair(72, 73)]);
}

#[test]
fn run_for_stops_at_fuel_without_halt() {
    // JNZ out count with out = 0 never jumps; count just walks forward.
    let mut mem = memory_with(&[4, 1, 2]);
    let mut proc = MainProcessor::new();
    let (halt, outs) = run_for(&mut proc, &mut mem, 1);
    assert_eq!(halt, None);
    assert_eq!(outs, Vec::<ConsoleOut>::new());
    assert_eq!(proc.reg(1), 3);
}

#[test]
fn program_from_bytes_runs() {
    // Serialize, read back, load, run: the full binary-file round trip.
    let words = compile_raw("SET a 5\nSET b 6\nADD a b\nHLT").unwrap();
    let bytes = force_u8(words);
    let reread = read_u16(&bytes);
    let mut mem = memory_with(&[]);
    load(&mut mem, &reread, 0);
    let mut proc = MainProcessor::new();
    let (halt, _) = run_for(&mut proc, &mut mem, 100);
    assert_eq!(halt, Some(0));
    assert_eq!(proc.reg(0), 11);
}
