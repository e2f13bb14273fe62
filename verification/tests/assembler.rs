use risc16::compiler::{compile_raw, force_u8, get_reg, read_u16, AsmErrorKind};

#[test]
fn set_and_halt_words() {
    // End-to-end scenario: two lines, four words.
    let words = compile_raw("SET a 5\nHLT").unwrap();
    assert_eq!(words, vec![3, 2, 5, 0]);
}

#[test]
fn set_and_halt_bytes() {
    let words = compile_raw("SET a 5\nHLT").unwrap();
    let bytes = force_u8(words);
    assert_eq!(bytes, vec![0x00, 0x03, 0x00, 0x02, 0x00, 0x05, 0x00, 0x00]);
}

#[test]
fn hlt_emits_one_word() {
    assert_eq!(compile_raw("HLT").unwrap(), vec![0]);
}

#[test]
fn every_two_operand_mnemonic_emits_three_words() {
    let cases = [
        ("PNT a b", vec![1, 2, 3]),
        ("SAV a b", vec![2, 2, 3]),
        ("SET a 9", vec![3, 2, 9]),
        ("CPY a b", vec![4, 2, 3]),
        ("ADD a b", vec![5, 2, 3]),
        ("SUB a b", vec![6, 2, 3]),
        ("XOR a b", vec![7, 2, 3]),
        ("NOR a b", vec![8, 2, 3]),
        ("AND a b", vec![9, 2, 3]),
        ("LST a b", vec![10, 2, 3]),
        ("JNZ a b", vec![11, 2, 3]),
    ];
    for (line, expected) in cases {
        let words = compile_raw(line).unwrap();
        assert_eq!(words.len(), 3);
        assert_eq!(words, expected);
    }
}

#[test]
fn register_names_map_to_distinct_indices() {
    let names: [&[u8]; 8] = [b"out", b"count", b"a", b"b", b"c", b"d", b"e", b"f"];
    let mut seen = Vec::new();
    for (want, name) in names.iter().enumerate() {
        let idx = get_reg(&name.to_vec()).unwrap();
        assert_eq!(idx as usize, want);
        assert!(!seen.contains(&idx));
        seen.push(idx);
    }
}

#[test]
fn other_register_tokens_are_rejected() {
    for bad in [&b"g"[..], b"ab", b"OUT", b"counts", b"", b"1"] {
        assert_eq!(get_reg(&bad.to_vec()), None);
    }
}

#[test]
fn empty_source_assembles_to_nothing() {
    assert_eq!(compile_raw("").unwrap(), Vec::<u16>::new());
}

#[test]
fn blank_and_whitespace_lines_are_skipped() {
    assert_eq!(compile_raw("\n\n   \nHLT\n").unwrap(), vec![0]);
}

#[test]
fn literal_bounds() {
    assert_eq!(compile_raw("SET a 65535").unwrap(), vec![3, 2, 65535]);
    assert_eq!(compile_raw("SET a 0").unwrap(), vec![3, 2, 0]);
    // A leading plus sign is accepted, as a decimal integer parse accepts it.
    assert_eq!(compile_raw("SET a +5").unwrap(), vec![3, 2, 5]);
}

#[test]
fn unknown_mnemonic_reports_token_and_line() {
    let e = compile_raw("HLT\nFOO a b").unwrap_err();
    assert_eq!(e.kind, AsmErrorKind::UnknownMnemonic);
    assert_eq!(e.line, 1);
    assert_eq!(e.token, b"FOO".to_vec());
}

#[test]
fn unknown_register_reports_token() {
    let e = compile_raw("ADD a x").unwrap_err();
    assert_eq!(e.kind, AsmErrorKind::UnknownRegister);
    assert_eq!(e.line, 0);
    assert_eq!(e.token, b"x".to_vec());
}

#[test]
fn second_register_error_reports_its_own_token() {
    // The token in the error is the argument that failed, not the first.
    let e = compile_raw("ADD a zz").unwrap_err();
    assert_eq!(e.kind, AsmErrorKind::UnknownRegister);
    assert_eq!(e.token, b"zz".to_vec());
}

#[test]
fn line_numbers_count_all_source_lines() {
    // The reported line is the 0-based source line, blank lines counted.
    let e = compile_raw("\n\nADD a x").unwrap_err();
    assert_eq!(e.line, 2);
    let e = compile_raw("HLT\n\nSET a 5\n   \nFOO a b").unwrap_err();
    assert_eq!(e.line, 4);
}

#[test]
fn bad_literal_reports_token() {
    let e = compile_raw("SET a 70000").unwrap_err();
    assert_eq!(e.kind, AsmErrorKind::BadLiteral);
    assert_eq!(e.token, b"70000".to_vec());
    let e = compile_raw("SET a five").unwrap_err();
    assert_eq!(e.kind, AsmErrorKind::BadLiteral);
}

#[test]
fn wrong_argument_counts_are_malformed() {
    assert_eq!(
        compile_raw("ADD a").unwrap_err().kind,
        AsmErrorKind::MalformedLine
    );
    assert_eq!(
        compile_raw("ADD a b c").unwrap_err().kind,
        AsmErrorKind::MalformedLine
    );
    assert_eq!(
        compile_raw("HLT now").unwrap_err().kind,
        AsmErrorKind::MalformedLine
    );
}

#[test]
fn serialization_round_trip() {
    let words = vec![0u16, 1, 255, 256, 65535, 4660];
    let bytes = force_u8(words.clone());
    assert_eq!(bytes.len(), 2 * words.len());
    assert_eq!(read_u16(&bytes), words);
}

#[test]
fn read_u16_discards_trailing_odd_byte() {
    assert_eq!(read_u16(&[0x12, 0x34, 0x56]), vec![0x1234]);
    assert_eq!(read_u16(&[0x56]), Vec::<u16>::new());
    assert_eq!(read_u16(&[]), Vec::<u16>::new());
}
