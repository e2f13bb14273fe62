use risc16::compiler::compile_raw;
use risc16::scc::{build_symbols, cut_functions, parse_all, SccErrorKind, UncompiledFunction};
use risc16::text::split_lines;

fn parse_source(src: &str) -> Vec<risc16::scc::ParsedFunc> {
    let lines = split_lines(src.as_bytes());
    let funcs = cut_functions(&lines);
    parse_all(&funcs).unwrap()
}

fn contains(hay: &[u8], needle: &[u8]) -> bool {
    hay.windows(needle.len()).any(|w| w == needle)
}

#[test]
fn one_literal_program_compiles_exactly() {
    let out = risc16::scc::compile("main =\n 5\n").unwrap();
    let expected = "\nSET e 8000\nSET f 16000\
                    \n\nSET a 1\nADD a e\nCPY out e\nSET a 5\nSAV a e\
                    \nSET a 1\nSUB f a\nCPY out f\nPNT f count\n";
    assert_eq!(String::from_utf8(out).unwrap(), expected);
}

#[test]
fn empty_source_compiles_to_preamble() {
    let out = risc16::scc::compile("").unwrap();
    assert_eq!(out, b"\nSET e 8000\nSET f 16000".to_vec());
}

#[test]
fn explicit_scc_tag_equals_implicit_form() {
    let implicit = risc16::scc::compile("main =\n 7 8\n").unwrap();
    let explicit = risc16::scc::compile("main SCC =\n 7 8\n").unwrap();
    assert_eq!(implicit, explicit);
}

#[test]
fn asm_function_length_and_second_address() {
    // End-to-end scenario: a 2-line ASM function is 2*3+12 = 18 words
    // long, so the next function sits at offset 0 + 6 + 18 = 24.
    let parsed = parse_source("one ASM =\n SET a 1\n SET b 2\ntwo =\n 5\n");
    assert_eq!(parsed.len(), 2);
    assert!(parsed[0].is_asm());
    assert_eq!(parsed[0].len(), 18);
    assert_eq!(parsed[0].symbol(), b"one".to_vec());
    let table = build_symbols(&parsed).unwrap();
    assert_eq!(table.lookup(&b"one".to_vec()), Some(6));
    assert_eq!(table.lookup(&b"two".to_vec()), Some(24));
    assert_eq!(table.lookup(&b"three".to_vec()), None);
}

#[test]
fn call_list_lengths() {
    // An integer or &name token costs 15 words, a call 21, the tail 12.
    let parsed = parse_source("a =\n 1 2 3\nb =\n &a\nc =\n a b\n");
    assert_eq!(parsed[0].len(), 15 * 3 + 12);
    assert_eq!(parsed[1].len(), 15 + 12);
    assert_eq!(parsed[2].len(), 21 * 2 + 12);
}

#[test]
fn estimated_length_matches_emitted_words() {
    // The address assignment is only sound because each function's
    // estimated length equals the words its code assembles to.
    let src = "main =\n 5 two &two\ntwo ASM =\n ADD a b\n";
    let parsed = parse_source(src);
    let total: usize = parsed.iter().map(|f| f.len()).sum();
    let out = risc16::scc::compile(src).unwrap();
    let words = compile_raw(&String::from_utf8(out).unwrap()).unwrap();
    assert_eq!(words.len(), 6 + total);
}

#[test]
fn address_of_token_pushes_symbol_address() {
    // main is 15+15+12 = 42 words, so two sits at 6+42 = 48.
    let out = risc16::scc::compile("main =\n &two 0\ntwo =\n 1\n").unwrap();
    assert!(contains(&out, b"SET a 48"));
}

#[test]
fn bare_name_token_calls_symbol_address() {
    // main is 21+12 = 33 words, so two sits at 39.
    let out = risc16::scc::compile("main =\n two\ntwo =\n 1\n").unwrap();
    assert!(contains(&out, b"SET a 18"));
    assert!(contains(&out, b"SET count 39"));
}

#[test]
fn compiled_scc_program_assembles() {
    let out = risc16::scc::compile("main =\n 5\n").unwrap();
    let words = compile_raw(&String::from_utf8(out).unwrap()).unwrap();
    assert_eq!(words.len(), 33);
    assert_eq!(&words[0..6], &[3, 6, 8000, 3, 7, 16000]);
}

#[test]
fn compiling_twice_is_deterministic() {
    let src = "one ASM =\n SET a 1\ntwo =\n 5 &one two\n";
    assert_eq!(risc16::scc::compile(src), risc16::scc::compile(src));
    let t1 = build_symbols(&parse_source(src)).unwrap();
    let t2 = build_symbols(&parse_source(src)).unwrap();
    assert_eq!(t1.entries, t2.entries);
}

#[test]
fn duplicate_name_resolves_to_later_binding() {
    let parsed = parse_source("dup =\n 1\ndup =\n 2\n");
    let table = build_symbols(&parsed).unwrap();
    // The first dup is 15+12 = 27 words, so the second sits at 33.
    assert_eq!(table.lookup(&b"dup".to_vec()), Some(33));
}

#[test]
fn too_short_header_is_an_error() {
    let e = risc16::scc::compile("lonely\n").unwrap_err();
    assert_eq!(e.kind, SccErrorKind::HeaderTooShort);
    assert_eq!(e.func, b"lonely".to_vec());
    assert_eq!(e.token, b"lonely".to_vec());
}

#[test]
fn unrecognised_header_is_an_error() {
    let e = risc16::scc::compile("f BAD =\n 1\n").unwrap_err();
    assert_eq!(e.kind, SccErrorKind::HeaderUnrecognised);
    assert_eq!(e.func, b"f".to_vec());
    assert_eq!(e.token, b"f BAD =".to_vec());
    let e = risc16::scc::compile("f ASM x\n 1\n").unwrap_err();
    assert_eq!(e.kind, SccErrorKind::HeaderUnrecognised);
}

#[test]
fn extra_header_fields_are_rejected() {
    // The grammar is exact: nothing may follow the trailing `=`.
    for src in ["f ASM = junk\n 1\n", "f SCC = x\n 1\n", "f = junk\n 1\n"] {
        let e = risc16::scc::compile(src).unwrap_err();
        assert_eq!(e.kind, SccErrorKind::HeaderUnrecognised);
        assert_eq!(e.func, b"f".to_vec());
    }
}

#[test]
fn trailing_space_in_header_is_rejected() {
    // A space after `=` splits into an extra empty field.
    let e = risc16::scc::compile("f = \n 1\n").unwrap_err();
    assert_eq!(e.kind, SccErrorKind::HeaderUnrecognised);
    let e = risc16::scc::compile("f ASM = \n 1\n").unwrap_err();
    assert_eq!(e.kind, SccErrorKind::HeaderUnrecognised);
}

#[test]
fn undefined_symbol_names_function_and_token() {
    let e = risc16::scc::compile("main =\n missing\n").unwrap_err();
    assert_eq!(e.kind, SccErrorKind::UndefinedSymbol);
    assert_eq!(e.func, b"main".to_vec());
    assert_eq!(e.token, b"missing".to_vec());
    let e = risc16::scc::compile("good =\n 1\nouter =\n &nowhere\n").unwrap_err();
    assert_eq!(e.kind, SccErrorKind::UndefinedSymbol);
    assert_eq!(e.func, b"outer".to_vec());
    assert_eq!(e.token, b"nowhere".to_vec());
}

#[test]
fn lines_before_first_header_are_ignored() {
    let with_prefix = risc16::scc::compile(" stray\n\nmain =\n 5\n").unwrap();
    let without = risc16::scc::compile("main =\n 5\n").unwrap();
    assert_eq!(with_prefix, without);
}

#[test]
fn parse_splits_asm_and_call_bodies() {
    let f = UncompiledFunction {
        header: b"f ASM =".to_vec(),
        body: b"SET a 1\nSET b 2".to_vec(),
    };
    let p = f.parse().unwrap();
    assert!(p.header.is_asm());
    assert_eq!(p.calls.len(), 2);
    let g = UncompiledFunction {
        header: b"g =".to_vec(),
        body: b"1 two\n&three".to_vec(),
    };
    let q = g.parse().unwrap();
    assert!(!q.is_asm());
    assert_eq!(q.calls.len(), 3);
}
