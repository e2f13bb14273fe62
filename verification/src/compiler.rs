//! The assembler: line-oriented translation of mnemonic text into 16-bit
//! machine words, and the big-endian serialization of words to bytes.
//!
//! Empty lines are skipped, every other line is whitespace-tokenized into
//! a mnemonic and its arguments. `HLT` stands alone and assembles to one
//! word; every other mnemonic takes exactly two arguments and assembles to
//! three words: the opcode, a register index, and a second register index
//! or, for `SET`, an immediate 16-bit literal.

#![verifier::loop_isolation(false)]

use vstd::prelude::*;

use crate::isa::OP_ADD;
use crate::isa::OP_AND;
use crate::isa::OP_CPY;
use crate::isa::OP_HLT;
use crate::isa::OP_JNZ;
use crate::isa::OP_LST;
use crate::isa::OP_NOR;
use crate::isa::OP_PNT;
use crate::isa::OP_SAV;
use crate::isa::OP_SET;
use crate::isa::OP_SUB;
use crate::isa::OP_XOR;
use crate::text::copy_bytes;
use crate::text::spec_parse_u16;
use crate::text::spec_trim;
use crate::text::split_lines;
use crate::text::split_tokens;
use crate::text::parse_u16;
use crate::text::token_split;
use crate::text::trim;
use crate::text::views;
use vstd::string::StringSliceAdditionalSpecFns;

verus! {

/// Why a source text was rejected.
#[derive(Clone, Copy, Debug, PartialEq, Eq, Structural)]
pub enum AsmErrorKind {
    /// Wrong number of arguments for the mnemonic.
    MalformedLine,
    /// The first token names no instruction.
    UnknownMnemonic,
    /// An argument names no register.
    UnknownRegister,
    /// `SET`'s second argument is not an unsigned 16-bit decimal literal.
    BadLiteral,
}

/// A compile error, carrying the offending token and the 0-based source
/// line number, blank lines counted.
#[derive(Debug, PartialEq, Eq)]
pub struct AsmError {
    pub kind: AsmErrorKind,
    pub line: usize,
    pub token: Vec<u8>,
}

/// Mathematical image of an [`AsmError`].
pub struct AsmErrorModel {
    pub kind: AsmErrorKind,
    pub line: int,
    pub token: Seq<u8>,
}

impl View for AsmError {
    type V = AsmErrorModel;

    open spec fn view(&self) -> AsmErrorModel {
        AsmErrorModel { kind: self.kind, line: self.line as int, token: self.token@ }
    }
}

/// The name of the halt mnemonic.
pub open spec fn mn_hlt() -> Seq<u8> {
    seq![72u8, 76, 84]
}

/// The register index a name resolves to: `out` and `count` are the two
/// special registers 0 and 1, `a` through `f` the general-purpose
/// registers 2 through 7. Any other token resolves to nothing.
pub open spec fn reg_index(t: Seq<u8>) -> Option<u16> {
    if t == seq![111u8, 117, 116] {
        Some(0u16)
    } else if t == seq![99u8, 111, 117, 110, 116] {
        Some(1u16)
    } else if t == seq![97u8] {
        Some(2u16)
    } else if t == seq![98u8] {
        Some(3u16)
    } else if t == seq![99u8] {
        Some(4u16)
    } else if t == seq![100u8] {
        Some(5u16)
    } else if t == seq![101u8] {
        Some(6u16)
    } else if t == seq![102u8] {
        Some(7u16)
    } else {
        None
    }
}

/// Resolve a register name to its index.
pub fn get_reg(s: &Vec<u8>) -> (r: Option<u16>)
    ensures
        r == reg_index(s@),
{
    if s.len() == 1 {
        proof {
            assert(s@ =~= seq![s@[0]]);
        }
        let b = s[0];
        if b == 97 {
            Some(2)
        } else if b == 98 {
            Some(3)
        } else if b == 99 {
            Some(4)
        } else if b == 100 {
            Some(5)
        } else if b == 101 {
            Some(6)
        } else if b == 102 {
            Some(7)
        } else {
            None
        }
    } else if s.len() == 3 {
        proof {
            assert(s@ =~= seq![s@[0], s@[1], s@[2]]);
        }
        if s[0] == 111 && s[1] == 117 && s[2] == 116 {
            Some(0)
        } else {
            None
        }
    } else if s.len() == 5 {
        proof {
            assert(s@ =~= seq![s@[0], s@[1], s@[2], s@[3], s@[4]]);
        }
        if s[0] == 99 && s[1] == 111 && s[2] == 117 && s[3] == 110 && s[4] == 116 {
            Some(1)
        } else {
            None
        }
    } else {
        None
    }
}

/// The opcode of a two-operand mnemonic; `HLT` is not among them.
pub open spec fn opcode_of(t: Seq<u8>) -> Option<u16> {
    if t == seq![80u8, 78, 84] {
        Some(OP_PNT)
    } else if t == seq![83u8, 65, 86] {
        Some(OP_SAV)
    } else if t == seq![83u8, 69, 84] {
        Some(OP_SET)
    } else if t == seq![67u8, 80, 89] {
        Some(OP_CPY)
    } else if t == seq![65u8, 68, 68] {
        Some(OP_ADD)
    } else if t == seq![83u8, 85, 66] {
        Some(OP_SUB)
    } else if t == seq![88u8, 79, 82] {
        Some(OP_XOR)
    } else if t == seq![78u8, 79, 82] {
        Some(OP_NOR)
    } else if t == seq![65u8, 78, 68] {
        Some(OP_AND)
    } else if t == seq![76u8, 83, 84] {
        Some(OP_LST)
    } else if t == seq![74u8, 78, 90] {
        Some(OP_JNZ)
    } else {
        None
    }
}

fn mnemonic_op(t: &Vec<u8>) -> (r: Option<u16>)
    ensures
        r == opcode_of(t@),
{
    if t.len() != 3 {
        return None;
    }
    proof {
        assert(t@ =~= seq![t@[0], t@[1], t@[2]]);
    }
    let a = t[0];
    let b = t[1];
    let c = t[2];
    if a == 80 && b == 78 && c == 84 {
        Some(OP_PNT)
    } else if a == 83 && b == 65 && c == 86 {
        Some(OP_SAV)
    } else if a == 83 && b == 69 && c == 84 {
        Some(OP_SET)
    } else if a == 67 && b == 80 && c == 89 {
        Some(OP_CPY)
    } else if a == 65 && b == 68 && c == 68 {
        Some(OP_ADD)
    } else if a == 83 && b == 85 && c == 66 {
        Some(OP_SUB)
    } else if a == 88 && b == 79 && c == 82 {
        Some(OP_XOR)
    } else if a == 78 && b == 79 && c == 82 {
        Some(OP_NOR)
    } else if a == 65 && b == 78 && c == 68 {
        Some(OP_AND)
    } else if a == 76 && b == 83 && c == 84 {
        Some(OP_LST)
    } else if a == 74 && b == 78 && c == 90 {
        Some(OP_JNZ)
    } else {
        None
    }
}

/// The words one source line assembles to, where `i` is the line's
/// 0-based source line number: none for a line with no tokens, one for
/// `HLT`, three for a two-operand instruction, or the first error.
pub open spec fn spec_line_words(line: Seq<u8>, i: int) -> Result<Seq<u16>, AsmErrorModel> {
    let toks = token_split(spec_trim(line), false);
    if toks.len() == 0 {
        Ok(Seq::empty())
    } else if toks[0] == mn_hlt() {
        if toks.len() == 1 {
            Ok(seq![OP_HLT])
        } else {
            Err(AsmErrorModel { kind: AsmErrorKind::MalformedLine, line: i, token: toks[0] })
        }
    } else {
        match opcode_of(toks[0]) {
            None => Err(
                AsmErrorModel { kind: AsmErrorKind::UnknownMnemonic, line: i, token: toks[0] },
            ),
            Some(op) => {
                if toks.len() != 3 {
                    Err(AsmErrorModel { kind: AsmErrorKind::MalformedLine, line: i, token: toks[0] })
                } else {
                    match reg_index(toks[1]) {
                        None => Err(
                            AsmErrorModel {
                                kind: AsmErrorKind::UnknownRegister,
                                line: i,
                                token: toks[1],
                            },
                        ),
                        Some(r1) => {
                            if op == OP_SET {
                                match spec_parse_u16(toks[2]) {
                                    None => Err(
                                        AsmErrorModel {
                                            kind: AsmErrorKind::BadLiteral,
                                            line: i,
                                            token: toks[2],
                                        },
                                    ),
                                    Some(v) => Ok(seq![op, r1, v]),
                                }
                            } else {
                                match reg_index(toks[2]) {
                                    None => Err(
                                        AsmErrorModel {
                                            kind: AsmErrorKind::UnknownRegister,
                                            line: i,
                                            token: toks[2],
                                        },
                                    ),
                                    Some(r2) => Ok(seq![op, r1, r2]),
                                }
                            }
                        },
                    }
                }
            },
        }
    }
}

/// The words of lines `k..`: empty lines contribute nothing, every line
/// keeps its 0-based source line number `k` for error reporting, and the
/// first erroneous line decides the result.
pub open spec fn spec_asm_lines(ls: Seq<Seq<u8>>, k: int) -> Result<Seq<u16>, AsmErrorModel>
    decreases ls.len() - k,
{
    if k >= ls.len() {
        Ok(Seq::empty())
    } else if ls[k].len() == 0 {
        spec_asm_lines(ls, k + 1)
    } else {
        match spec_line_words(ls[k], k) {
            Err(e) => Err(e),
            Ok(ws) => match spec_asm_lines(ls, k + 1) {
                Err(e) => Err(e),
                Ok(rest) => Ok(ws + rest),
            },
        }
    }
}

/// The machine words a whole source text assembles to, or its first error.
pub open spec fn spec_assemble(s: Seq<u8>) -> Result<Seq<u16>, AsmErrorModel> {
    spec_asm_lines(crate::text::line_split(s), 0)
}

/// Assemble one tokenized line, appending its words to `out`.
fn asm_line(line: &Vec<u8>, i: usize, out: &mut Vec<u16>) -> (r: Result<(), AsmError>)
    ensures
        (match r {
            Ok(u) => spec_line_words(line@, i as int) matches Ok(ws) && final(out)@ == old(out)@
                + ws,
            Err(e) => spec_line_words(line@, i as int) == Err::<Seq<u16>, AsmErrorModel>(e@),
        }),
{
    let trimmed = trim(line);
    let toks = split_tokens(&trimmed, false);
    let ghost stoks = token_split(spec_trim(line@), false);
    proof {
        assert(views(toks@) == stoks);
    }
    if toks.len() == 0 {
        proof {
            assert(final(out)@ =~= old(out)@ + Seq::<u16>::empty());
        }
        return Ok(());
    }
    let t0 = &toks[0];
    if t0.len() == 3 && t0[0] == 72 && t0[1] == 76 && t0[2] == 84 {
        proof {
            assert(t0@ =~= mn_hlt());
        }
        if toks.len() == 1 {
            out.push(OP_HLT);
            proof {
                assert(final(out)@ =~= old(out)@ + seq![OP_HLT]);
            }
            return Ok(());
        }
        return Err(AsmError { kind: AsmErrorKind::MalformedLine, line: i, token: copy_bytes(t0) });
    }
    proof {
        if t0@.len() == 3 {
            assert(t0@ =~= seq![t0@[0], t0@[1], t0@[2]]);
        }
        assert(t0@ != mn_hlt());
    }
    let op = match mnemonic_op(t0) {
        Some(x) => x,
        None => {
            return Err(
                AsmError { kind: AsmErrorKind::UnknownMnemonic, line: i, token: copy_bytes(t0) },
            );
        },
    };
    if toks.len() != 3 {
        return Err(AsmError { kind: AsmErrorKind::MalformedLine, line: i, token: copy_bytes(t0) });
    }
    let r1 = match get_reg(&toks[1]) {
        Some(x) => x,
        None => {
            return Err(
                AsmError {
                    kind: AsmErrorKind::UnknownRegister,
                    line: i,
                    token: copy_bytes(&toks[1]),
                },
            );
        },
    };
    if op == OP_SET {
        let v = match parse_u16(&toks[2]) {
            Some(x) => x,
            None => {
                return Err(
                    AsmError {
                        kind: AsmErrorKind::BadLiteral,
                        line: i,
                        token: copy_bytes(&toks[2]),
                    },
                );
            },
        };
        out.push(op);
        out.push(r1);
        out.push(v);
        proof {
            assert(final(out)@ =~= old(out)@ + seq![op, r1, v]);
        }
        Ok(())
    } else {
        let r2 = match get_reg(&toks[2]) {
            Some(x) => x,
            None => {
                return Err(
                    AsmError {
                        kind: AsmErrorKind::UnknownRegister,
                        line: i,
                        token: copy_bytes(&toks[2]),
                    },
                );
            },
        };
        out.push(op);
        out.push(r1);
        out.push(r2);
        proof {
            assert(final(out)@ =~= old(out)@ + seq![op, r1, r2]);
        }
        Ok(())
    }
}

/// Assemble a whole source text into machine words, or report the first
/// error with its offending token and 0-based source line number.
pub fn compile_raw(s: &str) -> (r: Result<Vec<u16>, AsmError>)
    ensures
        (match r {
            Ok(v) => spec_assemble(s.spec_bytes()) == Ok::<Seq<u16>, AsmErrorModel>(v@),
            Err(e) => spec_assemble(s.spec_bytes()) == Err::<Seq<u16>, AsmErrorModel>(e@),
        }),
{
    let bytes = s.as_bytes();
    let lines = split_lines(bytes);
    let ghost ls = crate::text::line_split(s.spec_bytes());
    proof {
        assert(views(lines@) == ls);
    }
    let mut out: Vec<u16> = Vec::new();
    let nlines = lines.len();
    let mut k: usize = 0;
    while k < nlines
        invariant
            k <= nlines,
            nlines == ls.len(),
            (match spec_asm_lines(ls, k as int) {
                Ok(rest) => spec_assemble(s.spec_bytes()) == Ok::<Seq<u16>, AsmErrorModel>(
                    out@ + rest,
                ),
                Err(e) => spec_assemble(s.spec_bytes()) == Err::<Seq<u16>, AsmErrorModel>(e),
            }),
        decreases nlines - k,
    {
        if lines[k].len() != 0 {
            let ghost out0 = out@;
            match asm_line(&lines[k], k, &mut out) {
                Ok(u) => {
                    proof {
                        let ws = spec_line_words(ls[k as int], k as int)->Ok_0;
                        if spec_asm_lines(ls, k as int + 1) is Ok {
                            let rest = spec_asm_lines(ls, k as int + 1)->Ok_0;
                            assert(out0 + (ws + rest) =~= (out0 + ws) + rest);
                        }
                    }
                },
                Err(e) => {
                    return Err(e);
                },
            }
        }
        k = k + 1;
    }
    proof {
        assert(out@ + Seq::<u16>::empty() =~= out@);
    }
    Ok(out)
}

/// The big-endian byte serialization of a word sequence: for each word
/// its high byte, then its low byte.
pub open spec fn bytes_of_words(ws: Seq<u16>) -> Seq<u8>
    decreases ws.len(),
{
    if ws.len() == 0 {
        Seq::empty()
    } else {
        bytes_of_words(ws.drop_last()) + seq![(ws.last() / 256) as u8, (ws.last() % 256) as u8]
    }
}

/// Serialize machine words to bytes, most significant byte first.
pub fn force_u8(v: Vec<u16>) -> (r: Vec<u8>)
    ensures
        r@ == bytes_of_words(v@),
{
    let len = v.len();
    let mut out: Vec<u8> = Vec::new();
    let mut i: usize = 0;
    while i < len
        invariant
            i <= len,
            out@ == bytes_of_words(v@.take(i as int)),
        decreases len - i,
    {
        let w = v[i];
        out.push((w / 256) as u8);
        out.push((w % 256) as u8);
        proof {
            assert(v@.take(i as int + 1).drop_last() =~= v@.take(i as int));
            assert(out@ =~= bytes_of_words(v@.take(i as int)) + seq![
                (w / 256) as u8,
                (w % 256) as u8,
            ]);
        }
        i = i + 1;
    }
    proof {
        assert(v@.take(len as int) =~= v@);
    }
    out
}

/// The words read back from a big-endian byte stream, two bytes per word,
/// a trailing odd byte discarded.
pub open spec fn words_of_bytes(b: Seq<u8>) -> Seq<u16>
    decreases b.len(),
{
    if b.len() < 2 {
        Seq::empty()
    } else {
        seq![(b[0] * 256 + b[1]) as u16] + words_of_bytes(b.skip(2))
    }
}

/// Read machine words from a big-endian byte stream.
pub fn read_u16(bytestream: &[u8]) -> (r: Vec<u16>)
    ensures
        r@ == words_of_bytes(bytestream@),
{
    let len = bytestream.len();
    let mut out: Vec<u16> = Vec::new();
    proof {
        assert(bytestream@.skip(0) =~= bytestream@);
    }
    let mut i: usize = 0;
    while i < len && i + 1 < len
        invariant
            i <= len,
            words_of_bytes(bytestream@) == out@ + words_of_bytes(bytestream@.skip(i as int)),
        decreases len - i,
    {
        let w: u16 = (bytestream[i] as u16) * 256 + (bytestream[i + 1] as u16);
        proof {
            let sub = bytestream@.skip(i as int);
            assert(sub.skip(2) =~= bytestream@.skip(i as int + 2));
            assert(out@.push(w) + words_of_bytes(bytestream@.skip(i as int + 2)) =~= out@ + (seq![w]
                + words_of_bytes(bytestream@.skip(i as int + 2))));
        }
        out.push(w);
        i = i + 2;
    }
    proof {
        assert(words_of_bytes(bytestream@.skip(i as int)) =~= Seq::<u16>::empty());
        assert(out@ + Seq::<u16>::empty() =~= out@);
    }
    out
}

/// The serialization writes exactly two bytes per word.
pub proof fn lemma_bytes_of_words_len(ws: Seq<u16>)
    ensures
        bytes_of_words(ws).len() == 2 * ws.len(),
    decreases ws.len(),
{
    if ws.len() > 0 {
        lemma_bytes_of_words_len(ws.drop_last());
    }
}

/// Serialization round trip: reading back a big-endian serialization
/// recovers exactly the words that were written.
pub proof fn lemma_words_round_trip(ws: Seq<u16>)
    ensures
        words_of_bytes(bytes_of_words(ws)) == ws,
    decreases ws.len(),
{
    if ws.len() > 0 {
        lemma_words_round_trip(ws.drop_last());
        lemma_bytes_of_words_len(ws.drop_last());
        lemma_words_append_pair(ws.drop_last(), bytes_of_words(ws.drop_last()), ws.last());
        assert(words_of_bytes(bytes_of_words(ws)) =~= ws);
    } else {
        assert(words_of_bytes(bytes_of_words(ws)) =~= ws);
    }
}

proof fn lemma_words_append_pair(ws: Seq<u16>, b: Seq<u8>, w: u16)
    requires
        words_of_bytes(b) == ws,
        b.len() % 2 == 0,
    ensures
        words_of_bytes(b + seq![(w / 256) as u8, (w % 256) as u8]) == ws.push(w),
    decreases b.len(),
{
    let pair = seq![(w / 256) as u8, (w % 256) as u8];
    if b.len() == 0 {
        assert(b + pair =~= pair);
        reveal_with_fuel(words_of_bytes, 3);
        assert(pair.skip(2) =~= Seq::<u8>::empty());
        assert(words_of_bytes(pair) =~= seq![(pair[0] * 256 + pair[1]) as u16]);
        assert((w / 256) * 256 + w % 256 == w) by {
            vstd::arithmetic::div_mod::lemma_fundamental_div_mod(w as int, 256);
        }
        assert(words_of_bytes(b + pair) =~= ws.push(w));
    } else {
        lemma_words_append_pair(words_of_bytes(b.skip(2)), b.skip(2), w);
        assert((b + pair).skip(2) =~= b.skip(2) + pair);
        assert(words_of_bytes(b + pair) =~= ws.push(w));
    }
}

/// Assembler output shape: a line with no tokens assembles to no words,
/// `HLT` to exactly one word, and every two-operand mnemonic to exactly
/// three words: the opcode and its two operands.
pub proof fn lemma_line_shape(line: Seq<u8>, i: int)
    requires
        spec_line_words(line, i) is Ok,
    ensures
        ({
            let toks = token_split(spec_trim(line), false);
            let r = spec_line_words(line, i);
            &&& toks.len() == 0 ==> r == Ok::<Seq<u16>, AsmErrorModel>(Seq::empty())
            &&& toks.len() > 0 && toks[0] == mn_hlt() ==> r == Ok::<Seq<u16>, AsmErrorModel>(
                seq![OP_HLT],
            )
            &&& toks.len() > 0 && toks[0] != mn_hlt() ==> (r matches Ok(ws) && ws.len() == 3
                && opcode_of(toks[0]) == Some(ws[0]))
        }),
{
}

/// Register name bijection: the eight register names resolve to the
/// distinct indices 0 through 7, every token that resolves at all is one
/// of the eight names, and no two different tokens share an index.
pub proof fn lemma_register_names()
    ensures
        reg_index(seq![111u8, 117, 116]) == Some(0u16),
        reg_index(seq![99u8, 111, 117, 110, 116]) == Some(1u16),
        reg_index(seq![97u8]) == Some(2u16),
        reg_index(seq![98u8]) == Some(3u16),
        reg_index(seq![99u8]) == Some(4u16),
        reg_index(seq![100u8]) == Some(5u16),
        reg_index(seq![101u8]) == Some(6u16),
        reg_index(seq![102u8]) == Some(7u16),
        forall|t: Seq<u8>| #[trigger] reg_index(t) is Some ==> (t == seq![111u8, 117, 116] || t
            == seq![99u8, 111, 117, 110, 116] || t == seq![97u8] || t == seq![98u8] || t
            == seq![99u8] || t == seq![100u8] || t == seq![101u8] || t == seq![102u8]),
        forall|t1: Seq<u8>, t2: Seq<u8>|
            #[trigger] reg_index(t1) is Some && reg_index(t1) == #[trigger] reg_index(t2) ==> t1
                == t2,
{
    assert(seq![97u8][0] == 97u8);
    assert(seq![98u8][0] == 98u8);
    assert(seq![99u8][0] == 99u8);
    assert(seq![100u8][0] == 100u8);
    assert(seq![101u8][0] == 101u8);
    assert(seq![102u8][0] == 102u8);
    assert(seq![111u8, 117, 116][0] == 111u8);
    assert(seq![99u8, 111, 117, 110, 116][0] == 99u8);
    assert(seq![97u8].len() == 1);
    assert(seq![111u8, 117, 116].len() == 3);
    assert(seq![99u8, 111, 117, 110, 116].len() == 5);
}

} // verus!
