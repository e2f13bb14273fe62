//! The SCC compiler: a small function-oriented source language that
//! lowers to the assembly language.
//!
//! A source file is a list of paragraphs. A non-indented line opens a
//! function header — `<name> =`, `<name> SCC =`, or `<name> ASM =` — and
//! the indented lines below it form the body. An `ASM` body is a list of
//! assembly lines inlined verbatim; a call-list body is a list of tokens,
//! each an integer literal to push, an `&name` address to push, or a bare
//! name to call. Addresses are assigned in one forward pass, because a
//! function's compiled length depends only on its body's shape, never on
//! resolved addresses.

#![verifier::loop_isolation(false)]

use vstd::prelude::*;
use vstd::string::StringSliceAdditionalSpecFns;

use crate::isa::APPEND_INT;
use crate::isa::CALL_LENGTH;
use crate::isa::PREAMBLE_LENGTH;
use crate::isa::TAIL_LENGTH;
use crate::text::bytes_eq;
use crate::text::copy_bytes;
use crate::text::field_split;
use crate::text::lemma_tokens_nonempty;
use crate::text::line_split;
use crate::text::spec_parse_u16;
use crate::text::parse_u16;
use crate::text::split_fields;
use crate::text::split_lines;
use crate::text::split_tokens;
use crate::text::token_split;
use crate::text::views;

verus! {

/// Why an SCC source was rejected.
#[derive(Clone, Copy, Debug, PartialEq, Eq, Structural)]
pub enum SccErrorKind {
    /// A function header has fewer than two fields.
    HeaderTooShort,
    /// A function header matches none of the three accepted shapes.
    HeaderUnrecognised,
    /// A body token names a function that no header declares.
    UndefinedSymbol,
    /// The assigned addresses outgrow the machine's address arithmetic.
    ProgramTooLarge,
}

/// A compile error: the kind, the name of the function it concerns, and
/// the offending token — the header line for a header error, the
/// unresolved name for a symbol error. Both name and token are empty for
/// a program-level error.
#[derive(Debug, PartialEq, Eq)]
pub struct SccError {
    pub kind: SccErrorKind,
    pub func: Vec<u8>,
    pub token: Vec<u8>,
}

/// Mathematical image of an [`SccError`].
pub struct SccErrorModel {
    pub kind: SccErrorKind,
    pub func: Seq<u8>,
    pub token: Seq<u8>,
}

impl View for SccError {
    type V = SccErrorModel;

    open spec fn view(&self) -> SccErrorModel {
        SccErrorModel { kind: self.kind, func: self.func@, token: self.token@ }
    }
}

/// A function's name and whether its body is raw assembly.
pub struct Header {
    pub name: Vec<u8>,
    pub raw: bool,
}

impl Header {
    /// Whether the body is raw assembly.
    pub fn is_asm(&self) -> (r: bool)
        ensures
            r == self.raw,
    {
        self.raw
    }
}

/// A function body: assembly lines for an `ASM` function, call-list
/// tokens otherwise.
pub struct Calls {
    pub items: Vec<Vec<u8>>,
}

impl Calls {
    /// How many lines or tokens the body holds.
    pub fn len(&self) -> (r: usize)
        ensures
            r == self.items@.len(),
    {
        self.items.len()
    }
}

/// Mathematical image of a parsed function.
pub struct FuncModel {
    pub name: Seq<u8>,
    pub raw: bool,
    pub items: Seq<Seq<u8>>,
}

/// A parsed function: its header and its body items.
pub struct ParsedFunc {
    pub header: Header,
    pub calls: Calls,
}

impl View for ParsedFunc {
    type V = FuncModel;

    open spec fn view(&self) -> FuncModel {
        FuncModel { name: self.header.name@, raw: self.header.raw, items: views(self.calls.items@) }
    }
}

/// A call-list body never holds an empty token.
pub open spec fn func_wf(f: FuncModel) -> bool {
    !f.raw ==> forall|k: int| 0 <= k < f.items.len() ==> f.items[k].len() > 0
}

/// One function as cut out of the source: its raw header line and its
/// body text, the body lines trimmed and joined with newlines.
pub struct UncompiledFunction {
    pub header: Vec<u8>,
    pub body: Vec<u8>,
}

/// How a header and body parse: split at single spaces, the header must
/// be exactly `<name> =`, `<name> ASM =`, or `<name> SCC =` — any other
/// shape fails, extra fields included. A space after the trailing `=`
/// splits into one empty field more and is therefore rejected too. An
/// `ASM` body splits into lines, a call-list body into whitespace tokens.
pub open spec fn spec_parse_func(header: Seq<u8>, body: Seq<u8>) -> Result<
    FuncModel,
    SccErrorModel,
> {
    let head = field_split(header);
    if head.len() < 2 {
        Err(SccErrorModel { kind: SccErrorKind::HeaderTooShort, func: head[0], token: header })
    } else if head.len() == 2 {
        if head[1] == seq![61u8] {
            Ok(FuncModel { name: head[0], raw: false, items: token_split(body, true) })
        } else {
            Err(
                SccErrorModel {
                    kind: SccErrorKind::HeaderUnrecognised,
                    func: head[0],
                    token: header,
                },
            )
        }
    } else if head.len() == 3 && head[2] == seq![61u8] {
        if head[1] == seq![65u8, 83, 77] {
            Ok(FuncModel { name: head[0], raw: true, items: line_split(body) })
        } else if head[1] == seq![83u8, 67, 67] {
            Ok(FuncModel { name: head[0], raw: false, items: token_split(body, true) })
        } else {
            Err(
                SccErrorModel {
                    kind: SccErrorKind::HeaderUnrecognised,
                    func: head[0],
                    token: header,
                },
            )
        }
    } else {
        Err(SccErrorModel { kind: SccErrorKind::HeaderUnrecognised, func: head[0], token: header })
    }
}

impl UncompiledFunction {
    /// Parse the header and split the body accordingly.
    pub fn parse(&self) -> (r: Result<ParsedFunc, SccError>)
        ensures
            (match r {
                Ok(f) => spec_parse_func(self.header@, self.body@) == Ok::<
                    FuncModel,
                    SccErrorModel,
                >(f@) && func_wf(f@),
                Err(e) => spec_parse_func(self.header@, self.body@) == Err::<
                    FuncModel,
                    SccErrorModel,
                >(e@),
            }),
    {
        let head = split_fields(&self.header);
        proof {
            assert(views(head@) == field_split(self.header@));
        }
        if head.len() < 2 {
            return Err(
                SccError {
                    kind: SccErrorKind::HeaderTooShort,
                    func: copy_bytes(&head[0]),
                    token: copy_bytes(&self.header),
                },
            );
        }
        if head.len() == 2 {
            let h1 = &head[1];
            proof {
                if h1@.len() == 1 {
                    assert(h1@ =~= seq![h1@[0]]);
                }
            }
            if h1.len() == 1 && h1[0] == 61 {
                let items = split_tokens(&self.body, true);
                proof {
                    lemma_tokens_nonempty(self.body@, true);
                }
                return Ok(
                    ParsedFunc {
                        header: Header { name: copy_bytes(&head[0]), raw: false },
                        calls: Calls { items },
                    },
                );
            }
        } else if head.len() == 3 {
            let h2 = &head[2];
            proof {
                if h2@.len() == 1 {
                    assert(h2@ =~= seq![h2@[0]]);
                }
            }
            if h2.len() == 1 && h2[0] == 61 {
                let h1 = &head[1];
                proof {
                    if h1@.len() == 3 {
                        assert(h1@ =~= seq![h1@[0], h1@[1], h1@[2]]);
                    }
                }
                if h1.len() == 3 && h1[0] == 65 && h1[1] == 83 && h1[2] == 77 {
                    let items = split_lines(self.body.as_slice());
                    return Ok(
                        ParsedFunc {
                            header: Header { name: copy_bytes(&head[0]), raw: true },
                            calls: Calls { items },
                        },
                    );
                }
                if h1.len() == 3 && h1[0] == 83 && h1[1] == 67 && h1[2] == 67 {
                    let items = split_tokens(&self.body, true);
                    proof {
                        lemma_tokens_nonempty(self.body@, true);
                    }
                    return Ok(
                        ParsedFunc {
                            header: Header { name: copy_bytes(&head[0]), raw: false },
                            calls: Calls { items },
                        },
                    );
                }
            }
        }
        Err(
            SccError {
                kind: SccErrorKind::HeaderUnrecognised,
                func: copy_bytes(&head[0]),
                token: copy_bytes(&self.header),
            },
        )
    }
}

/// The assembled length, in machine words, that one call-list token
/// contributes: a push sequence for an integer literal or an `&name`
/// address, a call sequence for a bare name.
pub open spec fn item_cost(it: Seq<u8>) -> nat {
    if spec_parse_u16(it) is Some {
        APPEND_INT as nat
    } else if it.len() > 0 && it[0] == 38 {
        APPEND_INT as nat
    } else {
        CALL_LENGTH as nat
    }
}

/// Total contribution of a call list's tokens.
pub open spec fn items_cost(items: Seq<Seq<u8>>) -> nat
    decreases items.len(),
{
    if items.len() == 0 {
        0
    } else {
        items_cost(items.drop_last()) + item_cost(items.last())
    }
}

/// The assembled length of a whole function, epilogue included: three
/// words per assembly line of an `ASM` body, the token costs of a call
/// list, plus the fixed epilogue.
pub open spec fn spec_func_len(f: FuncModel) -> nat {
    if f.raw {
        3 * f.items.len() + TAIL_LENGTH as nat
    } else {
        items_cost(f.items) + TAIL_LENGTH as nat
    }
}

proof fn lemma_items_cost_step(items: Seq<Seq<u8>>, k: int)
    requires
        0 <= k < items.len(),
    ensures
        items_cost(items.take(k + 1)) == items_cost(items.take(k)) + item_cost(items[k]),
{
    assert(items.take(k + 1).drop_last() =~= items.take(k));
}

proof fn lemma_items_cost_mono(items: Seq<Seq<u8>>, k: int)
    requires
        0 <= k <= items.len(),
    ensures
        items_cost(items.take(k)) <= items_cost(items),
    decreases items.len() - k,
{
    if k == items.len() {
        assert(items.take(k) =~= items);
    } else {
        lemma_items_cost_step(items, k);
        lemma_items_cost_mono(items, k + 1);
    }
}

impl ParsedFunc {
    /// Whether the body is raw assembly.
    pub fn is_asm(&self) -> (r: bool)
        ensures
            r == self@.raw,
    {
        self.header.is_asm()
    }

    /// A copy of the function's name.
    pub fn symbol(&self) -> (r: Vec<u8>)
        ensures
            r@ == self@.name,
    {
        copy_bytes(&self.header.name)
    }

    /// The function's assembled length in words. The length depends only
    /// on the body's shape, which is what makes one-pass address
    /// assignment possible.
    pub fn len(&self) -> (r: usize)
        requires
            spec_func_len(self@) <= usize::MAX,
        ensures
            r == spec_func_len(self@),
    {
        match self.checked_len() {
            Some(n) => n,
            None => {
                proof {
                    assert(false);
                }
                0
            },
        }
    }

    /// The function's assembled length, or nothing where it would not
    /// fit the address arithmetic.
    pub fn checked_len(&self) -> (r: Option<usize>)
        ensures
            (match r {
                Some(n) => n == spec_func_len(self@),
                None => spec_func_len(self@) > usize::MAX,
            }),
    {
        if self.header.raw {
            let n = self.calls.items.len();
            if n <= (usize::MAX - TAIL_LENGTH) / 3 {
                proof {
                    assert(3 * n + TAIL_LENGTH <= usize::MAX) by (nonlinear_arith)
                        requires
                            n <= (usize::MAX - TAIL_LENGTH) / 3,
                    ;
                }
                Some(n * 3 + TAIL_LENGTH)
            } else {
                proof {
                    assert(3 * n + TAIL_LENGTH > usize::MAX) by (nonlinear_arith)
                        requires
                            n > (usize::MAX - TAIL_LENGTH) / 3,
                    ;
                }
                None
            }
        } else {
            let items = &self.calls.items;
            let n = items.len();
            let mut acc: usize = 0;
            let mut k: usize = 0;
            while k < n
                invariant
                    k <= n,
                    acc == items_cost(self@.items.take(k as int)),
                decreases n - k,
            {
                let it = &items[k];
                let cost: usize = if parse_u16(it).is_some() {
                    APPEND_INT
                } else if it.len() > 0 && it[0] == 38 {
                    APPEND_INT
                } else {
                    CALL_LENGTH
                };
                proof {
                    lemma_items_cost_step(self@.items, k as int);
                }
                if acc > usize::MAX - cost {
                    proof {
                        lemma_items_cost_mono(self@.items, k as int + 1);
                    }
                    return None;
                }
                acc = acc + cost;
                k = k + 1;
            }
            proof {
                assert(self@.items.take(n as int) =~= self@.items);
            }
            if acc > usize::MAX - TAIL_LENGTH {
                return None;
            }
            Some(acc + TAIL_LENGTH)
        }
    }
}

/// The symbol table: each function's name bound to its absolute address,
/// in declaration order. A name declared twice resolves to its later
/// binding, as a later insertion overwrites an earlier one.
pub struct SymbolTable {
    pub entries: Vec<(Vec<u8>, usize)>,
}

/// The bindings a vector of entries stands for.
pub open spec fn table_model(entries: Seq<(Vec<u8>, usize)>) -> Seq<(Seq<u8>, nat)> {
    entries.map_values(|e: (Vec<u8>, usize)| (e.0@, e.1 as nat))
}

impl View for SymbolTable {
    type V = Seq<(Seq<u8>, nat)>;

    open spec fn view(&self) -> Seq<(Seq<u8>, nat)> {
        table_model(self.entries@)
    }
}

/// The address bound to `name`: the value of its last binding.
pub open spec fn spec_lookup(tbl: Seq<(Seq<u8>, nat)>, name: Seq<u8>) -> Option<nat>
    decreases tbl.len(),
{
    if tbl.len() == 0 {
        None
    } else if tbl.last().0 == name {
        Some(tbl.last().1)
    } else {
        spec_lookup(tbl.drop_last(), name)
    }
}

impl SymbolTable {
    /// Resolve a name to its assigned address.
    pub fn lookup(&self, name: &Vec<u8>) -> (r: Option<usize>)
        ensures
            (match r {
                Some(a) => spec_lookup(self@, name@) == Some(a as nat),
                None => spec_lookup(self@, name@) is None,
            }),
    {
        let len = self.entries.len();
        proof {
            assert(self@.take(len as int) =~= self@);
        }
        let mut k: usize = len;
        while k > 0
            invariant
                k <= len,
                spec_lookup(self@, name@) == spec_lookup(self@.take(k as int), name@),
            decreases k,
        {
            if bytes_eq(&self.entries[k - 1].0, name) {
                return Some(self.entries[k - 1].1);
            }
            proof {
                assert(self@.take(k as int).drop_last() =~= self@.take(k as int - 1));
            }
            k = k - 1;
        }
        proof {
            assert(self@.take(0) =~= Seq::<(Seq<u8>, nat)>::empty());
        }
        None
    }
}

/// The symbol bindings for functions `k..`, the next of which starts at
/// `addr`: each function is bound to the running address, which then
/// advances by that function's length.
pub open spec fn spec_symbols_from(fs: Seq<FuncModel>, k: int, addr: nat) -> Seq<(Seq<u8>, nat)>
    decreases fs.len() - k,
{
    if k < 0 || k >= fs.len() {
        Seq::empty()
    } else {
        seq![(fs[k].name, addr)] + spec_symbols_from(fs, k + 1, addr + spec_func_len(fs[k]))
    }
}

/// The whole symbol table: addresses start after the two-instruction
/// preamble and advance by each function's length in declaration order.
pub open spec fn spec_symbols(fs: Seq<FuncModel>) -> Seq<(Seq<u8>, nat)> {
    spec_symbols_from(fs, 0, PREAMBLE_LENGTH as nat)
}

/// Total assembled length of a list of functions, preamble excluded.
pub open spec fn total_len(fs: Seq<FuncModel>) -> nat
    decreases fs.len(),
{
    if fs.len() == 0 {
        0
    } else {
        total_len(fs.drop_last()) + spec_func_len(fs.last())
    }
}

proof fn lemma_total_len_step(fs: Seq<FuncModel>, k: int)
    requires
        0 <= k < fs.len(),
    ensures
        total_len(fs.take(k + 1)) == total_len(fs.take(k)) + spec_func_len(fs[k]),
{
    assert(fs.take(k + 1).drop_last() =~= fs.take(k));
}

proof fn lemma_total_len_mono(fs: Seq<FuncModel>, k: int)
    requires
        0 <= k <= fs.len(),
    ensures
        total_len(fs.take(k)) <= total_len(fs),
    decreases fs.len() - k,
{
    if k == fs.len() {
        assert(fs.take(k) =~= fs);
    } else {
        lemma_total_len_step(fs, k);
        lemma_total_len_mono(fs, k + 1);
    }
}

/// The views of a sequence of parsed functions.
pub open spec fn func_views(fs: Seq<ParsedFunc>) -> Seq<FuncModel> {
    fs.map_values(|f: ParsedFunc| f@)
}

/// Assign every function its absolute address in one forward pass, or
/// report that the program outgrows the address arithmetic.
pub fn build_symbols(parsed: &Vec<ParsedFunc>) -> (r: Option<SymbolTable>)
    ensures
        (match r {
            Some(t) => t@ == spec_symbols(func_views(parsed@)) && PREAMBLE_LENGTH + total_len(
                func_views(parsed@),
            ) <= usize::MAX,
            None => PREAMBLE_LENGTH + total_len(func_views(parsed@)) > usize::MAX,
        }),
{
    let ghost fs = func_views(parsed@);
    let n = parsed.len();
    let mut entries: Vec<(Vec<u8>, usize)> = Vec::new();
    let mut addr: usize = PREAMBLE_LENGTH;
    let mut k: usize = 0;
    while k < n
        invariant
            k <= n,
            n == fs.len(),
            addr == PREAMBLE_LENGTH + total_len(fs.take(k as int)),
            addr <= usize::MAX,
            spec_symbols(fs) == table_model(entries@) + spec_symbols_from(
                fs,
                k as int,
                addr as nat,
            ),
        decreases n - k,
    {
        let name = parsed[k].symbol();
        let l = match parsed[k].checked_len() {
            Some(x) => x,
            None => {
                proof {
                    lemma_total_len_step(fs, k as int);
                    lemma_total_len_mono(fs, k as int + 1);
                }
                return None;
            },
        };
        proof {
            lemma_total_len_step(fs, k as int);
            lemma_total_len_mono(fs, k as int + 1);
        }
        if addr > usize::MAX - l {
            return None;
        }
        let ghost entries0 = entries@;
        entries.push((name, addr));
        proof {
            assert(table_model(entries@) =~= table_model(entries0).push((name@, addr as nat)));
        }
        addr = addr + l;
        k = k + 1;
    }
    proof {
        assert(fs.take(n as int) =~= fs);
    }
    Some(SymbolTable { entries })
}

/// Symbol determinism: the address assignment is a function of the
/// parsed functions alone, so any two symbol tables built for the same
/// functions are identical.
pub proof fn lemma_symbols_deterministic(
    fs: Seq<FuncModel>,
    t1: Seq<(Seq<u8>, nat)>,
    t2: Seq<(Seq<u8>, nat)>,
)
    requires
        t1 == spec_symbols(fs),
        t2 == spec_symbols(fs),
    ensures
        t1 == t2,
{
}

/// The text between two texts joined: the pieces in order with one
/// newline between each pair.
pub open spec fn join_nl(ls: Seq<Seq<u8>>) -> Seq<u8>
    decreases ls.len(),
{
    if ls.len() == 0 {
        Seq::empty()
    } else if ls.len() == 1 {
        ls[0]
    } else {
        join_nl(ls.drop_last()) + seq![10u8] + ls.last()
    }
}

/// The push sequence for one call-list value: the generated assembly
/// text `\nSET a 1\nADD a e\nCPY out e\nSET a <val>\nSAV a e`, which
/// advances the data-stack pointer `e` and stores the value at its top.
pub open spec fn push_tpl(valtext: Seq<u8>) -> Seq<u8> {
    seq![10u8, 83, 69, 84, 32, 97, 32, 49]  // \nSET a 1
     + seq![10u8, 65, 68, 68, 32, 97, 32, 101]  // \nADD a e
     + seq![10u8, 67, 80, 89, 32, 111, 117, 116, 32, 101]  // \nCPY out e
     + seq![10u8, 83, 69, 84, 32, 97, 32] + valtext  // \nSET a <val>
     + seq![10u8, 83, 65, 86, 32, 97, 32, 101]  // \nSAV a e
}

/// The call sequence for one bare-name token: the generated assembly
/// text `\nSET a 18\nADD count a\nSAV out f\nSET a 1\nADD a f\nCPY out
/// f\nSET count <addr>`, which pushes the return address (18 words past
/// the counter read) onto the call stack `f` and jumps to the callee.
pub open spec fn call_tpl(addrtext: Seq<u8>) -> Seq<u8> {
    seq![10u8, 83, 69, 84, 32, 97, 32, 49, 56]  // \nSET a 18
     + seq![10u8, 65, 68, 68, 32, 99, 111, 117, 110, 116, 32, 97]  // \nADD count a
     + seq![10u8, 83, 65, 86, 32, 111, 117, 116, 32, 102]  // \nSAV out f
     + seq![10u8, 83, 69, 84, 32, 97, 32, 49]  // \nSET a 1
     + seq![10u8, 65, 68, 68, 32, 97, 32, 102]  // \nADD a f
     + seq![10u8, 67, 80, 89, 32, 111, 117, 116, 32, 102]  // \nCPY out f
     + seq![10u8, 83, 69, 84, 32, 99, 111, 117, 110, 116, 32] + addrtext  // \nSET count <addr>
}

/// The epilogue appended to every function: the generated assembly text
/// `\nSET a 1\nSUB f a\nCPY out f\nPNT f count\n`, which pops a return
/// address from the call stack `f` and jumps back to it.
pub open spec fn epilogue() -> Seq<u8> {
    seq![10u8, 83, 69, 84, 32, 97, 32, 49]  // \nSET a 1
     + seq![10u8, 83, 85, 66, 32, 102, 32, 97]  // \nSUB f a
     + seq![10u8, 67, 80, 89, 32, 111, 117, 116, 32, 102]  // \nCPY out f
     + seq![10u8, 80, 78, 84, 32, 102, 32, 99, 111, 117, 110, 116]  // \nPNT f count
     + seq![10u8]
}

/// The program preamble: the generated assembly text
/// `\nSET e 8000\nSET f 16000`, which initializes the data-stack and
/// call-stack pointers to their fixed bases.
pub open spec fn preamble() -> Seq<u8> {
    seq![10u8, 83, 69, 84, 32, 101, 32] + crate::text::dec_of(
        crate::isa::DATA_STACK_BASE as nat,
    )  // \nSET e 8000
     + seq![10u8, 83, 69, 84, 32, 102, 32] + crate::text::dec_of(
        crate::isa::CALL_STACK_BASE as nat,
    )  // \nSET f 16000
}

fn emit_push_tpl(out: &mut Vec<u8>, valtext: &Vec<u8>)
    ensures
        final(out)@ == old(out)@ + push_tpl(valtext@),
{
    out.push(10);
    out.push(83);
    out.push(69);
    out.push(84);
    out.push(32);
    out.push(97);
    out.push(32);
    out.push(49);
    out.push(10);
    out.push(65);
    out.push(68);
    out.push(68);
    out.push(32);
    out.push(97);
    out.push(32);
    out.push(101);
    out.push(10);
    out.push(67);
    out.push(80);
    out.push(89);
    out.push(32);
    out.push(111);
    out.push(117);
    out.push(116);
    out.push(32);
    out.push(101);
    out.push(10);
    out.push(83);
    out.push(69);
    out.push(84);
    out.push(32);
    out.push(97);
    out.push(32);
    crate::text::push_all(out, valtext);
    out.push(10);
    out.push(83);
    out.push(65);
    out.push(86);
    out.push(32);
    out.push(97);
    out.push(32);
    out.push(101);
    proof {
        assert(out@ =~= old(out)@ + push_tpl(valtext@));
    }
}

fn emit_call_tpl(out: &mut Vec<u8>, addrtext: &Vec<u8>)
    ensures
        final(out)@ == old(out)@ + call_tpl(addrtext@),
{
    out.push(10);
    out.push(83);
    out.push(69);
    out.push(84);
    out.push(32);
    out.push(97);
    out.push(32);
    out.push(49);
    out.push(56);
    out.push(10);
    out.push(65);
    out.push(68);
    out.push(68);
    out.push(32);
    out.push(99);
    out.push(111);
    out.push(117);
    out.push(110);
    out.push(116);
    out.push(32);
    out.push(97);
    out.push(10);
    out.push(83);
    out.push(65);
    out.push(86);
    out.push(32);
    out.push(111);
    out.push(117);
    out.push(116);
    out.push(32);
    out.push(102);
    out.push(10);
    out.push(83);
    out.push(69);
    out.push(84);
    out.push(32);
    out.push(97);
    out.push(32);
    out.push(49);
    out.push(10);
    out.push(65);
    out.push(68);
    out.push(68);
    out.push(32);
    out.push(97);
    out.push(32);
    out.push(102);
    out.push(10);
    out.push(67);
    out.push(80);
    out.push(89);
    out.push(32);
    out.push(111);
    out.push(117);
    out.push(116);
    out.push(32);
    out.push(102);
    out.push(10);
    out.push(83);
    out.push(69);
    out.push(84);
    out.push(32);
    out.push(99);
    out.push(111);
    out.push(117);
    out.push(110);
    out.push(116);
    out.push(32);
    crate::text::push_all(out, addrtext);
    proof {
        assert(out@ =~= old(out)@ + call_tpl(addrtext@));
    }
}

fn emit_epilogue(out: &mut Vec<u8>)
    ensures
        final(out)@ == old(out)@ + epilogue(),
{
    out.push(10);
    out.push(83);
    out.push(69);
    out.push(84);
    out.push(32);
    out.push(97);
    out.push(32);
    out.push(49);
    out.push(10);
    out.push(83);
    out.push(85);
    out.push(66);
    out.push(32);
    out.push(102);
    out.push(32);
    out.push(97);
    out.push(10);
    out.push(67);
    out.push(80);
    out.push(89);
    out.push(32);
    out.push(111);
    out.push(117);
    out.push(116);
    out.push(32);
    out.push(102);
    out.push(10);
    out.push(80);
    out.push(78);
    out.push(84);
    out.push(32);
    out.push(102);
    out.push(32);
    out.push(99);
    out.push(111);
    out.push(117);
    out.push(110);
    out.push(116);
    out.push(10);
    proof {
        assert(out@ =~= old(out)@ + epilogue());
    }
}

fn emit_preamble(out: &mut Vec<u8>)
    ensures
        final(out)@ == old(out)@ + preamble(),
{
    out.push(10);
    out.push(83);
    out.push(69);
    out.push(84);
    out.push(32);
    out.push(101);
    out.push(32);
    crate::text::push_dec(out, crate::isa::DATA_STACK_BASE as usize);
    out.push(10);
    out.push(83);
    out.push(69);
    out.push(84);
    out.push(32);
    out.push(102);
    out.push(32);
    crate::text::push_dec(out, crate::isa::CALL_STACK_BASE as usize);
    proof {
        assert(out@ =~= old(out)@ + preamble());
    }
}

/// The assembly one call-list token compiles to: a push of the literal
/// text itself, a push of the address a `&name` resolves to, or a call
/// of the address a bare name resolves to; an unresolved name is the
/// undefined-symbol error, naming the enclosing function `fname`.
pub open spec fn spec_item_code(it: Seq<u8>, tbl: Seq<(Seq<u8>, nat)>, fname: Seq<u8>) -> Result<
    Seq<u8>,
    SccErrorModel,
> {
    if spec_parse_u16(it) is Some {
        Ok(push_tpl(it))
    } else if it.len() > 0 && it[0] == 38 {
        match spec_lookup(tbl, it.skip(1)) {
            Some(a) => Ok(push_tpl(crate::text::dec_of(a))),
            None => Err(
                SccErrorModel {
                    kind: SccErrorKind::UndefinedSymbol,
                    func: fname,
                    token: it.skip(1),
                },
            ),
        }
    } else {
        match spec_lookup(tbl, it) {
            Some(a) => Ok(call_tpl(crate::text::dec_of(a))),
            None => Err(
                SccErrorModel { kind: SccErrorKind::UndefinedSymbol, func: fname, token: it },
            ),
        }
    }
}

/// The concatenated code of call-list tokens `k..`, or the first
/// unresolved name.
pub open spec fn spec_items_code(
    items: Seq<Seq<u8>>,
    k: int,
    tbl: Seq<(Seq<u8>, nat)>,
    fname: Seq<u8>,
) -> Result<Seq<u8>, SccErrorModel>
    decreases items.len() - k,
{
    if k < 0 || k >= items.len() {
        Ok(Seq::empty())
    } else {
        match spec_item_code(items[k], tbl, fname) {
            Err(e) => Err(e),
            Ok(c) => match spec_items_code(items, k + 1, tbl, fname) {
                Err(e) => Err(e),
                Ok(rest) => Ok(c + rest),
            },
        }
    }
}

/// The assembly text one function compiles to: a newline, then the body
/// — an `ASM` body's lines verbatim, a call list's token code — and the
/// fixed epilogue.
pub open spec fn spec_func_code(f: FuncModel, tbl: Seq<(Seq<u8>, nat)>) -> Result<
    Seq<u8>,
    SccErrorModel,
> {
    if f.raw {
        Ok(seq![10u8] + join_nl(f.items) + epilogue())
    } else {
        match spec_items_code(f.items, 0, tbl, f.name) {
            Err(e) => Err(e),
            Ok(body) => Ok(seq![10u8] + body + epilogue()),
        }
    }
}

fn tail_copy(s: &Vec<u8>) -> (r: Vec<u8>)
    requires
        s@.len() >= 1,
    ensures
        r@ == s@.skip(1),
{
    let len = s.len();
    let mut r: Vec<u8> = Vec::new();
    let mut k: usize = 1;
    while k < len
        invariant
            1 <= k <= len,
            r@ == s@.subrange(1, k as int),
        decreases len - k,
    {
        r.push(s[k]);
        proof {
            assert(r@ =~= s@.subrange(1, k as int + 1));
        }
        k = k + 1;
    }
    proof {
        assert(r@ =~= s@.skip(1));
    }
    r
}

impl ParsedFunc {
    /// Generate the function's assembly text against a symbol table, or
    /// report the first token whose name the table does not bind.
    pub fn compile(&self, symbols: &SymbolTable) -> (r: Result<Vec<u8>, SccError>)
        ensures
            (match r {
                Ok(v) => spec_func_code(self@, symbols@) == Ok::<Seq<u8>, SccErrorModel>(v@),
                Err(e) => spec_func_code(self@, symbols@) == Err::<Seq<u8>, SccErrorModel>(e@),
            }),
    {
        let mut body: Vec<u8> = Vec::new();
        let items = &self.calls.items;
        let n = items.len();
        if self.header.raw {
            let mut q: usize = 0;
            while q < n
                invariant
                    q <= n,
                    n == self@.items.len(),
                    body@ == join_nl(self@.items.take(q as int)),
                decreases n - q,
            {
                if q > 0 {
                    body.push(10);
                }
                crate::text::push_all(&mut body, &items[q]);
                proof {
                    assert(self@.items.take(q as int + 1).drop_last() =~= self@.items.take(
                        q as int,
                    ));
                    if q == 0 {
                        assert(body@ =~= join_nl(self@.items.take(1)));
                    } else {
                        assert(body@ =~= join_nl(self@.items.take(q as int + 1)));
                    }
                }
                q = q + 1;
            }
            proof {
                assert(self@.items.take(n as int) =~= self@.items);
            }
            let mut out: Vec<u8> = Vec::new();
            out.push(10);
            crate::text::push_all(&mut out, &body);
            emit_epilogue(&mut out);
            proof {
                assert(out@ =~= seq![10u8] + join_nl(self@.items) + epilogue());
            }
            Ok(out)
        } else {
            let mut q: usize = 0;
            while q < n
                invariant
                    q <= n,
                    n == self@.items.len(),
                    (match spec_items_code(self@.items, q as int, symbols@, self@.name) {
                        Ok(rest) => spec_items_code(self@.items, 0, symbols@, self@.name) == Ok::<
                            Seq<u8>,
                            SccErrorModel,
                        >(body@ + rest),
                        Err(e) => spec_items_code(self@.items, 0, symbols@, self@.name) == Err::<
                            Seq<u8>,
                            SccErrorModel,
                        >(e),
                    }),
                decreases n - q,
            {
                let it = &items[q];
                let ghost body0 = body@;
                if parse_u16(it).is_some() {
                    emit_push_tpl(&mut body, it);
                } else if it.len() > 0 && it[0] == 38 {
                    let nm = tail_copy(it);
                    match symbols.lookup(&nm) {
                        Some(a) => {
                            let mut d: Vec<u8> = Vec::new();
                            crate::text::push_dec(&mut d, a);
                            emit_push_tpl(&mut body, &d);
                        },
                        None => {
                            return Err(
                                SccError {
                                    kind: SccErrorKind::UndefinedSymbol,
                                    func: copy_bytes(&self.header.name),
                                    token: nm,
                                },
                            );
                        },
                    }
                } else {
                    match symbols.lookup(it) {
                        Some(a) => {
                            let mut d: Vec<u8> = Vec::new();
                            crate::text::push_dec(&mut d, a);
                            emit_call_tpl(&mut body, &d);
                        },
                        None => {
                            return Err(
                                SccError {
                                    kind: SccErrorKind::UndefinedSymbol,
                                    func: copy_bytes(&self.header.name),
                                    token: copy_bytes(it),
                                },
                            );
                        },
                    }
                }
                proof {
                    let c = spec_item_code(self@.items[q as int], symbols@, self@.name)->Ok_0;
                    if spec_items_code(self@.items, q as int + 1, symbols@, self@.name) is Ok {
                        let rest = spec_items_code(self@.items, q as int + 1, symbols@, self@.name)->Ok_0;
                        assert(body0 + (c + rest) =~= (body0 + c) + rest);
                    }
                }
                q = q + 1;
            }
            let mut out: Vec<u8> = Vec::new();
            out.push(10);
            crate::text::push_all(&mut out, &body);
            emit_epilogue(&mut out);
            proof {
                assert(body@ + Seq::<u8>::empty() =~= body@);
                assert(out@ =~= seq![10u8] + body@ + epilogue());
            }
            Ok(out)
        }
    }
}

/// A line that opens a function header: not blank, and not indented by a
/// leading space.
pub open spec fn is_header_line(l: Seq<u8>) -> bool {
    l.len() > 0 && crate::text::spec_trim(l).len() > 0 && l[0] != 32
}

fn is_header_exec(l: &Vec<u8>) -> (r: bool)
    ensures
        r == is_header_line(l@),
{
    if l.len() == 0 {
        return false;
    }
    let t = crate::text::trim(l);
    t.len() > 0 && l[0] != 32
}

/// Index of the first header line at or after `k`, or the line count.
pub open spec fn next_header(lines: Seq<Seq<u8>>, k: int) -> int
    decreases lines.len() - k,
{
    if k < 0 || k >= lines.len() {
        lines.len() as int
    } else if is_header_line(lines[k]) {
        k
    } else {
        next_header(lines, k + 1)
    }
}

pub proof fn lemma_next_header(lines: Seq<Seq<u8>>, k: int)
    requires
        0 <= k <= lines.len(),
    ensures
        k <= next_header(lines, k) <= lines.len(),
        next_header(lines, k) < lines.len() ==> is_header_line(lines[next_header(lines, k)]),
    decreases lines.len() - k,
{
    if k < lines.len() && !is_header_line(lines[k]) {
        lemma_next_header(lines, k + 1);
    }
}

pub proof fn lemma_next_header_is(lines: Seq<Seq<u8>>, k: int, j: int)
    requires
        0 <= k <= j <= lines.len(),
        forall|q: int| k <= q < j ==> !is_header_line(lines[q]),
        j < lines.len() ==> is_header_line(lines[j]),
    ensures
        next_header(lines, k) == j,
    decreases j - k,
{
    if k < j {
        lemma_next_header_is(lines, k + 1, j);
    }
}

/// Each line trimmed of leading and trailing whitespace.
pub open spec fn trimmed(bls: Seq<Seq<u8>>) -> Seq<Seq<u8>> {
    bls.map_values(|l: Seq<u8>| crate::text::spec_trim(l))
}

/// A function's body text: its lines trimmed, joined with newlines, the
/// whole trimmed again.
pub open spec fn body_text(bls: Seq<Seq<u8>>) -> Seq<u8> {
    crate::text::spec_trim(join_nl(trimmed(bls)))
}

/// The paragraphs of a source, from line `k` on: every header line with
/// the body text of the lines between it and the next header.
pub open spec fn spec_paragraphs(lines: Seq<Seq<u8>>, k: int) -> Seq<(Seq<u8>, Seq<u8>)>
    decreases lines.len() - k,
    via spec_paragraphs_dec
{
    let h = next_header(lines, k);
    if k < 0 || h >= lines.len() {
        Seq::empty()
    } else {
        let e = next_header(lines, h + 1);
        seq![(lines[h], body_text(lines.subrange(h + 1, e)))] + spec_paragraphs(lines, e)
    }
}

#[via_fn]
proof fn spec_paragraphs_dec(lines: Seq<Seq<u8>>, k: int) {
    if 0 <= k && k <= lines.len() {
        lemma_next_header(lines, k);
        if next_header(lines, k) < lines.len() {
            lemma_next_header(lines, next_header(lines, k) + 1);
        }
    }
}

/// The models of a sequence of cut-out functions.
pub open spec fn uf_views(v: Seq<UncompiledFunction>) -> Seq<(Seq<u8>, Seq<u8>)> {
    v.map_values(|u: UncompiledFunction| (u.header@, u.body@))
}

/// Cut a source, already split into lines, into its functions: each
/// header line paired with the body text below it. Lines before the
/// first header are ignored.
pub fn cut_functions(lines: &Vec<Vec<u8>>) -> (r: Vec<UncompiledFunction>)
    ensures
        uf_views(r@) == spec_paragraphs(views(lines@), 0),
{
    let ghost ls = views(lines@);
    let n = lines.len();
    let mut out: Vec<UncompiledFunction> = Vec::new();
    let mut k: usize = 0;
    while k < n
        invariant
            k <= n,
            n == ls.len(),
            spec_paragraphs(ls, 0) == uf_views(out@) + spec_paragraphs(ls, k as int),
        decreases n - k,
    {
        if !is_header_exec(&lines[k]) {
            proof {
                assert(next_header(ls, k as int) == next_header(ls, k as int + 1));
            }
            k = k + 1;
            continue ;
        }
        let mut j: usize = k + 1;
        while j < n && !is_header_exec(&lines[j])
            invariant
                k + 1 <= j <= n,
                forall|q: int| k + 1 <= q < j ==> !is_header_line(ls[q]),
            decreases n - j,
        {
            j = j + 1;
        }
        proof {
            lemma_next_header_is(ls, k as int + 1, j as int);
        }
        let mut body: Vec<u8> = Vec::new();
        let mut q: usize = k + 1;
        while q < j
            invariant
                k + 1 <= q <= j <= n,
                n == ls.len(),
                body@ == join_nl(trimmed(ls.subrange(k as int + 1, q as int))),
            decreases j - q,
        {
            if q > k + 1 {
                body.push(10);
            }
            let t = crate::text::trim(&lines[q]);
            crate::text::push_all(&mut body, &t);
            proof {
                let upto = trimmed(ls.subrange(k as int + 1, q as int + 1));
                assert(upto.drop_last() =~= trimmed(ls.subrange(k as int + 1, q as int)));
                assert(upto.last() == crate::text::spec_trim(ls[q as int]));
                if q == k + 1 {
                    assert(body@ =~= join_nl(upto));
                } else {
                    assert(body@ =~= join_nl(upto));
                }
            }
            q = q + 1;
        }
        let body_t = crate::text::trim(&body);
        let uf = UncompiledFunction { header: copy_bytes(&lines[k]), body: body_t };
        proof {
            assert(uf_views(out@.push(uf)) =~= uf_views(out@).push((uf.header@, uf.body@)));
        }
        out.push(uf);
        k = j;
    }
    proof {
        assert(uf_views(out@) + spec_paragraphs(ls, n as int) =~= uf_views(out@));
    }
    out
}

/// The parsed forms of paragraphs `k..`, or the first header or body
/// that does not parse.
pub open spec fn spec_parse_all(ps: Seq<(Seq<u8>, Seq<u8>)>, k: int) -> Result<
    Seq<FuncModel>,
    SccErrorModel,
>
    decreases ps.len() - k,
{
    if k < 0 || k >= ps.len() {
        Ok(Seq::empty())
    } else {
        match spec_parse_func(ps[k].0, ps[k].1) {
            Err(e) => Err(e),
            Ok(f) => match spec_parse_all(ps, k + 1) {
                Err(e) => Err(e),
                Ok(rest) => Ok(seq![f] + rest),
            },
        }
    }
}

/// Parse every cut-out function, stopping at the first that is
/// malformed.
pub fn parse_all(funcs: &Vec<UncompiledFunction>) -> (r: Result<Vec<ParsedFunc>, SccError>)
    ensures
        (match r {
            Ok(v) => spec_parse_all(uf_views(funcs@), 0) == Ok::<Seq<FuncModel>, SccErrorModel>(
                func_views(v@),
            ),
            Err(e) => spec_parse_all(uf_views(funcs@), 0) == Err::<Seq<FuncModel>, SccErrorModel>(
                e@,
            ),
        }),
{
    let ghost ps = uf_views(funcs@);
    let n = funcs.len();
    let mut out: Vec<ParsedFunc> = Vec::new();
    let mut k: usize = 0;
    while k < n
        invariant
            k <= n,
            n == ps.len(),
            (match spec_parse_all(ps, k as int) {
                Ok(rest) => spec_parse_all(ps, 0) == Ok::<Seq<FuncModel>, SccErrorModel>(
                    func_views(out@) + rest,
                ),
                Err(e) => spec_parse_all(ps, 0) == Err::<Seq<FuncModel>, SccErrorModel>(e),
            }),
        decreases n - k,
    {
        match funcs[k].parse() {
            Ok(f) => {
                let ghost out0 = out@;
                proof {
                    assert(func_views(out0.push(f)) =~= func_views(out0).push(f@));
                    if spec_parse_all(ps, k as int + 1) is Ok {
                        let rest = spec_parse_all(ps, k as int + 1)->Ok_0;
                        assert(func_views(out0) + (seq![f@] + rest) =~= func_views(out0).push(f@)
                            + rest);
                    }
                }
                out.push(f);
            },
            Err(e) => {
                return Err(e);
            },
        }
        k = k + 1;
    }
    proof {
        assert(func_views(out@) + Seq::<FuncModel>::empty() =~= func_views(out@));
    }
    Ok(out)
}

/// The generated assembly of functions `k..` in order, against one
/// symbol table, or the first unresolved name.
pub open spec fn spec_code_all(
    fs: Seq<FuncModel>,
    k: int,
    tbl: Seq<(Seq<u8>, nat)>,
) -> Result<Seq<u8>, SccErrorModel>
    decreases fs.len() - k,
{
    if k < 0 || k >= fs.len() {
        Ok(Seq::empty())
    } else {
        match spec_func_code(fs[k], tbl) {
            Err(e) => Err(e),
            Ok(c) => match spec_code_all(fs, k + 1, tbl) {
                Err(e) => Err(e),
                Ok(rest) => Ok(c + rest),
            },
        }
    }
}

/// The assembly text a whole SCC source compiles to: the preamble, then
/// every function's code in declaration order against the one symbol
/// table — or the first parse or symbol error.
pub open spec fn spec_compile(src: Seq<u8>) -> Result<Seq<u8>, SccErrorModel> {
    let ps = spec_paragraphs(line_split(src), 0);
    match spec_parse_all(ps, 0) {
        Err(e) => Err(e),
        Ok(fs) => match spec_code_all(fs, 0, spec_symbols(fs)) {
            Err(e) => Err(e),
            Ok(code) => Ok(preamble() + code),
        },
    }
}

/// Whether a source that parses would need addresses beyond the machine's
/// address arithmetic.
pub open spec fn spec_overflows(src: Seq<u8>) -> bool {
    match spec_parse_all(spec_paragraphs(line_split(src), 0), 0) {
        Ok(fs) => PREAMBLE_LENGTH + total_len(fs) > usize::MAX,
        Err(e) => false,
    }
}

/// Compile an SCC source to assembly text: cut it into functions, parse
/// them, assign every function its address in one forward pass, and
/// generate the preamble and each function's code. Fails on a malformed
/// header, on a reference to an undefined symbol, or — the one departure
/// from the mathematical model — when the assigned addresses outgrow the
/// machine's address arithmetic.
pub fn compile(s: &str) -> (r: Result<Vec<u8>, SccError>)
    ensures
        (match r {
            Ok(v) => spec_compile(s.spec_bytes()) == Ok::<Seq<u8>, SccErrorModel>(v@)
                && !spec_overflows(s.spec_bytes()),
            Err(e) => (spec_compile(s.spec_bytes()) == Err::<Seq<u8>, SccErrorModel>(e@)
                && !spec_overflows(s.spec_bytes())) || (e@.kind == SccErrorKind::ProgramTooLarge
                && e@.func == Seq::<u8>::empty() && e@.token == Seq::<u8>::empty()
                && spec_overflows(s.spec_bytes())),
        }),
{
    let bytes = s.as_bytes();
    let lines = split_lines(bytes);
    let funcs = cut_functions(&lines);
    let parsed = match parse_all(&funcs) {
        Ok(v) => v,
        Err(e) => {
            return Err(e);
        },
    };
    let symbols = match build_symbols(&parsed) {
        Some(t) => t,
        None => {
            return Err(
                SccError {
                    kind: SccErrorKind::ProgramTooLarge,
                    func: Vec::new(),
                    token: Vec::new(),
                },
            );
        },
    };
    let ghost fs = func_views(parsed@);
    let mut out: Vec<u8> = Vec::new();
    emit_preamble(&mut out);
    let n = parsed.len();
    let mut k: usize = 0;
    while k < n
        invariant
            k <= n,
            n == fs.len(),
            symbols@ == spec_symbols(fs),
            (match spec_code_all(fs, k as int, spec_symbols(fs)) {
                Ok(rest) => spec_compile(s.spec_bytes()) == Ok::<Seq<u8>, SccErrorModel>(
                    out@ + rest,
                ),
                Err(e) => spec_compile(s.spec_bytes()) == Err::<Seq<u8>, SccErrorModel>(e),
            }),
        decreases n - k,
    {
        match parsed[k].compile(&symbols) {
            Ok(c) => {
                let ghost out0 = out@;
                crate::text::push_all(&mut out, &c);
                proof {
                    if spec_code_all(fs, k as int + 1, spec_symbols(fs)) is Ok {
                        let rest = spec_code_all(fs, k as int + 1, spec_symbols(fs))->Ok_0;
                        assert(out0 + (c@ + rest) =~= (out0 + c@) + rest);
                    }
                }
            },
            Err(e) => {
                return Err(e);
            },
        }
        k = k + 1;
    }
    proof {
        assert(out@ + Seq::<u8>::empty() =~= out@);
    }
    Ok(out)
}

/// Compile determinism: the whole translation is a function of the
/// source text alone, so two compilations of the same source yield the
/// same generated assembly or the same error.
pub proof fn lemma_compile_deterministic(
    src: Seq<u8>,
    r1: Result<Seq<u8>, SccErrorModel>,
    r2: Result<Seq<u8>, SccErrorModel>,
)
    requires
        r1 == spec_compile(src),
        r2 == spec_compile(src),
    ensures
        r1 == r2,
{
}

} // verus!
