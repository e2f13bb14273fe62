//! Byte-level text utilities shared by the assembler and the SCC compiler:
//! line splitting, whitespace trimming, tokenization, decimal literals.
//!
//! Source text is handled as bytes; every splitting function is specified
//! against a recursive model of the split so that the compilers' contracts
//! can speak about exactly which lines and tokens a source text contains.

#![verifier::loop_isolation(false)]

use vstd::prelude::*;

verus! {

/// The views of a sequence of byte vectors.
pub open spec fn views(vs: Seq<Vec<u8>>) -> Seq<Seq<u8>> {
    vs.map_values(|v: Vec<u8>| v@)
}

pub proof fn lemma_views_push(vs: Seq<Vec<u8>>, x: Vec<u8>)
    ensures
        views(vs.push(x)) =~= views(vs).push(x@),
{
}

/// ASCII whitespace as `str::trim` sees it: space and the control
/// characters tab through carriage return.
pub open spec fn is_blank(b: u8) -> bool {
    b == 32 || (9 <= b && b <= 13)
}

pub open spec fn spec_trim_start(s: Seq<u8>) -> Seq<u8>
    decreases s.len(),
{
    if s.len() > 0 && is_blank(s[0]) {
        spec_trim_start(s.drop_first())
    } else {
        s
    }
}

pub open spec fn spec_trim_end(s: Seq<u8>) -> Seq<u8>
    decreases s.len(),
{
    if s.len() > 0 && is_blank(s.last()) {
        spec_trim_end(s.drop_last())
    } else {
        s
    }
}

/// The text with leading and trailing whitespace removed.
pub open spec fn spec_trim(s: Seq<u8>) -> Seq<u8> {
    spec_trim_end(spec_trim_start(s))
}

fn is_blank_byte(b: u8) -> (r: bool)
    ensures
        r == is_blank(b),
{
    b == 32 || (9 <= b && b <= 13)
}

/// Copy of `s` with leading and trailing whitespace removed.
pub fn trim(s: &Vec<u8>) -> (r: Vec<u8>)
    ensures
        r@ == spec_trim(s@),
{
    let len = s.len();
    proof {
        assert(s@.subrange(0, len as int) =~= s@);
    }
    let mut i: usize = 0;
    while i < len && is_blank_byte(s[i])
        invariant
            i <= len,
            len == s@.len(),
            spec_trim_start(s@) == spec_trim_start(s@.subrange(i as int, len as int)),
        decreases len - i,
    {
        proof {
            let sub = s@.subrange(i as int, len as int);
            assert(sub.drop_first() =~= s@.subrange(i as int + 1, len as int));
        }
        i = i + 1;
    }
    let ghost start = s@.subrange(i as int, len as int);
    proof {
        assert(spec_trim_start(s@) == start);
    }
    let mut j: usize = len;
    while j > i && is_blank_byte(s[j - 1])
        invariant
            i <= j <= len,
            len == s@.len(),
            start == s@.subrange(i as int, len as int),
            spec_trim_end(start) == spec_trim_end(s@.subrange(i as int, j as int)),
        decreases j,
    {
        proof {
            let sub = s@.subrange(i as int, j as int);
            assert(sub.drop_last() =~= s@.subrange(i as int, j as int - 1));
        }
        j = j - 1;
    }
    let mut r: Vec<u8> = Vec::new();
    let mut k: usize = i;
    while k < j
        invariant
            i <= k <= j <= len,
            len == s@.len(),
            r@ == s@.subrange(i as int, k as int),
        decreases j - k,
    {
        r.push(s[k]);
        proof {
            assert(r@ =~= s@.subrange(i as int, k as int + 1));
        }
        k = k + 1;
    }
    proof {
        assert(r@ == s@.subrange(i as int, j as int));
    }
    r
}

/// Index of the first occurrence of `sep` in `s`, or `s.len()` if none.
pub open spec fn sep_pos(s: Seq<u8>, sep: u8) -> nat
    decreases s.len(),
{
    if s.len() == 0 {
        0
    } else if s[0] == sep {
        0
    } else {
        (1 + sep_pos(s.drop_first(), sep)) as nat
    }
}

pub proof fn lemma_sep_pos_is(s: Seq<u8>, sep: u8, j: int)
    requires
        0 <= j <= s.len(),
        forall|k: int| 0 <= k < j ==> s[k] != sep,
        j < s.len() ==> s[j] == sep,
    ensures
        sep_pos(s, sep) == j,
    decreases s.len(),
{
    if j == 0 {
    } else {
        assert(s[0] != sep);
        lemma_sep_pos_is(s.drop_first(), sep, j - 1);
    }
}

/// A piece of a newline split, with one carriage return stripped from its
/// end, as `str::lines` strips it.
pub open spec fn strip_cr(l: Seq<u8>) -> Seq<u8> {
    if l.len() > 0 && l.last() == 13 {
        l.drop_last()
    } else {
        l
    }
}

/// The lines of `s`, in the sense of `str::lines`: pieces between newline
/// bytes, a carriage return before each newline stripped, and no empty
/// final line for text that ends with a newline.
pub open spec fn line_split(s: Seq<u8>) -> Seq<Seq<u8>>
    decreases s.len(),
{
    if s.len() == 0 {
        Seq::empty()
    } else {
        let n = sep_pos(s, 10) as int;
        if n >= s.len() {
            seq![s]
        } else {
            seq![strip_cr(s.subrange(0, n))] + line_split(s.subrange(n + 1, s.len() as int))
        }
    }
}

/// The lines of `s`, each as its own vector.
pub fn split_lines(s: &[u8]) -> (r: Vec<Vec<u8>>)
    ensures
        views(r@) == line_split(s@),
{
    let len = s.len();
    let mut out: Vec<Vec<u8>> = Vec::new();
    proof {
        assert(s@.subrange(0, len as int) =~= s@);
    }
    let mut i: usize = 0;
    while i < len
        invariant
            i <= len,
            line_split(s@) == views(out@) + line_split(s@.subrange(i as int, len as int)),
        decreases len - i,
    {
        let mut j: usize = i;
        while j < len && s[j] != 10
            invariant
                i <= j <= len,
                len == s@.len(),
                forall|k: int| i <= k < j ==> s@[k] != 10,
            decreases len - j,
        {
            j = j + 1;
        }
        let ghost sub = s@.subrange(i as int, len as int);
        proof {
            lemma_sep_pos_is(sub, 10, j - i);
        }
        let end: usize = if j < len && j > i && s[j - 1] == 13 {
            j - 1
        } else {
            j
        };
        let mut line: Vec<u8> = Vec::new();
        let mut k: usize = i;
        while k < end
            invariant
                i <= k <= end <= len,
                len == s@.len(),
                line@ == s@.subrange(i as int, k as int),
            decreases end - k,
        {
            line.push(s[k]);
            proof {
                assert(line@ =~= s@.subrange(i as int, k as int + 1));
            }
            k = k + 1;
        }
        proof {
            lemma_views_push(out@, line);
        }
        if j == len {
            proof {
                assert(sub =~= line@);
            }
            out.push(line);
            return out;
        }
        proof {
            assert(sub.subrange(0, j - i) =~= s@.subrange(i as int, j as int));
            assert(strip_cr(sub.subrange(0, j - i)) =~= line@);
            assert(sub.subrange(j - i + 1, sub.len() as int) =~= s@.subrange(
                j as int + 1,
                len as int,
            ));
        }
        out.push(line);
        i = j + 1;
    }
    out
}

/// The pieces of `s` between space bytes, empty pieces kept, as
/// `str::split(" ")` produces them; the empty text has one empty piece.
pub open spec fn field_split(s: Seq<u8>) -> Seq<Seq<u8>>
    decreases s.len(),
{
    let n = sep_pos(s, 32) as int;
    if n >= s.len() {
        seq![s]
    } else {
        seq![s.subrange(0, n)] + field_split(s.subrange(n + 1, s.len() as int))
    }
}

/// The space-separated fields of `s`, empty fields kept.
pub fn split_fields(s: &Vec<u8>) -> (r: Vec<Vec<u8>>)
    ensures
        views(r@) == field_split(s@),
{
    let len = s.len();
    let mut out: Vec<Vec<u8>> = Vec::new();
    proof {
        assert(s@.subrange(0, len as int) =~= s@);
    }
    let mut i: usize = 0;
    loop
        invariant
            i <= len,
            len == s@.len(),
            field_split(s@) == views(out@) + field_split(s@.subrange(i as int, len as int)),
        decreases len - i,
    {
        let mut j: usize = i;
        while j < len && s[j] != 32
            invariant
                i <= j <= len,
                len == s@.len(),
                forall|k: int| i <= k < j ==> s@[k] != 32,
            decreases len - j,
        {
            j = j + 1;
        }
        let ghost sub = s@.subrange(i as int, len as int);
        proof {
            lemma_sep_pos_is(sub, 32, j - i);
        }
        let mut piece: Vec<u8> = Vec::new();
        let mut k: usize = i;
        while k < j
            invariant
                i <= k <= j <= len,
                len == s@.len(),
                piece@ == s@.subrange(i as int, k as int),
            decreases j - k,
        {
            piece.push(s[k]);
            proof {
                assert(piece@ =~= s@.subrange(i as int, k as int + 1));
            }
            k = k + 1;
        }
        proof {
            lemma_views_push(out@, piece);
            assert(sub.subrange(0, j - i) =~= piece@);
        }
        if j == len {
            proof {
                assert(sub =~= piece@);
            }
            out.push(piece);
            return out;
        }
        proof {
            assert(sub.subrange(j - i + 1, sub.len() as int) =~= s@.subrange(
                j as int + 1,
                len as int,
            ));
        }
        out.push(piece);
        i = j + 1;
    }
}

/// A token separator: a space, and also a newline when `nl` is set.
pub open spec fn is_tok_sep(b: u8, nl: bool) -> bool {
    b == 32 || (nl && b == 10)
}

/// Index of the first token separator in `s`, or `s.len()` if none.
pub open spec fn tok_pos(s: Seq<u8>, nl: bool) -> nat
    decreases s.len(),
{
    if s.len() == 0 {
        0
    } else if is_tok_sep(s[0], nl) {
        0
    } else {
        (1 + tok_pos(s.drop_first(), nl)) as nat
    }
}

pub proof fn lemma_tok_pos_is(s: Seq<u8>, nl: bool, j: int)
    requires
        0 <= j <= s.len(),
        forall|k: int| 0 <= k < j ==> !is_tok_sep(s[k], nl),
        j < s.len() ==> is_tok_sep(s[j], nl),
    ensures
        tok_pos(s, nl) == j,
    decreases s.len(),
{
    if j == 0 {
    } else {
        assert(!is_tok_sep(s[0], nl));
        lemma_tok_pos_is(s.drop_first(), nl, j - 1);
    }
}

/// The nonempty tokens of `s`, split at separators, in order.
pub open spec fn token_split(s: Seq<u8>, nl: bool) -> Seq<Seq<u8>>
    decreases s.len(),
{
    if s.len() == 0 {
        Seq::empty()
    } else if is_tok_sep(s[0], nl) {
        token_split(s.drop_first(), nl)
    } else {
        let n = tok_pos(s, nl) as int;
        if n >= s.len() {
            seq![s]
        } else {
            seq![s.subrange(0, n)] + token_split(s.subrange(n, s.len() as int), nl)
        }
    }
}

/// Every token of a split is nonempty.
pub proof fn lemma_tokens_nonempty(s: Seq<u8>, nl: bool)
    ensures
        forall|k: int| 0 <= k < token_split(s, nl).len() ==> token_split(s, nl)[k].len() > 0,
    decreases s.len(),
{
    if s.len() == 0 {
    } else if is_tok_sep(s[0], nl) {
        lemma_tokens_nonempty(s.drop_first(), nl);
        assert(token_split(s, nl) == token_split(s.drop_first(), nl));
    } else {
        let n = tok_pos(s, nl) as int;
        if n >= s.len() {
        } else {
            lemma_tokens_nonempty(s.subrange(n, s.len() as int), nl);
            let rest = token_split(s.subrange(n, s.len() as int), nl);
            assert forall|k: int| 0 <= k < token_split(s, nl).len() implies token_split(s, nl)[k].len()
                > 0 by {
                if k > 0 {
                    assert(token_split(s, nl)[k] == rest[k - 1]);
                }
            }
        }
    }
}

fn is_tok_sep_byte(b: u8, nl: bool) -> (r: bool)
    ensures
        r == is_tok_sep(b, nl),
{
    b == 32 || (nl && b == 10)
}

/// The nonempty tokens of `s`, each as its own vector.
pub fn split_tokens(s: &Vec<u8>, nl: bool) -> (r: Vec<Vec<u8>>)
    ensures
        views(r@) == token_split(s@, nl),
{
    let len = s.len();
    let mut out: Vec<Vec<u8>> = Vec::new();
    proof {
        assert(s@.subrange(0, len as int) =~= s@);
    }
    let mut i: usize = 0;
    while i < len
        invariant
            i <= len,
            len == s@.len(),
            token_split(s@, nl) == views(out@) + token_split(
                s@.subrange(i as int, len as int),
                nl,
            ),
        decreases len - i,
    {
        if is_tok_sep_byte(s[i], nl) {
            proof {
                let sub = s@.subrange(i as int, len as int);
                assert(sub.drop_first() =~= s@.subrange(i as int + 1, len as int));
            }
            i = i + 1;
        } else {
            let mut j: usize = i + 1;
            while j < len && !is_tok_sep_byte(s[j], nl)
                invariant
                    i < j <= len,
                    len == s@.len(),
                    forall|k: int| i < k < j ==> !is_tok_sep(s@[k], nl),
                decreases len - j,
            {
                j = j + 1;
            }
            let ghost sub = s@.subrange(i as int, len as int);
            proof {
                lemma_tok_pos_is(sub, nl, j - i);
            }
            let mut piece: Vec<u8> = Vec::new();
            let mut k: usize = i;
            while k < j
                invariant
                    i <= k <= j <= len,
                    len == s@.len(),
                    piece@ == s@.subrange(i as int, k as int),
                decreases j - k,
            {
                piece.push(s[k]);
                proof {
                    assert(piece@ =~= s@.subrange(i as int, k as int + 1));
                }
                k = k + 1;
            }
            proof {
                lemma_views_push(out@, piece);
                assert(sub.subrange(0, j - i) =~= piece@);
                if j < len {
                    assert(sub.subrange(j - i, sub.len() as int) =~= s@.subrange(
                        j as int,
                        len as int,
                    ));
                } else {
                    assert(sub =~= piece@);
                }
            }
            out.push(piece);
            i = j;
        }
    }
    out
}

/// An ASCII decimal digit.
pub open spec fn is_digit(b: u8) -> bool {
    48 <= b && b <= 57
}

pub open spec fn all_digits(t: Seq<u8>) -> bool {
    forall|k: int| 0 <= k < t.len() ==> is_digit(t[k])
}

/// Value of a digit string, most significant digit first.
pub open spec fn digits_val(t: Seq<u8>) -> nat
    decreases t.len(),
{
    if t.len() == 0 {
        0
    } else {
        (digits_val(t.drop_last()) * 10 + (t.last() - 48)) as nat
    }
}

/// The value of `t` as `str::parse::<u16>` reads it: an optional leading
/// plus sign, then one or more decimal digits, the value at most 65535.
pub open spec fn spec_parse_u16(t: Seq<u8>) -> Option<u16> {
    let d = if t.len() > 0 && t[0] == 43 {
        t.drop_first()
    } else {
        t
    };
    if d.len() > 0 && all_digits(d) && digits_val(d) <= 65535 {
        Some(digits_val(d) as u16)
    } else {
        None
    }
}

/// Parse an unsigned 16-bit decimal literal.
pub fn parse_u16(t: &Vec<u8>) -> (r: Option<u16>)
    ensures
        r == spec_parse_u16(t@),
{
    let len = t.len();
    let mut i: usize = 0;
    if len > 0 && t[0] == 43 {
        i = 1;
    }
    let ghost d = t@.subrange(i as int, len as int);
    proof {
        if t@.len() > 0 && t@[0] == 43 {
            assert(t@.drop_first() =~= d);
        } else {
            assert(t@ =~= d);
        }
    }
    if i >= len {
        return None;
    }
    let ghost start = i as int;
    let mut acc: u32 = 0;
    let mut big = false;
    let mut k: usize = i;
    while k < len
        invariant
            start <= k <= len,
            len == t@.len(),
            d == t@.subrange(start, len as int),
            d.len() > 0,
            all_digits(d.take(k - start)),
            !big ==> acc == digits_val(d.take(k - start)) && acc <= 65535,
            big ==> digits_val(d.take(k - start)) > 65535,
        decreases len - k,
    {
        let b = t[k];
        if !(48 <= b && b <= 57) {
            assert(!is_digit(d[k - start]));
            return None;
        }
        proof {
            assert(d.take(k - start + 1).drop_last() =~= d.take(k - start));
            assert(d.take(k - start + 1).last() == b);
        }
        if !big {
            acc = acc * 10 + (b - 48) as u32;
            if acc > 65535 {
                big = true;
            }
        }
        proof {
            assert(all_digits(d.take(k - start + 1))) by {
                assert(forall|q: int|
                    0 <= q < k - start ==> d.take(k - start + 1)[q] == #[trigger] d.take(
                        k - start,
                    )[q]);
            }
        }
        k = k + 1;
    }
    proof {
        assert(d.take(len - start) =~= d);
    }
    if big {
        None
    } else {
        Some(acc as u16)
    }
}

/// Decimal text of `n`, most significant digit first, no sign, no leading
/// zero except for zero itself.
pub open spec fn dec_of(n: nat) -> Seq<u8>
    decreases n,
{
    if n < 10 {
        seq![(48 + n) as u8]
    } else {
        dec_of(n / 10) + seq![(48 + n % 10) as u8]
    }
}

/// Append the decimal text of `n`.
pub fn push_dec(out: &mut Vec<u8>, n: usize)
    ensures
        final(out)@ == old(out)@ + dec_of(n as nat),
    decreases n,
{
    if n < 10 {
        out.push(48 + n as u8);
        proof {
            assert(out@ =~= old(out)@ + dec_of(n as nat));
        }
    } else {
        assert(n / 10 < n && n / 10 >= 1) by (nonlinear_arith)
            requires
                n >= 10,
        ;
        push_dec(out, n / 10);
        out.push(48 + (n % 10) as u8);
        proof {
            assert(out@ =~= old(out)@ + dec_of(n as nat));
        }
    }
}

/// Byte-for-byte equality of two vectors.
pub fn bytes_eq(a: &Vec<u8>, b: &Vec<u8>) -> (r: bool)
    ensures
        r == (a@ == b@),
{
    let len = a.len();
    if b.len() != len {
        return false;
    }
    let mut k: usize = 0;
    while k < len
        invariant
            k <= len,
            forall|q: int| 0 <= q < k ==> a@[q] == b@[q],
        decreases len - k,
    {
        if a[k] != b[k] {
            return false;
        }
        k = k + 1;
    }
    proof {
        assert(a@ =~= b@);
    }
    true
}

/// An owned copy of `s`.
pub fn copy_bytes(s: &Vec<u8>) -> (r: Vec<u8>)
    ensures
        r@ == s@,
{
    let mut r: Vec<u8> = Vec::new();
    push_all(&mut r, s);
    r
}

/// Append all of `s`.
pub fn push_all(out: &mut Vec<u8>, s: &Vec<u8>)
    ensures
        final(out)@ == old(out)@ + s@,
{
    let len = s.len();
    let mut k: usize = 0;
    while k < len
        invariant
            k <= len,
            len == s@.len(),
            out@ == old(out)@ + s@.take(k as int),
        decreases len - k,
    {
        out.push(s[k]);
        proof {
            assert(out@ =~= old(out)@ + s@.take(k as int + 1));
        }
        k = k + 1;
    }
    proof {
        assert(s@.take(len as int) =~= s@);
    }
}

} // verus!
