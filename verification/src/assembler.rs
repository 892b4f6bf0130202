//! The assembler: line-oriented mnemonic source text compiled to 16-bit
//! instruction words.
//!
//! Grammar, per non-blank line (leading and trailing whitespace trimmed,
//! blank lines skipped): `<mnemonic> <operand1> [<operand2>]`, fields
//! separated by single spaces. Mnemonics `mov`, `add`, `cmp` take a
//! source operand and a destination register; `jmp`, `je`, `jne`, `int`
//! take only a source operand. An operand resolves to a register if it
//! matches a register name (`A`, `B`, `C`, case-sensitively), else to an
//! immediate if it is a base-10 unsigned integer in 0..=255. There are no
//! comments and no labels; jump targets are literal instruction indices.

use crate::isa::{encode_spec, EncodeTwoBytes, Op, OpPlace, Reg};
use vstd::prelude::*;

verus! {

/// Why a source line failed to assemble.
#[derive(Clone, Copy, Debug, PartialEq, Eq, Structural)]
pub enum AsmErrorKind {
    /// The first field of the line names no mnemonic.
    UnknownMnemonic,
    /// The mnemonic requires an operand the line does not have.
    MissingOperand,
    /// An operand is neither a register name nor an unsigned integer.
    UnrecognizedOperand,
    /// An operand is an unsigned integer above 255.
    ImmediateOutOfRange,
    /// A destination operand is an immediate; destinations must be
    /// registers.
    RegisterRequired,
}

/// An assembly failure: the first failing line (an index into the
/// source's lines, counting from 0) and why it failed.
#[derive(Clone, Copy, Debug, PartialEq, Eq, Structural)]
pub struct AsmError {
    pub line: usize,
    pub kind: AsmErrorKind,
}

/// The whitespace that trimming removes.
pub open spec fn is_space(c: char) -> bool {
    c == ' ' || c == '\t' || c == '\r' || c == '\n'
}

/// The sequence without its leading whitespace.
pub open spec fn trim_start_spec(s: Seq<char>) -> Seq<char>
    decreases s.len(),
{
    if s.len() > 0 && is_space(s[0]) {
        trim_start_spec(s.subrange(1, s.len() as int))
    } else {
        s
    }
}

/// The sequence without its trailing whitespace.
pub open spec fn trim_end_spec(s: Seq<char>) -> Seq<char>
    decreases s.len(),
{
    if s.len() > 0 && is_space(s[s.len() - 1]) {
        trim_end_spec(s.subrange(0, s.len() - 1))
    } else {
        s
    }
}

/// The sequence without leading or trailing whitespace.
pub open spec fn trim_spec(s: Seq<char>) -> Seq<char> {
    trim_end_spec(trim_start_spec(s))
}

/// The index of the first occurrence of `c`, or the length if there is
/// none.
pub open spec fn find_first(s: Seq<char>, c: char) -> int
    decreases s.len(),
{
    if s.len() == 0 {
        0
    } else if s[0] == c {
        0
    } else {
        1 + find_first(s.subrange(1, s.len() as int), c)
    }
}

/// `find_first` stays within the sequence.
proof fn lemma_find_first_bounds(s: Seq<char>, c: char)
    ensures
        0 <= find_first(s, c) <= s.len(),
    decreases s.len(),
{
    if s.len() > 0 && s[0] != c {
        lemma_find_first_bounds(s.subrange(1, s.len() as int), c);
    }
}

/// The index where a left-to-right scan stops is `find_first`.
proof fn lemma_find_first_is(s: Seq<char>, c: char, i: int)
    requires
        0 <= i <= s.len(),
        forall|j: int| 0 <= j < i ==> s[j] != c,
        i < s.len() ==> s[i] == c,
    ensures
        find_first(s, c) == i,
    decreases i,
{
    if s.len() == 0 {
    } else if s[0] == c {
        assert(i == 0);
    } else {
        let tail = s.subrange(1, s.len() as int);
        assert(forall|j: int| 0 <= j < i - 1 ==> tail[j] != c);
        lemma_find_first_is(tail, c, i - 1);
    }
}

/// The range a whitespace scan from the left leaves is `trim_start_spec`.
proof fn lemma_trim_start_is(s: Seq<char>, a: int)
    requires
        0 <= a <= s.len(),
        forall|j: int| 0 <= j < a ==> is_space(s[j]),
        a < s.len() ==> !is_space(s[a]),
    ensures
        trim_start_spec(s) == s.subrange(a, s.len() as int),
    decreases a,
{
    if a == 0 {
        assert(s.subrange(0, s.len() as int) =~= s);
    } else {
        let tail = s.subrange(1, s.len() as int);
        assert(forall|j: int| 0 <= j < a - 1 ==> is_space(tail[j]));
        lemma_trim_start_is(tail, a - 1);
        assert(tail.subrange(a - 1, tail.len() as int) =~= s.subrange(a, s.len() as int));
    }
}

/// The range a whitespace scan from the right leaves is `trim_end_spec`.
proof fn lemma_trim_end_is(s: Seq<char>, b: int)
    requires
        0 <= b <= s.len(),
        forall|j: int| b <= j < s.len() ==> is_space(s[j]),
        b > 0 ==> !is_space(s[b - 1]),
    ensures
        trim_end_spec(s) == s.subrange(0, b),
    decreases s.len(),
{
    if b == s.len() {
        assert(s.subrange(0, s.len() as int) =~= s);
    } else {
        let head = s.subrange(0, s.len() - 1);
        assert(forall|j: int| b <= j < head.len() ==> is_space(head[j]));
        lemma_trim_end_is(head, b);
        assert(head.subrange(0, b) =~= s.subrange(0, b));
    }
}

/// The source text cut at every line feed; a text without one is a
/// single line, so there is always at least one line.
pub open spec fn split_lines(s: Seq<char>) -> Seq<Seq<char>>
    decreases s.len(),
    via split_lines_decreases
{
    let i: int = find_first(s, '\n');
    if i >= s.len() {
        seq![s]
    } else {
        seq![s.subrange(0, i)] + split_lines(s.subrange(i + 1, s.len() as int))
    }
}

#[via_fn]
proof fn split_lines_decreases(s: Seq<char>) {
    lemma_find_first_bounds(s, '\n');
}

/// Unfolding of `split_lines` at the first line feed found by a scan: the
/// text up to it is the first line, the rest splits on its own.
proof fn lemma_split_lines_step(s: Seq<char>, k: int)
    requires
        0 <= k <= s.len(),
        forall|j: int| 0 <= j < k ==> s[j] != '\n',
        k < s.len() ==> s[k] == '\n',
    ensures
        k < s.len() ==> split_lines(s) == seq![s.subrange(0, k)] + split_lines(
            s.subrange(k + 1, s.len() as int),
        ),
        k == s.len() ==> split_lines(s) == seq![s],
{
    lemma_find_first_is(s, '\n', k);
}

/// There is always at least one line.
proof fn lemma_split_lines_len(s: Seq<char>)
    ensures
        split_lines(s).len() >= 1,
{
}

/// A decimal digit.
pub open spec fn is_digit(c: char) -> bool {
    48 <= c as u32 <= 57
}

/// The value of one decimal digit.
pub open spec fn digit_val(c: char) -> nat {
    (c as u32 - 48) as nat
}

/// Whether every character is a decimal digit.
pub open spec fn all_digits(s: Seq<char>) -> bool {
    forall|j: int| 0 <= j < s.len() ==> is_digit(s[j])
}

/// The base-10 value of a digit string (most significant digit first).
pub open spec fn digits_val(s: Seq<char>) -> nat
    decreases s.len(),
{
    if s.len() == 0 {
        0
    } else {
        digits_val(s.subrange(0, s.len() - 1)) * 10 + digit_val(s[s.len() - 1])
    }
}

/// A digit string is worth at least any of its prefixes: once a prefix
/// exceeds a bound, the whole string does.
proof fn lemma_digits_val_prefix(s: Seq<char>, i: int)
    requires
        0 <= i <= s.len(),
    ensures
        digits_val(s.subrange(0, i)) <= digits_val(s),
    decreases s.len() - i,
{
    if i == s.len() {
        assert(s.subrange(0, i) =~= s);
    } else {
        assert(s.subrange(0, i + 1).subrange(0, i) =~= s.subrange(0, i));
        assert(digits_val(s.subrange(0, i + 1)) == digits_val(s.subrange(0, i)) * 10 + digit_val(
            s.subrange(0, i + 1)[i],
        ));
        lemma_digits_val_prefix(s, i + 1);
    }
}

/// The register a token names, if any; names are case-sensitive.
pub open spec fn reg_of_name(t: Seq<char>) -> Option<Reg> {
    if t == "A"@ {
        Some(Reg::A)
    } else if t == "B"@ {
        Some(Reg::B)
    } else if t == "C"@ {
        Some(Reg::C)
    } else {
        None
    }
}

/// What an operand token resolves to: a register if it names one, else
/// an immediate if it is an unsigned integer in 0..=255, else an error
/// (`ImmediateOutOfRange` for an integer above 255, `UnrecognizedOperand`
/// for anything else).
pub open spec fn resolve_token_spec(t: Seq<char>) -> Result<OpPlace, AsmErrorKind> {
    match reg_of_name(t) {
        Some(r) => Ok(OpPlace::Reg(r)),
        None => if t.len() > 0 && all_digits(t) {
            if digits_val(t) <= 255 {
                Ok(OpPlace::Imm(digits_val(t) as u8))
            } else {
                Err(AsmErrorKind::ImmediateOutOfRange)
            }
        } else {
            Err(AsmErrorKind::UnrecognizedOperand)
        },
    }
}

/// The source operand a field parses to: the field is required, and its
/// token (trimmed) must resolve.
pub open spec fn parse_src_spec(p: Option<Seq<char>>) -> Result<OpPlace, AsmErrorKind> {
    match p {
        None => Err(AsmErrorKind::MissingOperand),
        Some(t) => resolve_token_spec(trim_spec(t)),
    }
}

/// The destination register a field parses to: the field is required,
/// its token must resolve, and an immediate is refused since
/// destinations must be registers.
pub open spec fn parse_dst_spec(p: Option<Seq<char>>) -> Result<Reg, AsmErrorKind> {
    match p {
        None => Err(AsmErrorKind::MissingOperand),
        Some(t) => match resolve_token_spec(trim_spec(t)) {
            Ok(OpPlace::Reg(r)) => Ok(r),
            Ok(OpPlace::Imm(_)) => Err(AsmErrorKind::RegisterRequired),
            Err(e) => Err(e),
        },
    }
}

/// The up-to-three space-separated fields of a trimmed line: the
/// mnemonic field, and up to two operand fields, the second taking the
/// rest of the line.
pub open spec fn pieces_spec(t: Seq<char>) -> (Seq<char>, Option<Seq<char>>, Option<Seq<char>>) {
    let i: int = find_first(t, ' ');
    if i >= t.len() {
        (t, None, None)
    } else {
        let rest = t.subrange(i + 1, t.len() as int);
        let j: int = find_first(rest, ' ');
        if j >= rest.len() {
            (t.subrange(0, i), Some(rest), None)
        } else {
            (
                t.subrange(0, i),
                Some(rest.subrange(0, j)),
                Some(rest.subrange(j + 1, rest.len() as int)),
            )
        }
    }
}

/// A source operand and a destination register parsed from two fields;
/// the source's error, if any, comes first.
pub open spec fn two_op_spec(p1: Option<Seq<char>>, p2: Option<Seq<char>>) -> Result<
    (OpPlace, Reg),
    AsmErrorKind,
> {
    match parse_src_spec(p1) {
        Err(e) => Err(e),
        Ok(s) => match parse_dst_spec(p2) {
            Err(e) => Err(e),
            Ok(d) => Ok((s, d)),
        },
    }
}

/// The instruction one source line holds: nothing for a blank line, the
/// parsed instruction for a well-formed one, and the first error
/// otherwise.
pub open spec fn line_op_spec(l: Seq<char>) -> Result<Option<Op>, AsmErrorKind> {
    let t = trim_spec(l);
    if t.len() == 0 {
        Ok(None)
    } else {
        let p = pieces_spec(t);
        let m = trim_spec(p.0);
        if m == "mov"@ {
            match two_op_spec(p.1, p.2) {
                Ok(sd) => Ok(Some(Op::Mov(sd.0, sd.1))),
                Err(e) => Err(e),
            }
        } else if m == "add"@ {
            match two_op_spec(p.1, p.2) {
                Ok(sd) => Ok(Some(Op::Add(sd.0, sd.1))),
                Err(e) => Err(e),
            }
        } else if m == "cmp"@ {
            match two_op_spec(p.1, p.2) {
                Ok(sd) => Ok(Some(Op::Cmp(sd.0, sd.1))),
                Err(e) => Err(e),
            }
        } else if m == "jmp"@ {
            match parse_src_spec(p.1) {
                Ok(s) => Ok(Some(Op::Jmp(s))),
                Err(e) => Err(e),
            }
        } else if m == "je"@ {
            match parse_src_spec(p.1) {
                Ok(s) => Ok(Some(Op::Je(s))),
                Err(e) => Err(e),
            }
        } else if m == "jne"@ {
            match parse_src_spec(p.1) {
                Ok(s) => Ok(Some(Op::Jne(s))),
                Err(e) => Err(e),
            }
        } else if m == "int"@ {
            match parse_src_spec(p.1) {
                Ok(s) => Ok(Some(Op::Int(s))),
                Err(e) => Err(e),
            }
        } else {
            Err(AsmErrorKind::UnknownMnemonic)
        }
    }
}

/// The words the lines from `i` on assemble to, in source order, one per
/// non-blank line; or the first failing line and its error.
pub open spec fn asm_lines_spec(lines: Seq<Seq<char>>, i: int) -> Result<
    Seq<u16>,
    (int, AsmErrorKind),
>
    decreases lines.len() - i,
{
    if i >= lines.len() {
        Ok(Seq::empty())
    } else {
        match line_op_spec(lines[i]) {
            Err(k) => Err((i, k)),
            Ok(None) => asm_lines_spec(lines, i + 1),
            Ok(Some(op)) => match asm_lines_spec(lines, i + 1) {
                Ok(ws) => Ok(seq![encode_spec(op)] + ws),
                Err(e) => Err(e),
            },
        }
    }
}

/// What a whole source text assembles to.
pub open spec fn asm_spec(s: Seq<char>) -> Result<Seq<u16>, (int, AsmErrorKind)> {
    asm_lines_spec(split_lines(s), 0)
}

/// Whether a character is trimmed whitespace.
fn is_space_char(c: char) -> (b: bool)
    ensures
        b == is_space(c),
{
    c == ' ' || c == '\t' || c == '\r' || c == '\n'
}

/// The first index in `[lo, hi)` holding a non-whitespace character, or
/// `hi` if all of the range is whitespace.
fn scan_spaces(s: &str, lo: usize, hi: usize) -> (a: usize)
    requires
        lo <= hi <= s@.len(),
    ensures
        lo <= a <= hi,
        forall|j: int| lo <= j < a ==> is_space(s@[j]),
        a < hi ==> !is_space(s@[a as int]),
{
    let mut a: usize = lo;
    while a < hi
        invariant
            lo <= a <= hi <= s@.len(),
            forall|j: int| lo <= j < a ==> is_space(s@[j]),
        decreases hi - a,
    {
        let c: char = s.get_char(a);
        if !is_space_char(c) {
            return a;
        }
        a = a + 1;
    }
    a
}

/// The end of the last whitespace-free suffix position: the least `b` in
/// `[lo, hi]` with only whitespace in `[b, hi)`.
fn scan_spaces_rev(s: &str, lo: usize, hi: usize) -> (b: usize)
    requires
        lo <= hi <= s@.len(),
    ensures
        lo <= b <= hi,
        forall|j: int| b <= j < hi ==> is_space(s@[j]),
        b > lo ==> !is_space(s@[b - 1]),
{
    let mut b: usize = hi;
    while b > lo
        invariant
            lo <= b <= hi <= s@.len(),
            forall|j: int| b <= j < hi ==> is_space(s@[j]),
        decreases b,
    {
        let c: char = s.get_char(b - 1);
        if !is_space_char(c) {
            return b;
        }
        b = b - 1;
    }
    b
}

/// The character range left when `[lo, hi)` is trimmed of leading and
/// trailing whitespace.
fn trim_range(s: &str, lo: usize, hi: usize) -> (r: (usize, usize))
    requires
        lo <= hi <= s@.len(),
    ensures
        lo <= r.0 <= r.1 <= hi,
        trim_spec(s@.subrange(lo as int, hi as int)) == s@.subrange(r.0 as int, r.1 as int),
{
    let a: usize = scan_spaces(s, lo, hi);
    let b: usize = scan_spaces_rev(s, a, hi);
    proof {
        let sub = s@.subrange(lo as int, hi as int);
        assert(forall|j: int| 0 <= j < a - lo ==> is_space(sub[j]));
        lemma_trim_start_is(sub, a - lo);
        assert(sub.subrange(a - lo, sub.len() as int) =~= s@.subrange(a as int, hi as int));
        let sub2 = s@.subrange(a as int, hi as int);
        assert(forall|j: int| b - a <= j < sub2.len() ==> is_space(sub2[j]));
        lemma_trim_end_is(sub2, b - a);
        assert(sub2.subrange(0, b - a) =~= s@.subrange(a as int, b as int));
    }
    (a, b)
}

/// The first index in `[lo, hi)` holding `c`, or `hi` if there is none;
/// in terms of the range as a sequence, `find_first`.
fn find_char_from(s: &str, lo: usize, hi: usize, c: char) -> (k: usize)
    requires
        lo <= hi <= s@.len(),
    ensures
        lo <= k <= hi,
        forall|j: int| lo <= j < k ==> s@[j] != c,
        k < hi ==> s@[k as int] == c,
        k - lo == find_first(s@.subrange(lo as int, hi as int), c),
{
    let mut k: usize = lo;
    while k < hi
        invariant
            lo <= k <= hi <= s@.len(),
            forall|j: int| lo <= j < k ==> s@[j] != c,
        decreases hi - k,
    {
        let d: char = s.get_char(k);
        if d == c {
            proof {
                let sub = s@.subrange(lo as int, hi as int);
                assert(forall|j: int| 0 <= j < k - lo ==> sub[j] != c);
                lemma_find_first_is(sub, c, k - lo);
            }
            return k;
        }
        k = k + 1;
    }
    proof {
        let sub = s@.subrange(lo as int, hi as int);
        assert(forall|j: int| 0 <= j < sub.len() ==> sub[j] != c);
        lemma_find_first_is(sub, c, sub.len() as int);
    }
    k
}

/// Whether the characters in `[lo, hi)` are exactly the pattern.
fn range_matches(s: &str, lo: usize, hi: usize, pat: &str) -> (b: bool)
    requires
        lo <= hi <= s@.len(),
    ensures
        b == (s@.subrange(lo as int, hi as int) == pat@),
{
    let n: usize = pat.unicode_len();
    if hi - lo != n {
        return false;
    }
    let mut k: usize = 0;
    while k < n
        invariant
            0 <= k <= n,
            n == pat@.len(),
            lo + n == hi,
            hi <= s@.len(),
            forall|j: int| 0 <= j < k ==> s@[lo + j] == pat@[j],
        decreases n - k,
    {
        let c1: char = s.get_char(lo + k);
        let c2: char = pat.get_char(k);
        if c1 != c2 {
            proof {
                assert(s@.subrange(lo as int, hi as int)[k as int] == s@[lo + k]);
            }
            return false;
        }
        k = k + 1;
    }
    proof {
        assert(s@.subrange(lo as int, hi as int) =~= pat@);
    }
    true
}

/// Whether every character in `[lo, hi)` is a decimal digit.
fn all_digits_range(s: &str, lo: usize, hi: usize) -> (b: bool)
    requires
        lo <= hi <= s@.len(),
    ensures
        b == all_digits(s@.subrange(lo as int, hi as int)),
{
    let mut k: usize = lo;
    while k < hi
        invariant
            lo <= k <= hi <= s@.len(),
            forall|j: int| lo <= j < k ==> is_digit(s@[j]),
        decreases hi - k,
    {
        let c: char = s.get_char(k);
        let cv: u32 = c as u32;
        if cv < 48 || cv > 57 {
            proof {
                assert(s@.subrange(lo as int, hi as int)[k - lo] == s@[k as int]);
            }
            return false;
        }
        k = k + 1;
    }
    proof {
        let sub = s@.subrange(lo as int, hi as int);
        assert(forall|j: int| 0 <= j < sub.len() ==> is_digit(sub[j]));
    }
    true
}

/// The value of the digit string in `[lo, hi)` when it fits in a byte,
/// `None` when it exceeds 255.
fn digits_value_range(s: &str, lo: usize, hi: usize) -> (r: Option<u8>)
    requires
        lo <= hi <= s@.len(),
        all_digits(s@.subrange(lo as int, hi as int)),
    ensures
        digits_val(s@.subrange(lo as int, hi as int)) <= 255 ==> r == Some(
            digits_val(s@.subrange(lo as int, hi as int)) as u8,
        ),
        digits_val(s@.subrange(lo as int, hi as int)) > 255 ==> r is None,
{
    let ghost t = s@.subrange(lo as int, hi as int);
    let mut acc: u32 = 0;
    let mut k: usize = lo;
    while k < hi
        invariant
            lo <= k <= hi <= s@.len(),
            t == s@.subrange(lo as int, hi as int),
            all_digits(t),
            acc <= 255,
            acc == digits_val(t.subrange(0, k - lo)),
        decreases hi - k,
    {
        let c: char = s.get_char(k);
        proof {
            assert(t[k - lo] == s@[k as int]);
            assert(is_digit(t[k - lo]));
        }
        let d: u32 = c as u32 - 48;
        let newacc: u32 = acc * 10 + d;
        proof {
            assert(t.subrange(0, k - lo + 1).subrange(0, k - lo) =~= t.subrange(0, k - lo));
            assert(t.subrange(0, k - lo + 1)[k - lo] == t[k - lo]);
            assert(digits_val(t.subrange(0, k - lo + 1)) == acc * 10 + digit_val(t[k - lo]));
        }
        if newacc > 255 {
            proof {
                lemma_digits_val_prefix(t, k - lo + 1);
            }
            return None;
        }
        acc = newacc;
        k = k + 1;
    }
    proof {
        assert(t.subrange(0, (hi - lo) as int) =~= t);
    }
    Some(acc as u8)
}

/// What the operand token in `[lo, hi)` resolves to, per
/// `resolve_token_spec`.
fn resolve_token(s: &str, lo: usize, hi: usize) -> (r: Result<OpPlace, AsmErrorKind>)
    requires
        lo <= hi <= s@.len(),
    ensures
        r == resolve_token_spec(s@.subrange(lo as int, hi as int)),
{
    if range_matches(s, lo, hi, "A") {
        return Ok(OpPlace::Reg(Reg::A));
    }
    if range_matches(s, lo, hi, "B") {
        return Ok(OpPlace::Reg(Reg::B));
    }
    if range_matches(s, lo, hi, "C") {
        return Ok(OpPlace::Reg(Reg::C));
    }
    if lo < hi && all_digits_range(s, lo, hi) {
        match digits_value_range(s, lo, hi) {
            Some(v) => Ok(OpPlace::Imm(v)),
            None => Err(AsmErrorKind::ImmediateOutOfRange),
        }
    } else {
        Err(AsmErrorKind::UnrecognizedOperand)
    }
}

/// The text an optional field range of the source denotes.
pub open spec fn piece_view(v: Seq<char>, q: Option<(usize, usize)>) -> Option<Seq<char>> {
    match q {
        Some(p) => Some(v.subrange(p.0 as int, p.1 as int)),
        None => None,
    }
}

/// The source operand an optional field range parses to, per
/// `parse_src_spec`.
fn parse_src(s: &str, piece: Option<(usize, usize)>) -> (r: Result<OpPlace, AsmErrorKind>)
    requires
        piece matches Some(p) ==> p.0 <= p.1 <= s@.len(),
    ensures
        r == parse_src_spec(piece_view(s@, piece)),
{
    match piece {
        None => Err(AsmErrorKind::MissingOperand),
        Some(p) => {
            let t: (usize, usize) = trim_range(s, p.0, p.1);
            resolve_token(s, t.0, t.1)
        },
    }
}

/// The destination register an optional field range parses to, per
/// `parse_dst_spec`.
fn parse_dst(s: &str, piece: Option<(usize, usize)>) -> (r: Result<Reg, AsmErrorKind>)
    requires
        piece matches Some(p) ==> p.0 <= p.1 <= s@.len(),
    ensures
        r == parse_dst_spec(piece_view(s@, piece)),
{
    match piece {
        None => Err(AsmErrorKind::MissingOperand),
        Some(p) => {
            let t: (usize, usize) = trim_range(s, p.0, p.1);
            match resolve_token(s, t.0, t.1) {
                Ok(OpPlace::Reg(r)) => Ok(r),
                Ok(OpPlace::Imm(_)) => Err(AsmErrorKind::RegisterRequired),
                Err(e) => Err(e),
            }
        },
    }
}

/// The instruction one line range holds, per `line_op_spec`.
#[verifier::rlimit(100)]
fn parse_line(s: &str, lo: usize, hi: usize) -> (r: Result<Option<Op>, AsmErrorKind>)
    requires
        lo <= hi <= s@.len(),
    ensures
        r == line_op_spec(s@.subrange(lo as int, hi as int)),
{
    let tr: (usize, usize) = trim_range(s, lo, hi);
    let a: usize = tr.0;
    let b: usize = tr.1;
    if a == b {
        return Ok(None);
    }
    let ghost tt = s@.subrange(a as int, b as int);
    let ghost p = pieces_spec(tt);
    let i: usize = find_char_from(s, a, b, ' ');
    let mut src_piece: Option<(usize, usize)> = None;
    let mut dst_piece: Option<(usize, usize)> = None;
    if i < b {
        let j: usize = find_char_from(s, i + 1, b, ' ');
        proof {
            assert(tt.subrange(i - a + 1, tt.len() as int) =~= s@.subrange(i + 1 as int, b as int));
        }
        if j == b {
            src_piece = Some((i + 1, b));
        } else {
            src_piece = Some((i + 1, j));
            dst_piece = Some((j + 1, b));
            proof {
                let rest = tt.subrange(i - a + 1, tt.len() as int);
                assert(rest.subrange(0, j - i - 1) =~= s@.subrange(i + 1 as int, j as int));
                assert(rest.subrange(j - i - 1 + 1, rest.len() as int) =~= s@.subrange(
                    j + 1 as int,
                    b as int,
                ));
            }
        }
    }
    proof {
        assert(tt.subrange(0, i - a) =~= s@.subrange(a as int, i as int));
        assert(piece_view(s@, src_piece) == p.1);
        assert(piece_view(s@, dst_piece) == p.2);
    }
    let m: (usize, usize) = trim_range(s, a, i);
    if range_matches(s, m.0, m.1, "mov") {
        match parse_src(s, src_piece) {
            Err(e) => Err(e),
            Ok(sp) => match parse_dst(s, dst_piece) {
                Err(e) => Err(e),
                Ok(d) => Ok(Some(Op::Mov(sp, d))),
            },
        }
    } else if range_matches(s, m.0, m.1, "add") {
        match parse_src(s, src_piece) {
            Err(e) => Err(e),
            Ok(sp) => match parse_dst(s, dst_piece) {
                Err(e) => Err(e),
                Ok(d) => Ok(Some(Op::Add(sp, d))),
            },
        }
    } else if range_matches(s, m.0, m.1, "cmp") {
        match parse_src(s, src_piece) {
            Err(e) => Err(e),
            Ok(sp) => match parse_dst(s, dst_piece) {
                Err(e) => Err(e),
                Ok(d) => Ok(Some(Op::Cmp(sp, d))),
            },
        }
    } else if range_matches(s, m.0, m.1, "jmp") {
        match parse_src(s, src_piece) {
            Err(e) => Err(e),
            Ok(sp) => Ok(Some(Op::Jmp(sp))),
        }
    } else if range_matches(s, m.0, m.1, "je") {
        match parse_src(s, src_piece) {
            Err(e) => Err(e),
            Ok(sp) => Ok(Some(Op::Je(sp))),
        }
    } else if range_matches(s, m.0, m.1, "jne") {
        match parse_src(s, src_piece) {
            Err(e) => Err(e),
            Ok(sp) => Ok(Some(Op::Jne(sp))),
        }
    } else if range_matches(s, m.0, m.1, "int") {
        match parse_src(s, src_piece) {
            Err(e) => Err(e),
            Ok(sp) => Ok(Some(Op::Int(sp))),
        }
    } else {
        Err(AsmErrorKind::UnknownMnemonic)
    }
}

/// Compiles mnemonic source text to its instruction words, one per
/// non-blank line, in source order, per `asm_spec`; or reports the first
/// failing line and why it failed.
#[verifier::rlimit(100)]
pub fn assembly(src: &str) -> (r: Result<Vec<u16>, AsmError>)
    ensures
        r matches Ok(v) ==> asm_spec(src@) == Ok::<Seq<u16>, (int, AsmErrorKind)>(v@),
        r matches Err(e) ==> asm_spec(src@) == Err::<Seq<u16>, (int, AsmErrorKind)>(
            (e.line as int, e.kind),
        ),
{
    let n: usize = src.unicode_len();
    let mut words: Vec<u16> = Vec::new();
    let mut line_start: usize = 0;
    let mut line_idx: usize = 0;
    let ghost lines = split_lines(src@);
    proof {
        lemma_split_lines_len(src@);
        assert(src@.subrange(0, n as int) =~= src@);
        assert(lines.subrange(0, lines.len() as int) =~= lines);
        match asm_lines_spec(lines, 0) {
            Ok(ws) => {
                assert(Seq::<u16>::empty() + ws =~= ws);
            },
            Err(e) => {},
        }
    }
    loop
        invariant
            line_start <= n,
            line_idx <= line_start,
            n == src@.len(),
            lines == split_lines(src@),
            line_idx < lines.len(),
            lines.subrange(line_idx as int, lines.len() as int) == split_lines(
                src@.subrange(line_start as int, n as int),
            ),
            asm_spec(src@) == (match asm_lines_spec(lines, line_idx as int) {
                Ok(ws) => Ok::<Seq<u16>, (int, AsmErrorKind)>(words@ + ws),
                Err(e) => Err::<Seq<u16>, (int, AsmErrorKind)>(e),
            }),
        decreases n - line_start,
    {
        let k: usize = find_char_from(src, line_start, n, '\n');
        let ghost rem = src@.subrange(line_start as int, n as int);
        proof {
            lemma_split_lines_step(rem, k - line_start);
            assert(rem.subrange(0, k - line_start) =~= src@.subrange(line_start as int, k as int));
            if k < n {
                let rest = src@.subrange(k + 1 as int, n as int);
                assert(rem.subrange(k - line_start + 1, rem.len() as int) =~= rest);
                let whole = lines.subrange(line_idx as int, lines.len() as int);
                assert(whole == seq![rem.subrange(0, k - line_start)] + split_lines(rest));
                assert(whole.len() == 1 + split_lines(rest).len());
                assert forall|j: int| 0 <= j < split_lines(rest).len() implies lines.subrange(
                    line_idx + 1 as int,
                    lines.len() as int,
                )[j] == split_lines(rest)[j] by {
                    assert(lines.subrange(line_idx + 1 as int, lines.len() as int)[j] == lines[
                        line_idx + 1 + j]);
                    assert(whole[j + 1] == lines[line_idx + 1 + j]);
                    assert(whole[j + 1] == split_lines(rest)[j]);
                }
                assert(lines.subrange(line_idx + 1 as int, lines.len() as int) =~= split_lines(
                    rest,
                ));
                lemma_split_lines_len(rest);
            }
            let tailseq = lines.subrange(line_idx as int, lines.len() as int);
            assert(tailseq[0] == lines[line_idx as int]);
            if k < n {
                assert(tailseq[0] == rem.subrange(0, k - line_start));
            } else {
                assert(tailseq[0] == rem);
            }
            assert(lines[line_idx as int] == src@.subrange(line_start as int, k as int));
        }
        let ghost prev_words = words@;
        match parse_line(src, line_start, k) {
            Err(kind) => {
                proof {
                    assert(asm_lines_spec(lines, line_idx as int) == Err::<
                        Seq<u16>,
                        (int, AsmErrorKind),
                    >((line_idx as int, kind)));
                }
                return Err(AsmError { line: line_idx, kind });
            },
            Ok(None) => {
                proof {
                    assert(asm_lines_spec(lines, line_idx as int) == asm_lines_spec(
                        lines,
                        line_idx + 1 as int,
                    ));
                    assert(asm_spec(src@) == (match asm_lines_spec(lines, line_idx + 1 as int) {
                        Ok(ws) => Ok::<Seq<u16>, (int, AsmErrorKind)>(words@ + ws),
                        Err(e) => Err::<Seq<u16>, (int, AsmErrorKind)>(e),
                    }));
                }
            },
            Ok(Some(op)) => {
                let w: u16 = op.encode();
                words.push(w);
                proof {
                    assert(words@ =~= prev_words + seq![encode_spec(op)]);
                    match asm_lines_spec(lines, line_idx + 1 as int) {
                        Ok(ws) => {
                            assert((prev_words + seq![encode_spec(op)]) + ws =~= prev_words + (
                            seq![encode_spec(op)] + ws));
                        },
                        Err(e) => {},
                    }
                    assert(asm_spec(src@) == (match asm_lines_spec(lines, line_idx + 1 as int) {
                        Ok(ws) => Ok::<Seq<u16>, (int, AsmErrorKind)>(words@ + ws),
                        Err(e) => Err::<Seq<u16>, (int, AsmErrorKind)>(e),
                    }));
                }
            },
        }
        if k == n {
            proof {
                assert(split_lines(rem) == seq![rem]);
                assert(lines.subrange(line_idx as int, lines.len() as int).len() == lines.len()
                    - line_idx);
                assert(seq![rem].len() == 1);
                assert(line_idx + 1 == lines.len());
                assert(asm_lines_spec(lines, line_idx + 1 as int) == Ok::<
                    Seq<u16>,
                    (int, AsmErrorKind),
                >(Seq::<u16>::empty()));
                assert(words@ + Seq::<u16>::empty() =~= words@);
            }
            return Ok(words);
        }
        line_start = k + 1;
        line_idx = line_idx + 1;
    }
}

} // verus!
