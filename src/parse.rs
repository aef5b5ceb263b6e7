//! The reader: source text to a sequence of values.
//!
//! The text is split into tokens by one regular expression, then the tokens
//! are assembled left to right by a stack machine: an open list or a pending
//! quote is a frame, and a finished value goes to the frame on top.
use crate::number::{parse_single, single_from_int, single_of_int, single_parse};
use crate::text::{chars_of, push_str, string_of};
use crate::value::{lemma_views, show, views, write_value, SVal, Value};
use vstd::prelude::*;
use vstd::string::StringSliceAdditionalSpecFns;

verus! {

/// Why source text could not be read.
#[derive(Clone, Copy, Debug, PartialEq, Eq, Structural)]
pub enum ParseError {
    /// A list was still open at the end of the text.
    UnclosedList,
    /// A closing delimiter stood where no list was open.
    InvalidListDelimitter,
    /// There was nothing to read.
    UnreadableSourceCode,
    /// A `#` literal held something other than hexadecimal digits.
    InvalidHexLiteral,
}

/// The outcome of reading one value.
pub type ParseResult = Result<Value, ParseError>;

/// The tokens, in order of priority: a string literal, a number, a symbol, a
/// delimiter, an operator, the quote prefix.
pub const TOKEN_PATTERN: &'static str = "\"[^\"]*\"|\\d+\\.?\\d*e?\\d*|[-!?#\\w\\.]+|[(){}\\[\\]]|\\+|-|\\*|/|\\^|&|\\||=|\\\\|<|>|'";

/// The successive non-overlapping leftmost-first matches of a pattern in a
/// text, or `None` when the pattern does not compile.
pub uninterp spec fn regex_find_all(pattern: Seq<char>, text: Seq<char>) -> Option<Seq<Seq<char>>>;

/// Relies on `regex::Regex::new` (an error for a pattern that does not
/// compile) and `Regex::find_iter`: the text of each successive
/// non-overlapping leftmost-first match.
#[verifier::external_body]
fn find_all(pattern: &str, text: &str) -> (r: Option<Vec<String>>)
    ensures
        match r {
            Some(v) => regex_find_all(pattern@, text@) == Some(crate::value::texts(v@)),
            None => regex_find_all(pattern@, text@) is None,
        },
{
    match regex::Regex::new(pattern) {
        Ok(re) => Some(re.find_iter(text).map(|m| m.as_str().to_string()).collect()),
        Err(_) => None,
    }
}

/// The text with a space on each side of every parenthesis, so that each is a
/// token of its own.
pub open spec fn spaced(s: Seq<char>) -> Seq<char>
    decreases s.len(),
{
    if s.len() == 0 {
        Seq::empty()
    } else {
        spaced(s.drop_last()) + if s.last() == '(' {
            seq![' ', '(', ' ']
        } else if s.last() == ')' {
            seq![' ', ')', ' ']
        } else {
            seq![s.last()]
        }
    }
}

/// The tokens of a source text.
pub open spec fn tokens_of(code: Seq<char>) -> Seq<Seq<char>> {
    match regex_find_all(TOKEN_PATTERN@, spaced(code)) {
        Some(t) => t,
        None => Seq::empty(),
    }
}

fn spaced_text(code: &str) -> (r: String)
    ensures
        r@ == spaced(code@),
{
    let c = chars_of(code);
    let mut out: Vec<char> = Vec::new();
    let mut i: usize = 0;
    while i < c.len()
        invariant
            i <= c@.len(),
            out@ == spaced(c@.subrange(0, i as int)),
        decreases c@.len() - i,
    {
        let ch = c[i];
        if ch == '(' || ch == ')' {
            out.push(' ');
            out.push(ch);
            out.push(' ');
        } else {
            out.push(ch);
        }
        assert(c@.subrange(0, i + 1).drop_last() =~= c@.subrange(0, i as int));
        i = i + 1;
        assert(out@ =~= spaced(c@.subrange(0, i as int)));
    }
    assert(c@.subrange(0, i as int) =~= code@);
    string_of(&out)
}

/// Splits source text into tokens.
pub fn tokenize(code: &str) -> (r: Vec<String>)
    ensures
        crate::value::texts(r@) == tokens_of(code@),
{
    let s = spaced_text(code);
    match find_all(TOKEN_PATTERN, s.as_str()) {
        Some(v) => v,
        None => {
            let v: Vec<String> = Vec::new();
            assert(crate::value::texts(v@) =~= Seq::<Seq<char>>::empty());
            v
        },
    }
}

/// The value of a hexadecimal digit.
pub open spec fn hex_digit(c: char) -> Option<nat> {
    if '0' <= c && c <= '9' {
        Some((c as nat - '0' as nat) as nat)
    } else if 'a' <= c && c <= 'f' {
        Some((c as nat - 'a' as nat + 10) as nat)
    } else if 'A' <= c && c <= 'F' {
        Some((c as nat - 'A' as nat + 10) as nat)
    } else {
        None
    }
}

/// The value of a string of hexadecimal digits, if every character is one.
pub open spec fn hex_value(s: Seq<char>) -> Option<nat>
    decreases s.len(),
{
    if s.len() == 0 {
        Some(0)
    } else {
        match (hex_value(s.drop_last()), hex_digit(s.last())) {
            (Some(v), Some(d)) => Some(v * 16 + d),
            _ => None,
        }
    }
}

/// The value of a hexadecimal literal after its `#`: an optional `+`, then at
/// least one digit, with a value that fits in 64 bits.
pub open spec fn hex_literal(s: Seq<char>) -> Option<nat> {
    let digits = if s.len() > 0 && s[0] == '+' { s.drop_first() } else { s };
    if digits.len() == 0 {
        None
    } else {
        match hex_value(digits) {
            Some(v) => if v <= u64::MAX { Some(v) } else { None },
            None => None,
        }
    }
}

/// A string literal's text with `\n`, `\t` and `\r` turned into the characters they name.
pub open spec fn unescape(s: Seq<char>) -> Seq<char>
    decreases s.len(),
{
    if s.len() == 0 {
        Seq::empty()
    } else if s.len() >= 2 && s[0] == '\\' && (s[1] == 'n' || s[1] == 't' || s[1] == 'r') {
        seq![if s[1] == 'n' { '\n' } else if s[1] == 't' { '\t' } else { '\r' }] + unescape(s.subrange(2, s.len() as int))
    } else {
        seq![s[0]] + unescape(s.drop_first())
    }
}

/// The text of a token written as a string literal, if it is one.
pub open spec fn string_literal(s: Seq<char>) -> Option<Seq<char>> {
    if s.len() >= 2 && s[0] == '"' && s.last() == '"' {
        Some(unescape(s.subrange(1, s.len() - 1)))
    } else {
        None
    }
}

/// The value of a token that is no delimiter: a hexadecimal literal, a
/// string literal, a number, or else a symbol. (A string literal holds double
/// quotes, which no number does, so the two never compete.)
pub open spec fn atom_of(t: Seq<char>) -> Result<SVal, ParseError> {
    if t.len() > 0 && t[0] == '#' {
        match hex_literal(t.drop_first()) {
            Some(v) => Ok(SVal::Number(single_of_int(v as int))),
            None => Err(ParseError::InvalidHexLiteral),
        }
    } else if string_literal(t) is Some {
        Ok(SVal::Str(string_literal(t)->Some_0))
    } else {
        match float_form(t) {
            FloatForm::Inf(neg) => Ok(SVal::Number(if neg { NEG_INFINITY_BITS } else { INFINITY_BITS })),
            FloatForm::Nan(neg) => Ok(SVal::Number(if neg { NEG_NAN_BITS } else { NAN_BITS })),
            FloatForm::Decimal => match single_parse(t) {
                Some(b) => Ok(SVal::Number(b)),
                None => Ok(SVal::Symbol(t)),
            },
            FloatForm::NotFloat => Ok(SVal::Symbol(t)),
        }
    }
}

/// The bit patterns of the infinities and of the NaNs that the reader makes.
pub const INFINITY_BITS: u32 = 0x7f80_0000;
pub const NEG_INFINITY_BITS: u32 = 0xff80_0000;
pub const NAN_BITS: u32 = 0x7fc0_0000;
pub const NEG_NAN_BITS: u32 = 0xffc0_0000;

/// How a token fits the grammar of Rust's float literals (`f32::from_str`):
/// an optional sign, then `inf`, `infinity` or `nan` in any case, or decimal
/// digits with at most one point and an optional exponent.
#[derive(Clone, Copy, Debug, PartialEq, Eq, Structural)]
pub enum FloatForm {
    Inf(bool),
    Nan(bool),
    Decimal,
    NotFloat,
}

pub open spec fn is_digit(c: char) -> bool {
    '0' <= c && c <= '9'
}

/// The end of the run of digits that starts at `i`.
pub open spec fn digits_end(s: Seq<char>, i: int) -> int
    decreases s.len() - i,
{
    if i < 0 || i >= s.len() || !is_digit(s[i]) {
        i
    } else {
        digits_end(s, i + 1)
    }
}

/// Whether a text is a word, letter by letter in either case.
pub open spec fn word_either_case(s: Seq<char>, lower: Seq<char>, upper: Seq<char>) -> bool {
    s.len() == lower.len() && lower.len() == upper.len()
        && forall|i: int| 0 <= i < s.len() ==> #[trigger] s[i] == lower[i] || s[i] == upper[i]
}

/// Whether a text, without its sign, is a decimal number: digits with at most
/// one point (at least one digit in all), then optionally `e` or `E`, a sign
/// and at least one digit.
pub open spec fn decimal_number(s: Seq<char>) -> bool {
    let a = digits_end(s, 0);
    let b = if a < s.len() && s[a] == '.' { digits_end(s, a + 1) } else { a };
    let count = if a < s.len() && s[a] == '.' { b - 1 } else { b };
    if count < 1 {
        false
    } else if b >= s.len() {
        true
    } else if s[b] == 'e' || s[b] == 'E' {
        let c = if b + 1 < s.len() && (s[b + 1] == '+' || s[b + 1] == '-') { b + 2 } else { b + 1 };
        digits_end(s, c) > c && digits_end(s, c) == s.len()
    } else {
        false
    }
}

/// How a token fits the grammar of float literals.
pub open spec fn float_form(t: Seq<char>) -> FloatForm {
    let neg = t.len() > 0 && t[0] == '-';
    let body = if t.len() > 0 && (t[0] == '+' || t[0] == '-') { t.drop_first() } else { t };
    if word_either_case(body, seq!['i', 'n', 'f'], seq!['I', 'N', 'F'])
        || word_either_case(body, seq!['i', 'n', 'f', 'i', 'n', 'i', 't', 'y'], seq!['I', 'N', 'F', 'I', 'N', 'I', 'T', 'Y']) {
        FloatForm::Inf(neg)
    } else if word_either_case(body, seq!['n', 'a', 'n'], seq!['N', 'A', 'N']) {
        FloatForm::Nan(neg)
    } else if decimal_number(body) {
        FloatForm::Decimal
    } else {
        FloatForm::NotFloat
    }
}

/// A frame of the assembly stack: an open list (its closing delimiter is `}`
/// when `quoted`) with the values read so far, or a quote waiting for its value.
pub enum FrameV {
    Open(bool, Seq<SVal>),
    Quoted,
}

/// What the assembler holds: the finished top-level values and the stack.
pub struct ReaderV {
    pub done: Seq<SVal>,
    pub stack: Seq<FrameV>,
}

/// Hands a finished value to the frame on top: a pending quote wraps it and
/// passes it on, an open list takes it, and with no frame it is finished.
pub open spec fn complete(st: ReaderV, v: SVal) -> ReaderV
    decreases st.stack.len(),
{
    if st.stack.len() == 0 {
        ReaderV { done: st.done.push(v), stack: st.stack }
    } else {
        match st.stack.last() {
            FrameV::Quoted => complete(ReaderV { done: st.done, stack: st.stack.drop_last() }, SVal::Quote(Box::new(v))),
            FrameV::Open(q, items) => ReaderV {
                done: st.done,
                stack: st.stack.update(st.stack.len() - 1, FrameV::Open(q, items.push(v))),
            },
        }
    }
}

/// Reads one token.
pub open spec fn step(st: ReaderV, t: Seq<char>) -> Result<ReaderV, ParseError> {
    if t == seq!['('] {
        Ok(ReaderV { done: st.done, stack: st.stack.push(FrameV::Open(false, Seq::empty())) })
    } else if t == seq!['{'] {
        Ok(ReaderV { done: st.done, stack: st.stack.push(FrameV::Open(true, Seq::empty())) })
    } else if t == seq![')'] || t == seq!['}'] {
        let quoted = t == seq!['}'];
        if st.stack.len() > 0 && st.stack.last() is Open && st.stack.last()->Open_0 == quoted {
            let items = SVal::List(st.stack.last()->Open_1);
            let rest = ReaderV { done: st.done, stack: st.stack.drop_last() };
            Ok(complete(rest, if quoted { SVal::Quote(Box::new(items)) } else { items }))
        } else {
            Err(ParseError::InvalidListDelimitter)
        }
    } else if t == seq!['\''] {
        Ok(ReaderV { done: st.done, stack: st.stack.push(FrameV::Quoted) })
    } else {
        match atom_of(t) {
            Ok(v) => Ok(complete(st, v)),
            Err(e) => Err(e),
        }
    }
}

/// Reads the tokens from position `i` on.
pub open spec fn run(toks: Seq<Seq<char>>, i: int, st: ReaderV) -> Result<ReaderV, ParseError>
    decreases toks.len() - i,
{
    if i < 0 || i >= toks.len() {
        Ok(st)
    } else {
        match step(st, toks[i]) {
            Ok(st1) => run(toks, i + 1, st1),
            Err(e) => Err(e),
        }
    }
}

/// The values that a sequence of tokens reads as.
pub open spec fn read_tokens(toks: Seq<Seq<char>>) -> Result<Seq<SVal>, ParseError> {
    if toks.len() == 0 {
        Err(ParseError::UnreadableSourceCode)
    } else {
        match run(toks, 0, ReaderV { done: Seq::empty(), stack: Seq::empty() }) {
            Err(e) => Err(e),
            Ok(st) => if st.stack.len() == 0 {
                Ok(st.done)
            } else if st.stack.last() is Quoted {
                Err(ParseError::UnreadableSourceCode)
            } else {
                Err(ParseError::UnclosedList)
            },
        }
    }
}

/// The values that a source text reads as.
pub open spec fn read_source(code: Seq<char>) -> Result<Seq<SVal>, ParseError> {
    read_tokens(tokens_of(code))
}


/// A frame of the assembly stack.
pub enum Frame {
    /// An open list, closed by `}` when the flag is set, and its values so far.
    Open(bool, Vec<Value>),
    /// A quote waiting for its value.
    Quoted,
}

pub open spec fn frame_view(f: Frame) -> FrameV {
    match f {
        Frame::Open(q, items) => FrameV::Open(q, views(items@)),
        Frame::Quoted => FrameV::Quoted,
    }
}

pub open spec fn frames_view(s: Seq<Frame>) -> Seq<FrameV> {
    s.map_values(|f: Frame| frame_view(f))
}

pub open spec fn reader_view(done: Seq<Value>, stack: Seq<Frame>) -> ReaderV {
    ReaderV { done: views(done), stack: frames_view(stack) }
}

/// Hands a finished value to the frame on top of the stack.
fn complete_exec(done: &mut Vec<Value>, stack: &mut Vec<Frame>, v: Value)
    ensures
        reader_view(final(done)@, final(stack)@) == complete(reader_view(old(done)@, old(stack)@), v@),
    decreases old(stack)@.len(),
{
    let n = stack.len();
    if n == 0 {
        proof {
            crate::eval::lemma_views_push(done@, v);
        }
        done.push(v);
        return;
    }
    let ghost before = stack@;
    match stack.pop() {
        Some(Frame::Quoted) => {
            assert(frames_view(stack@) =~= frames_view(before).drop_last());
            complete_exec(done, stack, Value::Quote(Box::new(v)));
        },
        Some(Frame::Open(q, mut items)) => {
            proof {
                crate::eval::lemma_views_push(items@, v);
            }
            items.push(v);
            stack.push(Frame::Open(q, items));
            assert(frames_view(stack@) =~= frames_view(before).update(n - 1, FrameV::Open(q, views(old(stack)@[n - 1]->Open_1@).push(v@))));
        },
        None => {},
    }
}

/// Whether a token is exactly one given character.
fn is_char_token(t: &Vec<char>, c: char) -> (r: bool)
    ensures
        r == (t@ == seq![c]),
{
    if t.len() == 1 && t[0] == c {
        assert(t@ =~= seq![c]);
        true
    } else {
        false
    }
}

/// Each prefix of a string of hexadecimal digits has a value no greater than the whole.
proof fn lemma_hex_prefix(s: Seq<char>, k: int)
    requires
        0 <= k <= s.len(),
        hex_value(s) is Some,
    ensures
        hex_value(s.subrange(0, k)) is Some,
        hex_value(s.subrange(0, k))->Some_0 <= hex_value(s)->Some_0,
    decreases s.len(),
{
    if k == s.len() {
        assert(s.subrange(0, k) =~= s);
    } else {
        assert(s.subrange(0, k) =~= s.drop_last().subrange(0, k));
        lemma_hex_prefix(s.drop_last(), k);
    }
}

/// The value of a hexadecimal literal after its `#`.
fn hex_literal_value(c: &Vec<char>) -> (r: Option<u64>)
    requires
        c@.len() >= 1,
    ensures
        match r {
            Some(v) => hex_literal(c@.drop_first()) == Some(v as nat),
            None => hex_literal(c@.drop_first()) is None,
        },
{
    let ghost s = c@.drop_first();
    let start: usize = if c.len() > 1 && c[1] == '+' { 2 } else { 1 };
    let ghost digits = c@.subrange(start as int, c@.len() as int);
    assert(digits =~= (if s.len() > 0 && s[0] == '+' { s.drop_first() } else { s }));
    if start >= c.len() {
        return None;
    }
    let mut acc: u64 = 0;
    let mut i: usize = start;
    assert(digits.subrange(0, 0) =~= Seq::<char>::empty());
    while i < c.len()
        invariant
            start <= i <= c@.len(),
            digits == c@.subrange(start as int, c@.len() as int),
            hex_value(digits.subrange(0, i - start)) == Some(acc as nat),
            s == c@.drop_first(),
            digits == (if s.len() > 0 && s[0] == '+' { s.drop_first() } else { s }),
            digits.len() > 0,
        decreases c@.len() - i,
    {
        let ch = c[i];
        let d: u64 = if '0' <= ch && ch <= '9' {
            (ch as u64) - ('0' as u64)
        } else if 'a' <= ch && ch <= 'f' {
            (ch as u64) - ('a' as u64) + 10
        } else if 'A' <= ch && ch <= 'F' {
            (ch as u64) - ('A' as u64) + 10
        } else {
            proof {
                let p = digits.subrange(0, i - start + 1);
                assert(p.drop_last() =~= digits.subrange(0, i - start));
                assert(p.last() == ch);
                assert(hex_digit(ch) is None);
                assert(hex_value(p) is None);
                if hex_value(digits) is Some {
                    lemma_hex_prefix(digits, i - start + 1);
                }
                assert(hex_value(digits) is None);
                assert(hex_literal(s) is None);
            }
            return None;
        };
        let ghost p = digits.subrange(0, i - start + 1);
        assert(p.drop_last() =~= digits.subrange(0, i - start));
        assert(p.last() == ch);
        assert(hex_digit(ch) == Some(d as nat));
        if acc > (u64::MAX - d) / 16 {
            proof {
                assert(hex_value(p) == Some((acc * 16 + d) as nat));
                assert(acc * 16 + d > u64::MAX) by (nonlinear_arith)
                    requires acc > (u64::MAX - d) / 16, d < 16;
                if hex_value(digits) is Some {
                    lemma_hex_prefix(digits, i - start + 1);
                }
            }
            return None;
        }
        assert(acc * 16 + d <= u64::MAX) by (nonlinear_arith)
            requires acc <= (u64::MAX - d) / 16, d < 16;
        acc = acc * 16 + d;
        i = i + 1;
    }
    assert(digits.subrange(0, i - start) =~= digits);
    Some(acc)
}

/// The text of a token written as a string literal, with its escapes
/// expanded; `None` for any other token.
pub fn string_lit(slice: &str) -> (r: Option<String>)
    ensures
        match r {
            Some(s) => string_literal(slice@) == Some(s@),
            None => string_literal(slice@) is None,
        },
{
    let c = chars_of(slice);
    let n = c.len();
    if n < 2 || c[0] != '"' || c[n - 1] != '"' {
        return None;
    }
    let ghost inner = c@.subrange(1, n - 1);
    let mut out: Vec<char> = Vec::new();
    let mut j: usize = 1;
    assert(inner.subrange(0, inner.len() as int) =~= inner);
    while j < n - 1
        invariant
            n == c@.len(),
            n >= 2,
            1 <= j <= n - 1,
            inner == c@.subrange(1, n - 1),
            unescape(inner) == out@ + unescape(c@.subrange(j as int, n - 1)),
        decreases n - 1 - j,
    {
        let ghost rest = c@.subrange(j as int, n - 1);
        if j + 1 < n - 1 && c[j] == '\\' && (c[j + 1] == 'n' || c[j + 1] == 't' || c[j + 1] == 'r') {
            let e = c[j + 1];
            let ch = if e == 'n' { '\n' } else if e == 't' { '\t' } else { '\r' };
            assert(rest.subrange(2, rest.len() as int) =~= c@.subrange(j + 2, n - 1));
            out.push(ch);
            j = j + 2;
        } else {
            assert(rest.drop_first() =~= c@.subrange(j + 1, n - 1));
            out.push(c[j]);
            j = j + 1;
        }
        assert(unescape(inner) =~= out@ + unescape(c@.subrange(j as int, n - 1)));
    }
    assert(out@ =~= out@ + unescape(c@.subrange(j as int, n - 1)));
    Some(string_of(&out))
}

/// The end of the run of digits that starts at `i`.
fn digits_end_exec(s: &Vec<char>, i: usize) -> (r: usize)
    requires
        i <= s@.len(),
    ensures
        r as int == digits_end(s@, i as int),
        i <= r <= s@.len(),
{
    let mut j = i;
    while j < s.len() && '0' <= s[j] && s[j] <= '9'
        invariant
            i <= j <= s@.len(),
            digits_end(s@, i as int) == digits_end(s@, j as int),
        decreases s@.len() - j,
    {
        j = j + 1;
    }
    j
}

/// Whether `s[from..]` is a word, letter by letter in either case.
fn word_at(s: &Vec<char>, from: usize, lower: &Vec<char>, upper: &Vec<char>) -> (r: bool)
    requires
        from <= s@.len(),
    ensures
        r == word_either_case(s@.subrange(from as int, s@.len() as int), lower@, upper@),
{
    let n = s.len() - from;
    if n != lower.len() || lower.len() != upper.len() {
        return false;
    }
    let ghost body = s@.subrange(from as int, s@.len() as int);
    let mut i: usize = 0;
    while i < n
        invariant
            n as int == s@.len() - from,
            s@.len() == s.len(),
            n == lower@.len(),
            n == upper@.len(),
            from <= s@.len(),
            body == s@.subrange(from as int, s@.len() as int),
            i <= n,
            forall|j: int| 0 <= j < i ==> #[trigger] body[j] == lower@[j] || body[j] == upper@[j],
        decreases n - i,
    {
        assert(from + i < s@.len());
        let c = s[from + i];
        if c != lower[i] && c != upper[i] {
            assert(body[i as int] == c);
            return false;
        }
        i = i + 1;
    }
    true
}

/// How a token fits the grammar of float literals.
fn float_form_of(t: &Vec<char>) -> (r: FloatForm)
    ensures
        r == float_form(t@),
{
    let neg = t.len() > 0 && t[0] == '-';
    let from: usize = if t.len() > 0 && (t[0] == '+' || t[0] == '-') { 1 } else { 0 };
    let ghost body = if t@.len() > 0 && (t@[0] == '+' || t@[0] == '-') { t@.drop_first() } else { t@ };
    assert(body =~= t@.subrange(from as int, t@.len() as int));
    let inf_l = vec!['i', 'n', 'f'];
    let inf_u = vec!['I', 'N', 'F'];
    let infinity_l = vec!['i', 'n', 'f', 'i', 'n', 'i', 't', 'y'];
    let infinity_u = vec!['I', 'N', 'F', 'I', 'N', 'I', 'T', 'Y'];
    let nan_l = vec!['n', 'a', 'n'];
    let nan_u = vec!['N', 'A', 'N'];
    assert(inf_l@ == seq!['i', 'n', 'f'] && inf_u@ == seq!['I', 'N', 'F']);
    assert(infinity_l@ == seq!['i', 'n', 'f', 'i', 'n', 'i', 't', 'y']);
    assert(infinity_u@ == seq!['I', 'N', 'F', 'I', 'N', 'I', 'T', 'Y']);
    assert(nan_l@ == seq!['n', 'a', 'n'] && nan_u@ == seq!['N', 'A', 'N']);
    if word_at(t, from, &inf_l, &inf_u) || word_at(t, from, &infinity_l, &infinity_u) {
        return FloatForm::Inf(neg);
    }
    if word_at(t, from, &nan_l, &nan_u) {
        return FloatForm::Nan(neg);
    }
    let mut b: Vec<char> = Vec::new();
    let mut k = from;
    while k < t.len()
        invariant
            from <= k <= t@.len(),
            b@ == t@.subrange(from as int, k as int),
        decreases t@.len() - k,
    {
        b.push(t[k]);
        k = k + 1;
        assert(b@ =~= t@.subrange(from as int, k as int));
    }
    assert(b@ =~= body);
    if decimal_number_exec(&b) {
        FloatForm::Decimal
    } else {
        FloatForm::NotFloat
    }
}

/// Whether a text is a decimal number in the sense of `decimal_number`.
fn decimal_number_exec(s: &Vec<char>) -> (r: bool)
    ensures
        r == decimal_number(s@),
{
    let a = digits_end_exec(s, 0);
    let dot = a < s.len() && s[a] == '.';
    let b = if dot { digits_end_exec(s, a + 1) } else { a };
    let count: usize = if dot { b - 1 } else { b };
    if count < 1 {
        return false;
    }
    if b >= s.len() {
        return true;
    }
    if s[b] == 'e' || s[b] == 'E' {
        let c: usize = if b + 1 < s.len() && (s[b + 1] == '+' || s[b + 1] == '-') { b + 2 } else { b + 1 };
        let d = digits_end_exec(s, c);
        d > c && d == s.len()
    } else {
        false
    }
}

/// The value of a token that is no delimiter.
pub(crate) fn parse_atom(atom: String) -> (r: Result<Value, ParseError>)
    ensures
        match r {
            Ok(v) => atom_of(atom@) == Ok::<SVal, ParseError>(v@),
            Err(e) => atom_of(atom@) == Err::<SVal, ParseError>(e),
        },
{
    let c = chars_of(atom.as_str());
    if c.len() > 0 && c[0] == '#' {
        return match hex_literal_value(&c) {
            Some(n) => Ok(Value::Number(single_from_int(n as i128))),
            None => Err(ParseError::InvalidHexLiteral),
        };
    }
    match string_lit(atom.as_str()) {
        Some(s) => Ok(Value::String(s)),
        None => match float_form_of(&c) {
            FloatForm::Inf(neg) => Ok(Value::Number(if neg { NEG_INFINITY_BITS } else { INFINITY_BITS })),
            FloatForm::Nan(neg) => Ok(Value::Number(if neg { NEG_NAN_BITS } else { NAN_BITS })),
            FloatForm::Decimal => match parse_single(atom.as_str()) {
                Some(b) => Ok(Value::Number(b)),
                None => Ok(Value::Symbol(atom)),
            },
            FloatForm::NotFloat => Ok(Value::Symbol(atom)),
        },
    }
}

/// Reads one token into the assembler.
fn step_exec(done: &mut Vec<Value>, stack: &mut Vec<Frame>, t: &String) -> (r: Result<(), ParseError>)
    ensures
        match r {
            Ok(_) => step(reader_view(old(done)@, old(stack)@), t@) == Ok::<ReaderV, ParseError>(reader_view(final(done)@, final(stack)@)),
            Err(e) => step(reader_view(old(done)@, old(stack)@), t@) == Err::<ReaderV, ParseError>(e),
        },
{
    let c = chars_of(t.as_str());
    if is_char_token(&c, '(') || is_char_token(&c, '{') {
        let q = is_char_token(&c, '{');
        stack.push(Frame::Open(q, Vec::new()));
        proof {
            assert(views(Seq::<Value>::empty()) =~= Seq::<SVal>::empty());
            assert(frames_view(stack@) =~= frames_view(old(stack)@).push(FrameV::Open(q, Seq::empty())));
        }
        return Ok(());
    }
    if is_char_token(&c, ')') || is_char_token(&c, '}') {
        let quoted = is_char_token(&c, '}');
        let n = stack.len();
        let ghost before = stack@;
        let fits = n > 0 && match &stack[n - 1] {
            Frame::Open(q, _) => *q == quoted,
            Frame::Quoted => false,
        };
        if !fits {
            return Err(ParseError::InvalidListDelimitter);
        }
        match stack.pop() {
            Some(Frame::Open(q0, items)) => {
                assert(frames_view(stack@) =~= frames_view(before).drop_last());
                assert(frames_view(before).last() == FrameV::Open(q0, views(items@)));
                let ghost iv = views(items@);
                let lv = Value::List(items);
                assert(lv@ == SVal::List(iv));
                let v = if quoted { Value::Quote(Box::new(lv)) } else { lv };
                complete_exec(done, stack, v);
            },
            _ => {},
        }
        return Ok(());
    }
    if is_char_token(&c, '\'') {
        stack.push(Frame::Quoted);
        assert(frames_view(stack@) =~= frames_view(old(stack)@).push(FrameV::Quoted));
        return Ok(());
    }
    match parse_atom(t.clone()) {
        Ok(v) => {
            complete_exec(done, stack, v);
            Ok(())
        },
        Err(e) => Err(e),
    }
}

/// Assembles tokens into the values they read as.
pub fn parse_tokens(tokens: &Vec<String>) -> (r: Result<Vec<Value>, ParseError>)
    ensures
        match r {
            Ok(v) => read_tokens(crate::value::texts(tokens@)) == Ok::<Seq<SVal>, ParseError>(views(v@)),
            Err(e) => read_tokens(crate::value::texts(tokens@)) == Err::<Seq<SVal>, ParseError>(e),
        },
{
    let ghost toks = crate::value::texts(tokens@);
    if tokens.len() == 0 {
        return Err(ParseError::UnreadableSourceCode);
    }
    let mut done: Vec<Value> = Vec::new();
    let mut stack: Vec<Frame> = Vec::new();
    assert(views(done@) =~= Seq::<SVal>::empty());
    assert(frames_view(stack@) =~= Seq::<FrameV>::empty());
    let mut i: usize = 0;
    while i < tokens.len()
        invariant
            i <= tokens@.len(),
            toks == crate::value::texts(tokens@),
            run(toks, 0, ReaderV { done: Seq::empty(), stack: Seq::empty() }) == run(toks, i as int, reader_view(done@, stack@)),
        decreases tokens@.len() - i,
    {
        match step_exec(&mut done, &mut stack, &tokens[i]) {
            Ok(_) => {},
            Err(e) => return Err(e),
        }
        i = i + 1;
    }
    let n = stack.len();
    if n == 0 {
        return Ok(done);
    }
    match &stack[n - 1] {
        Frame::Quoted => Err(ParseError::UnreadableSourceCode),
        Frame::Open(_, _) => Err(ParseError::UnclosedList),
    }
}

/// Reads every form of a source text, in order.
pub fn parse_str(code: &str) -> (r: Result<Vec<Value>, ParseError>)
    ensures
        match r {
            Ok(v) => read_source(code@) == Ok::<Seq<SVal>, ParseError>(views(v@)),
            Err(e) => read_source(code@) == Err::<Seq<SVal>, ParseError>(e),
        },
{
    let tokens = tokenize(code);
    parse_tokens(&tokens)
}

/// The number of newline bytes in a byte sequence.
pub open spec fn newlines(b: Seq<u8>) -> nat
    decreases b.len(),
{
    if b.len() == 0 {
        0
    } else {
        newlines(b.drop_last()) + if b.last() == 10u8 { 1nat } else { 0nat }
    }
}

/// A position in source text.
#[derive(Debug, Clone, Copy)]
pub struct FilePos {
    pub line: usize,
    pub col: usize,
}

impl FilePos {
    /// The position of a byte offset: its line, counting from 1, and column 0.
    pub fn from_offset(text: &str, offset: usize) -> (r: FilePos)
        requires
            text.spec_bytes().len() < usize::MAX,
        ensures
            r.line == 1 + newlines(text.spec_bytes().subrange(0, if offset < text.spec_bytes().len() { offset as int } else { text.spec_bytes().len() as int })),
            r.col == 0,
    {
        let b = text.as_bytes();
        let end = if offset < b.len() { offset } else { b.len() };
        let mut line: usize = 1;
        let mut i: usize = 0;
        assert(b@.subrange(0, 0) =~= Seq::<u8>::empty());
        while i < end
            invariant
                end <= b@.len(),
                b@.len() < usize::MAX,
                i <= end,
                line == 1 + newlines(b@.subrange(0, i as int)),
                line <= i + 1,
            decreases end - i,
        {
            assert(b@.subrange(0, i + 1).drop_last() =~= b@.subrange(0, i as int));
            if b[i] == 10u8 {
                line = line + 1;
            }
            i = i + 1;
        }
        FilePos { line, col: 0 }
    }
}

/// The written forms of values.
pub open spec fn shows(s: Seq<SVal>) -> Seq<Seq<char>> {
    s.map_values(|v: SVal| show(v))
}

/// The written forms of values between `start` and `end`, separated by `sep`.
pub fn write_list(list: &Vec<Value>, start: &str, sep: &str, end: &str) -> (r: String)
    ensures
        r@ == start@ + crate::value::joined(shows(views(list@)), sep@) + end@,
{
    proof {
        lemma_views(list@);
    }
    let mut out: Vec<char> = Vec::new();
    push_str(&mut out, start);
    let ghost s0 = out@;
    let mut i: usize = 0;
    while i < list.len()
        invariant
            i <= list@.len(),
            views(list@).len() == list@.len(),
            forall|j: int| 0 <= j < list@.len() ==> #[trigger] views(list@)[j] == list@[j]@,
            out@ == s0 + crate::value::joined(shows(views(list@)).subrange(0, i as int), sep@),
        decreases list@.len() - i,
    {
        if i > 0 {
            push_str(&mut out, sep);
        }
        write_value(&mut out, &list[i]);
        proof {
            let t = shows(views(list@)).subrange(0, i + 1);
            assert(t.drop_last() =~= shows(views(list@)).subrange(0, i as int));
            assert(t.last() == show(list@[i as int]@));
            if i == 0 {
                assert(t.len() == 1);
            }
        }
        i = i + 1;
        assert(out@ =~= s0 + crate::value::joined(shows(views(list@)).subrange(0, i as int), sep@));
    }
    assert(shows(views(list@)).subrange(0, list@.len() as int) =~= shows(views(list@)));
    push_str(&mut out, end);
    string_of(&out)
}
} // verus!
