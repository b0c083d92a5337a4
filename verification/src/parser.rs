//! The line tokenizer: splits one line of input into resolved tokens
//! according to the quoting and escaping rules below, tracking byte offsets
//! for diagnostics.
//!
//! A token boundary is decided by the next unconsumed character:
//! - `'` opens a single-quoted group: everything up to the next unescaped
//!   `'` is taken verbatim, except that `\'` resolves to `'`; any other
//!   escaped character keeps its backslash.
//! - `"` opens a double-quoted group: `\"` and `\\` resolve to the bare
//!   character; any other escaped character keeps its backslash.
//! - `\` outside quotes takes the single following character literally as a
//!   one-character token (empty if the input ends right after it).
//! - a run of spaces becomes a single separator marker, a token flagged
//!   as a separator (its text is the conventional single space).
//! - `\n` ends the token sequence.
//! - anything else starts a bare word, ended by the next space, `\` or `"`.
//!
//! An unterminated quote yields a [`ParseError`]; tokens produced before the
//! error remain valid.

use crate::text::push_char;
use vstd::prelude::*;
use vstd::string::StrSliceExecFns;
use vstd::string::StringExecFns;
use vstd::utf8::encode_scalar;
use vstd::utf8::encode_utf8;

verus! {

/// Which kind of quote a [`ParseError`] is about.
#[derive(Clone, Copy, Debug, PartialEq, Eq, Structural)]
pub enum QuoteKind {
    Single,
    Double,
}

/// An unterminated quote: the tokenizer reached the end of the input while
/// inside a quoted group. `offset` is the byte offset at which consumption
/// stopped, always the byte length of the input and always at or after the
/// opening quote.
#[derive(Clone, Copy, Debug, PartialEq, Eq, Structural)]
pub struct ParseError {
    pub kind: QuoteKind,
    pub offset: usize,
}

/// The diagnostic text for an unterminated quote, naming the kind of
/// quote and the byte offset at which consumption stopped.
pub open spec fn message_spec(kind: QuoteKind, offset: nat) -> Seq<char> {
    (match kind {
        QuoteKind::Single => "Unclosed single quote at position "@,
        QuoteKind::Double => "Unclosed double quote at position "@,
    }) + crate::text::dec_digits(offset)
}

impl ParseError {
    /// The human-readable description of this error.
    pub fn message(&self) -> (r: String)
        ensures
            r@ == message_spec(self.kind, self.offset as nat),
    {
        let mut r = match self.kind {
            QuoteKind::Single => "Unclosed single quote at position ".to_owned(),
            QuoteKind::Double => "Unclosed double quote at position ".to_owned(),
        };
        let digits = crate::text::render_usize(self.offset);
        r.append(digits.as_str());
        r
    }
}

/// The number of bytes of the UTF-8 encoding of a character sequence.
pub open spec fn byte_len(s: Seq<char>) -> nat {
    encode_utf8(s).len()
}

/// Scans a single-quoted group starting at `i` (just past the opening `'`).
/// Returns the resolved content and the index just past the closing quote,
/// or `None` when the input ends before an unescaped closing quote.
/// `esc` records whether the previous character was an unconsumed backslash.
pub open spec fn sq_scan(s: Seq<char>, i: int, esc: bool) -> Option<(Seq<char>, int)>
    decreases s.len() - i,
{
    if i < 0 || i >= s.len() {
        None
    } else if esc {
        let emitted: Seq<char> = if s[i] == '\'' {
            seq!['\'']
        } else {
            seq!['\\', s[i]]
        };
        match sq_scan(s, i + 1, false) {
            Some(t) => Some((emitted + t.0, t.1)),
            None => None,
        }
    } else if s[i] == '\'' {
        Some((Seq::empty(), i + 1))
    } else if s[i] == '\\' {
        sq_scan(s, i + 1, true)
    } else {
        match sq_scan(s, i + 1, false) {
            Some(t) => Some((seq![s[i]] + t.0, t.1)),
            None => None,
        }
    }
}

/// Scans a double-quoted group starting at `i` (just past the opening `"`).
/// `\"` and `\\` resolve to the bare character; any other escaped character
/// keeps its backslash.
pub open spec fn dq_scan(s: Seq<char>, i: int, esc: bool) -> Option<(Seq<char>, int)>
    decreases s.len() - i,
{
    if i < 0 || i >= s.len() {
        None
    } else if esc {
        let emitted: Seq<char> = if s[i] == '"' || s[i] == '\\' {
            seq![s[i]]
        } else {
            seq!['\\', s[i]]
        };
        match dq_scan(s, i + 1, false) {
            Some(t) => Some((emitted + t.0, t.1)),
            None => None,
        }
    } else if s[i] == '"' {
        Some((Seq::empty(), i + 1))
    } else if s[i] == '\\' {
        dq_scan(s, i + 1, true)
    } else {
        match dq_scan(s, i + 1, false) {
            Some(t) => Some((seq![s[i]] + t.0, t.1)),
            None => None,
        }
    }
}

/// The index of the first character at or after `i` that is not a space.
pub open spec fn space_run_end(s: Seq<char>, i: int) -> int
    decreases s.len() - i,
{
    if i < 0 || i >= s.len() {
        s.len() as int
    } else if s[i] == ' ' {
        space_run_end(s, i + 1)
    } else {
        i
    }
}

/// True for the characters that end a bare (unquoted) word.
pub open spec fn is_bare_stop(c: char) -> bool {
    c == ' ' || c == '\\' || c == '"'
}

/// The index of the first character at or after `i` that ends a bare word.
pub open spec fn bare_run_end(s: Seq<char>, i: int) -> int
    decreases s.len() - i,
{
    if i < 0 || i >= s.len() {
        s.len() as int
    } else if is_bare_stop(s[i]) {
        i
    } else {
        bare_run_end(s, i + 1)
    }
}

/// One resolved token of a line. `sep` tells how it arose: `true` for the
/// separator marker that stands for a run of spaces between tokens (its
/// text is the conventional single space), `false` for a content token —
/// a bare word, a quoted group, or an escaped character, even when its
/// resolved text happens to be a space. Callers drop markers, never
/// content, so an escaped or quoted space stays an argument.
#[derive(Debug, Clone, PartialEq, Eq)]
pub struct Token {
    pub text: String,
    pub sep: bool,
}

impl DeepView for Token {
    type V = (Seq<char>, bool);

    open spec fn deep_view(&self) -> (Seq<char>, bool) {
        (self.text@, self.sep)
    }
}

/// What one tokenizer step does at index `i` of the input: ends the
/// sequence, emits a token (its resolved text, whether it is a separator
/// marker, and the next cursor) or fails on an unterminated quote
/// (consuming the rest of the input).
pub enum TokenStep {
    Done,
    Emit { value: Seq<char>, sep: bool, next: int },
    Unclosed { kind: QuoteKind, start: int },
}

/// The tokenizer state machine, one step: what the token starting at index
/// `i` of `s` resolves to, and where the next one starts.
pub open spec fn token_step(s: Seq<char>, i: int) -> TokenStep {
    if i < 0 || i >= s.len() {
        TokenStep::Done
    } else if s[i] == '\n' {
        TokenStep::Done
    } else if s[i] == '\'' {
        match sq_scan(s, i + 1, false) {
            Some(t) => TokenStep::Emit { value: t.0, sep: false, next: t.1 },
            None => TokenStep::Unclosed { kind: QuoteKind::Single, start: i },
        }
    } else if s[i] == '"' {
        match dq_scan(s, i + 1, false) {
            Some(t) => TokenStep::Emit { value: t.0, sep: false, next: t.1 },
            None => TokenStep::Unclosed { kind: QuoteKind::Double, start: i },
        }
    } else if s[i] == '\\' {
        if i + 1 < s.len() {
            TokenStep::Emit { value: seq![s[i + 1]], sep: false, next: i + 2 }
        } else {
            TokenStep::Emit { value: Seq::empty(), sep: false, next: i + 1 }
        }
    } else if s[i] == ' ' {
        TokenStep::Emit { value: seq![' '], sep: true, next: space_run_end(s, i) }
    } else {
        TokenStep::Emit { value: s.subrange(i, bare_run_end(s, i)), sep: false, next: bare_run_end(s, i) }
    }
}

/// A successful single-quote scan stays inside the input and past `i`.
pub proof fn lemma_sq_scan_bounds(s: Seq<char>, i: int, esc: bool)
    ensures
        sq_scan(s, i, esc) matches Some(t) ==> i < t.1 <= s.len(),
    decreases s.len() - i,
{
    if 0 <= i < s.len() {
        lemma_sq_scan_bounds(s, i + 1, false);
        lemma_sq_scan_bounds(s, i + 1, true);
    }
}

/// A successful double-quote scan stays inside the input and past `i`.
pub proof fn lemma_dq_scan_bounds(s: Seq<char>, i: int, esc: bool)
    ensures
        dq_scan(s, i, esc) matches Some(t) ==> i < t.1 <= s.len(),
    decreases s.len() - i,
{
    if 0 <= i < s.len() {
        lemma_dq_scan_bounds(s, i + 1, false);
        lemma_dq_scan_bounds(s, i + 1, true);
    }
}

/// A space run ends inside the input, after `i` when a space stands at `i`.
pub proof fn lemma_space_run_end_bounds(s: Seq<char>, i: int)
    requires
        0 <= i <= s.len(),
    ensures
        i <= space_run_end(s, i) <= s.len(),
        i < s.len() && s[i] == ' ' ==> i < space_run_end(s, i),
    decreases s.len() - i,
{
    if i < s.len() && s[i] == ' ' {
        lemma_space_run_end_bounds(s, i + 1);
    }
}

/// A bare run ends inside the input, after `i` when no stop stands at `i`.
pub proof fn lemma_bare_run_end_bounds(s: Seq<char>, i: int)
    requires
        0 <= i <= s.len(),
    ensures
        i <= bare_run_end(s, i) <= s.len(),
        i < s.len() && !is_bare_stop(s[i]) ==> i < bare_run_end(s, i),
    decreases s.len() - i,
{
    if i < s.len() && !is_bare_stop(s[i]) {
        lemma_bare_run_end_bounds(s, i + 1);
    }
}

/// Every emitted token moves the cursor strictly forward, and never past the
/// end of the input.
pub proof fn lemma_token_step_progress(s: Seq<char>, i: int)
    requires
        0 <= i <= s.len(),
    ensures
        token_step(s, i) matches TokenStep::Emit { next, .. } ==> i < next <= s.len(),
        token_step(s, i) matches TokenStep::Unclosed { start, .. } ==> start == i,
{
    if i < s.len() {
        lemma_sq_scan_bounds(s, i + 1, false);
        lemma_dq_scan_bounds(s, i + 1, false);
        lemma_space_run_end_bounds(s, i);
        lemma_bare_run_end_bounds(s, i);
    }
}

/// All tokens of the line from index `i` on, in order — each with its
/// resolved text and whether it is a separator marker — stopping at the
/// end of the input, at a newline, or at an unterminated quote.
pub open spec fn line_tokens(s: Seq<char>, i: int) -> Seq<(Seq<char>, bool)>
    decreases s.len() - i when 0 <= i <= s.len() via line_tokens_decreases
{
    match token_step(s, i) {
        TokenStep::Done => Seq::empty(),
        TokenStep::Unclosed { .. } => Seq::empty(),
        TokenStep::Emit { value, sep, next } => seq![(value, sep)] + line_tokens(s, next),
    }
}

#[via_fn]
proof fn line_tokens_decreases(s: Seq<char>, i: int) {
    lemma_token_step_progress(s, i);
}

/// The unterminated quote of the line from index `i` on, if any: its kind
/// and the index of its opening quote.
pub open spec fn line_failure(s: Seq<char>, i: int) -> Option<(QuoteKind, int)>
    decreases s.len() - i when 0 <= i <= s.len() via line_failure_decreases
{
    match token_step(s, i) {
        TokenStep::Done => None,
        TokenStep::Unclosed { kind, start } => Some((kind, start)),
        TokenStep::Emit { next, .. } => line_failure(s, next),
    }
}

#[via_fn]
proof fn line_failure_decreases(s: Seq<char>, i: int) {
    lemma_token_step_progress(s, i);
}

/// Appending one character appends exactly its UTF-8 encoding.
pub proof fn lemma_encode_utf8_push(s: Seq<char>, c: char)
    ensures
        encode_utf8(s.push(c)) == encode_utf8(s) + encode_scalar(c as u32),
    decreases s.len(),
{
    if s.len() == 0 {
        let t = s.push(c);
        assert(t[0] == c);
        assert(t.drop_first() =~= Seq::<char>::empty());
        assert(encode_utf8(t.drop_first()) == Seq::<u8>::empty());
        assert(encode_utf8(t) == encode_scalar(c as u32) + Seq::<u8>::empty());
        assert(encode_scalar(c as u32) + Seq::<u8>::empty() =~= encode_scalar(c as u32));
        assert(encode_utf8(s) == Seq::<u8>::empty());
        assert(encode_utf8(s) + encode_scalar(c as u32) =~= encode_scalar(c as u32));
    } else {
        lemma_encode_utf8_push(s.drop_first(), c);
        assert(s.push(c).drop_first() =~= s.drop_first().push(c));
        assert(encode_utf8(s.push(c)) =~= encode_utf8(s) + encode_scalar(c as u32));
    }
}

/// The byte offset of a prefix grows by the width of each character taken.
pub proof fn lemma_byte_len_take_step(s: Seq<char>, i: int)
    requires
        0 <= i < s.len(),
    ensures
        byte_len(s.take(i + 1)) == byte_len(s.take(i)) + encode_scalar(s[i] as u32).len(),
{
    assert(s.take(i + 1) =~= s.take(i).push(s[i]));
    lemma_encode_utf8_push(s.take(i), s[i]);
}

/// A sequence of characters never encodes to fewer bytes than characters.
pub proof fn lemma_byte_len_ge_len(s: Seq<char>)
    ensures
        byte_len(s) >= s.len(),
    decreases s.len(),
{
    if s.len() > 0 {
        lemma_byte_len_ge_len(s.drop_first());
        vstd::utf8::char_is_scalar(s[0]);
    }
}

/// A prefix never takes more bytes than the whole input.
pub proof fn lemma_byte_len_take_bound(s: Seq<char>, i: int)
    requires
        0 <= i <= s.len(),
    ensures
        byte_len(s.take(i)) <= byte_len(s),
    decreases s.len() - i,
{
    if i == s.len() {
        assert(s.take(i) =~= s);
    } else {
        lemma_byte_len_take_step(s, i);
        lemma_byte_len_take_bound(s, i + 1);
    }
}

/// No unescaped single quote and no dangling backslash stands in
/// `s[i..end]`: a scan through it reaches `end` in the unescaped state.
pub open spec fn sq_plain(s: Seq<char>, i: int, end: int) -> bool
    decreases end - i,
{
    if i >= end {
        true
    } else if s[i] == '\'' {
        false
    } else if s[i] == '\\' {
        i + 1 < end && sq_plain(s, i + 2, end)
    } else {
        sq_plain(s, i + 1, end)
    }
}

/// `s[i..end]` with each `\'` replaced by `'`; everything else verbatim.
pub open spec fn sq_unescape(s: Seq<char>, i: int, end: int) -> Seq<char>
    decreases end - i,
{
    if i >= end {
        Seq::empty()
    } else if s[i] == '\\' && i + 1 < end {
        (if s[i + 1] == '\'' {
            seq!['\'']
        } else {
            seq!['\\', s[i + 1]]
        }) + sq_unescape(s, i + 2, end)
    } else {
        seq![s[i]] + sq_unescape(s, i + 1, end)
    }
}

/// Over a plain body, the single-quote scan closes exactly at `end` and
/// resolves to the body with only `\'` -> `'` unescaping applied.
pub proof fn lemma_sq_scan_plain(s: Seq<char>, i: int, end: int)
    requires
        0 <= i <= end < s.len(),
        s[end] == '\'',
        sq_plain(s, i, end),
    ensures
        sq_scan(s, i, false) == Some((sq_unescape(s, i, end), end + 1)),
    decreases end - i,
{
    if i == end {
        assert(sq_scan(s, i, false) == Some((Seq::<char>::empty(), i + 1)));
        assert(sq_unescape(s, i, end) == Seq::<char>::empty());
    } else if s[i] == '\\' {
        lemma_sq_scan_plain(s, i + 2, end);
        let emitted: Seq<char> = if s[i + 1] == '\'' {
            seq!['\'']
        } else {
            seq!['\\', s[i + 1]]
        };
        assert(sq_scan(s, i + 1, true) == Some((emitted + sq_unescape(s, i + 2, end), end + 1)));
        assert(sq_scan(s, i, false) == sq_scan(s, i + 1, true));
        assert(sq_unescape(s, i, end) == emitted + sq_unescape(s, i + 2, end));
    } else {
        lemma_sq_scan_plain(s, i + 1, end);
        assert(sq_scan(s, i, false) == Some((seq![s[i]] + sq_unescape(s, i + 1, end), end + 1)));
        assert(sq_unescape(s, i, end) == seq![s[i]] + sq_unescape(s, i + 1, end));
    }
}

/// Prepends a prefix onto the content of a successful scan.
pub open spec fn opt_prepend(prefix: Seq<char>, o: Option<(Seq<char>, int)>) -> Option<
    (Seq<char>, int),
> {
    match o {
        Some(t) => Some((prefix + t.0, t.1)),
        None => None,
    }
}

/// Prepending twice is prepending the concatenation.
pub proof fn lemma_opt_prepend_assoc(a: Seq<char>, b: Seq<char>, o: Option<(Seq<char>, int)>)
    ensures
        opt_prepend(a, opt_prepend(b, o)) == opt_prepend(a + b, o),
{
    match o {
        Some(t) => {
            assert(a + (b + t.0) =~= (a + b) + t.0);
        },
        None => {},
    }
}

/// Splitting off the first character splits off exactly its encoding.
proof fn lemma_encode_utf8_cons(s: Seq<char>)
    requires
        s.len() > 0,
    ensures
        encode_utf8(s) == encode_scalar(s[0] as u32) + encode_utf8(s.drop_first()),
{
}

/// The byte offset of any character prefix lands on a character boundary
/// of the UTF-8 encoding of the input: the cursor never splits a
/// multi-byte character.
pub proof fn lemma_prefix_offset_is_char_boundary(s: Seq<char>, i: int)
    requires
        0 <= i <= s.len(),
    ensures
        vstd::utf8::is_char_boundary(encode_utf8(s), byte_len(s.take(i)) as int),
    decreases i,
{
    vstd::utf8::encode_utf8_valid_utf8(s);
    if i == 0 {
        assert(s.take(0) =~= Seq::<char>::empty());
        assert(byte_len(s.take(0)) == 0);
    } else {
        let bytes = encode_utf8(s);
        let head = encode_scalar(s[0] as u32);
        let tail = s.drop_first();
        lemma_encode_utf8_cons(s);
        vstd::utf8::encode_utf8_first_scalar(s);
        assert(vstd::utf8::length_of_first_scalar(bytes) == head.len());
        assert(vstd::utf8::pop_first_scalar(bytes) =~= encode_utf8(tail));
        assert(s.take(i) =~= seq![s[0]] + tail.take(i - 1));
        let u = seq![s[0]] + tail.take(i - 1);
        assert(u.len() > 0 && u[0] == s[0]);
        assert(u.drop_first() =~= tail.take(i - 1));
        lemma_encode_utf8_cons(u);
        assert(byte_len(s.take(i)) == head.len() + byte_len(tail.take(i - 1)));
        lemma_prefix_offset_is_char_boundary(tail, i - 1);
        vstd::utf8::encode_utf8_valid_utf8(tail);
    }
}

/// The width in bytes of the UTF-8 encoding of one character.
pub fn char_utf8_len(c: char) -> (n: usize)
    ensures
        n == encode_scalar(c as u32).len(),
        1 <= n <= 4,
{
    proof {
        vstd::utf8::char_is_scalar(c);
    }
    let u = c as u32;
    if u < 0x80 {
        1
    } else if u < 0x800 {
        2
    } else if u < 0x10000 {
        3
    } else {
        4
    }
}

/// Whether `c` ends a bare (unquoted) word.
fn bare_stop(c: char) -> (b: bool)
    ensures
        b == is_bare_stop(c),
{
    c == ' ' || c == '\\' || c == '"'
}

/// The tokenizer over one line of input. A fresh instance is made per line;
/// `index` is the cursor as a character count, `position` the same cursor as
/// a byte offset into the original input (always a character boundary).
#[derive(Clone, Copy)]
pub struct Parser<'a> {
    pub input: &'a str,
    pub index: usize,
    pub position: usize,
}

impl<'a> Parser<'a> {
    /// The cursor stays inside the input and `position` is always the byte
    /// offset of the character `index` — a valid character boundary of the
    /// input's UTF-8 encoding (see [`lemma_prefix_offset_is_char_boundary`]).
    pub open spec fn wf(&self) -> bool {
        &&& self.index <= self.input@.len()
        &&& self.position == byte_len(self.input@.take(self.index as int))
        &&& byte_len(self.input@) <= usize::MAX
    }

    /// A tokenizer at the start of the given line.
    pub fn new(input: &'a str) -> (p: Self)
        ensures
            p.wf(),
            p.input@ == input@,
            p.index == 0,
            p.position == 0,
    {
        let bytes = input.as_bytes();
        let total = bytes.len();
        proof {
            assert(bytes@ == encode_utf8(input@));
            assert(byte_len(input@) == total);
            assert(input@.take(0) =~= Seq::<char>::empty());
        }
        Parser { input, index: 0, position: 0 }
    }

    /// Consumes one character, keeping the byte offset in step.
    fn advance(&mut self)
        requires
            old(self).wf(),
            old(self).index < old(self).input@.len(),
        ensures
            final(self).wf(),
            final(self).input@ == old(self).input@,
            final(self).index == old(self).index + 1,
            final(self).position >= old(self).position,
    {
        let c = self.input.get_char(self.index);
        let w = char_utf8_len(c);
        proof {
            lemma_byte_len_ge_len(self.input@);
            lemma_byte_len_take_step(self.input@, self.index as int);
            lemma_byte_len_take_bound(self.input@, self.index as int + 1);
        }
        self.position = self.position + w;
        self.index = self.index + 1;
    }

    /// One tokenizer step: the next token of the line, an error for an
    /// unterminated quote, or `None` once the line is exhausted (end of
    /// input or a newline). Exactly [`token_step`] at the current cursor.
    #[verifier::loop_isolation(false)]
    pub fn next(&mut self) -> (r: Option<Result<Token, ParseError>>)
        requires
            old(self).wf(),
        ensures
            final(self).wf(),
            final(self).input@ == old(self).input@,
            final(self).index >= old(self).index,
            final(self).position >= old(self).position,
            match token_step(old(self).input@, old(self).index as int) {
                TokenStep::Done => {
                    &&& r is None
                    &&& final(self).index == old(self).index
                    &&& final(self).position == old(self).position
                },
                TokenStep::Emit { value, sep, next } => {
                    &&& (r matches Some(Ok(tok)) && tok.text@ == value && tok.sep == sep)
                    &&& final(self).index == next
                },
                TokenStep::Unclosed { kind, start } => {
                    &&& (r matches Some(Err(e)) && e.kind == kind && e.offset == byte_len(
                        old(self).input@,
                    ))
                    &&& final(self).index == old(self).input@.len()
                },
            },
    {
        let ghost s = old(self).input@;
        let ghost i0 = old(self).index as int;
        let n = self.input.unicode_len();
        if self.index >= n {
            return None;
        }
        let c = self.input.get_char(self.index);
        if c == '\n' {
            return None;
        }
        if c == '\'' {
            self.advance();
            let mut group = String::new();
            let mut esc = false;
            proof {
                assert(group@ + sq_scan(s, i0 + 1, false)->Some_0.0 =~= sq_scan(
                    s,
                    i0 + 1,
                    false,
                )->Some_0.0);
            }
            while self.index < n
                invariant
                    self.wf(),
                    self.input@ == s,
                    n == s.len(),
                    self.position >= old(self).position,
                    i0 + 1 <= self.index <= s.len(),
                    sq_scan(s, i0 + 1, false) == opt_prepend(
                        group@,
                        sq_scan(s, self.index as int, esc),
                    ),
                    0 <= i0 < s.len() && s[i0] == '\'',
                decreases s.len() - self.index,
            {
                let c = self.input.get_char(self.index);
                let ghost gpre = group@;
                let ghost idx = self.index as int;
                if esc {
                    let ghost emitted: Seq<char>;
                    if c == '\'' {
                        push_char(&mut group, '\'');
                        proof {
                            emitted = seq!['\''];
                        }
                    } else {
                        push_char(&mut group, '\\');
                        push_char(&mut group, c);
                        proof {
                            emitted = seq!['\\', c];
                            assert(gpre + seq!['\\'] + seq![c] =~= gpre + emitted);
                        }
                    }
                    esc = false;
                    self.advance();
                    proof {
                        assert(sq_scan(s, idx, true) == opt_prepend(
                            emitted,
                            sq_scan(s, idx + 1, false),
                        ));
                        lemma_opt_prepend_assoc(gpre, emitted, sq_scan(s, idx + 1, false));
                    }
                } else if c == '\'' {
                    self.advance();
                    proof {
                        assert(sq_scan(s, idx, false) == Some(
                            (Seq::<char>::empty(), idx + 1),
                        ));
                        assert(gpre + Seq::<char>::empty() =~= gpre);
                    }
                    return Some(Ok(Token { text: group, sep: false }));
                } else if c == '\\' {
                    esc = true;
                    self.advance();
                } else {
                    push_char(&mut group, c);
                    self.advance();
                    proof {
                        assert(sq_scan(s, idx, false) == opt_prepend(
                            seq![c],
                            sq_scan(s, idx + 1, false),
                        ));
                        lemma_opt_prepend_assoc(gpre, seq![c], sq_scan(s, idx + 1, false));
                    }
                }
            }
            proof {
                assert(s.take(s.len() as int) =~= s);
            }
            return Some(Err(ParseError { kind: QuoteKind::Single, offset: self.position }));
        }
        if c == '"' {
            self.advance();
            let mut group = String::new();
            let mut esc = false;
            proof {
                assert(group@ + dq_scan(s, i0 + 1, false)->Some_0.0 =~= dq_scan(
                    s,
                    i0 + 1,
                    false,
                )->Some_0.0);
            }
            while self.index < n
                invariant
                    self.wf(),
                    self.input@ == s,
                    n == s.len(),
                    self.position >= old(self).position,
                    i0 + 1 <= self.index <= s.len(),
                    dq_scan(s, i0 + 1, false) == opt_prepend(
                        group@,
                        dq_scan(s, self.index as int, esc),
                    ),
                    0 <= i0 < s.len() && s[i0] == '"',
                decreases s.len() - self.index,
            {
                let c = self.input.get_char(self.index);
                let ghost gpre = group@;
                let ghost idx = self.index as int;
                if esc {
                    let ghost emitted: Seq<char>;
                    if c == '"' || c == '\\' {
                        push_char(&mut group, c);
                        proof {
                            emitted = seq![c];
                        }
                    } else {
                        push_char(&mut group, '\\');
                        push_char(&mut group, c);
                        proof {
                            emitted = seq!['\\', c];
                            assert(gpre + seq!['\\'] + seq![c] =~= gpre + emitted);
                        }
                    }
                    esc = false;
                    self.advance();
                    proof {
                        assert(dq_scan(s, idx, true) == opt_prepend(
                            emitted,
                            dq_scan(s, idx + 1, false),
                        ));
                        lemma_opt_prepend_assoc(gpre, emitted, dq_scan(s, idx + 1, false));
                    }
                } else if c == '"' {
                    self.advance();
                    proof {
                        assert(dq_scan(s, idx, false) == Some(
                            (Seq::<char>::empty(), idx + 1),
                        ));
                        assert(gpre + Seq::<char>::empty() =~= gpre);
                    }
                    return Some(Ok(Token { text: group, sep: false }));
                } else if c == '\\' {
                    esc = true;
                    self.advance();
                } else {
                    push_char(&mut group, c);
                    self.advance();
                    proof {
                        assert(dq_scan(s, idx, false) == opt_prepend(
                            seq![c],
                            dq_scan(s, idx + 1, false),
                        ));
                        lemma_opt_prepend_assoc(gpre, seq![c], dq_scan(s, idx + 1, false));
                    }
                }
            }
            proof {
                assert(s.take(s.len() as int) =~= s);
            }
            return Some(Err(ParseError { kind: QuoteKind::Double, offset: self.position }));
        }
        if c == '\\' {
            self.advance();
            if self.index < n {
                let c2 = self.input.get_char(self.index);
                self.advance();
                let mut tok = String::new();
                push_char(&mut tok, c2);
                proof {
                    assert(Seq::<char>::empty() + seq![c2] =~= seq![c2]);
                }
                return Some(Ok(Token { text: tok, sep: false }));
            } else {
                return Some(Ok(Token { text: String::new(), sep: false }));
            }
        }
        if c == ' ' {
            let mut stop = false;
            while self.index < n && !stop
                invariant
                    self.wf(),
                    self.input@ == s,
                    n == s.len(),
                    self.position >= old(self).position,
                    i0 <= self.index <= s.len(),
                    !stop ==> space_run_end(s, i0) == space_run_end(s, self.index as int),
                    stop ==> space_run_end(s, i0) == self.index,
                decreases s.len() - self.index, (if stop { 0int } else { 1int }),
            {
                let c = self.input.get_char(self.index);
                if c == ' ' {
                    self.advance();
                } else {
                    stop = true;
                }
            }
            let mut tok = String::new();
            tok.append(" ");
            proof {
                reveal_strlit(" ");
                assert(Seq::<char>::empty() + " "@ =~= " "@);
                assert(" "@ =~= seq![' ']);
            }
            return Some(Ok(Token { text: tok, sep: true }));
        }
        // a bare word: everything up to the next space, backslash or `"`
        let start = self.index;
        let mut stop = false;
        while self.index < n && !stop
            invariant
                self.wf(),
                self.input@ == s,
                n == s.len(),
                self.position >= old(self).position,
                i0 <= self.index <= s.len(),
                start == i0,
                !stop ==> bare_run_end(s, i0) == bare_run_end(s, self.index as int),
                stop ==> bare_run_end(s, i0) == self.index,
            decreases s.len() - self.index, (if stop { 0int } else { 1int }),
        {
            let c = self.input.get_char(self.index);
            if bare_stop(c) {
                stop = true;
            } else {
                self.advance();
            }
        }
        let word = self.input.substring_char(start, self.index);
        let tok = word.to_owned();
        Some(Ok(Token { text: tok, sep: false }))
    }
}

/// Runs a fresh tokenizer over a whole line: all tokens in order, each
/// with its separator-marker flag, and the unterminated-quote error, if
/// there is one. Tokens produced before an error are kept intact.
#[verifier::loop_isolation(false)]
pub fn parse_line(input: &str) -> (r: (Vec<Token>, Option<ParseError>))
    ensures
        r.0.deep_view() == line_tokens(input@, 0),
        match line_failure(input@, 0) {
            None => r.1 is None,
            Some(f) => (r.1 matches Some(e) && e.kind == f.0 && e.offset == byte_len(input@)),
        },
{
    let ghost s = input@;
    let mut p = Parser::new(input);
    let mut toks: Vec<Token> = Vec::new();
    proof {
        assert(toks.deep_view() + line_tokens(s, 0) =~= line_tokens(s, 0));
    }
    loop
        invariant
            p.wf(),
            p.input@ == s,
            line_tokens(s, 0) == toks.deep_view() + line_tokens(s, p.index as int),
            line_failure(s, 0) == line_failure(s, p.index as int),
        decreases s.len() - p.index,
    {
        let ghost idx = p.index as int;
        let ghost dv = toks.deep_view();
        proof {
            lemma_token_step_progress(s, idx);
        }
        match p.next() {
            None => {
                proof {
                    assert(dv + Seq::<(Seq<char>, bool)>::empty() =~= dv);
                }
                return (toks, None);
            },
            Some(Ok(tok)) => {
                let ghost v = (tok.text@, tok.sep);
                toks.push(tok);
                proof {
                    assert(toks.deep_view() =~= dv.push(v));
                    assert(dv.push(v) =~= dv + seq![v]);
                    let rest = line_tokens(s, p.index as int);
                    assert((dv + seq![v]) + rest =~= dv + (seq![v] + rest));
                }
            },
            Some(Err(e)) => {
                proof {
                    assert(dv + Seq::<(Seq<char>, bool)>::empty() =~= dv);
                }
                return (toks, Some(e));
            },
        }
    }
}

/// A line that is exactly one single-quoted literal with no unescaped quote
/// inside tokenizes to exactly one content token, the literal's text with only
/// `\'` -> `'` unescaping applied, and no error.
pub proof fn lemma_single_quoted_literal(s: Seq<char>)
    requires
        s.len() >= 2,
        s[0] == '\'',
        s[s.len() - 1] == '\'',
        sq_plain(s, 1, s.len() - 1),
    ensures
        line_tokens(s, 0) == seq![(sq_unescape(s, 1, s.len() - 1), false)],
        line_failure(s, 0) is None,
{
    lemma_sq_scan_plain(s, 1, s.len() - 1);
    assert(token_step(s, 0) == TokenStep::Emit {
        value: sq_unescape(s, 1, s.len() - 1),
        sep: false,
        next: s.len() as int,
    });
    assert(line_tokens(s, s.len() as int) == Seq::<(Seq<char>, bool)>::empty());
    assert(line_failure(s, s.len() as int) is None);
    assert(seq![(sq_unescape(s, 1, s.len() - 1), false)] + Seq::<(Seq<char>, bool)>::empty()
        =~= seq![(sq_unescape(s, 1, s.len() - 1), false)]);
}

/// A failed line names the quote that was left unclosed: the failure's
/// start index carries that quote character, and its byte offset is no
/// later than the reported error offset, the byte length of the input.
pub proof fn lemma_failure_is_quote(s: Seq<char>, i: int)
    requires
        0 <= i <= s.len(),
        line_failure(s, i) matches Some(f),
    ensures
        ({
            let f = line_failure(s, i)->Some_0;
            &&& i <= f.1 < s.len()
            &&& (f.0 == QuoteKind::Single ==> s[f.1] == '\'')
            &&& (f.0 == QuoteKind::Double ==> s[f.1] == '"')
            &&& byte_len(s.take(f.1)) <= byte_len(s)
        }),
    decreases s.len() - i,
{
    lemma_token_step_progress(s, i);
    match token_step(s, i) {
        TokenStep::Done => {},
        TokenStep::Unclosed { kind, start } => {
            lemma_byte_len_take_bound(s, start);
        },
        TokenStep::Emit { next, .. } => {
            lemma_failure_is_quote(s, next);
        },
    }
}

/// An unterminated quote is reported at or after its opening quote: the
/// error offset, which is the byte length of the whole input, is at least
/// the byte offset of the quote that was left unclosed.
pub proof fn lemma_error_offset_after_open(s: Seq<char>)
    requires
        line_failure(s, 0) matches Some(f),
    ensures
        ({
            let f = line_failure(s, 0)->Some_0;
            &&& 0 <= f.1 < s.len()
            &&& (f.0 == QuoteKind::Single ==> s[f.1] == '\'')
            &&& (f.0 == QuoteKind::Double ==> s[f.1] == '"')
            &&& byte_len(s.take(f.1)) <= byte_len(s)
        }),
{
    lemma_failure_is_quote(s, 0);
}

/// Tokenizing is a pure function of the line: two runs over equal inputs
/// yield the same tokens and the same failure, with no hidden state.
pub proof fn lemma_tokenize_deterministic(a: Seq<char>, b: Seq<char>)
    requires
        a == b,
    ensures
        line_tokens(a, 0) == line_tokens(b, 0),
        line_failure(a, 0) == line_failure(b, 0),
{
}

} // verus!
