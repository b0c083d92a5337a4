//! Verified text helpers shared by the commands: whitespace trimming,
//! decimal rendering for diagnostics, and decimal parsing for exit codes.

use vstd::prelude::*;
use vstd::string::StrSliceExecFns;
use vstd::string::StringExecFns;

verus! {

/// Relies on `String::push`: appends exactly the given character.
#[verifier::external_body]
pub(crate) fn push_char(s: &mut String, c: char)
    ensures
        final(s)@ == old(s)@ + seq![c],
{
    s.push(c);
}

/// The whitespace characters that trimming removes from token text: the
/// characters with the Unicode `White_Space` property, the set that
/// `char::is_whitespace` accepts.
pub open spec fn is_blank(c: char) -> bool {
    c == ' ' || c == '\t' || c == '\n' || c == '\u{0B}' || c == '\u{0C}' || c == '\r' || c
        == '\u{85}' || c == '\u{A0}' || c == '\u{1680}' || (0x2000 <= c as u32 && c as u32
        <= 0x200A) || c == '\u{2028}' || c == '\u{2029}' || c == '\u{202F}' || c == '\u{205F}'
        || c == '\u{3000}'
}

/// Whether `c` is trimmed away at the edges of a token.
pub fn blank(c: char) -> (b: bool)
    ensures
        b == is_blank(c),
{
    c == ' ' || c == '\t' || c == '\n' || c == '\u{0B}' || c == '\u{0C}' || c == '\r' || c
        == '\u{85}' || c == '\u{A0}' || c == '\u{1680}' || (c as u32 >= 0x2000 && c as u32
        <= 0x200A) || c == '\u{2028}' || c == '\u{2029}' || c == '\u{202F}' || c == '\u{205F}'
        || c == '\u{3000}'
}

/// The index of the first non-blank character at or after `i`.
pub open spec fn blank_prefix_end(s: Seq<char>, i: int) -> int
    decreases s.len() - i,
{
    if i < 0 || i >= s.len() {
        s.len() as int
    } else if is_blank(s[i]) {
        blank_prefix_end(s, i + 1)
    } else {
        i
    }
}

/// The index just past the last non-blank character before `j`.
pub open spec fn blank_suffix_start(s: Seq<char>, j: int) -> int
    decreases j,
{
    if j <= 0 {
        0
    } else if j <= s.len() && is_blank(s[j - 1]) {
        blank_suffix_start(s, j - 1)
    } else {
        j
    }
}

/// `s` with leading and trailing blanks removed.
pub open spec fn trim_spec(s: Seq<char>) -> Seq<char> {
    let a = blank_prefix_end(s, 0);
    let b = blank_suffix_start(s, s.len() as int);
    if a <= b {
        s.subrange(a, b)
    } else {
        Seq::empty()
    }
}

/// When everything from `i` on is blank, the prefix scan reaches the end.
proof fn lemma_blank_prefix_all(s: Seq<char>, i: int)
    requires
        0 <= i <= s.len(),
        blank_prefix_end(s, i) == s.len(),
    ensures
        forall|k: int| i <= k < s.len() ==> is_blank(s[k]),
    decreases s.len() - i,
{
    if i < s.len() {
        lemma_blank_prefix_all(s, i + 1);
    }
}

/// When everything before `j` is blank, the suffix scan reaches the start.
proof fn lemma_blank_suffix_all(s: Seq<char>, j: int)
    requires
        0 <= j <= s.len(),
        forall|k: int| 0 <= k < j ==> is_blank(s[k]),
    ensures
        blank_suffix_start(s, j) == 0,
    decreases j,
{
    if j > 0 {
        lemma_blank_suffix_all(s, j - 1);
    }
}

/// Removes the leading and trailing blanks of a token, like the trimming
/// the shell applies to command names and file arguments.
#[verifier::loop_isolation(false)]
pub fn trim(s: &str) -> (r: String)
    ensures
        r@ == trim_spec(s@),
{
    let n = s.unicode_len();
    let mut a: usize = 0;
    let mut stop = false;
    while a < n && !stop
        invariant
            0 <= a <= n,
            n == s@.len(),
            !stop ==> blank_prefix_end(s@, 0) == blank_prefix_end(s@, a as int),
            stop ==> blank_prefix_end(s@, 0) == a && a < n && !is_blank(s@[a as int]),
        decreases n - a, (if stop {
            0int
        } else {
            1int
        }),
    {
        let c = s.get_char(a);
        if blank(c) {
            a = a + 1;
        } else {
            stop = true;
        }
    }
    if !stop {
        // every character is blank: nothing is left after trimming
        proof {
            lemma_blank_prefix_all(s@, 0);
            lemma_blank_suffix_all(s@, s@.len() as int);
        }
        return String::new();
    }
    let mut b: usize = n;
    let mut bstop = false;
    while b > a && !bstop
        invariant
            a < b <= n,
            n == s@.len(),
            blank_prefix_end(s@, 0) == a && !is_blank(s@[a as int]),
            !bstop ==> blank_suffix_start(s@, n as int) == blank_suffix_start(s@, b as int),
            bstop ==> blank_suffix_start(s@, n as int) == b,
        decreases b, (if bstop {
            0int
        } else {
            1int
        }),
    {
        let c = s.get_char(b - 1);
        if blank(c) {
            b = b - 1;
        } else {
            bstop = true;
        }
    }
    let word = s.substring_char(a, b);
    word.to_owned()
}

/// The character for one decimal digit.
pub open spec fn digit_char(d: nat) -> char {
    ((d + 0x30) as u8) as char
}

/// The decimal digits of `n`, most significant first.
pub open spec fn dec_digits(n: nat) -> Seq<char>
    decreases n,
{
    if n < 10 {
        seq![digit_char(n)]
    } else {
        dec_digits(n / 10) + seq![digit_char(n % 10)]
    }
}

/// Renders `n` in decimal, most significant digit first.
pub fn render_usize(n: usize) -> (r: String)
    ensures
        r@ == dec_digits(n as nat),
    decreases n,
{
    if n < 10 {
        let mut r = String::new();
        push_char(&mut r, (0x30 + n as u8) as char);
        proof {
            assert(Seq::<char>::empty() + seq![digit_char(n as nat)] =~= seq![
                digit_char(n as nat),
            ]);
        }
        r
    } else {
        let mut r = render_usize(n / 10);
        push_char(&mut r, (0x30 + (n % 10) as u8) as char);
        r
    }
}

/// Whether `c` is a decimal digit.
pub open spec fn is_digit(c: char) -> bool {
    0x30 <= c as u32 <= 0x39
}

/// The value of one decimal digit character.
pub open spec fn digit_val(c: char) -> nat {
    (c as u32 - 0x30) as nat
}

/// The value of the digit run `s[start..j]`, read in decimal.
pub open spec fn digits_value(s: Seq<char>, start: int, j: int) -> nat
    decreases j - start,
{
    if j <= start {
        0
    } else {
        digits_value(s, start, j - 1) * 10 + digit_val(s[j - 1])
    }
}

/// Reading more digits never makes the value smaller.
proof fn lemma_digits_value_mono(s: Seq<char>, start: int, i: int, j: int)
    requires
        start <= i <= j,
    ensures
        digits_value(s, start, j) >= digits_value(s, start, i),
    decreases j - i,
{
    if i < j {
        lemma_digits_value_mono(s, start, i, j - 1);
    }
}

/// Where the digits of a decimal integer start, after an optional sign.
pub open spec fn sign_end(s: Seq<char>) -> int {
    if s.len() > 0 && (s[0] == '-' || s[0] == '+') {
        1
    } else {
        0
    }
}

/// What `s` denotes as a 32-bit signed decimal integer: an optional `+` or
/// `-`, then at least one digit and nothing else, the value in range.
pub open spec fn parse_i32_spec(s: Seq<char>) -> Option<i32> {
    let start = sign_end(s);
    let neg = s.len() > 0 && s[0] == '-';
    if s.len() <= start {
        None
    } else if exists|k: int| start <= k < s.len() && !is_digit(s[k]) {
        None
    } else {
        let v = digits_value(s, start, s.len() as int);
        if neg {
            if v <= 0x8000_0000 {
                Some((-(v as int)) as i32)
            } else {
                None
            }
        } else {
            if v <= 0x7FFF_FFFF {
                Some(v as i32)
            } else {
                None
            }
        }
    }
}

/// Parses a decimal integer with an optional sign, the way the shell's
/// `exit` builtin reads its status argument: `None` on an empty string, a
/// stray character, or a value outside the 32-bit signed range.
#[verifier::loop_isolation(false)]
pub fn parse_i32(s: &str) -> (r: Option<i32>)
    ensures
        r == parse_i32_spec(s@),
{
    let n = s.unicode_len();
    if n == 0 {
        return None;
    }
    let c0 = s.get_char(0);
    let neg = c0 == '-';
    let start: usize = if c0 == '-' || c0 == '+' {
        1
    } else {
        0
    };
    if n <= start {
        return None;
    }
    let mut acc: u64 = 0;
    let mut i: usize = start;
    while i < n
        invariant
            start <= i <= n,
            n == s@.len(),
            start == sign_end(s@),
            start < n,
            neg == (s@.len() > 0 && s@[0] == '-'),
            acc == digits_value(s@, start as int, i as int),
            acc <= 0x8000_0000,
            forall|k: int| start <= k < i ==> is_digit(s@[k]),
        decreases n - i,
    {
        let c = s.get_char(i);
        let u = c as u32;
        if u < 0x30 || u > 0x39 {
            return None;
        }
        let d = (u - 0x30) as u64;
        acc = acc * 10 + d;
        i = i + 1;
        if acc > 0x8000_0000 {
            proof {
                lemma_digits_value_mono(s@, start as int, i as int, s@.len() as int);
            }
            return None;
        }
    }
    if neg {
        Some((-(acc as i64)) as i32)
    } else {
        if acc <= 0x7FFF_FFFF {
            Some(acc as i32)
        } else {
            None
        }
    }
}

} // verus!
