//! Character-level helpers shared by the resolver, the store and the
//! display code: character classes, decimal digit sequences and their
//! numeric values, and rendering of unsigned identifiers as decimal text.

use vstd::prelude::*;
use vstd::string::StringExecFns;

verus! {

/// The separator characters that delimit tokens in free-form participant
/// text: the ASCII whitespace family.
pub open spec fn is_ws_char(c: char) -> bool {
    c == ' ' || c == '\t' || c == '\n' || c == '\r' || c == '\u{b}' || c == '\u{c}'
}

/// Executable test for [`is_ws_char`].
pub fn ws_char(c: char) -> (r: bool)
    ensures
        r == is_ws_char(c),
{
    c == ' ' || c == '\t' || c == '\n' || c == '\r' || c == '\u{b}' || c == '\u{c}'
}

/// An ASCII decimal digit.
pub open spec fn is_digit_char(c: char) -> bool {
    48 <= c as u32 <= 57
}

/// Executable test for [`is_digit_char`].
pub fn digit_char(c: char) -> (r: bool)
    ensures
        r == is_digit_char(c),
{
    let u: u32 = c as u32;
    48 <= u && u <= 57
}

/// Numeric value of one decimal digit character.
pub open spec fn digit_val(c: char) -> int {
    c as u32 - 48
}

/// The digit character for a value below ten.
pub open spec fn char_of_digit(d: int) -> char {
    if d == 0 {
        '0'
    } else if d == 1 {
        '1'
    } else if d == 2 {
        '2'
    } else if d == 3 {
        '3'
    } else if d == 4 {
        '4'
    } else if d == 5 {
        '5'
    } else if d == 6 {
        '6'
    } else if d == 7 {
        '7'
    } else if d == 8 {
        '8'
    } else {
        '9'
    }
}

/// Value of a big-endian sequence of decimal digit characters.
pub open spec fn digits_val(s: Seq<char>) -> int
    decreases s.len(),
{
    if s.len() == 0 {
        0
    } else {
        digits_val(s.drop_last()) * 10 + digit_val(s.last())
    }
}

/// Ten to the `n`th power.
pub open spec fn pow10(n: nat) -> int
    decreases n,
{
    if n == 0 {
        1
    } else {
        10 * pow10((n - 1) as nat)
    }
}

/// A sequence of `n` digit characters denotes a value below `pow10(n)`.
pub proof fn lemma_digits_val_bound(s: Seq<char>)
    requires
        forall|i: int| 0 <= i < s.len() ==> is_digit_char(#[trigger] s[i]),
    ensures
        0 <= digits_val(s) < pow10(s.len()),
    decreases s.len(),
{
    if s.len() > 0 {
        lemma_digits_val_bound(s.drop_last());
    }
}

/// Nineteen digits always fit in an unsigned 64-bit identifier.
pub proof fn lemma_pow10_19_fits()
    ensures
        pow10(19) <= u64::MAX,
{
    reveal_with_fuel(pow10, 20);
}

/// Decimal rendering of a non-negative integer, most significant digit
/// first, without leading zeroes (a single `'0'` for zero).
pub open spec fn dec_str(n: int) -> Seq<char>
    recommends
        n >= 0,
    decreases n,
{
    if n < 10 {
        seq![char_of_digit(n)]
    } else {
        dec_str(n / 10).push(char_of_digit(n % 10))
    }
}

/// `s` with its leading double-quote characters removed.
pub open spec fn trim_leading_quotes(s: Seq<char>) -> Seq<char>
    decreases s.len(),
{
    if s.len() > 0 && s[0] == '"' {
        trim_leading_quotes(s.drop_first())
    } else {
        s
    }
}

/// `s` with its trailing double-quote characters removed.
pub open spec fn trim_trailing_quotes(s: Seq<char>) -> Seq<char>
    decreases s.len(),
{
    if s.len() > 0 && s.last() == '"' {
        trim_trailing_quotes(s.drop_last())
    } else {
        s
    }
}

/// `s` with surrounding double-quote characters removed, a defence
/// against copy-pasted quoted input.
pub open spec fn trim_quotes(s: Seq<char>) -> Seq<char> {
    trim_trailing_quotes(trim_leading_quotes(s))
}

/// When the first `lo` characters are quotes and the `lo`th is not,
/// trimming from the front keeps exactly the tail from `lo`.
proof fn lemma_trim_leading_at(s: Seq<char>, lo: int)
    requires
        0 <= lo <= s.len(),
        forall|j: int| 0 <= j < lo ==> s[j] == '"',
        lo == s.len() || s[lo] != '"',
    ensures
        trim_leading_quotes(s) == s.subrange(lo, s.len() as int),
    decreases lo,
{
    if lo == 0 {
        assert(s.subrange(0, s.len() as int) =~= s);
    } else {
        lemma_trim_leading_at(s.drop_first(), lo - 1);
        assert(s.drop_first().subrange(lo - 1, s.drop_first().len() as int) =~= s.subrange(
            lo,
            s.len() as int,
        ));
    }
}

/// When the characters from `hi` on are quotes and the one before `hi`
/// is not, trimming from the back keeps exactly the head up to `hi`.
proof fn lemma_trim_trailing_at(s: Seq<char>, hi: int)
    requires
        0 <= hi <= s.len(),
        forall|j: int| hi <= j < s.len() ==> s[j] == '"',
        hi == 0 || s[hi - 1] != '"',
    ensures
        trim_trailing_quotes(s) == s.take(hi),
    decreases s.len(),
{
    if hi == s.len() {
        assert(s.take(hi) =~= s);
    } else {
        lemma_trim_trailing_at(s.drop_last(), hi);
        assert(s.drop_last().take(hi) =~= s.take(hi));
    }
}

/// Strips surrounding double-quote characters from `s`.
pub fn trim_quote_chars(s: &str) -> (r: String)
    ensures
        r@ == trim_quotes(s@),
{
    let n: usize = s.unicode_len();
    let mut lo: usize = 0;
    while lo < n && s.get_char(lo) == '"'
        invariant
            n == s@.len(),
            0 <= lo <= n,
            forall|j: int| 0 <= j < lo ==> s@[j] == '"',
        decreases n - lo,
    {
        lo = lo + 1;
    }
    let mut hi: usize = n;
    while hi > lo && s.get_char(hi - 1) == '"'
        invariant
            n == s@.len(),
            lo <= hi <= n,
            forall|j: int| hi <= j < n ==> s@[j] == '"',
        decreases hi,
    {
        hi = hi - 1;
    }
    let r: String = s.substring_char(lo, hi).to_owned();
    proof {
        lemma_trim_leading_at(s@, lo as int);
        let tail = s@.subrange(lo as int, n as int);
        lemma_trim_trailing_at(tail, hi - lo);
        assert(tail.take(hi - lo) =~= s@.subrange(lo as int, hi as int));
    }
    r
}

/// Appends the digit character for `d` to `s`.
fn append_digit(s: &mut String, d: u64)
    requires
        d < 10,
    ensures
        final(s)@ == old(s)@.push(char_of_digit(d as int)),
{
    let ghost expected: char = char_of_digit(d as int);
    match d {
        0 => {
            proof {
                reveal_strlit("0");
            }
            s.append("0");
            assert(s@ =~= old(s)@.push(expected));
        },
        1 => {
            proof {
                reveal_strlit("1");
            }
            s.append("1");
            assert(s@ =~= old(s)@.push(expected));
        },
        2 => {
            proof {
                reveal_strlit("2");
            }
            s.append("2");
            assert(s@ =~= old(s)@.push(expected));
        },
        3 => {
            proof {
                reveal_strlit("3");
            }
            s.append("3");
            assert(s@ =~= old(s)@.push(expected));
        },
        4 => {
            proof {
                reveal_strlit("4");
            }
            s.append("4");
            assert(s@ =~= old(s)@.push(expected));
        },
        5 => {
            proof {
                reveal_strlit("5");
            }
            s.append("5");
            assert(s@ =~= old(s)@.push(expected));
        },
        6 => {
            proof {
                reveal_strlit("6");
            }
            s.append("6");
            assert(s@ =~= old(s)@.push(expected));
        },
        7 => {
            proof {
                reveal_strlit("7");
            }
            s.append("7");
            assert(s@ =~= old(s)@.push(expected));
        },
        8 => {
            proof {
                reveal_strlit("8");
            }
            s.append("8");
            assert(s@ =~= old(s)@.push(expected));
        },
        _ => {
            proof {
                reveal_strlit("9");
            }
            s.append("9");
            assert(s@ =~= old(s)@.push(expected));
        },
    }
}

/// Appends the decimal rendering of `n` to `s`.
pub fn append_dec(s: &mut String, n: u64)
    ensures
        final(s)@ == old(s)@ + dec_str(n as int),
    decreases n,
{
    if n < 10 {
        append_digit(s, n);
        assert(s@ =~= old(s)@ + dec_str(n as int));
    } else {
        append_dec(s, n / 10);
        append_digit(s, n % 10);
        assert(s@ =~= old(s)@ + dec_str(n as int));
    }
}

/// The decimal rendering of `n` as a fresh string.
pub fn u64_to_string(n: u64) -> (r: String)
    ensures
        r@ == dec_str(n as int),
{
    let mut s: String = String::new();
    append_dec(&mut s, n);
    assert(s@ =~= dec_str(n as int));
    s
}

} // verus!
