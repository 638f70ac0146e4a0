//! Reading and writing the texts that cross the boundary: decimal numbers
//! and identity strings.
use vstd::prelude::*;
use vstd::string::StringExecFns;

verus! {

/// White space as Unicode defines it: the code points with the property
/// `White_Space`.
pub open spec fn is_space(c: char) -> bool {
    ||| '\u{9}' <= c <= '\u{d}'
    ||| c == ' '
    ||| c == '\u{85}'
    ||| c == '\u{a0}'
    ||| c == '\u{1680}'
    ||| '\u{2000}' <= c <= '\u{200a}'
    ||| c == '\u{2028}'
    ||| c == '\u{2029}'
    ||| c == '\u{202f}'
    ||| c == '\u{205f}'
    ||| c == '\u{3000}'
}

/// Decides [`is_space`].
pub fn char_is_space(c: char) -> (r: bool)
    ensures
        r == is_space(c),
{
    ('\u{9}' <= c && c <= '\u{d}') || c == ' ' || c == '\u{85}' || c == '\u{a0}' || c
        == '\u{1680}' || ('\u{2000}' <= c && c <= '\u{200a}') || c == '\u{2028}' || c
        == '\u{2029}' || c == '\u{202f}' || c == '\u{205f}' || c == '\u{3000}'
}

/// A token starts at position `i` of `s`: a character that is no white
/// space, at the start or after white space.
pub open spec fn starts_token(s: Seq<char>, i: int) -> bool {
    !is_space(s[i]) && (i == 0 || is_space(s[i - 1]))
}

/// The number of tokens of `s`: of its maximal runs of characters that are
/// no white space.
pub open spec fn token_count(s: Seq<char>) -> nat
    decreases s.len(),
{
    if s.len() == 0 {
        0
    } else {
        token_count(s.drop_last()) + if starts_token(s, s.len() - 1) {
            1nat
        } else {
            0nat
        }
    }
}

/// Whether `s` holds more than one token.
pub fn has_several_tokens(s: &str) -> (r: bool)
    ensures
        r == (token_count(s@) > 1),
{
    broadcast use vstd::string::axiom_spec_iter;

    let mut seen: u8 = 0;
    let mut after_space: bool = true;
    for c in it: s.chars()
        invariant
            it.seq() == s@,
            seen <= 1,
            seen == token_count(s@.subrange(0, it.index@)),
            after_space == (it.index@ == 0 || is_space(s@[it.index@ - 1])),
    {
        let ghost i = it.index@;
        proof {
            let upto = s@.subrange(0, i + 1);
            assert(upto.drop_last() =~= s@.subrange(0, i));
            assert(starts_token(upto, i) == starts_token(s@, i));
        }
        let space = char_is_space(c);
        if !space && after_space {
            if seen == 1 {
                proof {
                    lemma_token_count_grows(s@, i + 1);
                }
                return true;
            }
            seen = 1;
        }
        after_space = space;
    }
    proof {
        assert(s@.subrange(0, s@.len() as int) =~= s@);
    }
    false
}

/// A prefix holds no more tokens than the whole.
proof fn lemma_token_count_grows(s: Seq<char>, n: int)
    requires
        0 <= n <= s.len(),
    ensures
        token_count(s.subrange(0, n)) <= token_count(s),
    decreases s.len() - n,
{
    if n < s.len() {
        let upto = s.subrange(0, n + 1);
        assert(upto.drop_last() =~= s.subrange(0, n));
        lemma_token_count_grows(s, n + 1);
    } else {
        assert(s.subrange(0, n) =~= s);
    }
}

/// A decimal digit.
pub open spec fn is_digit(c: char) -> bool {
    '0' <= c <= '9'
}

/// The number that a decimal digit stands for.
pub open spec fn digit_value(c: char) -> nat {
    (c as u32 - '0' as u32) as nat
}

/// The decimal digit that stands for `d`, a number below ten.
pub open spec fn digit_char(d: nat) -> char {
    ('0' as u32 + d) as char
}

/// Every character of `s` is a decimal digit.
pub open spec fn all_digits(s: Seq<char>) -> bool {
    forall|i: int| 0 <= i < s.len() ==> is_digit(#[trigger] s[i])
}

/// The number that the digits `s` write, the most significant first.
pub open spec fn digits_value(s: Seq<char>) -> nat
    decreases s.len(),
{
    if s.len() == 0 {
        0
    } else {
        digits_value(s.drop_last()) * 10 + digit_value(s.last())
    }
}

/// `s` without the plus sign that may lead a number.
pub open spec fn unsigned_part(s: Seq<char>) -> Seq<char> {
    if s.len() > 0 && s[0] == '+' {
        s.subrange(1, s.len() as int)
    } else {
        s
    }
}

/// The number that the text `s` writes in decimal: an optional plus sign,
/// then one digit or more, leading zeros allowed, up to the largest `u32`.
/// Any other text writes no number.
pub open spec fn parsed_decimal(s: Seq<char>) -> Option<u32> {
    let digits = unsigned_part(s);
    if digits.len() > 0 && all_digits(digits) && digits_value(digits) <= u32::MAX {
        Some(digits_value(digits) as u32)
    } else {
        None
    }
}

/// The decimal digits of `n`, without leading zeros.
pub open spec fn decimal_digits(n: nat) -> Seq<char>
    decreases n,
{
    if n < 10 {
        seq![digit_char(n)]
    } else {
        decimal_digits(n / 10).push(digit_char(n % 10))
    }
}

/// The digits read so far never write more than all of them do.
proof fn lemma_digits_value_grows(s: Seq<char>, n: int)
    requires
        0 <= n <= s.len(),
    ensures
        digits_value(s.subrange(0, n)) <= digits_value(s),
    decreases s.len() - n,
{
    if n < s.len() {
        let upto = s.subrange(0, n + 1);
        assert(upto.drop_last() =~= s.subrange(0, n));
        lemma_digits_value_grows(s, n + 1);
    } else {
        assert(s.subrange(0, n) =~= s);
    }
}

/// Reads a decimal number from `s`, as [`parsed_decimal`] defines it.
pub fn parse_decimal(s: &str) -> (r: Option<u32>)
    ensures
        r == parsed_decimal(s@),
{
    broadcast use vstd::string::axiom_spec_iter;

    let mut value: u32 = 0;
    let mut any: bool = false;
    let mut signed: bool = false;
    let mut first: bool = true;
    for c in it: s.chars()
        invariant
            it.seq() == s@,
            first == (it.index@ == 0),
            signed == (it.index@ > 0 && s@[0] == '+'),
            any == (it.index@ > (if signed { 1int } else { 0int })),
            all_digits(s@.subrange(if signed { 1int } else { 0int }, it.index@)),
            value == digits_value(s@.subrange(if signed { 1int } else { 0int }, it.index@)),
    {
        let ghost i = it.index@;
        if first && c == '+' {
            first = false;
            signed = true;
            proof {
                assert(s@.subrange(1, 1) =~= Seq::<char>::empty());
            }
        } else {
            let ghost from = if signed { 1int } else { 0int };
            let ghost read = s@.subrange(from, i);
            let ghost upto = s@.subrange(from, i + 1);
            proof {
                assert(upto.drop_last() =~= read);
                assert(upto.last() == c);
                assert(unsigned_part(s@) =~= s@.subrange(from, s@.len() as int));
                assert(upto =~= unsigned_part(s@).subrange(0, i + 1 - from));
            }
            if !('0' <= c && c <= '9') {
                proof {
                    assert(unsigned_part(s@)[i - from] == c);
                }
                return None;
            }
            let digit: u64 = (c as u32 - '0' as u32) as u64;
            let next: u64 = value as u64 * 10 + digit;
            if next > u32::MAX as u64 {
                proof {
                    lemma_digits_value_grows(unsigned_part(s@), i + 1 - from);
                }
                return None;
            }
            value = next as u32;
            any = true;
            first = false;
        }
    }
    proof {
        let from = if signed { 1int } else { 0int };
        assert(unsigned_part(s@) =~= s@.subrange(from, s@.len() as int));
    }
    if any {
        Some(value)
    } else {
        None
    }
}

/// The text of one decimal digit.
fn digit_text(d: u32) -> (r: &'static str)
    requires
        d < 10,
    ensures
        r@ == seq![digit_char(d as nat)],
{
    proof {
        reveal_strlit("0");
        reveal_strlit("1");
        reveal_strlit("2");
        reveal_strlit("3");
        reveal_strlit("4");
        reveal_strlit("5");
        reveal_strlit("6");
        reveal_strlit("7");
        reveal_strlit("8");
        reveal_strlit("9");
    }
    let r = match d {
        0 => "0",
        1 => "1",
        2 => "2",
        3 => "3",
        4 => "4",
        5 => "5",
        6 => "6",
        7 => "7",
        8 => "8",
        _ => "9",
    };
    assert(r@ =~= seq![digit_char(d as nat)]);
    r
}

/// Writes the decimal digits of `n` at the end of `out`.
pub fn push_decimal(out: &mut String, n: u32)
    ensures
        final(out)@ == old(out)@ + decimal_digits(n as nat),
    decreases n,
{
    if n >= 10 {
        push_decimal(out, n / 10);
    }
    out.append(digit_text(n % 10));
    assert(final(out)@ =~= old(out)@ + decimal_digits(n as nat));
}

/// The decimal text of `n`, without leading zeros.
pub fn decimal_text(n: u32) -> (r: String)
    ensures
        r@ == decimal_digits(n as nat),
{
    let mut out = String::new();
    push_decimal(&mut out, n);
    assert(out@ =~= decimal_digits(n as nat));
    out
}

/// The decimal digits of a number are digits and write that number.
pub proof fn lemma_decimal_digits(n: nat)
    ensures
        decimal_digits(n).len() > 0,
        all_digits(decimal_digits(n)),
        digits_value(decimal_digits(n)) == n,
    decreases n,
{
    if n < 10 {
        let s = decimal_digits(n);
        assert(s.drop_last() =~= Seq::<char>::empty());
        assert(digits_value(s.drop_last()) == 0);
    } else {
        lemma_decimal_digits(n / 10);
        let s = decimal_digits(n);
        assert(s.drop_last() =~= decimal_digits(n / 10));
    }
}

/// What [`decimal_text`] writes, [`parse_decimal`] reads back.
pub proof fn law_decimal_round_trip(n: u32)
    ensures
        parsed_decimal(decimal_digits(n as nat)) == Some(n),
{
    lemma_decimal_digits(n as nat);
    let s = decimal_digits(n as nat);
    assert(is_digit(s[0]));
}

} // verus!
