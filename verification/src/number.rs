//! Number expansion: a token of digits is read as the English words of the
//! integer it denotes.
use vstd::prelude::*;
use crate::entry::opt_view;
use crate::text::{digit, is_digit, remove_char, without};

verus! {

/// The English cardinal words of an integer, where they can be formed.
pub uninterp spec fn cardinal_words(n: i64) -> Option<Seq<char>>;

/// The number that a string of digits denotes in decimal notation.
pub open spec fn digits_value(s: Seq<char>) -> int
    decreases s.len(),
{
    if s.len() == 0 {
        0
    } else {
        digits_value(s.drop_last()) * 10 + (s.last() as u32 - '0' as u32)
    }
}

/// Every character of `s` is an ASCII digit.
pub open spec fn all_digits(s: Seq<char>) -> bool {
    forall|i: int| 0 <= i < s.len() ==> is_digit(#[trigger] s[i])
}

/// Whether `s` begins with a sign.
pub open spec fn is_signed(s: Seq<char>) -> bool {
    s.len() > 0 && (s[0] == '-' || s[0] == '+')
}

/// The digits of a numeral: what follows its sign, if it has one.
pub open spec fn numeral_digits(s: Seq<char>) -> Seq<char> {
    if is_signed(s) {
        s.subrange(1, s.len() as int)
    } else {
        s
    }
}

/// The integer that a numeral denotes before its size is looked at.
pub open spec fn numeral_value(s: Seq<char>) -> int {
    if s.len() > 0 && s[0] == '-' {
        -digits_value(numeral_digits(s))
    } else {
        digits_value(numeral_digits(s))
    }
}

/// The integer a string denotes: an optional sign and at least one digit,
/// nothing else, and a value that fits in 64 bits.
pub open spec fn parsed_integer(s: Seq<char>) -> Option<i64> {
    let digits = numeral_digits(s);
    if digits.len() == 0 || !all_digits(digits) {
        None
    } else if i64::MIN <= numeral_value(s) <= i64::MAX {
        Some(numeral_value(s) as i64)
    } else {
        None
    }
}

/// Reads a decimal integer, see [`parsed_integer`].
pub fn parse_integer(s: &str) -> (r: Option<i64>)
    ensures
        r == parsed_integer(s@),
{
    let n = s.unicode_len();
    if n == 0 {
        return None;
    }
    let first = s.get_char(0);
    let negative = first == '-';
    let start: usize = if first == '-' || first == '+' {
        1
    } else {
        0
    };
    if start == n {
        return None;
    }
    let ghost digits = numeral_digits(s@);
    proof {
        assert(digits =~= s@.subrange(start as int, n as int));
        assert(digits.subrange(0, 0) =~= Seq::<char>::empty());
    }
    let mut acc: i128 = 0;
    let mut over = false;
    let mut i: usize = start;
    while i < n
        invariant
            n == s@.len(),
            start <= i <= n,
            digits == s@.subrange(start as int, n as int),
            digits == numeral_digits(s@),
            start < n,
            negative == (s@[0] == '-'),
            all_digits(digits.subrange(0, i - start)),
            !over ==> acc == digits_value(digits.subrange(0, i - start)) && 0 <= acc
                <= 0x8000_0000_0000_0000,
            over ==> digits_value(digits.subrange(0, i - start)) > 0x8000_0000_0000_0000,
        decreases n - i,
    {
        let c = s.get_char(i);
        if !digit(c) {
            proof {
                assert(digits[i - start] == c);
                assert(!is_digit(digits[i - start]));
                assert(!all_digits(digits));
            }
            return None;
        }
        let d: u32 = c as u32 - '0' as u32;
        proof {
            let next = digits.subrange(0, i + 1 - start);
            assert(next.drop_last() =~= digits.subrange(0, i - start));
            assert(next.last() == c);
            assert forall|j: int| 0 <= j < next.len() implies is_digit(#[trigger] next[j]) by {
                if j < i - start {
                    assert(next[j] == digits.subrange(0, i - start)[j]);
                }
            }
        }
        if !over {
            let next: i128 = acc * 10 + d as i128;
            if next > 0x8000_0000_0000_0000 {
                over = true;
            } else {
                acc = next;
            }
        }
        i += 1;
    }
    proof {
        assert(digits.subrange(0, n - start) =~= digits);
    }
    if over {
        None
    } else if negative {
        Some((-acc) as i64)
    } else if acc <= 0x7fff_ffff_ffff_ffff {
        Some(acc as i64)
    } else {
        None
    }
}

/// `Num2Words::new(n).to_words()` of num2words: the English cardinal words
/// of the integer, `None` where the crate reports an error; named
/// [`cardinal_words`] and not spelled out.
#[verifier::external_body]
fn integer_words(n: i64) -> (r: Option<String>)
    ensures
        opt_view(r) == cardinal_words(n),
{
    num2words::Num2Words::new(n).to_words().ok()
}

/// The integer a token denotes once its commas are taken out.
pub open spec fn number_of(word: Seq<char>) -> Option<i64> {
    parsed_integer(without(word, ','))
}

/// The spoken form of a token: the words if there are some, else the token
/// itself.
pub open spec fn spoken_or(word: Seq<char>, words: Option<Seq<char>>) -> Seq<char> {
    match words {
        Some(w) => w,
        None => word,
    }
}

/// The spoken form of a token: the cardinal words of the integer it denotes,
/// or the token itself where it denotes none or the words cannot be formed.
pub open spec fn spoken_form(word: Seq<char>) -> Seq<char> {
    match number_of(word) {
        Some(n) => spoken_or(word, cardinal_words(n)),
        None => word,
    }
}

/// The integer a token denotes, commas ignored.
pub fn read_number(word: &str) -> (r: Option<i64>)
    ensures
        r == number_of(word@),
{
    let clean = remove_char(word, ',');
    parse_integer(clean.as_str())
}

/// Whether a token denotes an integer, commas ignored.
pub fn is_number(word: &str) -> (r: bool)
    ensures
        r == number_of(word@) is Some,
{
    read_number(word).is_some()
}

/// Chooses the spoken form of a token from the outcome of the expansion:
/// the words where there are some, else the token unchanged.
pub fn spoken_or_word(word: &str, words: Option<String>) -> (r: String)
    ensures
        r@ == spoken_or(word@, opt_view(words)),
{
    match words {
        Some(w) => w,
        None => word.to_owned(),
    }
}

/// The spoken form of a token, see [`spoken_form`].
pub fn convert_number(word: &str) -> (r: String)
    ensures
        r@ == spoken_form(word@),
{
    match read_number(word) {
        Some(n) => spoken_or_word(word, integer_words(n)),
        None => word.to_owned(),
    }
}

} // verus!
