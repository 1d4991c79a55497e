//! The phonetic suffixes of English inflection: what `-s`, `-ed` and `-ing`
//! add to the phonemes of a stem, by the stem's last sounds and by variant.
use vstd::prelude::*;
use crate::lexicon::Lexicon;
use crate::entry::opt_view;

verus! {

/// Whether `c` is a sound after which US English flaps a following `t`.
pub open spec fn is_tap_vowel(c: char) -> bool {
    c == 'A' || c == 'I' || c == 'O' || c == 'W' || c == 'Y' || c == 'i' || c == 'u' || c == 'æ'
        || c == 'ɑ' || c == 'ə' || c == 'ɛ' || c == 'ɪ' || c == 'ɹ' || c == 'ʊ' || c == 'ʌ'
}

/// Voiceless sounds after which the plural is `s`.
pub open spec fn takes_s(c: char) -> bool {
    c == 'p' || c == 't' || c == 'k' || c == 'f' || c == 'θ'
}

/// Sibilants after which the plural takes a vowel before `z`.
pub open spec fn is_sibilant(c: char) -> bool {
    c == 's' || c == 'z' || c == 'ʃ' || c == 'ʒ' || c == 'ʧ' || c == 'ʤ'
}

/// Voiceless sounds after which the past tense is `t`.
pub open spec fn takes_t(c: char) -> bool {
    c == 'p' || c == 'k' || c == 'f' || c == 'θ' || c == 'ʃ' || c == 's' || c == 'ʧ'
}

/// The reduced vowel of a syllabic suffix: `ɪ` in GB, `ᵻ` in US.
pub open spec fn suffix_vowel(british: bool) -> char {
    if british {
        'ɪ'
    } else {
        'ᵻ'
    }
}

/// The stem ends in `t` after a tap vowel.
pub open spec fn ends_in_tap(stem: Seq<char>) -> bool {
    stem.len() >= 2 && stem.last() == 't' && is_tap_vowel(stem[stem.len() - 2])
}

/// The phonemes of a stem with the `-s` suffix.
pub open spec fn with_s(stem: Seq<char>, british: bool) -> Seq<char> {
    if stem.len() == 0 {
        stem
    } else if takes_s(stem.last()) {
        stem.push('s')
    } else if is_sibilant(stem.last()) {
        stem.push(suffix_vowel(british)).push('z')
    } else {
        stem.push('z')
    }
}

/// The phonemes of a stem with the `-ed` suffix.
pub open spec fn with_ed(stem: Seq<char>, british: bool) -> Seq<char> {
    if stem.len() == 0 {
        stem
    } else if takes_t(stem.last()) {
        stem.push('t')
    } else if stem.last() == 'd' {
        stem.push(suffix_vowel(british)).push('d')
    } else if stem.last() != 't' {
        stem.push('d')
    } else if british || stem.len() < 2 {
        stem.push('ɪ').push('d')
    } else if ends_in_tap(stem) {
        stem.drop_last().push('ɾ').push('ᵻ').push('d')
    } else {
        stem.push('ᵻ').push('d')
    }
}

/// GB English forms no `-ing` on a stem that ends in `ə` or a length mark.
pub open spec fn rejects_ing(stem: Seq<char>, british: bool) -> bool {
    stem.len() == 0 || (british && (stem.last() == 'ə' || stem.last() == 'ː'))
}

/// The phonemes of a stem with the `-ing` suffix, if it takes one.
pub open spec fn with_ing(stem: Seq<char>, british: bool) -> Option<Seq<char>> {
    if rejects_ing(stem, british) {
        None
    } else if !british && ends_in_tap(stem) {
        Some(stem.drop_last().push('ɾ').push('ɪ').push('ŋ'))
    } else {
        Some(stem.push('ɪ').push('ŋ'))
    }
}

/// The suffixes are total on stems that are not empty: `-s` and `-ed` always
/// extend the stem by at least one sound, and `-ing` is formed, and extends
/// the stem, except in GB English on a stem that ends in `ə` or a length
/// mark.
pub proof fn law_suffixes_total(stem: Seq<char>, british: bool)
    requires
        stem.len() > 0,
    ensures
        with_s(stem, british).len() > stem.len(),
        with_ed(stem, british).len() > stem.len(),
        with_ing(stem, british) is None <==> british && (stem.last() == 'ə' || stem.last() == 'ː'),
        with_ing(stem, british) is Some ==> with_ing(stem, british)->0.len() > stem.len(),
{
}

/// Whether `c` is a sound after which US English flaps a following `t`.
pub fn tap_vowel(c: char) -> (r: bool)
    ensures
        r == is_tap_vowel(c),
{
    c == 'A' || c == 'I' || c == 'O' || c == 'W' || c == 'Y' || c == 'i' || c == 'u' || c == 'æ'
        || c == 'ɑ' || c == 'ə' || c == 'ɛ' || c == 'ɪ' || c == 'ɹ' || c == 'ʊ' || c == 'ʌ'
}

/// The stem without its last character, followed by `a`, `b` and `c`.
fn swap_last(stem: &str, a: char, b: char, c: char) -> (r: String)
    requires
        stem@.len() >= 1,
    ensures
        r@ == stem@.drop_last().push(a).push(b).push(c),
{
    let n = stem.unicode_len();
    let mut r = stem.substring_char(0, n - 1).to_owned();
    r.push(a);
    r.push(b);
    r.push(c);
    r
}

/// The stem followed by `a` and `b`.
fn push2(stem: &str, a: char, b: char) -> (r: String)
    ensures
        r@ == stem@.push(a).push(b),
{
    let mut r = stem.to_owned();
    r.push(a);
    r.push(b);
    r
}

/// The stem followed by `a`.
fn push1(stem: &str, a: char) -> (r: String)
    ensures
        r@ == stem@.push(a),
{
    let mut r = stem.to_owned();
    r.push(a);
    r
}

impl Lexicon {
    /// Appends the plural or third-person suffix to the phonemes of a stem:
    /// `s` after a voiceless sound, a reduced vowel and `z` after a sibilant,
    /// else `z`. An empty stem stays empty.
    pub fn append_s(&self, stem: &str) -> (r: String)
        ensures
            r@ == with_s(stem@, self.lang.british()),
            stem@.len() > 0 ==> r@.len() > stem@.len(),
    {
        let n = stem.unicode_len();
        if n == 0 {
            return String::new();
        }
        let last = stem.get_char(n - 1);
        let british = self.lang.is_british();
        if last == 'p' || last == 't' || last == 'k' || last == 'f' || last == 'θ' {
            push1(stem, 's')
        } else if last == 's' || last == 'z' || last == 'ʃ' || last == 'ʒ' || last == 'ʧ' || last
            == 'ʤ' {
            push2(stem, if british { 'ɪ' } else { 'ᵻ' }, 'z')
        } else {
            push1(stem, 'z')
        }
    }

    /// Appends the past-tense suffix to the phonemes of a stem: `t` after a
    /// voiceless sound, a reduced vowel and `d` after `d` or `t`, else `d`;
    /// in US English a `t` after a tap vowel becomes a flap. An empty stem
    /// stays empty.
    pub fn append_ed(&self, stem: &str) -> (r: String)
        ensures
            r@ == with_ed(stem@, self.lang.british()),
            stem@.len() > 0 ==> r@.len() > stem@.len(),
    {
        let n = stem.unicode_len();
        if n == 0 {
            return String::new();
        }
        let british = self.lang.is_british();
        let last = stem.get_char(n - 1);
        if last == 'p' || last == 'k' || last == 'f' || last == 'θ' || last == 'ʃ' || last == 's'
            || last == 'ʧ' {
            push1(stem, 't')
        } else if last == 'd' {
            push2(stem, if british { 'ɪ' } else { 'ᵻ' }, 'd')
        } else if last != 't' {
            push1(stem, 'd')
        } else if british || n < 2 {
            push2(stem, 'ɪ', 'd')
        } else if tap_vowel(stem.get_char(n - 2)) {
            swap_last(stem, 'ɾ', 'ᵻ', 'd')
        } else {
            push2(stem, 'ᵻ', 'd')
        }
    }

    /// Appends the progressive suffix to the phonemes of a stem. It is formed
    /// on every stem but the empty one and, in GB English, one that ends in
    /// `ə` or a length mark; in US English a `t` after a tap vowel becomes a
    /// flap.
    pub fn append_ing(&self, stem: &str) -> (r: Option<String>)
        ensures
            opt_view(r) == with_ing(stem@, self.lang.british()),
            r is Some <==> !rejects_ing(stem@, self.lang.british()),
            r is Some ==> r->0@.len() > stem@.len(),
    {
        let n = stem.unicode_len();
        if n == 0 {
            return None;
        }
        let british = self.lang.is_british();
        let last = stem.get_char(n - 1);
        if british && (last == 'ə' || last == 'ː') {
            return None;
        }
        if !british && n >= 2 && last == 't' && tap_vowel(stem.get_char(n - 2)) {
            return Some(swap_last(stem, 'ɾ', 'ɪ', 'ŋ'));
        }
        Some(push2(stem, 'ɪ', 'ŋ'))
    }
}

} // verus!
