//! English stemming: a word that ends in `-s`, `-ed` or `-ing` is resolved
//! through a base form the lexicon knows, whose phonemes take the suffix.
use vstd::prelude::*;
use crate::entry::{ctx_view, opt_view, TokenContext};
use crate::lexicon::Lexicon;
use crate::lookup::rated_view;
use crate::morphology::{with_ed, with_ing, with_s};
use crate::text::lowercase;

verus! {

/// Consonants that double before `-ing`.
pub open spec fn is_doubling(c: char) -> bool {
    c == 'b' || c == 'c' || c == 'd' || c == 'g' || c == 'k' || c == 'l' || c == 'm' || c == 'n'
        || c == 'p' || c == 'r' || c == 's' || c == 't' || c == 'v' || c == 'x' || c == 'z'
}

/// The two characters before `-ing` are a doubled consonant or `ck`.
pub open spec fn is_doubled(a: char, b: char) -> bool {
    (a == b && is_doubling(b)) || (a == 'c' && b == 'k')
}

/// Whether `a`, `b` are a doubled consonant or `ck`.
pub fn doubled(a: char, b: char) -> (r: bool)
    ensures
        r == is_doubled(a, b),
{
    let doubling = b == 'b' || b == 'c' || b == 'd' || b == 'g' || b == 'k' || b == 'l' || b == 'm'
        || b == 'n' || b == 'p' || b == 'r' || b == 's' || b == 't' || b == 'v' || b == 'x' || b
        == 'z';
    (a == b && doubling) || (a == 'c' && b == 'k')
}

/// The first `k` characters of `s` followed by `c`.
fn prefix_with(s: &str, k: usize, c: char) -> (r: String)
    requires
        k <= s@.len(),
    ensures
        r@ == s@.subrange(0, k as int).push(c),
{
    let mut r = s.substring_char(0, k).to_owned();
    r.push(c);
    r
}

impl Lexicon {
    /// The base form of a word in `-s`. The lowercase word has at least three
    /// characters and ends in `s`; tried in order are the word without its
    /// final `s` (unless it ends in `ss`), without its final two characters
    /// (if it ends in `'s`, or in `es` but not `ies` with more than four
    /// characters), and with `y` in place of a final `ies` (more than four
    /// characters). The first the lexicon knows is the base.
    pub open spec fn s_stem(&self, word: Seq<char>) -> Option<Seq<char>> {
        let lower = lowercase(word);
        let n = lower.len() as int;
        if n < 3 || lower[n - 1] != 's' {
            None
        } else if lower[n - 2] != 's' && self.known(lower.subrange(0, n - 1)) {
            Some(lower.subrange(0, n - 1))
        } else if (lower[n - 2] == '\'' || (n > 4 && lower[n - 2] == 'e' && lower[n - 3] != 'i'))
            && self.known(lower.subrange(0, n - 2)) {
            Some(lower.subrange(0, n - 2))
        } else if n > 4 && lower[n - 3] == 'i' && lower[n - 2] == 'e' && self.known(
            lower.subrange(0, n - 3).push('y'),
        ) {
            Some(lower.subrange(0, n - 3).push('y'))
        } else {
            None
        }
    }

    /// The base form of a word in `-ed`. The lowercase word has at least four
    /// characters and ends in `d`; tried in order are the word without its
    /// final `d` (unless it ends in `dd`) and without its final two
    /// characters (if it ends in `ed` but not `eed`, with more than four
    /// characters).
    pub open spec fn ed_stem(&self, word: Seq<char>) -> Option<Seq<char>> {
        let lower = lowercase(word);
        let n = lower.len() as int;
        if n < 4 || lower[n - 1] != 'd' {
            None
        } else if lower[n - 2] != 'd' && self.known(lower.subrange(0, n - 1)) {
            Some(lower.subrange(0, n - 1))
        } else if n > 4 && lower[n - 2] == 'e' && lower[n - 3] != 'e' && self.known(
            lower.subrange(0, n - 2),
        ) {
            Some(lower.subrange(0, n - 2))
        } else {
            None
        }
    }

    /// The base form of a word in `-ing`. The lowercase word has at least
    /// five characters and ends in `ing`; tried in order are the word without
    /// `ing` (more than five characters), that with a final `e`, and the word
    /// without `ing` and the character before it, where the two characters
    /// before `ing` are a doubled consonant or `ck` (more than five
    /// characters).
    pub open spec fn ing_stem(&self, word: Seq<char>) -> Option<Seq<char>> {
        let lower = lowercase(word);
        let n = lower.len() as int;
        if n < 5 || lower[n - 3] != 'i' || lower[n - 2] != 'n' || lower[n - 1] != 'g' {
            None
        } else if n > 5 && self.known(lower.subrange(0, n - 3)) {
            Some(lower.subrange(0, n - 3))
        } else if self.known(lower.subrange(0, n - 3).push('e')) {
            Some(lower.subrange(0, n - 3).push('e'))
        } else if n > 5 && is_doubled(lower[n - 5], lower[n - 4]) && self.known(
            lower.subrange(0, n - 4),
        ) {
            Some(lower.subrange(0, n - 4))
        } else {
            None
        }
    }

    /// The pronunciation of a word in `-s`: the phonemes of its base with the
    /// suffix, at the rating of the base.
    pub open spec fn stemmed_s(
        &self,
        word: Seq<char>,
        tag: Seq<char>,
        stress: Option<i32>,
        ctx: Option<TokenContext>,
    ) -> Option<(Seq<char>, i32)> {
        match self.s_stem(word) {
            Some(stem) => match self.looked_up(stem, tag, stress, ctx) {
                Some((ps, rating)) => Some((with_s(ps, self.lang.british()), rating)),
                None => None,
            },
            None => None,
        }
    }

    /// The pronunciation of a word in `-ed`: the phonemes of its base with
    /// the suffix, at the rating of the base.
    pub open spec fn stemmed_ed(
        &self,
        word: Seq<char>,
        tag: Seq<char>,
        stress: Option<i32>,
        ctx: Option<TokenContext>,
    ) -> Option<(Seq<char>, i32)> {
        match self.ed_stem(word) {
            Some(stem) => match self.looked_up(stem, tag, stress, ctx) {
                Some((ps, rating)) => Some((with_ed(ps, self.lang.british()), rating)),
                None => None,
            },
            None => None,
        }
    }

    /// The pronunciation of a word in `-ing`: the phonemes of its base with
    /// the suffix, at the rating of the base, where the base takes it.
    pub open spec fn stemmed_ing(
        &self,
        word: Seq<char>,
        tag: Seq<char>,
        stress: Option<i32>,
        ctx: Option<TokenContext>,
    ) -> Option<(Seq<char>, i32)> {
        match self.ing_stem(word) {
            Some(stem) => match self.looked_up(stem, tag, stress, ctx) {
                Some((ps, rating)) => match with_ing(ps, self.lang.british()) {
                    Some(out) => Some((out, rating)),
                    None => None,
                },
                None => None,
            },
            None => None,
        }
    }

    /// Finds the base form of a word in `-s`, see [`Lexicon::s_stem`].
    pub fn find_s_stem(&self, word: &str, tag: &str) -> (r: Option<String>)
        ensures
            opt_view(r) == self.s_stem(word@),
    {
        let owned = word.to_lowercase();
        let lower = owned.as_str();
        let n = lower.unicode_len();
        if n < 3 || lower.get_char(n - 1) != 's' {
            return None;
        }
        let before = lower.get_char(n - 2);
        if before != 's' && self.is_known(lower.substring_char(0, n - 1), tag) {
            return Some(lower.substring_char(0, n - 1).to_owned());
        }
        if (before == '\'' || (n > 4 && before == 'e' && lower.get_char(n - 3) != 'i'))
            && self.is_known(lower.substring_char(0, n - 2), tag) {
            return Some(lower.substring_char(0, n - 2).to_owned());
        }
        if n > 4 && lower.get_char(n - 3) == 'i' && before == 'e' {
            let with_y = prefix_with(lower, n - 3, 'y');
            if self.is_known(with_y.as_str(), tag) {
                return Some(with_y);
            }
        }
        None
    }

    /// Finds the base form of a word in `-ed`, see [`Lexicon::ed_stem`].
    pub fn find_ed_stem(&self, word: &str, tag: &str) -> (r: Option<String>)
        ensures
            opt_view(r) == self.ed_stem(word@),
    {
        let owned = word.to_lowercase();
        let lower = owned.as_str();
        let n = lower.unicode_len();
        if n < 4 || lower.get_char(n - 1) != 'd' {
            return None;
        }
        let before = lower.get_char(n - 2);
        if before != 'd' && self.is_known(lower.substring_char(0, n - 1), tag) {
            return Some(lower.substring_char(0, n - 1).to_owned());
        }
        if n > 4 && before == 'e' && lower.get_char(n - 3) != 'e' && self.is_known(
            lower.substring_char(0, n - 2),
            tag,
        ) {
            return Some(lower.substring_char(0, n - 2).to_owned());
        }
        None
    }

    /// Finds the base form of a word in `-ing`, see [`Lexicon::ing_stem`].
    pub fn find_ing_stem(&self, word: &str, tag: &str) -> (r: Option<String>)
        ensures
            opt_view(r) == self.ing_stem(word@),
    {
        let owned = word.to_lowercase();
        let lower = owned.as_str();
        let n = lower.unicode_len();
        if n < 5 || lower.get_char(n - 3) != 'i' || lower.get_char(n - 2) != 'n' || lower.get_char(
            n - 1,
        ) != 'g' {
            return None;
        }
        if n > 5 && self.is_known(lower.substring_char(0, n - 3), tag) {
            return Some(lower.substring_char(0, n - 3).to_owned());
        }
        let with_e = prefix_with(lower, n - 3, 'e');
        if self.is_known(with_e.as_str(), tag) {
            return Some(with_e);
        }
        if n > 5 && doubled(lower.get_char(n - 5), lower.get_char(n - 4)) && self.is_known(
            lower.substring_char(0, n - 4),
            tag,
        ) {
            return Some(lower.substring_char(0, n - 4).to_owned());
        }
        None
    }

    /// Resolves a word in `-s` through its base form, see
    /// [`Lexicon::stemmed_s`].
    pub fn stem_s(&self, word: &str, tag: &str, stress: Option<i32>, ctx: Option<&TokenContext>) -> (r:
        Option<(String, i32)>)
        ensures
            rated_view(r) == self.stemmed_s(word@, tag@, stress, ctx_view(ctx)),
    {
        match self.find_s_stem(word, tag) {
            Some(stem) => match self.lookup(stem.as_str(), tag, stress, ctx) {
                Some((ps, rating)) => Some((self.append_s(ps.as_str()), rating)),
                None => None,
            },
            None => None,
        }
    }

    /// Resolves a word in `-ed` through its base form, see
    /// [`Lexicon::stemmed_ed`].
    pub fn stem_ed(&self, word: &str, tag: &str, stress: Option<i32>, ctx: Option<&TokenContext>) -> (r:
        Option<(String, i32)>)
        ensures
            rated_view(r) == self.stemmed_ed(word@, tag@, stress, ctx_view(ctx)),
    {
        match self.find_ed_stem(word, tag) {
            Some(stem) => match self.lookup(stem.as_str(), tag, stress, ctx) {
                Some((ps, rating)) => Some((self.append_ed(ps.as_str()), rating)),
                None => None,
            },
            None => None,
        }
    }

    /// Resolves a word in `-ing` through its base form, see
    /// [`Lexicon::stemmed_ing`].
    pub fn stem_ing(&self, word: &str, tag: &str, stress: Option<i32>, ctx: Option<&TokenContext>) -> (r:
        Option<(String, i32)>)
        ensures
            rated_view(r) == self.stemmed_ing(word@, tag@, stress, ctx_view(ctx)),
    {
        match self.find_ing_stem(word, tag) {
            Some(stem) => match self.lookup(stem.as_str(), tag, stress, ctx) {
                Some((ps, rating)) => match self.append_ing(ps.as_str()) {
                    Some(out) => Some((out, rating)),
                    None => None,
                },
                None => None,
            },
            None => None,
        }
    }
}

} // verus!
