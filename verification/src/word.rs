//! The lexicon's front door: special cases, case folding, lookup,
//! possessives and stemming, tried in that order.
use vstd::prelude::*;
use crate::entry::{ctx_view, resolved, TokenContext};
use crate::lexicon::Lexicon;
use crate::lookup::rated_view;
use crate::text::{alphabetic, lowercase, same};

verus! {

/// Every character of `word` is alphabetic or an apostrophe.
pub open spec fn is_lettered(word: Seq<char>) -> bool {
    forall|i: int| 0 <= i < word.len() ==> #[trigger] word[i] == '\'' || alphabetic(word[i])
}

/// `w` ends in `s'`.
pub open spec fn is_plural_possessive(w: Seq<char>) -> bool {
    w.len() >= 2 && w[w.len() - 2] == 's' && w[w.len() - 1] == '\''
}

/// `w` ends in an apostrophe.
pub open spec fn ends_in_apostrophe(w: Seq<char>) -> bool {
    w.len() >= 1 && w[w.len() - 1] == '\''
}

/// The stress target of the `-ing` stemmer: the given one, one half step
/// where none is given.
pub open spec fn ing_stress(stress: Option<i32>) -> Option<i32> {
    match stress {
        Some(h) => Some(h),
        None => Some(1i32),
    }
}

/// Whether every character of `word` is alphabetic or an apostrophe.
pub fn lettered(word: &str) -> (r: bool)
    ensures
        r == is_lettered(word@),
{
    let n = word.unicode_len();
    let mut i: usize = 0;
    while i < n
        invariant
            n == word@.len(),
            i <= n,
            forall|j: int| 0 <= j < i ==> #[trigger] word@[j] == '\'' || alphabetic(word@[j]),
        decreases n - i,
    {
        let c = word.get_char(i);
        if c != '\'' && !c.is_alphabetic() {
            return false;
        }
        i += 1;
    }
    true
}

impl Lexicon {
    /// Whether a word is resolved in lower case: it is made of letters and
    /// apostrophes, differs from its lowercase form, is no proper noun (or
    /// has more than seven characters), has no entry as it stands, and its
    /// lowercase form has an entry or a known stem.
    pub open spec fn folds(
        &self,
        word: Seq<char>,
        tag: Seq<char>,
        stress: Option<i32>,
        ctx: Option<TokenContext>,
    ) -> bool {
        let wl = lowercase(word);
        is_lettered(word) && word != wl && (tag != "NNP"@ || word.len() > 7)
            && !self.gold().contains_key(word) && !self.silver().contains_key(word) && (
        self.gold().contains_key(wl) || self.silver().contains_key(wl) || self.stemmed_s(
            wl,
            tag,
            stress,
            ctx,
        ) is Some || self.stemmed_ed(wl, tag, stress, ctx) is Some || self.stemmed_ing(
            wl,
            tag,
            stress,
            ctx,
        ) is Some)
    }

    /// The pronunciation and rating of a word, or `None` where the lexicon
    /// cannot resolve it. In order: a special case; the lookup of the word,
    /// in lower case where it folds, if it is known; the possessive in `s'`,
    /// looked up as the stem with `'s`; the possessive in `'`, looked up as
    /// the stem; then the stemmers for `-s`, `-ed` and `-ing`, the last with
    /// a stress target of one half step where none is given.
    pub open spec fn word_of(
        &self,
        word: Seq<char>,
        tag: Seq<char>,
        stress: Option<i32>,
        ctx: Option<TokenContext>,
    ) -> Option<(Seq<char>, i32)> {
        let w = if self.folds(word, tag, stress, ctx) {
            lowercase(word)
        } else {
            word
        };
        let n = w.len() as int;
        if self.special_case(word, tag, stress, ctx) is Some {
            self.special_case(word, tag, stress, ctx)
        } else if self.known(w) {
            self.looked_up(w, tag, stress, ctx)
        } else if is_plural_possessive(w) && self.known(w.subrange(0, n - 2)) {
            self.looked_up(w.subrange(0, n - 2).push('\'').push('s'), tag, stress, ctx)
        } else if ends_in_apostrophe(w) && self.known(w.subrange(0, n - 1)) {
            self.looked_up(w.subrange(0, n - 1), tag, stress, ctx)
        } else if self.stemmed_s(w, tag, stress, ctx) is Some {
            self.stemmed_s(w, tag, stress, ctx)
        } else if self.stemmed_ed(w, tag, stress, ctx) is Some {
            self.stemmed_ed(w, tag, stress, ctx)
        } else {
            self.stemmed_ing(w, tag, ing_stress(stress), ctx)
        }
    }

    /// The form under which a word is looked up: its lowercase form where it
    /// folds, else the word itself.
    pub open spec fn looked_form(
        &self,
        word: Seq<char>,
        tag: Seq<char>,
        stress: Option<i32>,
        ctx: Option<TokenContext>,
    ) -> Seq<char> {
        if self.folds(word, tag, stress, ctx) {
            lowercase(word)
        } else {
            word
        }
    }

    /// A word whose looked-up form is known is resolved exactly where a
    /// special case settles it or the lookup of that form gives phonemes. A
    /// known word can thus stay unresolved: only where the dictionary holds
    /// nothing to pronounce it with.
    pub proof fn law_known_word_resolves(
        &self,
        word: Seq<char>,
        tag: Seq<char>,
        stress: Option<i32>,
        ctx: Option<TokenContext>,
    )
        requires
            self.known(self.looked_form(word, tag, stress, ctx)),
        ensures
            self.word_of(word, tag, stress, ctx) is Some <==> (self.special_case(
                word,
                tag,
                stress,
                ctx,
            ) is Some || self.looked_up(
                self.looked_form(word, tag, stress, ctx),
                tag,
                stress,
                ctx,
            ) is Some),
    {
    }

    /// A word with a simple entry in the gold tier is known, and is resolved
    /// whatever the tag, the stress target and the context.
    pub proof fn law_gold_word_resolves(
        &self,
        word: Seq<char>,
        tag: Seq<char>,
        stress: Option<i32>,
        ctx: Option<TokenContext>,
    )
        requires
            self.gold_simple(word) is Some,
        ensures
            self.known(word),
            self.word_of(word, tag, stress, ctx) is Some,
    {
        assert(self.gold().contains_key(word));
        assert(!self.folds(word, tag, stress, ctx));
        assert(resolved(self.gold()[word], tag, ctx) is Some);
        assert(self.probed(word, tag, ctx, false) is Some);
        assert(self.looked_up(word, tag, stress, ctx) is Some);
    }

    /// Whether a word is resolved in lower case, see [`Lexicon::folds`].
    pub fn should_fold(
        &self,
        word: &str,
        tag: &str,
        stress: Option<i32>,
        ctx: Option<&TokenContext>,
    ) -> (r: bool)
        ensures
            r == self.folds(word@, tag@, stress, ctx_view(ctx)),
    {
        let owned = word.to_lowercase();
        let wl = owned.as_str();
        if !lettered(word) || same(word, wl) {
            return false;
        }
        if same(tag, "NNP") && word.unicode_len() <= 7 {
            return false;
        }
        if self.golds.contains_key(word) || self.silvers.contains_key(word) {
            return false;
        }
        self.golds.contains_key(wl) || self.silvers.contains_key(wl) || self.stem_s(
            wl,
            tag,
            stress,
            ctx,
        ).is_some() || self.stem_ed(wl, tag, stress, ctx).is_some() || self.stem_ing(
            wl,
            tag,
            stress,
            ctx,
        ).is_some()
    }

    /// Resolves a word to phonemes and a rating, see [`Lexicon::word_of`].
    pub fn get_word(
        &self,
        word: &str,
        tag: &str,
        stress: Option<i32>,
        ctx: Option<&TokenContext>,
    ) -> (r: Option<(String, i32)>)
        ensures
            rated_view(r) == self.word_of(word@, tag@, stress, ctx_view(ctx)),
    {
        if let Some(found) = self.get_special_case(word, tag, stress, ctx) {
            return Some(found);
        }
        let owned: String = if self.should_fold(word, tag, stress, ctx) {
            word.to_lowercase()
        } else {
            word.to_owned()
        };
        let w = owned.as_str();
        let n = w.unicode_len();
        if self.is_known(w, tag) {
            return self.lookup(w, tag, stress, ctx);
        }
        if n >= 2 && w.get_char(n - 2) == 's' && w.get_char(n - 1) == '\'' && self.is_known(
            w.substring_char(0, n - 2),
            tag,
        ) {
            let mut singular = w.substring_char(0, n - 2).to_owned();
            singular.push('\'');
            singular.push('s');
            return self.lookup(singular.as_str(), tag, stress, ctx);
        }
        if n >= 1 && w.get_char(n - 1) == '\'' && self.is_known(w.substring_char(0, n - 1), tag) {
            return self.lookup(w.substring_char(0, n - 1), tag, stress, ctx);
        }
        if let Some(found) = self.stem_s(w, tag, stress, ctx) {
            return Some(found);
        }
        if let Some(found) = self.stem_ed(w, tag, stress, ctx) {
            return Some(found);
        }
        let target: Option<i32> = match stress {
            Some(h) => Some(h),
            None => Some(1),
        };
        self.stem_ing(w, tag, target, ctx)
    }
}

} // verus!
