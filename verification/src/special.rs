//! Function words, symbols and dotted acronyms whose pronunciation depends on
//! the tag and on what follows; they are settled before any general lookup.
use vstd::prelude::*;
use crate::entry::{
    begins2, ctx_view, find_variant, get_parent_tag, parent_tag, starts2, variant_of, EntryView,
    PhonemeEntry, TokenContext,
};
use crate::lexicon::{Lexicon, GOLD_RATING};
use crate::lookup::{
    add_symbol_word, get_add_symbols, get_symbols, initialism, rated_view, symbol_word,
};
use crate::text::{alphabetic, lowercase, same};

verus! {

/// `word` holds a dot, and all its other characters are alphabetic.
pub open spec fn is_dotted(word: Seq<char>) -> bool {
    word.contains('.') && forall|i: int|
        0 <= i < word.len() ==> #[trigger] word[i] == '.' || alphabetic(word[i])
}

/// No three characters in a row are free of dots: every stretch between dots
/// has fewer than three characters.
pub open spec fn short_segments(word: Seq<char>) -> bool {
    forall|i: int|
        0 <= i && i + 2 < word.len() ==> #[trigger] word[i] == '.' || word[i + 1] == '.' || word[i
            + 2] == '.'
}

/// The following sound a context reports, unknown where there is no context.
pub open spec fn future_vowel_of(ctx: Option<TokenContext>) -> Option<bool> {
    match ctx {
        Some(c) => c.future_vowel,
        None => None,
    }
}

/// `word` is `a` in lower case, capitalized or in upper case, the forms
/// being given.
pub open spec fn is_one_of(word: Seq<char>, a: Seq<char>, b: Seq<char>, c: Seq<char>) -> bool {
    word == a || word == b || word == c
}

/// Whether `word` holds a dot and otherwise alphabetic characters only.
pub fn dotted(word: &str) -> (r: bool)
    ensures
        r == is_dotted(word@),
{
    let n = word.unicode_len();
    let mut seen = false;
    let mut i: usize = 0;
    while i < n
        invariant
            n == word@.len(),
            i <= n,
            seen <==> exists|j: int| 0 <= j < i && word@[j] == '.',
            forall|j: int| 0 <= j < i ==> #[trigger] word@[j] == '.' || alphabetic(word@[j]),
        decreases n - i,
    {
        let c = word.get_char(i);
        if c == '.' {
            seen = true;
        } else if !c.is_alphabetic() {
            return false;
        }
        i += 1;
    }
    seen
}

/// Whether every stretch of `word` between dots has fewer than three
/// characters.
pub fn has_short_segments(word: &str) -> (r: bool)
    ensures
        r == short_segments(word@),
{
    let n = word.unicode_len();
    let mut run: usize = 0;
    let mut i: usize = 0;
    while i < n
        invariant
            n == word@.len(),
            i <= n,
            run <= 2,
            run <= i,
            forall|j: int| i - run <= j < i ==> word@[j] != '.',
            run < 2 && run < i ==> word@[i - run - 1] == '.',
            forall|j: int|
                0 <= j && j + 2 < i ==> #[trigger] word@[j] == '.' || word@[j + 1] == '.' || word@[j
                    + 2] == '.',
        decreases n - i,
    {
        let c = word.get_char(i);
        if c == '.' {
            run = 0;
        } else if run == 2 {
            proof {
                assert(word@[i - 2] != '.' && word@[i - 2 + 1] != '.' && word@[i - 2 + 2] != '.');
            }
            return false;
        } else {
            run += 1;
        }
        i += 1;
    }
    true
}

impl Lexicon {
    /// The phonemes of the simple gold entry of `key`, if gold holds one.
    pub open spec fn gold_simple(&self, key: Seq<char>) -> Option<Seq<char>> {
        if self.gold().contains_key(key) {
            match self.gold()[key] {
                EntryView::Simple(ps) => Some(ps),
                EntryView::Tagged(_) => None,
            }
        } else {
            None
        }
    }

    /// The phonemes that the tagged gold entry of `key` holds under the tag
    /// key `variant`, if gold holds such an entry and the variant has some.
    pub open spec fn gold_variant(&self, key: Seq<char>, variant: Seq<char>) -> Option<Seq<char>> {
        if self.gold().contains_key(key) {
            match self.gold()[key] {
                EntryView::Simple(_) => None,
                EntryView::Tagged(variants) => match variant_of(variants, variant) {
                    Some(Some(ps)) => Some(ps),
                    _ => None,
                },
            }
        } else {
            None
        }
    }

    /// The pronunciation of a special case, or `None` where the word is none
    /// or the dictionary lacks what the case needs. The cases are tried in
    /// this order and the first whose condition holds decides: a symbol
    /// inside an address, a symbol, a dotted acronym, then the words `a`,
    /// `am`, `an`, `I`, `by`, `to`, `in`, `the`, `vs` and `used`.
    ///
    /// `am` is the gold entry; the lower-case word falls back to `ɐm` where
    /// the following sound is unknown and the stress target is not positive.
    /// `in` carries primary stress unless it is tagged `IN` and the following
    /// sound is unknown.
    pub open spec fn special_case(
        &self,
        word: Seq<char>,
        tag: Seq<char>,
        stress: Option<i32>,
        ctx: Option<TokenContext>,
    ) -> Option<(Seq<char>, i32)> {
        let fv = future_vowel_of(ctx);
        if tag == "ADD"@ && add_symbol_word(word) is Some {
            self.looked_up(add_symbol_word(word)->0, "NN"@, Some(-1i32), ctx)
        } else if symbol_word(word) is Some {
            self.looked_up(symbol_word(word)->0, "NN"@, None, ctx)
        } else if is_dotted(word) {
            if short_segments(word) {
                initialism(self.gold(), word)
            } else {
                None
            }
        } else if word == "a"@ || word == "A"@ {
            Some((if tag == "DT"@ { "ɐ"@ } else { "ˈA"@ }, GOLD_RATING))
        } else if is_one_of(word, "am"@, "Am"@, "AM"@) {
            if starts2(tag, 'N', 'N') {
                initialism(self.gold(), word)
            } else if (fv is Some || word != "am"@ || (stress is Some && stress->0 > 0))
                && self.gold_simple("am"@) is Some {
                Some((self.gold_simple("am"@)->0, GOLD_RATING))
            } else {
                Some(("ɐm"@, GOLD_RATING))
            }
        } else if is_one_of(word, "an"@, "An"@, "AN"@) {
            if word == "AN"@ && starts2(tag, 'N', 'N') {
                initialism(self.gold(), word)
            } else {
                Some(("ɐn"@, GOLD_RATING))
            }
        } else if word == "I"@ && tag == "PRP"@ {
            Some(("ˌI"@, GOLD_RATING))
        } else if is_one_of(word, "by"@, "By"@, "BY"@) && parent_tag(tag) == "ADV"@ {
            Some(("bˈI"@, GOLD_RATING))
        } else if word == "to"@ || word == "To"@ || (word == "TO"@ && (tag == "TO"@ || tag
            == "IN"@)) {
            match self.gold_simple("to"@) {
                Some(ps) => Some(
                    (
                        match fv {
                            None => ps,
                            Some(false) => "tə"@,
                            Some(true) => "tʊ"@,
                        },
                        GOLD_RATING,
                    ),
                ),
                None => None,
            }
        } else if word == "in"@ || word == "In"@ || (word == "IN"@ && tag != "NNP"@) {
            Some((if fv is None && tag == "IN"@ { "ɪn"@ } else { "ˈɪn"@ }, GOLD_RATING))
        } else if word == "the"@ || word == "The"@ || (word == "THE"@ && tag == "DT"@) {
            Some((if fv == Some(true) { "ði"@ } else { "ðə"@ }, GOLD_RATING))
        } else if tag == "IN"@ && (lowercase(word) == "vs"@ || lowercase(word) == "vs."@) {
            self.looked_up("versus"@, "NN"@, None, ctx)
        } else if is_one_of(word, "used"@, "Used"@, "USED"@) {
            if (tag == "VBD"@ || tag == "JJ"@) && ctx is Some && ctx->0.future_to
                && self.gold_variant("used"@, "VBD"@) is Some {
                Some((self.gold_variant("used"@, "VBD"@)->0, GOLD_RATING))
            } else if self.gold_variant("used"@, "DEFAULT"@) is Some {
                Some((self.gold_variant("used"@, "DEFAULT"@)->0, GOLD_RATING))
            } else {
                None
            }
        } else {
            None
        }
    }

    /// The simple gold entry of `key`, see [`Lexicon::gold_simple`].
    pub fn get_gold_simple(&self, key: &str) -> (r: Option<String>)
        ensures
            crate::entry::opt_view(r) == self.gold_simple(key@),
    {
        match self.golds.get(key) {
            Some(entry) => match entry {
                PhonemeEntry::Simple(ps) => Some(ps.clone()),
                PhonemeEntry::Tagged(_) => None,
            },
            None => None,
        }
    }

    /// A variant of the tagged gold entry of `key`, see
    /// [`Lexicon::gold_variant`].
    pub fn get_gold_variant(&self, key: &str, variant: &str) -> (r: Option<String>)
        ensures
            crate::entry::opt_view(r) == self.gold_variant(key@, variant@),
    {
        match self.golds.get(key) {
            Some(entry) => match entry {
                PhonemeEntry::Simple(_) => None,
                PhonemeEntry::Tagged(variants) => match find_variant(variants, variant) {
                    Some(Some(ps)) => Some(ps),
                    _ => None,
                },
            },
            None => None,
        }
    }

    /// Settles the words whose pronunciation depends on tag and context, see
    /// [`Lexicon::special_case`].
    pub fn get_special_case(
        &self,
        word: &str,
        tag: &str,
        stress: Option<i32>,
        ctx: Option<&TokenContext>,
    ) -> (r: Option<(String, i32)>)
        ensures
            rated_view(r) == self.special_case(word@, tag@, stress, ctx_view(ctx)),
    {
        let fv: Option<bool> = match ctx {
            Some(c) => c.future_vowel,
            None => None,
        };
        let add_symbol = get_add_symbols(word);
        let symbol = get_symbols(word);
        if same(tag, "ADD") && add_symbol.is_some() {
            self.lookup(add_symbol.unwrap(), "NN", Some(-1), ctx)
        } else if symbol.is_some() {
            self.lookup(symbol.unwrap(), "NN", None, ctx)
        } else if dotted(word) {
            if has_short_segments(word) {
                self.get_nnp(word)
            } else {
                None
            }
        } else if same(word, "a") || same(word, "A") {
            Some((if same(tag, "DT") { "ɐ".to_owned() } else { "ˈA".to_owned() }, GOLD_RATING))
        } else if same(word, "am") || same(word, "Am") || same(word, "AM") {
            if begins2(tag, 'N', 'N') {
                return self.get_nnp(word);
            }
            let stressed = match stress {
                Some(h) => h > 0,
                None => false,
            };
            if fv.is_some() || !same(word, "am") || stressed {
                if let Some(ps) = self.get_gold_simple("am") {
                    return Some((ps, GOLD_RATING));
                }
            }
            Some(("ɐm".to_owned(), GOLD_RATING))
        } else if same(word, "an") || same(word, "An") || same(word, "AN") {
            if same(word, "AN") && begins2(tag, 'N', 'N') {
                self.get_nnp(word)
            } else {
                Some(("ɐn".to_owned(), GOLD_RATING))
            }
        } else if same(word, "I") && same(tag, "PRP") {
            Some(("ˌI".to_owned(), GOLD_RATING))
        } else if (same(word, "by") || same(word, "By") || same(word, "BY")) && same(
            get_parent_tag(tag).as_str(),
            "ADV",
        ) {
            Some(("bˈI".to_owned(), GOLD_RATING))
        } else if same(word, "to") || same(word, "To") || (same(word, "TO") && (same(tag, "TO")
            || same(tag, "IN"))) {
            match self.get_gold_simple("to") {
                Some(ps) => Some(
                    (
                        match fv {
                            None => ps,
                            Some(false) => "tə".to_owned(),
                            Some(true) => "tʊ".to_owned(),
                        },
                        GOLD_RATING,
                    ),
                ),
                None => None,
            }
        } else if same(word, "in") || same(word, "In") || (same(word, "IN") && !same(tag, "NNP")) {
            Some(
                (
                    if fv.is_none() && same(tag, "IN") {
                        "ɪn".to_owned()
                    } else {
                        "ˈɪn".to_owned()
                    },
                    GOLD_RATING,
                ),
            )
        } else if same(word, "the") || same(word, "The") || (same(word, "THE") && same(tag, "DT")) {
            let before_vowel = match fv {
                Some(b) => b,
                None => false,
            };
            Some((if before_vowel { "ði".to_owned() } else { "ðə".to_owned() }, GOLD_RATING))
        } else if same(tag, "IN") && (same(word.to_lowercase().as_str(), "vs") || same(
            word.to_lowercase().as_str(),
            "vs.",
        )) {
            self.lookup("versus", "NN", None, ctx)
        } else if same(word, "used") || same(word, "Used") || same(word, "USED") {
            let future_to = match ctx {
                Some(c) => c.future_to,
                None => false,
            };
            if (same(tag, "VBD") || same(tag, "JJ")) && future_to {
                if let Some(ps) = self.get_gold_variant("used", "VBD") {
                    return Some((ps, GOLD_RATING));
                }
            }
            match self.get_gold_variant("used", "DEFAULT") {
                Some(ps) => Some((ps, GOLD_RATING)),
                None => None,
            }
        } else {
            None
        }
    }
}

} // verus!
