//! The pipeline: a text is cut into tokens, the tokens are tagged, and each
//! is resolved to phonemes from the last to the first, so that a token sees
//! how the following one begins.
//!
//! A token that the lexicon cannot resolve is taken apart (at hyphens, into
//! the words of a number, into characters) and the parts go through the
//! pipeline again. The nesting of such passes is limited: a token that would
//! need a pass beyond the limit gets the unknown mark.
use vstd::prelude::*;
use crate::entry::{PhonemeEntry, TokenContext};
use crate::language::Language;
use crate::languages::{phonemes_of, English, LanguageRules};
use crate::fallback::{Fallback, FallbackError, FALLBACK_RATING};
use crate::lexicon::{entries_valid, entries_view, grown, Lexicon};
use crate::number::{convert_number, is_number, number_of, spoken_form};
use crate::stress::{is_vowel, vowel};
use crate::tagger::PerceptronTagger;
use crate::text::{
    alphabetic, char_string, contains_char, lemma_first_of_at, lemma_no_part,
    lemma_parts_joined, lemma_single_part, lowercase,
    parts_between, same, uppercase,
};
use crate::token::{MToken, Underscore, UnderscoreView};
use crate::tokenizer::{in_order, is_fresh, split_surface, strings_view, surface};

verus! {

/// How many passes may nest inside the pass over the text itself.
pub const RECURSION_LIMIT: usize = 8;

/// The engine: a lexicon, a tagger, the rules of the language, and the mark
/// that stands for what could not be resolved.
pub struct G2P {
    pub lexicon: Lexicon,
    pub unk: String,
    pub tagger: PerceptronTagger,
    pub rules: English,
}

/// One of the letters `a`, `e`, `i`, `o`, `u`.
pub open spec fn is_letter_vowel(c: char) -> bool {
    c == 'a' || c == 'e' || c == 'i' || c == 'o' || c == 'u'
}

/// A consonant phoneme.
pub open spec fn is_consonant(c: char) -> bool {
    c == 'b' || c == 'd' || c == 'f' || c == 'h' || c == 'j' || c == 'k' || c == 'l' || c == 'm'
        || c == 'n' || c == 'p' || c == 's' || c == 't' || c == 'v' || c == 'w' || c == 'z' || c
        == 'ð' || c == 'ŋ' || c == 'ɡ' || c == 'ɹ' || c == 'ɾ' || c == 'ʃ' || c == 'ʒ' || c == 'ʤ'
        || c == 'ʧ' || c == 'θ'
}

/// Whether a phoneme string begins with a vowel sound: the class of its
/// first character that is a vowel or a consonant, `None` if it has none.
pub open spec fn sound_class(ps: Seq<char>) -> Option<bool>
    decreases ps.len(),
{
    if ps.len() == 0 {
        None
    } else if is_vowel(ps[0]) {
        Some(true)
    } else if is_consonant(ps[0]) {
        Some(false)
    } else {
        sound_class(ps.drop_first())
    }
}

/// The first alphabetic character of a text, if it has one.
pub open spec fn first_letter(text: Seq<char>) -> Option<char>
    decreases text.len(),
{
    if text.len() == 0 {
        None
    } else if alphabetic(text[0]) {
        Some(text[0])
    } else {
        first_letter(text.drop_first())
    }
}

/// Whether a letter is a vowel letter once it is put in lower case.
pub open spec fn is_vowel_letter(c: char) -> bool {
    lowercase(seq![c]).len() > 0 && is_letter_vowel(lowercase(seq![c])[0])
}

/// Whether a text begins with a vowel, by its spelling: whether its first
/// alphabetic character is a vowel letter, `None` where it has no such
/// character.
pub open spec fn spelling_class(text: Seq<char>) -> Option<bool> {
    match first_letter(text) {
        Some(c) => Some(is_vowel_letter(c)),
        None => None,
    }
}

/// The context that a token has from the token after it: the spelling of
/// that token decides whether a vowel follows, its phonemes where the
/// spelling does not; and whether it is the word `to`.
pub open spec fn context_before(next_text: Seq<char>, next_phonemes: Seq<char>) -> TokenContext {
    TokenContext {
        future_vowel: match spelling_class(next_text) {
            Some(b) => Some(b),
            None => sound_class(next_phonemes),
        },
        future_to: lowercase(next_text) == "to"@,
    }
}

/// A character without its diacritic; a dash becomes a space.
pub open spec fn unaccented(c: char) -> char {
    if c == 'é' || c == 'è' || c == 'ê' || c == 'ë' {
        'e'
    } else if c == 'á' || c == 'à' || c == 'â' || c == 'ä' || c == 'ã' || c == 'å' {
        'a'
    } else if c == 'í' || c == 'ì' || c == 'î' || c == 'ï' {
        'i'
    } else if c == 'ó' || c == 'ò' || c == 'ô' || c == 'ö' || c == 'õ' {
        'o'
    } else if c == 'ú' || c == 'ù' || c == 'û' || c == 'ü' {
        'u'
    } else if c == 'ñ' {
        'n'
    } else if c == 'ç' {
        'c'
    } else if c == '—' || c == '–' {
        ' '
    } else {
        c
    }
}

/// Punctuation that is passed over in silence: the ASCII punctuation, the
/// dashes and the ellipsis.
pub open spec fn is_silent(c: char) -> bool {
    ('!' <= c && c <= '/') || (':' <= c && c <= '@') || ('[' <= c && c <= '`') || ('{' <= c && c
        <= '~') || c == '—' || c == '–' || c == '…'
}

/// The stretches of `word` between hyphens, the empty ones left out.
pub open spec fn hyphen_parts(word: Seq<char>) -> Seq<Seq<char>> {
    parts_between(word, '-')
}

/// The words of a phoneme string: its stretches between spaces, the empty
/// ones left out.
pub open spec fn words_of(ps: Seq<char>) -> Seq<Seq<char>> {
    parts_between(ps, ' ')
}

/// Phonemes that are one word: not empty and without a space.
pub open spec fn is_one_word(ps: Seq<char>) -> bool {
    ps.len() > 0 && !ps.contains(' ')
}

/// Phonemes that are silent: nothing but spaces.
pub open spec fn is_blank(ps: Seq<char>) -> bool {
    forall|j: int| 0 <= j < ps.len() ==> ps[j] == ' '
}

/// The characters of a word, each as a string.
pub open spec fn letters_of(word: Seq<char>) -> Seq<Seq<char>> {
    word.map_values(|c: char| seq![c])
}

/// The text that a list of tokens renders to: for each token its phonemes,
/// or the unknown mark where it has none, and its whitespace.
pub open spec fn rendered(tokens: Seq<MToken>, unk: Seq<char>) -> Seq<char>
    decreases tokens.len(),
{
    if tokens.len() == 0 {
        Seq::empty()
    } else {
        rendered(tokens.drop_last(), unk) + (match tokens.last().phonemes {
            Some(p) => p@,
            None => unk,
        }) + tokens.last().whitespace@
    }
}

/// A token as the pipeline leaves it: the surface form, the tag, one space
/// of whitespace, the phonemes, and nothing else but the mark of a head.
pub open spec fn is_resolved(t: MToken, text: Seq<char>, tag: Seq<char>, phonemes: Seq<char>) -> bool {
    &&& t.text@ == text
    &&& t.tag@ == tag
    &&& t.whitespace@ == " "@
    &&& t.phonemes is Some
    &&& t.phonemes->0@ == phonemes
    &&& t.start_ts is None
    &&& t.end_ts is None
    &&& t.aux() == (UnderscoreView { is_head: true, ..Underscore::blank() })
}

/// Whether `c` is a consonant phoneme.
pub fn consonant(c: char) -> (r: bool)
    ensures
        r == is_consonant(c),
{
    c == 'b' || c == 'd' || c == 'f' || c == 'h' || c == 'j' || c == 'k' || c == 'l' || c == 'm'
        || c == 'n' || c == 'p' || c == 's' || c == 't' || c == 'v' || c == 'w' || c == 'z' || c
        == 'ð' || c == 'ŋ' || c == 'ɡ' || c == 'ɹ' || c == 'ɾ' || c == 'ʃ' || c == 'ʒ' || c == 'ʤ'
        || c == 'ʧ' || c == 'θ'
}

/// A character without its diacritic, see [`unaccented`].
pub fn plain_char(c: char) -> (r: char)
    ensures
        r == unaccented(c),
{
    if c == 'é' || c == 'è' || c == 'ê' || c == 'ë' {
        'e'
    } else if c == 'á' || c == 'à' || c == 'â' || c == 'ä' || c == 'ã' || c == 'å' {
        'a'
    } else if c == 'í' || c == 'ì' || c == 'î' || c == 'ï' {
        'i'
    } else if c == 'ó' || c == 'ò' || c == 'ô' || c == 'ö' || c == 'õ' {
        'o'
    } else if c == 'ú' || c == 'ù' || c == 'û' || c == 'ü' {
        'u'
    } else if c == 'ñ' {
        'n'
    } else if c == 'ç' {
        'c'
    } else if c == '—' || c == '–' {
        ' '
    } else {
        c
    }
}

/// Whether `c` is punctuation that is passed over in silence.
pub fn silent(c: char) -> (r: bool)
    ensures
        r == is_silent(c),
{
    ('!' <= c && c <= '/') || (':' <= c && c <= '@') || ('[' <= c && c <= '`') || ('{' <= c && c
        <= '~') || c == '—' || c == '–' || c == '…'
}

/// Whether a phoneme string begins with a vowel sound, see [`sound_class`].
pub fn first_sound(ps: &str) -> (r: Option<bool>)
    ensures
        r == sound_class(ps@),
{
    let n = ps.unicode_len();
    let mut i: usize = 0;
    proof {
        assert(ps@.subrange(0, n as int) =~= ps@);
    }
    while i < n
        invariant
            n == ps@.len(),
            i <= n,
            sound_class(ps@) == sound_class(ps@.subrange(i as int, n as int)),
        decreases n - i,
    {
        let c = ps.get_char(i);
        proof {
            assert(ps@.subrange(i as int, n as int).drop_first() =~= ps@.subrange(i + 1, n as int));
        }
        if vowel(c) {
            return Some(true);
        } else if consonant(c) {
            return Some(false);
        }
        i += 1;
    }
    None
}

/// The first alphabetic character of a text, see [`first_letter`].
pub fn find_first_letter(text: &str) -> (r: Option<char>)
    ensures
        r == first_letter(text@),
{
    let n = text.unicode_len();
    let mut i: usize = 0;
    proof {
        assert(text@.subrange(0, n as int) =~= text@);
    }
    while i < n
        invariant
            n == text@.len(),
            i <= n,
            first_letter(text@) == first_letter(text@.subrange(i as int, n as int)),
        decreases n - i,
    {
        let c = text.get_char(i);
        proof {
            assert(text@.subrange(i as int, n as int).drop_first() =~= text@.subrange(
                i + 1,
                n as int,
            ));
        }
        if c.is_alphabetic() {
            return Some(c);
        }
        i += 1;
    }
    None
}

/// Whether a letter is a vowel letter once it is put in lower case.
pub fn vowel_letter(c: char) -> (r: bool)
    ensures
        r == is_vowel_letter(c),
{
    let lower = char_string(c).as_str().to_lowercase();
    let l = lower.as_str();
    if l.unicode_len() > 0 {
        let first = l.get_char(0);
        first == 'a' || first == 'e' || first == 'i' || first == 'o' || first == 'u'
    } else {
        false
    }
}

/// The context that a token has from the token after it, see
/// [`context_before`].
pub fn context_from(next_text: &str, next_phonemes: &str) -> (r: TokenContext)
    ensures
        r == context_before(next_text@, next_phonemes@),
{
    let future_vowel: Option<bool> = match find_first_letter(next_text) {
        Some(c) => Some(vowel_letter(c)),
        None => first_sound(next_phonemes),
    };
    let future_to = same(next_text.to_lowercase().as_str(), "to");
    TokenContext { future_vowel, future_to }
}

/// The stretches of `word` between hyphens, see [`hyphen_parts`].
pub fn split_hyphens(word: &str) -> (r: Vec<String>)
    ensures
        strings_view(r@) == hyphen_parts(word@),
{
    let n = word.unicode_len();
    let mut out: Vec<String> = Vec::new();
    let mut start: usize = 0;
    let mut i: usize = 0;
    proof {
        assert(word@.subrange(0, n as int) =~= word@);
        assert(strings_view(out@) + hyphen_parts(word@) =~= hyphen_parts(word@));
    }
    while i < n
        invariant
            n == word@.len(),
            start <= i <= n,
            hyphen_parts(word@) == strings_view(out@) + hyphen_parts(
                word@.subrange(start as int, n as int),
            ),
            forall|j: int| start <= j < i ==> word@[j] != '-',
        decreases n - i,
    {
        if word.get_char(i) == '-' {
            let ghost rest = word@.subrange(start as int, n as int);
            let ghost before = strings_view(out@);
            proof {
                lemma_first_of_at(rest, '-', i - start);
                assert(rest.subrange(i - start + 1, rest.len() as int) =~= word@.subrange(
                    i + 1,
                    n as int,
                ));
                assert(rest.subrange(1, rest.len() as int) =~= word@.subrange(
                    start + 1,
                    n as int,
                ));
                assert(rest.subrange(0, i - start) =~= word@.subrange(start as int, i as int));
            }
            if i > start {
                out.push(word.substring_char(start, i).to_owned());
                proof {
                    assert(strings_view(out@) =~= before + seq![
                        word@.subrange(start as int, i as int),
                    ]);
                    assert(before + (seq![word@.subrange(start as int, i as int)] + hyphen_parts(
                        word@.subrange(i + 1, n as int),
                    )) =~= strings_view(out@) + hyphen_parts(word@.subrange(i + 1, n as int)));
                }
            }
            start = i + 1;
        }
        i += 1;
    }
    let ghost rest = word@.subrange(start as int, n as int);
    let ghost before = strings_view(out@);
    proof {
        lemma_first_of_at(rest, '-', n - start);
    }
    if start < n {
        out.push(word.substring_char(start, n).to_owned());
        proof {
            assert(strings_view(out@) =~= before + seq![rest]);
        }
    } else {
        proof {
            assert(before + Seq::<Seq<char>>::empty() =~= before);
        }
    }
    out
}

/// The characters of a word, each as a string.
pub fn letters(word: &str) -> (r: Vec<String>)
    ensures
        strings_view(r@) == letters_of(word@),
{
    let n = word.unicode_len();
    let mut out: Vec<String> = Vec::new();
    let mut i: usize = 0;
    while i < n
        invariant
            n == word@.len(),
            i <= n,
            out@.len() == i,
            forall|j: int| 0 <= j < i ==> out@[j]@ == seq![word@[j]],
        decreases n - i,
    {
        out.push(char_string(word.get_char(i)));
        i += 1;
    }
    proof {
        assert(strings_view(out@) =~= letters_of(word@));
    }
    out
}

impl G2P {
    /// The engine is usable: its tagger and its lexicon are.
    pub open spec fn wf(&self) -> bool {
        self.tagger.wf() && self.lexicon.wf()
    }

    /// The stress target that the capitalization of a word asks for: none
    /// for a word in lower case, the second of the lexicon's targets for a
    /// word in upper case, the first for any other.
    pub open spec fn cap_stress(&self, word: Seq<char>) -> Option<i32> {
        if word == lowercase(word) {
            None
        } else if word == uppercase(word) {
            Some(self.lexicon.cap_stresses.1)
        } else {
            Some(self.lexicon.cap_stresses.0)
        }
    }

    /// The phonemes of one token, with `depth` nested passes left. In order:
    /// what the lexicon gives; for a word with a hyphen, its parts spoken in
    /// turn; for a number, its words spoken; what the rules of the language
    /// give; for a longer word, its characters spoken in turn; for a single
    /// character, that without its diacritic spoken, a space for silent
    /// punctuation, and the unknown mark else. What needs a nested pass
    /// where none is left is the unknown mark.
    pub open spec fn token_phonemes(
        &self,
        word: Seq<char>,
        tag: Seq<char>,
        ctx: TokenContext,
        depth: nat,
    ) -> Seq<char>
        decreases 2 * depth, 0nat, 0nat,
    {
        let found = self.lexicon.word_of(word, tag, self.cap_stress(word), Some(ctx));
        let by_rule = self.rules.rules(word, tag, &self.lexicon);
        if found is Some {
            phonemes_of(found)->0
        } else if word.contains('-') && word.len() > 1 {
            if depth == 0 {
                self.unk@
            } else {
                self.spoken(hyphen_parts(word), (depth - 1) as nat)
            }
        } else if number_of(word) is Some && spoken_form(word) != word {
            if depth == 0 {
                self.unk@
            } else {
                self.output(spoken_form(word), (depth - 1) as nat)
            }
        } else if by_rule is Some {
            by_rule->0
        } else if word.len() > 1 {
            if depth == 0 {
                self.unk@
            } else {
                self.spoken(letters_of(word), (depth - 1) as nat)
            }
        } else if word.len() == 1 && unaccented(word[0]) != word[0] {
            if depth == 0 {
                self.unk@
            } else {
                self.output(seq![unaccented(word[0])], (depth - 1) as nat)
            }
        } else if word.len() == 1 && is_silent(word[0]) {
            " "@
        } else {
            self.unk@
        }
    }

    /// The context of the token at position `i`: blank for the last token,
    /// else what the token after it gives.
    pub open spec fn context_at(&self, words: Seq<Seq<char>>, i: int, depth: nat) -> TokenContext
        decreases 2 * depth, words.len() - i, 0nat,
    {
        if 0 <= i && i + 1 < words.len() {
            context_before(words[i + 1], self.phonemes_at(words, i + 1, depth))
        } else {
            TokenContext { future_vowel: None, future_to: false }
        }
    }

    /// The phonemes of the token at position `i` of a text.
    pub open spec fn phonemes_at(&self, words: Seq<Seq<char>>, i: int, depth: nat) -> Seq<char>
        decreases 2 * depth, words.len() - i, 1nat,
    {
        if 0 <= i < words.len() {
            self.token_phonemes(
                words[i],
                self.tagger.tag_at(words, i),
                self.context_at(words, i, depth),
                depth,
            )
        } else {
            Seq::empty()
        }
    }

    /// The phonemes of the first `k` tokens, each followed by a space.
    pub open spec fn output_upto(&self, words: Seq<Seq<char>>, k: int, depth: nat) -> Seq<char>
        decreases 2 * depth, words.len() + 2, k,
    {
        if k <= 0 || k > words.len() {
            Seq::empty()
        } else {
            self.output_upto(words, k - 1, depth) + self.phonemes_at(words, k - 1, depth) + " "@
        }
    }

    /// The phoneme string of a text.
    pub open spec fn output(&self, text: Seq<char>, depth: nat) -> Seq<char>
        decreases 2 * depth, surface(text).len() + 3, 0nat,
    {
        self.output_upto(surface(text), surface(text).len() as int, depth)
    }

    /// The phoneme strings of the parts, joined by spaces.
    pub open spec fn spoken(&self, parts: Seq<Seq<char>>, depth: nat) -> Seq<char>
        decreases 2 * depth + 1, parts.len(), 0nat,
    {
        if parts.len() == 0 {
            Seq::empty()
        } else if parts.len() == 1 {
            self.output(parts[0], depth)
        } else {
            self.spoken(parts.drop_last(), depth) + " "@ + self.output(parts.last(), depth)
        }
    }

    /// The words of the phonemes of the first `k` tokens, token by token.
    pub open spec fn words_upto(&self, words: Seq<Seq<char>>, k: int, depth: nat) -> Seq<
        Seq<char>,
    >
        decreases k,
    {
        if k <= 0 || k > words.len() {
            Seq::empty()
        } else {
            self.words_upto(words, k - 1, depth) + words_of(self.phonemes_at(words, k - 1, depth))
        }
    }

    /// The words of the phoneme string of the first `k` tokens are the words
    /// of the tokens' phonemes, in the order of the tokens; and the string
    /// ends in a space unless it is empty.
    pub proof fn lemma_output_words(&self, words: Seq<Seq<char>>, k: int, depth: nat)
        requires
            0 <= k <= words.len(),
        ensures
            words_of(self.output_upto(words, k, depth)) == self.words_upto(words, k, depth),
            k > 0 ==> self.output_upto(words, k, depth).len() > 0 && self.output_upto(
                words,
                k,
                depth,
            ).last() == ' ',
        decreases k,
    {
        reveal_strlit(" ");
        assert(" "@ =~= seq![' ']);
        if k > 0 {
            let y = self.output_upto(words, k - 1, depth);
            let p = self.phonemes_at(words, k - 1, depth);
            let o = self.output_upto(words, k, depth);
            let none = Seq::<char>::empty();
            self.lemma_output_words(words, k - 1, depth);
            assert(o == y + p + seq![' ']);
            lemma_parts_joined(p, none, ' ');
            assert(p + seq![' '] + none =~= p + seq![' ']);
            assert(words_of(p) + words_of(none) =~= words_of(p));
            if k - 1 == 0 {
                assert(y =~= none);
                assert(o =~= p + seq![' ']);
                assert(self.words_upto(words, 0, depth) + words_of(p) =~= words_of(p));
            } else {
                let y1 = y.drop_last();
                assert(y =~= y1 + seq![' ']);
                lemma_parts_joined(y1, none, ' ');
                assert(y1 + seq![' '] + none =~= y);
                assert(words_of(y1) + words_of(none) =~= words_of(y1));
                lemma_parts_joined(y1, p + seq![' '], ' ');
                assert(y1 + seq![' '] + (p + seq![' ']) =~= o);
            }
        }
    }

    /// The words of the phoneme string of a text, cut at spaces, are the
    /// words of its tokens' phonemes in the order of the tokens. A token
    /// whose phonemes are one word gives that word, silent punctuation gives
    /// none, and a token spoken in parts gives one word for each part.
    pub proof fn law_output_words(&self, text: Seq<char>, depth: nat)
        ensures
            words_of(self.output(text, depth)) == self.words_upto(
                surface(text),
                surface(text).len() as int,
                depth,
            ),
    {
        self.lemma_output_words(surface(text), surface(text).len() as int, depth);
    }

    /// The phonemes of those of the first `k` tokens that are not silent, in
    /// the order of the tokens.
    pub open spec fn sounding_upto(&self, words: Seq<Seq<char>>, k: int, depth: nat) -> Seq<
        Seq<char>,
    >
        decreases k,
    {
        if k <= 0 || k > words.len() {
            Seq::empty()
        } else if is_blank(self.phonemes_at(words, k - 1, depth)) {
            self.sounding_upto(words, k - 1, depth)
        } else {
            self.sounding_upto(words, k - 1, depth).push(self.phonemes_at(words, k - 1, depth))
        }
    }

    /// Where the phonemes of each of the first `k` tokens are one word or
    /// silent, the words of the tokens are the phonemes of the tokens that
    /// are not silent.
    pub proof fn lemma_one_word_each(&self, words: Seq<Seq<char>>, k: int, depth: nat)
        requires
            0 <= k <= words.len(),
            forall|i: int|
                0 <= i < k ==> is_one_word(#[trigger] self.phonemes_at(words, i, depth))
                    || is_blank(self.phonemes_at(words, i, depth)),
        ensures
            self.words_upto(words, k, depth) == self.sounding_upto(words, k, depth),
        decreases k,
    {
        if k > 0 {
            let p = self.phonemes_at(words, k - 1, depth);
            self.lemma_one_word_each(words, k - 1, depth);
            if is_blank(p) {
                lemma_no_part(p, ' ');
                assert(self.words_upto(words, k - 1, depth) + words_of(p) =~= self.words_upto(
                    words,
                    k - 1,
                    depth,
                ));
            } else {
                lemma_single_part(p, ' ');
                assert(self.words_upto(words, k - 1, depth) + seq![p] =~= self.words_upto(
                    words,
                    k - 1,
                    depth,
                ).push(p));
            }
        }
    }

    /// Where the phonemes of every token of a text are one word or silent,
    /// the phoneme string cut at spaces has one piece for each token that is
    /// not silent, in the order of the tokens, and the piece is the token's
    /// phonemes.
    pub proof fn law_one_piece_per_token(&self, text: Seq<char>, depth: nat)
        requires
            forall|i: int|
                0 <= i < surface(text).len() ==> is_one_word(
                    #[trigger] self.phonemes_at(surface(text), i, depth),
                ) || is_blank(self.phonemes_at(surface(text), i, depth)),
        ensures
            words_of(self.output(text, depth)) == self.sounding_upto(
                surface(text),
                surface(text).len() as int,
                depth,
            ),
    {
        self.lemma_output_words(surface(text), surface(text).len() as int, depth);
        self.lemma_one_word_each(surface(text), surface(text).len() as int, depth);
    }

    /// The engine of a language from the entries of its dictionaries and
    /// its tagger; `None` where a dictionary entry holds a tag key twice.
    pub fn new(
        lang: Language,
        gold: Vec<(String, PhonemeEntry)>,
        silver: Vec<(String, PhonemeEntry)>,
        tagger: PerceptronTagger,
    ) -> (r: Option<G2P>)
        requires
            tagger.wf(),
        ensures
            r is Some <==> entries_valid(entries_view(gold@)) && entries_valid(
                entries_view(silver@),
            ),
            r is Some ==> r->0.wf() && r->0.tagger == tagger && r->0.unk@ == "❓"@
                && r->0.lexicon.lang == lang && r->0.lexicon.cap_stresses == (1i32, 4i32)
                && r->0.lexicon.gold() == grown(entries_view(gold@)) && r->0.lexicon.silver()
                == grown(entries_view(silver@)),
    {
        match Lexicon::new(lang, gold, silver) {
            Some(lexicon) => Some(G2P { lexicon, unk: "❓".to_owned(), tagger, rules: English }),
            None => None,
        }
    }

    /// Asks a fallback for a word that nothing else resolves: what it gives,
    /// at the fallback rating, or the unknown mark at rating 0 where it
    /// fails.
    pub fn fall_back<F: Fallback>(&self, fallback: &F, word: &str) -> (r: (String, u8))
        ensures
            r.1 == FALLBACK_RATING || (r.0@ == self.unk@ && r.1 == 0),
    {
        self.recover(fallback.phonemize(word))
    }

    /// What the pipeline takes from a fallback: its phonemes and rating, or
    /// the unknown mark at rating 0 where the fallback failed.
    pub fn recover(&self, outcome: Result<(String, u8), FallbackError>) -> (r: (String, u8))
        ensures
            match outcome {
                Ok(found) => r.0@ == found.0@ && r.1 == found.1,
                Err(_) => r.0@ == self.unk@ && r.1 == 0,
            },
    {
        match outcome {
            Ok(found) => found,
            Err(_) => (self.unk.clone(), 0),
        }
    }

    /// The text as it enters the pipeline, its stretches without whitespace,
    /// and the features taken out of it, of which there are none: the text
    /// is passed on unchanged.
    pub fn preprocess(&self, text: &str) -> (r: (String, Vec<String>, Vec<(usize, String)>))
        ensures
            r.0@ == text@,
            strings_view(r.1@) == crate::tokenizer::runs_of(text@),
            r.2@.len() == 0,
    {
        (text.to_owned(), crate::tokenizer::split_runs(text), Vec::new())
    }

    /// Whether a token denotes an integer, commas ignored.
    pub fn is_number(&self, word: &str) -> (r: bool)
        ensures
            r == number_of(word@) is Some,
    {
        is_number(word)
    }

    /// The spoken form of a token, see [`spoken_form`].
    pub fn convert_number(&self, word: &str) -> (r: String)
        ensures
            r@ == spoken_form(word@),
    {
        convert_number(word)
    }

    /// Cuts a text into tokens: each subtoken of each stretch without
    /// whitespace becomes a token tagged `NN` and followed by one space. The
    /// surface forms are stretches of the text that follow one another
    /// without overlap.
    pub fn tokenize(&self, text: &str) -> (r: Vec<MToken>)
        ensures
            r@.len() == surface(text@).len(),
            forall|i: int| 0 <= i < r@.len() ==> is_fresh(#[trigger] r@[i], surface(text@)[i]),
            in_order(text@, surface(text@), 0, text@.len() as int),
    {
        let words = split_surface(text);
        let mut tokens: Vec<MToken> = Vec::new();
        let n = words.len();
        let mut i: usize = 0;
        while i < n
            invariant
                n == words@.len(),
                i <= n,
                strings_view(words@) == surface(text@),
                tokens@.len() == i,
                forall|j: int| 0 <= j < i ==> is_fresh(#[trigger] tokens@[j], surface(text@)[j]),
            decreases n - i,
        {
            proof {
                assert(strings_view(words@)[i as int] == words@[i as int]@);
            }
            tokens.push(MToken::new(words[i].clone(), "NN".to_owned(), " ".to_owned()));
            i += 1;
        }
        tokens
    }

    /// The stress target that the capitalization of a word asks for, see
    /// [`G2P::cap_stress`].
    pub fn cap_stress_of(&self, word: &str) -> (r: Option<i32>)
        ensures
            r == self.cap_stress(word@),
    {
        if same(word, word.to_lowercase().as_str()) {
            None
        } else if same(word, word.to_uppercase().as_str()) {
            Some(self.lexicon.cap_stresses.1)
        } else {
            Some(self.lexicon.cap_stresses.0)
        }
    }

    /// Resolves one token, see [`G2P::token_phonemes`].
    pub fn resolve_token(&self, word: &str, tag: &str, ctx: &TokenContext, depth: usize) -> (r:
        String)
        requires
            self.wf(),
        ensures
            r@ == self.token_phonemes(word@, tag@, *ctx, depth as nat),
        decreases 2 * depth, 0nat,
    {
        let stress = self.cap_stress_of(word);
        if let Some((ps, _)) = self.lexicon.get_word(word, tag, stress, Some(ctx)) {
            return ps;
        }
        let n = word.unicode_len();
        if contains_char(word, '-') && n > 1 {
            if depth == 0 {
                return self.unk.clone();
            }
            let parts = split_hyphens(word);
            return self.speak_parts(&parts, depth - 1);
        }
        if is_number(word) {
            let spoken = convert_number(word);
            if !same(spoken.as_str(), word) {
                if depth == 0 {
                    return self.unk.clone();
                }
                return self.transcribe(spoken.as_str(), depth - 1).0;
            }
        }
        if let Some(ps) = self.rules.apply_rules(word, tag, &self.lexicon) {
            return ps;
        }
        if n > 1 {
            if depth == 0 {
                return self.unk.clone();
            }
            let parts = letters(word);
            return self.speak_parts(&parts, depth - 1);
        }
        if n == 1 {
            let c = word.get_char(0);
            let p = plain_char(c);
            if p != c {
                if depth == 0 {
                    return self.unk.clone();
                }
                return self.transcribe(char_string(p).as_str(), depth - 1).0;
            }
            if silent(c) {
                return " ".to_owned();
            }
        }
        self.unk.clone()
    }

    /// Speaks each part in a pass of its own and joins the results by
    /// spaces, see [`G2P::spoken`].
    pub fn speak_parts(&self, parts: &Vec<String>, depth: usize) -> (r: String)
        requires
            self.wf(),
        ensures
            r@ == self.spoken(strings_view(parts@), depth as nat),
        decreases 2 * depth + 1, 0nat,
    {
        let ghost all = strings_view(parts@);
        let n = parts.len();
        let mut out = String::new();
        let mut i: usize = 0;
        proof {
            assert(all.subrange(0, 0) =~= Seq::<Seq<char>>::empty());
        }
        while i < n
            invariant
                n == parts@.len(),
                i <= n,
                self.wf(),
                all == strings_view(parts@),
                out@ == self.spoken(all.subrange(0, i as int), depth as nat),
            decreases n - i,
        {
            let (ps, _) = self.transcribe(parts[i].as_str(), depth);
            proof {
                assert(all.subrange(0, i + 1).drop_last() =~= all.subrange(0, i as int));
                assert(all.subrange(0, i + 1).last() == parts@[i as int]@);
                assert(all.subrange(0, i + 1)[0] == parts@[0]@);
            }
            if i > 0 {
                out.append(" ");
            }
            out.append(ps.as_str());
            i += 1;
        }
        proof {
            assert(all.subrange(0, n as int) =~= all);
        }
        out
    }

    /// Transcribes a text with `depth` nested passes left: the phoneme
    /// string and the tokens, each with its surface form, its tag and its
    /// phonemes. The string is what the tokens render to.
    pub fn transcribe(&self, text: &str, depth: usize) -> (r: (String, Vec<MToken>))
        requires
            self.wf(),
        ensures
            r.0@ == self.output(text@, depth as nat),
            r.0@ == rendered(r.1@, self.unk@),
            r.1@.len() == surface(text@).len(),
            in_order(text@, surface(text@), 0, text@.len() as int),
            forall|i: int|
                0 <= i < r.1@.len() ==> is_resolved(
                    #[trigger] r.1@[i],
                    surface(text@)[i],
                    self.tagger.tag_at(surface(text@), i),
                    self.phonemes_at(surface(text@), i, depth as nat),
                ),
        decreases 2 * depth, 1nat,
    {
        let words = split_surface(text);
        let tags = self.tagger.tag(&words);
        let ghost all = strings_view(words@);
        let n = words.len();
        let mut rev: Vec<String> = Vec::new();
        let mut i: usize = n;
        while i > 0
            invariant
                n == words@.len(),
                i <= n,
                self.wf(),
                all == strings_view(words@),
                tags@.len() == n,
                forall|j: int|
                    0 <= j < n ==> (#[trigger] tags@[j]).tag@ == self.tagger.tag_at(all, j),
                rev@.len() == n - i,
                forall|j: int|
                    i <= j < n ==> rev@[n - 1 - j]@ == #[trigger] self.phonemes_at(
                        all,
                        j,
                        depth as nat,
                    ),
            decreases i,
        {
            let k = i - 1;
            proof {
                assert(all[k as int] == words@[k as int]@);
            }
            let ctx = if k + 1 < n {
                proof {
                    assert(all[k + 1] == words@[k + 1]@);
                    assert(rev@[n - 1 - (k + 1)]@ == self.phonemes_at(all, k + 1, depth as nat));
                }
                context_from(words[k + 1].as_str(), rev[rev.len() - 1].as_str())
            } else {
                TokenContext { future_vowel: None, future_to: false }
            };
            let ps = self.resolve_token(words[k].as_str(), tags[k].tag.as_str(), &ctx, depth);
            rev.push(ps);
            i = k;
        }
        let mut out = String::new();
        let mut tokens: Vec<MToken> = Vec::new();
        let mut j: usize = 0;
        while j < n
            invariant
                n == words@.len(),
                j <= n,
                all == strings_view(words@),
                all == surface(text@),
                tags@.len() == n,
                forall|k: int|
                    0 <= k < n ==> (#[trigger] tags@[k]).tag@ == self.tagger.tag_at(all, k),
                rev@.len() == n,
                forall|k: int|
                    0 <= k < n ==> rev@[n - 1 - k]@ == #[trigger] self.phonemes_at(
                        all,
                        k,
                        depth as nat,
                    ),
                out@ == self.output_upto(all, j as int, depth as nat),
                out@ == rendered(tokens@, self.unk@),
                tokens@.len() == j,
                forall|k: int|
                    0 <= k < j ==> is_resolved(
                        #[trigger] tokens@[k],
                        all[k],
                        self.tagger.tag_at(all, k),
                        self.phonemes_at(all, k, depth as nat),
                    ),
            decreases n - j,
        {
            proof {
                assert(all[j as int] == words@[j as int]@);
                assert(rev@[n - 1 - j]@ == self.phonemes_at(all, j as int, depth as nat));
            }
            let ps = rev[n - 1 - j].clone();
            let ghost before = out@;
            let ghost old_tokens = tokens@;
            out.append(ps.as_str());
            out.append(" ");
            let mut token = MToken::new(words[j].clone(), tags[j].tag.clone(), " ".to_owned());
            token.phonemes = Some(ps);
            tokens.push(token);
            proof {
                assert(tokens@.drop_last() =~= old_tokens);
                assert(out@ == before + ps@ + " "@);
            }
            j += 1;
        }
        (out, tokens)
    }

    /// Transcribes a text: the phoneme string and the tokens it was read
    /// from. The string is the concatenation of each token's phonemes and
    /// whitespace; every token carries phonemes.
    pub fn g2p(&self, text: &str) -> (r: (String, Vec<MToken>))
        requires
            self.wf(),
        ensures
            r.0@ == self.output(text@, RECURSION_LIMIT as nat),
            r.0@ == rendered(r.1@, self.unk@),
            r.1@.len() == surface(text@).len(),
            in_order(text@, surface(text@), 0, text@.len() as int),
            forall|i: int|
                0 <= i < r.1@.len() ==> is_resolved(
                    #[trigger] r.1@[i],
                    surface(text@)[i],
                    self.tagger.tag_at(surface(text@), i),
                    self.phonemes_at(surface(text@), i, RECURSION_LIMIT as nat),
                ),
    {
        self.transcribe(text, RECURSION_LIMIT)
    }
}

} // verus!
