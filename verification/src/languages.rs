//! Language rules that the pipeline applies to a word the lexicon's front
//! door could not resolve.
use vstd::prelude::*;
use crate::entry::opt_view;
use crate::lexicon::Lexicon;

verus! {

/// The phonemes of a rated pronunciation.
pub open spec fn phonemes_of(found: Option<(Seq<char>, i32)>) -> Option<Seq<char>> {
    match found {
        Some((ps, _)) => Some(ps),
        None => None,
    }
}

/// Rules of one language that resolve a word through the lexicon.
pub trait LanguageRules {
    /// The phonemes the rules give for a word, if any.
    spec fn rules(&self, word: Seq<char>, tag: Seq<char>, lexicon: &Lexicon) -> Option<Seq<char>>;

    /// Applies the rules to a word.
    fn apply_rules(&self, word: &str, tag: &str, lexicon: &Lexicon) -> (r: Option<String>)
        ensures
            opt_view(r) == self.rules(word@, tag@, lexicon),
    ;
}

/// The rules of English: the stemmers for `-s`, `-ed` and `-ing`, in this
/// order, without stress target and without context.
pub struct English;

impl LanguageRules for English {
    open spec fn rules(&self, word: Seq<char>, tag: Seq<char>, lexicon: &Lexicon) -> Option<
        Seq<char>,
    > {
        if lexicon.stemmed_s(word, tag, None, None) is Some {
            phonemes_of(lexicon.stemmed_s(word, tag, None, None))
        } else if lexicon.stemmed_ed(word, tag, None, None) is Some {
            phonemes_of(lexicon.stemmed_ed(word, tag, None, None))
        } else if lexicon.stemmed_ing(word, tag, None, None) is Some {
            phonemes_of(lexicon.stemmed_ing(word, tag, None, None))
        } else {
            None
        }
    }

    fn apply_rules(&self, word: &str, tag: &str, lexicon: &Lexicon) -> (r: Option<String>) {
        if let Some((ps, _)) = lexicon.stem_s(word, tag, None, None) {
            Some(ps)
        } else if let Some((ps, _)) = lexicon.stem_ed(word, tag, None, None) {
            Some(ps)
        } else if let Some((ps, _)) = lexicon.stem_ing(word, tag, None, None) {
            Some(ps)
        } else {
            None
        }
    }
}

} // verus!
