//! Dictionary lookup: which words the lexicon knows, the letter-by-letter
//! pronunciation of initialisms, and the tiered lookup of a word.
use vstd::prelude::*;
use crate::entry::{resolved, ctx_view, EntryView, PhonemeEntry, TokenContext};
use crate::lexicon::{Dict, Lexicon, GOLD_RATING, SILVER_RATING};
use crate::stress::{apply_stress, stressed, PRIMARY, SECONDARY};
use crate::text::{
    alphabetic, all_alphabetic, char_string, contains_char, is_all_alphabetic, lowercase, same,
    uppercase,
};

verus! {

/// The content of an optional pair of phonemes and rating.
pub open spec fn rated_view(r: Option<(String, i32)>) -> Option<(Seq<char>, i32)> {
    match r {
        Some((ps, rating)) => Some((ps@, rating)),
        None => None,
    }
}

/// The phonemes are there and hold a primary stress mark.
pub open spec fn has_primary(found: Option<(Seq<char>, i32)>) -> bool {
    match found {
        Some((ps, _)) => ps.contains(PRIMARY),
        None => false,
    }
}

/// The word a symbol is read as, if `w` is one of `%`, `&`, `+`, `@`.
pub open spec fn symbol_word(w: Seq<char>) -> Option<Seq<char>> {
    if w == "%"@ {
        Some("percent"@)
    } else if w == "&"@ {
        Some("and"@)
    } else if w == "+"@ {
        Some("plus"@)
    } else if w == "@"@ {
        Some("at"@)
    } else {
        None
    }
}

/// The word a symbol inside an address is read as, if `w` is `.` or `/`.
pub open spec fn add_symbol_word(w: Seq<char>) -> Option<Seq<char>> {
    if w == "."@ {
        Some("dot"@)
    } else if w == "/"@ {
        Some("slash"@)
    } else {
        None
    }
}

/// The characters a dictionary word may be spelled with: the ASCII letters,
/// the apostrophe and the hyphen.
pub open spec fn is_lexicon_char(c: char) -> bool {
    c == '\'' || c == '-' || ('A' <= c && c <= 'Z') || ('a' <= c && c <= 'z')
}

/// Every character of `s` may occur in a dictionary word.
pub open spec fn all_lexicon_chars(s: Seq<char>) -> bool {
    forall|i: int| 0 <= i < s.len() ==> is_lexicon_char(#[trigger] s[i])
}

/// The index of the last `c` in `s`, or -1.
pub open spec fn last_index(s: Seq<char>, c: char) -> int
    decreases s.len(),
{
    if s.len() == 0 {
        -1
    } else if s.last() == c {
        s.len() - 1
    } else {
        last_index(s.drop_last(), c)
    }
}

/// `s` with its rightmost secondary stress mark turned into a primary one.
pub open spec fn promoted(s: Seq<char>) -> Seq<char> {
    let i = last_index(s, SECONDARY);
    if 0 <= i < s.len() {
        s.update(i, PRIMARY)
    } else {
        s
    }
}

/// The letter-by-letter reading of `word` so far: the concatenated phonemes
/// of the gold entries of its letters in upper case, and how many entries
/// contributed. It is `None` once a letter has no gold entry; a letter whose
/// entry is tagged contributes nothing, as does what is no letter.
pub open spec fn spelled(gold: Dict, word: Seq<char>) -> Option<(Seq<char>, nat)>
    decreases word.len(),
{
    if word.len() == 0 {
        Some((Seq::empty(), 0nat))
    } else {
        match spelled(gold, word.drop_last()) {
            None => None,
            Some((acc, k)) => {
                let key = uppercase(seq![word.last()]);
                if !alphabetic(word.last()) {
                    Some((acc, k))
                } else if !gold.contains_key(key) {
                    None
                } else {
                    match gold[key] {
                        EntryView::Simple(p) => Some((acc + p, k + 1)),
                        EntryView::Tagged(_) => Some((acc, k)),
                    }
                }
            },
        }
    }
}

/// The pronunciation of `word` as an initialism: its letters read one by one,
/// with secondary stress placed and the rightmost secondary mark promoted to
/// primary, at the silver rating. It fails where a letter has no gold entry
/// or no letter contributes.
pub open spec fn initialism(gold: Dict, word: Seq<char>) -> Option<(Seq<char>, i32)> {
    match spelled(gold, word) {
        Some((acc, k)) => if k > 0 {
            Some((promoted(stressed(acc, Some(0i32))), SILVER_RATING))
        } else {
            None
        },
        None => None,
    }
}

/// The word a symbol is read as, see [`symbol_word`].
pub fn get_symbols(w: &str) -> (r: Option<&'static str>)
    ensures
        match r {
            Some(s) => symbol_word(w@) == Some(s@),
            None => symbol_word(w@) is None,
        },
{
    if same(w, "%") {
        Some("percent")
    } else if same(w, "&") {
        Some("and")
    } else if same(w, "+") {
        Some("plus")
    } else if same(w, "@") {
        Some("at")
    } else {
        None
    }
}

/// The word a symbol inside an address is read as, see [`add_symbol_word`].
pub fn get_add_symbols(w: &str) -> (r: Option<&'static str>)
    ensures
        match r {
            Some(s) => add_symbol_word(w@) == Some(s@),
            None => add_symbol_word(w@) is None,
        },
{
    if same(w, ".") {
        Some("dot")
    } else if same(w, "/") {
        Some("slash")
    } else {
        None
    }
}

/// Whether every character of `s` may occur in a dictionary word.
pub fn only_lexicon_chars(s: &str) -> (r: bool)
    ensures
        r == all_lexicon_chars(s@),
{
    let n = s.unicode_len();
    let mut i: usize = 0;
    while i < n
        invariant
            n == s@.len(),
            i <= n,
            forall|j: int| 0 <= j < i ==> is_lexicon_char(#[trigger] s@[j]),
        decreases n - i,
    {
        let c = s.get_char(i);
        if !(c == '\'' || c == '-' || ('A' <= c && c <= 'Z') || ('a' <= c && c <= 'z')) {
            return false;
        }
        i += 1;
    }
    true
}

/// Turns the rightmost secondary stress mark of `s` into a primary one.
pub fn promote_last_secondary(s: &str) -> (r: String)
    ensures
        r@ == promoted(s@),
{
    let n = s.unicode_len();
    let mut found: Option<usize> = None;
    let mut i: usize = 0;
    proof {
        assert(s@.subrange(0, 0) =~= Seq::<char>::empty());
    }
    while i < n
        invariant
            n == s@.len(),
            i <= n,
            match found {
                Some(k) => k < i && last_index(s@.subrange(0, i as int), SECONDARY) == k,
                None => last_index(s@.subrange(0, i as int), SECONDARY) == -1,
            },
        decreases n - i,
    {
        proof {
            assert(s@.subrange(0, i + 1).drop_last() =~= s@.subrange(0, i as int));
        }
        if s.get_char(i) == SECONDARY {
            found = Some(i);
        }
        i += 1;
    }
    proof {
        assert(s@.subrange(0, n as int) =~= s@);
    }
    match found {
        Some(k) => {
            let mut r = s.substring_char(0, k).to_owned();
            r.push(PRIMARY);
            r.append(s.substring_char(k + 1, n));
            proof {
                assert(r@ =~= s@.update(k as int, PRIMARY));
            }
            r
        },
        None => s.to_owned(),
    }
}

impl Lexicon {
    /// A word is known where the gold or the silver tier holds it, where it
    /// is a symbol, or where it is made of ASCII letters only and is a single
    /// character, all upper case with its lowercase form in gold, or upper
    /// case from its second character on.
    pub open spec fn known(&self, w: Seq<char>) -> bool {
        let tail = w.subrange(1, w.len() as int);
        self.gold().contains_key(w) || symbol_word(w) is Some || self.silver().contains_key(w) || (
        all_alphabetic(w) && all_lexicon_chars(w) && (w.len() == 1 || (w == uppercase(w)
            && self.gold().contains_key(lowercase(w))) || (w.len() > 1 && tail == uppercase(
            tail,
        ))))
    }

    /// What the two tiers hold for `w`: the gold entry resolved for the tag
    /// at the gold rating, else, unless `nnp` is set, the silver entry at the
    /// silver rating.
    pub open spec fn probed(
        &self,
        w: Seq<char>,
        tag: Seq<char>,
        ctx: Option<TokenContext>,
        nnp: bool,
    ) -> Option<(Seq<char>, i32)> {
        if self.gold().contains_key(w) && resolved(self.gold()[w], tag, ctx) is Some {
            Some((resolved(self.gold()[w], tag, ctx)->0, GOLD_RATING))
        } else if !nnp && self.silver().contains_key(w) && resolved(self.silver()[w], tag, ctx)
            is Some {
            Some((resolved(self.silver()[w], tag, ctx)->0, SILVER_RATING))
        } else {
            None
        }
    }

    /// The pronunciation and rating of a word. An all-uppercase word that
    /// gold lacks is looked up in lower case, as a proper noun if the tag is
    /// `NNP`. Where the tiers give nothing, or give a proper noun without
    /// primary stress, the word is read as an initialism if that succeeds.
    /// The stress target is applied last.
    pub open spec fn looked_up(
        &self,
        word: Seq<char>,
        tag: Seq<char>,
        stress: Option<i32>,
        ctx: Option<TokenContext>,
    ) -> Option<(Seq<char>, i32)> {
        let folded = word == uppercase(word) && !self.gold().contains_key(word);
        let w = if folded {
            lowercase(word)
        } else {
            word
        };
        let nnp = folded && tag == "NNP"@;
        let base = self.probed(w, tag, ctx, nnp);
        let spell = (base is None || (nnp && !has_primary(base))) && initialism(
            self.gold(),
            w,
        ) is Some;
        let found = if spell {
            initialism(self.gold(), w)
        } else {
            base
        };
        match found {
            Some((ps, rating)) => Some((stressed(ps, stress), rating)),
            None => None,
        }
    }

    /// Whether the lexicon knows `word`, see [`Lexicon::known`]. The tag
    /// plays no part.
    pub fn is_known(&self, word: &str, _tag: &str) -> (r: bool)
        ensures
            r == self.known(word@),
    {
        if self.golds.contains_key(word) || get_symbols(word).is_some()
            || self.silvers.contains_key(word) {
            return true;
        }
        if !is_all_alphabetic(word) {
            return false;
        }
        if !only_lexicon_chars(word) {
            return false;
        }
        let n = word.unicode_len();
        if n == 1 {
            return true;
        }
        if same(word, word.to_uppercase().as_str()) && self.golds.contains_key(
            word.to_lowercase().as_str(),
        ) {
            return true;
        }
        if n > 1 {
            let tail = word.substring_char(1, n);
            if same(tail, tail.to_uppercase().as_str()) {
                return true;
            }
        }
        false
    }

    /// Reads `word` as an initialism, see [`initialism`].
    pub fn get_nnp(&self, word: &str) -> (r: Option<(String, i32)>)
        ensures
            rated_view(r) == initialism(self.gold(), word@),
    {
        let n = word.unicode_len();
        let mut acc = String::new();
        let mut count: usize = 0;
        let mut missing = false;
        let mut i: usize = 0;
        proof {
            assert(word@.subrange(0, 0) =~= Seq::<char>::empty());
        }
        while i < n
            invariant
                n == word@.len(),
                i <= n,
                count <= i,
                missing ==> spelled(self.gold(), word@.subrange(0, i as int)) is None,
                !missing ==> spelled(self.gold(), word@.subrange(0, i as int)) == Some(
                    (acc@, count as nat),
                ),
            decreases n - i,
        {
            proof {
                assert(word@.subrange(0, i + 1).drop_last() =~= word@.subrange(0, i as int));
            }
            let c = word.get_char(i);
            if !missing && c.is_alphabetic() {
                let key = char_string(c).as_str().to_uppercase();
                match self.golds.get(key.as_str()) {
                    Some(entry) => {
                        match entry {
                            PhonemeEntry::Simple(p) => {
                                acc.append(p.as_str());
                                count += 1;
                            },
                            PhonemeEntry::Tagged(_) => {},
                        }
                    },
                    None => {
                        missing = true;
                    },
                }
            }
            i += 1;
        }
        proof {
            assert(word@.subrange(0, n as int) =~= word@);
        }
        if missing || count == 0 {
            return None;
        }
        let placed = apply_stress(acc.as_str(), Some(0));
        Some((promote_last_secondary(placed.as_str()), SILVER_RATING))
    }

    /// What the two tiers hold for `w`, see [`Lexicon::probed`].
    pub fn probe(&self, w: &str, tag: &str, ctx: Option<&TokenContext>, nnp: bool) -> (r: Option<
        (String, i32),
    >)
        ensures
            rated_view(r) == self.probed(w@, tag@, ctx_view(ctx), nnp),
    {
        if let Some(entry) = self.golds.get(w) {
            if let Some(ps) = entry.resolve(tag, ctx) {
                return Some((ps, GOLD_RATING));
            }
        }
        if !nnp {
            if let Some(entry) = self.silvers.get(w) {
                if let Some(ps) = entry.resolve(tag, ctx) {
                    return Some((ps, SILVER_RATING));
                }
            }
        }
        None
    }

    /// Looks a word up in the two tiers and applies the stress target, see
    /// [`Lexicon::looked_up`].
    pub fn lookup(&self, word: &str, tag: &str, stress: Option<i32>, ctx: Option<&TokenContext>) -> (r:
        Option<(String, i32)>)
        ensures
            rated_view(r) == self.looked_up(word@, tag@, stress, ctx_view(ctx)),
    {
        let folded = same(word, word.to_uppercase().as_str()) && !self.golds.contains_key(word);
        let w: String = if folded {
            word.to_lowercase()
        } else {
            word.to_owned()
        };
        let nnp = folded && same(tag, "NNP");
        let base = self.probe(w.as_str(), tag, ctx, nnp);
        let try_spelling = match &base {
            Some((ps, _)) => nnp && !contains_char(ps.as_str(), PRIMARY),
            None => true,
        };
        let found = if try_spelling {
            match self.get_nnp(w.as_str()) {
                Some(spelling) => Some(spelling),
                None => base,
            }
        } else {
            base
        };
        match found {
            Some((ps, rating)) => Some((apply_stress(ps.as_str(), stress), rating)),
            None => None,
        }
    }
}

} // verus!
