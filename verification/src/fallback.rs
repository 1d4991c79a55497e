//! The fallback for words outside the vocabulary: the interface of a
//! rule-based phonemizer, and the normalization of what one returns.
use vstd::prelude::*;
use crate::stress::{is_stress, lemma_filter_members};
use crate::text::{other_than, remove_char, without};

verus! {

/// Rating of phonemes that a fallback produced.
pub const FALLBACK_RATING: u8 = 1;

/// Why a fallback has no phonemes for a word.
#[derive(Debug, Clone, Copy, PartialEq, Eq, Structural)]
pub enum FallbackError {
    /// The phonemizer could not be run or produced nothing.
    NoPhonemes,
}

/// A phonemizer for words that the lexicon does not resolve.
pub trait Fallback {
    /// The phonemes of a word at the fallback rating, or an error where the
    /// phonemizer has none.
    fn phonemize(&self, word: &str) -> (r: Result<(String, u8), FallbackError>)
        ensures
            match r {
                Ok(found) => found.1 == FALLBACK_RATING,
                Err(_) => true,
            },
    ;
}

/// The settings of a fallback that speaks English through a rule-based
/// synthesizer.
pub struct EspeakFallback {
    pub british: bool,
}

/// `s` with every occurrence of `from` replaced by `to`, found from left to
/// right without overlap. An empty `from` replaces nothing.
pub open spec fn substituted(s: Seq<char>, from: Seq<char>, to: Seq<char>) -> Seq<char>
    decreases s.len(),
{
    if from.len() == 0 || s.len() < from.len() {
        s
    } else if s.subrange(0, from.len() as int) == from {
        to + substituted(s.subrange(from.len() as int, s.len() as int), from, to)
    } else {
        seq![s[0]] + substituted(s.drop_first(), from, to)
    }
}

/// `s` with every run of adjacent stress marks reduced to its first mark: a
/// stress mark that follows a stress mark is left out.
pub open spec fn collapsed(s: Seq<char>) -> Seq<char>
    decreases s.len(),
{
    if s.len() == 0 {
        s
    } else if s.len() >= 2 && is_stress(s.last()) && is_stress(s[s.len() - 2]) {
        collapsed(s.drop_last())
    } else {
        collapsed(s.drop_last()).push(s.last())
    }
}

/// No two neighbouring characters of `s` are both stress marks.
pub open spec fn no_adjacent_stress(s: Seq<char>) -> bool {
    forall|i: int| 0 <= i && i + 1 < s.len() ==> !(is_stress(#[trigger] s[i]) && is_stress(s[i + 1]))
}

/// `s` with its long vowels rewritten: long `i` and `u` become stressed
/// vowels, long `ɜ`, `ɔ` and `ɑ` lose their length mark, whether the mark
/// is `ː` or a colon.
pub open spec fn shortened(s: Seq<char>) -> Seq<char> {
    let s = substituted(s, "iː"@, "ˈi"@);
    let s = substituted(s, "i:"@, "ˈi"@);
    let s = substituted(s, "uː"@, "ˈu"@);
    let s = substituted(s, "u:"@, "ˈu"@);
    let s = substituted(s, "ɜː"@, "ɜ"@);
    let s = substituted(s, "ɜ:"@, "ɜ"@);
    let s = substituted(s, "ɔː"@, "ɔ"@);
    let s = substituted(s, "ɔ:"@, "ɔ"@);
    let s = substituted(s, "ɑː"@, "ɑ"@);
    substituted(s, "ɑ:"@, "ɑ"@)
}

/// The phoneme string of the synthesizer in the symbols of the lexicon: the
/// long vowels are rewritten, the remaining length marks `ː` and the
/// syllable separators `_` go, and every run of adjacent stress marks is
/// reduced to its first mark.
pub open spec fn normalized_ipa(s: Seq<char>) -> Seq<char> {
    collapsed(without(without(shortened(s), 'ː'), '_'))
}

/// What the fallback returns, given the phonemes that the synthesizer
/// produced: these normalized at the fallback rating, or an error where it
/// produced none.
pub open spec fn fallback_result(produced: Option<Seq<char>>) -> Result<
    (Seq<char>, u8),
    FallbackError,
> {
    match produced {
        Some(ipa) => Ok((normalized_ipa(ipa), FALLBACK_RATING)),
        None => Err(FallbackError::NoPhonemes),
    }
}

/// The content of what a fallback returns.
pub open spec fn outcome_view(r: Result<(String, u8), FallbackError>) -> Result<
    (Seq<char>, u8),
    FallbackError,
> {
    match r {
        Ok(found) => Ok((found.0@, found.1)),
        Err(e) => Err(e),
    }
}

/// Collapsing leaves no two stress marks side by side, keeps only
/// characters of `s`, and ends as `s` ends unless `s` ends in a stress mark,
/// where it ends in a stress mark too.
pub proof fn lemma_collapsed(s: Seq<char>)
    ensures
        no_adjacent_stress(collapsed(s)),
        forall|i: int| 0 <= i < collapsed(s).len() ==> s.contains(#[trigger] collapsed(s)[i]),
        s.len() > 0 ==> collapsed(s).len() > 0 && (is_stress(collapsed(s).last()) <==> is_stress(
            s.last(),
        )),
    decreases s.len(),
{
    if s.len() > 0 {
        let t = s.drop_last();
        let r = collapsed(t);
        let c = collapsed(s);
        lemma_collapsed(t);
        assert forall|i: int| 0 <= i < r.len() implies s.contains(#[trigger] r[i]) by {
            assert(t.contains(r[i]));
            let j = choose|j: int| 0 <= j < t.len() && t[j] == r[i];
            assert(s[j] == r[i]);
        }
        assert(s[s.len() - 1] == s.last());
        if s.len() >= 2 {
            assert(t.last() == s[s.len() - 2]);
        }
        if s.len() >= 2 && is_stress(s.last()) && is_stress(s[s.len() - 2]) {
            assert(c == r);
        } else {
            assert(c == r.push(s.last()));
            assert forall|i: int| 0 <= i && i + 1 < c.len() implies !(is_stress(#[trigger] c[i])
                && is_stress(c[i + 1])) by {
                if i + 1 < r.len() {
                    assert(c[i] == r[i] && c[i + 1] == r[i + 1]);
                } else {
                    assert(c[i] == r.last());
                    assert(c[i + 1] == s.last());
                }
            }
            assert forall|i: int| 0 <= i < c.len() implies s.contains(#[trigger] c[i]) by {
                if i < r.len() {
                    assert(c[i] == r[i]);
                }
            }
        }
    }
}

/// Collapsing changes nothing where no two stress marks stand side by side.
pub proof fn lemma_collapsed_clean(s: Seq<char>)
    requires
        no_adjacent_stress(s),
    ensures
        collapsed(s) == s,
    decreases s.len(),
{
    if s.len() > 0 {
        let t = s.drop_last();
        assert forall|i: int| 0 <= i && i + 1 < t.len() implies !(is_stress(#[trigger] t[i])
            && is_stress(t[i + 1])) by {
            assert(t[i] == s[i] && t[i + 1] == s[i + 1]);
        }
        lemma_collapsed_clean(t);
        if s.len() >= 2 {
            assert(!(is_stress(s[s.len() - 2]) && is_stress(s[s.len() - 2 + 1])));
        }
        assert(t.push(s.last()) =~= s);
    }
}

/// The normalized phoneme string holds no length mark `ː` and no syllable
/// separator `_`, and no two of its neighbouring characters are both stress
/// marks.
pub proof fn law_normalized_ipa_clean(raw: Seq<char>)
    ensures
        !normalized_ipa(raw).contains('ː'),
        !normalized_ipa(raw).contains('_'),
        no_adjacent_stress(normalized_ipa(raw)),
{
    let a = shortened(raw);
    let b = without(a, 'ː');
    let c = without(b, '_');
    let r = collapsed(c);
    lemma_filter_members(a, other_than('ː'));
    lemma_filter_members(b, other_than('_'));
    lemma_collapsed(c);
    assert forall|i: int| 0 <= i < r.len() implies #[trigger] r[i] != 'ː' && r[i] != '_' by {
        assert(c.contains(r[i]));
        let j = choose|j: int| 0 <= j < c.len() && c[j] == r[i];
        assert(c[j] != '_');
        assert(b.contains(c[j]));
        let k = choose|k: int| 0 <= k < b.len() && b[k] == c[j];
        assert(b[k] != 'ː');
    }
    if r.contains('ː') {
        let i = choose|i: int| 0 <= i < r.len() && r[i] == 'ː';
        assert(r[i] != 'ː');
    }
    if r.contains('_') {
        let i = choose|i: int| 0 <= i < r.len() && r[i] == '_';
        assert(r[i] != '_');
    }
}

/// Replacing changes nothing where a character of the pattern does not
/// occur in the string.
pub proof fn lemma_substituted_absent(s: Seq<char>, from: Seq<char>, to: Seq<char>, c: char)
    requires
        from.contains(c),
        !s.contains(c),
    ensures
        substituted(s, from, to) == s,
    decreases s.len(),
{
    if from.len() == 0 || s.len() < from.len() {
    } else {
        if s.subrange(0, from.len() as int) == from {
            let k = choose|k: int| 0 <= k < from.len() && from[k] == c;
            assert(s.subrange(0, from.len() as int)[k] == c);
            assert(s[k] == c);
        }
        let t = s.drop_first();
        if t.contains(c) {
            let j = choose|j: int| 0 <= j < t.len() && t[j] == c;
            assert(s[j + 1] == c);
        }
        lemma_substituted_absent(t, from, to, c);
        assert(seq![s[0]] + t =~= s);
    }
}

/// A phoneme string that holds no length mark (`ː` or a colon), no syllable
/// separator and no two stress marks side by side is left as it is.
pub proof fn law_clean_ipa_unchanged(raw: Seq<char>)
    requires
        !raw.contains('ː'),
        !raw.contains(':'),
        !raw.contains('_'),
        no_adjacent_stress(raw),
    ensures
        normalized_ipa(raw) == raw,
{
    reveal_strlit("iː");
    reveal_strlit("i:");
    reveal_strlit("uː");
    reveal_strlit("u:");
    reveal_strlit("ɜː");
    reveal_strlit("ɜ:");
    reveal_strlit("ɔː");
    reveal_strlit("ɔ:");
    reveal_strlit("ɑː");
    reveal_strlit("ɑ:");
    assert("iː"@[1] == 'ː' && "uː"@[1] == 'ː' && "ɜː"@[1] == 'ː' && "ɔː"@[1] == 'ː' && "ɑː"@[1]
        == 'ː');
    assert("i:"@[1] == ':' && "u:"@[1] == ':' && "ɜ:"@[1] == ':' && "ɔ:"@[1] == ':' && "ɑ:"@[1]
        == ':');
    lemma_substituted_absent(raw, "iː"@, "ˈi"@, 'ː');
    lemma_substituted_absent(raw, "i:"@, "ˈi"@, ':');
    lemma_substituted_absent(raw, "uː"@, "ˈu"@, 'ː');
    lemma_substituted_absent(raw, "u:"@, "ˈu"@, ':');
    lemma_substituted_absent(raw, "ɜː"@, "ɜ"@, 'ː');
    lemma_substituted_absent(raw, "ɜ:"@, "ɜ"@, ':');
    lemma_substituted_absent(raw, "ɔː"@, "ɔ"@, 'ː');
    lemma_substituted_absent(raw, "ɔ:"@, "ɔ"@, ':');
    lemma_substituted_absent(raw, "ɑː"@, "ɑ"@, 'ː');
    lemma_substituted_absent(raw, "ɑ:"@, "ɑ"@, ':');
    assert(shortened(raw) == raw);
    crate::stress::lemma_filter_all(raw, other_than('ː'));
    crate::stress::lemma_filter_all(raw, other_than('_'));
    lemma_collapsed_clean(raw);
}

/// Reduces every run of adjacent stress marks to its first mark, see
/// [`collapsed`].
pub fn collapse_stress(s: &str) -> (r: String)
    ensures
        r@ == collapsed(s@),
{
    let n = s.unicode_len();
    let mut out = String::new();
    let mut after_stress = false;
    let mut i: usize = 0;
    proof {
        assert(s@.subrange(0, 0) =~= Seq::<char>::empty());
    }
    while i < n
        invariant
            n == s@.len(),
            i <= n,
            out@ == collapsed(s@.subrange(0, i as int)),
            after_stress == (i > 0 && is_stress(s@[i - 1])),
        decreases n - i,
    {
        let c = s.get_char(i);
        let stress = c == crate::stress::PRIMARY || c == crate::stress::SECONDARY;
        proof {
            let next = s@.subrange(0, i + 1);
            assert(next.drop_last() =~= s@.subrange(0, i as int));
            assert(next.last() == c);
            if i > 0 {
                assert(next[next.len() - 2] == s@[i - 1]);
            }
        }
        if !(stress && after_stress) {
            out.push(c);
        }
        after_stress = stress;
        i += 1;
    }
    proof {
        assert(s@.subrange(0, n as int) =~= s@);
    }
    out
}

/// Replaces every occurrence of `from` in `s` by `to`, see [`substituted`].
pub fn replace_all(s: &str, from: &str, to: &str) -> (r: String)
    ensures
        r@ == substituted(s@, from@, to@),
{
    let n = s.unicode_len();
    let m = from.unicode_len();
    if m == 0 {
        return s.to_owned();
    }
    let mut out = String::new();
    let mut i: usize = 0;
    proof {
        assert(s@.subrange(0, n as int) =~= s@);
        assert(out@ + substituted(s@, from@, to@) =~= substituted(s@, from@, to@));
    }
    while i < n
        invariant
            n == s@.len(),
            m == from@.len(),
            m > 0,
            i <= n,
            substituted(s@, from@, to@) == out@ + substituted(
                s@.subrange(i as int, n as int),
                from@,
                to@,
            ),
        decreases n - i,
    {
        let ghost rest = s@.subrange(i as int, n as int);
        if m <= n - i && crate::text::same(s.substring_char(i, i + m), from) {
            proof {
                assert(rest.subrange(0, m as int) =~= s@.subrange(i as int, i + m));
                assert(rest.subrange(m as int, rest.len() as int) =~= s@.subrange(
                    i + m,
                    n as int,
                ));
                assert(out@ + (to@ + substituted(s@.subrange(i + m, n as int), from@, to@)) =~= (
                out@ + to@) + substituted(s@.subrange(i + m, n as int), from@, to@));
            }
            out.append(to);
            i += m;
        } else {
            proof {
                if m <= n - i {
                    assert(rest.subrange(0, m as int) =~= s@.subrange(i as int, i + m));
                }
                assert(rest.drop_first() =~= s@.subrange(i + 1, n as int));
                assert(out@ + (seq![rest[0]] + substituted(
                    s@.subrange(i + 1, n as int),
                    from@,
                    to@,
                )) =~= out@.push(s@[i as int]) + substituted(
                    s@.subrange(i + 1, n as int),
                    from@,
                    to@,
                ));
            }
            out.push(s.get_char(i));
            i += 1;
        }
    }
    proof {
        assert(out@ + Seq::<char>::empty() =~= out@);
    }
    out
}

impl EspeakFallback {
    /// The settings for the British or the American voice. This never fails.
    pub fn new(british: bool) -> (r: Result<Self, String>)
        ensures
            r is Ok,
            r->Ok_0.british == british,
    {
        Ok(EspeakFallback { british })
    }

    /// The name of the synthesizer's voice for the variant.
    pub fn voice(&self) -> (r: &'static str)
        ensures
            r@ == (if self.british {
                "en"@
            } else {
                "en-us"@
            }),
    {
        if self.british {
            "en"
        } else {
            "en-us"
        }
    }

    /// Turns the phoneme string of the synthesizer into the symbols of the
    /// lexicon, see [`normalized_ipa`]: the result holds no length mark `ː`
    /// and no syllable separator `_`, and no two stress marks side by side.
    /// The variant plays no part.
    pub fn convert_espeak_to_misaki(&self, espeak_ipa: &str) -> (r: String)
        ensures
            r@ == normalized_ipa(espeak_ipa@),
            !r@.contains('ː'),
            !r@.contains('_'),
            no_adjacent_stress(r@),
    {
        let s = replace_all(espeak_ipa, "iː", "ˈi");
        let s = replace_all(s.as_str(), "i:", "ˈi");
        let s = replace_all(s.as_str(), "uː", "ˈu");
        let s = replace_all(s.as_str(), "u:", "ˈu");
        let s = replace_all(s.as_str(), "ɜː", "ɜ");
        let s = replace_all(s.as_str(), "ɜ:", "ɜ");
        let s = replace_all(s.as_str(), "ɔː", "ɔ");
        let s = replace_all(s.as_str(), "ɔ:", "ɔ");
        let s = replace_all(s.as_str(), "ɑː", "ɑ");
        let s = replace_all(s.as_str(), "ɑ:", "ɑ");
        let s = remove_char(s.as_str(), 'ː');
        let s = remove_char(s.as_str(), '_');
        proof {
            law_normalized_ipa_clean(espeak_ipa@);
        }
        collapse_stress(s.as_str())
    }

    /// What the fallback returns, given what the synthesizer produced for a
    /// word: the phonemes normalized at the fallback rating, or an error
    /// where it produced none. The spelling of the word is never returned.
    pub fn rate(&self, produced: Option<String>) -> (r: Result<(String, u8), FallbackError>)
        ensures
            outcome_view(r) == fallback_result(crate::entry::opt_view(produced)),
            r is Ok <==> produced is Some,
    {
        match produced {
            Some(ipa) => Ok((self.convert_espeak_to_misaki(ipa.as_str()), FALLBACK_RATING)),
            None => Err(FallbackError::NoPhonemes),
        }
    }
}

} // verus!
