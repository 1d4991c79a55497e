//! Dictionary entries: a pronunciation is either one phoneme string or a list
//! of variants keyed by part-of-speech tag.
use vstd::prelude::*;
use crate::text::same;

verus! {

/// What the next pronounced token contributes to the resolution of a token.
#[derive(Debug, Clone, Copy)]
pub struct TokenContext {
    /// Whether the next token begins with a vowel sound; `None` while unknown.
    pub future_vowel: Option<bool>,
    /// Whether the next token is the word `to`.
    pub future_to: bool,
}

impl Default for TokenContext {
    fn default() -> (r: Self)
        ensures
            r.future_vowel is None,
            !r.future_to,
    {
        TokenContext { future_vowel: None, future_to: false }
    }
}

/// One variant of a tagged entry: the tag key and the phonemes, if any.
#[derive(Debug, Clone)]
pub struct TaggedPhonemes {
    pub tag: String,
    pub phonemes: Option<String>,
}

/// A dictionary entry.
#[derive(Debug, Clone)]
pub enum PhonemeEntry {
    /// One pronunciation, whatever the tag.
    Simple(String),
    /// Pronunciations by tag key. A valid entry holds each key once; of two
    /// variants with one key the first would count.
    Tagged(Vec<TaggedPhonemes>),
}

/// The mathematical content of a [`PhonemeEntry`].
pub enum EntryView {
    Simple(Seq<char>),
    Tagged(Seq<(Seq<char>, Option<Seq<char>>)>),
}

/// The content of an optional string.
pub open spec fn opt_view(o: Option<String>) -> Option<Seq<char>> {
    match o {
        Some(s) => Some(s@),
        None => None,
    }
}

impl View for TaggedPhonemes {
    type V = (Seq<char>, Option<Seq<char>>);

    open spec fn view(&self) -> Self::V {
        (self.tag@, opt_view(self.phonemes))
    }
}

impl View for PhonemeEntry {
    type V = EntryView;

    open spec fn view(&self) -> EntryView {
        match self {
            PhonemeEntry::Simple(s) => EntryView::Simple(s@),
            PhonemeEntry::Tagged(v) => EntryView::Tagged(v@.map_values(|t: TaggedPhonemes| t@)),
        }
    }
}

/// No tag key occurs twice among the variants: the list is a map from tag
/// keys to phonemes.
pub open spec fn distinct_keys(variants: Seq<(Seq<char>, Option<Seq<char>>)>) -> bool {
    forall|a: int, b: int|
        #![trigger variants[a], variants[b]]
        0 <= a < b < variants.len() ==> variants[a].0 != variants[b].0
}

/// An entry is valid where it is simple or its variants have distinct keys.
pub open spec fn entry_valid(entry: EntryView) -> bool {
    match entry {
        EntryView::Simple(_) => true,
        EntryView::Tagged(variants) => distinct_keys(variants),
    }
}

/// The variant stored under `key`: that of the first pair with this key, the
/// only one in a valid entry.
pub open spec fn variant_of(
    variants: Seq<(Seq<char>, Option<Seq<char>>)>,
    key: Seq<char>,
) -> Option<Option<Seq<char>>>
    decreases variants.len(),
{
    if variants.len() == 0 {
        None
    } else if variants[0].0 == key {
        Some(variants[0].1)
    } else {
        variant_of(variants.drop_first(), key)
    }
}

/// In a valid entry the variants are a map: every variant is the one stored
/// under its key.
pub proof fn law_variant_of_valid(variants: Seq<(Seq<char>, Option<Seq<char>>)>, i: int)
    requires
        distinct_keys(variants),
        0 <= i < variants.len(),
    ensures
        variant_of(variants, variants[i].0) == Some(variants[i].1),
    decreases variants.len(),
{
    if i > 0 {
        let t = variants.drop_first();
        assert(variants[0].0 != variants[i].0);
        assert(distinct_keys(t)) by {
            assert forall|a: int, b: int|
                #![trigger t[a], t[b]]
                0 <= a < b < t.len() implies t[a].0 != t[b].0 by {
                assert(variants[a + 1].0 != variants[b + 1].0);
            }
        }
        assert(t[i - 1] == variants[i]);
        law_variant_of_valid(t, i - 1);
    }
}

/// The coarse class a tag falls back to: `VB*` to `VERB`, `NN*` to `NOUN`,
/// `ADV*` and `RB*` to `ADV`, `ADJ*` and `JJ*` to `ADJ`, any other to itself.
pub open spec fn parent_tag(tag: Seq<char>) -> Seq<char> {
    if starts2(tag, 'V', 'B') {
        "VERB"@
    } else if starts2(tag, 'N', 'N') {
        "NOUN"@
    } else if starts3(tag, 'A', 'D', 'V') || starts2(tag, 'R', 'B') {
        "ADV"@
    } else if starts3(tag, 'A', 'D', 'J') || starts2(tag, 'J', 'J') {
        "ADJ"@
    } else {
        tag
    }
}

/// `s` begins with the two characters `a`, `b`.
pub open spec fn starts2(s: Seq<char>, a: char, b: char) -> bool {
    s.len() >= 2 && s[0] == a && s[1] == b
}

/// `s` begins with the three characters `a`, `b`, `c`.
pub open spec fn starts3(s: Seq<char>, a: char, b: char, c: char) -> bool {
    s.len() >= 3 && s[0] == a && s[1] == b && s[2] == c
}

/// The tag key a tagged entry is first probed with: `None` where the entry
/// has such a key and the following sound is unknown, else the tag itself.
pub open spec fn dispatch_key(
    variants: Seq<(Seq<char>, Option<Seq<char>>)>,
    tag: Seq<char>,
    ctx: Option<TokenContext>,
) -> Seq<char> {
    if ctx is Some && ctx->0.future_vowel is None && variant_of(variants, "None"@) is Some {
        "None"@
    } else {
        tag
    }
}

/// The phonemes an entry gives for a tag: the variant of the exact key, else
/// that of its parent tag, else that of `DEFAULT`.
pub open spec fn resolved(entry: EntryView, tag: Seq<char>, ctx: Option<TokenContext>) -> Option<
    Seq<char>,
> {
    match entry {
        EntryView::Simple(ps) => Some(ps),
        EntryView::Tagged(variants) => {
            let key = dispatch_key(variants, tag, ctx);
            if variant_of(variants, key) is Some && variant_of(variants, key)->0 is Some {
                variant_of(variants, key)->0
            } else if variant_of(variants, parent_tag(key)) is Some && variant_of(
                variants,
                parent_tag(key),
            )->0 is Some {
                variant_of(variants, parent_tag(key))->0
            } else if variant_of(variants, "DEFAULT"@) is Some {
                variant_of(variants, "DEFAULT"@)->0
            } else {
                None
            }
        },
    }
}

/// Whether `s` begins with the two characters `a`, `b`.
pub fn begins2(s: &str, a: char, b: char) -> (r: bool)
    ensures
        r == starts2(s@, a, b),
{
    s.unicode_len() >= 2 && s.get_char(0) == a && s.get_char(1) == b
}

/// Whether `s` begins with the three characters `a`, `b`, `c`.
pub fn begins3(s: &str, a: char, b: char, c: char) -> (r: bool)
    ensures
        r == starts3(s@, a, b, c),
{
    s.unicode_len() >= 3 && s.get_char(0) == a && s.get_char(1) == b && s.get_char(2) == c
}

/// A copy of an optional string.
pub fn copy_opt(o: &Option<String>) -> (r: Option<String>)
    ensures
        opt_view(r) == opt_view(*o),
{
    match o {
        Some(s) => Some(s.clone()),
        None => None,
    }
}

/// Looks `key` up among the variants of a tagged entry.
pub fn find_variant(variants: &Vec<TaggedPhonemes>, key: &str) -> (r: Option<Option<String>>)
    ensures
        match r {
            Some(o) => variant_of(variants@.map_values(|t: TaggedPhonemes| t@), key@) == Some(
                opt_view(o),
            ),
            None => variant_of(variants@.map_values(|t: TaggedPhonemes| t@), key@) is None,
        },
{
    let ghost all = variants@.map_values(|t: TaggedPhonemes| t@);
    let n = variants.len();
    let mut i: usize = 0;
    proof {
        assert(all.subrange(0, n as int) =~= all);
    }
    while i < n
        invariant
            n == variants@.len(),
            i <= n,
            all == variants@.map_values(|t: TaggedPhonemes| t@),
            variant_of(all, key@) == variant_of(all.subrange(i as int, n as int), key@),
        decreases n - i,
    {
        proof {
            assert(all.subrange(i as int, n as int).drop_first() =~= all.subrange(
                i + 1,
                n as int,
            ));
            assert(all.subrange(i as int, n as int)[0] == variants@[i as int]@);
        }
        if same(variants[i].tag.as_str(), key) {
            return Some(copy_opt(&variants[i].phonemes));
        }
        i += 1;
    }
    None
}

/// Whether no tag key occurs twice among the variants.
pub fn has_distinct_keys(v: &Vec<TaggedPhonemes>) -> (r: bool)
    ensures
        r == distinct_keys(v@.map_values(|t: TaggedPhonemes| t@)),
{
    let ghost all = v@.map_values(|t: TaggedPhonemes| t@);
    let n = v.len();
    let mut j: usize = 0;
    while j < n
        invariant
            n == v@.len(),
            j <= n,
            all == v@.map_values(|t: TaggedPhonemes| t@),
            forall|a: int, b: int|
                #![trigger all[a], all[b]]
                0 <= a < b < j ==> all[a].0 != all[b].0,
        decreases n - j,
    {
        let mut i: usize = 0;
        while i < j
            invariant
                n == v@.len(),
                i <= j < n,
                all == v@.map_values(|t: TaggedPhonemes| t@),
                forall|a: int| 0 <= a < i ==> (#[trigger] all[a]).0 != all[j as int].0,
            decreases j - i,
        {
            if same(v[i].tag.as_str(), v[j].tag.as_str()) {
                proof {
                    assert(all[i as int].0 == all[j as int].0);
                    assert(!distinct_keys(all));
                }
                return false;
            }
            i += 1;
        }
        j += 1;
    }
    true
}

impl PhonemeEntry {
    /// Whether the entry is valid, see [`entry_valid`].
    pub fn is_valid(&self) -> (r: bool)
        ensures
            r == entry_valid(self@),
    {
        match self {
            PhonemeEntry::Simple(_) => true,
            PhonemeEntry::Tagged(v) => has_distinct_keys(v),
        }
    }

    /// A copy of the entry with the same content.
    pub fn duplicate(&self) -> (r: PhonemeEntry)
        ensures
            r@ == self@,
    {
        match self {
            PhonemeEntry::Simple(s) => PhonemeEntry::Simple(s.clone()),
            PhonemeEntry::Tagged(v) => {
                let mut out: Vec<TaggedPhonemes> = Vec::new();
                let n = v.len();
                let mut i: usize = 0;
                while i < n
                    invariant
                        n == v@.len(),
                        i <= n,
                        out@.len() == i,
                        forall|j: int| 0 <= j < i ==> out@[j]@ == v@[j]@,
                    decreases n - i,
                {
                    out.push(
                        TaggedPhonemes {
                            tag: v[i].tag.clone(),
                            phonemes: copy_opt(&v[i].phonemes),
                        },
                    );
                    i += 1;
                }
                proof {
                    assert(out@.map_values(|t: TaggedPhonemes| t@) =~= v@.map_values(
                        |t: TaggedPhonemes| t@,
                    ));
                }
                PhonemeEntry::Tagged(out)
            },
        }
    }

    /// The phonemes this entry gives for `tag` in the context `ctx`: a simple
    /// entry gives its string; a tagged one is probed with the tag (or `None`,
    /// see [`dispatch_key`]), then its parent tag, then `DEFAULT`.
    pub fn resolve(&self, tag: &str, ctx: Option<&TokenContext>) -> (r: Option<String>)
        ensures
            opt_view(r) == resolved(self@, tag@, ctx_view(ctx)),
    {
        match self {
            PhonemeEntry::Simple(ps) => Some(ps.clone()),
            PhonemeEntry::Tagged(variants) => {
                let unknown_next = match ctx {
                    Some(c) => c.future_vowel.is_none(),
                    None => false,
                };
                let key: String = if unknown_next && find_variant(variants, "None").is_some() {
                    "None".to_owned()
                } else {
                    tag.to_owned()
                };
                if let Some(Some(ps)) = find_variant(variants, key.as_str()) {
                    return Some(ps);
                }
                let parent = get_parent_tag(key.as_str());
                if let Some(Some(ps)) = find_variant(variants, parent.as_str()) {
                    return Some(ps);
                }
                match find_variant(variants, "DEFAULT") {
                    Some(o) => o,
                    None => None,
                }
            },
        }
    }
}

/// The context a reference stands for.
pub open spec fn ctx_view(ctx: Option<&TokenContext>) -> Option<TokenContext> {
    match ctx {
        Some(c) => Some(*c),
        None => None,
    }
}

/// The coarse class of a tag, see [`parent_tag`].
pub fn get_parent_tag(tag: &str) -> (r: String)
    ensures
        r@ == parent_tag(tag@),
{
    if begins2(tag, 'V', 'B') {
        "VERB".to_owned()
    } else if begins2(tag, 'N', 'N') {
        "NOUN".to_owned()
    } else if begins3(tag, 'A', 'D', 'V') || begins2(tag, 'R', 'B') {
        "ADV".to_owned()
    } else if begins3(tag, 'A', 'D', 'J') || begins2(tag, 'J', 'J') {
        "ADJ".to_owned()
    } else {
        tag.to_owned()
    }
}

} // verus!
