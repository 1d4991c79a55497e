//! The two-tier dictionary: a gold and a silver map from words to entries,
//! each grown after loading by the alternate case form of its keys.
use vstd::prelude::*;
use vstd::hash_map::StringHashMap;
use crate::entry::{
    ctx_view, entry_valid, parent_tag, resolved, EntryView, PhonemeEntry, TokenContext,
};
use crate::stress::{restressed, stressed};
use crate::language::Language;
use crate::text::{lowercase, uppercase, same, char_string};

verus! {

/// Rating of a pronunciation taken from the gold tier.
pub const GOLD_RATING: i32 = 4;

/// Rating of a pronunciation taken from the silver tier or spelled out.
pub const SILVER_RATING: i32 = 3;

/// The dictionaries of one language variant.
pub struct Lexicon {
    pub lang: Language,
    /// Stress targets, in half steps, for a capitalized and for an
    /// all-uppercase word.
    pub cap_stresses: (i32, i32),
    pub golds: StringHashMap<PhonemeEntry>,
    pub silvers: StringHashMap<PhonemeEntry>,
}

/// A dictionary as a map from words to the content of their entries.
pub type Dict = Map<Seq<char>, EntryView>;

/// The content of a dictionary tier.
pub open spec fn dict_view(m: StringHashMap<PhonemeEntry>) -> Dict {
    m@.map_values(|e: PhonemeEntry| e@)
}

/// The content of a list of dictionary entries.
pub open spec fn entries_view(d: Seq<(String, PhonemeEntry)>) -> Seq<(Seq<char>, EntryView)> {
    d.map_values(|p: (String, PhonemeEntry)| (p.0@, p.1@))
}

/// Every entry of a list is valid.
pub open spec fn entries_valid(d: Seq<(Seq<char>, EntryView)>) -> bool {
    forall|i: int| 0 <= i < d.len() ==> entry_valid((#[trigger] d[i]).1)
}

/// Every entry of a dictionary is valid.
pub open spec fn dict_valid(m: Dict) -> bool {
    forall|k: Seq<char>| m.contains_key(k) ==> entry_valid(#[trigger] m[k])
}

/// Whether every entry of a list is valid.
pub fn has_valid_entries(d: &Vec<(String, PhonemeEntry)>) -> (r: bool)
    ensures
        r == entries_valid(entries_view(d@)),
{
    let n = d.len();
    let mut i: usize = 0;
    while i < n
        invariant
            n == d@.len(),
            i <= n,
            forall|k: int| 0 <= k < i ==> entry_valid((#[trigger] entries_view(d@)[k]).1),
        decreases n - i,
    {
        proof {
            assert(entries_view(d@)[i as int].1 == d@[i as int].1@);
        }
        if !d[i].1.is_valid() {
            return false;
        }
        i += 1;
    }
    true
}

/// The map a list of entries loads to; of two entries with one key the later
/// one counts.
pub open spec fn loaded(d: Seq<(Seq<char>, EntryView)>) -> Dict
    decreases d.len(),
{
    if d.len() == 0 {
        Map::empty()
    } else {
        loaded(d.drop_last()).insert(d.last().0, d.last().1)
    }
}

/// `lower` with its first character in upper case.
pub open spec fn capitalized(lower: Seq<char>) -> Seq<char> {
    if lower.len() == 0 {
        lower
    } else {
        uppercase(seq![lower[0]]) + lower.subrange(1, lower.len() as int)
    }
}

/// The alternate case form a key registers: the capitalized form of an
/// all-lowercase key, the lowercase form of a capitalized key, none for a key
/// of fewer than two characters or of mixed case.
pub open spec fn case_form(k: Seq<char>) -> Option<Seq<char>> {
    let lower = lowercase(k);
    let cap = capitalized(lower);
    if k.len() < 2 {
        None
    } else if k == lower {
        if k != cap {
            Some(cap)
        } else {
            None
        }
    } else if k == cap {
        Some(lower)
    } else {
        None
    }
}

/// `m` after each entry of `d`, in order, has registered its alternate case
/// form; a form that is already a key is left as it is.
pub open spec fn grown_with(m: Dict, d: Seq<(Seq<char>, EntryView)>) -> Dict
    decreases d.len(),
{
    if d.len() == 0 {
        m
    } else {
        let before = grown_with(m, d.drop_last());
        match case_form(d.last().0) {
            Some(f) => if before.contains_key(f) {
                before
            } else {
                before.insert(f, d.last().1)
            },
            None => before,
        }
    }
}

/// The case-grown dictionary of a list of entries.
pub open spec fn grown(d: Seq<(Seq<char>, EntryView)>) -> Dict {
    grown_with(loaded(d), d)
}

/// The alternate case form of a key, see [`case_form`].
pub fn alternate_case(k: &str) -> (r: Option<String>)
    ensures
        crate::entry::opt_view(r) == case_form(k@),
{
    if k.unicode_len() < 2 {
        return None;
    }
    let lower = k.to_lowercase();
    let ln = lower.as_str().unicode_len();
    let cap = if ln == 0 {
        lower.clone()
    } else {
        let first = char_string(lower.as_str().get_char(0));
        first.as_str().to_uppercase().concat(lower.as_str().substring_char(1, ln))
    };
    if same(k, lower.as_str()) {
        if !same(k, cap.as_str()) {
            Some(cap)
        } else {
            None
        }
    } else if same(k, cap.as_str()) {
        Some(lower)
    } else {
        None
    }
}

impl Lexicon {
    /// The content of the gold tier.
    pub open spec fn gold(&self) -> Dict {
        dict_view(self.golds)
    }

    /// The content of the silver tier.
    pub open spec fn silver(&self) -> Dict {
        dict_view(self.silvers)
    }

    /// The lexicon is usable: every entry of its two tiers is valid.
    pub open spec fn wf(&self) -> bool {
        dict_valid(self.gold()) && dict_valid(self.silver())
    }

    /// Builds the lexicon of `lang` from the entries of its gold and silver
    /// dictionaries, each grown by the alternate case forms of its keys;
    /// `None` where an entry holds a tag key twice.
    pub fn new(
        lang: Language,
        gold: Vec<(String, PhonemeEntry)>,
        silver: Vec<(String, PhonemeEntry)>,
    ) -> (r: Option<Lexicon>)
        ensures
            r is Some <==> entries_valid(entries_view(gold@)) && entries_valid(
                entries_view(silver@),
            ),
            r is Some ==> r->0.wf() && r->0.lang == lang && r->0.cap_stresses == (1i32, 4i32)
                && r->0.gold() == grown(entries_view(gold@)) && r->0.silver() == grown(
                entries_view(silver@),
            ),
    {
        if !has_valid_entries(&gold) || !has_valid_entries(&silver) {
            return None;
        }
        let golds = Lexicon::grow_dictionary(&gold);
        let silvers = Lexicon::grow_dictionary(&silver);
        Some(Lexicon { lang, cap_stresses: (1, 4), golds, silvers })
    }

    /// Applies a stress target, in half steps, to a phoneme string, see
    /// [`stressed`].
    pub fn apply_stress(&self, ps: &str, stress: Option<i32>) -> (r: String)
        ensures
            r@ == stressed(ps@, stress),
    {
        crate::stress::apply_stress(ps, stress)
    }

    /// Moves every stress mark immediately before the next vowel, see
    /// [`restressed`].
    pub fn restress(&self, ps: &str) -> (r: String)
        ensures
            r@ == restressed(ps@),
    {
        crate::stress::restress(ps)
    }

    /// The coarse class of a tag, see [`parent_tag`].
    pub fn get_parent_tag(tag: &str) -> (r: String)
        ensures
            r@ == parent_tag(tag@),
    {
        crate::entry::get_parent_tag(tag)
    }

    /// The phonemes an entry gives for a tag in a context, see [`resolved`].
    pub fn resolve_phonemes(&self, entry: &PhonemeEntry, tag: &str, ctx: Option<&TokenContext>) -> (r:
        Option<String>)
        ensures
            crate::entry::opt_view(r) == resolved(entry@, tag@, ctx_view(ctx)),
    {
        entry.resolve(tag, ctx)
    }

    /// Loads the entries into a map and registers the alternate case form of
    /// every key, never overwriting a key that is there.
    pub fn grow_dictionary(d: &Vec<(String, PhonemeEntry)>) -> (m: StringHashMap<PhonemeEntry>)
        ensures
            dict_view(m) == grown(entries_view(d@)),
            entries_valid(entries_view(d@)) ==> dict_valid(dict_view(m)),
    {
        let ghost ev = entries_view(d@);
        let mut m: StringHashMap<PhonemeEntry> = StringHashMap::new();
        let n = d.len();
        let mut i: usize = 0;
        proof {
            assert(dict_view(m) =~= loaded(ev.subrange(0, 0)));
        }
        while i < n
            invariant
                n == d@.len(),
                i <= n,
                ev == entries_view(d@),
                dict_view(m) == loaded(ev.subrange(0, i as int)),
                entries_valid(ev) ==> dict_valid(dict_view(m)),
            decreases n - i,
        {
            let ghost before = m;
            let k = d[i].0.clone();
            let v = d[i].1.duplicate();
            m.insert(k, v);
            proof {
                assert(ev.subrange(0, i + 1).drop_last() =~= ev.subrange(0, i as int));
                assert(dict_view(m) =~= dict_view(before).insert(d@[i as int].0@, d@[i as int].1@));
                assert(ev[i as int].1 == d@[i as int].1@);
            }
            i += 1;
        }
        proof {
            assert(ev.subrange(0, n as int) =~= ev);
        }
        i = 0;
        while i < n
            invariant
                n == d@.len(),
                i <= n,
                ev == entries_view(d@),
                dict_view(m) == grown_with(loaded(ev), ev.subrange(0, i as int)),
                entries_valid(ev) ==> dict_valid(dict_view(m)),
            decreases n - i,
        {
            let ghost before = m;
            proof {
                assert(ev.subrange(0, i + 1).drop_last() =~= ev.subrange(0, i as int));
            }
            match alternate_case(d[i].0.as_str()) {
                Some(f) => {
                    if !m.contains_key(f.as_str()) {
                        let v = d[i].1.duplicate();
                        m.insert(f, v);
                        proof {
                            assert(dict_view(m) =~= dict_view(before).insert(f@, d@[i as int].1@));
                            assert(ev[i as int].1 == d@[i as int].1@);
                        }
                    }
                },
                None => {},
            }
            i += 1;
        }
        m
    }
}

} // verus!
