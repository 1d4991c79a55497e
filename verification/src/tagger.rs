//! Part-of-speech tagging by an averaged perceptron with a table of words
//! whose tag is fixed.
//!
//! Weights are fixed-point numbers: an integer counts millionths.
use vstd::prelude::*;
use vstd::hash_map::StringHashMap;
use crate::text::{contains_char, digit, is_digit, join2};
use crate::tokenizer::strings_view;

verus! {

/// The weight 1 in fixed-point notation.
pub const WEIGHT_UNIT: i128 = 1_000_000;

/// The weight that a feature gives to one class.
#[derive(Debug, Clone, Copy)]
pub struct ClassWeight {
    /// Index of the class in the class list.
    pub class: usize,
    pub weight: i32,
}

/// The model: for each feature the weights it gives to classes, and the
/// ordered list of classes.
pub struct AveragedPerceptron {
    pub feature_weights: StringHashMap<Vec<ClassWeight>>,
    pub classes: Vec<String>,
}

/// A tagged word with the score its tag was chosen at.
#[derive(Debug, Clone)]
pub struct Tag {
    pub word: String,
    pub tag: String,
    pub conf: i128,
}

/// The tagger: the model and the words whose tag is fixed.
pub struct PerceptronTagger {
    pub model: AveragedPerceptron,
    pub tags: StringHashMap<String>,
}

/// The sum of the weights that a list gives to class `c`.
pub open spec fn list_score(ws: Seq<ClassWeight>, c: int) -> int
    decreases ws.len(),
{
    if ws.len() == 0 {
        0
    } else {
        list_score(ws.drop_last(), c) + if ws.last().class == c {
            ws.last().weight as int
        } else {
            0
        }
    }
}

/// No class occurs twice in a list of weights: the list is a map from
/// classes to weights.
pub open spec fn distinct_classes(ws: Seq<ClassWeight>) -> bool {
    forall|a: int, b: int|
        #![trigger ws[a], ws[b]]
        0 <= a < b < ws.len() ==> ws[a].class != ws[b].class
}

/// Every weight list of a table in list form holds each class once at most.
pub open spec fn weights_valid(entries: Seq<(String, Vec<ClassWeight>)>) -> bool {
    forall|i: int| 0 <= i < entries.len() ==> distinct_classes((#[trigger] entries[i]).1@)
}

/// A list that holds each class once at most gives a class the weight of one
/// entry or nothing: its score lies within the range of a weight, and is 0
/// where no entry is for the class.
pub proof fn lemma_list_score_bound(ws: Seq<ClassWeight>, c: int)
    requires
        distinct_classes(ws),
    ensures
        -0x8000_0000 <= list_score(ws, c) <= 0x8000_0000,
        (forall|i: int| 0 <= i < ws.len() ==> (#[trigger] ws[i]).class != c) ==> list_score(ws, c)
            == 0,
    decreases ws.len(),
{
    if ws.len() > 0 {
        let t = ws.drop_last();
        assert(distinct_classes(t)) by {
            assert forall|a: int, b: int|
                #![trigger t[a], t[b]]
                0 <= a < b < t.len() implies t[a].class != t[b].class by {
                assert(ws[a].class != ws[b].class);
            }
        }
        lemma_list_score_bound(t, c);
        if ws.last().class == c {
            assert forall|i: int| 0 <= i < t.len() implies (#[trigger] t[i]).class != c by {
                assert(ws[i].class != ws[ws.len() - 1].class);
            }
        } else {
            if forall|i: int| 0 <= i < ws.len() ==> (#[trigger] ws[i]).class != c {
                assert forall|i: int| 0 <= i < t.len() implies (#[trigger] t[i]).class != c by {
                    assert(ws[i].class != c);
                }
            }
        }
    }
}

/// The table a list of weight lists loads to; of two lists for one feature
/// the earlier one counts.
pub open spec fn weight_table(entries: Seq<(String, Vec<ClassWeight>)>) -> Map<
    Seq<char>,
    Vec<ClassWeight>,
>
    decreases entries.len(),
{
    if entries.len() == 0 {
        Map::empty()
    } else {
        weight_table(entries.drop_first()).insert(entries[0].0@, entries[0].1)
    }
}

/// The table a list of fixed tags loads to; of two tags for one word the
/// earlier one counts.
pub open spec fn tag_table(entries: Seq<(String, String)>) -> Map<Seq<char>, String>
    decreases entries.len(),
{
    if entries.len() == 0 {
        Map::empty()
    } else {
        tag_table(entries.drop_first()).insert(entries[0].0@, entries[0].1)
    }
}

/// A word of exactly four ASCII digits.
pub open spec fn is_year(w: Seq<char>) -> bool {
    w.len() == 4 && forall|i: int| 0 <= i < 4 ==> is_digit(#[trigger] w[i])
}

/// The form under which a word enters the context: `!YEAR` for four digits,
/// `!DIGITS` for a word that begins with a digit, `!HYPHEN` for a word with
/// a hyphen after its first character, else the word itself.
pub open spec fn normalized(w: Seq<char>) -> Seq<char> {
    if is_year(w) {
        "!YEAR"@
    } else if w.len() > 0 && is_digit(w[0]) {
        "!DIGITS"@
    } else if w.contains('-') && w[0] != '-' {
        "!HYPHEN"@
    } else {
        w
    }
}

/// The padded context of a sentence: two start marks, the normalized words,
/// two end marks.
pub open spec fn context_of(words: Seq<Seq<char>>) -> Seq<Seq<char>> {
    seq!["-START-"@, "-START2-"@] + words.map_values(|w: Seq<char>| normalized(w)) + seq![
        "-END-"@,
        "-END2-"@,
    ]
}

/// The last three characters of a word, or the word if it is shorter.
pub open spec fn suffix3(w: Seq<char>) -> Seq<char> {
    if w.len() <= 3 {
        w
    } else {
        w.subrange(w.len() - 3, w.len() as int)
    }
}

/// The first character of a word as a string, empty for the empty word.
pub open spec fn pref1(w: Seq<char>) -> Seq<char> {
    if w.len() == 0 {
        w
    } else {
        w.subrange(0, 1)
    }
}

/// The features of the word at position `i` of the padded context.
pub open spec fn features_of(
    i: int,
    word: Seq<char>,
    context: Seq<Seq<char>>,
    prev: Seq<char>,
    prev2: Seq<char>,
) -> Seq<Seq<char>> {
    seq![
        "bias"@,
        "i suffix "@ + suffix3(word),
        "i pref1 "@ + pref1(word),
        "i-1 tag "@ + prev,
        "i-2 tag "@ + prev2,
        "i tag+i-2 tag "@ + prev + " "@ + prev2,
        "i word "@ + context[i],
        "i-1 tag+i word "@ + prev + " "@ + context[i],
        "i-1 word "@ + context[i - 1],
        "i-2 word "@ + context[i - 2],
        "i+1 word "@ + context[i + 1],
        "i+2 word "@ + context[i + 2],
        "i+1 suffix "@ + suffix3(context[i + 1]),
        "i-1 suffix "@ + suffix3(context[i - 1]),
    ]
}

/// No string occurs twice in a list: the list is a set.
pub open spec fn distinct_strings(v: Seq<Seq<char>>) -> bool {
    forall|a: int, b: int| #![trigger v[a], v[b]] 0 <= a < b < v.len() ==> v[a] != v[b]
}

/// The features of a word are a set: no two of them are the same string,
/// since each begins with a name of its own.
pub proof fn lemma_features_distinct(
    i: int,
    word: Seq<char>,
    context: Seq<Seq<char>>,
    prev: Seq<char>,
    prev2: Seq<char>,
)
    ensures
        distinct_strings(features_of(i, word, context, prev, prev2)),
{
    let f = features_of(i, word, context, prev, prev2);
    assert(f.len() == 14);
    assert forall|a: int, b: int| #![trigger f[a], f[b]] 0 <= a < b < f.len() implies f[a]
        != f[b] by {
        reveal_strlit("bias");
        reveal_strlit("i suffix ");
        reveal_strlit("i pref1 ");
        reveal_strlit("i-1 tag ");
        reveal_strlit("i-2 tag ");
        reveal_strlit("i tag+i-2 tag ");
        reveal_strlit("i word ");
        reveal_strlit("i-1 tag+i word ");
        reveal_strlit("i-1 word ");
        reveal_strlit("i-2 word ");
        reveal_strlit("i+1 word ");
        reveal_strlit("i+2 word ");
        reveal_strlit("i+1 suffix ");
        reveal_strlit("i-1 suffix ");
        assert(f[0][0] != f[1][0]);
        assert(f[0][0] != f[2][0]);
        assert(f[0][0] != f[3][0]);
        assert(f[0][0] != f[4][0]);
        assert(f[0][0] != f[5][0]);
        assert(f[0][0] != f[6][0]);
        assert(f[0][0] != f[7][0]);
        assert(f[0][0] != f[8][0]);
        assert(f[0][0] != f[9][0]);
        assert(f[0][0] != f[10][0]);
        assert(f[0][0] != f[11][0]);
        assert(f[0][0] != f[12][0]);
        assert(f[0][0] != f[13][0]);
        assert(f[1][2] != f[2][2]);
        assert(f[1][1] != f[3][1]);
        assert(f[1][1] != f[4][1]);
        assert(f[1][2] != f[5][2]);
        assert(f[1][2] != f[6][2]);
        assert(f[1][1] != f[7][1]);
        assert(f[1][1] != f[8][1]);
        assert(f[1][1] != f[9][1]);
        assert(f[1][1] != f[10][1]);
        assert(f[1][1] != f[11][1]);
        assert(f[1][1] != f[12][1]);
        assert(f[1][1] != f[13][1]);
        assert(f[2][1] != f[3][1]);
        assert(f[2][1] != f[4][1]);
        assert(f[2][2] != f[5][2]);
        assert(f[2][2] != f[6][2]);
        assert(f[2][1] != f[7][1]);
        assert(f[2][1] != f[8][1]);
        assert(f[2][1] != f[9][1]);
        assert(f[2][1] != f[10][1]);
        assert(f[2][1] != f[11][1]);
        assert(f[2][1] != f[12][1]);
        assert(f[2][1] != f[13][1]);
        assert(f[3][2] != f[4][2]);
        assert(f[3][1] != f[5][1]);
        assert(f[3][1] != f[6][1]);
        assert(f[3][7] != f[7][7]);
        assert(f[3][4] != f[8][4]);
        assert(f[3][2] != f[9][2]);
        assert(f[3][1] != f[10][1]);
        assert(f[3][1] != f[11][1]);
        assert(f[3][1] != f[12][1]);
        assert(f[3][4] != f[13][4]);
        assert(f[4][1] != f[5][1]);
        assert(f[4][1] != f[6][1]);
        assert(f[4][2] != f[7][2]);
        assert(f[4][2] != f[8][2]);
        assert(f[4][4] != f[9][4]);
        assert(f[4][1] != f[10][1]);
        assert(f[4][1] != f[11][1]);
        assert(f[4][1] != f[12][1]);
        assert(f[4][2] != f[13][2]);
        assert(f[5][2] != f[6][2]);
        assert(f[5][1] != f[7][1]);
        assert(f[5][1] != f[8][1]);
        assert(f[5][1] != f[9][1]);
        assert(f[5][1] != f[10][1]);
        assert(f[5][1] != f[11][1]);
        assert(f[5][1] != f[12][1]);
        assert(f[5][1] != f[13][1]);
        assert(f[6][1] != f[7][1]);
        assert(f[6][1] != f[8][1]);
        assert(f[6][1] != f[9][1]);
        assert(f[6][1] != f[10][1]);
        assert(f[6][1] != f[11][1]);
        assert(f[6][1] != f[12][1]);
        assert(f[6][1] != f[13][1]);
        assert(f[7][4] != f[8][4]);
        assert(f[7][2] != f[9][2]);
        assert(f[7][1] != f[10][1]);
        assert(f[7][1] != f[11][1]);
        assert(f[7][1] != f[12][1]);
        assert(f[7][4] != f[13][4]);
        assert(f[8][2] != f[9][2]);
        assert(f[8][1] != f[10][1]);
        assert(f[8][1] != f[11][1]);
        assert(f[8][1] != f[12][1]);
        assert(f[8][4] != f[13][4]);
        assert(f[9][1] != f[10][1]);
        assert(f[9][1] != f[11][1]);
        assert(f[9][1] != f[12][1]);
        assert(f[9][2] != f[13][2]);
        assert(f[10][2] != f[11][2]);
        assert(f[10][4] != f[12][4]);
        assert(f[10][1] != f[13][1]);
        assert(f[11][2] != f[12][2]);
        assert(f[11][1] != f[13][1]);
        assert(f[12][1] != f[13][1]);
    }
}

/// The form under which a word enters the context, see [`normalized`].
pub fn normalize(w: &str) -> (r: String)
    ensures
        r@ == normalized(w@),
{
    let n = w.unicode_len();
    if n == 4 && digit(w.get_char(0)) && digit(w.get_char(1)) && digit(w.get_char(2)) && digit(
        w.get_char(3),
    ) {
        "!YEAR".to_owned()
    } else if n > 0 && digit(w.get_char(0)) {
        "!DIGITS".to_owned()
    } else if contains_char(w, '-') && w.get_char(0) != '-' {
        "!HYPHEN".to_owned()
    } else {
        w.to_owned()
    }
}

/// The last three characters of a word, see [`suffix3`].
pub fn last3(w: &str) -> (r: &str)
    ensures
        r@ == suffix3(w@),
{
    let n = w.unicode_len();
    if n <= 3 {
        w
    } else {
        w.substring_char(n - 3, n)
    }
}

/// The first character of a word as a string, see [`pref1`].
pub fn first1(w: &str) -> (r: &str)
    ensures
        r@ == pref1(w@),
{
    if w.unicode_len() == 0 {
        w
    } else {
        w.substring_char(0, 1)
    }
}

/// `a`, `b`, a space and `c` in a row.
fn join_spaced(a: &str, b: &str, c: &str) -> (r: String)
    ensures
        r@ == a@ + b@ + " "@ + c@,
{
    let mut r = join2(a, b);
    r.append(" ");
    r.append(c);
    r
}

/// Whether no class occurs twice in a list of weights.
pub fn has_distinct_classes(ws: &Vec<ClassWeight>) -> (r: bool)
    ensures
        r == distinct_classes(ws@),
{
    let n = ws.len();
    let mut j: usize = 0;
    while j < n
        invariant
            n == ws@.len(),
            j <= n,
            forall|a: int, b: int|
                #![trigger ws@[a], ws@[b]]
                0 <= a < b < j ==> ws@[a].class != ws@[b].class,
        decreases n - j,
    {
        let mut i: usize = 0;
        while i < j
            invariant
                n == ws@.len(),
                i <= j < n,
                forall|a: int| 0 <= a < i ==> (#[trigger] ws@[a]).class != ws@[j as int].class,
            decreases j - i,
        {
            if ws[i].class == ws[j].class {
                return false;
            }
            i += 1;
        }
        j += 1;
    }
    true
}

/// Whether every weight list of a table in list form holds each class once
/// at most.
pub fn has_valid_weights(entries: &Vec<(String, Vec<ClassWeight>)>) -> (r: bool)
    ensures
        r == weights_valid(entries@),
{
    let n = entries.len();
    let mut i: usize = 0;
    while i < n
        invariant
            n == entries@.len(),
            i <= n,
            forall|k: int| 0 <= k < i ==> distinct_classes((#[trigger] entries@[k]).1@),
        decreases n - i,
    {
        if !has_distinct_classes(&entries[i].1) {
            return false;
        }
        i += 1;
    }
    true
}

/// Loads a table of weights from its list form, see [`weight_table`].
pub fn load_weights(entries: Vec<(String, Vec<ClassWeight>)>) -> (r: StringHashMap<
    Vec<ClassWeight>,
>)
    ensures
        r@ == weight_table(entries@),
        weights_valid(entries@) ==> forall|f: Seq<char>|
            r@.contains_key(f) ==> distinct_classes(#[trigger] r@[f]@),
{
    let ghost all = entries@;
    let mut entries = entries;
    let mut m: StringHashMap<Vec<ClassWeight>> = StringHashMap::new();
    proof {
        assert(all.subrange(all.len() as int, all.len() as int) =~= Seq::empty());
        assert(all.subrange(0, all.len() as int) =~= all);
    }
    while entries.len() > 0
        invariant
            entries@.len() <= all.len(),
            entries@ == all.subrange(0, entries@.len() as int),
            m@ == weight_table(all.subrange(entries@.len() as int, all.len() as int)),
            weights_valid(all) ==> forall|f: Seq<char>|
                m@.contains_key(f) ==> distinct_classes(#[trigger] m@[f]@),
        decreases entries@.len(),
    {
        let ghost k = entries@.len() as int;
        let last = entries.pop();
        match last {
            Some((key, ws)) => {
                proof {
                    assert(all[k - 1].1 == ws);
                }
                proof {
                    assert(all.subrange(k - 1, all.len() as int).drop_first() =~= all.subrange(
                        k,
                        all.len() as int,
                    ));
                    assert(entries@ =~= all.subrange(0, k - 1));
                }
                m.insert(key, ws);
            },
            None => {},
        }
    }
    proof {
        assert(all.subrange(0, all.len() as int) =~= all);
    }
    m
}

/// Loads a table of fixed tags from its list form, see [`tag_table`].
pub fn load_tags(entries: Vec<(String, String)>) -> (r: StringHashMap<String>)
    ensures
        r@ == tag_table(entries@),
{
    let ghost all = entries@;
    let mut entries = entries;
    let mut m: StringHashMap<String> = StringHashMap::new();
    proof {
        assert(all.subrange(all.len() as int, all.len() as int) =~= Seq::empty());
        assert(all.subrange(0, all.len() as int) =~= all);
    }
    while entries.len() > 0
        invariant
            entries@.len() <= all.len(),
            entries@ == all.subrange(0, entries@.len() as int),
            m@ == tag_table(all.subrange(entries@.len() as int, all.len() as int)),
        decreases entries@.len(),
    {
        let ghost k = entries@.len() as int;
        let last = entries.pop();
        match last {
            Some((key, tag)) => {
                proof {
                    assert(all.subrange(k - 1, all.len() as int).drop_first() =~= all.subrange(
                        k,
                        all.len() as int,
                    ));
                    assert(entries@ =~= all.subrange(0, k - 1));
                }
                m.insert(key, tag);
            },
            None => {},
        }
    }
    proof {
        assert(all.subrange(0, all.len() as int) =~= all);
    }
    m
}

impl AveragedPerceptron {
    /// The weight that one feature gives to class `c`: the sum over its
    /// list, 0 for a feature the model does not hold.
    pub open spec fn feature_score(&self, feature: Seq<char>, c: int) -> int {
        if self.feature_weights@.contains_key(feature) {
            list_score(self.feature_weights@[feature]@, c)
        } else {
            0
        }
    }

    /// The score of class `c`: the sum of what each feature gives it.
    pub open spec fn score(&self, features: Seq<Seq<char>>, c: int) -> int
        decreases features.len(),
    {
        if features.len() == 0 {
            0
        } else {
            self.score(features.drop_last(), c) + self.feature_score(features.last(), c)
        }
    }

    /// The best of the first `n` classes: the one with the highest score,
    /// and of several such the last in the class list.
    pub open spec fn best_of(&self, features: Seq<Seq<char>>, n: int) -> int
        decreases n,
    {
        if n <= 1 {
            0
        } else {
            let b = self.best_of(features, n - 1);
            if self.score(features, n - 1) >= self.score(features, b) {
                n - 1
            } else {
                b
            }
        }
    }

    /// The class the model predicts for a set of features.
    pub open spec fn best(&self, features: Seq<Seq<char>>) -> int {
        self.best_of(features, self.classes@.len() as int)
    }

    /// The model is usable: it has a class to predict, and each of its weight
    /// lists holds a class once at most.
    pub open spec fn wf(&self) -> bool {
        &&& self.classes@.len() > 0
        &&& forall|f: Seq<char>|
            self.feature_weights@.contains_key(f) ==> distinct_classes(
                #[trigger] self.feature_weights@[f]@,
            )
    }

    /// A model from its table of weights and its ordered list of classes;
    /// `None` where there is no class or a weight list holds a class twice.
    pub fn new(weights: Vec<(String, Vec<ClassWeight>)>, classes: Vec<String>) -> (r: Option<Self>)
        ensures
            r is Some <==> classes@.len() > 0 && weights_valid(weights@),
            r is Some ==> r->0.wf() && r->0.feature_weights@ == weight_table(weights@)
                && r->0.classes == classes,
    {
        if classes.len() == 0 || !has_valid_weights(&weights) {
            return None;
        }
        Some(AveragedPerceptron { feature_weights: load_weights(weights), classes })
    }

    /// The weight that one feature gives to class `c`.
    pub fn weigh_feature(&self, feature: &str, c: usize) -> (r: i128)
        requires
            self.wf(),
        ensures
            r == self.feature_score(feature@, c as int),
            -0x8000_0000 <= r <= 0x8000_0000,
    {
        match self.feature_weights.get(feature) {
            Some(ws) => {
                let n = ws.len();
                let mut acc: i128 = 0;
                let mut j: usize = 0;
                proof {
                    assert(ws@.subrange(0, 0) =~= Seq::<ClassWeight>::empty());
                }
                while j < n
                    invariant
                        n == ws@.len(),
                        j <= n,
                        acc == list_score(ws@.subrange(0, j as int), c as int),
                        -(j * 0x8000_0000) <= acc <= j * 0x8000_0000,
                    decreases n - j,
                {
                    proof {
                        assert(ws@.subrange(0, j + 1).drop_last() =~= ws@.subrange(0, j as int));
                    }
                    if ws[j].class == c {
                        acc = acc + ws[j].weight as i128;
                    }
                    j += 1;
                }
                proof {
                    assert(ws@.subrange(0, n as int) =~= ws@);
                    lemma_list_score_bound(ws@, c as int);
                }
                acc
            },
            None => 0,
        }
    }

    /// The score of class `c` for a set of features.
    pub fn weigh(&self, features: &Vec<String>, c: usize) -> (r: i128)
        requires
            self.wf(),
        ensures
            r == self.score(strings_view(features@), c as int),
    {
        let ghost all = strings_view(features@);
        let n = features.len();
        let mut acc: i128 = 0;
        let mut i: usize = 0;
        proof {
            assert(all.subrange(0, 0) =~= Seq::<Seq<char>>::empty());
        }
        while i < n
            invariant
                n == features@.len(),
                self.wf(),
                i <= n,
                all == strings_view(features@),
                acc == self.score(all.subrange(0, i as int), c as int),
                -(i * 0x8000_0000) <= acc <= i * 0x8000_0000,
            decreases n - i,
        {
            proof {
                assert(all.subrange(0, i + 1).drop_last() =~= all.subrange(0, i as int));
                assert(all.subrange(0, i + 1).last() == features@[i as int]@);
            }
            let w = self.weigh_feature(features[i].as_str(), c);
            acc = acc + w;
            i += 1;
        }
        proof {
            assert(all.subrange(0, n as int) =~= all);
        }
        acc
    }

    /// Predicts the class of a set of features: the index of the class with
    /// the highest score, the last of several, and that score.
    pub fn predict(&self, features: &Vec<String>) -> (r: (usize, i128))
        requires
            self.wf(),
        ensures
            r.0 < self.classes@.len(),
            r.0 == self.best(strings_view(features@)),
            r.1 == self.score(strings_view(features@), r.0 as int),
            forall|c: int|
                0 <= c < self.classes@.len() ==> self.score(strings_view(features@), c) <= r.1,
            forall|c: int|
                r.0 < c < self.classes@.len() ==> self.score(strings_view(features@), c) < r.1,
    {
        let n = self.classes.len();
        let mut best: usize = 0;
        let mut best_score = self.weigh(features, 0);
        let mut c: usize = 1;
        while c < n
            invariant
                n == self.classes@.len(),
                self.wf(),
                1 <= c <= n,
                best < c,
                best == self.best_of(strings_view(features@), c as int),
                best_score == self.score(strings_view(features@), best as int),
                forall|k: int| 0 <= k < c ==> self.score(strings_view(features@), k) <= best_score,
                forall|k: int|
                    best < k < c ==> self.score(strings_view(features@), k) < best_score,
            decreases n - c,
        {
            let s = self.weigh(features, c);
            if s >= best_score {
                best = c;
                best_score = s;
            }
            c += 1;
        }
        (best, best_score)
    }
}

impl PerceptronTagger {
    /// The tagger is usable: its model is.
    pub open spec fn wf(&self) -> bool {
        self.model.wf()
    }

    /// The tag before position `i`: that of the word before, or the first
    /// start mark.
    pub open spec fn prev_at(&self, words: Seq<Seq<char>>, i: int) -> Seq<char>
        decreases i, 0nat,
    {
        if i >= 1 {
            self.tag_at(words, i - 1)
        } else {
            "-START-"@
        }
    }

    /// The tag two before position `i`: that of the word two before, or a
    /// start mark.
    pub open spec fn prev2_at(&self, words: Seq<Seq<char>>, i: int) -> Seq<char>
        decreases i, 0nat,
    {
        if i >= 2 {
            self.tag_at(words, i - 2)
        } else if i == 1 {
            "-START-"@
        } else {
            "-START2-"@
        }
    }

    /// The tag of the word at position `i`: its fixed tag if the table holds
    /// the word, else the class predicted from its features, which include
    /// the tags of the two words before.
    pub open spec fn tag_at(&self, words: Seq<Seq<char>>, i: int) -> Seq<char>
        decreases i, 1nat,
    {
        if i < 0 || i >= words.len() {
            Seq::empty()
        } else if self.tags@.contains_key(words[i]) {
            self.tags@[words[i]]@
        } else {
            self.model.classes@[self.model.best(
                features_of(
                    i + 2,
                    words[i],
                    context_of(words),
                    self.prev_at(words, i),
                    self.prev2_at(words, i),
                ),
            )]@
        }
    }

    /// The confidence of the tag at position `i`: one unit for a fixed tag,
    /// else the score of the predicted class.
    pub open spec fn conf_at(&self, words: Seq<Seq<char>>, i: int) -> int {
        let features = features_of(
            i + 2,
            words[i],
            context_of(words),
            self.prev_at(words, i),
            self.prev2_at(words, i),
        );
        if self.tags@.contains_key(words[i]) {
            WEIGHT_UNIT as int
        } else {
            self.model.score(features, self.model.best(features))
        }
    }

    /// A tagger from its model and the list of words whose tag is fixed.
    pub fn new(model: AveragedPerceptron, tags: Vec<(String, String)>) -> (r: Self)
        ensures
            r.model == model,
            r.tags@ == tag_table(tags@),
    {
        PerceptronTagger { model, tags: load_tags(tags) }
    }

    /// The padded context of a sentence, see [`context_of`].
    pub fn context(words: &Vec<String>) -> (r: Vec<String>)
        ensures
            strings_view(r@) == context_of(strings_view(words@)),
            r@.len() == words@.len() + 4,
    {
        let mut r: Vec<String> = Vec::new();
        r.push("-START-".to_owned());
        r.push("-START2-".to_owned());
        let n = words.len();
        let mut i: usize = 0;
        while i < n
            invariant
                n == words@.len(),
                i <= n,
                r@.len() == i + 2,
                r@[0]@ == "-START-"@,
                r@[1]@ == "-START2-"@,
                forall|j: int| 0 <= j < i ==> r@[j + 2]@ == normalized(#[trigger] words@[j]@),
            decreases n - i,
        {
            r.push(normalize(words[i].as_str()));
            i += 1;
        }
        r.push("-END-".to_owned());
        r.push("-END2-".to_owned());
        proof {
            assert(strings_view(r@) =~= context_of(strings_view(words@)));
        }
        r
    }

    /// The features of the word at position `i` of the padded context, see
    /// [`features_of`].
    pub fn get_features(i: usize, word: &str, context: &Vec<String>, prev: &str, prev2: &str) -> (r:
        Vec<String>)
        requires
            2 <= i,
            i + 2 < context@.len(),
        ensures
            strings_view(r@) == features_of(
                i as int,
                word@,
                strings_view(context@),
                prev@,
                prev2@,
            ),
            r@.len() == 14,
            distinct_strings(strings_view(r@)),
    {
        let last = context.len() - 1;
        assert(i + 2 <= last);
        let mut r: Vec<String> = Vec::new();
        r.push("bias".to_owned());
        r.push(join2("i suffix ", last3(word)));
        r.push(join2("i pref1 ", first1(word)));
        r.push(join2("i-1 tag ", prev));
        r.push(join2("i-2 tag ", prev2));
        r.push(join_spaced("i tag+i-2 tag ", prev, prev2));
        r.push(join2("i word ", context[i].as_str()));
        r.push(join_spaced("i-1 tag+i word ", prev, context[i].as_str()));
        r.push(join2("i-1 word ", context[i - 1].as_str()));
        r.push(join2("i-2 word ", context[i - 2].as_str()));
        r.push(join2("i+1 word ", context[i + 1].as_str()));
        r.push(join2("i+2 word ", context[i + 2].as_str()));
        r.push(join2("i+1 suffix ", last3(context[i + 1].as_str())));
        r.push(join2("i-1 suffix ", last3(context[i - 1].as_str())));
        proof {
            assert(strings_view(r@) =~= features_of(
                i as int,
                word@,
                strings_view(context@),
                prev@,
                prev2@,
            ));
            lemma_features_distinct(i as int, word@, strings_view(context@), prev@, prev2@);
        }
        r
    }

    /// Tags the words of a sentence from left to right, see
    /// [`PerceptronTagger::tag_at`]. A word with a fixed tag gets it at the
    /// confidence of one unit; any other gets the predicted class at its
    /// score.
    pub fn tag(&self, words: &Vec<String>) -> (r: Vec<Tag>)
        requires
            self.wf(),
        ensures
            r@.len() == words@.len(),
            forall|i: int|
                0 <= i < r@.len() ==> (#[trigger] r@[i]).word@ == words@[i]@ && r@[i].tag@
                    == self.tag_at(strings_view(words@), i) && r@[i].conf == self.conf_at(
                    strings_view(words@),
                    i,
                ),
    {
        let ghost all = strings_view(words@);
        let context = PerceptronTagger::context(words);
        let mut prev: String = "-START-".to_owned();
        let mut prev2: String = "-START2-".to_owned();
        let mut out: Vec<Tag> = Vec::new();
        let n = words.len();
        let mut i: usize = 0;
        while i < n
            invariant
                n == words@.len(),
                i <= n,
                self.wf(),
                all == strings_view(words@),
                strings_view(context@) == context_of(all),
                context@.len() == n + 4,
                out@.len() == i,
                prev@ == self.prev_at(all, i as int),
                prev2@ == self.prev2_at(all, i as int),
                forall|j: int|
                    0 <= j < i ==> (#[trigger] out@[j]).word@ == words@[j]@ && out@[j].tag@
                        == self.tag_at(all, j) && out@[j].conf == self.conf_at(all, j),
            decreases n - i,
        {
            let token = words[i].as_str();
            proof {
                assert(all[i as int] == words@[i as int]@);
            }
            let (tag, conf): (String, i128) = match self.tags.get(token) {
                Some(fixed) => (fixed.clone(), WEIGHT_UNIT),
                None => {
                    let features = PerceptronTagger::get_features(
                        i + 2,
                        token,
                        &context,
                        prev.as_str(),
                        prev2.as_str(),
                    );
                    let (class, score) = self.model.predict(&features);
                    (self.model.classes[class].clone(), score)
                },
            };
            out.push(Tag { word: token.to_owned(), tag: tag.clone(), conf });
            prev2 = prev;
            prev = tag;
            i += 1;
        }
        out
    }
}

} // verus!
