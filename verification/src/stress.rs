//! The stress engine: strips, demotes, promotes and places the primary and
//! secondary stress marks of a phoneme string.
//!
//! A stress target is a signed number counted in half steps, so that the
//! targets -2, -1, -0.5, 0, 0.5, 1 and 2 are the integers -4, -2, -1, 0, 1, 2
//! and 4.
use vstd::prelude::*;
use crate::text::{contains_char, other_than, remove_char, replace_char, replaced, without};

verus! {

/// The primary stress mark.
pub const PRIMARY: char = 'ˈ';

/// The secondary stress mark.
pub const SECONDARY: char = 'ˌ';

/// Whether `c` is one of the two stress marks.
pub open spec fn is_stress(c: char) -> bool {
    c == PRIMARY || c == SECONDARY
}

/// Whether `c` is a vowel for the purpose of stress placement.
pub open spec fn is_vowel(c: char) -> bool {
    c == 'A' || c == 'I' || c == 'O' || c == 'Q' || c == 'W' || c == 'Y' || c == 'a' || c == 'i'
        || c == 'u' || c == 'æ' || c == 'ɑ' || c == 'ɒ' || c == 'ɔ' || c == 'ə' || c == 'ɛ'
        || c == 'ɜ' || c == 'ɪ' || c == 'ʊ' || c == 'ʌ' || c == 'ᵻ'
}

/// Some character of `s` is a vowel.
pub open spec fn has_vowel(s: Seq<char>) -> bool {
    exists|i: int| 0 <= i < s.len() && is_vowel(#[trigger] s[i])
}

/// The index of the first vowel of `s`, or the length of `s` if it has none.
pub open spec fn first_vowel(s: Seq<char>) -> int
    decreases s.len(),
{
    if s.len() == 0 || is_vowel(s[0]) {
        0
    } else {
        1 + first_vowel(s.drop_first())
    }
}

/// The stress marks of `s`, in order.
pub open spec fn marks_of(s: Seq<char>) -> Seq<char> {
    s.filter(|c: char| is_stress(c))
}

/// The characters of `s` that are no stress marks, in order.
pub open spec fn plain_of(s: Seq<char>) -> Seq<char> {
    s.filter(|c: char| !is_stress(c))
}

/// `s` with every stress mark moved to stand immediately before the next
/// vowel to its right. Up to and including each vowel, the other characters
/// keep their order and come first, then the marks in their order, then the
/// vowel. What follows the last vowel stays as it is.
pub open spec fn restressed(s: Seq<char>) -> Seq<char>
    decreases s.len(),
{
    let v = first_vowel(s);
    if 0 <= v < s.len() {
        let head = s.subrange(0, v);
        plain_of(head) + marks_of(head) + seq![s[v]] + restressed(s.subrange(v + 1, s.len() as int))
    } else {
        s
    }
}

/// `ps` with the stress target `stress` (in half steps) applied.
pub open spec fn stressed(ps: Seq<char>, stress: Option<i32>) -> Seq<char> {
    match stress {
        None => ps,
        Some(h) => {
            let bare = !ps.contains(PRIMARY) && !ps.contains(SECONDARY);
            if h < -2 {
                without(without(ps, PRIMARY), SECONDARY)
            } else if h == -2 || (-1 <= h <= 0 && ps.contains(PRIMARY)) {
                replaced(without(ps, SECONDARY), PRIMARY, SECONDARY)
            } else if (h == 0 || h == 1 || h == 2) && bare {
                if has_vowel(ps) {
                    restressed(seq![SECONDARY] + ps)
                } else {
                    ps
                }
            } else if h >= 2 && !ps.contains(PRIMARY) && ps.contains(SECONDARY) {
                replaced(ps, SECONDARY, PRIMARY)
            } else if h > 2 && bare {
                if has_vowel(ps) {
                    restressed(seq![PRIMARY] + ps)
                } else {
                    ps
                }
            } else {
                ps
            }
        },
    }
}

/// The first vowel index lies within `0..=s.len()`, no vowel stands before
/// it, and a vowel stands at it unless it is the length.
pub proof fn lemma_first_vowel(s: Seq<char>)
    ensures
        0 <= first_vowel(s) <= s.len(),
        forall|j: int| 0 <= j < first_vowel(s) ==> !is_vowel(#[trigger] s[j]),
        first_vowel(s) < s.len() ==> is_vowel(s[first_vowel(s)]),
        first_vowel(s) < s.len() <==> has_vowel(s),
    decreases s.len(),
{
    if s.len() == 0 || is_vowel(s[0]) {
    } else {
        let t = s.drop_first();
        lemma_first_vowel(t);
        assert forall|j: int| 0 <= j < first_vowel(s) implies !is_vowel(#[trigger] s[j]) by {
            if j > 0 {
                assert(s[j] == t[j - 1]);
            }
        }
        if first_vowel(s) < s.len() {
            assert(s[first_vowel(s)] == t[first_vowel(t)]);
        }
        if has_vowel(s) {
            let i = choose|i: int| 0 <= i < s.len() && is_vowel(#[trigger] s[i]);
            assert(is_vowel(t[i - 1]));
        }
    }
}

/// The first vowel index is `k` where a vowel stands at `k` and none before.
pub proof fn lemma_first_vowel_at(s: Seq<char>, k: int)
    requires
        0 <= k <= s.len(),
        forall|j: int| 0 <= j < k ==> !is_vowel(#[trigger] s[j]),
        k < s.len() ==> is_vowel(s[k]),
    ensures
        first_vowel(s) == k,
{
    lemma_first_vowel(s);
    let v = first_vowel(s);
    if v < k {
        assert(!is_vowel(s[v]));
    } else if v > k {
        assert(!is_vowel(s[k]));
    }
}

/// Every element of a filtered sequence satisfies the predicate and occurs
/// in the sequence it was taken from.
pub proof fn lemma_filter_members(s: Seq<char>, pred: spec_fn(char) -> bool)
    ensures
        forall|i: int|
            0 <= i < s.filter(pred).len() ==> pred(#[trigger] s.filter(pred)[i]) && s.contains(
                s.filter(pred)[i],
            ),
    decreases s.len(),
{
    reveal(Seq::filter);
    if s.len() > 0 {
        lemma_filter_members(s.drop_last(), pred);
        let f = s.filter(pred);
        assert forall|i: int| 0 <= i < f.len() implies pred(#[trigger] f[i]) && s.contains(
            f[i],
        ) by {
            let g = s.drop_last().filter(pred);
            if i < g.len() {
                assert(pred(g[i]) && s.drop_last().contains(g[i]));
                let j = choose|j: int| 0 <= j < s.drop_last().len() && s.drop_last()[j] == g[i];
                assert(s[j] == g[i]);
            } else {
                assert(f[i] == s.last());
                assert(s[s.len() - 1] == s.last());
            }
        }
    }
}

/// Filtering keeps a sequence whose elements all satisfy the predicate.
pub proof fn lemma_filter_all(s: Seq<char>, pred: spec_fn(char) -> bool)
    requires
        forall|i: int| 0 <= i < s.len() ==> pred(#[trigger] s[i]),
    ensures
        s.filter(pred) == s,
    decreases s.len(),
{
    reveal(Seq::filter);
    if s.len() > 0 {
        lemma_filter_all(s.drop_last(), pred);
        assert(s.drop_last().push(s.last()) =~= s);
    }
}

/// Filtering empties a sequence none of whose elements satisfies the
/// predicate.
pub proof fn lemma_filter_none(s: Seq<char>, pred: spec_fn(char) -> bool)
    requires
        forall|i: int| 0 <= i < s.len() ==> !pred(#[trigger] s[i]),
    ensures
        s.filter(pred) == Seq::<char>::empty(),
    decreases s.len(),
{
    reveal(Seq::filter);
    if s.len() > 0 {
        lemma_filter_none(s.drop_last(), pred);
    }
}

/// A phoneme string without stress marks is left as it is by re-placing.
pub proof fn lemma_restressed_plain(s: Seq<char>)
    requires
        forall|i: int| 0 <= i < s.len() ==> !is_stress(#[trigger] s[i]),
    ensures
        restressed(s) == s,
    decreases s.len(),
{
    lemma_first_vowel(s);
    let v = first_vowel(s);
    if v < s.len() {
        let head = s.subrange(0, v);
        let rest = s.subrange(v + 1, s.len() as int);
        lemma_restressed_plain(rest);
        lemma_filter_all(head, |c: char| !is_stress(c));
        lemma_filter_none(head, |c: char| is_stress(c));
        assert(plain_of(head) + marks_of(head) + seq![s[v]] + rest =~= s);
    }
}

/// Stripping all stress is idempotent: a target below -1 (below -2 half
/// steps) applied twice gives what it gives once.
pub proof fn law_strip_idempotent(ps: Seq<char>, h: i32)
    requires
        h < -2,
    ensures
        stressed(stressed(ps, Some(h)), Some(h)) == stressed(ps, Some(h)),
{
    let a = without(ps, PRIMARY);
    let b = without(a, SECONDARY);
    lemma_filter_members(ps, other_than(PRIMARY));
    lemma_filter_members(a, other_than(SECONDARY));
    assert forall|i: int| 0 <= i < b.len() implies #[trigger] b[i] != PRIMARY by {
        assert(a.contains(b[i]));
        let j = choose|j: int| 0 <= j < a.len() && a[j] == b[i];
        assert(a[j] != PRIMARY);
    }
    lemma_filter_all(b, other_than(PRIMARY));
    lemma_filter_all(b, other_than(SECONDARY));
}

/// A target above 1 (above 2 half steps) applied to a phoneme string that
/// has a vowel and no stress mark puts one primary mark immediately before
/// the first vowel and changes nothing else: the result holds exactly one
/// primary stress mark.
pub proof fn law_primary_placed_once(ps: Seq<char>, h: i32)
    requires
        h > 2,
        has_vowel(ps),
        forall|i: int| 0 <= i < ps.len() ==> !is_stress(#[trigger] ps[i]),
    ensures
        stressed(ps, Some(h)) == ps.subrange(0, first_vowel(ps)).push(PRIMARY) + ps.subrange(
            first_vowel(ps),
            ps.len() as int,
        ),
        stressed(ps, Some(h)).len() == ps.len() + 1,
        forall|i: int|
            0 <= i < ps.len() + 1 ==> (#[trigger] stressed(ps, Some(h))[i] == PRIMARY <==> i
                == first_vowel(ps)),
{
    lemma_first_vowel(ps);
    let k = first_vowel(ps);
    let s = seq![PRIMARY] + ps;
    assert(!ps.contains(PRIMARY) && !ps.contains(SECONDARY)) by {
        if ps.contains(PRIMARY) {
            let j = choose|j: int| 0 <= j < ps.len() && ps[j] == PRIMARY;
            assert(is_stress(ps[j]));
        }
        if ps.contains(SECONDARY) {
            let j = choose|j: int| 0 <= j < ps.len() && ps[j] == SECONDARY;
            assert(is_stress(ps[j]));
        }
    }
    assert(stressed(ps, Some(h)) == restressed(s));
    assert forall|j: int| 0 <= j < k + 1 implies !is_vowel(#[trigger] s[j]) by {
        if j > 0 {
            assert(s[j] == ps[j - 1]);
        }
    }
    assert(s[k + 1] == ps[k]);
    lemma_first_vowel_at(s, k + 1);
    let head = s.subrange(0, k + 1);
    let before = ps.subrange(0, k);
    let rest = ps.subrange(k + 1, ps.len() as int);
    assert(head =~= seq![PRIMARY] + before);
    assert(s.subrange(k + 2, s.len() as int) =~= rest);
    lemma_restressed_plain(rest);
    Seq::filter_distributes_over_add(seq![PRIMARY], before, |c: char| is_stress(c));
    Seq::filter_distributes_over_add(
        seq![PRIMARY],
        before,
        |c: char| !is_stress(c),
    );
    lemma_filter_all(before, |c: char| !is_stress(c));
    lemma_filter_none(before, |c: char| is_stress(c));
    lemma_filter_all(seq![PRIMARY], |c: char| is_stress(c));
    lemma_filter_none(seq![PRIMARY], |c: char| !is_stress(c));
    let r = restressed(s);
    assert(r == plain_of(head) + marks_of(head) + seq![s[k + 1]] + rest);
    assert(plain_of(head) =~= before);
    assert(marks_of(head) =~= seq![PRIMARY]);
    assert(r =~= before.push(PRIMARY) + ps.subrange(k, ps.len() as int));
    lemma_inserted_once(ps, k);
}

/// Where a primary mark is put into a string without stress marks at
/// position `k`, it is the only primary mark of the result.
pub proof fn lemma_inserted_once(ps: Seq<char>, k: int)
    requires
        0 <= k <= ps.len(),
        forall|i: int| 0 <= i < ps.len() ==> !is_stress(#[trigger] ps[i]),
    ensures
        (ps.subrange(0, k).push(PRIMARY) + ps.subrange(k, ps.len() as int)).len() == ps.len() + 1,
        forall|i: int|
            0 <= i < ps.len() + 1 ==> (#[trigger] (ps.subrange(0, k).push(PRIMARY) + ps.subrange(
                k,
                ps.len() as int,
            ))[i] == PRIMARY <==> i == k),
{
    let r = ps.subrange(0, k).push(PRIMARY) + ps.subrange(k, ps.len() as int);
    assert forall|i: int| 0 <= i < ps.len() + 1 implies (#[trigger] r[i] == PRIMARY <==> i
        == k) by {
        if i < k {
            assert(r[i] == ps[i]);
            assert(!is_stress(ps[i]));
        } else if i > k {
            assert(r[i] == ps[i - 1]);
            assert(!is_stress(ps[i - 1]));
        }
    }
}

/// Re-placing is stable: applied to its own result it changes nothing.
pub proof fn law_restress_stable(s: Seq<char>)
    ensures
        restressed(restressed(s)) == restressed(s),
    decreases s.len(),
{
    lemma_first_vowel(s);
    let v = first_vowel(s);
    if v < s.len() {
        let head = s.subrange(0, v);
        let rest = s.subrange(v + 1, s.len() as int);
        let plain = plain_of(head);
        let marks = marks_of(head);
        let tail = restressed(rest);
        let r = restressed(s);
        law_restress_stable(rest);
        lemma_filter_members(head, |c: char| !is_stress(c));
        lemma_filter_members(head, |c: char| is_stress(c));
        let k: int = (plain.len() + marks.len()) as int;
        assert(r == plain + marks + seq![s[v]] + tail);
        assert forall|j: int| 0 <= j < k implies !is_vowel(#[trigger] r[j]) by {
            if j < plain.len() {
                assert(r[j] == plain[j]);
                assert(head.contains(plain[j]));
                let i = choose|i: int| 0 <= i < head.len() && head[i] == plain[j];
                assert(head[i] == s[i]);
            } else {
                assert(r[j] == marks[j - plain.len()]);
                assert(is_stress(marks[j - plain.len()]));
            }
        }
        assert(r[k] == s[v]);
        lemma_first_vowel_at(r, k);
        let head2 = r.subrange(0, k);
        assert(head2 =~= plain + marks);
        assert(r.subrange(k + 1, r.len() as int) =~= tail);
        Seq::filter_distributes_over_add(plain, marks, |c: char| is_stress(c));
        Seq::filter_distributes_over_add(plain, marks, |c: char| !is_stress(c));
        lemma_filter_all(plain, |c: char| !is_stress(c));
        lemma_filter_none(plain, |c: char| is_stress(c));
        lemma_filter_all(marks, |c: char| is_stress(c));
        lemma_filter_none(marks, |c: char| !is_stress(c));
        assert(plain_of(head2) =~= plain);
        assert(marks_of(head2) =~= marks);
    }
}

/// Whether `c` is a vowel for the purpose of stress placement.
pub fn vowel(c: char) -> (r: bool)
    ensures
        r == is_vowel(c),
{
    c == 'A' || c == 'I' || c == 'O' || c == 'Q' || c == 'W' || c == 'Y' || c == 'a' || c == 'i'
        || c == 'u' || c == 'æ' || c == 'ɑ' || c == 'ɒ' || c == 'ɔ' || c == 'ə' || c == 'ɛ'
        || c == 'ɜ' || c == 'ɪ' || c == 'ʊ' || c == 'ʌ' || c == 'ᵻ'
}

/// Whether some character of `s` is a vowel.
pub fn contains_vowel(s: &str) -> (r: bool)
    ensures
        r == has_vowel(s@),
{
    let n = s.unicode_len();
    let mut i: usize = 0;
    while i < n
        invariant
            n == s@.len(),
            i <= n,
            forall|j: int| 0 <= j < i ==> !is_vowel(#[trigger] s@[j]),
        decreases n - i,
    {
        if vowel(s.get_char(i)) {
            return true;
        }
        i += 1;
    }
    false
}

/// Moves every stress mark of `ps` immediately before the next vowel to its
/// right.
pub fn restress(ps: &str) -> (r: String)
    ensures
        r@ == restressed(ps@),
{
    let n = ps.unicode_len();
    let mut done = String::new();
    let mut plain = String::new();
    let mut marks = String::new();
    let mut start: usize = 0;
    let mut i: usize = 0;
    proof {
        reveal(Seq::filter);
        assert(ps@.subrange(0, n as int) =~= ps@);
        assert(done@ + restressed(ps@) =~= restressed(ps@));
        assert(ps@.subrange(0, 0) =~= Seq::<char>::empty());
    }
    while i < n
        invariant
            n == ps@.len(),
            start <= i <= n,
            restressed(ps@) == done@ + restressed(ps@.subrange(start as int, n as int)),
            forall|j: int| start <= j < i ==> !is_vowel(#[trigger] ps@[j]),
            plain@ == plain_of(ps@.subrange(start as int, i as int)),
            marks@ == marks_of(ps@.subrange(start as int, i as int)),
        decreases n - i,
    {
        let c = ps.get_char(i);
        proof {
            reveal(Seq::filter);
            assert(ps@.subrange(start as int, i + 1).drop_last() =~= ps@.subrange(
                start as int,
                i as int,
            ));
        }
        if vowel(c) {
            proof {
                let rest = ps@.subrange(start as int, n as int);
                lemma_first_vowel_at(rest, i - start);
                assert(rest.subrange(0, i - start) =~= ps@.subrange(start as int, i as int));
                assert(rest.subrange(i - start + 1, rest.len() as int) =~= ps@.subrange(
                    i + 1,
                    n as int,
                ));
                assert(done@ + (plain@ + marks@ + seq![c] + restressed(
                    ps@.subrange(i + 1, n as int),
                )) =~= (done@ + plain@ + marks@).push(c) + restressed(
                    ps@.subrange(i + 1, n as int),
                ));
                assert(ps@.subrange(i + 1, i + 1) =~= Seq::<char>::empty());
            }
            done.append(plain.as_str());
            done.append(marks.as_str());
            done.push(c);
            plain = String::new();
            marks = String::new();
            start = i + 1;
        } else if c == PRIMARY || c == SECONDARY {
            marks.push(c);
        } else {
            plain.push(c);
        }
        i += 1;
    }
    proof {
        lemma_first_vowel_at(ps@.subrange(start as int, n as int), n - start);
    }
    done.append(ps.substring_char(start, n));
    done
}

/// Applies the stress target `stress` (in half steps) to `ps`: strips the
/// marks, demotes or promotes them, or places a new one before the first
/// vowel, as [`stressed`] lays out.
pub fn apply_stress(ps: &str, stress: Option<i32>) -> (r: String)
    ensures
        r@ == stressed(ps@, stress),
{
    let h: i32 = match stress {
        None => {
            return ps.to_owned();
        },
        Some(h) => h,
    };
    let has_primary = contains_char(ps, PRIMARY);
    let has_secondary = contains_char(ps, SECONDARY);
    if h < -2 {
        let a = remove_char(ps, PRIMARY);
        remove_char(a.as_str(), SECONDARY)
    } else if h == -2 || (-1 <= h && h <= 0 && has_primary) {
        let a = remove_char(ps, SECONDARY);
        replace_char(a.as_str(), PRIMARY, SECONDARY)
    } else if (h == 0 || h == 1 || h == 2) && !has_primary && !has_secondary {
        if contains_vowel(ps) {
            let mut a = String::new();
            a.push(SECONDARY);
            a.append(ps);
            proof {
                assert(a@ =~= seq![SECONDARY] + ps@);
            }
            restress(a.as_str())
        } else {
            ps.to_owned()
        }
    } else if h >= 2 && !has_primary && has_secondary {
        replace_char(ps, SECONDARY, PRIMARY)
    } else if h > 2 && !has_primary && !has_secondary {
        if contains_vowel(ps) {
            let mut a = String::new();
            a.push(PRIMARY);
            a.append(ps);
            proof {
                assert(a@ =~= seq![PRIMARY] + ps@);
            }
            restress(a.as_str())
        } else {
            ps.to_owned()
        }
    } else {
        ps.to_owned()
    }
}

} // verus!
