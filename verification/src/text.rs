//! Character and string primitives shared by the whole engine. Strings are
//! modelled by their view, a `Seq<char>`; every length here counts characters.
use vstd::prelude::*;

verus! {

/// Whether a character has the Unicode `Alphabetic` property.
pub uninterp spec fn alphabetic(c: char) -> bool;

/// The Unicode lowercase form of a string.
pub uninterp spec fn lowercase(s: Seq<char>) -> Seq<char>;

/// The Unicode uppercase form of a string.
pub uninterp spec fn uppercase(s: Seq<char>) -> Seq<char>;

/// `char::is_alphabetic` of std: the result is the Unicode `Alphabetic`
/// property of the character, named [`alphabetic`] and not spelled out.
pub assume_specification[ char::is_alphabetic ](c: char) -> (r: bool)
    ensures
        r == alphabetic(c),
;

/// `str::to_lowercase` of std: the result is the lowercase form of the whole
/// string, named [`lowercase`] and not spelled out.
pub assume_specification[ str::to_lowercase ](s: &str) -> (r: String)
    ensures
        r@ == lowercase(s@),
;

/// `str::to_uppercase` of std: the result is the uppercase form of the whole
/// string, named [`uppercase`] and not spelled out.
pub assume_specification[ str::to_uppercase ](s: &str) -> (r: String)
    ensures
        r@ == uppercase(s@),
;

/// `String::push` of std: appends one character at the end.
pub assume_specification[ String::push ](s: &mut String, c: char)
    ensures
        final(s)@ == old(s)@.push(c),
;

/// An ASCII digit.
pub open spec fn is_digit(c: char) -> bool {
    '0' <= c && c <= '9'
}

/// Whether `c` is an ASCII digit.
pub fn digit(c: char) -> (r: bool)
    ensures
        r == is_digit(c),
{
    '0' <= c && c <= '9'
}

/// Every character of `s` is alphabetic.
pub open spec fn all_alphabetic(s: Seq<char>) -> bool {
    forall|i: int| 0 <= i < s.len() ==> alphabetic(#[trigger] s[i])
}

/// `s` ends with `suffix`.
pub open spec fn has_suffix(s: Seq<char>, suffix: Seq<char>) -> bool {
    suffix.len() <= s.len() && s.subrange(s.len() - suffix.len(), s.len() as int) == suffix
}

/// `s` starts with `prefix`.
pub open spec fn has_prefix(s: Seq<char>, prefix: Seq<char>) -> bool {
    prefix.len() <= s.len() && s.subrange(0, prefix.len() as int) == prefix
}

/// Equality of two string slices as character sequences.
pub fn same(a: &str, b: &str) -> (r: bool)
    ensures
        r == (a@ == b@),
{
    let x = a.to_owned();
    let y = b.to_owned();
    x == y
}

/// Whether `s` ends with `suffix`.
pub fn ends_with(s: &str, suffix: &str) -> (r: bool)
    ensures
        r == has_suffix(s@, suffix@),
{
    let n = s.unicode_len();
    let m = suffix.unicode_len();
    if m > n {
        false
    } else {
        same(s.substring_char(n - m, n), suffix)
    }
}

/// Whether `s` starts with `prefix`.
pub fn starts_with(s: &str, prefix: &str) -> (r: bool)
    ensures
        r == has_prefix(s@, prefix@),
{
    let n = s.unicode_len();
    let m = prefix.unicode_len();
    if m > n {
        false
    } else {
        same(s.substring_char(0, m), prefix)
    }
}

/// Whether `c` occurs in `s`.
pub fn contains_char(s: &str, c: char) -> (r: bool)
    ensures
        r == s@.contains(c),
{
    let n = s.unicode_len();
    let mut i: usize = 0;
    while i < n
        invariant
            n == s@.len(),
            i <= n,
            forall|j: int| 0 <= j < i ==> s@[j] != c,
        decreases n - i,
    {
        if s.get_char(i) == c {
            return true;
        }
        i += 1;
    }
    false
}

/// Whether every character of `s` is alphabetic.
pub fn is_all_alphabetic(s: &str) -> (r: bool)
    ensures
        r == all_alphabetic(s@),
{
    let n = s.unicode_len();
    let mut i: usize = 0;
    while i < n
        invariant
            n == s@.len(),
            i <= n,
            forall|j: int| 0 <= j < i ==> alphabetic(#[trigger] s@[j]),
        decreases n - i,
    {
        if !s.get_char(i).is_alphabetic() {
            return false;
        }
        i += 1;
    }
    true
}

/// `s` followed by `t`, as a new string.
pub fn join2(s: &str, t: &str) -> (r: String)
    ensures
        r@ == s@ + t@,
{
    s.to_owned().concat(t)
}

/// The one-character string made of `c`.
pub fn char_string(c: char) -> (r: String)
    ensures
        r@ == seq![c],
{
    let mut r = String::new();
    r.push(c);
    proof {
        assert(r@ =~= seq![c]);
    }
    r
}

/// The predicate that holds of every character but `c`.
pub open spec fn other_than(c: char) -> spec_fn(char) -> bool {
    |x: char| x != c
}

/// `s` without every occurrence of `c`.
pub open spec fn without(s: Seq<char>, c: char) -> Seq<char> {
    s.filter(other_than(c))
}

/// `s` with every occurrence of `from` turned into `to`.
pub open spec fn replaced(s: Seq<char>, from: char, to: char) -> Seq<char> {
    s.map_values(|x: char| if x == from { to } else { x })
}

/// The index of the first `sep` in `s`, or the length of `s`.
pub open spec fn first_of(s: Seq<char>, sep: char) -> int
    decreases s.len(),
{
    if s.len() == 0 || s[0] == sep {
        0
    } else {
        1 + first_of(s.drop_first(), sep)
    }
}

/// The stretches of `s` between occurrences of `sep`, the empty ones left
/// out.
pub open spec fn parts_between(s: Seq<char>, sep: char) -> Seq<Seq<char>>
    decreases s.len(),
{
    let k = first_of(s, sep);
    if s.len() == 0 {
        Seq::empty()
    } else if 0 < k < s.len() {
        seq![s.subrange(0, k)] + parts_between(s.subrange(k + 1, s.len() as int), sep)
    } else if k == 0 {
        parts_between(s.subrange(1, s.len() as int), sep)
    } else {
        seq![s]
    }
}

/// The first index of `sep` lies within `0..=s.len()`, no `sep` stands
/// before it, and one stands at it unless it is the length.
pub proof fn lemma_first_of(s: Seq<char>, sep: char)
    ensures
        0 <= first_of(s, sep) <= s.len(),
        forall|j: int| 0 <= j < first_of(s, sep) ==> #[trigger] s[j] != sep,
        first_of(s, sep) < s.len() ==> s[first_of(s, sep)] == sep,
    decreases s.len(),
{
    if s.len() == 0 || s[0] == sep {
    } else {
        let t = s.drop_first();
        lemma_first_of(t, sep);
        assert forall|j: int| 0 <= j < first_of(s, sep) implies #[trigger] s[j] != sep by {
            if j > 0 {
                assert(s[j] == t[j - 1]);
            }
        }
        if first_of(s, sep) < s.len() {
            assert(s[first_of(s, sep)] == t[first_of(t, sep)]);
        }
    }
}

/// The first index of `sep` is `k` where `sep` stands at `k`, or `k` is the
/// length, and none stands before.
pub proof fn lemma_first_of_at(s: Seq<char>, sep: char, k: int)
    requires
        0 <= k <= s.len(),
        forall|j: int| 0 <= j < k ==> s[j] != sep,
        k < s.len() ==> s[k] == sep,
    ensures
        first_of(s, sep) == k,
    decreases k,
{
    if k > 0 {
        lemma_first_of_at(s.drop_first(), sep, k - 1);
    }
}

/// Splitting goes through a separator: the parts of `a`, a separator and `b`
/// in a row are the parts of `a` followed by those of `b`.
pub proof fn lemma_parts_joined(a: Seq<char>, b: Seq<char>, sep: char)
    ensures
        parts_between(a + seq![sep] + b, sep) == parts_between(a, sep) + parts_between(b, sep),
    decreases a.len(),
{
    let s = a + seq![sep] + b;
    let k = first_of(a, sep);
    lemma_first_of(a, sep);
    assert forall|j: int| 0 <= j < k implies s[j] != sep by {
        assert(s[j] == a[j]);
    }
    if k < a.len() {
        assert(s[k] == a[k]);
    } else {
        assert(s[k] == sep);
    }
    lemma_first_of_at(s, sep, k);
    if a.len() == 0 {
        assert(s.subrange(1, s.len() as int) =~= b);
        assert(parts_between(a, sep) + parts_between(b, sep) =~= parts_between(b, sep));
    } else if k == 0 {
        let a1 = a.subrange(1, a.len() as int);
        assert(s.subrange(1, s.len() as int) =~= a1 + seq![sep] + b);
        lemma_parts_joined(a1, b, sep);
    } else if k < a.len() {
        let a1 = a.subrange(k + 1, a.len() as int);
        assert(s.subrange(k + 1, s.len() as int) =~= a1 + seq![sep] + b);
        assert(s.subrange(0, k) =~= a.subrange(0, k));
        lemma_parts_joined(a1, b, sep);
        assert(seq![a.subrange(0, k)] + (parts_between(a1, sep) + parts_between(b, sep)) =~= (seq![
            a.subrange(0, k),
        ] + parts_between(a1, sep)) + parts_between(b, sep));
    } else {
        assert(s.subrange(k + 1, s.len() as int) =~= b);
        assert(s.subrange(0, k) =~= a);
    }
}

/// A string that is not empty and holds no separator is its own single
/// part.
pub proof fn lemma_single_part(s: Seq<char>, sep: char)
    requires
        s.len() > 0,
        !s.contains(sep),
    ensures
        parts_between(s, sep) == seq![s],
{
    assert forall|j: int| 0 <= j < s.len() implies s[j] != sep by {
        if s[j] == sep {
            assert(s.contains(sep));
        }
    }
    lemma_first_of_at(s, sep, s.len() as int);
}

/// A string made of separators only has no parts.
pub proof fn lemma_no_part(s: Seq<char>, sep: char)
    requires
        forall|j: int| 0 <= j < s.len() ==> s[j] == sep,
    ensures
        parts_between(s, sep) == Seq::<Seq<char>>::empty(),
    decreases s.len(),
{
    if s.len() > 0 {
        let t = s.subrange(1, s.len() as int);
        assert forall|j: int| 0 <= j < t.len() implies t[j] == sep by {
            assert(t[j] == s[j + 1]);
        }
        lemma_no_part(t, sep);
    }
}

/// Removes every occurrence of `c` from `s`.
pub fn remove_char(s: &str, c: char) -> (r: String)
    ensures
        r@ == without(s@, c),
{
    let n = s.unicode_len();
    let mut r = String::new();
    let mut i: usize = 0;
    proof {
        reveal(Seq::filter);
        assert(s@.subrange(0, 0) =~= Seq::<char>::empty());
    }
    while i < n
        invariant
            n == s@.len(),
            i <= n,
            r@ == without(s@.subrange(0, i as int), c),
        decreases n - i,
    {
        let x = s.get_char(i);
        proof {
            reveal(Seq::filter);
            assert(s@.subrange(0, i + 1).drop_last() =~= s@.subrange(0, i as int));
        }
        if x != c {
            r.push(x);
        }
        i += 1;
    }
    proof {
        assert(s@.subrange(0, n as int) =~= s@);
    }
    r
}

/// Turns every occurrence of `from` in `s` into `to`.
pub fn replace_char(s: &str, from: char, to: char) -> (r: String)
    ensures
        r@ == replaced(s@, from, to),
{
    let n = s.unicode_len();
    let mut r = String::new();
    let mut i: usize = 0;
    while i < n
        invariant
            n == s@.len(),
            i <= n,
            r@.len() == i,
            forall|j: int| 0 <= j < i ==> r@[j] == (if s@[j] == from { to } else { s@[j] }),
        decreases n - i,
    {
        let x = s.get_char(i);
        r.push(if x == from { to } else { x });
        i += 1;
    }
    proof {
        assert(r@ =~= replaced(s@, from, to));
    }
    r
}

} // verus!
