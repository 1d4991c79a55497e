//! Segmentation of a text into surface tokens: every stretch without
//! whitespace is cut into subtokens by a fixed pattern.
use vstd::prelude::*;
use crate::token::{MToken, Underscore, UnderscoreView};

verus! {

/// What the matches of a regular expression in a text are, from left to
/// right and without overlap; `None` where the pattern is no valid regular
/// expression.
pub uninterp spec fn regex_matches(pattern: Seq<char>, text: Seq<char>) -> Option<Seq<Seq<char>>>;

/// The content of a list of strings.
pub open spec fn strings_view(v: Seq<String>) -> Seq<Seq<char>> {
    v.map_values(|s: String| s@)
}

/// The content of an optional list of strings.
pub open spec fn found_view(found: Option<Vec<String>>) -> Option<Seq<Seq<char>>> {
    match found {
        Some(v) => Some(strings_view(v@)),
        None => None,
    }
}

/// `parts` are stretches of `text` between `from` and `to` that follow one
/// another without overlap.
pub open spec fn in_order(text: Seq<char>, parts: Seq<Seq<char>>, from: int, to: int) -> bool
    decreases parts.len(),
{
    &&& 0 <= from <= to <= text.len()
    &&& parts.len() == 0 || exists|a: int, b: int|
        from <= a <= b <= to && #[trigger] text.subrange(a, b) == parts[0] && in_order(
            text,
            parts.drop_first(),
            b,
            to,
        )
}

/// `Regex::new` and `Regex::find_iter` of regex: the pattern is compiled and
/// matched against the text. The result holds the matched stretches as
/// [`regex_matches`] names them, which are stretches of the text that follow
/// one another without overlap; it is `None` where the pattern does not
/// compile.
#[verifier::external_body]
fn find_all(pattern: &str, text: &str) -> (r: Option<Vec<String>>)
    ensures
        found_view(r) == regex_matches(pattern@, text@),
        match r {
            Some(found) => in_order(text@, strings_view(found@), 0, text@.len() as int),
            None => true,
        },
{
    match regex::Regex::new(pattern) {
        Ok(re) => Some(re.find_iter(text).map(|m| m.as_str().to_string()).collect()),
        Err(_) => None,
    }
}

/// Stretches in order stay in order from an earlier start.
pub proof fn lemma_in_order_from(text: Seq<char>, parts: Seq<Seq<char>>, from: int, to: int, earlier: int)
    requires
        in_order(text, parts, from, to),
        0 <= earlier <= from,
    ensures
        in_order(text, parts, earlier, to),
{
    if parts.len() > 0 {
        let (a, b) = choose|a: int, b: int|
            from <= a <= b <= to && #[trigger] text.subrange(a, b) == parts[0] && in_order(
                text,
                parts.drop_first(),
                b,
                to,
            );
        assert(earlier <= a <= b <= to && text.subrange(a, b) == parts[0] && in_order(
            text,
            parts.drop_first(),
            b,
            to,
        ));
    }
}

/// Stretches in order stay in order up to a later end.
pub proof fn lemma_in_order_to(text: Seq<char>, parts: Seq<Seq<char>>, from: int, to: int, later: int)
    requires
        in_order(text, parts, from, to),
        to <= later <= text.len(),
    ensures
        in_order(text, parts, from, later),
    decreases parts.len(),
{
    if parts.len() > 0 {
        let (a, b) = choose|a: int, b: int|
            from <= a <= b <= to && #[trigger] text.subrange(a, b) == parts[0] && in_order(
                text,
                parts.drop_first(),
                b,
                to,
            );
        lemma_in_order_to(text, parts.drop_first(), b, to, later);
        assert(from <= a <= b <= later && text.subrange(a, b) == parts[0] && in_order(
            text,
            parts.drop_first(),
            b,
            later,
        ));
    }
}

/// Stretches in order of a stretch of the text are stretches in order of the
/// text.
pub proof fn lemma_in_order_inside(
    text: Seq<char>,
    parts: Seq<Seq<char>>,
    from: int,
    to: int,
    start: int,
    end: int,
)
    requires
        0 <= start <= end <= text.len(),
        in_order(text.subrange(start, end), parts, from, to),
    ensures
        in_order(text, parts, start + from, start + to),
    decreases parts.len(),
{
    let run = text.subrange(start, end);
    if parts.len() > 0 {
        let (a, b) = choose|a: int, b: int|
            from <= a <= b <= to && #[trigger] run.subrange(a, b) == parts[0] && in_order(
                run,
                parts.drop_first(),
                b,
                to,
            );
        lemma_in_order_inside(text, parts.drop_first(), b, to, start, end);
        assert(text.subrange(start + a, start + b) =~= run.subrange(a, b));
        assert(start + from <= start + a <= start + b <= start + to && text.subrange(
            start + a,
            start + b,
        ) == parts[0] && in_order(text, parts.drop_first(), start + b, start + to));
    }
}

/// Stretches in order up to a place, followed by stretches in order from
/// that place, are in order.
pub proof fn lemma_in_order_joined(
    text: Seq<char>,
    first: Seq<Seq<char>>,
    second: Seq<Seq<char>>,
    from: int,
    mid: int,
    to: int,
)
    requires
        in_order(text, first, from, mid),
        in_order(text, second, mid, to),
    ensures
        in_order(text, first + second, from, to),
    decreases first.len(),
{
    if first.len() == 0 {
        assert(first + second =~= second);
        lemma_in_order_from(text, second, mid, to, from);
    } else {
        let (a, b) = choose|a: int, b: int|
            from <= a <= b <= mid && #[trigger] text.subrange(a, b) == first[0] && in_order(
                text,
                first.drop_first(),
                b,
                mid,
            );
        lemma_in_order_joined(text, first.drop_first(), second, b, mid, to);
        assert((first + second).drop_first() =~= first.drop_first() + second);
        assert((first + second)[0] == first[0]);
        assert(from <= a <= b <= to && text.subrange(a, b) == (first + second)[0] && in_order(
            text,
            (first + second).drop_first(),
            b,
            to,
        ));
    }
}

/// The pattern of a stretch without whitespace.
pub const RUN_PATTERN: &'static str = "\\S+";

/// The pattern of a subtoken, an ordered alternation: leading apostrophes; a
/// numeric run with an optional leading minus; a run of hyphens or
/// underscores; two or more apostrophes; a run of letters, joined inside by
/// single apostrophes; any single character that is no letter, digit or
/// whitespace; trailing apostrophes.
pub const SUBTOKEN_PATTERN: &'static str =
    "^['‘’]+|(?:^-)?(?:\\d?[,.]?\\d)+|[\\-_]+|['‘’]{2,}|\\p{L}+(?:['‘’]\\p{L}+)*|[^\\s\\d\\p{L}]|['‘’]+$";

/// The pattern of a stretch without whitespace, as a sequence.
pub open spec fn run_pattern() -> Seq<char> {
    RUN_PATTERN@
}

/// The pattern of a subtoken, as a sequence.
pub open spec fn subtoken_pattern() -> Seq<char> {
    SUBTOKEN_PATTERN@
}

/// The stretches of `text` without whitespace, in order.
pub open spec fn runs_of(text: Seq<char>) -> Seq<Seq<char>> {
    match regex_matches(run_pattern(), text) {
        Some(runs) => runs,
        None => Seq::empty(),
    }
}

/// The subtokens of a stretch, given the matches of the subtoken pattern in
/// it: the matches, or the whole stretch where there is none.
pub open spec fn pieces_from(run: Seq<char>, found: Option<Seq<Seq<char>>>) -> Seq<Seq<char>> {
    match found {
        Some(m) => if m.len() > 0 {
            m
        } else {
            seq![run]
        },
        None => seq![run],
    }
}

/// The subtokens of a stretch without whitespace.
pub open spec fn pieces_of(run: Seq<char>) -> Seq<Seq<char>> {
    pieces_from(run, regex_matches(subtoken_pattern(), run))
}

/// The subtokens of a list of stretches, in order.
pub open spec fn pieces_of_all(runs: Seq<Seq<char>>) -> Seq<Seq<char>>
    decreases runs.len(),
{
    if runs.len() == 0 {
        Seq::empty()
    } else {
        pieces_of_all(runs.drop_last()) + pieces_of(runs.last())
    }
}

/// The surface forms of the tokens of a text, in order.
pub open spec fn surface(text: Seq<char>) -> Seq<Seq<char>> {
    pieces_of_all(runs_of(text))
}

/// A token as tokenization leaves it: tagged `NN`, followed by one space,
/// without phonemes.
pub open spec fn is_fresh(t: MToken, text: Seq<char>) -> bool {
    &&& t.text@ == text
    &&& t.tag@ == "NN"@
    &&& t.whitespace@ == " "@
    &&& t.phonemes is None
    &&& t.start_ts is None
    &&& t.end_ts is None
    &&& t.aux() == (UnderscoreView { is_head: true, ..Underscore::blank() })
}

/// The subtokens of a stretch, given the matches found in it: the matches,
/// or the whole stretch where there is none. Where the matches are stretches
/// of the stretch in order, so are the subtokens.
pub fn pieces(run: &str, found: Option<Vec<String>>) -> (r: Vec<String>)
    ensures
        strings_view(r@) == pieces_from(run@, found_view(found)),
        (match found {
            Some(m) => in_order(run@, strings_view(m@), 0, run@.len() as int),
            None => true,
        }) ==> in_order(run@, strings_view(r@), 0, run@.len() as int),
{
    match found {
        Some(m) => {
            if m.len() > 0 {
                return m;
            }
        },
        None => {},
    }
    let mut r: Vec<String> = Vec::new();
    r.push(run.to_owned());
    proof {
        let whole = strings_view(r@);
        assert(whole =~= seq![run@]);
        assert(run@.subrange(0, run@.len() as int) =~= run@);
        assert(in_order(run@, whole.drop_first(), run@.len() as int, run@.len() as int));
        assert(0 <= 0 <= run@.len() <= run@.len() && run@.subrange(0, run@.len() as int)
            == whole[0]);
    }
    r
}

/// The stretches of `text` without whitespace; they follow one another in
/// the text.
pub fn split_runs(text: &str) -> (r: Vec<String>)
    ensures
        strings_view(r@) == runs_of(text@),
        in_order(text@, strings_view(r@), 0, text@.len() as int),
{
    match find_all(RUN_PATTERN, text) {
        Some(runs) => runs,
        None => {
            proof {
                assert(strings_view(Seq::<String>::empty()) =~= Seq::<Seq<char>>::empty());
            }
            Vec::new()
        },
    }
}

/// The surface forms of the tokens of a text, see [`surface`]; they are
/// stretches of the text that follow one another without overlap.
pub fn split_surface(text: &str) -> (r: Vec<String>)
    ensures
        strings_view(r@) == surface(text@),
        in_order(text@, strings_view(r@), 0, text@.len() as int),
{
    let runs = split_runs(text);
    let ghost all = strings_view(runs@);
    let ghost len = text@.len() as int;
    let ghost mut pos: int = 0;
    let mut out: Vec<String> = Vec::new();
    let n = runs.len();
    let mut i: usize = 0;
    proof {
        assert(strings_view(out@) =~= pieces_of_all(all.subrange(0, 0)));
        assert(all.subrange(0, n as int) =~= all);
    }
    while i < n
        invariant
            n == runs@.len(),
            i <= n,
            len == text@.len(),
            all == strings_view(runs@),
            strings_view(out@) == pieces_of_all(all.subrange(0, i as int)),
            in_order(text@, strings_view(out@), 0, pos),
            in_order(text@, all.subrange(i as int, n as int), pos, len),
        decreases n - i,
    {
        let run = runs[i].as_str();
        let mut part = pieces(run, find_all(SUBTOKEN_PATTERN, run));
        let ghost before = out@;
        let ghost added = strings_view(part@);
        proof {
            assert(all.subrange(0, i + 1).drop_last() =~= all.subrange(0, i as int));
            assert(all.subrange(0, i + 1).last() == runs@[i as int]@);
            assert(added == pieces_of(runs@[i as int]@));
            let rest = all.subrange(i as int, n as int);
            assert(rest[0] == run@);
            assert(rest.drop_first() =~= all.subrange(i + 1, n as int));
            let (a, b) = choose|a: int, b: int|
                pos <= a <= b <= len && #[trigger] text@.subrange(a, b) == rest[0] && in_order(
                    text@,
                    rest.drop_first(),
                    b,
                    len,
                );
            assert(run@.len() == b - a);
            lemma_in_order_inside(text@, added, 0, b - a, a, b);
            lemma_in_order_from(text@, added, a, b, pos);
            lemma_in_order_joined(text@, strings_view(before), added, 0, pos, b);
            pos = b;
        }
        out.append(&mut part);
        proof {
            assert(strings_view(out@) =~= strings_view(before) + added);
        }
        i += 1;
    }
    proof {
        assert(all.subrange(0, n as int) =~= all);
        lemma_in_order_to(text@, strings_view(out@), 0, pos, len);
    }
    out
}

} // verus!
