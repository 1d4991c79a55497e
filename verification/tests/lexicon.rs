use misaki_rs::entry::{get_parent_tag, PhonemeEntry, TaggedPhonemes, TokenContext};
use misaki_rs::fallback::{collapse_stress, replace_all, EspeakFallback, FallbackError};
use misaki_rs::language::Language;
use misaki_rs::lexicon::{alternate_case, Lexicon};
use misaki_rs::lookup::{get_add_symbols, get_symbols, promote_last_secondary};
use misaki_rs::number::{convert_number, is_number, parse_integer, read_number, spoken_or_word};
use misaki_rs::stress::{apply_stress, restress};
use misaki_rs::tagger::{normalize, AveragedPerceptron, ClassWeight, PerceptronTagger};
use misaki_rs::token::MToken;
use misaki_rs::tokenizer::{pieces, split_runs, split_surface};

fn simple(word: &str, phonemes: &str) -> (String, PhonemeEntry) {
    (word.to_string(), PhonemeEntry::Simple(phonemes.to_string()))
}

fn tagged(word: &str, variants: &[(&str, Option<&str>)]) -> (String, PhonemeEntry) {
    let list = variants
        .iter()
        .map(|(tag, ps)| TaggedPhonemes { tag: tag.to_string(), phonemes: ps.map(|p| p.to_string()) })
        .collect();
    (word.to_string(), PhonemeEntry::Tagged(list))
}

fn lexicon(lang: Language) -> Lexicon {
    let gold = vec![
        simple("A", "ˈA"), simple("F", "ˈɛf"), simple("B", "bˈi"), simple("I", "ˈI"),
        simple("U", "jˈu"), simple("S", "ˈɛs"), simple("M", "ˈɛm"), simple("N", "ˈɛn"),
        simple("play", "plˈA"), simple("run", "ɹˈʌn"), simple("make", "mˈAk"),
        simple("baby", "bˈAbi"), simple("box", "bˈɑks"), simple("cat", "kˈæt"),
        simple("wait", "wˈAt"), simple("need", "nˈid"), simple("walk", "wˈɔk"),
        simple("boss", "bˈɔs"), simple("back", "bˈæk"), simple("Paris", "pˈɛɹəs"),
        simple("ok", "ˌOkˈA"), simple("to", "tˈu"), simple("am", "ˈæm"),
        simple("percent", "pəɹsˈɛnt"), simple("dot", "dˈɑt"), simple("versus", "vˈɜɹsəs"),
        simple("nasa", "nˈæsə"),
        tagged("used", &[("DEFAULT", Some("jˈuzd")), ("VBD", Some("jˈust"))]),
        tagged("object", &[("DEFAULT", Some("ˈɑbʤɛkt")), ("VERB", Some("əbʤˈɛkt"))]),
        tagged("that", &[("DEFAULT", Some("ðæt")), ("None", Some("ðˈæt"))]),
        tagged("only", &[("JJ", None)]),
    ];
    let silver = vec![simple("zebra", "zˈibɹə"), simple("only", "ˈOnli")];
    Lexicon::new(lang, gold, silver).unwrap()
}

fn rated(ps: &str, rating: i32) -> Option<(String, i32)> {
    Some((ps.to_string(), rating))
}

#[test]
fn stress_strip_removes_both_marks_and_is_idempotent() {
    let once = apply_stress("ˌɪntəɹnˈæʃənᵊl", Some(-4));
    assert_eq!(once, "ɪntəɹnæʃənᵊl");
    assert_eq!(apply_stress(&once, Some(-4)), once);
}

#[test]
fn stress_targets_follow_the_table() {
    assert_eq!(apply_stress("həlˈO", None), "həlˈO");
    assert_eq!(apply_stress("həlˈO", Some(-2)), "həlˌO");
    assert_eq!(apply_stress("ˌɪntəɹnˈæʃənᵊl", Some(-2)), "ɪntəɹnˌæʃənᵊl");
    assert_eq!(apply_stress("həlˈO", Some(-1)), "həlˌO");
    assert_eq!(apply_stress("həlˈO", Some(0)), "həlˌO");
    assert_eq!(apply_stress("hˌəlO", Some(-1)), "hˌəlO");
    assert_eq!(apply_stress("həlO", Some(0)), "hˌəlO");
    assert_eq!(apply_stress("həlO", Some(1)), "hˌəlO");
    assert_eq!(apply_stress("həlO", Some(2)), "hˌəlO");
    assert_eq!(apply_stress("bdf", Some(0)), "bdf");
    assert_eq!(apply_stress("hˌəlO", Some(2)), "hˈəlO");
    assert_eq!(apply_stress("hˌəlO", Some(4)), "hˈəlO");
    assert_eq!(apply_stress("həlO", Some(4)), "hˈəlO");
    assert_eq!(apply_stress("bdf", Some(4)), "bdf");
    assert_eq!(apply_stress("həlˈO", Some(1)), "həlˈO");
    assert_eq!(apply_stress("həlˈO", Some(4)), "həlˈO");
}

#[test]
fn primary_stress_is_placed_exactly_once() {
    let out = apply_stress("stɹɛŋθ", Some(4));
    assert_eq!(out, "stɹˈɛŋθ");
    assert_eq!(out.chars().filter(|c| *c == 'ˈ').count(), 1);
}

#[test]
fn restress_moves_marks_before_the_next_vowel_and_is_stable() {
    assert_eq!(restress("ˈbaˌcdi"), "bˈacdˌi");
    assert_eq!(restress("ˈbcd"), "ˈbcd");
    assert_eq!(restress("aˈb"), "aˈb");
    assert_eq!(restress("ˈˌba"), "bˈˌa");
    assert_eq!(restress(""), "");
    let once = restress("ˈstɹɛŋˌθi");
    assert_eq!(once, "stɹˈɛŋθˌi");
    assert_eq!(restress(&once), once);
}

#[test]
fn plural_suffix_depends_on_the_last_sound() {
    let us = lexicon(Language::EnglishUS);
    let gb = lexicon(Language::EnglishGB);
    assert_eq!(us.append_s("plˈA"), "plˈAz");
    assert_eq!(us.append_s("kˈæt"), "kˈæts");
    assert_eq!(us.append_s("bˈɔs"), "bˈɔsᵻz");
    assert_eq!(gb.append_s("bˈɔs"), "bˈɔsɪz");
    assert_eq!(us.append_s("ʤˈʌʤ"), "ʤˈʌʤᵻz");
    assert_eq!(us.append_s(""), "");
}

#[test]
fn past_suffix_depends_on_the_last_sound_and_variant() {
    let us = lexicon(Language::EnglishUS);
    let gb = lexicon(Language::EnglishGB);
    assert_eq!(us.append_ed("plˈA"), "plˈAd");
    assert_eq!(us.append_ed("wˈɔk"), "wˈɔkt");
    assert_eq!(us.append_ed("nˈid"), "nˈidᵻd");
    assert_eq!(gb.append_ed("nˈid"), "nˈidɪd");
    assert_eq!(us.append_ed("wˈAt"), "wˈAɾᵻd");
    assert_eq!(gb.append_ed("wˈAt"), "wˈAtɪd");
    assert_eq!(us.append_ed("ˈækt"), "ˈæktᵻd");
    assert_eq!(us.append_ed("t"), "tɪd");
    assert_eq!(us.append_ed(""), "");
}

#[test]
fn progressive_suffix_is_formed_unless_rejected() {
    let us = lexicon(Language::EnglishUS);
    let gb = lexicon(Language::EnglishGB);
    assert_eq!(us.append_ing("plˈA"), Some("plˈAɪŋ".to_string()));
    assert_eq!(us.append_ing("wˈAt"), Some("wˈAɾɪŋ".to_string()));
    assert_eq!(gb.append_ing("wˈAt"), Some("wˈAtɪŋ".to_string()));
    assert_eq!(gb.append_ing("bˈɛtə"), None);
    assert_eq!(gb.append_ing("kˈɑː"), None);
    assert_eq!(us.append_ing("bˈɛtə"), Some("bˈɛtəɪŋ".to_string()));
    assert_eq!(us.append_ing(""), None);
    assert_eq!(gb.append_ing(""), None);
}

#[test]
fn stemmers_find_the_base_form() {
    let us = lexicon(Language::EnglishUS);
    assert_eq!(us.stem_s("plays", "NN", None, None), rated("plˈAz", 4));
    assert_eq!(us.stem_s("babies", "NN", None, None), rated("bˈAbiz", 4));
    assert_eq!(us.stem_s("boxes", "NN", None, None), rated("bˈɑksᵻz", 4));
    assert_eq!(us.stem_s("cat's", "NN", None, None), rated("kˈæts", 4));
    assert_eq!(us.stem_s("zebras", "NN", None, None), rated("zˈibɹəz", 3));
    assert_eq!(us.stem_s("as", "NN", None, None), None);
    assert_eq!(us.stem_s("glass", "NN", None, None), None);
    assert_eq!(us.stem_ed("played", "VBD", None, None), rated("plˈAd", 4));
    assert_eq!(us.stem_ed("walked", "VBD", None, None), rated("wˈɔkt", 4));
    assert_eq!(us.stem_ed("waited", "VBD", None, None), rated("wˈAɾᵻd", 4));
    assert_eq!(us.stem_ed("red", "VBD", None, None), None);
    assert_eq!(us.stem_ing("playing", "VBG", None, None), rated("plˈAɪŋ", 4));
    assert_eq!(us.stem_ing("making", "VBG", None, None), rated("mˈAkɪŋ", 4));
    assert_eq!(us.stem_ing("running", "VBG", None, None), rated("ɹˈʌnɪŋ", 4));
    assert_eq!(us.stem_ing("backing", "VBG", None, None), rated("bˈækɪŋ", 4));
    assert_eq!(us.stem_ing("thing", "NN", None, None), None);
    assert_eq!(us.find_ing_stem("running", "VBG"), Some("run".to_string()));
    assert_eq!(us.find_s_stem("babies", "NN"), Some("baby".to_string()));
    assert_eq!(us.find_ed_stem("played", "VBD"), Some("play".to_string()));
}

#[test]
fn dictionary_grows_by_the_alternate_case_form() {
    let us = lexicon(Language::EnglishUS);
    assert!(us.golds.contains_key("play"));
    assert!(us.golds.contains_key("Play"));
    assert!(us.golds.contains_key("paris"));
    assert!(us.golds.contains_key("Paris"));
    assert!(!us.golds.contains_key("PLAY"));
    assert!(!us.golds.contains_key("a"));
    assert!(us.silvers.contains_key("Zebra"));
    assert_eq!(alternate_case("play"), Some("Play".to_string()));
    assert_eq!(alternate_case("Paris"), Some("paris".to_string()));
    assert_eq!(alternate_case("iPhone"), None);
    assert_eq!(alternate_case("a"), None);
    assert_eq!(alternate_case("42"), None);
    assert_eq!(us.cap_stresses, (1, 4));
}

#[test]
fn grown_form_does_not_overwrite_an_entry() {
    let lex = Lexicon::new(
        Language::EnglishUS,
        vec![simple("polish", "pˈɑlɪʃ"), simple("Polish", "pˈOlɪʃ")],
        vec![],
    )
    .unwrap();
    assert_eq!(lex.lookup("polish", "NN", None, None), rated("pˈɑlɪʃ", 4));
    assert_eq!(lex.lookup("Polish", "NN", None, None), rated("pˈOlɪʃ", 4));
}

#[test]
fn known_words() {
    let us = lexicon(Language::EnglishUS);
    assert!(us.is_known("play", "NN"));
    assert!(us.is_known("zebra", "NN"));
    assert!(us.is_known("%", "NN"));
    assert!(us.is_known("x", "NN"));
    assert!(us.is_known("NASA", "NN"));
    assert!(us.is_known("iOS", "NN"));
    assert!(us.is_known("XYZ", "NN"));
    assert!(!us.is_known("plays", "NN"));
    assert!(!us.is_known("é", "NN"));
    assert!(!us.is_known("don't", "NN"));
    assert!(!us.is_known("", "NN"));
    assert!(!us.is_known("7", "NN"));
}

#[test]
fn known_word_is_resolved_by_get_word() {
    let us = lexicon(Language::EnglishUS);
    let ctx = TokenContext { future_vowel: Some(true), future_to: false };
    for w in ["play", "zebra", "%", "U", "NASA", "Paris", "object"] {
        assert!(us.is_known(w, "NN"));
        assert!(us.get_word(w, "NN", None, Some(&ctx)).is_some());
        assert!(us.get_word(w, "VB", None, None).is_some());
    }
}

#[test]
fn lookup_dispatches_on_the_tag() {
    let us = lexicon(Language::EnglishUS);
    let ctx = TokenContext { future_vowel: Some(false), future_to: false };
    let unknown = TokenContext { future_vowel: None, future_to: false };
    assert_eq!(us.lookup("object", "NN", None, None), rated("ˈɑbʤɛkt", 4));
    assert_eq!(us.lookup("object", "VBP", None, None), rated("əbʤˈɛkt", 4));
    assert_eq!(us.lookup("object", "VERB", None, None), rated("əbʤˈɛkt", 4));
    assert_eq!(us.lookup("that", "DT", None, Some(&ctx)), rated("ðæt", 4));
    assert_eq!(us.lookup("that", "DT", None, Some(&unknown)), rated("ðˈæt", 4));
    assert_eq!(us.lookup("that", "DT", None, None), rated("ðæt", 4));
    assert_eq!(us.lookup("only", "JJ", None, None), rated("ˈOnli", 3));
    assert_eq!(us.lookup("zebra", "NN", Some(-4), None), rated("zibɹə", 3));
    assert_eq!(us.lookup("qqq", "NN", None, None), None);
}

#[test]
fn lookup_folds_upper_case_and_spells_initialisms() {
    let us = lexicon(Language::EnglishUS);
    assert_eq!(us.lookup("NASA", "NN", None, None), rated("nˈæsə", 4));
    assert_eq!(us.lookup("FBI", "NNP", None, None), rated("ˌɛfbˌiˈI", 3));
    assert_eq!(us.lookup("FBI", "NN", None, None), rated("ˌɛfbˌiˈI", 3));
    assert_eq!(us.lookup("ZEBRA", "NNP", None, None), None);
    assert_eq!(us.lookup("ZEBRA", "NN", None, None), rated("zˈibɹə", 3));
    assert_eq!(us.get_nnp("FBI"), rated("ˌɛfbˌiˈI", 3));
    assert_eq!(us.get_nnp("f.b.i."), rated("ˌɛfbˌiˈI", 3));
    assert_eq!(us.get_nnp("FBQ"), None);
    assert_eq!(us.get_nnp("..."), None);
    assert_eq!(promote_last_secondary("ˌaˌb"), "ˌaˈb");
    assert_eq!(promote_last_secondary("ab"), "ab");
}

#[test]
fn parent_tags() {
    assert_eq!(get_parent_tag("VBD"), "VERB");
    assert_eq!(get_parent_tag("NNP"), "NOUN");
    assert_eq!(get_parent_tag("RB"), "ADV");
    assert_eq!(get_parent_tag("ADVP"), "ADV");
    assert_eq!(get_parent_tag("JJR"), "ADJ");
    assert_eq!(get_parent_tag("ADJ"), "ADJ");
    assert_eq!(get_parent_tag("DT"), "DT");
    assert_eq!(get_parent_tag("V"), "V");
}

#[test]
fn special_cases() {
    let us = lexicon(Language::EnglishUS);
    let vowel = TokenContext { future_vowel: Some(true), future_to: false };
    let consonant = TokenContext { future_vowel: Some(false), future_to: true };
    let unknown = TokenContext { future_vowel: None, future_to: false };
    assert_eq!(us.get_special_case(".", "ADD", None, None), rated("dˌɑt", 4));
    assert_eq!(us.get_special_case("%", "NN", None, None), rated("pəɹsˈɛnt", 4));
    assert_eq!(us.get_special_case("&", "NN", None, None), None);
    assert_eq!(us.get_special_case("U.S.", "NNP", None, None), rated("jˌuˈɛs", 3));
    assert_eq!(us.get_special_case("etc.", "NN", None, None), None);
    assert_eq!(us.get_special_case("a", "DT", None, None), rated("ɐ", 4));
    assert_eq!(us.get_special_case("A", "NN", None, None), rated("ˈA", 4));
    assert_eq!(us.get_special_case("am", "VBP", None, Some(&unknown)), rated("ɐm", 4));
    assert_eq!(us.get_special_case("am", "VBP", None, None), rated("ɐm", 4));
    assert_eq!(us.get_special_case("am", "VBP", Some(0), Some(&unknown)), rated("ɐm", 4));
    assert_eq!(us.get_special_case("am", "VBP", None, Some(&vowel)), rated("ˈæm", 4));
    assert_eq!(us.get_special_case("am", "VBP", Some(1), Some(&unknown)), rated("ˈæm", 4));
    assert_eq!(us.get_special_case("Am", "VBP", None, Some(&unknown)), rated("ˈæm", 4));
    assert_eq!(us.get_special_case("AM", "NN", None, None), rated("ˌAˈɛm", 3));
    assert_eq!(us.get_special_case("an", "DT", None, None), rated("ɐn", 4));
    assert_eq!(us.get_special_case("AN", "NNP", None, None), rated("ˌAˈɛn", 3));
    assert_eq!(us.get_special_case("I", "PRP", None, None), rated("ˌI", 4));
    assert_eq!(us.get_special_case("I", "NN", None, None), None);
    assert_eq!(us.get_special_case("by", "RB", None, None), rated("bˈI", 4));
    assert_eq!(us.get_special_case("by", "IN", None, None), None);
    assert_eq!(us.get_special_case("to", "TO", None, Some(&unknown)), rated("tˈu", 4));
    assert_eq!(us.get_special_case("to", "TO", None, Some(&consonant)), rated("tə", 4));
    assert_eq!(us.get_special_case("To", "TO", None, Some(&vowel)), rated("tʊ", 4));
    assert_eq!(us.get_special_case("TO", "NN", None, Some(&vowel)), None);
    assert_eq!(us.get_special_case("in", "IN", None, Some(&unknown)), rated("ɪn", 4));
    assert_eq!(us.get_special_case("in", "IN", None, None), rated("ɪn", 4));
    assert_eq!(us.get_special_case("in", "IN", None, Some(&vowel)), rated("ˈɪn", 4));
    assert_eq!(us.get_special_case("in", "RP", None, Some(&unknown)), rated("ˈɪn", 4));
    assert_eq!(us.get_special_case("IN", "IN", None, Some(&consonant)), rated("ˈɪn", 4));
    assert_eq!(us.get_special_case("IN", "NNP", None, None), None);
    assert_eq!(us.get_special_case("the", "DT", None, Some(&vowel)), rated("ði", 4));
    assert_eq!(us.get_special_case("the", "DT", None, Some(&consonant)), rated("ðə", 4));
    assert_eq!(us.get_special_case("THE", "NN", None, None), None);
    assert_eq!(us.get_special_case("vs", "IN", None, None), rated("vˈɜɹsəs", 4));
    assert_eq!(us.get_special_case("used", "VBD", None, Some(&consonant)), rated("jˈust", 4));
    assert_eq!(us.get_special_case("used", "VBD", None, Some(&vowel)), rated("jˈuzd", 4));
    assert_eq!(us.get_special_case("Used", "NN", None, Some(&consonant)), rated("jˈuzd", 4));
    assert_eq!(us.get_special_case("play", "NN", None, None), None);
}

#[test]
fn get_word_orders_its_steps() {
    let us = lexicon(Language::EnglishUS);
    assert_eq!(us.get_word("play", "NN", None, None), rated("plˈA", 4));
    assert_eq!(us.get_word("PLAYING", "NN", Some(4), None), rated("plˈAɪŋ", 4));
    assert_eq!(us.get_word("Plays", "NN", Some(1), None), rated("plˈAz", 4));
    assert_eq!(us.get_word("cats'", "NN", None, None), None);
    assert_eq!(us.get_word("bosss'", "NN", None, None), None);
    assert_eq!(us.get_word("cat'", "NN", None, None), rated("kˈæt", 4));
    assert_eq!(us.get_word("played", "VBD", None, None), rated("plˈAd", 4));
    assert_eq!(us.get_word("qqqq", "NN", None, None), None);
    assert_eq!(us.get_word("the", "DT", None, None), rated("ðə", 4));
    assert_eq!(us.get_word("Playing", "VBG", Some(-4), None), rated("plAɪŋ", 4));
    assert_eq!(us.get_word("playing", "VBG", None, None), rated("plˈAɪŋ", 4));
}

#[test]
fn symbols() {
    assert_eq!(get_symbols("%"), Some("percent"));
    assert_eq!(get_symbols("&"), Some("and"));
    assert_eq!(get_symbols("+"), Some("plus"));
    assert_eq!(get_symbols("@"), Some("at"));
    assert_eq!(get_symbols("#"), None);
    assert_eq!(get_add_symbols("."), Some("dot"));
    assert_eq!(get_add_symbols("/"), Some("slash"));
    assert_eq!(get_add_symbols("%"), None);
}

#[test]
fn numbers_are_recognised_and_expanded() {
    assert!(is_number("14"));
    assert!(is_number("1,234"));
    assert!(is_number("-5"));
    assert!(!is_number("3.14"));
    assert!(!is_number("abc"));
    assert!(!is_number(""));
    assert!(!is_number("99999999999999999999"));
    assert_eq!(read_number("1,234"), Some(1234));
    assert_eq!(parse_integer("+5"), Some(5));
    assert_eq!(parse_integer("-0"), Some(0));
    assert_eq!(parse_integer("007"), Some(7));
    assert_eq!(parse_integer("-"), None);
    assert_eq!(parse_integer("+"), None);
    assert_eq!(parse_integer("--5"), None);
    assert_eq!(parse_integer("5-"), None);
    assert_eq!(parse_integer(" 5"), None);
    assert_eq!(parse_integer("٣"), None);
    assert_eq!(parse_integer("9223372036854775807"), Some(i64::MAX));
    assert_eq!(parse_integer("9223372036854775808"), None);
    assert_eq!(parse_integer("-9223372036854775808"), Some(i64::MIN));
    assert_eq!(parse_integer("-9223372036854775809"), None);
    assert_eq!(parse_integer("123456789012345678901234567890123456789012345"), None);
    assert_eq!(convert_number("14"), "fourteen");
    assert_eq!(convert_number("42"), "forty-two");
    assert_eq!(convert_number("1,000"), "one thousand");
    assert_eq!(convert_number("1000000000000"), "one trillion");
    assert_eq!(convert_number("-5"), "minus five");
    assert_eq!(convert_number("abc"), "abc");
    assert_eq!(spoken_or_word("7", None), "7");
    assert_eq!(spoken_or_word("7", Some("seven".to_string())), "seven");
}

#[test]
fn text_is_cut_into_subtokens() {
    let cut = |s: &str| split_surface(s);
    assert_eq!(cut("Hello, world!"), vec!["Hello", ",", "world", "!"]);
    assert_eq!(cut("I've"), vec!["I've"]);
    assert_eq!(cut("'tis"), vec!["'", "tis"]);
    assert_eq!(cut("twenty-one"), vec!["twenty", "-", "one"]);
    assert_eq!(cut("-5"), vec!["-5"]);
    assert_eq!(cut("3.14 1,000"), vec!["3.14", "1,000"]);
    assert_eq!(cut("a__b"), vec!["a", "__", "b"]);
    assert_eq!(cut("  \n\t "), Vec::<String>::new());
    assert_eq!(cut(""), Vec::<String>::new());
    assert_eq!(split_runs(" a  b\tc "), vec!["a", "b", "c"]);
    assert_eq!(pieces("\u{1}", Some(vec![])), vec!["\u{1}"]);
    assert_eq!(pieces("ab", None), vec!["ab"]);
    assert_eq!(pieces("ab", Some(vec!["a".to_string(), "b".to_string()])), vec!["a", "b"]);
}

#[test]
fn tagger_predicts_the_last_of_the_best_classes() {
    let classes = vec!["DT".to_string(), "NN".to_string(), "VB".to_string()];
    let weights = vec![
        (
            "bias".to_string(),
            vec![ClassWeight { class: 0, weight: 2 }, ClassWeight { class: 1, weight: 2 }],
        ),
        (
            "i word run".to_string(),
            vec![ClassWeight { class: 2, weight: 4 }, ClassWeight { class: 0, weight: -1 }],
        ),
        ("i-1 tag VB".to_string(), vec![ClassWeight { class: 0, weight: 1 }]),
    ];
    let model = AveragedPerceptron::new(weights, classes).unwrap();
    assert_eq!(model.predict(&vec!["bias".to_string()]), (1, 2));
    assert_eq!(model.predict(&vec!["bias".to_string(), "i word run".to_string()]), (2, 4));
    assert_eq!(model.predict(&vec![]), (2, 0));
    assert_eq!(model.weigh(&vec!["bias".to_string(), "nothing".to_string()], 0), 2);
    let tagger = PerceptronTagger::new(model, vec![("the".to_string(), "DT".to_string())]);
    let words: Vec<String> = ["the", "run", "fox"].iter().map(|w| w.to_string()).collect();
    let tags = tagger.tag(&words);
    let got: Vec<&str> = tags.iter().map(|t| t.tag.as_str()).collect();
    assert_eq!(got, vec!["DT", "VB", "DT"]);
    assert_eq!(tags[0].conf, 1_000_000);
    assert_eq!(tags[1].conf, 4);
    assert_eq!(tags[2].word, "fox");
}

#[test]
fn tagger_features() {
    let words: Vec<String> = ["The", "1999", "well-known", "7up"].iter().map(|w| w.to_string()).collect();
    let context = PerceptronTagger::context(&words);
    assert_eq!(context, vec!["-START-", "-START2-", "The", "!YEAR", "!HYPHEN", "!DIGITS", "-END-", "-END2-"]);
    let f = PerceptronTagger::get_features(3, "1999", &context, "DT", "-START-");
    assert_eq!(
        f,
        vec![
            "bias", "i suffix 999", "i pref1 1", "i-1 tag DT", "i-2 tag -START-",
            "i tag+i-2 tag DT -START-", "i word !YEAR", "i-1 tag+i word DT !YEAR",
            "i-1 word The", "i-2 word -START2-", "i+1 word !HYPHEN", "i+2 word !DIGITS",
            "i+1 suffix HEN", "i-1 suffix The",
        ]
    );
    for a in 0..f.len() {
        for b in a + 1..f.len() {
            assert_ne!(f[a], f[b]);
        }
    }
    let same = PerceptronTagger::get_features(3, "i-1 tag", &context, "", "i-1 tag");
    for a in 0..same.len() {
        for b in a + 1..same.len() {
            assert_ne!(same[a], same[b]);
        }
    }
    assert_eq!(normalize("-5"), "-5");
    assert_eq!(normalize("12345"), "!DIGITS");
    assert_eq!(normalize("x"), "x");
    assert_eq!(normalize(""), "");
}

#[test]
fn synthesizer_output_is_normalized() {
    let fb = EspeakFallback::new(false).unwrap();
    assert!(!fb.british);
    assert_eq!(fb.voice(), "en-us");
    assert_eq!(EspeakFallback::new(true).unwrap().voice(), "en");
    assert_eq!(fb.convert_espeak_to_misaki("bˈiːt"), "bˈit");
    assert_eq!(fb.convert_espeak_to_misaki("biːt"), "bˈit");
    assert_eq!(fb.convert_espeak_to_misaki("f_uːd"), "fˈud");
    assert_eq!(fb.convert_espeak_to_misaki("bˈɜːd kˌɔːt fˈɑːðə"), "bˈɜd kˌɔt fˈɑðə");
    assert_eq!(fb.convert_espeak_to_misaki("ˌiːvən"), "ˌivən");
    assert_eq!(fb.convert_espeak_to_misaki("eɪː"), "eɪ");
    assert_eq!(fb.convert_espeak_to_misaki("ˈˈˈa"), "ˈa");
    assert_eq!(fb.convert_espeak_to_misaki("ˌˈˌˈa"), "ˌa");
    assert_eq!(fb.convert_espeak_to_misaki("ˈˌˌˈbˌˌa"), "ˈbˌa");
    assert_eq!(fb.convert_espeak_to_misaki("ˈ_ˈa"), "ˈa");
    assert_eq!(fb.convert_espeak_to_misaki("ˈːˌiːː_"), "ˈi");
    assert_eq!(fb.convert_espeak_to_misaki("həlˈoʊ wˌɜld"), "həlˈoʊ wˌɜld");
    assert_eq!(fb.convert_espeak_to_misaki(""), "");
    let gb = EspeakFallback::new(true).unwrap();
    for raw in ["bˈiːt", "ˈˈˈa", "f_uːd", "ʃˈɛdjuːl"] {
        let out = fb.convert_espeak_to_misaki(raw);
        assert_eq!(gb.convert_espeak_to_misaki(raw), out);
        assert!(!out.contains('ː') && !out.contains('_'));
        assert!(!out.contains("ˈˈ") && !out.contains("ˌˌ"));
        assert!(!out.contains("ˈˌ") && !out.contains("ˌˈ"));
    }
    assert_eq!(fb.rate(Some("bˈiːt".to_string())), Ok(("bˈit".to_string(), 1)));
    assert_eq!(fb.rate(Some(String::new())), Ok((String::new(), 1)));
    assert_eq!(fb.rate(None), Err(FallbackError::NoPhonemes));
    assert_eq!(replace_all("aaa", "aa", "b"), "ba");
    assert_eq!(replace_all("abc", "", "x"), "abc");
    assert_eq!(collapse_stress("ˈˌaˌˌˈbˈ"), "ˈaˌbˈ");
}

#[test]
fn lexicon_methods_agree_with_the_stress_engine() {
    let us = lexicon(Language::EnglishUS);
    assert_eq!(us.apply_stress("həlˈO", Some(-4)), "həlO");
    assert_eq!(us.restress("ˈba"), "bˈa");
    assert_eq!(Lexicon::get_parent_tag("NNS"), "NOUN");
    let entry = PhonemeEntry::Tagged(vec![
        TaggedPhonemes { tag: "NOUN".to_string(), phonemes: Some("a".to_string()) },
        TaggedPhonemes { tag: "DEFAULT".to_string(), phonemes: Some("b".to_string()) },
        TaggedPhonemes { tag: "NOUN".to_string(), phonemes: Some("c".to_string()) },
    ]);
    assert_eq!(us.resolve_phonemes(&entry, "NNS", None), Some("a".to_string()));
    assert_eq!(us.resolve_phonemes(&entry, "VB", None), Some("b".to_string()));
    let copy = entry.duplicate();
    assert_eq!(copy.resolve("NN", None), Some("a".to_string()));
}

#[test]
fn auxiliary_data_can_be_changed_in_place() {
    let mut t = MToken::new("hi".to_string(), "NN".to_string(), " ".to_string());
    t.underscore_mut().rating = Some(4);
    assert_eq!(t.underscore().rating, Some(4));
    assert!(t.underscore().is_head);
    t.underscore = None;
    assert!(!t.underscore().is_head);
    t.underscore_mut().prespace = true;
    assert!(t.underscore.is_some());
    assert!(t.underscore().prespace);
    assert!(!t.underscore().is_head);
    assert_eq!(t.text, "hi");
}

#[test]
fn fresh_token() {
    let t = MToken::new("hi".to_string(), "NN".to_string(), " ".to_string());
    assert_eq!(t.text, "hi");
    assert!(t.phonemes.is_none());
    assert!(t.start_ts.is_none());
    let u = t.underscore();
    assert!(u.is_head);
    assert!(u.rating.is_none());
    assert_eq!(u.num_flags, "");
}

#[test]
fn entry_with_a_tag_key_twice_is_refused() {
    let twice = tagged("read", &[("DEFAULT", Some("ɹˈid")), ("VBD", Some("ɹˈɛd")), ("DEFAULT", None)]);
    let once = tagged("read", &[("DEFAULT", Some("ɹˈid")), ("VBD", Some("ɹˈɛd"))]);
    assert!(!twice.1.is_valid());
    assert!(once.1.is_valid());
    assert!(simple("a", "b").1.is_valid());
    assert!(Lexicon::new(Language::EnglishUS, vec![twice.clone()], vec![]).is_none());
    assert!(Lexicon::new(Language::EnglishUS, vec![], vec![twice]).is_none());
    assert!(Lexicon::new(Language::EnglishUS, vec![once], vec![]).is_some());
    assert!(Lexicon::new(Language::EnglishGB, vec![], vec![]).is_some());
}

#[test]
fn model_with_a_class_twice_in_a_list_is_refused() {
    let classes = vec!["NN".to_string(), "VB".to_string()];
    let twice = vec![(
        "bias".to_string(),
        vec![ClassWeight { class: 1, weight: 5 }, ClassWeight { class: 1, weight: -1 }],
    )];
    let once = vec![(
        "bias".to_string(),
        vec![ClassWeight { class: 1, weight: 5 }, ClassWeight { class: 0, weight: -1 }],
    )];
    assert!(AveragedPerceptron::new(twice, classes.clone()).is_none());
    assert!(AveragedPerceptron::new(once.clone(), vec![]).is_none());
    assert!(AveragedPerceptron::new(vec![], vec![]).is_none());
    let model = AveragedPerceptron::new(once, classes).unwrap();
    assert_eq!(model.weigh_feature("bias", 1), 5);
    assert_eq!(model.weigh_feature("bias", 0), -1);
    assert_eq!(model.weigh_feature("other", 0), 0);
    let many: Vec<String> = (0..3000).map(|_| "bias".to_string()).collect();
    assert_eq!(model.predict(&many), (1, 15000));
}
