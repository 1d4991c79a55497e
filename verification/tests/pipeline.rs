use misaki_rs::entry::{PhonemeEntry, TaggedPhonemes};
use misaki_rs::fallback::{EspeakFallback, Fallback, FallbackError};
use misaki_rs::g2p::{context_from, G2P};
use misaki_rs::language::Language;
use misaki_rs::tagger::{AveragedPerceptron, ClassWeight, PerceptronTagger};

fn simple(word: &str, phonemes: &str) -> (String, PhonemeEntry) {
    (word.to_string(), PhonemeEntry::Simple(phonemes.to_string()))
}

fn tagged(word: &str, variants: &[(&str, Option<&str>)]) -> (String, PhonemeEntry) {
    let list = variants
        .iter()
        .map(|(tag, ps)| TaggedPhonemes { tag: tag.to_string(), phonemes: ps.map(|p| p.to_string()) })
        .collect();
    (word.to_string(), PhonemeEntry::Tagged(list))
}

fn letters() -> Vec<(String, PhonemeEntry)> {
    vec![
        simple("A", "ˈA"), simple("B", "bˈi"), simple("C", "sˈi"), simple("D", "dˈi"),
        simple("E", "ˈi"), simple("F", "ˈɛf"), simple("G", "ʤˈi"), simple("H", "ˈAʧ"),
        simple("I", "ˈI"), simple("J", "ʤˈA"), simple("K", "kˈA"), simple("L", "ˈɛl"),
        simple("M", "ˈɛm"), simple("N", "ˈɛn"), simple("O", "ˈO"), simple("P", "pˈi"),
        simple("Q", "kjˈu"), simple("R", "ˈɑɹ"), simple("S", "ˈɛs"), simple("T", "tˈi"),
        simple("U", "jˈu"), simple("V", "vˈi"), simple("W", "dˈʌbᵊlju"), simple("X", "ˈɛks"),
        simple("Y", "wˈI"), simple("Z", "zˈi"),
    ]
}

fn gold(lang: Language) -> Vec<(String, PhonemeEntry)> {
    let mut d = letters();
    d.extend(vec![
        simple("hello", "həlˈO"), simple("world", "wˈɜɹld"), simple("play", "plˈA"),
        simple("restriction", "ɹəstɹˈɪkʃən"), simple("quick", "kwˈɪk"), simple("brown", "bɹˈWn"),
        simple("fox", "fˈɑks"), simple("test", "tˈɛst"), simple("word", "wˈɜɹd"),
        simple("chapter", "ʧˈæptəɹ"), simple("I've", "ˌIv"), simple("fourteen", "fˌɔɹtˈin"),
        simple("five", "fˈIv"), simple("forty", "fˈɔɹɾi"), simple("two", "tˈu"),
        simple("to", "tˈu"), simple("am", "ˈæm"), simple("apple", "ˈæpᵊl"),
        simple("go", "ɡˈO"), simple("versus", "vˈɜɹsəs"), simple("percent", "pəɹsˈɛnt"),
        simple("plus", "plˈʌs"), simple("dot", "dˈɑt"), simple("slash", "slˈæʃ"),
        tagged("used", &[("DEFAULT", Some("jˈuzd")), ("VBD", Some("jˈust"))]),
    ]);
    match lang {
        Language::EnglishGB => d.push(simple("schedule", "ʃˈɛʤul")),
        Language::EnglishUS => d.push(simple("schedule", "skˈɛʤul")),
    }
    d
}

fn silver() -> Vec<(String, PhonemeEntry)> {
    vec![simple("phonemization", "fˌOnəməzˈAʃən"), simple("testing", "tˈɛstɪŋ")]
}

fn tagger() -> PerceptronTagger {
    let classes = vec!["DT".to_string(), "IN".to_string(), "NN".to_string(), "VBD".to_string()];
    let weights = vec![
        ("bias".to_string(), vec![ClassWeight { class: 2, weight: 1_000_000 }]),
        ("i word used".to_string(), vec![ClassWeight { class: 3, weight: 5_000_000 }]),
    ];
    let fixed = vec![
        ("the".to_string(), "DT".to_string()),
        ("The".to_string(), "DT".to_string()),
        ("to".to_string(), "TO".to_string()),
        ("I".to_string(), "PRP".to_string()),
    ];
    PerceptronTagger::new(AveragedPerceptron::new(weights, classes).unwrap(), fixed)
}

fn engine(lang: Language) -> G2P {
    G2P::new(lang, gold(lang), silver(), tagger()).unwrap()
}

#[test]
fn test_g2p_basic() {
    let g2p = engine(Language::EnglishUS);
    let (phonemes, _) = g2p.g2p("Hello, world!");
    println!("Phonemes: {}", phonemes);
    assert!(!phonemes.contains("❓"));
}



#[test]
fn test_english_abbreviations() {
    let g2p = engine(Language::EnglishUS);
    let cases = vec![
        "I'll",
        "I've",
        "it's",
        "he's",
        "she's",
        "we're",
        "they're",
        "isn't",
        "aren't",
        "wasn't",
        "weren't",
        "don't",
        "doesn't",
        "didn't",
        "can't",
        "couldn't",
        "shouldn't",
        "wouldn't",
        "won't",
        "hasn't",
        "haven't",
        "hadn't",
        "let's",
        "that's",
        "what's",
        "who's",
        "here's",
        "there's",
        "where's",
        "how's",
    ];
    for text in cases {
        let (p, _) = g2p.g2p(text);
        println!("'{}' -> '{}'", text, p);
        assert!(!p.contains("❓"), "Failed for '{}'", text);
    }
}

#[test]
fn test_casing_and_special_chars() {
    let g2p = engine(Language::EnglishUS);

    let (playing, _) = g2p.g2p("PLAYING");
    println!("PLAYING: {}", playing);
    assert!(
        !playing.contains("❓"),
        "PLAYING should be resolved, got: {}",
        playing
    );

    let (ive, _) = g2p.g2p("I've");
    println!("I've: {}", ive);
    assert!(!ive.contains("❓"), "I've should be resolved, got: {}", ive);

    let (dash, _) = g2p.g2p("word - word — word");
    println!("Dash: {}", dash);
    assert!(
        !dash.contains("❓"),
        "Dashes should be handled gracefully, got: {}",
        dash
    );
}

#[test]
fn test_kokoros_basic() {
    let g2p = engine(Language::EnglishUS);
    let cases = vec![
        "hello",
        "world",
        "the quick brown fox",
        "testing phonemization",
        "Hello, world!",
        "123",
        "restriction",
        "restrictions",
        "",
    ];
    for text in cases {
        let (p, _) = g2p.g2p(text);
        println!("'{}' -> '{}'", text, p);
        if !text.is_empty() {
            assert!(!p.is_empty(), "Failed for '{}'", text);
        }
    }
}

#[test]
fn test_kokoros_numbers() {
    let g2p = engine(Language::EnglishUS);
    let cases = vec![
        "CHAPTER XIV",
        "CHAPTER 14",
        "CHAPTER 123",
        "I have 5 apples and 42 oranges",
        "The year 2024",
        "1234567890",
        "CHAPTER I",
        "CHAPTER II",
        "CHAPTER III",
        "CHAPTER IV",
        "CHAPTER V",
        "CHAPTER X",
        "CHAPTER XX",
        "CHAPTER XXX",
        "In 2024, CHAPTER XIV had 42 pages.",
        "The price is $123.45",
        "Temperature: -5°C",
        "Score: 100%",
        "Version 2.0",
        "3.14159",
    ];
    for text in cases {
        let (p, _) = g2p.g2p(text);
        println!("'{}' -> '{}'", text, p);
        assert!(!p.is_empty(), "Failed for '{}'", text);
    }
}

#[test]
fn test_kokoros_utf8_and_special() {
    let g2p = engine(Language::EnglishUS);
    let cases = vec![
        "café",
        "naïve",
        "résumé",
        "Zürich",
        "São Paulo",
        "Müller",
        "北京",
        "こんにちは",
        "Здравствуй",
        "مرحبا",
        "🎉🎊🎈",
        "\x00\x01\x02",
        "Hello 世界",
        "123中文",
        "English123中文",
        "hello\u{200B}world",
        "hello\u{200C}world",
        "hello\u{200D}world",
        "caf\u{00E9}",
        "na\u{00EF}ve",
    ];
    for text in cases {
        let (p, _) = g2p.g2p(text);
        println!("'{}' -> '{}'", text, p);
    }
}

#[test]
fn test_kokoros_punctuation() {
    let g2p = engine(Language::EnglishUS);
    let cases = vec![
        "Hello—world",
        "Hello–world",
        "Hello…world",
        "\"quoted text\"",
        "'single quotes'",
        "«French quotes»",
        "„German quotes„",
        "「Japanese quotes」",
        "Dr. Smith",
        "Mr. Jones",
        "Mrs. Brown",
        "Ms. Davis",
        "etc.",
        "U.S.A.",
        "Ph.D.",
        "A.I.",
        "NASA",
        "FBI",
        "   ",
        "\n\n",
        "\t\t",
        "\r\n",
    ];
    for text in cases {
        let (p, _) = g2p.g2p(text);
        println!("'{}' -> '{}'", text, p);
    }
}

#[test]
fn test_kokoros_long_text() {
    let g2p = engine(Language::EnglishUS);
    let long_text = "a".repeat(1000);
    let (p, _) = g2p.g2p(&long_text);
    assert!(!p.is_empty());
}

#[test]
fn hello_world_is_transcribed_token_by_token() {
    let g2p = engine(Language::EnglishUS);
    let (p, tokens) = g2p.g2p("Hello, world!");
    assert_eq!(p, "həlˈO   wˈɜɹld   ");
    let texts: Vec<&str> = tokens.iter().map(|t| t.text.as_str()).collect();
    assert_eq!(texts, vec!["Hello", ",", "world", "!"]);
    assert_eq!(tokens[0].phonemes.as_deref(), Some("həlˈO"));
    assert_eq!(tokens[1].phonemes.as_deref(), Some(" "));
    assert_eq!(tokens[0].tag, "NN");
    assert_eq!(tokens[0].whitespace, " ");
    assert_eq!(p.split_whitespace().count(), 2);
}

#[test]
fn output_is_the_concatenation_of_phonemes_and_whitespace() {
    let g2p = engine(Language::EnglishUS);
    for text in ["the quick brown fox", "I used to go", "CHAPTER 14", "xq-zz"] {
        let (p, tokens) = g2p.g2p(text);
        let mut joined = String::new();
        for t in &tokens {
            joined.push_str(t.phonemes.as_deref().unwrap());
            joined.push_str(&t.whitespace);
        }
        assert_eq!(p, joined);
    }
}

#[test]
fn restrictions_takes_the_plural_suffix() {
    let g2p = engine(Language::EnglishUS);
    assert_eq!(g2p.g2p("restriction").0, "ɹəstɹˈɪkʃən ");
    assert_eq!(g2p.g2p("restrictions").0, "ɹəstɹˈɪkʃənz ");
}

#[test]
fn contraction_is_one_token() {
    let g2p = engine(Language::EnglishUS);
    let (p, tokens) = g2p.g2p("I've");
    assert_eq!(tokens.len(), 1);
    assert_eq!(p, "ˌIv ");
}

#[test]
fn upper_case_word_is_folded_and_stemmed() {
    let g2p = engine(Language::EnglishUS);
    assert_eq!(g2p.g2p("PLAYING").0, "plˈAɪŋ ");
}

#[test]
fn number_is_read_as_its_words() {
    let g2p = engine(Language::EnglishUS);
    let (p, _) = g2p.g2p("CHAPTER 14");
    assert_eq!(p, "ʧˈæptəɹ fˌɔɹtˈin  ");
    let (q, _) = g2p.g2p("CHAPTER XIV");
    assert!(!q.is_empty());
    assert!(!q.contains("❓"));
}

#[test]
fn schedule_differs_between_variants() {
    let us = engine(Language::EnglishUS).g2p("schedule").0;
    let gb = engine(Language::EnglishGB).g2p("schedule").0;
    assert!(us.contains("sk"));
    assert!(gb.contains("ʃ"));
}

#[test]
fn article_depends_on_the_following_sound() {
    let g2p = engine(Language::EnglishUS);
    assert_eq!(g2p.g2p("the apple").0, "ði ˈæpᵊl ");
    assert_eq!(g2p.g2p("the fox").0, "ðə fˈɑks ");
    assert_eq!(g2p.g2p("the 5").0, "ðə fˈIv  ");
}

#[test]
fn used_before_to_takes_its_past_variant() {
    let g2p = engine(Language::EnglishUS);
    let (p, tokens) = g2p.g2p("I used to go");
    assert_eq!(tokens[1].tag, "VBD");
    assert_eq!(p, "ˌI jˈust tə ɡˈO ");
}

#[test]
fn hyphenated_number_words_are_spoken_in_turn() {
    let g2p = engine(Language::EnglishUS);
    assert_eq!(g2p.g2p("42").0, "fˈɔɹɾi   tˈu  ");
}

#[test]
fn unknown_character_gets_the_unknown_mark() {
    let g2p = engine(Language::EnglishUS);
    assert_eq!(g2p.g2p("北").0, "❓ ");
    assert_eq!(g2p.g2p("é").0, "ˈi  ");
    assert_eq!(g2p.g2p("").0, "");
}

#[test]
fn engine_needs_a_class_to_predict() {
    assert!(AveragedPerceptron::new(vec![], vec![]).is_none());
    let twice = tagged("read", &[("VBD", Some("ɹˈɛd")), ("VBD", Some("ɹˈid"))]);
    assert!(G2P::new(Language::EnglishUS, vec![twice], silver(), tagger()).is_none());
}

struct Canned(Option<String>);

impl Fallback for Canned {
    fn phonemize(&self, _word: &str) -> Result<(String, u8), FallbackError> {
        EspeakFallback::new(false).unwrap().rate(self.0.clone())
    }
}

#[test]
fn pipeline_recovers_from_a_fallback_that_fails() {
    let g2p = engine(Language::EnglishUS);
    assert_eq!(g2p.fall_back(&Canned(None), "zzz"), ("❓".to_string(), 0));
    assert_eq!(g2p.fall_back(&Canned(Some("zˈiːː".to_string())), "zzz"), ("zˈi".to_string(), 1));
    assert_eq!(Canned(None).phonemize("zzz"), Err(FallbackError::NoPhonemes));
}

#[test]
fn failed_fallback_gives_the_unknown_mark() {
    let g2p = engine(Language::EnglishUS);
    let fb = EspeakFallback::new(false).unwrap();
    assert_eq!(g2p.recover(fb.rate(None)), ("❓".to_string(), 0));
    assert_eq!(g2p.recover(fb.rate(Some("bˈiːt".to_string()))), ("bˈit".to_string(), 1));
}

#[test]
fn tokenize_marks_every_token_fresh() {
    let g2p = engine(Language::EnglishUS);
    let tokens = g2p.tokenize("don't stop-now 3,000");
    let texts: Vec<&str> = tokens.iter().map(|t| t.text.as_str()).collect();
    assert_eq!(texts, vec!["don't", "stop", "-", "now", "3,000"]);
    for t in &tokens {
        assert_eq!(t.tag, "NN");
        assert_eq!(t.whitespace, " ");
        assert!(t.phonemes.is_none());
        assert!(t.underscore().is_head);
    }
}

#[test]
fn preprocess_passes_the_text_on() {
    let g2p = engine(Language::EnglishUS);
    let (text, runs, features) = g2p.preprocess("Hello,  world!\n");
    assert_eq!(text, "Hello,  world!\n");
    assert_eq!(runs, vec!["Hello,", "world!"]);
    assert!(features.is_empty());
    assert!(g2p.is_number("1,000"));
    assert!(!g2p.is_number("one"));
    assert_eq!(g2p.convert_number("14"), "fourteen");
    assert_eq!(g2p.convert_number("one"), "one");
}

#[test]
fn dashes_are_passed_over() {
    let g2p = engine(Language::EnglishUS);
    assert_eq!(g2p.g2p("word — word").0, "wˈɜɹd  wˈɜɹd ");
    assert_eq!(g2p.g2p("-").0, "  ");
    assert_eq!(g2p.g2p("--").0, " ");
}

#[test]
fn nesting_beyond_the_limit_gives_the_unknown_mark() {
    let g2p = engine(Language::EnglishUS);
    assert_eq!(g2p.transcribe("14", 0).0, "❓ ");
    assert_eq!(g2p.transcribe("14", 1).0, "fˌɔɹtˈin  ");
    assert_eq!(g2p.transcribe("hello", 0).0, "həlˈO ");
}

#[test]
fn following_sound_is_read_from_the_first_letter() {
    assert_eq!(context_from("apple", "ˈæpᵊl").future_vowel, Some(true));
    assert_eq!(context_from("Under", "ˈʌndəɹ").future_vowel, Some(true));
    assert_eq!(context_from("fox", "fˈɑks").future_vowel, Some(false));
    assert_eq!(context_from("'em", "əm").future_vowel, Some(true));
    assert_eq!(context_from("5", "fˈIv").future_vowel, Some(false));
    assert_eq!(context_from("8", "ˈAt").future_vowel, Some(true));
    assert_eq!(context_from("!", " ").future_vowel, None);
    assert!(context_from("TO", "tˈu").future_to);
    assert!(!context_from("too", "tˈu").future_to);
}

#[test]
fn pieces_of_the_output_follow_the_tokens() {
    let g2p = engine(Language::EnglishUS);
    for text in ["Hello, world!", "the quick brown fox", "I used to go.", "play — PLAYING"] {
        let (out, tokens) = g2p.g2p(text);
        let pieces: Vec<&str> = out.split(' ').filter(|p| !p.is_empty()).collect();
        let sounding: Vec<&str> = tokens
            .iter()
            .map(|t| t.phonemes.as_deref().unwrap())
            .filter(|p| !p.chars().all(|c| c == ' '))
            .collect();
        assert_eq!(pieces, sounding);
    }
    let (out, tokens) = g2p.g2p("123");
    assert_eq!(tokens.len(), 1);
    assert!(out.split(' ').filter(|p| !p.is_empty()).count() > 1);
}

#[test]
fn tokens_follow_one_another_in_the_text() {
    let g2p = engine(Language::EnglishUS);
    for text in ["Hello, world!", "  don't stop-now\t3,000 'tis ", "café—bar 北京"] {
        let mut from = 0;
        for token in g2p.tokenize(text) {
            let at = text[from..].find(token.text.as_str());
            assert!(at.is_some());
            from += at.unwrap() + token.text.len();
        }
    }
}
