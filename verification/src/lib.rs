//! Grapheme-to-phoneme conversion for English (US and GB): a dictionary-driven
//! lexicon with stress placement, morphological stemming, a part-of-speech
//! tagger and a right-to-left resolution pipeline.
pub mod entry;
pub mod fallback;
pub mod g2p;
pub mod language;
pub mod languages;
pub mod lexicon;
pub mod lookup;
pub mod morphology;
pub mod number;
pub mod special;
pub mod stem;
pub mod stress;
pub mod tagger;
pub mod text;
pub mod token;
pub mod tokenizer;
pub mod word;

pub use g2p::G2P;
pub use language::Language;
pub use lexicon::Lexicon;
pub use token::MToken;
