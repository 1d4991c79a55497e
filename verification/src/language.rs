use vstd::prelude::*;

verus! {

/// The language variants the engine can transcribe.
#[derive(Debug, Clone, Copy, PartialEq, Eq, Structural)]
pub enum Language {
    EnglishUS,
    EnglishGB,
}

impl Language {
    /// Whether the variant is `EnglishGB`.
    pub open spec fn british(self) -> bool {
        self == Language::EnglishGB
    }

    /// Every variant of this enum is a variety of English.
    pub fn is_english(&self) -> (r: bool)
        ensures
            r,
            r == (*self == Language::EnglishUS || *self == Language::EnglishGB),
    {
        match self {
            Language::EnglishUS => true,
            Language::EnglishGB => true,
        }
    }

    /// Executable counterpart of [`Language::british`].
    pub fn is_british(&self) -> (r: bool)
        ensures
            r == self.british(),
    {
        match self {
            Language::EnglishUS => false,
            Language::EnglishGB => true,
        }
    }
}

} // verus!
