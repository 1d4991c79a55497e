//! The token record the pipeline fills in: surface text, tag, trailing
//! whitespace, phonemes and auxiliary data.
use vstd::prelude::*;
use crate::entry::opt_view;

verus! {

/// Auxiliary data of a token.
#[derive(Debug, Clone)]
pub struct Underscore {
    pub is_head: bool,
    pub alias: Option<String>,
    /// Stress target in half steps.
    pub stress: Option<i32>,
    pub currency: Option<String>,
    pub num_flags: String,
    pub prespace: bool,
    pub rating: Option<i32>,
}

/// A token of the input text.
#[derive(Debug, Clone)]
pub struct MToken {
    pub text: String,
    pub tag: String,
    pub whitespace: String,
    pub phonemes: Option<String>,
    /// Start of the token in the audio, in milliseconds.
    pub start_ts: Option<u64>,
    /// End of the token in the audio, in milliseconds.
    pub end_ts: Option<u64>,
    pub underscore: Option<Underscore>,
}

/// The mathematical content of an [`Underscore`].
pub struct UnderscoreView {
    pub is_head: bool,
    pub alias: Option<Seq<char>>,
    pub stress: Option<i32>,
    pub currency: Option<Seq<char>>,
    pub num_flags: Seq<char>,
    pub prespace: bool,
    pub rating: Option<i32>,
}

impl View for Underscore {
    type V = UnderscoreView;

    open spec fn view(&self) -> UnderscoreView {
        UnderscoreView {
            is_head: self.is_head,
            alias: opt_view(self.alias),
            stress: self.stress,
            currency: opt_view(self.currency),
            num_flags: self.num_flags@,
            prespace: self.prespace,
            rating: self.rating,
        }
    }
}

impl Underscore {
    /// The auxiliary data of a token that carries none: no head, no alias,
    /// no stress, no currency, no flags, no rating.
    pub open spec fn blank() -> UnderscoreView {
        UnderscoreView {
            is_head: false,
            alias: None,
            stress: None,
            currency: None,
            num_flags: Seq::empty(),
            prespace: false,
            rating: None,
        }
    }

    /// A copy with the same content.
    pub fn duplicate(&self) -> (r: Underscore)
        ensures
            r@ == self@,
    {
        Underscore {
            is_head: self.is_head,
            alias: crate::entry::copy_opt(&self.alias),
            stress: self.stress,
            currency: crate::entry::copy_opt(&self.currency),
            num_flags: self.num_flags.clone(),
            prespace: self.prespace,
            rating: self.rating,
        }
    }
}

impl Default for Underscore {
    fn default() -> (r: Self)
        ensures
            r@ == Underscore::blank(),
    {
        Underscore {
            is_head: false,
            alias: None,
            stress: None,
            currency: None,
            num_flags: String::new(),
            prespace: false,
            rating: None,
        }
    }
}

impl MToken {
    /// The auxiliary data of the token, blank where it carries none.
    pub open spec fn aux(&self) -> UnderscoreView {
        match self.underscore {
            Some(u) => u@,
            None => Underscore::blank(),
        }
    }

    /// A fresh token: no phonemes, no timestamps, and auxiliary data that
    /// marks it as a head and is blank otherwise.
    pub fn new(text: String, tag: String, whitespace: String) -> (r: MToken)
        ensures
            r.text == text,
            r.tag == tag,
            r.whitespace == whitespace,
            r.phonemes is None,
            r.start_ts is None,
            r.end_ts is None,
            r.underscore is Some,
            r.aux() == (UnderscoreView { is_head: true, ..Underscore::blank() }),
    {
        MToken {
            text,
            tag,
            whitespace,
            phonemes: None,
            start_ts: None,
            end_ts: None,
            underscore: Some(
                Underscore {
                    is_head: true,
                    alias: None,
                    stress: None,
                    currency: None,
                    num_flags: String::new(),
                    prespace: false,
                    rating: None,
                },
            ),
        }
    }

    /// Access to the auxiliary data of the token for changing it; a token
    /// that carries none is first given blank data. Nothing else changes.
    pub fn underscore_mut(&mut self) -> (r: &mut Underscore)
        ensures
            r@ == old(self).aux(),
            final(self).underscore == Some(*final(r)),
            final(self).text == old(self).text,
            final(self).tag == old(self).tag,
            final(self).whitespace == old(self).whitespace,
            final(self).phonemes == old(self).phonemes,
            final(self).start_ts == old(self).start_ts,
            final(self).end_ts == old(self).end_ts,
    {
        if self.underscore.is_none() {
            self.underscore = Some(Underscore::default());
        }
        self.underscore.as_mut().unwrap()
    }

    /// The auxiliary data of the token, blank where it carries none.
    pub fn underscore(&self) -> (r: Underscore)
        ensures
            r@ == self.aux(),
    {
        match &self.underscore {
            Some(u) => u.duplicate(),
            None => Underscore::default(),
        }
    }
}

} // verus!
