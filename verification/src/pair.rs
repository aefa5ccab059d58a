//! Instruments: a base symbol quoted in another symbol.

use vstd::prelude::*;
use vstd::string::StringExecFns;

verus! {

/// What identifies an instrument: its base and quote symbols, letter for
/// letter.
pub type Instrument = (Seq<char>, Seq<char>);

/// A trading pair. Two pairs are the same instrument when both symbols
/// agree exactly; case is not folded.
#[derive(Debug, Hash)]
pub struct TradingPair {
    base: String,
    quote: String,
}

impl View for TradingPair {
    type V = Instrument;

    closed spec fn view(&self) -> Instrument {
        (self.base@, self.quote@)
    }
}

impl TradingPair {
    /// The pair of `base` quoted in `quote`.
    pub fn new(base: String, quote: String) -> (pair: TradingPair)
        ensures
            pair@ == (base@, quote@),
    {
        TradingPair { base, quote }
    }

    /// The base symbol.
    pub fn base(&self) -> (symbol: &String)
        ensures
            symbol@ == self@.0,
    {
        &self.base
    }

    /// The quote symbol.
    pub fn quote(&self) -> (symbol: &String)
        ensures
            symbol@ == self@.1,
    {
        &self.quote
    }

    /// The pair as text: the base symbol, a slash, the quote symbol.
    pub fn symbol(&self) -> (text: String)
        ensures
            text@ == self@.0 + "/"@ + self@.1,
    {
        let mut text = self.base.clone();
        text.append("/");
        text.append(self.quote.as_str());
        text
    }
}

impl Clone for TradingPair {
    fn clone(&self) -> (pair: TradingPair)
        ensures
            pair@ == self@,
    {
        TradingPair { base: self.base.clone(), quote: self.quote.clone() }
    }
}

impl PartialEq for TradingPair {
    fn eq(&self, other: &Self) -> (equal: bool) {
        self.base == other.base && self.quote == other.quote
    }
}

impl vstd::std_specs::cmp::PartialEqSpecImpl for TradingPair {
    open spec fn obeys_eq_spec() -> bool {
        true
    }

    open spec fn eq_spec(&self, other: &Self) -> bool {
        self@ == other@
    }
}

impl Eq for TradingPair {

}

impl From<(String, String)> for TradingPair {
    fn from(pair: (String, String)) -> (made: TradingPair) {
        TradingPair { base: pair.0, quote: pair.1 }
    }
}

impl vstd::std_specs::convert::FromSpecImpl<(String, String)> for TradingPair {
    open spec fn obeys_from_spec() -> bool {
        true
    }

    open spec fn from_spec(pair: (String, String)) -> TradingPair {
        TradingPair::made_of(pair.0, pair.1)
    }
}

impl TradingPair {
    /// The pair that holds exactly these two symbols.
    pub closed spec fn made_of(base: String, quote: String) -> TradingPair {
        TradingPair { base, quote }
    }

    /// The pair made of two symbols is the instrument that they name.
    pub proof fn lemma_made_of(base: String, quote: String)
        ensures
            Self::made_of(base, quote)@ == (base@, quote@),
    {
    }
}

} // verus!
