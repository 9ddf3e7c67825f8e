//! The quote record: one tracked currency pair and its latest bid and ask.

use vstd::prelude::*;
use vstd::string::StringExecFns;
use crate::price::Price;

verus! {

/// What a quote record is mathematically: its pair codes as character
/// sequences and its two prices.
#[verifier::ext_equal]
pub struct QuoteModel {
    pub base: Seq<char>,
    pub target: Seq<char>,
    pub bid: Price,
    pub ask: Price,
}

/// One tracked currency pair with its latest quote.  The pair codes never
/// change after construction; only the prices are replaced, and only by
/// building a whole new record.
#[derive(Debug)]
pub struct Quote {
    pub base: String,
    pub target: String,
    pub bid: Price,
    pub ask: Price,
}

impl View for Quote {
    type V = QuoteModel;

    open spec fn view(&self) -> QuoteModel {
        QuoteModel { base: self.base@, target: self.target@, bid: self.bid, ask: self.ask }
    }
}

impl DeepView for Quote {
    type V = QuoteModel;

    open spec fn deep_view(&self) -> QuoteModel {
        self@
    }
}

impl Quote {
    /// A freshly tracked pair: both prices start at zero and stay there
    /// until the first successful fetch.
    pub fn new(base: &str, target: &str) -> (r: Quote)
        ensures
            r@ == (QuoteModel {
                base: base@,
                target: target@,
                bid: Price::spec_zero(),
                ask: Price::spec_zero(),
            }),
    {
        Quote { base: base.to_owned(), target: target.to_owned(), bid: Price::zero(), ask: Price::zero() }
    }

    /// The key the response body files this pair under: the two codes run
    /// together with no separator.
    pub fn pair_key(&self) -> (r: String)
        ensures
            r@ == self@.base + self@.target,
    {
        let mut k = self.base.clone();
        k.append(self.target.as_str());
        k
    }

    /// The label a row of the view shows for this pair.
    pub fn display_pair(&self) -> (r: String)
        ensures
            r@ == self@.base + "/"@ + self@.target,
    {
        let mut k = self.base.clone();
        k.append("/");
        k.append(self.target.as_str());
        k
    }

    /// A value copy of the record.
    pub fn duplicate(&self) -> (r: Quote)
        ensures
            r@ == self@,
    {
        Quote { base: self.base.clone(), target: self.target.clone(), bid: self.bid, ask: self.ask }
    }
}

} // verus!
