//! The single holder of the list the view renders, and the startup list of
//! tracked pairs.

use vstd::prelude::*;
use crate::price::Price;
use crate::quote::Quote;
use crate::quote::QuoteModel;

verus! {

/// The one shared mutable resource of the program: the current list of
/// quote records.  It is only ever replaced wholesale with a list a cycle
/// published, never edited in place.
pub struct Store {
    list: Vec<Quote>,
}

impl View for Store {
    type V = Seq<QuoteModel>;

    closed spec fn view(&self) -> Seq<QuoteModel> {
        self.list.deep_view()
    }
}

impl Store {
    pub fn new(list: Vec<Quote>) -> (r: Store)
        ensures
            r@ == list.deep_view(),
    {
        Store { list }
    }

    /// Replace the published list wholesale with what a cycle produced.
    pub fn apply(&mut self, new_list: Vec<Quote>)
        ensures
            final(self)@ == new_list.deep_view(),
    {
        self.list = new_list;
    }

    /// The list the rendering pass reads.
    pub fn quotes(&self) -> (r: &Vec<Quote>)
        ensures
            r.deep_view() == self@,
    {
        &self.list
    }
}

/// The startup list's model: euro, ether and bitcoin against the dollar,
/// each with zero prices until the first successful fetch.
pub open spec fn spec_initial_quotes() -> Seq<QuoteModel> {
    seq![
        QuoteModel { base: "EUR"@, target: "USD"@, bid: Price::spec_zero(), ask: Price::spec_zero() },
        QuoteModel { base: "ETH"@, target: "USD"@, bid: Price::spec_zero(), ask: Price::spec_zero() },
        QuoteModel { base: "BTC"@, target: "USD"@, bid: Price::spec_zero(), ask: Price::spec_zero() },
    ]
}

/// The list the program tracks from startup, in display order.
pub fn initial_quotes() -> (r: Vec<Quote>)
    ensures
        r.deep_view() == spec_initial_quotes(),
{
    let mut v: Vec<Quote> = Vec::new();
    v.push(Quote::new("EUR", "USD"));
    v.push(Quote::new("ETH", "USD"));
    v.push(Quote::new("BTC", "USD"));
    proof {
        assert(v.deep_view() =~= spec_initial_quotes());
    }
    v
}

} // verus!
