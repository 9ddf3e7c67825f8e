//! One poll cycle of the rate fetcher: building the request from the
//! tracked pairs, and mapping a response body onto a fresh list of records.

use vstd::prelude::*;
use vstd::string::StringExecFns;
use crate::json::json_has_key;
use crate::json::json_has_pair_key;
use crate::json::json_str_at;
use crate::json::json_string_field;
use crate::price::spec_parse_price;
use crate::price::parse_price;
use crate::quote::Quote;
use crate::quote::QuoteModel;

verus! {

/// One pair as it stands in the request: `"BASE-TARGET"`.
pub open spec fn spec_pair_fragment(q: QuoteModel) -> Seq<char> {
    q.base + "-"@ + q.target
}

/// The request parameter: every tracked pair's fragment, comma-joined, in
/// list order.
pub open spec fn spec_pair_param(qs: Seq<QuoteModel>) -> Seq<char>
    decreases qs.len(),
{
    if qs.len() == 0 {
        Seq::empty()
    } else if qs.len() == 1 {
        spec_pair_fragment(qs[0])
    } else {
        spec_pair_param(qs.drop_last()) + ","@ + spec_pair_fragment(qs.last())
    }
}

/// The comma-joined `"BASE-TARGET"` parameter for the request, in list
/// order.
pub fn pair_param(qs: &Vec<Quote>) -> (r: String)
    ensures
        r@ == spec_pair_param(qs.deep_view()),
{
    let ghost m = qs.deep_view();
    let mut out = String::new();
    let mut i: usize = 0;
    while i < qs.len()
        invariant
            i <= qs.len(),
            m == qs.deep_view(),
            m.len() == qs.len(),
            out@ == spec_pair_param(m.subrange(0, i as int)),
        decreases qs.len() - i,
    {
        proof {
            assert(m[i as int] == qs[i as int]@);
        }
        if i > 0 {
            out.append(",");
        }
        out.append(qs[i].base.as_str());
        out.append("-");
        out.append(qs[i].target.as_str());
        proof {
            let pre = m.subrange(0, i as int);
            let now = m.subrange(0, i as int + 1);
            assert(now.drop_last() =~= pre);
            assert(now.last() == m[i as int]);
            if i == 0 {
                assert(out@ =~= spec_pair_fragment(m[0]));
            } else {
                assert(out@ =~= spec_pair_param(pre) + ","@ + spec_pair_fragment(m[i as int]));
            }
        }
        i += 1;
    }
    proof {
        assert(m.subrange(0, qs.len() as int) =~= m);
    }
    out
}

/// The full request address: the quote service's endpoint with the pair
/// parameter appended.
pub open spec fn spec_request_url(qs: Seq<QuoteModel>) -> Seq<char> {
    "https://economia.awesomeapi.com.br/last/"@ + spec_pair_param(qs)
}

pub fn request_url(qs: &Vec<Quote>) -> (r: String)
    ensures
        r@ == spec_request_url(qs.deep_view()),
{
    let mut out = String::from_str("https://economia.awesomeapi.com.br/last/");
    let p = pair_param(qs);
    out.append(p.as_str());
    out
}

/// Whether the body answers the record's pair key at all.
pub open spec fn spec_pair_answered(q: QuoteModel, body: Seq<char>) -> bool {
    json_has_key(body, q.base + q.target)
}

/// The cleanly updated record, when the body holds a string `"bid"` and
/// `"ask"` under the pair key and both parse as decimal prices; `None` on
/// any other answer.
pub open spec fn spec_clean_update(q: QuoteModel, body: Seq<char>) -> Option<QuoteModel> {
    let key = q.base + q.target;
    match (json_str_at(body, key, "bid"@), json_str_at(body, key, "ask"@)) {
        (Some(b), Some(a)) => match (spec_parse_price(b), spec_parse_price(a)) {
            (Some(pb), Some(pa)) => Some(QuoteModel { bid: pb, ask: pa, ..q }),
            _ => None,
        },
        _ => None,
    }
}

/// A record spoils the cycle when the body answers its pair key but the
/// answer is not two parseable string prices: a missing, non-string or
/// unparseable field under a present key is malformed JSON, and malformed
/// JSON abandons the whole cycle.
pub open spec fn spec_spoils(q: QuoteModel, body: Seq<char>) -> bool {
    spec_pair_answered(q, body) && spec_clean_update(q, body) is None
}

/// How one record fares in an unspoiled cycle: a record whose pair key the
/// body does not answer is kept as it was; one answered cleanly takes the
/// new prices, its pair codes untouched either way.
pub open spec fn spec_update_quote(q: QuoteModel, body: Seq<char>) -> QuoteModel {
    if spec_pair_answered(q, body) {
        match spec_clean_update(q, body) {
            Some(u) => u,
            None => q,
        }
    } else {
        q
    }
}

/// Whether some tracked record's answer spoils the cycle.
pub open spec fn spec_cycle_spoiled(qs: Seq<QuoteModel>, body: Seq<char>) -> bool {
    exists|i: int| 0 <= i < qs.len() && #[trigger] spec_spoils(qs[i], body)
}

/// Update one record from a response body.  A record whose pair key the
/// body does not answer comes back unchanged; one answered with two
/// parseable string prices comes back updated; `None` — a present key with
/// a missing, non-string or unparseable bid or ask — tells the caller to
/// abandon the cycle.
pub fn update_quote(q: &Quote, body: &str) -> (r: Option<Quote>)
    ensures
        r matches Some(u) ==> u@ == spec_update_quote(q@, body@) && !spec_spoils(q@, body@),
        r is None <==> spec_spoils(q@, body@),
{
    let key = q.pair_key();
    if !json_has_pair_key(body, key.as_str()) {
        return Some(q.duplicate());
    }
    let bid_s = json_string_field(body, key.as_str(), "bid");
    let ask_s = json_string_field(body, key.as_str(), "ask");
    match (bid_s, ask_s) {
        (Some(b), Some(a)) => match (parse_price(b.as_str()), parse_price(a.as_str())) {
            (Some(pb), Some(pa)) => Some(
                Quote { base: q.base.clone(), target: q.target.clone(), bid: pb, ask: pa },
            ),
            _ => None,
        },
        _ => None,
    }
}

/// What one poll cycle publishes: on a non-success status, or when any
/// answered pair is malformed, the list exactly as it was; otherwise every
/// record updated independently from the body, records without an answer
/// kept.
pub open spec fn spec_apply_cycle(qs: Seq<QuoteModel>, status_ok: bool, body: Seq<char>) -> Seq<
    QuoteModel,
> {
    if !status_ok || spec_cycle_spoiled(qs, body) {
        qs
    } else {
        qs.map_values(|q: QuoteModel| spec_update_quote(q, body))
    }
}

/// A value copy of a whole list of records.
fn copy_quotes(qs: &Vec<Quote>) -> (r: Vec<Quote>)
    ensures
        r.deep_view() == qs.deep_view(),
{
    let ghost m = qs.deep_view();
    let mut out: Vec<Quote> = Vec::new();
    let mut i: usize = 0;
    while i < qs.len()
        invariant
            i <= qs.len(),
            m == qs.deep_view(),
            m.len() == qs.len(),
            out@.len() == i,
            forall|k: int| 0 <= k < i ==> #[trigger] out@[k]@ == m[k],
        decreases qs.len() - i,
    {
        proof {
            assert(m[i as int] == qs[i as int]@);
        }
        let u = qs[i].duplicate();
        out.push(u);
        i += 1;
    }
    proof {
        assert(out.deep_view() =~= m);
    }
    out
}

/// Run the computing half of one poll cycle on a fetched status and body:
/// the new list to publish.  On a failed status, and equally when any
/// tracked pair's key is present but its bid or ask is missing, not a
/// string or outside the decimal grammar, the result equals the input
/// list.
pub fn apply_cycle(qs: &Vec<Quote>, status_ok: bool, body: &str) -> (r: Vec<Quote>)
    ensures
        r.deep_view() == spec_apply_cycle(qs.deep_view(), status_ok, body@),
        !status_ok ==> r.deep_view() == qs.deep_view(),
        status_ok && spec_cycle_spoiled(qs.deep_view(), body@) ==> r.deep_view()
            == qs.deep_view(),
{
    let ghost m = qs.deep_view();
    if !status_ok {
        return copy_quotes(qs);
    }
    let mut out: Vec<Quote> = Vec::new();
    let mut i: usize = 0;
    while i < qs.len()
        invariant
            i <= qs.len(),
            m == qs.deep_view(),
            m.len() == qs.len(),
            out@.len() == i,
            forall|k: int| 0 <= k < i ==> !#[trigger] spec_spoils(m[k], body@),
            forall|k: int| 0 <= k < i ==> #[trigger] out@[k]@ == spec_update_quote(m[k], body@),
        decreases qs.len() - i,
    {
        proof {
            assert(m[i as int] == qs[i as int]@);
        }
        match update_quote(&qs[i], body) {
            Some(u) => {
                out.push(u);
            },
            None => {
                proof {
                    assert(spec_spoils(m[i as int], body@));
                    assert(spec_cycle_spoiled(m, body@));
                }
                return copy_quotes(qs);
            },
        }
        i += 1;
    }
    proof {
        assert(!spec_cycle_spoiled(m, body@));
        assert(out.deep_view() =~= spec_apply_cycle(m, true, body@));
    }
    out
}

/// A record whose pair key the body does not answer keeps its value and
/// never spoils the cycle: a missing key is a no-op for that record alone.
pub proof fn lemma_missing_key_keeps_record(q: QuoteModel, body: Seq<char>)
    ensures
        !json_has_key(body, q.base + q.target) ==> spec_update_quote(q, body) == q
            && !spec_spoils(q, body),
{
}

/// Each record's outcome in an unspoiled successful cycle depends on that
/// record and the body alone, so no record's missing key affects another;
/// in a spoiled cycle every record is kept as it was.
pub proof fn lemma_records_independent(qs: Seq<QuoteModel>, body: Seq<char>, i: int)
    requires
        0 <= i < qs.len(),
    ensures
        spec_apply_cycle(qs, true, body).len() == qs.len(),
        !spec_cycle_spoiled(qs, body) ==> spec_apply_cycle(qs, true, body)[i]
            == spec_update_quote(qs[i], body),
        spec_cycle_spoiled(qs, body) ==> spec_apply_cycle(qs, true, body)[i] == qs[i],
{
}

/// An update never touches a record's pair codes.
pub proof fn lemma_update_keeps_pair(q: QuoteModel, body: Seq<char>)
    ensures
        spec_update_quote(q, body).base == q.base,
        spec_update_quote(q, body).target == q.target,
{
}

/// Round trip: the request parameter re-derived from the list a cycle
/// published equals the parameter derived before the cycle ran.
pub proof fn lemma_param_unchanged_by_cycle(qs: Seq<QuoteModel>, status_ok: bool, body: Seq<char>)
    ensures
        spec_pair_param(spec_apply_cycle(qs, status_ok, body)) == spec_pair_param(qs),
    decreases qs.len(),
{
    if status_ok && !spec_cycle_spoiled(qs, body) && qs.len() > 0 {
        let us = spec_apply_cycle(qs, true, body);
        assert(us.len() == qs.len());
        if qs.len() == 1 {
            lemma_update_keeps_pair(qs[0], body);
            assert(spec_pair_fragment(us[0]) == spec_pair_fragment(qs[0]));
        } else {
            let pre = qs.drop_last();
            assert(!spec_cycle_spoiled(pre, body)) by {
                if spec_cycle_spoiled(pre, body) {
                    let i = choose|i: int| 0 <= i < pre.len() && #[trigger] spec_spoils(
                        pre[i],
                        body,
                    );
                    assert(pre[i] == qs[i]);
                    assert(spec_spoils(qs[i], body));
                }
            }
            lemma_param_unchanged_by_cycle(pre, true, body);
            assert(us.drop_last() =~= spec_apply_cycle(pre, true, body));
            lemma_update_keeps_pair(qs.last(), body);
            assert(spec_pair_fragment(us.last()) == spec_pair_fragment(qs.last()));
        }
    }
}

} // verus!
