use currency_rates::cycle::apply_cycle;
use currency_rates::cycle::pair_param;
use currency_rates::cycle::request_url;
use currency_rates::cycle::update_quote;
use currency_rates::price::Price;
use currency_rates::quote::Quote;
use currency_rates::store::initial_quotes;
use currency_rates::store::Store;

fn same_quotes(a: &[Quote], b: &[Quote]) -> bool {
    a.len() == b.len()
        && a.iter().zip(b.iter()).all(|(x, y)| {
            x.base == y.base && x.target == y.target && x.bid == y.bid && x.ask == y.ask
        })
}

#[test]
fn pair_param_joins_in_list_order() {
    let qs = vec![Quote::new("EUR", "USD"), Quote::new("BTC", "USD")];
    assert_eq!(pair_param(&qs), "EUR-USD,BTC-USD");
}

#[test]
fn pair_param_of_a_single_pair_has_no_comma() {
    let qs = vec![Quote::new("EUR", "USD")];
    assert_eq!(pair_param(&qs), "EUR-USD");
}

#[test]
fn pair_param_of_an_empty_list_is_empty() {
    let qs: Vec<Quote> = vec![];
    assert_eq!(pair_param(&qs), "");
}

#[test]
fn request_url_is_the_endpoint_plus_the_parameter() {
    let qs = initial_quotes();
    assert_eq!(pair_param(&qs), "EUR-USD,ETH-USD,BTC-USD");
    assert_eq!(
        request_url(&qs),
        "https://economia.awesomeapi.com.br/last/EUR-USD,ETH-USD,BTC-USD"
    );
}

#[test]
fn update_reads_bid_and_ask_from_the_body() {
    let body = r#"{"EURUSD": {"bid": "5.10", "ask": "5.20"}}"#;
    let q = Quote::new("EUR", "USD");
    let u = update_quote(&q, body).unwrap();
    assert_eq!(u.base, "EUR");
    assert_eq!(u.target, "USD");
    assert_eq!(u.bid, Price { digits: 510, frac: 2 });
    assert_eq!(u.ask, Price { digits: 520, frac: 2 });
}

#[test]
fn update_keeps_a_record_whose_key_is_unanswered() {
    let body = r#"{"BTCUSD": {"bid": "1.0", "ask": "2.0"}}"#;
    let q = Quote::new("EUR", "USD");
    let u = update_quote(&q, body).unwrap();
    assert_eq!(u.base, "EUR");
    assert_eq!(u.target, "USD");
    assert_eq!(u.bid, Price { digits: 0, frac: 0 });
    assert_eq!(u.ask, Price { digits: 0, frac: 0 });
}

#[test]
fn update_refuses_a_malformed_answer_under_a_present_key() {
    let body = r#"{"EURUSD": {"bid": "abc", "ask": "5.20"}}"#;
    let q = Quote::new("EUR", "USD");
    assert!(update_quote(&q, body).is_none());
}

#[test]
fn missing_key_leaves_that_record_alone() {
    let body = r#"{"EURUSD": {"bid": "5.10", "ask": "5.20"}}"#;
    let qs = vec![Quote::new("EUR", "USD"), Quote::new("BTC", "USD")];
    let out = apply_cycle(&qs, true, body);
    assert_eq!(out.len(), 2);
    assert_eq!(out[0].bid, Price { digits: 510, frac: 2 });
    assert_eq!(out[0].ask, Price { digits: 520, frac: 2 });
    assert_eq!(out[1].base, "BTC");
    assert_eq!(out[1].target, "USD");
    assert_eq!(out[1].bid, Price { digits: 0, frac: 0 });
    assert_eq!(out[1].ask, Price { digits: 0, frac: 0 });
}

#[test]
fn missing_field_abandons_the_whole_cycle() {
    let body = r#"{"EURUSD": {"bid": "5.10"}, "BTCUSD": {"bid": "1.0", "ask": "2.0"}}"#;
    let qs = vec![Quote::new("EUR", "USD"), Quote::new("BTC", "USD")];
    let out = apply_cycle(&qs, true, body);
    assert!(same_quotes(&out, &qs));
}

#[test]
fn non_string_field_abandons_the_whole_cycle() {
    let body = r#"{"EURUSD": {"bid": 5.10, "ask": 5.20}, "BTCUSD": {"bid": "1.0", "ask": "2.0"}}"#;
    let qs = vec![Quote::new("EUR", "USD"), Quote::new("BTC", "USD")];
    let out = apply_cycle(&qs, true, body);
    assert!(same_quotes(&out, &qs));
}

#[test]
fn unparseable_price_abandons_the_whole_cycle() {
    let body = r#"{"EURUSD": {"bid": "abc", "ask": "5.20"}, "BTCUSD": {"bid": "1.0", "ask": "2.0"}}"#;
    let qs = vec![Quote::new("EUR", "USD"), Quote::new("BTC", "USD")];
    let out = apply_cycle(&qs, true, body);
    assert!(same_quotes(&out, &qs));
}

#[test]
fn unparseable_body_leaves_every_record_alone() {
    let body = "not json at all";
    let qs = vec![Quote::new("EUR", "USD"), Quote::new("BTC", "USD")];
    let out = apply_cycle(&qs, true, body);
    assert!(same_quotes(&out, &qs));
}

#[test]
fn failed_status_publishes_an_identical_list() {
    let good = r#"{"EURUSD": {"bid": "5.10", "ask": "5.20"}}"#;
    let qs = apply_cycle(&vec![Quote::new("EUR", "USD")], true, good);
    let out = apply_cycle(&qs, false, good);
    assert!(same_quotes(&out, &qs));
}

#[test]
fn the_parameter_survives_a_round_trip_through_an_update() {
    let body = r#"{"EURUSD": {"bid": "5.10", "ask": "5.20"}, "BTCUSD": {"bid": "67234.5", "ask": "67234.9"}}"#;
    let qs = vec![Quote::new("EUR", "USD"), Quote::new("BTC", "USD")];
    let before = pair_param(&qs);
    let out = apply_cycle(&qs, true, body);
    assert_eq!(out[0].bid, Price { digits: 510, frac: 2 });
    assert_eq!(out[1].bid, Price { digits: 672345, frac: 1 });
    assert_eq!(pair_param(&out), before);
}

#[test]
fn three_cycles_end_to_end() {
    let mut store = Store::new(vec![Quote::new("EUR", "USD")]);

    let first = r#"{"EURUSD": {"bid": "1.10", "ask": "1.20"}}"#;
    let after_first = apply_cycle(store.quotes(), true, first);
    store.apply(after_first);
    assert_eq!(store.quotes()[0].bid, Price { digits: 110, frac: 2 });
    assert_eq!(store.quotes()[0].ask, Price { digits: 120, frac: 2 });

    let after_second = apply_cycle(store.quotes(), false, "");
    store.apply(after_second);
    assert_eq!(store.quotes()[0].bid, Price { digits: 110, frac: 2 });
    assert_eq!(store.quotes()[0].ask, Price { digits: 120, frac: 2 });

    let third = r#"{"EURUSD": {"bid": "3.10", "ask": "3.20"}}"#;
    let after_third = apply_cycle(store.quotes(), true, third);
    store.apply(after_third);
    assert_eq!(store.quotes()[0].bid, Price { digits: 310, frac: 2 });
    assert_eq!(store.quotes()[0].ask, Price { digits: 320, frac: 2 });
    assert_eq!(store.quotes()[0].base, "EUR");
    assert_eq!(store.quotes()[0].target, "USD");
}
