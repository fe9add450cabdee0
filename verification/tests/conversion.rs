use marketcaps::rates::{
    convert_currency, currency_codes_of_quotes, get_rate_map, rate_table_from_quotes,
    split_symbol, ExchangeRate, Rate, RateTable,
};

fn s(x: &str) -> String {
    x.to_string()
}

fn convert(amount: u64, from: &str, to: &str, table: &RateTable) -> u64 {
    convert_currency(amount, &s(from), &s(to), table)
}

/// Amounts are micro-units: 100.0 units is 100_000_000.
#[test]
fn test_convert_currency() {
    let rate_map = get_rate_map();

    // Direct USD conversions.
    assert_eq!(convert(100_000_000, "EUR", "USD", &rate_map), 108_000_000);
    assert_eq!(convert(100_000_000, "USD", "EUR", &rate_map), 92_592_592);

    // Cross rates between major currencies.
    let eur_jpy = convert(100_000_000, "EUR", "JPY", &rate_map);
    assert!(
        eur_jpy > 15_800_000_000 && eur_jpy < 15_900_000_000,
        "EUR/JPY rate should be around 158.82 (got {})",
        eur_jpy / 100_000_000
    );

    let eur_chf = convert(100_000_000, "EUR", "CHF", &rate_map);
    assert!(
        eur_chf > 94_000_000 && eur_chf < 95_000_000,
        "EUR/CHF rate should be around 0.947 (got {})",
        eur_chf / 100_000_000
    );

    // Currencies with different magnitudes.
    let jpy_chf = convert(10_000_000_000, "JPY", "CHF", &rate_map);
    assert!(
        jpy_chf > 59_500_000 && jpy_chf < 60_500_000,
        "JPY/CHF rate for 10000 JPY should be around 60 CHF (got {})",
        jpy_chf
    );

    // GBp (pence) conversion.
    assert_eq!(convert(1_000_000_000, "GBp", "USD", &rate_map), 12_500_000);
    assert_eq!(convert(10_000_000, "USD", "GBp", &rate_map), 800_000_000);

    // Same currency conversion.
    assert_eq!(convert(100_000_000, "USD", "USD", &rate_map), 100_000_000);
    assert_eq!(convert(100_000_000, "EUR", "EUR", &rate_map), 100_000_000);

    // Conversion through USD.
    let gbp_eur = convert(100_000_000, "GBP", "EUR", &rate_map);
    assert!(
        gbp_eur > 115_000_000 && gbp_eur < 116_000_000,
        "GBP/EUR rate should be around 1.157 (got {})",
        gbp_eur / 100_000_000
    );

    // Currencies with low unit value.
    let sek_jpy = convert(1_000_000_000, "SEK", "JPY", &rate_map);
    assert!(
        sek_jpy > 14_100_000_000 && sek_jpy < 14_150_000_000,
        "SEK/JPY rate for 1000 SEK should be around 14117 JPY (got {})",
        sek_jpy
    );
}

#[test]
fn conversion_identity_for_unknown_codes() {
    let rate_map = get_rate_map();
    assert_eq!(convert(42, "XXX", "XXX", &rate_map), 42);
    assert_eq!(convert(0, "EUR", "EUR", &rate_map), 0);
    assert_eq!(convert(u64::MAX, "ZZZ", "ZZZ", &RateTable::new()), u64::MAX);
}

#[test]
fn round_trip_over_direct_pair_is_exact_here() {
    let mut t = RateTable::new();
    assert!(t.insert(s("EUR"), s("USD"), Rate::from_micros(1_080_000)));
    let fwd = convert(100_000_000, "EUR", "USD", &t);
    assert_eq!(fwd, 108_000_000);
    let back = convert(fwd, "USD", "EUR", &t);
    assert_eq!(back, 100_000_000);
}

#[test]
fn cross_rate_through_hub_matches_quotient() {
    let quotes = vec![
        ExchangeRate { name: Some(s("EUR/USD")), price: Some(1_031_280), timestamp: 1_736_432_800 },
        ExchangeRate { name: Some(s("JPY/USD")), price: Some(6_750), timestamp: 1_736_432_800 },
        ExchangeRate { name: Some(s("CHF/USD")), price: Some(1_150_000), timestamp: 1_736_432_800 },
    ];
    let t = rate_table_from_quotes(&quotes);
    // 100 EUR in JPY: 1.03128 / 0.00675 per unit, floored in micro-units.
    let eur_jpy = convert(100_000_000, "EUR", "JPY", &t);
    assert_eq!(eur_jpy, 100_000_000u64 * 1_031_280 / 6_750);
    // And the reverse edge is synthesized, never stored.
    let usd_eur = convert(100_000_000, "USD", "EUR", &t);
    assert_eq!(usd_eur, 100_000_000u64 * 1_000_000 / 1_031_280);
}

#[test]
fn subunit_scaling_is_exact() {
    let rate_map = get_rate_map();
    assert_eq!(
        convert(1_000_000_000, "GBp", "USD", &rate_map),
        convert(10_000_000, "GBP", "USD", &rate_map)
    );
    assert_eq!(convert(1_000, "GBp", "GBP", &rate_map), 10);
    assert_eq!(convert(10, "GBP", "GBp", &rate_map), 1_000);
    assert_eq!(convert(500, "ZAc", "ZAR", &rate_map), 5);
    // ILA is an alternative code for ILS, not a scaled subunit.
    assert_eq!(convert(500, "ILA", "ILS", &rate_map), 500);
}

#[test]
fn unknown_pair_falls_back_to_input() {
    let empty = RateTable::new();
    assert_eq!(convert(123_456, "XXX", "USD", &empty), 123_456);
    let rate_map = get_rate_map();
    assert_eq!(convert(123_456, "XXX", "YYY", &rate_map), 123_456);
}

#[test]
fn oversized_result_falls_back_to_input() {
    let mut t = RateTable::new();
    assert!(t.insert(s("AAA"), s("BBB"), Rate::new(1_000_000_000, 1)));
    assert_eq!(convert(u64::MAX, "AAA", "BBB", &t), u64::MAX);
}

#[test]
fn insert_refuses_bad_edges_and_replaces_pairs() {
    let mut t = RateTable::new();
    assert!(!t.insert(s("USD"), s("USD"), Rate::from_micros(1_000_000)));
    assert!(!t.insert(s("EUR"), s("USD"), Rate { num: 0, den: 1 }));
    assert_eq!(t.len(), 0);
    assert!(t.insert(s("EUR"), s("USD"), Rate::from_micros(1_000_000)));
    assert!(t.insert(s("EUR"), s("USD"), Rate::from_micros(1_080_000)));
    assert_eq!(t.len(), 1);
    assert_eq!(convert(100, "EUR", "USD", &t), 108);
}

#[test]
fn default_rate_map_has_thirteen_usd_edges() {
    let t = get_rate_map();
    assert_eq!(t.len(), 13);
    assert_eq!(convert(1_000_000, "ILS", "USD", &t), 270_000);
    assert_eq!(convert(1_000_000, "ZAR", "USD", &t), 53_000);
}

#[test]
fn split_symbol_takes_first_slash() {
    let parts = split_symbol(&s("EUR/USD"));
    assert!(parts.is_some());
    let (a, b) = parts.unwrap();
    assert_eq!(a, "EUR");
    assert_eq!(b, "USD");
    assert!(split_symbol(&s("EURUSD")).is_none());
    let (a, b) = split_symbol(&s("A/B/C")).unwrap();
    assert_eq!(a, "A");
    assert_eq!(b, "B/C");
    let (a, b) = split_symbol(&s("/X")).unwrap();
    assert_eq!(a, "");
    assert_eq!(b, "X");
}

#[test]
fn quote_table_ignores_invalid_and_keeps_latest() {
    let quotes = vec![
        ExchangeRate { name: Some(s("EURUSD")), price: Some(1_000_000), timestamp: 1 },
        ExchangeRate { name: Some(s("USD/USD")), price: Some(1_000_000), timestamp: 1 },
        ExchangeRate { name: Some(s("EUR/USD")), price: Some(0), timestamp: 1 },
        ExchangeRate { name: None, price: Some(1_000_000), timestamp: 1 },
        ExchangeRate { name: Some(s("EUR/USD")), price: None, timestamp: 1 },
        ExchangeRate { name: Some(s("EUR/USD")), price: Some(1_070_000), timestamp: 1 },
        ExchangeRate { name: Some(s("EUR/USD")), price: Some(1_080_000), timestamp: 2 },
    ];
    let t = rate_table_from_quotes(&quotes);
    // The quoted edge plus its synthesized reverse.
    assert_eq!(t.len(), 2);
    assert_eq!(convert(100_000_000, "EUR", "USD", &t), 108_000_000);
    assert_eq!(convert(108_000_000, "USD", "EUR", &t), 100_000_000);
}

/// The build synthesizes reverse and cross edges, so every currency that
/// any quote touches is routable, whichever way the feed quotes it.
#[test]
fn currencies_test_convert_currency() {
    let quotes = vec![
        ExchangeRate { name: Some(s("EUR/USD")), price: Some(1_080_000), timestamp: 1_701_956_301 },
        ExchangeRate { name: Some(s("USD/JPY")), price: Some(150_000_000), timestamp: 1_701_956_301 },
        ExchangeRate { name: Some(s("GBP/USD")), price: Some(1_250_000), timestamp: 1_701_956_301 },
        ExchangeRate { name: Some(s("EUR/SEK")), price: Some(11_250_000), timestamp: 1_701_956_301 },
    ];
    let rate_map = rate_table_from_quotes(&quotes);

    // Direct USD conversions.
    assert_eq!(convert(100_000_000, "EUR", "USD", &rate_map), 108_000_000);
    assert_eq!(convert(100_000_000, "USD", "EUR", &rate_map), 92_592_592);

    // Cross rates between major currencies (0.01 of a unit is 10_000).
    let eur_jpy = convert(100_000_000, "EUR", "JPY", &rate_map);
    assert!(
        eur_jpy.abs_diff(16_200_000_000) < 10_000,
        "EUR/JPY rate for 100 EUR should be around 16200 JPY (got {})",
        eur_jpy
    );

    let gbp_jpy = convert(100_000_000, "GBP", "JPY", &rate_map);
    assert!(
        gbp_jpy.abs_diff(18_750_000_000) < 10_000,
        "GBP/JPY rate for 100 GBP should be around 18750 JPY (got {})",
        gbp_jpy
    );

    let gbp_eur = convert(100_000_000, "GBP", "EUR", &rate_map);
    assert!(
        gbp_eur.abs_diff(115_740_740) < 10_000,
        "GBP/EUR rate should be around 115.74 EUR (got {})",
        gbp_eur
    );

    // SEK is quoted only as the target of EUR/SEK; the route still exists.
    let sek_jpy = convert(1_000_000_000, "SEK", "JPY", &rate_map);
    assert!(
        sek_jpy.abs_diff(14_400_000_000) < 10_000,
        "SEK/JPY rate for 1000 SEK should be around 14400 JPY (got {})",
        sek_jpy
    );
}

/// A currency quoted hub-first (USD/JPY) is still convertible from and to.
#[test]
fn hub_first_quotes_are_routable() {
    let quotes = vec![
        ExchangeRate { name: Some(s("EUR/USD")), price: Some(1_080_000), timestamp: 1 },
        ExchangeRate { name: Some(s("USD/JPY")), price: Some(150_000_000), timestamp: 1 },
    ];
    let t = rate_table_from_quotes(&quotes);
    // JPY -> USD uses the synthesized reverse of USD/JPY.
    assert_eq!(convert(150_000_000, "JPY", "USD", &t), 1_000_000);
    // JPY -> EUR crosses through the hub.
    let jpy_eur = convert(15_000_000_000, "JPY", "EUR", &t);
    assert!(
        jpy_eur.abs_diff(92_592_592) < 10_000,
        "100 USD worth of JPY should be around 92.59 EUR (got {})",
        jpy_eur
    );
}

#[test]
fn currency_codes_come_from_split_symbols() {
    let quotes = vec![
        ExchangeRate { name: Some(s("EUR/USD")), price: Some(1), timestamp: 0 },
        ExchangeRate { name: None, price: Some(1), timestamp: 0 },
        ExchangeRate { name: Some(s("NOSLASH")), price: None, timestamp: 0 },
        ExchangeRate { name: Some(s("GBP/USD")), price: None, timestamp: 0 },
    ];
    let codes = currency_codes_of_quotes(&quotes);
    assert_eq!(codes, vec![s("EUR"), s("USD"), s("GBP"), s("USD")]);
}

/// Rates above 1000 major units are stored exactly when the quote is
/// coarse enough for ten-power reduction (a rupiah-style 16000.0).
#[test]
fn large_coarse_quotes_are_stored_exactly() {
    let quotes = vec![
        ExchangeRate { name: Some(s("USD/IDR")), price: Some(16_000_000_000), timestamp: 1 },
    ];
    let t = rate_table_from_quotes(&quotes);
    assert_eq!(convert(1_000_000, "USD", "IDR", &t), 16_000_000_000);
    assert_eq!(convert(16_000_000_000, "IDR", "USD", &t), 1_000_000);
}
