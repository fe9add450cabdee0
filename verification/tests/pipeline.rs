use marketcaps::batch::collect_outcomes;
use marketcaps::calendar::get_last_day_of_month;
use marketcaps::config::Config;
use marketcaps::fetch::{
    build_record, default_string, market_cap_record, Details, FMPCompanyProfile,
    FMPIncomeStatement, FMPRatios,
};
use marketcaps::menu::App;
use marketcaps::rates::{Rate, RateTable};
use marketcaps::retry::FetchError;
use marketcaps::symbols::{check_ticker_updates, StoredSymbolChange};

fn s(x: &str) -> String {
    x.to_string()
}

fn profile(symbol: &str, currency: &str, market_cap: u64) -> FMPCompanyProfile {
    FMPCompanyProfile {
        symbol: s(symbol),
        company_name: s("Test Company"),
        market_cap,
        description: s("Test description"),
        website: s("https://test.com"),
        employees: Some(s("1000")),
        price: 150_000_000,
        currency: s(currency),
        exchange: s("NYSE"),
        is_active: true,
    }
}

fn eur_usd_rates(micros: u64) -> RateTable {
    let mut t = RateTable::new();
    assert!(t.insert(s("EUR"), s("USD"), Rate::from_micros(micros)));
    t
}

fn fetch_ok(ticker: &str, currency: &str, cap: u64, rates: &RateTable) -> Details {
    build_record(
        Ok(vec![profile(ticker, currency, cap)]),
        Ok(vec![]),
        Ok(vec![]),
        s("2024-01-01"),
        rates,
    )
    .unwrap()
}

#[test]
fn profile_fold_carries_fields_and_converts_revenue() {
    let rates = eur_usd_rates(1_100_000);
    let ratios = FMPRatios {
        symbol: s("AAA"),
        current_ratio: Some(1_200_000),
        quick_ratio: Some(900_000),
        eps: Some(6_050_000),
        price_earnings_ratio: Some(28_500_000),
        debt_equity_ratio: Some(2_100_000),
        return_on_equity: Some(150_000),
    };
    let income = FMPIncomeStatement {
        date: s("2024-01-01"),
        symbol: s("AAA"),
        revenue: Some(5_000_000),
    };
    let d = build_record(
        Ok(vec![profile("AAA", "EUR", 1_000_000)]),
        Ok(vec![ratios]),
        Ok(vec![income]),
        s("2024-01-01"),
        &rates,
    )
    .unwrap();
    assert_eq!(d.ticker, "AAA");
    assert_eq!(d.market_cap, Some(1_000_000));
    assert_eq!(d.name.as_deref(), Some("Test Company"));
    assert_eq!(d.currency_symbol.as_deref(), Some("EUR"));
    assert_eq!(d.active, Some(true));
    assert_eq!(d.exchange.as_deref(), Some("NYSE"));
    assert_eq!(d.working_capital_ratio, Some(1_200_000));
    assert_eq!(d.quick_ratio, Some(900_000));
    assert_eq!(d.eps, Some(6_050_000));
    assert_eq!(d.pe_ratio, Some(28_500_000));
    assert_eq!(d.debt_equity_ratio, Some(2_100_000));
    assert_eq!(d.roe, Some(150_000));
    assert_eq!(d.revenue, Some(5_000_000));
    assert_eq!(d.revenue_usd, Some(5_500_000));
    assert_eq!(d.timestamp.as_deref(), Some("2024-01-01"));
}

#[test]
fn empty_profile_is_missing_data_and_errors_pass_through() {
    let rates = RateTable::new();
    let r = build_record(Ok(vec![]), Ok(vec![]), Ok(vec![]), s("t"), &rates);
    assert!(matches!(r, Err(FetchError::MissingData)));
    let r = build_record(
        Err(FetchError::Transport(s("connection reset"))),
        Ok(vec![]),
        Ok(vec![]),
        s("t"),
        &rates,
    );
    assert!(matches!(r, Err(FetchError::Transport(_))));
    // Failed ratios or income only leave fields unset.
    let d = build_record(
        Ok(vec![profile("AAA", "USD", 7)]),
        Err(FetchError::Parse(s("bad json"))),
        Err(FetchError::RateLimitExhausted { attempts: 3 }),
        s("t"),
        &rates,
    )
    .unwrap();
    assert_eq!(d.working_capital_ratio, None);
    assert_eq!(d.revenue, None);
    assert_eq!(d.revenue_usd, None);
}

#[test]
fn market_cap_row_converts_to_both_targets() {
    let mut rates = RateTable::new();
    assert!(rates.insert(s("USD"), s("EUR"), Rate::from_micros(850_000)));
    let d = fetch_ok("TEST", "USD", 1_000_000, &rates);
    let row = market_cap_record(&d, &rates, 1_701_956_301);
    assert_eq!(row.ticker, "TEST");
    assert_eq!(row.market_cap_original, 1_000_000);
    assert_eq!(row.original_currency, "USD");
    assert_eq!(row.market_cap_eur, 850_000);
    assert_eq!(row.market_cap_usd, 1_000_000);
    assert!(row.active);
    assert_eq!(row.api_timestamp, 1_701_956_301);
}

#[test]
fn batch_tolerates_exactly_one_failure() {
    let rates = eur_usd_rates(1_100_000);
    let outcomes = vec![
        (s("AAA"), Ok(fetch_ok("AAA", "EUR", 10, &rates))),
        (s("BBB"), Err(FetchError::Transport(s("boom")))),
        (s("CCC"), Ok(fetch_ok("CCC", "EUR", 20, &rates))),
    ];
    let r = collect_outcomes(outcomes);
    assert_eq!(r.successes.len(), 2);
    assert_eq!(r.failures.len(), 1);
    assert_eq!(r.successes[0].ticker, "AAA");
    assert_eq!(r.successes[1].ticker, "CCC");
    assert_eq!(r.failures[0].0, "BBB");
    assert!(matches!(r.failures[0].1, FetchError::Transport(_)));
}

#[test]
fn end_to_end_two_tickers_one_missing() {
    let rates = eur_usd_rates(1_100_000);
    let aaa = build_record(
        Ok(vec![profile("AAA", "EUR", 1_000_000)]),
        Ok(vec![]),
        Ok(vec![]),
        s("t"),
        &rates,
    );
    let bbb: Result<Details, FetchError> =
        build_record(Ok(vec![]), Ok(vec![]), Ok(vec![]), s("t"), &rates);
    let outcomes = vec![(s("AAA"), aaa), (s("BBB"), bbb)];
    let r = collect_outcomes(outcomes);
    assert_eq!(r.successes.len(), 1);
    assert_eq!(r.failures.len(), 1);
    let row = market_cap_record(&r.successes[0], &rates, 0);
    assert_eq!(row.market_cap_usd, 1_100_000);
    assert_eq!(r.failures[0].0, "BBB");
    assert!(matches!(r.failures[0].1, FetchError::MissingData));
}

fn row(ticker: &str, eur: u64, active: bool) -> marketcaps::fetch::MarketCapRecord {
    marketcaps::fetch::MarketCapRecord {
        ticker: s(ticker),
        name: s(ticker),
        market_cap_original: eur,
        original_currency: s("EUR"),
        market_cap_eur: eur,
        market_cap_usd: eur,
        exchange: s("X"),
        active,
        api_timestamp: 0,
        conversion_incomplete: false,
    }
}

#[test]
fn fallback_conversions_are_flagged() {
    let mut rates = RateTable::new();
    assert!(rates.insert(s("USD"), s("EUR"), Rate::from_micros(850_000)));
    let known = market_cap_record(&fetch_ok("A", "USD", 100, &rates), &rates, 0);
    assert!(!known.conversion_incomplete);
    // JPY has no route at all: both converted figures are the raw amount.
    let unknown = market_cap_record(&fetch_ok("B", "JPY", 100, &rates), &rates, 0);
    assert!(unknown.conversion_incomplete);
    assert_eq!(unknown.market_cap_eur, 100);
    assert_eq!(unknown.market_cap_usd, 100);
}

#[test]
fn rows_sort_by_eur_descending() {
    let rows = vec![row("B", 20, true), row("D", 5, false), row("A", 30, true), row("C", 10, true)];
    let sorted = marketcaps::fetch::sort_by_market_cap_desc(rows);
    let caps: Vec<u64> = sorted.iter().map(|r| r.market_cap_eur).collect();
    assert_eq!(caps, vec![30, 20, 10, 5]);
    assert_eq!(sorted[0].ticker, "A");
}

#[test]
fn top_active_filters_and_limits() {
    let rows = vec![row("A", 30, true), row("B", 20, false), row("C", 10, true), row("D", 5, true)];
    let sorted = marketcaps::fetch::sort_by_market_cap_desc(rows);
    let top = marketcaps::fetch::top_active(sorted, 2);
    assert_eq!(top.len(), 2);
    assert_eq!(top[0].ticker, "A");
    assert_eq!(top[1].ticker, "C");
}

#[test]
fn test_get_last_day_of_month() {
    assert_eq!(get_last_day_of_month(2025, 1), 31);
    assert_eq!(get_last_day_of_month(2025, 2), 28);
    assert_eq!(get_last_day_of_month(2024, 2), 29);
    assert_eq!(get_last_day_of_month(2025, 4), 30);
    assert_eq!(get_last_day_of_month(2025, 12), 31);
}

#[test]
fn civil_dates_from_day_counts() {
    assert_eq!(marketcaps::calendar::civil_from_days(0), (1970, 1, 1));
    assert_eq!(marketcaps::calendar::civil_from_days(364), (1970, 12, 31));
    assert_eq!(marketcaps::calendar::civil_from_days(789), (1972, 2, 29));
    assert_eq!(marketcaps::calendar::civil_from_days(19_723), (2024, 1, 1));
    assert_eq!(marketcaps::calendar::civil_from_days(19_782), (2024, 2, 29));
}

#[test]
fn leap_year_rules() {
    assert_eq!(get_last_day_of_month(1900, 2), 28);
    assert_eq!(get_last_day_of_month(2000, 2), 29);
    assert_eq!(get_last_day_of_month(2024, 6), 30);
}

#[test]
fn config_defaults_and_universe() {
    let c = Config::default();
    assert_eq!(c.non_us_tickers, vec![s("C.PA"), s("LVMH.PA"), s("ITX.MC")]);
    assert_eq!(c.us_tickers, vec![s("NKE"), s("TJX"), s("VFC")]);
    let all = c.all_tickers();
    assert_eq!(all.len(), 6);
    assert_eq!(all[0], "C.PA");
    assert_eq!(all[3], "NKE");
}

#[test]
fn symbol_changes_are_categorized() {
    let change = |old: &str, new: &str| StoredSymbolChange {
        id: None,
        old_symbol: s(old),
        new_symbol: s(new),
        change_date: None,
        company_name: None,
        reason: None,
        applied: 0,
    };
    let pending = vec![change("NKE", "NIKE"), change("NKE", "TJX"), change("ZZZ", "YYY")];
    let tickers = vec![s("NKE"), s("TJX")];
    let report = check_ticker_updates(pending, &tickers);
    assert_eq!(report.pending_changes.len(), 3);
    assert_eq!(report.applicable_changes.len(), 1);
    assert_eq!(report.applicable_changes[0].new_symbol, "NIKE");
    assert_eq!(report.non_applicable_changes.len(), 1);
    assert_eq!(report.non_applicable_changes[0].old_symbol, "ZZZ");
    assert_eq!(report.conflicts.len(), 1);
    assert_eq!(
        report.conflicts[0],
        "Both NKE and TJX exist in config (change date: unknown)"
    );
}

#[test]
fn menu_selection_wraps_both_ways() {
    let mut app = App::new(vec![s("one"), s("two"), s("three")]);
    assert_eq!(app.selected, None);
    app.next();
    assert_eq!(app.selected, Some(0));
    app.next();
    app.next();
    assert_eq!(app.selected, Some(2));
    app.next();
    assert_eq!(app.selected, Some(0));
    app.previous();
    assert_eq!(app.selected, Some(2));
    app.previous();
    assert_eq!(app.selected, Some(1));
}

#[test]
fn menu_wraps_out_of_range_selection_like_missing_entries() {
    let mut app = App { items: vec![s("one"), s("two"), s("three")], selected: Some(5) };
    app.next();
    assert_eq!(app.selected, Some(0));
    let mut app = App { items: vec![s("one"), s("two"), s("three")], selected: Some(5) };
    app.previous();
    assert_eq!(app.selected, Some(4));
}

#[test]
fn default_string_is_zero() {
    assert_eq!(default_string(), "0");
}

#[test]
fn ticker_details_row_carries_descriptive_fields() {
    let rates = RateTable::new();
    let d = fetch_ok("TEST", "USD", 1_000_000, &rates);
    let td = marketcaps::fetch::ticker_details_record(&d);
    assert_eq!(td.ticker, "TEST");
    assert_eq!(td.description.as_deref(), Some("Test description"));
    assert_eq!(td.homepage_url.as_deref(), Some("https://test.com"));
    assert_eq!(td.employees.as_deref(), Some("1000"));
}
