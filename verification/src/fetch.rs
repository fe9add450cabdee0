//! Folding one ticker's provider responses into an instrument record.
//!
//! The profile, ratios and income-statement calls run concurrently outside
//! the crate; their parsed results come in here as plain values.  The
//! profile is load-bearing: if it failed or came back empty the whole fetch
//! fails.  Ratios and income statement are optional; their absence leaves
//! fields unset.  Monetary fields and ratios are integers in micro-units;
//! the revenue is converted to USD through the rate graph as part of the
//! fold, and market capitalization is converted when a record is turned
//! into a row for storage.

use vstd::prelude::*;
use vstd::string::StringExecFns;

use crate::rates::convert_currency;
use crate::rates::convert_spec;
use crate::rates::convertible;
use crate::rates::RateTable;
use crate::retry::FetchError;

verus! {

/// A company profile row, as the provider reports it.
pub struct FMPCompanyProfile {
    pub symbol: String,
    pub company_name: String,
    /// Market capitalization in micro-units of `currency`.
    pub market_cap: u64,
    pub description: String,
    pub website: String,
    pub employees: Option<String>,
    /// Share price in micro-units of `currency`.
    pub price: u64,
    pub currency: String,
    pub exchange: String,
    pub is_active: bool,
}

/// A financial-ratios row; each ratio is in millionths.
pub struct FMPRatios {
    pub symbol: String,
    pub current_ratio: Option<i64>,
    pub quick_ratio: Option<i64>,
    pub eps: Option<i64>,
    pub price_earnings_ratio: Option<i64>,
    pub debt_equity_ratio: Option<i64>,
    pub return_on_equity: Option<i64>,
}

/// An income-statement row; revenue in micro-units of the report currency.
pub struct FMPIncomeStatement {
    pub date: String,
    pub symbol: String,
    pub revenue: Option<u64>,
}

/// One instrument's finished record.  Monetary fields and ratios are in
/// micro-units; `extra` is an open list for provider fields not otherwise
/// modeled.  Immutable once handed to the batch collector.
pub struct Details {
    pub ticker: String,
    pub market_cap: Option<u64>,
    pub name: Option<String>,
    pub currency_name: Option<String>,
    pub currency_symbol: Option<String>,
    pub active: Option<bool>,
    pub description: Option<String>,
    pub homepage_url: Option<String>,
    pub weighted_shares_outstanding: Option<u64>,
    pub employees: Option<String>,
    pub revenue: Option<u64>,
    pub revenue_usd: Option<u64>,
    pub timestamp: Option<String>,
    pub working_capital_ratio: Option<i64>,
    pub quick_ratio: Option<i64>,
    pub eps: Option<i64>,
    pub pe_ratio: Option<i64>,
    pub debt_equity_ratio: Option<i64>,
    pub roe: Option<i64>,
    pub exchange: Option<String>,
    pub price: Option<u64>,
    pub extra: Vec<(String, String)>,
}

/// Guard a ticker before any request is issued: an empty ticker cannot
/// resolve and fails up front as a definitive "not found" (the error
/// taxonomy has no separate class for it).
pub fn require_ticker(ticker: &String) -> (r: Result<(), FetchError>)
    ensures
        (r is Err) == (ticker@.len() == 0),
        r matches Err(e) ==> e is MissingData,
{
    if ticker.as_str().is_empty() {
        Err(FetchError::MissingData)
    } else {
        Ok(())
    }
}

/// Fold the outcomes of the three per-ticker provider calls into one
/// record.  A failed or empty profile fails the fetch (`MissingData` for
/// the empty case); failed or empty ratios and income statements only
/// leave their fields unset.  Revenue, when present, is also converted to
/// USD against `rate_map`.
pub fn build_record(
    profiles: Result<Vec<FMPCompanyProfile>, FetchError>,
    ratios: Result<Vec<FMPRatios>, FetchError>,
    incomes: Result<Vec<FMPIncomeStatement>, FetchError>,
    timestamp: String,
    rate_map: &RateTable,
) -> (r: Result<Details, FetchError>)
    ensures
        profiles matches Err(e) ==> (r matches Err(e2) && e2 == e),
        profiles matches Ok(ps) ==> (ps@.len() == 0 ==> (r matches Err(e) && e is MissingData)),
        profiles matches Ok(ps) ==> (ps@.len() > 0 ==> (r matches Ok(d) && {
            let p = ps@[0];
            &&& d.ticker == p.symbol
            &&& d.market_cap == Some(p.market_cap)
            &&& d.name == Some(p.company_name)
            &&& d.currency_name == Some(p.currency)
            &&& d.currency_symbol == Some(p.currency)
            &&& d.active == Some(p.is_active)
            &&& d.description == Some(p.description)
            &&& d.homepage_url == Some(p.website)
            &&& d.weighted_shares_outstanding is None
            &&& d.employees == p.employees
            &&& d.timestamp == Some(timestamp)
            &&& d.exchange == Some(p.exchange)
            &&& d.price == Some(p.price)
            &&& d.extra@.len() == 0
            &&& d.working_capital_ratio == (match ratios {
                Ok(rs) => if rs@.len() > 0 { rs@[0].current_ratio } else { None },
                Err(_) => None,
            })
            &&& d.quick_ratio == (match ratios {
                Ok(rs) => if rs@.len() > 0 { rs@[0].quick_ratio } else { None },
                Err(_) => None,
            })
            &&& d.eps == (match ratios {
                Ok(rs) => if rs@.len() > 0 { rs@[0].eps } else { None },
                Err(_) => None,
            })
            &&& d.pe_ratio == (match ratios {
                Ok(rs) => if rs@.len() > 0 { rs@[0].price_earnings_ratio } else { None },
                Err(_) => None,
            })
            &&& d.debt_equity_ratio == (match ratios {
                Ok(rs) => if rs@.len() > 0 { rs@[0].debt_equity_ratio } else { None },
                Err(_) => None,
            })
            &&& d.roe == (match ratios {
                Ok(rs) => if rs@.len() > 0 { rs@[0].return_on_equity } else { None },
                Err(_) => None,
            })
            &&& d.revenue == (match incomes {
                Ok(is_) => if is_@.len() > 0 { is_@[0].revenue } else { None },
                Err(_) => None,
            })
            &&& d.revenue is None ==> d.revenue_usd is None
            &&& d.revenue matches Some(v) ==> (d.revenue_usd matches Some(u) && u as int
                == convert_spec(rate_map@, v as int, p.currency@, "USD"@))
        })),
{
    let mut ps = match profiles {
        Ok(ps) => ps,
        Err(e) => {
            return Err(e);
        },
    };
    if ps.len() == 0 {
        return Err(FetchError::MissingData);
    }
    let p = ps.remove(0);

    let (wcr, qr, eps_v, pe, de, roe_v) = match &ratios {
        Ok(rs) => {
            if rs.len() > 0 {
                (
                    rs[0].current_ratio,
                    rs[0].quick_ratio,
                    rs[0].eps,
                    rs[0].price_earnings_ratio,
                    rs[0].debt_equity_ratio,
                    rs[0].return_on_equity,
                )
            } else {
                (None, None, None, None, None, None)
            }
        },
        Err(_) => (None, None, None, None, None, None),
    };
    let revenue: Option<u64> = match &incomes {
        Ok(is_) => {
            if is_.len() > 0 {
                is_[0].revenue
            } else {
                None
            }
        },
        Err(_) => None,
    };
    let usd = String::from_str("USD");
    let revenue_usd: Option<u64> = match revenue {
        Some(v) => Some(convert_currency(v, &p.currency, &usd, rate_map)),
        None => None,
    };

    Ok(
        Details {
            ticker: p.symbol,
            market_cap: Some(p.market_cap),
            name: Some(p.company_name),
            currency_name: Some(p.currency.clone()),
            currency_symbol: Some(p.currency),
            active: Some(p.is_active),
            description: Some(p.description),
            homepage_url: Some(p.website),
            weighted_shares_outstanding: None,
            employees: p.employees,
            revenue,
            revenue_usd,
            timestamp: Some(timestamp),
            working_capital_ratio: wcr,
            quick_ratio: qr,
            eps: eps_v,
            pe_ratio: pe,
            debt_equity_ratio: de,
            roe: roe_v,
            exchange: Some(p.exchange),
            price: Some(p.price),
            extra: Vec::new(),
        },
    )
}

/// The textual default for numeric provider fields that arrive as strings.
pub fn default_string() -> (s: String)
    ensures
        s@ == "0"@,
{
    String::from_str("0")
}

/// One stored row of market capitalizations, converted for reporting.
pub struct MarketCapRecord {
    pub ticker: String,
    pub name: String,
    /// In micro-units of `original_currency`; zero when the record had none.
    pub market_cap_original: u64,
    pub original_currency: String,
    pub market_cap_eur: u64,
    pub market_cap_usd: u64,
    pub exchange: String,
    pub active: bool,
    pub api_timestamp: i64,
    /// Set when a conversion found no route and fell back to the
    /// unconverted amount, so the EUR or USD figure is not really in that
    /// currency.
    pub conversion_incomplete: bool,
}

/// The row that one record contributes to the market-capitalization store:
/// the original figure plus its EUR and USD conversions against `rate_map`,
/// with absent optional fields defaulted as empty, zero or active.
pub fn market_cap_record(details: &Details, rate_map: &RateTable, api_timestamp: i64) -> (r:
    MarketCapRecord)
    ensures
        r.ticker == details.ticker,
        r.name@ == (match details.name {
            Some(n) => n@,
            None => Seq::<char>::empty(),
        }),
        r.market_cap_original == (match details.market_cap {
            Some(m) => m,
            None => 0u64,
        }),
        r.original_currency@ == (match details.currency_symbol {
            Some(c) => c@,
            None => Seq::<char>::empty(),
        }),
        r.market_cap_eur as int == convert_spec(
            rate_map@,
            r.market_cap_original as int,
            r.original_currency@,
            "EUR"@,
        ),
        r.market_cap_usd as int == convert_spec(
            rate_map@,
            r.market_cap_original as int,
            r.original_currency@,
            "USD"@,
        ),
        r.exchange@ == (match details.exchange {
            Some(e) => e@,
            None => Seq::<char>::empty(),
        }),
        r.active == (match details.active {
            Some(a) => a,
            None => true,
        }),
        r.api_timestamp == api_timestamp,
        r.conversion_incomplete == !(convertible(rate_map@, r.original_currency@, "EUR"@)
            && convertible(rate_map@, r.original_currency@, "USD"@)),
{
    let market_cap_original: u64 = match &details.market_cap {
        Some(m) => *m,
        None => 0,
    };
    let original_currency: String = match &details.currency_symbol {
        Some(c) => c.clone(),
        None => String::new(),
    };
    let name: String = match &details.name {
        Some(n) => n.clone(),
        None => String::new(),
    };
    let exchange: String = match &details.exchange {
        Some(e) => e.clone(),
        None => String::new(),
    };
    let active: bool = match &details.active {
        Some(a) => *a,
        None => true,
    };
    let eur = String::from_str("EUR");
    let usd = String::from_str("USD");
    let market_cap_eur = convert_currency(market_cap_original, &original_currency, &eur, rate_map);
    let market_cap_usd = convert_currency(market_cap_original, &original_currency, &usd, rate_map);
    let conversion_incomplete = !(rate_map.has_conversion(&original_currency, &eur)
        && rate_map.has_conversion(&original_currency, &usd));
    MarketCapRecord {
        ticker: details.ticker.clone(),
        name,
        market_cap_original,
        original_currency,
        market_cap_eur,
        market_cap_usd,
        exchange,
        active,
        api_timestamp,
        conversion_incomplete,
    }
}

/// The descriptive fields kept per ticker alongside the figures.
pub struct TickerDetails {
    pub ticker: String,
    pub description: Option<String>,
    pub homepage_url: Option<String>,
    pub employees: Option<String>,
}

/// The descriptive row that one record contributes to the ticker store.
pub fn ticker_details_record(details: &Details) -> (r: TickerDetails)
    ensures
        r.ticker == details.ticker,
        r.description == details.description,
        r.homepage_url == details.homepage_url,
        r.employees == details.employees,
{
    TickerDetails {
        ticker: details.ticker.clone(),
        description: match &details.description {
            Some(d) => Some(d.clone()),
            None => None,
        },
        homepage_url: match &details.homepage_url {
            Some(u) => Some(u.clone()),
            None => None,
        },
        employees: match &details.employees {
            Some(e) => Some(e.clone()),
            None => None,
        },
    }
}

/// Rows ordered by EUR market capitalization, largest first.
pub open spec fn sorted_by_eur_desc(s: Seq<MarketCapRecord>) -> bool {
    forall|i: int, j: int|
        0 <= i < j < s.len() ==> s[i].market_cap_eur >= s[j].market_cap_eur
}

/// Sort rows by EUR market capitalization, largest first: the explicit
/// ordering a caller applies before reporting, since batch collection
/// itself promises none.
pub fn sort_by_market_cap_desc(rows: Vec<MarketCapRecord>) -> (r: Vec<MarketCapRecord>)
    ensures
        sorted_by_eur_desc(r@),
        r@.to_multiset() == rows@.to_multiset(),
        r@.len() == rows@.len(),
{
    broadcast use vstd::seq_lib::group_to_multiset_ensures;
    broadcast use vstd::multiset::group_multiset_axioms;

    let mut rest = rows;
    let mut out: Vec<MarketCapRecord> = Vec::new();
    proof {
        assert(out@.to_multiset().add(rest@.to_multiset()) =~= rest@.to_multiset());
    }
    let ghost whole: Seq<MarketCapRecord> = rest@;
    while rest.len() > 0
        invariant
            out@.to_multiset().add(rest@.to_multiset()) == whole.to_multiset(),
            out@.len() + rest@.len() == whole.len(),
            sorted_by_eur_desc(out@),
            forall|k: int, l: int|
                0 <= k < out@.len() && 0 <= l < rest@.len() ==> out@[k].market_cap_eur
                    >= rest@[l].market_cap_eur,
        decreases rest@.len(),
    {
        let n = rest.len();
        let mut m: usize = 0;
        let mut j: usize = 1;
        while j < n
            invariant
                n == rest@.len(),
                0 <= m < j <= n,
                forall|k: int|
                    0 <= k < j ==> rest@[m as int].market_cap_eur >= (#[trigger] rest@[
                    k]).market_cap_eur,
            decreases n - j,
        {
            if rest[j].market_cap_eur > rest[m].market_cap_eur {
                m = j;
            }
            j += 1;
        }
        let ghost old_out: Seq<MarketCapRecord> = out@;
        let ghost old_rest: Seq<MarketCapRecord> = rest@;
        let x = rest.remove(m);
        out.push(x);
        proof {
            assert(rest@ == old_rest.remove(m as int));
            vstd::seq_lib::to_multiset_remove(old_rest, m as int);
            vstd::seq_lib::to_multiset_build(old_out, x);
            vstd::seq_lib::to_multiset_contains(old_rest, old_rest[m as int]);
            assert(old_rest.contains(old_rest[m as int])) by {
                assert(old_rest[m as int] == old_rest[m as int]);
            }
            assert(old_rest.to_multiset().count(old_rest[m as int]) > 0);
            assert(out@.to_multiset().add(rest@.to_multiset()) =~= old_out.to_multiset().add(
                old_rest.to_multiset(),
            ));
            assert forall|k: int, l: int|
                0 <= k < out@.len() && 0 <= l < rest@.len() implies out@[k].market_cap_eur
                >= rest@[l].market_cap_eur by {
                if l < m {
                    assert(rest@[l] == old_rest[l]);
                } else {
                    assert(rest@[l] == old_rest[l + 1]);
                }
            }
        }
    }
    out
}

/// The rows still marked active, in order.
pub open spec fn active_of(s: Seq<MarketCapRecord>) -> Seq<MarketCapRecord>
    decreases s.len(),
{
    if s.len() == 0 {
        Seq::empty()
    } else {
        let pre = active_of(s.drop_last());
        if s.last().active {
            pre.push(s.last())
        } else {
            pre
        }
    }
}

/// A lower bound on every row carries over to the active rows.
proof fn lemma_active_of_min_bound(s: Seq<MarketCapRecord>, b: int)
    requires
        forall|j: int| 0 <= j < s.len() ==> (#[trigger] s[j]).market_cap_eur >= b,
    ensures
        forall|k: int|
            0 <= k < active_of(s).len() ==> (#[trigger] active_of(s)[k]).market_cap_eur >= b,
        active_of(s).len() <= s.len(),
    decreases s.len(),
{
    if s.len() > 0 {
        lemma_active_of_min_bound(s.drop_last(), b);
    }
}

/// Filtering to the active rows keeps the descending order.
proof fn lemma_active_of_sorted(s: Seq<MarketCapRecord>)
    requires
        sorted_by_eur_desc(s),
    ensures
        sorted_by_eur_desc(active_of(s)),
    decreases s.len(),
{
    if s.len() > 0 {
        assert forall|j: int|
            0 <= j < s.drop_last().len() implies (#[trigger] s.drop_last()[j]).market_cap_eur
            >= s.last().market_cap_eur by {
            assert(s.drop_last()[j] == s[j]);
        }
        lemma_active_of_sorted(s.drop_last());
        lemma_active_of_min_bound(s.drop_last(), s.last().market_cap_eur as int);
    }
}

/// At most `limit` of the active rows, in their incoming order; applied to
/// sorted rows this is the top of the active universe, and the order is
/// kept.
pub fn top_active(rows: Vec<MarketCapRecord>, limit: usize) -> (r: Vec<MarketCapRecord>)
    ensures
        active_of(rows@).len() <= limit ==> r@ == active_of(rows@),
        active_of(rows@).len() > limit ==> r@ == active_of(rows@).take(limit as int),
        sorted_by_eur_desc(rows@) ==> sorted_by_eur_desc(r@),
{
    let ghost orig: Seq<MarketCapRecord> = rows@;
    let mut rest = rows;
    let mut kept: Vec<MarketCapRecord> = Vec::new();
    while rest.len() > 0
        invariant
            rest@.len() <= orig.len(),
            rest@ == orig.subrange(orig.len() - rest@.len(), orig.len() as int),
            kept@ == active_of(orig.subrange(0, orig.len() - rest@.len())),
        decreases rest@.len(),
    {
        let ghost done: int = orig.len() - rest@.len();
        let row = rest.remove(0);
        proof {
            assert(rest@ =~= orig.subrange(done + 1, orig.len() as int));
            assert(orig.subrange(0, done + 1).drop_last() =~= orig.subrange(0, done));
            assert(orig.subrange(0, done + 1).last() == orig[done]);
        }
        if row.active {
            kept.push(row);
        }
    }
    proof {
        assert(orig.subrange(0, orig.len() as int) =~= orig);
        if sorted_by_eur_desc(orig) {
            lemma_active_of_sorted(orig);
        }
    }
    kept.truncate(limit);
    proof {
        if active_of(orig).len() > limit {
            assert(active_of(orig).take(limit as int) =~= active_of(orig).subrange(
                0,
                limit as int,
            ));
        }
    }
    kept
}

} // verus!
