//! The configured ticker universe.
//!
//! The configuration file itself is read and written outside the crate;
//! here live the value, its built-in fallback, and the concatenation of
//! the two ticker lists that one batch processes.

use vstd::prelude::*;
use vstd::string::StringExecFns;

verus! {

/// The ticker universe, split by venue.
pub struct Config {
    pub non_us_tickers: Vec<String>,
    pub us_tickers: Vec<String>,
}

impl Default for Config {
    /// The built-in fallback universe.
    fn default() -> (c: Config)
        ensures
            c.non_us_tickers@.len() == 3,
            c.non_us_tickers@[0]@ == "C.PA"@,
            c.non_us_tickers@[1]@ == "LVMH.PA"@,
            c.non_us_tickers@[2]@ == "ITX.MC"@,
            c.us_tickers@.len() == 3,
            c.us_tickers@[0]@ == "NKE"@,
            c.us_tickers@[1]@ == "TJX"@,
            c.us_tickers@[2]@ == "VFC"@,
    {
        let mut non_us: Vec<String> = Vec::new();
        non_us.push(String::from_str("C.PA"));
        non_us.push(String::from_str("LVMH.PA"));
        non_us.push(String::from_str("ITX.MC"));
        let mut us: Vec<String> = Vec::new();
        us.push(String::from_str("NKE"));
        us.push(String::from_str("TJX"));
        us.push(String::from_str("VFC"));
        Config { non_us_tickers: non_us, us_tickers: us }
    }
}

impl Config {
    /// The whole universe one batch processes: the non-US tickers followed
    /// by the US ones.
    pub fn all_tickers(&self) -> (r: Vec<String>)
        ensures
            r@.map_values(|s: String| s@) == (self.non_us_tickers@ + self.us_tickers@).map_values(
                |s: String| s@,
            ),
            r@.len() == self.non_us_tickers@.len() + self.us_tickers@.len(),
    {
        let mut r: Vec<String> = Vec::new();
        let n1 = self.non_us_tickers.len();
        let mut i: usize = 0;
        while i < n1
            invariant
                n1 == self.non_us_tickers@.len(),
                0 <= i <= n1,
                r@.len() == i,
                forall|k: int|
                    0 <= k < i ==> (#[trigger] r@[k]@) == self.non_us_tickers@[k]@,
            decreases n1 - i,
        {
            r.push(self.non_us_tickers[i].clone());
            i += 1;
        }
        let n2 = self.us_tickers.len();
        let mut j: usize = 0;
        while j < n2
            invariant
                n1 == self.non_us_tickers@.len(),
                n2 == self.us_tickers@.len(),
                0 <= j <= n2,
                r@.len() == n1 + j,
                forall|k: int|
                    0 <= k < n1 ==> (#[trigger] r@[k]@) == self.non_us_tickers@[k]@,
                forall|k: int|
                    0 <= k < j ==> (#[trigger] r@[n1 + k]@) == self.us_tickers@[k]@,
            decreases n2 - j,
        {
            r.push(self.us_tickers[j].clone());
            j += 1;
        }
        proof {
            let whole = self.non_us_tickers@ + self.us_tickers@;
            assert forall|k: int| 0 <= k < whole.len() implies (#[trigger] r@[k])@ == whole[k]@ by {
                if k < n1 {
                    assert(whole[k] == self.non_us_tickers@[k]);
                } else {
                    assert(whole[k] == self.us_tickers@[k - n1]);
                    assert(r@[n1 + (k - n1)]@ == self.us_tickers@[k - n1]@);
                }
            }
            assert(r@.map_values(|s: String| s@) =~= whole.map_values(|s: String| s@));
        }
        r
    }
}

} // verus!
