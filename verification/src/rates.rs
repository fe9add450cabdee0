//! The currency rate graph.
//!
//! Exchange rates are exact rationals (`Rate`), stored as directed edges
//! `from -> to` in insertion order.  Conversion prefers a direct edge, then
//! the reverse edge used reciprocally, then a two-leg route through a hub
//! currency, and finally falls back to returning the amount unchanged, so a
//! missing rate never aborts a batch.  A graph built from a quote feed also
//! stores synthesized reverse and composite edges, so longer routes resolve
//! through them.  Minor-unit codes (pence, South-African cents) are rescaled
//! around the lookup and never stored in the graph.
//!
//! Amounts are integers in micro-units of their currency.

use vstd::prelude::*;
use vstd::string::StringExecFns;

verus! {

/// Denominator that turns a rate quoted in millionths into a rational.
pub const RATE_UNIT: u64 = 1_000_000;

/// Bound on a stored rate's numerator and denominator: a product of two
/// parts must fit `u64` and an amount times such a product must fit
/// `u128`, which caps the parts just under `2^32`.  A quote is reduced by
/// common factors of ten before the bound applies, so coarse large rates
/// (a yen- or rupiah-style 16000.0) are stored exactly; only rates both
/// above 4000 and quoted to the full six decimals are refused.
pub const RATE_PART_MAX: u64 = 4_000_000_000;

/// Minor units per major unit for the scaled subunit codes.
pub const SUBUNIT_SCALE: u64 = 100;

/// An exchange rate, the exact rational `num / den`.
#[derive(Clone, Copy, PartialEq, Eq, Structural, Debug)]
pub struct Rate {
    pub num: u64,
    pub den: u64,
}

/// A rate the graph accepts: positive and small enough that conversion
/// arithmetic cannot overflow `u128`.
pub open spec fn rate_ok(r: Rate) -> bool {
    1 <= r.num <= RATE_PART_MAX && 1 <= r.den <= RATE_PART_MAX
}

impl Rate {
    /// The rate `micros / 1_000_000`, e.g. `from_micros(1_080_000)` for 1.08.
    pub fn from_micros(micros: u64) -> (r: Rate)
        requires
            1 <= micros <= RATE_PART_MAX,
        ensures
            r.num == micros,
            r.den == RATE_UNIT,
            rate_ok(r),
    {
        Rate { num: micros, den: RATE_UNIT }
    }

    /// The rate `num / den`.
    pub fn new(num: u64, den: u64) -> (r: Rate)
        requires
            1 <= num <= RATE_PART_MAX,
            1 <= den <= RATE_PART_MAX,
        ensures
            r.num == num,
            r.den == den,
            rate_ok(r),
    {
        Rate { num, den }
    }
}

/// One directed edge of the graph: `from -> to` at `rate`.
#[derive(Debug)]
pub struct RateEntry {
    pub from: String,
    pub to: String,
    pub rate: Rate,
}

/// An edge the graph accepts: a valid rate between two distinct codes.
pub open spec fn entry_ok(e: RateEntry) -> bool {
    rate_ok(e.rate) && e.from@ != e.to@
}

/// Every edge is acceptable and no ordered pair of codes appears twice.
pub open spec fn table_wf(s: Seq<RateEntry>) -> bool {
    &&& forall|i: int| 0 <= i < s.len() ==> entry_ok(#[trigger] s[i])
    &&& forall|i: int, j: int|
        0 <= i < j < s.len() ==> !(s[i].from@ == s[j].from@ && s[i].to@ == s[j].to@)
}

pub open spec fn pair_matches(e: RateEntry, f: Seq<char>, t: Seq<char>) -> bool {
    e.from@ == f && e.to@ == t
}

/// Index of the first edge `f -> t` at or after position `i`, if any.
pub open spec fn find_from(s: Seq<RateEntry>, i: int, f: Seq<char>, t: Seq<char>) -> Option<int>
    decreases s.len() - i,
{
    if i < 0 || i >= s.len() {
        None
    } else if pair_matches(s[i], f, t) {
        Some(i)
    } else {
        find_from(s, i + 1, f, t)
    }
}

/// Index of the first edge `f -> t`, if any.
pub open spec fn find_pair(s: Seq<RateEntry>, f: Seq<char>, t: Seq<char>) -> Option<int> {
    find_from(s, 0, f, t)
}

/// The table after storing `e`: an existing edge for the same pair is
/// replaced in place, otherwise `e` is appended; an unacceptable edge
/// leaves the table unchanged.
pub open spec fn spec_insert(s: Seq<RateEntry>, e: RateEntry) -> Seq<RateEntry> {
    if !entry_ok(e) {
        s
    } else {
        match find_pair(s, e.from@, e.to@) {
            Some(i) => s.update(i, e),
            None => s.push(e),
        }
    }
}

/// The rate graph: known edges in insertion order.
pub struct RateTable {
    entries: Vec<RateEntry>,
}

impl View for RateTable {
    type V = Seq<RateEntry>;

    closed spec fn view(&self) -> Seq<RateEntry> {
        self.entries@
    }
}

impl RateTable {
    #[verifier::type_invariant]
    spec fn inv(self) -> bool {
        table_wf(self.entries@)
    }

    /// An empty graph.
    pub fn new() -> (t: Self)
        ensures
            t@ == Seq::<RateEntry>::empty(),
    {
        let t = RateTable { entries: Vec::new() };
        proof {
            assert(t.entries@ =~= Seq::<RateEntry>::empty());
        }
        t
    }

    /// How many edges are stored.
    pub fn len(&self) -> (n: usize)
        ensures
            n == self@.len(),
    {
        self.entries.len()
    }

    /// Store the edge `from -> to` at `rate`.  Returns whether the edge was
    /// accepted; an edge between identical codes or with a rate outside the
    /// accepted range is refused and the table is left as it was.
    pub fn insert(&mut self, from: String, to: String, rate: Rate) -> (accepted: bool)
        ensures
            final(self)@ == spec_insert(old(self)@, (RateEntry { from: from, to: to, rate: rate })),
            accepted == entry_ok((RateEntry { from: from, to: to, rate: rate })),
            table_wf(final(self)@),
    {
        proof {
            use_type_invariant(&*self);
        }
        let rate_in_range = 1 <= rate.num && rate.num <= RATE_PART_MAX && 1 <= rate.den
            && rate.den <= RATE_PART_MAX;
        if !rate_in_range || from == to {
            return false;
        }
        let entry = RateEntry { from, to, rate };
        let at = self.position(&entry.from, &entry.to);
        let mut entries: Vec<RateEntry> = Vec::new();
        core::mem::swap(&mut entries, &mut self.entries);
        let ghost old_entries: Seq<RateEntry> = entries@;
        match at {
            Some(i) => {
                proof {
                    assert(find_pair(old_entries, entry.from@, entry.to@) is Some);
                    lemma_find_index_matches(old_entries, 0, entry.from@, entry.to@);
                    assert(find_pair(old_entries, entry.from@, entry.to@)->Some_0 == i as int);
                }
                entries.set(i, entry);
                proof {
                    assert(pair_matches(old_entries[i as int], entry.from@, entry.to@));
                    assert forall|p: int, q: int|
                        0 <= p < q < entries@.len() implies !(entries@[p].from@ == entries@[q].from@
                        && entries@[p].to@ == entries@[q].to@) by {
                        assert(entries@[i as int].from@ == old_entries[i as int].from@);
                        assert(entries@[i as int].to@ == old_entries[i as int].to@);
                    }
                }
            },
            None => {
                entries.push(entry);
                proof {
                    lemma_find_none_no_match(old_entries, entry.from@, entry.to@);
                }
            },
        }
        core::mem::swap(&mut entries, &mut self.entries);
        true
    }

    /// First stored rate for exactly `f -> t`, if any.
    fn position(&self, f: &String, t: &String) -> (r: Option<usize>)
        ensures
            r is Some ==> find_pair(self@, f@, t@) == Some(r->Some_0 as int),
            r is None ==> find_pair(self@, f@, t@) is None,
    {
        let n = self.entries.len();
        let mut i: usize = 0;
        while i < n
            invariant
                n == self.entries@.len(),
                0 <= i <= n,
                forall|k: int| 0 <= k < i ==> !pair_matches(#[trigger] self.entries@[k], f@, t@),
            decreases n - i,
        {
            if self.entries[i].from == *f && self.entries[i].to == *t {
                proof {
                    lemma_find_skip(self.entries@, i as int, f@, t@);
                }
                return Some(i);
            }
            i += 1;
        }
        proof {
            lemma_find_skip(self.entries@, n as int, f@, t@);
        }
        None
    }

    /// Store the edge only if no edge for its pair exists yet; an existing
    /// edge is never replaced.  Quoted rates therefore survive synthesis.
    fn insert_if_absent(&mut self, from: String, to: String, rate: Rate) -> (added: bool)
        ensures
            added == (entry_ok((RateEntry { from: from, to: to, rate: rate })) && find_pair(
                old(self)@,
                from@,
                to@,
            ) is None),
            added ==> final(self)@ == old(self)@.push(
                (RateEntry { from: from, to: to, rate: rate }),
            ),
            added ==> find_pair(final(self)@, from@, to@) == Some(old(self)@.len() as int),
            !added ==> final(self)@ == old(self)@,
            entry_ok((RateEntry { from: from, to: to, rate: rate })) ==> find_pair(
                final(self)@,
                from@,
                to@,
            ) is Some,
            table_wf(final(self)@),
    {
        proof {
            use_type_invariant(&*self);
        }
        let rate_in_range = 1 <= rate.num && rate.num <= RATE_PART_MAX && 1 <= rate.den
            && rate.den <= RATE_PART_MAX;
        if !rate_in_range || from == to {
            return false;
        }
        let entry = RateEntry { from, to, rate };
        match self.position(&entry.from, &entry.to) {
            Some(_at) => false,
            None => {
                let mut entries: Vec<RateEntry> = Vec::new();
                core::mem::swap(&mut entries, &mut self.entries);
                let ghost old_entries: Seq<RateEntry> = entries@;
                entries.push(entry);
                proof {
                    lemma_find_none_no_match(old_entries, entry.from@, entry.to@);
                    lemma_find_from_push(
                        old_entries,
                        entries@.last(),
                        0,
                        entry.from@,
                        entry.to@,
                    );
                }
                core::mem::swap(&mut entries, &mut self.entries);
                true
            },
        }
    }
}

/// `find_pair` ignores a prefix in which nothing matches.
/// A found match has no earlier match.
proof fn lemma_find_from_first(s: Seq<RateEntry>, i: int, f: Seq<char>, t: Seq<char>)
    requires
        0 <= i,
        find_from(s, i, f, t) is Some,
    ensures
        forall|k: int|
            i <= k < find_from(s, i, f, t)->Some_0 ==> !pair_matches(#[trigger] s[k], f, t),
    decreases s.len() - i,
{
    if i < s.len() && !pair_matches(s[i], f, t) {
        lemma_find_from_first(s, i + 1, f, t);
    }
}

/// A lookup that succeeds keeps its index when the table is extended at
/// the end.
proof fn lemma_find_extend(s1: Seq<RateEntry>, s2: Seq<RateEntry>, f: Seq<char>, t: Seq<char>)
    requires
        s1.len() <= s2.len(),
        forall|k: int| 0 <= k < s1.len() ==> s2[k] == s1[k],
        find_pair(s1, f, t) is Some,
    ensures
        find_pair(s2, f, t) == find_pair(s1, f, t),
{
    lemma_find_index_matches(s1, 0, f, t);
    lemma_find_from_first(s1, 0, f, t);
    let i = find_pair(s1, f, t)->Some_0;
    assert forall|k: int| 0 <= k < i implies !pair_matches(#[trigger] s2[k], f, t) by {
        assert(s2[k] == s1[k]);
    }
    lemma_find_skip(s2, i, f, t);
    assert(pair_matches(s2[i], f, t));
}

proof fn lemma_find_skip(s: Seq<RateEntry>, j: int, f: Seq<char>, t: Seq<char>)
    requires
        0 <= j <= s.len(),
        forall|k: int| 0 <= k < j ==> !pair_matches(#[trigger] s[k], f, t),
    ensures
        find_pair(s, f, t) == find_from(s, j, f, t),
    decreases j,
{
    if j > 0 {
        lemma_find_skip(s, j - 1, f, t);
    }
}

/// A found index lies in range and matches the pair searched for.
proof fn lemma_find_index_matches(s: Seq<RateEntry>, i: int, f: Seq<char>, t: Seq<char>)
    requires
        0 <= i,
        find_from(s, i, f, t) is Some,
    ensures
        i <= find_from(s, i, f, t)->Some_0 < s.len(),
        pair_matches(s[find_from(s, i, f, t)->Some_0], f, t),
    decreases s.len() - i,
{
    if i < s.len() && !pair_matches(s[i], f, t) {
        lemma_find_index_matches(s, i + 1, f, t);
    }
}

/// When `find_pair` fails, no edge matches.
proof fn lemma_find_none_no_match(s: Seq<RateEntry>, f: Seq<char>, t: Seq<char>)
    requires
        find_pair(s, f, t) is None,
    ensures
        forall|k: int| 0 <= k < s.len() ==> !pair_matches(#[trigger] s[k], f, t),
{
    assert forall|k: int| 0 <= k < s.len() implies !pair_matches(#[trigger] s[k], f, t) by {
        if pair_matches(s[k], f, t) {
            lemma_find_some_before(s, 0, k, f, t);
        }
    }
}

/// A match at `k` forces `find_from` from an earlier point to succeed.
proof fn lemma_find_some_before(s: Seq<RateEntry>, i: int, k: int, f: Seq<char>, t: Seq<char>)
    requires
        0 <= i <= k < s.len(),
        pair_matches(s[k], f, t),
    ensures
        find_from(s, i, f, t) is Some,
    decreases k - i,
{
    if i < k && !pair_matches(s[i], f, t) {
        lemma_find_some_before(s, i + 1, k, f, t);
    }
}

/// Major-unit code that a minor-unit or alternative code stands for.
pub open spec fn alias_major(c: Seq<char>) -> Seq<char> {
    if c == "GBp"@ {
        "GBP"@
    } else if c == "ZAc"@ {
        "ZAR"@
    } else if c == "ILA"@ {
        "ILS"@
    } else {
        c
    }
}

/// Minor units per major unit for `c`: 100 for the scaled subunit codes,
/// otherwise 1.
pub open spec fn alias_scale(c: Seq<char>) -> int {
    if c == "GBp"@ || c == "ZAc"@ {
        SUBUNIT_SCALE as int
    } else {
        1
    }
}

/// Rate for the second leg `h -> t` of a hub route: the direct edge, or the
/// reverse edge `t -> h` used reciprocally.
pub open spec fn leg_rate(s: Seq<RateEntry>, h: Seq<char>, t: Seq<char>) -> Option<(int, int)> {
    if find_pair(s, h, t) is Some {
        let i = find_pair(s, h, t)->Some_0;
        Some((s[i].rate.num as int, s[i].rate.den as int))
    } else if find_pair(s, t, h) is Some {
        let i = find_pair(s, t, h)->Some_0;
        Some((s[i].rate.den as int, s[i].rate.num as int))
    } else {
        None
    }
}

/// Rate of the first hub route at or after position `i`: the first edge
/// leaving `f` whose target currency also has a leg to `t`, combined
/// multiplicatively.
pub open spec fn hub_from(s: Seq<RateEntry>, i: int, f: Seq<char>, t: Seq<char>) -> Option<
    (int, int),
>
    decreases s.len() - i,
{
    if i < 0 || i >= s.len() {
        None
    } else if s[i].from@ == f && leg_rate(s, s[i].to@, t) is Some {
        let p = leg_rate(s, s[i].to@, t)->Some_0;
        Some((s[i].rate.num * p.0, s[i].rate.den * p.1))
    } else {
        hub_from(s, i + 1, f, t)
    }
}

/// Rate applied between distinct major codes, in order of preference:
/// direct edge, reverse edge reciprocally, then a hub route.
pub open spec fn route_rate(s: Seq<RateEntry>, f: Seq<char>, t: Seq<char>) -> Option<(int, int)> {
    if find_pair(s, f, t) is Some {
        let i = find_pair(s, f, t)->Some_0;
        Some((s[i].rate.num as int, s[i].rate.den as int))
    } else if find_pair(s, t, f) is Some {
        let i = find_pair(s, t, f)->Some_0;
        Some((s[i].rate.den as int, s[i].rate.num as int))
    } else {
        hub_from(s, 0, f, t)
    }
}

/// A converted value that no `u64` can hold falls back to the original
/// amount, the same fail-open policy as a missing rate.
pub open spec fn clamp_or_fallback(v: int, amount: int) -> int {
    if v > u64::MAX as int {
        amount
    } else {
        v
    }
}

/// What `convert_currency` returns: identical codes echo the amount; minor
/// units are rescaled around the lookup; a routed conversion multiplies by
/// the exact rational and floors; no route means the amount comes back
/// unchanged.
pub open spec fn convert_spec(
    s: Seq<RateEntry>,
    amount: int,
    from: Seq<char>,
    to: Seq<char>,
) -> int {
    if from == to {
        amount
    } else {
        let f = alias_major(from);
        let t = alias_major(to);
        let a1 = amount / alias_scale(from);
        if f == t {
            clamp_or_fallback(a1 * alias_scale(to), amount)
        } else {
            match route_rate(s, f, t) {
                Some(p) => clamp_or_fallback(a1 * p.0 / p.1 * alias_scale(to), amount),
                None => amount,
            }
        }
    }
}

/// Major code and subunit scale for `code`.
fn alias_of(code: &String) -> (r: (String, u64))
    ensures
        r.0@ == alias_major(code@),
        r.1 as int == alias_scale(code@),
        r.1 == 1 || r.1 == SUBUNIT_SCALE,
{
    let pence = String::from_str("GBp");
    let za_cents = String::from_str("ZAc");
    let ils_alt = String::from_str("ILA");
    if *code == pence {
        (String::from_str("GBP"), SUBUNIT_SCALE)
    } else if *code == za_cents {
        (String::from_str("ZAR"), SUBUNIT_SCALE)
    } else if *code == ils_alt {
        (String::from_str("ILS"), 1)
    } else {
        (code.clone(), 1)
    }
}

/// Floor of `a1 * n / d`, rescaled by `st`, clamped to the fallback policy.
fn apply_rate(amount: u64, a1: u64, n: u64, d: u64, st: u64) -> (r: u64)
    requires
        1 <= d,
        st == 1 || st == SUBUNIT_SCALE,
    ensures
        r as int == clamp_or_fallback(a1 as int * n as int / d as int * st as int, amount as int),
{
    proof {
        assert((a1 as u128) * (n as u128) <= (u64::MAX as u128) * (u64::MAX as u128))
            by (nonlinear_arith)
            requires
                a1 <= u64::MAX,
                n <= u64::MAX,
        ;
        assert((u64::MAX as u128) * (u64::MAX as u128) < u128::MAX);
    }
    let q: u128 = (a1 as u128) * (n as u128) / (d as u128);
    if q > u64::MAX as u128 {
        proof {
            assert(q * (st as u128) >= q * 1) by (nonlinear_arith)
                requires
                    st >= 1,
            ;
        }
        return amount;
    }
    proof {
        assert(q * (st as u128) <= (u64::MAX as u128) * (SUBUNIT_SCALE as u128))
            by (nonlinear_arith)
            requires
                q <= u64::MAX as u128,
                st <= SUBUNIT_SCALE,
        ;
        assert((u64::MAX as u128) * (SUBUNIT_SCALE as u128) < u128::MAX);
    }
    let v: u128 = q * (st as u128);
    if v > u64::MAX as u128 {
        return amount;
    }
    v as u64
}

impl RateTable {
    /// First stored rate for exactly `f -> t`, if any.
    fn find(&self, f: &String, t: &String) -> (r: Option<Rate>)
        ensures
            r is Some ==> find_pair(self@, f@, t@) is Some && r->Some_0 == self@[find_pair(
                self@,
                f@,
                t@,
            )->Some_0].rate && rate_ok(r->Some_0),
            r is None ==> find_pair(self@, f@, t@) is None,
    {
        proof {
            use_type_invariant(&*self);
        }
        match self.position(f, t) {
            Some(i) => {
                proof {
                    lemma_find_index_matches(self.entries@, 0, f@, t@);
                }
                Some(self.entries[i].rate)
            },
            None => None,
        }
    }

    /// Rate for the second leg `h -> t`, direct or reverse-reciprocal.
    fn leg(&self, h: &String, t: &String) -> (r: Option<(u64, u64)>)
        ensures
            (r is Some) == (leg_rate(self@, h@, t@) is Some),
            r matches Some(q) ==> leg_rate(self@, h@, t@) matches Some(p) && q.0 as int == p.0
                && q.1 as int == p.1 && 1 <= q.0 <= RATE_PART_MAX && 1 <= q.1 <= RATE_PART_MAX,
    {
        match self.find(h, t) {
            Some(rt) => Some((rt.num, rt.den)),
            None => match self.find(t, h) {
                Some(rt) => Some((rt.den, rt.num)),
                None => None,
            },
        }
    }

    /// Rate of the first hub route from `f` to `t`, if any.
    fn hub(&self, f: &String, t: &String) -> (r: Option<(u64, u64)>)
        ensures
            (r is Some) == (hub_from(self@, 0, f@, t@) is Some),
            r matches Some(q) ==> hub_from(self@, 0, f@, t@) matches Some(p) && q.0 as int == p.0
                && q.1 as int == p.1 && 1 <= q.0 && 1 <= q.1,
    {
        proof {
            use_type_invariant(&*self);
        }
        let n = self.entries.len();
        let mut i: usize = 0;
        while i < n
            invariant
                n == self.entries@.len(),
                0 <= i <= n,
                table_wf(self.entries@),
                forall|k: int|
                    0 <= k < i ==> !(#[trigger] self.entries@[k].from@ == f@ && leg_rate(
                        self.entries@,
                        self.entries@[k].to@,
                        t@,
                    ) is Some),
            decreases n - i,
        {
            if self.entries[i].from == *f {
                if let Some((n2, d2)) = self.leg(&self.entries[i].to, t) {
                    let e_num = self.entries[i].rate.num;
                    let e_den = self.entries[i].rate.den;
                    proof {
                        lemma_hub_skip(self.entries@, i as int, f@, t@);
                        assert(e_num * n2 <= RATE_PART_MAX * RATE_PART_MAX) by (nonlinear_arith)
                            requires
                                1 <= e_num <= RATE_PART_MAX,
                                1 <= n2 <= RATE_PART_MAX,
                        ;
                        assert(e_den * d2 <= RATE_PART_MAX * RATE_PART_MAX) by (nonlinear_arith)
                            requires
                                1 <= e_den <= RATE_PART_MAX,
                                1 <= d2 <= RATE_PART_MAX,
                        ;
                        assert(RATE_PART_MAX * RATE_PART_MAX < u64::MAX);
                        assert(e_num * n2 >= 1 && e_den * d2 >= 1) by (nonlinear_arith)
                            requires
                                1 <= e_num && 1 <= n2 && 1 <= e_den && 1 <= d2,
                        ;
                    }
                    return Some((e_num * n2, e_den * d2));
                }
            }
            i += 1;
        }
        proof {
            lemma_hub_skip(self.entries@, n as int, f@, t@);
        }
        None
    }
}

/// `hub_from` ignores a prefix in which no hub route starts.
proof fn lemma_hub_skip(s: Seq<RateEntry>, j: int, f: Seq<char>, t: Seq<char>)
    requires
        0 <= j <= s.len(),
        forall|k: int|
            0 <= k < j ==> !(#[trigger] s[k].from@ == f && leg_rate(s, s[k].to@, t) is Some),
    ensures
        hub_from(s, 0, f, t) == hub_from(s, j, f, t),
    decreases j,
{
    if j > 0 {
        lemma_hub_skip(s, j - 1, f, t);
    }
}

/// Convert `amount` (in micro-units of `from_currency`) into micro-units of
/// `to_currency` using the rates in `rate_map`.
///
/// The conversion never fails: identical codes echo the amount; minor-unit
/// codes are rescaled around the lookup; otherwise the first of direct edge,
/// reverse edge and hub route decides the rate, the product is floored, and
/// when no route exists (or the result would not fit a `u64`) the amount
/// comes back unchanged.
pub fn convert_currency(
    amount: u64,
    from_currency: &String,
    to_currency: &String,
    rate_map: &RateTable,
) -> (r: u64)
    ensures
        r as int == convert_spec(rate_map@, amount as int, from_currency@, to_currency@),
        from_currency@ == to_currency@ ==> r == amount,
{
    if *from_currency == *to_currency {
        return amount;
    }
    let (f, sf) = alias_of(from_currency);
    let (t, st) = alias_of(to_currency);
    let a1: u64 = amount / sf;
    if f == t {
        return apply_rate(amount, a1, 1, 1, st);
    }
    if let Some(rt) = rate_map.find(&f, &t) {
        return apply_rate(amount, a1, rt.num, rt.den, st);
    }
    if let Some(rt) = rate_map.find(&t, &f) {
        return apply_rate(amount, a1, rt.den, rt.num, st);
    }
    if let Some((n, d)) = rate_map.hub(&f, &t) {
        return apply_rate(amount, a1, n, d, st);
    }
    amount
}

/// The built-in table of indicative rates to USD, quoted in millionths.
/// Reverse and cross rates are not stored; `convert_currency` synthesizes
/// them on demand.
pub fn get_rate_map() -> (t: RateTable)
    ensures
        t@.len() == 13,
        forall|k: int| 0 <= k < 13 ==> (#[trigger] t@[k].to@) == "USD"@,
        forall|k: int| 0 <= k < 13 ==> (#[trigger] t@[k].rate.den) == RATE_UNIT,
        t@[0].from@ == "EUR"@ && t@[0].rate.num == 1_080_000,
        t@[1].from@ == "GBP"@ && t@[1].rate.num == 1_250_000,
        t@[2].from@ == "CHF"@ && t@[2].rate.num == 1_140_000,
        t@[3].from@ == "SEK"@ && t@[3].rate.num == 96_000,
        t@[4].from@ == "DKK"@ && t@[4].rate.num == 145_000,
        t@[5].from@ == "NOK"@ && t@[5].rate.num == 93_000,
        t@[6].from@ == "JPY"@ && t@[6].rate.num == 6_800,
        t@[7].from@ == "HKD"@ && t@[7].rate.num == 128_000,
        t@[8].from@ == "CNY"@ && t@[8].rate.num == 139_000,
        t@[9].from@ == "BRL"@ && t@[9].rate.num == 203_000,
        t@[10].from@ == "CAD"@ && t@[10].rate.num == 737_000,
        t@[11].from@ == "ILS"@ && t@[11].rate.num == 270_000,
        t@[12].from@ == "ZAR"@ && t@[12].rate.num == 53_000,
{
    proof {
        reveal_strlit("EUR");
        reveal_strlit("GBP");
        reveal_strlit("CHF");
        reveal_strlit("SEK");
        reveal_strlit("DKK");
        reveal_strlit("NOK");
        reveal_strlit("JPY");
        reveal_strlit("HKD");
        reveal_strlit("CNY");
        reveal_strlit("BRL");
        reveal_strlit("CAD");
        reveal_strlit("ILS");
        reveal_strlit("ZAR");
        reveal_strlit("USD");
    }
    let mut entries: Vec<RateEntry> = Vec::new();
    push_usd_edge(&mut entries, "EUR", 1_080_000);
    push_usd_edge(&mut entries, "GBP", 1_250_000);
    push_usd_edge(&mut entries, "CHF", 1_140_000);
    push_usd_edge(&mut entries, "SEK", 96_000);
    push_usd_edge(&mut entries, "DKK", 145_000);
    push_usd_edge(&mut entries, "NOK", 93_000);
    push_usd_edge(&mut entries, "JPY", 6_800);
    push_usd_edge(&mut entries, "HKD", 128_000);
    push_usd_edge(&mut entries, "CNY", 139_000);
    push_usd_edge(&mut entries, "BRL", 203_000);
    push_usd_edge(&mut entries, "CAD", 737_000);
    push_usd_edge(&mut entries, "ILS", 270_000);
    push_usd_edge(&mut entries, "ZAR", 53_000);
    proof {
        assert forall|k: int| 0 <= k < 13 implies entry_ok(#[trigger] entries@[k]) by {
            assert(entries@[k].from@.len() == 3);
            assert(entries@[k].from@[0] != 'U' || entries@[k].from@[1] != 'S' || entries@[k].from@[2]
                != 'D');
        }
        assert forall|p: int, q: int|
            0 <= p < q < 13 implies !(entries@[p].from@ == entries@[q].from@ && entries@[p].to@
            == entries@[q].to@) by {
            assert(entries@[p].from@[0] != entries@[q].from@[0] || entries@[p].from@[1]
                != entries@[q].from@[1]);
        }
    }
    RateTable { entries }
}

/// Converting between identical codes returns the amount unchanged, for
/// every table and every amount.
pub proof fn lemma_convert_identity(s: Seq<RateEntry>, amount: int, code: Seq<char>)
    ensures
        convert_spec(s, amount, code, code) == amount,
{
}

/// With no rates at all, conversion between codes that do not share a major
/// unit returns the amount unchanged: an unknown currency never raises and
/// never zeroes.
pub proof fn lemma_convert_empty_fallback(
    s: Seq<RateEntry>,
    amount: int,
    from: Seq<char>,
    to: Seq<char>,
)
    requires
        s.len() == 0,
        alias_major(from) != alias_major(to),
    ensures
        convert_spec(s, amount, from, to) == amount,
{
}

/// Converting through a known direct pair and back recovers the amount up
/// to the rounding of the two floor divisions: the error, scaled by the
/// rate's numerator, stays below `num + den`.  In particular a rate of at
/// least one loses less than two micro-units.  The backward conversion may
/// go through the reverse edge synthesized on demand, or through a stored
/// reverse edge carrying the exact reciprocal, as the quote builder
/// creates them.
pub proof fn lemma_convert_round_trip(s: Seq<RateEntry>, amount: u64, a: Seq<char>, b: Seq<char>)
    requires
        table_wf(s),
        alias_major(a) == a,
        alias_scale(a) == 1,
        alias_major(b) == b,
        alias_scale(b) == 1,
        a != b,
        find_pair(s, a, b) is Some,
        find_pair(s, b, a) is None || ({
            let i = find_pair(s, a, b)->Some_0;
            let x = find_pair(s, b, a)->Some_0;
            s[x].rate == (Rate { num: s[i].rate.den, den: s[i].rate.num })
        }),
        ({
            let i = find_pair(s, a, b)->Some_0;
            amount as int * s[i].rate.num as int / s[i].rate.den as int <= u64::MAX as int
        }),
    ensures
        ({
            let i = find_pair(s, a, b)->Some_0;
            let n = s[i].rate.num as int;
            let d = s[i].rate.den as int;
            let back = convert_spec(s, convert_spec(s, amount as int, a, b), b, a);
            back <= amount && n * (amount - back) < n + d
        }),
{
    lemma_find_index_matches(s, 0, a, b);
    let i = find_pair(s, a, b)->Some_0;
    let n = s[i].rate.num as int;
    let d = s[i].rate.den as int;
    let amt = amount as int;
    let q = amt * n / d;
    assert(convert_spec(s, amt, a, b) == q);
    let back = q * d / n;
    if find_pair(s, b, a) is Some {
        lemma_find_index_matches(s, 0, b, a);
    }
    assert(convert_spec(s, q, b, a) == clamp_or_fallback(q * d / n * 1, q));
    let r1 = (amt * n) % d;
    let r2 = (q * d) % n;
    assert(amt * n == d * (amt * n / d) + (amt * n) % d) by {
        vstd::arithmetic::div_mod::lemma_fundamental_div_mod(amt * n, d);
    }
    assert(q * d == n * (q * d / n) + (q * d) % n) by {
        vstd::arithmetic::div_mod::lemma_fundamental_div_mod(q * d, n);
    }
    assert(0 <= r1 < d && 0 <= r2 < n) by {
        vstd::arithmetic::div_mod::lemma_mod_bound(amt * n, d);
        vstd::arithmetic::div_mod::lemma_mod_bound(q * d, n);
    }
    assert(n * (amt - back) == r1 + r2) by (nonlinear_arith)
        requires
            amt * n == d * q + r1,
            q * d == n * back + r2,
    ;
    assert(back <= amt) by (nonlinear_arith)
        requires
            n * (amt - back) == r1 + r2,
            r1 >= 0,
            r2 >= 0,
            n >= 1,
    ;
    assert(clamp_or_fallback(back * 1, q) == back);
}

/// When `a -> USD` and `b -> USD` are both stored in a hub-and-spoke table
/// (every edge points at USD), converting from `a` to `b` applies exactly
/// the cross rate `rate(a/USD) / rate(b/USD)`.
pub proof fn lemma_convert_cross_rate(s: Seq<RateEntry>, amount: u64, a: Seq<char>, b: Seq<char>)
    requires
        table_wf(s),
        forall|k: int| 0 <= k < s.len() ==> (#[trigger] s[k].to@) == "USD"@,
        alias_major(a) == a,
        alias_scale(a) == 1,
        alias_major(b) == b,
        alias_scale(b) == 1,
        a != b,
        a != "USD"@,
        b != "USD"@,
        find_pair(s, a, "USD"@) is Some,
        find_pair(s, b, "USD"@) is Some,
        ({
            let i = find_pair(s, a, "USD"@)->Some_0;
            let j = find_pair(s, b, "USD"@)->Some_0;
            amount as int * (s[i].rate.num as int * s[j].rate.den as int) / (s[i].rate.den
                as int * s[j].rate.num as int) <= u64::MAX as int
        }),
    ensures
        ({
            let i = find_pair(s, a, "USD"@)->Some_0;
            let j = find_pair(s, b, "USD"@)->Some_0;
            convert_spec(s, amount as int, a, b) == amount as int * (s[i].rate.num as int
                * s[j].rate.den as int) / (s[i].rate.den as int * s[j].rate.num as int)
        }),
{
    lemma_find_index_matches(s, 0, a, "USD"@);
    lemma_find_index_matches(s, 0, b, "USD"@);
    let i = find_pair(s, a, "USD"@)->Some_0;
    let j = find_pair(s, b, "USD"@)->Some_0;
    // No stored edge ends in `b` or `a`, so direct and reverse lookups miss.
    assert forall|k: int| 0 <= k < s.len() implies !pair_matches(#[trigger] s[k], a, b) by {}
    lemma_find_skip(s, s.len() as int, a, b);
    assert(find_pair(s, a, b) is None);
    assert forall|k: int| 0 <= k < s.len() implies !pair_matches(#[trigger] s[k], b, a) by {}
    lemma_find_skip(s, s.len() as int, b, a);
    assert(find_pair(s, b, a) is None);
    // The hub walk reaches `i`: any earlier start of a route would leave `a`,
    // and `i` holds the only edge leaving `a`.
    assert forall|k: int| 0 <= k < s.len() && k != i implies (#[trigger] s[k].from@) != a by {
        if s[k].from@ == a {
            assert(pair_matches(s[k], a, "USD"@));
            if k < i {
                lemma_find_skip(s, k as int, a, "USD"@);
            }
        }
    }
    // The second leg from USD to `b` is the stored edge `b -> USD`, reversed.
    assert forall|k: int| 0 <= k < s.len() implies !pair_matches(#[trigger] s[k], "USD"@, b) by {}
    lemma_find_skip(s, s.len() as int, "USD"@, b);
    assert(find_pair(s, "USD"@, b) is None);
    assert(leg_rate(s, "USD"@, b) == Some(
        (s[j].rate.den as int, s[j].rate.num as int),
    ));
    lemma_hub_skip(s, i, a, b);
    assert(hub_from(s, 0, a, b) == Some(
        (s[i].rate.num as int * s[j].rate.den as int, s[i].rate.den as int * s[j].rate.num as int),
    ));
}

/// An amount in pence converts exactly as the hundredfold smaller amount in
/// pounds: subunit rescaling is exact whenever the amount is a whole number
/// of major units and a route (or a shared major unit) exists.
pub proof fn lemma_convert_subunit_scaling(s: Seq<RateEntry>, amount: u64, to: Seq<char>)
    requires
        amount % 100 == 0,
        to == "GBp"@ || to == "GBP"@ || (alias_major(to) != "GBP"@ && route_rate(
            s,
            "GBP"@,
            alias_major(to),
        ) is Some && ({
            let p = route_rate(s, "GBP"@, alias_major(to))->Some_0;
            amount as int / 100 * p.0 / p.1 * alias_scale(to) <= u64::MAX
        })),
    ensures
        convert_spec(s, amount as int, "GBp"@, to) == convert_spec(
            s,
            amount as int / 100,
            "GBP"@,
            to,
        ),
{
    reveal_strlit("GBp");
    reveal_strlit("GBP");
    reveal_strlit("ZAc");
    reveal_strlit("ILA");
    assert("GBp"@[2] == 'p' && "GBP"@[2] == 'P' && "ZAc"@[2] == 'c' && "ILA"@[2] == 'A');
    assert("GBp"@ != "GBP"@);
    assert("GBP"@ != "GBp"@ && "GBP"@ != "ZAc"@ && "GBP"@ != "ILA"@);
    assert(alias_major("GBp"@) == "GBP"@);
    assert(alias_major("GBP"@) == "GBP"@);
    assert(alias_scale("GBP"@) == 1);
    let amt = amount as int;
    if to == "GBp"@ {
        assert(amt / 100 * 100 == amt) by {
            vstd::arithmetic::div_mod::lemma_fundamental_div_mod(amt, 100);
        }
        assert(convert_spec(s, amt / 100, "GBP"@, to) == clamp_or_fallback(amt / 100 * 100, amt
            / 100));
    } else if to == "GBP"@ {
        assert(convert_spec(s, amt, "GBp"@, to) == clamp_or_fallback(amt / 100 * 1, amt));
    } else {
        assert(alias_major(to) != "GBP"@);
    }
}

/// The table can convert `from` to `to` without falling back: the codes
/// agree (possibly up to a subunit alias), or some route exists.
pub open spec fn convertible(s: Seq<RateEntry>, from: Seq<char>, to: Seq<char>) -> bool {
    from == to || alias_major(from) == alias_major(to) || route_rate(
        s,
        alias_major(from),
        alias_major(to),
    ) is Some
}

impl RateTable {
    /// Whether converting `from` to `to` would apply a real rate rather
    /// than fall back to the unconverted amount.  Callers use this to flag
    /// records whose converted figures are in truth unconverted.
    pub fn has_conversion(&self, from: &String, to: &String) -> (r: bool)
        ensures
            r == convertible(self@, from@, to@),
    {
        if *from == *to {
            return true;
        }
        let (f, _sf) = alias_of(from);
        let (t, _st) = alias_of(to);
        if f == t {
            return true;
        }
        if let Some(_rt) = self.find(&f, &t) {
            return true;
        }
        if let Some(_rt) = self.find(&t, &f) {
            return true;
        }
        if let Some(_nd) = self.hub(&f, &t) {
            return true;
        }
        false
    }
}

/// One forex quote from the provider; `name` is a `FROM/TO` symbol and
/// `price` the ask in millionths.
pub struct ExchangeRate {
    pub name: Option<String>,
    pub price: Option<u64>,
    pub timestamp: i64,
}

/// Position of the first `/` in `s` at or after `i`, if any.
pub open spec fn slash_from(s: Seq<char>, i: int) -> Option<int>
    decreases s.len() - i,
{
    if i < 0 || i >= s.len() {
        None
    } else if s[i] == '/' {
        Some(i)
    } else {
        slash_from(s, i + 1)
    }
}

/// The symbol split at its first `/`: `EUR/USD` becomes `(EUR, USD)`.
pub open spec fn spec_split_symbol(s: Seq<char>) -> Option<(Seq<char>, Seq<char>)> {
    match slash_from(s, 0) {
        Some(p) => Some((s.subrange(0, p), s.subrange(p + 1, s.len() as int))),
        None => None,
    }
}

/// `slash_from` ignores a prefix without slashes.
proof fn lemma_slash_skip(s: Seq<char>, j: int)
    requires
        0 <= j <= s.len(),
        forall|k: int| 0 <= k < j ==> (#[trigger] s[k]) != '/',
    ensures
        slash_from(s, 0) == slash_from(s, j),
    decreases j,
{
    if j > 0 {
        lemma_slash_skip(s, j - 1);
    }
}

/// Split a pair symbol such as `EUR/USD` at its first `/`.
pub fn split_symbol(symbol: &String) -> (r: Option<(String, String)>)
    ensures
        (r is Some) == (spec_split_symbol(symbol@) is Some),
        r matches Some(p) ==> (spec_split_symbol(symbol@) matches Some(q) && p.0@ == q.0 && p.1@
            == q.1),
{
    let s = symbol.as_str();
    let n = s.unicode_len();
    let mut i: usize = 0;
    while i < n
        invariant
            n == s@.len(),
            s@ == symbol@,
            0 <= i <= n,
            forall|k: int| 0 <= k < i ==> (#[trigger] s@[k]) != '/',
        decreases n - i,
    {
        if s.get_char(i) == '/' {
            proof {
                lemma_slash_skip(s@, i as int);
            }
            let a = s.substring_char(0, i);
            let b = s.substring_char(i + 1, n);
            return Some((String::from_str(a), String::from_str(b)));
        }
        i += 1;
    }
    proof {
        lemma_slash_skip(s@, n as int);
    }
    None
}

/// The currency pair a quote names, split at the first `/`.
pub open spec fn quote_pair(q: ExchangeRate) -> Option<(Seq<char>, Seq<char>)> {
    match q.name {
        Some(nm) => spec_split_symbol(nm@),
        None => None,
    }
}

/// A quote the graph can store: a named pair of distinct codes with a
/// positive price whose reduced rate fits the accepted range.
pub open spec fn quote_valid(q: ExchangeRate) -> bool {
    &&& quote_pair(q) is Some
    &&& quote_pair(q)->Some_0.0 != quote_pair(q)->Some_0.1
    &&& q.price is Some
    &&& 1 <= q.price->Some_0
    &&& composite_fits(q.price->Some_0 as int, RATE_UNIT as int)
}

/// Price in millionths of the last valid quote for the pair `a -> b` —
/// last in list order; a feed snapshot lists each symbol once, and a
/// re-sent symbol's later entry is the fresher one.
pub open spec fn last_quote_rate(qs: Seq<ExchangeRate>, a: Seq<char>, b: Seq<char>) -> Option<u64>
    decreases qs.len(),
{
    if qs.len() == 0 {
        None
    } else if quote_valid(qs.last()) && quote_pair(qs.last())->Some_0 == (a, b) {
        Some(qs.last().price->Some_0)
    } else {
        last_quote_rate(qs.drop_last(), a, b)
    }
}

/// The currency codes named by the quotes, in order: both halves of every
/// symbol that splits, duplicates kept (the store deduplicates on write).
pub open spec fn codes_of_quotes(qs: Seq<ExchangeRate>) -> Seq<Seq<char>>
    decreases qs.len(),
{
    if qs.len() == 0 {
        Seq::empty()
    } else {
        let pre = codes_of_quotes(qs.drop_last());
        match quote_pair(qs.last()) {
            Some(p) => pre.push(p.0).push(p.1),
            None => pre,
        }
    }
}

/// The currency codes a quote list names, for keeping the currency store
/// up to date.
pub fn currency_codes_of_quotes(quotes: &Vec<ExchangeRate>) -> (r: Vec<String>)
    ensures
        r@.map_values(|c: String| c@) == codes_of_quotes(quotes@),
{
    let n = quotes.len();
    let mut r: Vec<String> = Vec::new();
    let mut i: usize = 0;
    while i < n
        invariant
            n == quotes@.len(),
            0 <= i <= n,
            r@.map_values(|c: String| c@) == codes_of_quotes(quotes@.subrange(0, i as int)),
        decreases n - i,
    {
        proof {
            assert(quotes@.subrange(0, i + 1).drop_last() =~= quotes@.subrange(0, i as int));
            assert(quotes@.subrange(0, i + 1).last() == quotes@[i as int]);
        }
        match &quotes[i].name {
            Some(nm) => {
                match split_symbol(nm) {
                    Some((a, b)) => {
                        r.push(a);
                        r.push(b);
                    },
                    None => {},
                }
            },
            None => {},
        }
        proof {
            assert(r@.map_values(|c: String| c@) =~= codes_of_quotes(quotes@.subrange(0, i + 1)));
        }
        i += 1;
    }
    proof {
        assert(quotes@.subrange(0, n as int) =~= quotes@);
    }
    r
}

/// Appending an edge moves no existing match and can only add one at the
/// end.
proof fn lemma_find_from_push(s: Seq<RateEntry>, e: RateEntry, i: int, c: Seq<char>, d: Seq<char>)
    requires
        0 <= i <= s.len(),
    ensures
        find_from(s, i, c, d) matches Some(x) ==> find_from(s.push(e), i, c, d) == Some(x),
        find_from(s, i, c, d) is None ==> find_from(s.push(e), i, c, d) == (if pair_matches(
            e,
            c,
            d,
        ) {
            Some(s.len() as int)
        } else {
            None
        }),
    decreases s.len() - i,
{
    assert(s.push(e).len() == s.len() + 1);
    if i < s.len() {
        assert(s.push(e)[i] == s[i]);
        if !pair_matches(s[i], c, d) {
            lemma_find_from_push(s, e, i + 1, c, d);
        }
    } else {
        assert(s.push(e)[s.len() as int] == e);
    }
}

/// Replacing an edge with one for the same pair leaves every lookup's
/// index unchanged.
proof fn lemma_find_from_update(
    s: Seq<RateEntry>,
    idx: int,
    e: RateEntry,
    i: int,
    c: Seq<char>,
    d: Seq<char>,
)
    requires
        0 <= idx < s.len(),
        e.from@ == s[idx].from@,
        e.to@ == s[idx].to@,
        0 <= i,
    ensures
        find_from(s.update(idx, e), i, c, d) == find_from(s, i, c, d),
    decreases s.len() - i,
{
    if i < s.len() {
        assert(pair_matches(s.update(idx, e)[i], c, d) == pair_matches(s[i], c, d));
        lemma_find_from_update(s, idx, e, i + 1, c, d);
    }
}

/// `(n, d)` with common factors of ten cancelled; composite rates arrive
/// as products of millionth-quoted rates, so this recovers small parts.
pub open spec fn spec_reduce10(n: int, d: int) -> (int, int)
    decreases n,
{
    if 1 <= n && 1 <= d && n % 10 == 0 && d % 10 == 0 {
        spec_reduce10(n / 10, d / 10)
    } else {
        (n, d)
    }
}

/// The reduced composite rate fits the accepted range for stored parts.
pub open spec fn composite_fits(n: int, d: int) -> bool {
    &&& 1 <= spec_reduce10(n, d).0 <= RATE_PART_MAX
    &&& 1 <= spec_reduce10(n, d).1 <= RATE_PART_MAX
}

/// The rate a valid quote is stored at: the quoted millionths over
/// `RATE_UNIT`, with common factors of ten cancelled — the same rational,
/// in the smallest ten-power form.
pub open spec fn quote_rate(m: u64) -> Rate {
    let r = spec_reduce10(m as int, RATE_UNIT as int);
    Rate { num: r.0 as u64, den: r.1 as u64 }
}

/// `e` stores the last quoted rate of its own pair.
pub open spec fn quoted_verbatim(qs: Seq<ExchangeRate>, e: RateEntry) -> bool {
    last_quote_rate(qs, e.from@, e.to@) matches Some(m) && e.rate == quote_rate(m)
}

/// `e` stores the exact reciprocal of the last quoted rate of its
/// reversed pair.
pub open spec fn reciprocal_of_quoted(qs: Seq<ExchangeRate>, e: RateEntry) -> bool {
    last_quote_rate(qs, e.to@, e.from@) matches Some(m) && e.rate == (Rate {
        num: quote_rate(m).den,
        den: quote_rate(m).num,
    })
}

/// `e` is a quoted edge or the reciprocal of one.
pub open spec fn base_edge(qs: Seq<ExchangeRate>, e: RateEntry) -> bool {
    quoted_verbatim(qs, e) || reciprocal_of_quoted(qs, e)
}

/// `e` carries the reduced composite of `e1` then `e2` (which meet end to
/// start), in either orientation: the composite itself, or its exact
/// reciprocal.
pub open spec fn cross_shape(e1: RateEntry, e2: RateEntry, e: RateEntry) -> bool {
    e1.to@ == e2.from@ && e1.from@ != e2.to@ && ({
        let r = spec_reduce10(
            e1.rate.num as int * e2.rate.num as int,
            e1.rate.den as int * e2.rate.den as int,
        );
        (e.from@ == e1.from@ && e.to@ == e2.to@ && e.rate.num as int == r.0 && e.rate.den as int
            == r.1) || (e.from@ == e2.to@ && e.to@ == e1.from@ && e.rate.num as int == r.1
            && e.rate.den as int == r.0)
    })
}

/// `e` carries the reduced composite (or reciprocal composite) of two of
/// the given edges meeting end to start.
pub open spec fn cross_provenance(base: Seq<RateEntry>, e: RateEntry) -> bool {
    exists|p: int, q: int|
        0 <= p < base.len() && 0 <= q < base.len() && cross_shape(
            #[trigger] base[p],
            #[trigger] base[q],
            e,
        )
}

/// Every edge of a built table traces back to the quotes: it is a quoted
/// pair at its last quoted rate, the exact reciprocal of one, or the
/// reduced composite (or reciprocal composite) of two such edges meeting
/// end to start.
pub open spec fn quote_derived(qs: Seq<ExchangeRate>, s: Seq<RateEntry>, e: RateEntry) -> bool {
    base_edge(qs, e) || (exists|i: int, j: int|
        0 <= i < s.len() && 0 <= j < s.len() && base_edge(qs, #[trigger] s[i]) && base_edge(
            qs,
            #[trigger] s[j],
        ) && cross_shape(s[i], s[j], e))
}

/// Cancel common factors of ten.
fn reduce10(n0: u64, d0: u64) -> (r: (u64, u64))
    requires
        1 <= n0,
        1 <= d0,
    ensures
        r.0 as int == spec_reduce10(n0 as int, d0 as int).0,
        r.1 as int == spec_reduce10(n0 as int, d0 as int).1,
        1 <= r.0,
        1 <= r.1,
    decreases n0,
{
    if n0 % 10 == 0 && d0 % 10 == 0 {
        reduce10(n0 / 10, d0 / 10)
    } else {
        (n0, d0)
    }
}

impl RateTable {
    /// Add the reverse of every stored edge whose reverse pair is absent,
    /// with the exact reciprocal rate; every edge that was present stays
    /// untouched, and nothing else is added.
    fn add_reverse_edges(&mut self)
        ensures
            old(self)@.len() <= final(self)@.len(),
            forall|k: int| 0 <= k < old(self)@.len() ==> final(self)@[k] == old(self)@[k],
            table_wf(final(self)@),
            forall|j: int|
                0 <= j < old(self)@.len() ==> find_pair(
                    final(self)@,
                    (#[trigger] old(self)@[j]).to@,
                    old(self)@[j].from@,
                ) is Some,
            forall|j: int|
                0 <= j < old(self)@.len() && find_pair(
                    old(self)@,
                    (#[trigger] old(self)@[j]).to@,
                    old(self)@[j].from@,
                ) is None ==> ({
                    let fp = find_pair(final(self)@, old(self)@[j].to@, old(self)@[j].from@);
                    final(self)@[fp->Some_0].rate == (Rate {
                        num: old(self)@[j].rate.den,
                        den: old(self)@[j].rate.num,
                    })
                }),
            forall|k: int|
                old(self)@.len() <= k < final(self)@.len() ==> (exists|j: int|
                    0 <= j < old(self)@.len() && (#[trigger] final(self)@[k]).from@
                        == old(self)@[j].to@ && final(self)@[k].to@ == old(self)@[j].from@
                        && final(self)@[k].rate == (Rate {
                        num: old(self)@[j].rate.den,
                        den: old(self)@[j].rate.num,
                    })),
    {
        proof {
            use_type_invariant(&*self);
        }
        let n0 = self.entries.len();
        let ghost base: Seq<RateEntry> = self.entries@;
        let mut j: usize = 0;
        while j < n0
            invariant
                n0 == base.len(),
                0 <= j <= n0,
                base.len() <= self.entries@.len(),
                forall|k: int| 0 <= k < n0 ==> self.entries@[k] == base[k],
                table_wf(base),
                table_wf(self.entries@),
                forall|q: int|
                    0 <= q < j ==> find_pair(
                        self.entries@,
                        (#[trigger] base[q]).to@,
                        base[q].from@,
                    ) is Some,
                forall|q: int|
                    0 <= q < j && find_pair(base, (#[trigger] base[q]).to@, base[q].from@)
                        is None ==> ({
                        let fp = find_pair(self.entries@, base[q].to@, base[q].from@);
                        self.entries@[fp->Some_0].rate == (Rate {
                            num: base[q].rate.den,
                            den: base[q].rate.num,
                        })
                    }),
                forall|k: int|
                    n0 <= k < self.entries@.len() ==> (exists|q: int|
                        0 <= q < j && (#[trigger] self.entries@[k]).from@ == base[q].to@
                            && self.entries@[k].to@ == base[q].from@ && self.entries@[k].rate
                            == (Rate { num: base[q].rate.den, den: base[q].rate.num })),
            decreases n0 - j,
        {
            let rev_from = self.entries[j].to.clone();
            let rev_to = self.entries[j].from.clone();
            let r = self.entries[j].rate;
            let ghost pre: Seq<RateEntry> = self.entries@;
            let added = self.insert_if_absent(rev_from, rev_to, Rate { num: r.den, den: r.num });
            proof {
                let cur = self.entries@;
                assert(entry_ok(base[j as int]));
                // Claims already established keep their indices and entries.
                assert forall|q: int|
                    0 <= q < j implies find_pair(cur, (#[trigger] base[q]).to@, base[q].from@)
                    is Some by {
                    lemma_find_extend(pre, cur, base[q].to@, base[q].from@);
                }
                assert forall|q: int|
                    0 <= q < j && find_pair(base, (#[trigger] base[q]).to@, base[q].from@)
                        is None implies ({
                    let fp = find_pair(cur, base[q].to@, base[q].from@);
                    cur[fp->Some_0].rate == (Rate {
                        num: base[q].rate.den,
                        den: base[q].rate.num,
                    })
                }) by {
                    lemma_find_extend(pre, cur, base[q].to@, base[q].from@);
                    lemma_find_index_matches(pre, 0, base[q].to@, base[q].from@);
                    let fp = find_pair(pre, base[q].to@, base[q].from@);
                    assert(cur[fp->Some_0] == pre[fp->Some_0]);
                }
                // This iteration's claims.
                if find_pair(base, base[j as int].to@, base[j as int].from@) is None {
                    // No later push can have created the pair either: every
                    // synthesized edge reverses a distinct base pair.
                    assert forall|k: int|
                        0 <= k < pre.len() implies !pair_matches(
                        #[trigger] pre[k],
                        base[j as int].to@,
                        base[j as int].from@,
                    ) by {
                        if k < n0 {
                            lemma_find_none_no_match(
                                base,
                                base[j as int].to@,
                                base[j as int].from@,
                            );
                            assert(pre[k] == base[k]);
                        } else {
                            let q = choose|q: int|
                                0 <= q < j && pre[k].from@ == base[q].to@ && pre[k].to@
                                    == base[q].from@ && pre[k].rate == (Rate {
                                    num: base[q].rate.den,
                                    den: base[q].rate.num,
                                });
                            if pair_matches(pre[k], base[j as int].to@, base[j as int].from@) {
                                assert(base[q].to@ == base[j as int].to@ && base[q].from@ == base[
                                j as int].from@);
                                assert(q == j as int);
                            }
                        }
                    }
                    lemma_find_skip(pre, pre.len() as int, base[j as int].to@, base[
                    j as int].from@);
                    assert(added);
                    assert(find_pair(cur, base[j as int].to@, base[j as int].from@) == Some(
                        pre.len() as int,
                    ));
                    assert(cur[pre.len() as int].rate == (Rate {
                        num: base[j as int].rate.den,
                        den: base[j as int].rate.num,
                    }));
                }
            }
            j += 1;
        }
    }

    /// For every two stored edges that meet end to start, add the
    /// composite edge (and its reverse) where its pair is absent and its
    /// reduced rate fits the accepted range; existing edges stay
    /// untouched.
    fn add_cross_edges(&mut self)
        ensures
            old(self)@.len() <= final(self)@.len(),
            forall|k: int| 0 <= k < old(self)@.len() ==> final(self)@[k] == old(self)@[k],
            table_wf(final(self)@),
            forall|i: int, j: int|
                0 <= i < old(self)@.len() && 0 <= j < old(self)@.len() && (#[trigger] old(
                    self,
                )@[i]).to@ == (#[trigger] old(self)@[j]).from@ && old(self)@[i].from@ != old(
                    self,
                )@[j].to@ && composite_fits(
                    old(self)@[i].rate.num * old(self)@[j].rate.num,
                    old(self)@[i].rate.den * old(self)@[j].rate.den,
                ) ==> find_pair(final(self)@, old(self)@[i].from@, old(self)@[j].to@) is Some,
            forall|k: int|
                old(self)@.len() <= k < final(self)@.len() ==> cross_provenance(
                    old(self)@,
                    #[trigger] final(self)@[k],
                ),
    {
        proof {
            use_type_invariant(&*self);
        }
        let n0 = self.entries.len();
        let ghost base: Seq<RateEntry> = self.entries@;
        let mut i: usize = 0;
        while i < n0
            invariant
                n0 == base.len(),
                0 <= i <= n0,
                base.len() <= self.entries@.len(),
                forall|k: int| 0 <= k < n0 ==> self.entries@[k] == base[k],
                table_wf(base),
                table_wf(self.entries@),
                forall|p: int, q: int|
                    0 <= p < i && 0 <= q < n0 && (#[trigger] base[p]).to@ == (#[trigger] base[
                    q]).from@ && base[p].from@ != base[q].to@ && composite_fits(
                        base[p].rate.num * base[q].rate.num,
                        base[p].rate.den * base[q].rate.den,
                    ) ==> find_pair(self.entries@, base[p].from@, base[q].to@) is Some,
                forall|k: int|
                    n0 <= k < self.entries@.len() ==> cross_provenance(
                        base,
                        #[trigger] self.entries@[k],
                    ),
            decreases n0 - i,
        {
            let mut j: usize = 0;
            while j < n0
                invariant
                    n0 == base.len(),
                    0 <= i < n0,
                    0 <= j <= n0,
                    base.len() <= self.entries@.len(),
                    forall|k: int| 0 <= k < n0 ==> self.entries@[k] == base[k],
                    table_wf(base),
                    table_wf(self.entries@),
                    forall|p: int, q: int|
                        0 <= p < i && 0 <= q < n0 && (#[trigger] base[p]).to@ == (#[trigger] base[
                        q]).from@ && base[p].from@ != base[q].to@ && composite_fits(
                            base[p].rate.num * base[q].rate.num,
                            base[p].rate.den * base[q].rate.den,
                        ) ==> find_pair(self.entries@, base[p].from@, base[q].to@) is Some,
                    forall|q: int|
                        0 <= q < j && (#[trigger] base[i as int].to@) == (#[trigger] base[
                        q]).from@ && base[i as int].from@ != base[q].to@ && composite_fits(
                            base[i as int].rate.num * base[q].rate.num,
                            base[i as int].rate.den * base[q].rate.den,
                        ) ==> find_pair(self.entries@, base[i as int].from@, base[q].to@) is Some,
                    forall|k: int|
                        n0 <= k < self.entries@.len() ==> cross_provenance(
                            base,
                            #[trigger] self.entries@[k],
                        ),
                decreases n0 - j,
            {
                let ghost pre_j: Seq<RateEntry> = self.entries@;
                if self.entries[i].to == self.entries[j].from
                    && self.entries[i].from != self.entries[j].to {
                    let ri = self.entries[i].rate;
                    let rj = self.entries[j].rate;
                    proof {
                        assert(entry_ok(base[i as int]) && entry_ok(base[j as int]));
                        assert(ri.num * rj.num <= RATE_PART_MAX * RATE_PART_MAX)
                            by (nonlinear_arith)
                            requires
                                1 <= ri.num <= RATE_PART_MAX,
                                1 <= rj.num <= RATE_PART_MAX,
                        ;
                        assert(ri.den * rj.den <= RATE_PART_MAX * RATE_PART_MAX)
                            by (nonlinear_arith)
                            requires
                                1 <= ri.den <= RATE_PART_MAX,
                                1 <= rj.den <= RATE_PART_MAX,
                        ;
                        assert(ri.num * rj.num >= 1 && ri.den * rj.den >= 1) by (nonlinear_arith)
                            requires
                                1 <= ri.num && 1 <= rj.num && 1 <= ri.den && 1 <= rj.den,
                        ;
                        assert(RATE_PART_MAX * RATE_PART_MAX < u64::MAX);
                    }
                    let (n, d) = reduce10(ri.num * rj.num, ri.den * rj.den);
                    if n <= RATE_PART_MAX && d <= RATE_PART_MAX {
                        let cross_from = self.entries[i].from.clone();
                        let cross_to = self.entries[j].to.clone();
                        let ghost pre: Seq<RateEntry> = self.entries@;
                        let added = self.insert_if_absent(
                            cross_from,
                            cross_to,
                            Rate { num: n, den: d },
                        );
                        let rev_from = self.entries[j].to.clone();
                        let rev_to = self.entries[i].from.clone();
                        let ghost mid: Seq<RateEntry> = self.entries@;
                        let _ = self.insert_if_absent(rev_from, rev_to, Rate { num: d, den: n });
                        proof {
                            assert(find_pair(mid, base[i as int].from@, base[j as int].to@)
                                is Some);
                            lemma_find_extend(
                                mid,
                                self.entries@,
                                base[i as int].from@,
                                base[j as int].to@,
                            );
                        }
                    }
                }
                proof {
                    let cur = self.entries@;
                    assert forall|k: int|
                        n0 <= k < cur.len() implies cross_provenance(base, #[trigger] cur[k]) by {
                        if k < pre_j.len() {
                            assert(cur[k] == pre_j[k]);
                        } else {
                            assert(cross_shape(base[i as int], base[j as int], cur[k]));
                        }
                    }
                    assert forall|p: int, q: int|
                        0 <= p < i && 0 <= q < n0 && (#[trigger] base[p]).to@ == (#[trigger] base[
                        q]).from@ && base[p].from@ != base[q].to@ && composite_fits(
                            base[p].rate.num * base[q].rate.num,
                            base[p].rate.den * base[q].rate.den,
                        ) implies find_pair(cur, base[p].from@, base[q].to@) is Some by {
                        lemma_find_extend(pre_j, cur, base[p].from@, base[q].to@);
                    }
                    assert forall|q: int|
                        0 <= q < j + 1 && (#[trigger] base[i as int].to@) == (#[trigger] base[
                        q]).from@ && base[i as int].from@ != base[q].to@ && composite_fits(
                            base[i as int].rate.num * base[q].rate.num,
                            base[i as int].rate.den * base[q].rate.den,
                        ) implies find_pair(cur, base[i as int].from@, base[q].to@) is Some by {
                        if q < j {
                            lemma_find_extend(pre_j, cur, base[i as int].from@, base[q].to@);
                        }
                    }
                }
                j += 1;
            }
            i += 1;
        }
    }
}

/// The pieces of a quote the graph stores, when it is valid.
fn parse_quote(q: &ExchangeRate) -> (r: Option<(String, String, Rate)>)
    ensures
        (r is Some) == quote_valid(*q),
        r matches Some(p) ==> (quote_valid(*q) && p.0@ == quote_pair(*q)->Some_0.0 && p.1@
            == quote_pair(*q)->Some_0.1 && p.2 == quote_rate(q.price->Some_0)),
{
    match &q.name {
        Some(nm) => match split_symbol(nm) {
            Some((a, b)) => {
                if a == b {
                    return None;
                }
                match q.price {
                    Some(m) => {
                        if m >= 1 {
                            let (num, den) = reduce10(m, RATE_UNIT);
                            if num <= RATE_PART_MAX && den <= RATE_PART_MAX {
                                Some((a, b, Rate { num, den }))
                            } else {
                                None
                            }
                        } else {
                            None
                        }
                    },
                    None => None,
                }
            },
            None => None,
        },
        None => None,
    }
}

/// Build the rate graph from a list of forex quotes: each valid quote
/// (a `FROM/TO` symbol between distinct codes, priced within range) stores
/// its pair, later quotes for the same pair replacing earlier ones.  The
/// build then synthesizes the reverse of every stored edge (exact
/// reciprocal) and one round of composite edges where two edges meet end
/// to start, never replacing a quoted rate.  Together with the two-leg
/// route that `convert_currency` walks on demand, a currency stays
/// routable however the feed quotes it — hub-first (`USD/JPY`), or only
/// against a non-hub currency (`EUR/SEK`).
pub fn rate_table_from_quotes(quotes: &Vec<ExchangeRate>) -> (t: RateTable)
    ensures
        table_wf(t@),
        // Every validly quoted pair is stored with exactly its last quoted
        // rate (in reduced ten-power form); synthesis never replaces a
        // quoted edge.
        forall|k: int|
            0 <= k < quotes@.len() && quote_valid(#[trigger] quotes@[k]) ==> ({
                let a = quote_pair(quotes@[k])->Some_0.0;
                let b = quote_pair(quotes@[k])->Some_0.1;
                let fp = find_pair(t@, a, b);
                fp is Some && t@[fp->Some_0].rate == quote_rate(
                    last_quote_rate(quotes@, a, b)->Some_0,
                )
            }),
        // The reverse of every quoted pair is stored too; where the
        // reverse pair was not itself quoted, it carries the exact
        // reciprocal of the quoted rate.
        forall|k: int|
            0 <= k < quotes@.len() && quote_valid(#[trigger] quotes@[k]) ==> ({
                let a = quote_pair(quotes@[k])->Some_0.0;
                let b = quote_pair(quotes@[k])->Some_0.1;
                let fp = find_pair(t@, b, a);
                let qr = quote_rate(last_quote_rate(quotes@, a, b)->Some_0);
                fp is Some && (last_quote_rate(quotes@, b, a) is None ==> t@[fp->Some_0].rate
                    == (Rate { num: qr.den, den: qr.num }))
            }),
        // Two currencies quoted against a common hub are bridged: with
        // `a/b` and `c/b` both quoted, the cross edge `a -> c` is stored
        // whenever its reduced composite rate fits the accepted range.
        forall|k: int, l: int|
            0 <= k < quotes@.len() && 0 <= l < quotes@.len() && quote_valid(
                #[trigger] quotes@[k],
            ) && quote_valid(#[trigger] quotes@[l]) && quote_pair(quotes@[k])->Some_0.1
                == quote_pair(quotes@[l])->Some_0.1 && quote_pair(quotes@[k])->Some_0.0
                != quote_pair(quotes@[l])->Some_0.0 ==> ({
                let a = quote_pair(quotes@[k])->Some_0.0;
                let b = quote_pair(quotes@[k])->Some_0.1;
                let c = quote_pair(quotes@[l])->Some_0.0;
                let fwd = t@[find_pair(t@, a, b)->Some_0].rate;
                let rev = t@[find_pair(t@, b, c)->Some_0].rate;
                composite_fits(fwd.num * rev.num, fwd.den * rev.den) ==> find_pair(
                    t@,
                    a,
                    c,
                ) is Some
            }),
        // Nothing else is stored: every edge of the table traces back to
        // the quotes, so every rate a conversion can meet is determined.
        forall|k: int| 0 <= k < t@.len() ==> quote_derived(quotes@, t@, #[trigger] t@[k]),
{
    let mut t = RateTable::new();
    let n = quotes.len();
    let mut i: usize = 0;
    while i < n
        invariant
            n == quotes@.len(),
            0 <= i <= n,
            table_wf(t@),
            forall|j: int|
                0 <= j < t@.len() ==> quoted_verbatim(
                    quotes@.subrange(0, i as int),
                    #[trigger] t@[j],
                ),
            forall|k: int|
                0 <= k < i && quote_valid(#[trigger] quotes@[k]) ==> find_pair(
                    t@,
                    quote_pair(quotes@[k])->Some_0.0,
                    quote_pair(quotes@[k])->Some_0.1,
                ) is Some,
        decreases n - i,
    {
        let ghost prefix: Seq<ExchangeRate> = quotes@.subrange(0, i as int);
        let ghost prefix2: Seq<ExchangeRate> = quotes@.subrange(0, i + 1);
        proof {
            assert(prefix2.drop_last() =~= prefix);
            assert(prefix2.last() == quotes@[i as int]);
        }
        match parse_quote(&quotes[i]) {
            Some((a, b, qr)) => {
                let ghost t1: Seq<RateEntry> = t@;
                let ghost av: Seq<char> = a@;
                let ghost bv: Seq<char> = b@;
                let ghost found = find_pair(t1, av, bv);
                let accepted = t.insert(a, b, qr);
                proof {
                    assert(accepted);
                    // Lookups for every pair relate old and new table.
                    match found {
                        Some(idx) => {
                            lemma_find_index_matches(t1, 0, av, bv);
                            assert forall|c: Seq<char>, d: Seq<char>|
                                find_pair(#[trigger] t@, c, d) == find_pair(t1, c, d) by {
                                lemma_find_from_update(t1, idx, t@[idx], 0, c, d);
                            }
                        },
                        None => {
                            lemma_find_none_no_match(t1, av, bv);
                        },
                    }
                    // Soundness of each entry against the longer prefix.
                    assert forall|j: int| 0 <= j < t@.len() implies quoted_verbatim(
                        prefix2,
                        #[trigger] t@[j],
                    ) by {
                        if t@[j].from@ == av && t@[j].to@ == bv {
                            assert(t@[j].rate == quote_rate(quotes@[i as int].price->Some_0));
                            assert(last_quote_rate(prefix2, av, bv) == Some(
                                quotes@[i as int].price->Some_0,
                            ));
                        } else {
                            match found {
                                Some(idx) => {
                                    assert(t@[j] == t1[j]);
                                },
                                None => {
                                    assert(j < t1.len());
                                    assert(t@[j] == t1[j]);
                                },
                            }
                            assert(last_quote_rate(prefix2, t@[j].from@, t@[j].to@)
                                == last_quote_rate(prefix, t@[j].from@, t@[j].to@));
                        }
                    }
                    // Completeness for the quotes seen so far.
                    assert forall|k: int|
                        0 <= k < i + 1 && quote_valid(#[trigger] quotes@[k]) implies find_pair(
                        t@,
                        quote_pair(quotes@[k])->Some_0.0,
                        quote_pair(quotes@[k])->Some_0.1,
                    ) is Some by {
                        let c = quote_pair(quotes@[k])->Some_0.0;
                        let d = quote_pair(quotes@[k])->Some_0.1;
                        if k < i {
                            match found {
                                Some(idx) => {},
                                None => {
                                    lemma_find_from_push(t1, t@[t1.len() as int], 0, c, d);
                                },
                            }
                        } else {
                            match found {
                                Some(idx) => {},
                                None => {
                                    lemma_find_from_push(t1, t@[t1.len() as int], 0, av, bv);
                                },
                            }
                        }
                    }
                }
            },
            None => {
                proof {
                    assert(!quote_valid(quotes@[i as int]));
                    assert forall|j: int| 0 <= j < t@.len() implies quoted_verbatim(
                        prefix2,
                        #[trigger] t@[j],
                    ) by {
                        assert(last_quote_rate(prefix2, t@[j].from@, t@[j].to@) == last_quote_rate(
                            prefix,
                            t@[j].from@,
                            t@[j].to@,
                        ));
                    }
                }
            },
        }
        i += 1;
    }
    proof {
        assert(quotes@.subrange(0, n as int) =~= quotes@);
    }
    let ghost t1: Seq<RateEntry> = t@;
    t.add_reverse_edges();
    let ghost t2: Seq<RateEntry> = t@;
    t.add_cross_edges();
    proof {
        let t3 = t@;
        assert forall|k: int| 0 <= k < t1.len() implies t3[k] == t1[k] by {
            assert(t2[k] == t1[k]);
        }
        // Quoted pairs keep their quoted rate, at a stable index.
        assert forall|k: int|
            0 <= k < quotes@.len() && quote_valid(#[trigger] quotes@[k]) implies ({
            let a = quote_pair(quotes@[k])->Some_0.0;
            let b = quote_pair(quotes@[k])->Some_0.1;
            let fp = find_pair(t3, a, b);
            fp is Some && t3[fp->Some_0].rate == quote_rate(
                last_quote_rate(quotes@, a, b)->Some_0,
            )
        }) by {
            let a = quote_pair(quotes@[k])->Some_0.0;
            let b = quote_pair(quotes@[k])->Some_0.1;
            lemma_find_index_matches(t1, 0, a, b);
            let i1 = find_pair(t1, a, b)->Some_0;
            assert(t1[i1].from@ == a && t1[i1].to@ == b);
            assert(quoted_verbatim(quotes@, t1[i1]));
            lemma_find_extend(t1, t2, a, b);
            lemma_find_extend(t2, t3, a, b);
            assert(t3[i1] == t1[i1]);
        }
        // Reverse pairs are present, reciprocally rated when not quoted.
        assert forall|k: int|
            0 <= k < quotes@.len() && quote_valid(#[trigger] quotes@[k]) implies ({
            let a = quote_pair(quotes@[k])->Some_0.0;
            let b = quote_pair(quotes@[k])->Some_0.1;
            let fp = find_pair(t3, b, a);
            let qr = quote_rate(last_quote_rate(quotes@, a, b)->Some_0);
            fp is Some && (last_quote_rate(quotes@, b, a) is None ==> t3[fp->Some_0].rate
                == (Rate { num: qr.den, den: qr.num }))
        }) by {
            let a = quote_pair(quotes@[k])->Some_0.0;
            let b = quote_pair(quotes@[k])->Some_0.1;
            lemma_find_index_matches(t1, 0, a, b);
            let i1 = find_pair(t1, a, b)->Some_0;
            assert(t1[i1].from@ == a && t1[i1].to@ == b);
            assert(quoted_verbatim(quotes@, t1[i1]));
            assert(find_pair(t2, b, a) is Some);
            lemma_find_index_matches(t2, 0, b, a);
            let j2 = find_pair(t2, b, a)->Some_0;
            lemma_find_extend(t2, t3, b, a);
            assert(t3[j2] == t2[j2]);
            if last_quote_rate(quotes@, b, a) is None {
                if find_pair(t1, b, a) is Some {
                    lemma_find_index_matches(t1, 0, b, a);
                    let x = find_pair(t1, b, a)->Some_0;
                    assert(t1[x].from@ == b && t1[x].to@ == a);
                    assert(quoted_verbatim(quotes@, t1[x]));
                    assert(false);
                }
            }
        }
        // Currencies quoted against a common hub are bridged.
        assert forall|k: int, l: int|
            0 <= k < quotes@.len() && 0 <= l < quotes@.len() && quote_valid(
                #[trigger] quotes@[k],
            ) && quote_valid(#[trigger] quotes@[l]) && quote_pair(quotes@[k])->Some_0.1
                == quote_pair(quotes@[l])->Some_0.1 && quote_pair(quotes@[k])->Some_0.0
                != quote_pair(quotes@[l])->Some_0.0 implies ({
            let a = quote_pair(quotes@[k])->Some_0.0;
            let b = quote_pair(quotes@[k])->Some_0.1;
            let c = quote_pair(quotes@[l])->Some_0.0;
            let fwd = t3[find_pair(t3, a, b)->Some_0].rate;
            let rev = t3[find_pair(t3, b, c)->Some_0].rate;
            composite_fits(fwd.num * rev.num, fwd.den * rev.den) ==> find_pair(t3, a, c) is Some
        }) by {
            let a = quote_pair(quotes@[k])->Some_0.0;
            let b = quote_pair(quotes@[k])->Some_0.1;
            let c = quote_pair(quotes@[l])->Some_0.0;
            lemma_find_index_matches(t1, 0, a, b);
            let i1 = find_pair(t1, a, b)->Some_0;
            assert(t1[i1].from@ == a && t1[i1].to@ == b);
            lemma_find_extend(t1, t2, a, b);
            lemma_find_extend(t2, t3, a, b);
            assert(t3[i1] == t2[i1] && t2[i1] == t1[i1]);
            lemma_find_index_matches(t1, 0, c, b);
            let l1 = find_pair(t1, c, b)->Some_0;
            assert(t1[l1].from@ == c && t1[l1].to@ == b);
            assert(find_pair(t2, b, c) is Some);
            lemma_find_index_matches(t2, 0, b, c);
            let j2 = find_pair(t2, b, c)->Some_0;
            lemma_find_extend(t2, t3, b, c);
            assert(t3[j2] == t2[j2]);
            assert(t2[i1].to@ == b && t2[j2].from@ == b);
            assert(t2[i1].from@ == a && t2[j2].to@ == c);
        }
        // Every edge of the table traces back to the quotes.
        assert forall|k: int| 0 <= k < t2.len() implies base_edge(quotes@, #[trigger] t2[k]) by {
            if k < t1.len() {
                assert(t2[k] == t1[k]);
                assert(quoted_verbatim(quotes@, t1[k]));
            } else {
                let j = choose|j: int|
                    0 <= j < t1.len() && t2[k].from@ == t1[j].to@ && t2[k].to@ == t1[j].from@
                        && t2[k].rate == (Rate { num: t1[j].rate.den, den: t1[j].rate.num });
                assert(quoted_verbatim(quotes@, t1[j]));
                assert(reciprocal_of_quoted(quotes@, t2[k]));
            }
        }
        assert forall|k: int|
            0 <= k < t3.len() implies quote_derived(quotes@, t3, #[trigger] t3[k]) by {
            if k < t2.len() {
                assert(t3[k] == t2[k]);
                assert(base_edge(quotes@, t2[k]));
            } else {
                assert(cross_provenance(t2, t3[k]));
                let (p, q) = choose|p: int, q: int|
                    0 <= p < t2.len() && 0 <= q < t2.len() && cross_shape(
                        #[trigger] t2[p],
                        #[trigger] t2[q],
                        t3[k],
                    );
                assert(base_edge(quotes@, t2[p]) && base_edge(quotes@, t2[q]));
                assert(t3[p] == t2[p] && t3[q] == t2[q]);
                assert(0 <= p < t3.len() && 0 <= q < t3.len() && base_edge(quotes@, t3[p])
                    && base_edge(quotes@, t3[q]) && cross_shape(t3[p], t3[q], t3[k]));
            }
        }
    }
    t
}

/// Append the edge `code -> USD` quoted in millionths.
fn push_usd_edge(entries: &mut Vec<RateEntry>, code: &str, micros: u64)
    ensures
        final(entries)@.len() == old(entries)@.len() + 1,
        forall|k: int| 0 <= k < old(entries)@.len() ==> final(entries)@[k] == old(entries)@[k],
        final(entries)@.last().from@ == code@,
        final(entries)@.last().to@ == "USD"@,
        final(entries)@.last().rate == (Rate { num: micros, den: RATE_UNIT }),
{
    entries.push(
        RateEntry {
            from: String::from_str(code),
            to: String::from_str("USD"),
            rate: Rate { num: micros, den: RATE_UNIT },
        },
    );
}

} // verus!
