//! The aggregation engine: bucket indexing, per-bucket means with a
//! completeness check, the sorted merge-join over the two series, and
//! the quantity-weighted value computation.

use crate::convert::{EnergyGenCsvRow, EnergyPriceCsvRow, NUM_SOURCES, VAL_LIMIT};
use vstd::prelude::*;

verus! {

/// Number of five-minute buckets in a day.
pub const NUM_BUCKETS: usize = 288;

/// The bucket that a clock time falls in.
pub open spec fn bucket_of(hour: int, minute: int) -> int {
    (hour * 60 + minute) / 5
}

/// The hour at which a bucket starts.
pub open spec fn bucket_hour(idx: int) -> int {
    (idx * 5) / 60
}

/// The minute at which a bucket starts.
pub open spec fn bucket_minute(idx: int) -> int {
    (idx * 5) % 60
}

/// Handle on the aggregation engine. The data itself is passed to
/// each pass, which owns its accumulators for its duration.
pub struct Compute {}

impl Compute {
    pub fn new() -> (r: Self)
        ensures
            r == (Compute {  }),
    {
        Compute {  }
    }

    /// Returns the index in a 24-hour block of five-minute windows
    /// that this time should fill.
    pub fn time_to_idx_5min(hour: u32, minute: u32) -> (idx: usize)
        requires
            hour < 24,
            minute < 60,
        ensures
            idx == bucket_of(hour as int, minute as int),
            idx < NUM_BUCKETS,
    {
        proof {
            assert(hour * 60 + minute <= 23 * 60 + 59);
            assert((hour * 60 + minute) / 5 < 288) by (nonlinear_arith)
                requires
                    hour * 60 + minute <= 1439,
                    0 <= hour * 60 + minute,
            ;
        }
        (((hour * 60) + minute) / 5) as usize
    }

    /// The clock time at which a bucket starts; the exact inverse of
    /// `time_to_idx_5min` on every bucket index.
    pub fn idx_5min_to_time(idx: usize) -> (r: (u32, u32))
        requires
            idx < NUM_BUCKETS,
        ensures
            r.0 == bucket_hour(idx as int),
            r.1 == bucket_minute(idx as int),
            r.0 < 24,
            r.1 < 60,
            bucket_of(r.0 as int, r.1 as int) == idx,
    {
        proof {
            lemma_bucket_round_trip(idx as int);
        }
        ((idx as u32 * 5) / 60, (idx as u32 * 5) % 60)
    }
}

impl Compute {
    /// Index of the "Batteries" column in the fixed source order. The
    /// claim that index 1 really is the battery column is part of the
    /// contract, so a reordering of the name table cannot pass
    /// verification silently.
    pub fn battery_idx() -> (r: usize)
        ensures
            r == 1,
            crate::convert::source_key_spec(r as int) == "Batteries"@,
    {
        1
    }

    /// Index of the "Solar" column in the fixed source order, pinned
    /// against the name table like `battery_idx`.
    pub fn solar_idx() -> (r: usize)
        ensures
            r == 12,
            crate::convert::source_key_spec(r as int) == "Solar"@,
    {
        12
    }
}

/// What `chrono` makes of a timestamp string under the
/// "%Y-%m-%d %H:%M:%S" format: `None` when the string does not parse,
/// otherwise the parsed date-time as its count of non-leap seconds
/// since the Unix epoch. The mapping is not injective: chrono accepts
/// unpadded numeric fields, and a leap second `60` yields the same
/// count as second `59`, so distinct strings can share a count.
pub uninterp spec fn ts_parse(s: Seq<char>) -> Option<i64>;

/// Relies on `chrono::NaiveDateTime::parse_from_str` with the
/// "%Y-%m-%d %H:%M:%S" format: the outcome depends on the string
/// alone. The parsed value is converted to its epoch-second count
/// (`and_utc().timestamp()`).
#[verifier::external_body]
fn parse_timestamp(s: &str) -> (r: Option<i64>)
    ensures
        r == ts_parse(s@),
{
    chrono::NaiveDateTime::parse_from_str(s, "%Y-%m-%d %H:%M:%S")
        .ok()
        .map(|dt| dt.and_utc().timestamp())
}

/// The join key of a price record.
pub open spec fn price_key(r: EnergyPriceCsvRow) -> Option<i64> {
    ts_parse(r.timestamp@)
}

/// The join key of a generation record: the start of its interval.
pub open spec fn gen_key(r: EnergyGenCsvRow) -> Option<i64> {
    ts_parse(r.local_timestamp_start@)
}

/// The sorted merge-join of the two series on exact timestamp
/// equality: equal keys emit a pair and advance both sides; the side
/// with the smaller key is skipped, having no counterpart; a key that
/// fails to parse ends the join, as does either side running out.
/// On inputs ascending in parsed timestamp this aligns every
/// exactly-matching pair and drops the rest. Alignment is equality of
/// the parsed keys; the two strings of a pair are identical whenever
/// the timestamps are written in the canonical zero-padded form, but
/// `ts_parse` is not injective, so key equality is what is guaranteed.
pub open spec fn spec_join(ps: Seq<EnergyPriceCsvRow>, gs: Seq<EnergyGenCsvRow>) -> Seq<
    (EnergyPriceCsvRow, EnergyGenCsvRow),
>
    decreases ps.len() + gs.len(),
{
    if ps.len() == 0 || gs.len() == 0 {
        Seq::empty()
    } else {
        match (price_key(ps.first()), gen_key(gs.first())) {
            (Some(pk), Some(gk)) => if pk == gk {
                seq![(ps.first(), gs.first())] + spec_join(ps.drop_first(), gs.drop_first())
            } else if pk < gk {
                spec_join(ps.drop_first(), gs)
            } else {
                spec_join(ps, gs.drop_first())
            },
            _ => Seq::empty(),
        }
    }
}

/// Pull-based aligned-pair iterator: the executable merge-join. It
/// owns the two series and a read-ahead cursor into each; it can be
/// restarted only by constructing fresh cursors over the data.
pub struct PriceGenIter {
    prices: Vec<EnergyPriceCsvRow>,
    gens: Vec<EnergyGenCsvRow>,
    price_at: usize,
    gen_at: usize,
}

impl PriceGenIter {
    /// Cursors never pass the end of their series.
    pub closed spec fn wf(self) -> bool {
        self.price_at <= self.prices.len() && self.gen_at <= self.gens.len()
    }

    /// The price records not yet consumed.
    pub closed spec fn remaining_prices(self) -> Seq<EnergyPriceCsvRow> {
        self.prices@.skip(self.price_at as int)
    }

    /// The generation records not yet consumed.
    pub closed spec fn remaining_gens(self) -> Seq<EnergyGenCsvRow> {
        self.gens@.skip(self.gen_at as int)
    }

    pub fn new(prices: Vec<EnergyPriceCsvRow>, gens: Vec<EnergyGenCsvRow>) -> (r: Self)
        ensures
            r.wf(),
            r.remaining_prices() == prices@,
            r.remaining_gens() == gens@,
    {
        let r = PriceGenIter { prices, gens, price_at: 0, gen_at: 0 };
        proof {
            assert(r.remaining_prices() =~= r.prices@);
            assert(r.remaining_gens() =~= r.gens@);
        }
        r
    }

    /// Emits the next exactly-aligned pair, or `None` once the join of
    /// what remains is empty. Each emitted pair is the head of the
    /// join of the remaining records, so a caller that drains the
    /// iterator sees exactly `spec_join` of the full series, in order,
    /// and both records of a pair carry the same parsed timestamp.
    pub fn next(&mut self) -> (r: Option<(EnergyPriceCsvRow, EnergyGenCsvRow)>)
        requires
            old(self).wf(),
        ensures
            final(self).wf(),
            forall|x: EnergyPriceCsvRow| #[trigger]
                final(self).remaining_prices().contains(x) ==> old(
                    self,
                ).remaining_prices().contains(x),
            forall|x: EnergyGenCsvRow| #[trigger]
                final(self).remaining_gens().contains(x) ==> old(self).remaining_gens().contains(x),
            match r {
                Some(pair) => {
                    &&& spec_join(old(self).remaining_prices(), old(self).remaining_gens())
                        == seq![pair] + spec_join(
                        final(self).remaining_prices(),
                        final(self).remaining_gens(),
                    )
                    &&& final(self).remaining_prices().len() < old(self).remaining_prices().len()
                    &&& final(self).remaining_gens().len() < old(self).remaining_gens().len()
                    &&& old(self).remaining_prices().contains(pair.0)
                    &&& old(self).remaining_gens().contains(pair.1)
                    &&& price_key(pair.0) is Some
                    &&& price_key(pair.0) == gen_key(pair.1)
                },
                None => spec_join(old(self).remaining_prices(), old(self).remaining_gens())
                    == Seq::<(EnergyPriceCsvRow, EnergyGenCsvRow)>::empty(),
            },
    {
        loop
            invariant
                self.wf(),
                self.prices == old(self).prices,
                self.gens == old(self).gens,
                old(self).price_at <= self.price_at,
                old(self).gen_at <= self.gen_at,
                spec_join(self.remaining_prices(), self.remaining_gens()) == spec_join(
                    old(self).remaining_prices(),
                    old(self).remaining_gens(),
                ),
            decreases
                    self.prices.len() - self.price_at + self.gens.len() - self.gen_at,
        {
            proof {
                lemma_skip_suffix_contains(self.prices@, old(self).price_at as int, self.price_at as int);
                lemma_skip_suffix_contains(self.gens@, old(self).gen_at as int, self.gen_at as int);
            }
            if self.price_at >= self.prices.len() || self.gen_at >= self.gens.len() {
                return None;
            }
            let rp = Ghost(self.remaining_prices());
            let rg = Ghost(self.remaining_gens());
            proof {
                assert(rp@.first() == self.prices@[self.price_at as int]);
                assert(rg@.first() == self.gens@[self.gen_at as int]);
                assert(rp@.drop_first() =~= self.prices@.skip(self.price_at as int + 1));
                assert(rg@.drop_first() =~= self.gens@.skip(self.gen_at as int + 1));
            }
            let pk = parse_timestamp(self.prices[self.price_at].timestamp.as_str());
            let gk = parse_timestamp(self.gens[self.gen_at].local_timestamp_start.as_str());
            if pk.is_none() || gk.is_none() {
                assert(spec_join(rp@, rg@) == Seq::<
                    (EnergyPriceCsvRow, EnergyGenCsvRow),
                >::empty());
                return None;
            }
            let p = pk.unwrap();
            let g = gk.unwrap();
            if p == g {
                let pair = (
                    self.prices[self.price_at].duplicate(),
                    self.gens[self.gen_at].duplicate(),
                );
                proof {
                    assert(rp@.contains(pair.0)) by {
                        assert(rp@[0] == pair.0);
                    }
                    assert(rg@.contains(pair.1)) by {
                        assert(rg@[0] == pair.1);
                    }
                    assert(spec_join(rp@, rg@) == seq![pair] + spec_join(
                        rp@.drop_first(),
                        rg@.drop_first(),
                    ));
                }
                self.price_at = self.price_at + 1;
                self.gen_at = self.gen_at + 1;
                proof {
                    lemma_skip_suffix_contains(
                        self.prices@,
                        old(self).price_at as int,
                        self.price_at as int,
                    );
                    lemma_skip_suffix_contains(
                        self.gens@,
                        old(self).gen_at as int,
                        self.gen_at as int,
                    );
                }
                return Some(pair);
            } else if p < g {
                assert(spec_join(rp@, rg@) == spec_join(rp@.drop_first(), rg@));
                self.price_at = self.price_at + 1;
            } else {
                assert(spec_join(rp@, rg@) == spec_join(rp@, rg@.drop_first()));
                self.gen_at = self.gen_at + 1;
            }
        }
    }
}

/// The category-merge transform: a named pair of source indices.
/// Applying it folds the donor's quantity into the receiver and
/// zeroes the donor, so the two are weighted and priced as one
/// combined source wherever a source vector is about to be bucketed
/// or value-weighted.
pub struct CategoryMerge {
    pub donor: usize,
    pub receiver: usize,
}

impl CategoryMerge {
    /// Two distinct, in-range source indices.
    pub open spec fn wf(self) -> bool {
        &&& self.donor < NUM_SOURCES
        &&& self.receiver < NUM_SOURCES
        &&& self.donor != self.receiver
    }

    /// The transform on a source vector: receiver takes the sum,
    /// donor is zeroed, everything else is untouched.
    pub open spec fn apply_spec(self, s: Seq<int>) -> Seq<int> {
        s.update(self.receiver as int, s[self.receiver as int] + s[self.donor as int]).update(
            self.donor as int,
            0,
        )
    }

    /// The merge that folds battery output into solar, both resolved
    /// against the fixed source-name table.
    pub fn solar_battery() -> (r: Self)
        ensures
            r.wf(),
            r.donor == 1,
            r.receiver == 12,
    {
        CategoryMerge { donor: Compute::battery_idx(), receiver: Compute::solar_idx() }
    }

    /// Applies the transform to one source vector in place.
    pub fn apply(&self, srcs: &mut Vec<i64>)
        requires
            self.wf(),
            old(srcs)@.len() == NUM_SOURCES,
            forall|s: int|
                0 <= s < NUM_SOURCES ==> -VAL_LIMIT <= #[trigger] (old(srcs)@[s] as int)
                    <= VAL_LIMIT,
        ensures
            final(srcs)@.len() == NUM_SOURCES,
            forall|s: int|
                0 <= s < NUM_SOURCES ==> #[trigger] (final(srcs)@[s] as int) == self.apply_spec(
                    old(srcs)@.map_values(|v: i64| v as int),
                )[s],
            forall|s: int|
                0 <= s < NUM_SOURCES ==> -2 * VAL_LIMIT <= #[trigger] (final(srcs)@[s] as int) <= 2
                    * VAL_LIMIT,
    {
        let merged = srcs[self.receiver] + srcs[self.donor];
        srcs[self.receiver] = merged;
        srcs[self.donor] = 0;
    }
}

/// The transform a pass was configured with, or none.
pub open spec fn opt_apply(m: Option<CategoryMerge>, s: Seq<int>) -> Seq<int> {
    match m {
        Some(cm) => cm.apply_spec(s),
        None => s,
    }
}

/// After the merge transform the donor is exactly zero, the receiver
/// holds the pre-merge sum of donor and receiver, every other source
/// is untouched, and applying the transform again changes nothing.
pub proof fn lemma_merge_idempotent(m: CategoryMerge, s: Seq<int>)
    requires
        m.wf(),
        s.len() == NUM_SOURCES,
    ensures
        m.apply_spec(s).len() == NUM_SOURCES,
        m.apply_spec(s)[m.donor as int] == 0,
        m.apply_spec(s)[m.receiver as int] == s[m.donor as int] + s[m.receiver as int],
        forall|j: int|
            0 <= j < NUM_SOURCES && j != m.donor && j != m.receiver ==> #[trigger] m.apply_spec(
                s,
            )[j] == s[j],
        m.apply_spec(m.apply_spec(s)) == m.apply_spec(s),
{
    assert(m.apply_spec(m.apply_spec(s)) =~= m.apply_spec(s));
}

/// Record-count bound accepted by the value aggregation pass; with
/// in-range values, every accumulator then stays inside its integer
/// type.
pub const MAX_RECORDS: usize = 1_000_000;

/// Division truncating toward zero, the behaviour of `/` on the
/// machine's signed integers (spec `/` alone is Euclidean).
pub open spec fn div_trunc_spec(a: int, b: int) -> int {
    if a >= 0 {
        a / b
    } else {
        -((-a) / b)
    }
}

/// Truncating signed division on the accumulator type.
fn div_trunc_i128(a: i128, b: i128) -> (r: i128)
    requires
        b > 0,
        -i128::MAX <= a,
    ensures
        r as int == div_trunc_spec(a as int, b as int),
{
    if a >= 0 {
        a / b
    } else {
        -((-a) / b)
    }
}

/// A quotient is no larger in magnitude than the bound of its
/// dividend over its divisor.
proof fn lemma_div_trunc_bound(a: int, b: int, c: int)
    requires
        b > 0,
        0 <= c,
        -(b * c) <= a <= b * c,
    ensures
        -c <= div_trunc_spec(a, b) <= c,
{
    vstd::arithmetic::div_mod::lemma_div_multiples_vanish(c, b);
    vstd::arithmetic::div_mod::lemma_div_multiples_vanish(0, b);
    if a >= 0 {
        vstd::arithmetic::div_mod::lemma_div_is_ordered(a, b * c, b);
        vstd::arithmetic::div_mod::lemma_div_is_ordered(0, a, b);
    } else {
        vstd::arithmetic::div_mod::lemma_div_is_ordered(-a, b * c, b);
        vstd::arithmetic::div_mod::lemma_div_is_ordered(0, -a, b);
    }
}

/// Magnitude bound of a product from bounds of its factors.
proof fn lemma_mul_bound(x: int, y: int, bx: int, by: int)
    requires
        -bx <= x <= bx,
        -by <= y <= by,
        0 <= bx,
        0 <= by,
    ensures
        -(bx * by) <= x * y <= bx * by,
{
    assert(-(bx * by) <= x * y <= bx * by) by (nonlinear_arith)
        requires
            -bx <= x <= bx,
            -by <= y <= by,
            0 <= bx,
            0 <= by,
    ;
}

/// Summed absolute quantity of one source over a sequence of aligned
/// pairs, the configured merge transform applied to each generation
/// record first.
pub open spec fn pair_qty_total(
    pairs: Seq<(EnergyPriceCsvRow, EnergyGenCsvRow)>,
    m: Option<CategoryMerge>,
    s: int,
) -> int
    decreases pairs.len(),
{
    if pairs.len() == 0 {
        0
    } else {
        vstd::math::abs(opt_apply(m, pairs.first().1.sources_spec())[s]) + pair_qty_total(
            pairs.drop_first(),
            m,
            s,
        )
    }
}

/// Summed quantity-weighted price of one source over a sequence of
/// aligned pairs: each pair contributes its weight — the magnitude of
/// its transformed quantity — times its price.
pub open spec fn pair_value_total(
    pairs: Seq<(EnergyPriceCsvRow, EnergyGenCsvRow)>,
    m: Option<CategoryMerge>,
    s: int,
) -> int
    decreases pairs.len(),
{
    if pairs.len() == 0 {
        0
    } else {
        vstd::math::abs(opt_apply(m, pairs.first().1.sources_spec())[s])
            * pairs.first().0.lmp_avg + pair_value_total(pairs.drop_first(), m, s)
    }
}

/// Peeling the head pair off both running totals.
proof fn lemma_pair_totals_step(
    pairs: Seq<(EnergyPriceCsvRow, EnergyGenCsvRow)>,
    rest: Seq<(EnergyPriceCsvRow, EnergyGenCsvRow)>,
    pair: (EnergyPriceCsvRow, EnergyGenCsvRow),
    m: Option<CategoryMerge>,
    s: int,
)
    requires
        pairs == seq![pair] + rest,
    ensures
        pair_qty_total(pairs, m, s) == vstd::math::abs(opt_apply(m, pair.1.sources_spec())[s])
            + pair_qty_total(rest, m, s),
        pair_value_total(pairs, m, s) == vstd::math::abs(opt_apply(m, pair.1.sources_spec())[s])
            * pair.0.lmp_avg + pair_value_total(rest, m, s),
{
    assert(pairs.len() == 1 + rest.len());
    assert(pairs.first() == pair);
    assert(pairs.drop_first() =~= rest);
}

/// A transformed source vector of an in-range record stays within
/// twice the per-value bound (the receiver may hold a two-value sum).
proof fn lemma_opt_apply_bound(m: Option<CategoryMerge>, r: EnergyGenCsvRow, s: int)
    requires
        r.valid(),
        m matches Some(cm) ==> cm.wf(),
        0 <= s < NUM_SOURCES,
    ensures
        opt_apply(m, r.sources_spec()).len() == NUM_SOURCES,
        -2 * VAL_LIMIT <= opt_apply(m, r.sources_spec())[s] <= 2 * VAL_LIMIT,
{
}

/// Folds one aligned pair into the per-source accumulators: the
/// transformed quantity's magnitude into the quantity totals, the
/// signed quantity times the price into the value totals.
fn accumulate_pair(
    qtys: &mut Vec<i128>,
    accs: &mut Vec<i128>,
    pair: &(EnergyPriceCsvRow, EnergyGenCsvRow),
    merge: &Option<CategoryMerge>,
)
    requires
        old(qtys)@.len() == NUM_SOURCES,
        old(accs)@.len() == NUM_SOURCES,
        pair.0.valid(),
        pair.1.valid(),
        *merge matches Some(cm) ==> cm.wf(),
        forall|s: int|
            0 <= s < NUM_SOURCES ==> 0 <= #[trigger] old(qtys)@[s] <= (MAX_RECORDS - 1) * (2
                * VAL_LIMIT),
        forall|s: int|
            0 <= s < NUM_SOURCES ==> -(old(qtys)@[s] * VAL_LIMIT) <= #[trigger] old(accs)@[s] <= old(
                qtys,
            )@[s] * VAL_LIMIT,
    ensures
        final(qtys)@.len() == NUM_SOURCES,
        final(accs)@.len() == NUM_SOURCES,
        forall|s: int|
            0 <= s < NUM_SOURCES ==> #[trigger] final(qtys)@[s] == old(qtys)@[s] + vstd::math::abs(
                opt_apply(*merge, pair.1.sources_spec())[s],
            ),
        forall|s: int|
            0 <= s < NUM_SOURCES ==> #[trigger] final(accs)@[s] == old(accs)@[s] + vstd::math::abs(
                opt_apply(*merge, pair.1.sources_spec())[s],
            ) * pair.0.lmp_avg,
{
    let ghost applied = opt_apply(*merge, pair.1.sources_spec());
    let ghost q0 = old(qtys)@;
    let ghost a0 = old(accs)@;
    let mut srcs = pair.1.sources();
    proof {
        assert(srcs@.map_values(|v: i64| v as int) =~= pair.1.sources_spec());
    }
    match merge {
        Some(m) => m.apply(&mut srcs),
        None => {},
    }
    proof {
        assert forall|s: int| 0 <= s < NUM_SOURCES implies #[trigger] (srcs@[s] as int)
            == applied[s] && -2 * VAL_LIMIT <= srcs@[s] <= 2 * VAL_LIMIT by {
            lemma_opt_apply_bound(*merge, pair.1, s);
        }
    }
    let price = pair.0.lmp_avg;
    for s in 0..NUM_SOURCES
        invariant
            qtys@.len() == NUM_SOURCES,
            accs@.len() == NUM_SOURCES,
            srcs@.len() == NUM_SOURCES,
            -VAL_LIMIT <= price <= VAL_LIMIT,
            price == pair.0.lmp_avg,
            applied == opt_apply(*merge, pair.1.sources_spec()),
            forall|j: int|
                0 <= j < NUM_SOURCES ==> #[trigger] (srcs@[j] as int) == applied[j] && -2
                    * VAL_LIMIT <= srcs@[j] <= 2 * VAL_LIMIT,
            forall|j: int|
                0 <= j < NUM_SOURCES ==> 0 <= #[trigger] q0[j] <= (MAX_RECORDS - 1) * (2
                    * VAL_LIMIT),
            forall|j: int|
                0 <= j < NUM_SOURCES ==> -(q0[j] * VAL_LIMIT) <= #[trigger] a0[j] <= q0[j]
                    * VAL_LIMIT,
            forall|j: int|
                0 <= j < s ==> #[trigger] qtys@[j] == q0[j] + vstd::math::abs(applied[j]),
            forall|j: int| s <= j < NUM_SOURCES ==> #[trigger] qtys@[j] == q0[j],
            forall|j: int|
                0 <= j < s ==> #[trigger] accs@[j] == a0[j] + vstd::math::abs(applied[j])
                    * pair.0.lmp_avg,
            forall|j: int| s <= j < NUM_SOURCES ==> #[trigger] accs@[j] == a0[j],
    {
        let q = srcs[s];
        let aq: i64 = if q >= 0 {
            q
        } else {
            -q
        };
        proof {
            lemma_mul_bound(aq as int, price as int, 2 * VAL_LIMIT as int, VAL_LIMIT as int);
        }
        qtys[s] = qtys[s] + aq as i128;
        accs[s] = accs[s] + (aq as i128) * (price as i128);
    }
}

impl Compute {
    /// Drains the aligned-pair join of the two series and reduces it
    /// to per-source quantity-weighted average prices and summed
    /// absolute quantities, under an optional category merge.
    fn average_value_5min_custom(
        prices: Vec<EnergyPriceCsvRow>,
        gens: Vec<EnergyGenCsvRow>,
        merge: Option<CategoryMerge>,
    ) -> (r: (Vec<i64>, Vec<i64>))
        requires
            prices@.len() <= MAX_RECORDS,
            forall|i: int| 0 <= i < prices@.len() ==> #[trigger] prices@[i].valid(),
            forall|i: int| 0 <= i < gens@.len() ==> #[trigger] gens@[i].valid(),
            merge matches Some(cm) ==> cm.wf(),
        ensures
            r.0@.len() == NUM_SOURCES,
            r.1@.len() == NUM_SOURCES,
            forall|s: int|
                0 <= s < NUM_SOURCES ==> #[trigger] (r.1@[s] as int) == pair_qty_total(
                    spec_join(prices@, gens@),
                    merge,
                    s,
                ),
            forall|s: int|
                0 <= s < NUM_SOURCES ==> #[trigger] (r.0@[s] as int) == (
                if pair_qty_total(spec_join(prices@, gens@), merge, s) == 0 {
                    0
                } else {
                    div_trunc_spec(
                        pair_value_total(spec_join(prices@, gens@), merge, s),
                        pair_qty_total(spec_join(prices@, gens@), merge, s),
                    )
                }),
    {
        let ghost all_p = prices@;
        let ghost all_g = gens@;
        let ghost tj = spec_join(all_p, all_g);
        let np = prices.len();
        let mut it = PriceGenIter::new(prices, gens);
        let mut qtys: Vec<i128> = vec![0i128; NUM_SOURCES];
        let mut accs: Vec<i128> = vec![0i128; NUM_SOURCES];
        loop
            invariant_except_break
                it.wf(),
                qtys@.len() == NUM_SOURCES,
                accs@.len() == NUM_SOURCES,
                np == all_p.len() <= MAX_RECORDS,
                tj == spec_join(all_p, all_g),
                it.remaining_prices().len() <= np,
                forall|x: EnergyPriceCsvRow| #[trigger]
                    it.remaining_prices().contains(x) ==> all_p.contains(x),
                forall|x: EnergyGenCsvRow| #[trigger]
                    it.remaining_gens().contains(x) ==> all_g.contains(x),
                forall|i: int| 0 <= i < all_p.len() ==> #[trigger] all_p[i].valid(),
                forall|i: int| 0 <= i < all_g.len() ==> #[trigger] all_g[i].valid(),
                merge matches Some(cm) ==> cm.wf(),
                forall|s: int|
                    0 <= s < NUM_SOURCES ==> #[trigger] qtys@[s] + pair_qty_total(
                        spec_join(it.remaining_prices(), it.remaining_gens()),
                        merge,
                        s,
                    ) == pair_qty_total(tj, merge, s),
                forall|s: int|
                    0 <= s < NUM_SOURCES ==> #[trigger] accs@[s] + pair_value_total(
                        spec_join(it.remaining_prices(), it.remaining_gens()),
                        merge,
                        s,
                    ) == pair_value_total(tj, merge, s),
                forall|s: int|
                    0 <= s < NUM_SOURCES ==> 0 <= #[trigger] qtys@[s] <= (np
                        - it.remaining_prices().len()) * (2 * VAL_LIMIT),
                forall|s: int|
                    0 <= s < NUM_SOURCES ==> -(qtys@[s] * VAL_LIMIT) <= #[trigger] accs@[s]
                        <= qtys@[s] * VAL_LIMIT,
            ensures
                qtys@.len() == NUM_SOURCES,
                accs@.len() == NUM_SOURCES,
                forall|s: int|
                    0 <= s < NUM_SOURCES ==> #[trigger] qtys@[s] == pair_qty_total(tj, merge, s),
                forall|s: int|
                    0 <= s < NUM_SOURCES ==> #[trigger] accs@[s] == pair_value_total(tj, merge, s),
                forall|s: int|
                    0 <= s < NUM_SOURCES ==> 0 <= #[trigger] qtys@[s] <= MAX_RECORDS * (2
                        * VAL_LIMIT),
                forall|s: int|
                    0 <= s < NUM_SOURCES ==> -(qtys@[s] * VAL_LIMIT) <= #[trigger] accs@[s]
                        <= qtys@[s] * VAL_LIMIT,
            decreases it.remaining_prices().len() + it.remaining_gens().len(),
        {
            let ghost rem_p = it.remaining_prices();
            let ghost rem_g = it.remaining_gens();
            let ghost rem_join = spec_join(rem_p, rem_g);
            match it.next() {
                None => {
                    proof {
                        assert forall|s: int| 0 <= s < NUM_SOURCES implies #[trigger] qtys@[s]
                            == pair_qty_total(tj, merge, s) && accs@[s] == pair_value_total(
                            tj,
                            merge,
                            s,
                        ) by {
                            assert(pair_qty_total(rem_join, merge, s) == 0);
                            assert(pair_value_total(rem_join, merge, s) == 0);
                        }
                        assert forall|s: int| 0 <= s < NUM_SOURCES implies 0 <= #[trigger] qtys@[s]
                            <= MAX_RECORDS * (2 * VAL_LIMIT) by {
                            vstd::arithmetic::mul::lemma_mul_inequality(
                                np - rem_p.len(),
                                MAX_RECORDS as int,
                                2 * VAL_LIMIT as int,
                            );
                        }
                    }
                    break;
                },
                Some(pair) => {
                    let ghost new_join = spec_join(
                        it.remaining_prices(),
                        it.remaining_gens(),
                    );
                    proof {
                        lemma_pair_totals_step(rem_join, new_join, pair, merge, 0);
                        assert(pair.0.valid()) by {
                            assert(all_p.contains(pair.0));
                            let i = choose|i: int| 0 <= i < all_p.len() && all_p[i] == pair.0;
                        }
                        assert(pair.1.valid()) by {
                            assert(all_g.contains(pair.1));
                            let i = choose|i: int| 0 <= i < all_g.len() && all_g[i] == pair.1;
                        }
                        assert forall|s: int| 0 <= s < NUM_SOURCES implies 0 <= #[trigger] qtys@[s]
                            <= (MAX_RECORDS - 1) * (2 * VAL_LIMIT) by {
                            vstd::arithmetic::mul::lemma_mul_inequality(
                                np - rem_p.len(),
                                MAX_RECORDS - 1,
                                2 * VAL_LIMIT as int,
                            );
                        }
                    }
                    let ghost q_before = qtys@;
                    let ghost a_before = accs@;
                    accumulate_pair(&mut qtys, &mut accs, &pair, &merge);
                    proof {
                        assert forall|s: int| 0 <= s < NUM_SOURCES implies {
                            &&& #[trigger] qtys@[s] + pair_qty_total(new_join, merge, s)
                                == pair_qty_total(tj, merge, s)
                            &&& 0 <= qtys@[s] <= (np - it.remaining_prices().len()) * (2
                                * VAL_LIMIT)
                        } by {
                            lemma_pair_totals_step(rem_join, new_join, pair, merge, s);
                            lemma_opt_apply_bound(merge, pair.1, s);
                            let aq = vstd::math::abs(opt_apply(merge, pair.1.sources_spec())[s]);
                            assert(qtys@[s] == q_before[s] + aq);
                            assert((np - rem_p.len() + 1) * (2 * VAL_LIMIT) == (np - rem_p.len())
                                * (2 * VAL_LIMIT) + 2 * VAL_LIMIT) by (nonlinear_arith);
                            vstd::arithmetic::mul::lemma_mul_inequality(
                                np - rem_p.len() + 1,
                                np - it.remaining_prices().len(),
                                2 * VAL_LIMIT as int,
                            );
                        }
                        assert forall|s: int| 0 <= s < NUM_SOURCES implies {
                            &&& #[trigger] accs@[s] + pair_value_total(new_join, merge, s)
                                == pair_value_total(tj, merge, s)
                            &&& -(qtys@[s] * VAL_LIMIT) <= accs@[s] <= qtys@[s] * VAL_LIMIT
                        } by {
                            lemma_pair_totals_step(rem_join, new_join, pair, merge, s);
                            lemma_opt_apply_bound(merge, pair.1, s);
                            let aq = vstd::math::abs(opt_apply(merge, pair.1.sources_spec())[s]);
                            assert(qtys@[s] == q_before[s] + aq);
                            assert(accs@[s] == a_before[s] + aq * pair.0.lmp_avg);
                            lemma_mul_bound(
                                aq as int,
                                pair.0.lmp_avg as int,
                                aq as int,
                                VAL_LIMIT as int,
                            );
                            assert((q_before[s] + aq) * VAL_LIMIT == q_before[s] * VAL_LIMIT + aq
                                * VAL_LIMIT) by (nonlinear_arith);
                        }
                    }
                },
            }
        }
        let mut avgs: Vec<i64> = Vec::new();
        let mut qty_out: Vec<i64> = Vec::new();
        for s in 0..NUM_SOURCES
            invariant
                qtys@.len() == NUM_SOURCES,
                accs@.len() == NUM_SOURCES,
                tj == spec_join(all_p, all_g),
                avgs@.len() == s,
                qty_out@.len() == s,
                forall|j: int|
                    0 <= j < NUM_SOURCES ==> #[trigger] qtys@[j] == pair_qty_total(tj, merge, j),
                forall|j: int|
                    0 <= j < NUM_SOURCES ==> #[trigger] accs@[j] == pair_value_total(tj, merge, j),
                forall|j: int|
                    0 <= j < NUM_SOURCES ==> 0 <= #[trigger] qtys@[j] <= MAX_RECORDS * (2
                        * VAL_LIMIT),
                forall|j: int|
                    0 <= j < NUM_SOURCES ==> -(qtys@[j] * VAL_LIMIT) <= #[trigger] accs@[j]
                        <= qtys@[j] * VAL_LIMIT,
                forall|j: int|
                    0 <= j < s ==> #[trigger] (qty_out@[j] as int) == pair_qty_total(tj, merge, j),
                forall|j: int|
                    0 <= j < s ==> #[trigger] (avgs@[j] as int) == (
                    if pair_qty_total(tj, merge, j) == 0 {
                        0
                    } else {
                        div_trunc_spec(pair_value_total(tj, merge, j), pair_qty_total(tj, merge, j))
                    }),
        {
            let q = qtys[s];
            qty_out.push(q as i64);
            if q == 0 {
                avgs.push(0);
            } else {
                proof {
                    lemma_div_trunc_bound(accs@[s as int] as int, q as int, VAL_LIMIT as int);
                }
                let m = div_trunc_i128(accs[s], q);
                avgs.push(m as i64);
            }
        }
        (avgs, qty_out)
    }

    /// Per-source quantity-weighted average price and summed absolute
    /// quantity over the aligned join of the two series.
    pub fn average_value_5min(prices: Vec<EnergyPriceCsvRow>, gens: Vec<EnergyGenCsvRow>) -> (r: (
        Vec<i64>,
        Vec<i64>,
    ))
        requires
            prices@.len() <= MAX_RECORDS,
            forall|i: int| 0 <= i < prices@.len() ==> #[trigger] prices@[i].valid(),
            forall|i: int| 0 <= i < gens@.len() ==> #[trigger] gens@[i].valid(),
        ensures
            r.0@.len() == NUM_SOURCES,
            r.1@.len() == NUM_SOURCES,
            forall|s: int|
                0 <= s < NUM_SOURCES ==> #[trigger] (r.1@[s] as int) == pair_qty_total(
                    spec_join(prices@, gens@),
                    None,
                    s,
                ),
            forall|s: int|
                0 <= s < NUM_SOURCES ==> #[trigger] (r.0@[s] as int) == (
                if pair_qty_total(spec_join(prices@, gens@), None, s) == 0 {
                    0
                } else {
                    div_trunc_spec(
                        pair_value_total(spec_join(prices@, gens@), None, s),
                        pair_qty_total(spec_join(prices@, gens@), None, s),
                    )
                }),
    {
        Self::average_value_5min_custom(prices, gens, None)
    }

    /// `average_value_5min` under the hypothetical of battery output
    /// folded into the solar column.
    pub fn average_value_solar_battery(
        prices: Vec<EnergyPriceCsvRow>,
        gens: Vec<EnergyGenCsvRow>,
    ) -> (r: (Vec<i64>, Vec<i64>))
        requires
            prices@.len() <= MAX_RECORDS,
            forall|i: int| 0 <= i < prices@.len() ==> #[trigger] prices@[i].valid(),
            forall|i: int| 0 <= i < gens@.len() ==> #[trigger] gens@[i].valid(),
        ensures
            r.0@.len() == NUM_SOURCES,
            r.1@.len() == NUM_SOURCES,
            forall|s: int|
                0 <= s < NUM_SOURCES ==> #[trigger] (r.1@[s] as int) == pair_qty_total(
                    spec_join(prices@, gens@),
                    Some(CategoryMerge { donor: 1, receiver: 12 }),
                    s,
                ),
            forall|s: int|
                0 <= s < NUM_SOURCES ==> #[trigger] (r.0@[s] as int) == (
                if pair_qty_total(
                    spec_join(prices@, gens@),
                    Some(CategoryMerge { donor: 1, receiver: 12 }),
                    s,
                ) == 0 {
                    0
                } else {
                    div_trunc_spec(
                        pair_value_total(
                            spec_join(prices@, gens@),
                            Some(CategoryMerge { donor: 1, receiver: 12 }),
                            s,
                        ),
                        pair_qty_total(
                            spec_join(prices@, gens@),
                            Some(CategoryMerge { donor: 1, receiver: 12 }),
                            s,
                        ),
                    )
                }),
    {
        Self::average_value_5min_custom(prices, gens, Some(CategoryMerge::solar_battery()))
    }
}

/// Greatest tolerated gap between any bucket's sample count and
/// bucket 0's, for generation data.
pub const MAX_WINDOW_MISS: usize = 12;

/// Greatest tolerated gap between any bucket's sample count and
/// bucket 0's, for price data.
pub const PRICE_WINDOW_MISS: usize = 8;

/// Aggregation failure: some bucket's sample count diverges from the
/// reference bucket's beyond the tolerated window, suggesting gross
/// under- or over-sampling of a time slot.
#[derive(Clone, Copy, Debug, PartialEq, Eq, Structural)]
pub enum ComputeError {
    NonUniformDistribution { reference: usize, count: usize },
}

/// Absolute difference, as the completeness check measures it.
pub open spec fn diff_of(a: int, b: int) -> int {
    if a >= b {
        a - b
    } else {
        b - a
    }
}

/// A finalized slot: the truncated mean, or zero for a bucket that
/// received no samples (an explicit sentinel; the completeness check
/// runs first and is the intended guard against missing data).
pub open spec fn bucket_mean(sum: int, count: int) -> int {
    if count == 0 {
        0
    } else {
        div_trunc_spec(sum, count)
    }
}

/// How many price records fall in a bucket.
pub open spec fn price_bucket_count(rows: Seq<EnergyPriceCsvRow>, b: int) -> int
    decreases rows.len(),
{
    if rows.len() == 0 {
        0
    } else {
        price_bucket_count(rows.drop_last(), b) + if bucket_of(
            rows.last().hour as int,
            rows.last().minute as int,
        ) == b {
            1int
        } else {
            0int
        }
    }
}

/// Summed price of the records falling in a bucket.
pub open spec fn price_bucket_sum(rows: Seq<EnergyPriceCsvRow>, b: int) -> int
    decreases rows.len(),
{
    if rows.len() == 0 {
        0
    } else {
        price_bucket_sum(rows.drop_last(), b) + if bucket_of(
            rows.last().hour as int,
            rows.last().minute as int,
        ) == b {
            rows.last().lmp_avg as int
        } else {
            0int
        }
    }
}

/// How many generation records fall in a bucket.
pub open spec fn gen_bucket_count(rows: Seq<EnergyGenCsvRow>, b: int) -> int
    decreases rows.len(),
{
    if rows.len() == 0 {
        0
    } else {
        gen_bucket_count(rows.drop_last(), b) + if bucket_of(
            rows.last().hour as int,
            rows.last().minute as int,
        ) == b {
            1int
        } else {
            0int
        }
    }
}

/// Summed quantity of one source over the records falling in a
/// bucket, the configured merge transform applied to each record's
/// source vector first.
pub open spec fn gen_bucket_sum(
    rows: Seq<EnergyGenCsvRow>,
    m: Option<CategoryMerge>,
    b: int,
    s: int,
) -> int
    decreases rows.len(),
{
    if rows.len() == 0 {
        0
    } else {
        gen_bucket_sum(rows.drop_last(), m, b, s) + if bucket_of(
            rows.last().hour as int,
            rows.last().minute as int,
        ) == b {
            opt_apply(m, rows.last().sources_spec())[s]
        } else {
            0int
        }
    }
}

/// How many of the first `i` minutes of a one-record-per-minute day
/// fall in bucket `b`.
proof fn lemma_minute_grid_price_prefix(rows: Seq<EnergyPriceCsvRow>, b: int, i: int)
    requires
        rows.len() == 1440,
        forall|j: int|
            0 <= j < rows.len() ==> (#[trigger] rows[j].hour) == j / 60 && rows[j].minute == j
                % 60,
        0 <= b < NUM_BUCKETS,
        0 <= i <= 1440,
    ensures
        price_bucket_count(rows.take(i), b) == if i <= 5 * b {
            0int
        } else if i >= 5 * b + 5 {
            5int
        } else {
            i - 5 * b
        },
    decreases i,
{
    if i > 0 {
        lemma_minute_grid_price_prefix(rows, b, i - 1);
        let j = i - 1;
        assert(rows.take(i).drop_last() =~= rows.take(j));
        assert(rows.take(i).last() == rows[j]);
        vstd::arithmetic::div_mod::lemma_fundamental_div_mod(j, 60);
        assert(rows[j].hour * 60 + rows[j].minute == j);
        vstd::arithmetic::div_mod::lemma_fundamental_div_mod(j, 5);
        vstd::arithmetic::div_mod::lemma_mod_bound(j, 5);
        if 5 * b <= j < 5 * b + 5 {
            vstd::arithmetic::div_mod::lemma_fundamental_div_mod_converse(j, 5, b, j - 5 * b);
            assert(bucket_of(rows[j].hour as int, rows[j].minute as int) == b);
        } else {
            assert(bucket_of(rows[j].hour as int, rows[j].minute as int) != b);
        }
    }
}

/// Bucket coverage: a price series holding exactly one record per
/// minute of one day, in minute order, puts the same number of
/// records in every bucket — five, one per minute of the bucket's
/// window — so the completeness check passes whatever its tolerance.
pub proof fn lemma_full_day_price_coverage(rows: Seq<EnergyPriceCsvRow>)
    requires
        rows.len() == 1440,
        forall|j: int|
            0 <= j < rows.len() ==> (#[trigger] rows[j].hour) == j / 60 && rows[j].minute == j
                % 60,
    ensures
        forall|b: int| 0 <= b < NUM_BUCKETS ==> #[trigger] price_bucket_count(rows, b) == 5,
        forall|b: int|
            0 <= b < NUM_BUCKETS ==> #[trigger] diff_of(
                price_bucket_count(rows, b),
                price_bucket_count(rows, 0),
            ) == 0,
{
    assert(rows.take(1440) =~= rows);
    assert forall|b: int| 0 <= b < NUM_BUCKETS implies #[trigger] price_bucket_count(rows, b)
        == 5 by {
        lemma_minute_grid_price_prefix(rows, b, 1440);
    }
}

/// The generation counterpart of `lemma_minute_grid_price_prefix`.
proof fn lemma_minute_grid_gen_prefix(rows: Seq<EnergyGenCsvRow>, b: int, i: int)
    requires
        rows.len() == 1440,
        forall|j: int|
            0 <= j < rows.len() ==> (#[trigger] rows[j].hour) == j / 60 && rows[j].minute == j
                % 60,
        0 <= b < NUM_BUCKETS,
        0 <= i <= 1440,
    ensures
        gen_bucket_count(rows.take(i), b) == if i <= 5 * b {
            0int
        } else if i >= 5 * b + 5 {
            5int
        } else {
            i - 5 * b
        },
    decreases i,
{
    if i > 0 {
        lemma_minute_grid_gen_prefix(rows, b, i - 1);
        let j = i - 1;
        assert(rows.take(i).drop_last() =~= rows.take(j));
        assert(rows.take(i).last() == rows[j]);
        vstd::arithmetic::div_mod::lemma_fundamental_div_mod(j, 60);
        assert(rows[j].hour * 60 + rows[j].minute == j);
        vstd::arithmetic::div_mod::lemma_fundamental_div_mod(j, 5);
        vstd::arithmetic::div_mod::lemma_mod_bound(j, 5);
        if 5 * b <= j < 5 * b + 5 {
            vstd::arithmetic::div_mod::lemma_fundamental_div_mod_converse(j, 5, b, j - 5 * b);
            assert(bucket_of(rows[j].hour as int, rows[j].minute as int) == b);
        } else {
            assert(bucket_of(rows[j].hour as int, rows[j].minute as int) != b);
        }
    }
}

/// Bucket coverage: a generation series holding exactly one record
/// per minute of one day, in minute order, puts the same number of
/// records in every bucket — five, one per minute of the bucket's
/// window — so the completeness check passes whatever its tolerance.
pub proof fn lemma_full_day_gen_coverage(rows: Seq<EnergyGenCsvRow>)
    requires
        rows.len() == 1440,
        forall|j: int|
            0 <= j < rows.len() ==> (#[trigger] rows[j].hour) == j / 60 && rows[j].minute == j
                % 60,
    ensures
        forall|b: int| 0 <= b < NUM_BUCKETS ==> #[trigger] gen_bucket_count(rows, b) == 5,
        forall|b: int|
            0 <= b < NUM_BUCKETS ==> #[trigger] diff_of(
                gen_bucket_count(rows, b),
                gen_bucket_count(rows, 0),
            ) == 0,
{
    assert(rows.take(1440) =~= rows);
    assert forall|b: int| 0 <= b < NUM_BUCKETS implies #[trigger] gen_bucket_count(rows, b)
        == 5 by {
        lemma_minute_grid_gen_prefix(rows, b, 1440);
    }
}

impl Compute {
    /// Reduces a price series to its 288-slot daily profile of
    /// truncated per-bucket means. Fails, before any mean is taken,
    /// when some bucket's sample count diverges from bucket 0's by
    /// more than `PRICE_WINDOW_MISS`; the error carries the reference
    /// count and the first offending bucket's count.
    pub fn average_price_5min(&self, rows: &Vec<EnergyPriceCsvRow>) -> (r: Result<
        Vec<i64>,
        ComputeError,
    >)
        requires
            forall|i: int| 0 <= i < rows@.len() ==> #[trigger] rows@[i].valid(),
        ensures
            match r {
                Ok(means) => {
                    &&& means@.len() == NUM_BUCKETS
                    &&& forall|b: int|
                        0 <= b < NUM_BUCKETS ==> #[trigger] diff_of(
                            price_bucket_count(rows@, b),
                            price_bucket_count(rows@, 0),
                        ) <= PRICE_WINDOW_MISS
                    &&& forall|b: int|
                        0 <= b < NUM_BUCKETS ==> #[trigger] (means@[b] as int) == bucket_mean(
                            price_bucket_sum(rows@, b),
                            price_bucket_count(rows@, b),
                        )
                },
                Err(ComputeError::NonUniformDistribution { reference, count }) => {
                    &&& reference == price_bucket_count(rows@, 0)
                    &&& exists|b: int|
                        0 <= b < NUM_BUCKETS && #[trigger] diff_of(
                            price_bucket_count(rows@, b),
                            price_bucket_count(rows@, 0),
                        ) > PRICE_WINDOW_MISS && count == price_bucket_count(rows@, b) && (
                        forall|c: int|
                            0 <= c < b ==> #[trigger] diff_of(
                                price_bucket_count(rows@, c),
                                price_bucket_count(rows@, 0),
                            ) <= PRICE_WINDOW_MISS)
                },
            },
    {
        let mut sums: Vec<i128> = vec![0i128; NUM_BUCKETS];
        let mut counts: Vec<usize> = vec![0usize; NUM_BUCKETS];
        let n = rows.len();
        for i in 0..n
            invariant
                sums@.len() == NUM_BUCKETS,
                counts@.len() == NUM_BUCKETS,
                n == rows@.len(),
                forall|j: int| 0 <= j < n ==> #[trigger] rows@[j].valid(),
                forall|b: int|
                    0 <= b < NUM_BUCKETS ==> #[trigger] (counts@[b] as int) == price_bucket_count(
                        rows@.take(i as int),
                        b,
                    ),
                forall|b: int| 0 <= b < NUM_BUCKETS ==> #[trigger] counts@[b] <= i,
                forall|b: int|
                    0 <= b < NUM_BUCKETS ==> #[trigger] (sums@[b] as int) == price_bucket_sum(
                        rows@.take(i as int),
                        b,
                    ),
                forall|b: int|
                    0 <= b < NUM_BUCKETS ==> -((counts@[b] as int) * VAL_LIMIT) <= #[trigger] (
                    sums@[b] as int) <= (counts@[b] as int) * VAL_LIMIT,
        {
            let row = &rows[i];
            proof {
                assert(rows@[i as int].valid());
            }
            let idx = Compute::time_to_idx_5min(row.hour, row.minute);
            let ghost pre_counts = counts@;
            let ghost pre_sums = sums@;
            proof {
                vstd::arithmetic::mul::lemma_mul_inequality(
                    counts@[idx as int] as int,
                    usize::MAX as int,
                    VAL_LIMIT as int,
                );
            }
            sums[idx] = sums[idx] + row.lmp_avg as i128;
            counts[idx] = counts[idx] + 1;
            proof {
                assert(rows@.take(i + 1).drop_last() =~= rows@.take(i as int));
                assert(rows@.take(i + 1).last() == rows@[i as int]);
                assert forall|b: int| 0 <= b < NUM_BUCKETS implies {
                    &&& #[trigger] (counts@[b] as int) == price_bucket_count(rows@.take(i + 1), b)
                    &&& counts@[b] <= i + 1
                } by {
                    assert(price_bucket_count(rows@.take(i + 1), b) == price_bucket_count(
                        rows@.take(i as int),
                        b,
                    ) + if bucket_of(rows@[i as int].hour as int, rows@[i as int].minute as int)
                        == b {
                        1int
                    } else {
                        0int
                    });
                }
                assert forall|b: int| 0 <= b < NUM_BUCKETS implies {
                    &&& #[trigger] (sums@[b] as int) == price_bucket_sum(rows@.take(i + 1), b)
                    &&& -((counts@[b] as int) * VAL_LIMIT) <= (sums@[b] as int) <= (
                    counts@[b] as int) * VAL_LIMIT
                } by {
                    assert(price_bucket_sum(rows@.take(i + 1), b) == price_bucket_sum(
                        rows@.take(i as int),
                        b,
                    ) + if bucket_of(rows@[i as int].hour as int, rows@[i as int].minute as int)
                        == b {
                        rows@[i as int].lmp_avg as int
                    } else {
                        0int
                    });
                    assert((pre_counts[b] as int + 1) * VAL_LIMIT == (pre_counts[b] as int)
                        * VAL_LIMIT + VAL_LIMIT) by (nonlinear_arith);
                }
            }
        }
        proof {
            assert(rows@.take(n as int) =~= rows@);
        }
        let ref_count = counts[0];
        for b in 0..NUM_BUCKETS
            invariant
                counts@.len() == NUM_BUCKETS,
                ref_count == counts@[0],
                forall|c: int|
                    0 <= c < NUM_BUCKETS ==> #[trigger] (counts@[c] as int) == price_bucket_count(
                        rows@,
                        c,
                    ),
                forall|c: int|
                    0 <= c < b ==> #[trigger] diff_of(
                        price_bucket_count(rows@, c),
                        price_bucket_count(rows@, 0),
                    ) <= PRICE_WINDOW_MISS,
        {
            let ct = counts[b];
            let d = if ct >= ref_count {
                ct - ref_count
            } else {
                ref_count - ct
            };
            if d > PRICE_WINDOW_MISS {
                proof {
                    assert(diff_of(price_bucket_count(rows@, b as int), price_bucket_count(rows@, 0))
                        > PRICE_WINDOW_MISS);
                }
                return Err(ComputeError::NonUniformDistribution { reference: ref_count, count: ct });
            }
        }
        let mut means: Vec<i64> = Vec::new();
        for b in 0..NUM_BUCKETS
            invariant
                sums@.len() == NUM_BUCKETS,
                counts@.len() == NUM_BUCKETS,
                means@.len() == b,
                forall|c: int|
                    0 <= c < NUM_BUCKETS ==> #[trigger] (counts@[c] as int) == price_bucket_count(
                        rows@,
                        c,
                    ),
                forall|c: int|
                    0 <= c < NUM_BUCKETS ==> #[trigger] (sums@[c] as int) == price_bucket_sum(
                        rows@,
                        c,
                    ),
                forall|c: int|
                    0 <= c < NUM_BUCKETS ==> -((counts@[c] as int) * VAL_LIMIT) <= #[trigger] (
                    sums@[c] as int) <= (counts@[c] as int) * VAL_LIMIT,
                forall|c: int|
                    0 <= c < NUM_BUCKETS ==> #[trigger] diff_of(
                        price_bucket_count(rows@, c),
                        price_bucket_count(rows@, 0),
                    ) <= PRICE_WINDOW_MISS,
                forall|c: int|
                    0 <= c < b ==> #[trigger] (means@[c] as int) == bucket_mean(
                        price_bucket_sum(rows@, c),
                        price_bucket_count(rows@, c),
                    ),
        {
            let ct = counts[b];
            if ct == 0 {
                means.push(0);
            } else {
                proof {
                    lemma_div_trunc_bound(sums@[b as int] as int, ct as int, VAL_LIMIT as int);
                }
                let m = div_trunc_i128(sums[b], ct as i128);
                means.push(m as i64);
            }
        }
        Ok(means)
    }
}

/// One cell of the flattened per-bucket, per-source accumulator.
spec fn cell(sums: Seq<i128>, b: int, s: int) -> int {
    sums[b * NUM_SOURCES + s] as int
}

/// Distinct (bucket, source) pairs use distinct flat indices.
proof fn lemma_cell_inj(b1: int, s1: int, b2: int, s2: int)
    requires
        0 <= s1 < NUM_SOURCES,
        0 <= s2 < NUM_SOURCES,
        b1 * NUM_SOURCES + s1 == b2 * NUM_SOURCES + s2,
    ensures
        b1 == b2,
        s1 == s2,
{
    assert(b1 == b2 && s1 == s2) by (nonlinear_arith)
        requires
            0 <= s1 < 14,
            0 <= s2 < 14,
            b1 * 14 + s1 == b2 * 14 + s2,
    ;
}

impl Compute {
    /// Reduces a generation series to its 288-slot daily profile of
    /// truncated per-bucket, per-source means, the optional category
    /// merge applied to each record before accumulation. Fails,
    /// before any mean is taken, when some bucket's record count
    /// diverges from bucket 0's by more than `MAX_WINDOW_MISS`.
    fn average_gen_5min_custom(
        &self,
        rows: &Vec<EnergyGenCsvRow>,
        merge: Option<CategoryMerge>,
    ) -> (r: Result<Vec<Vec<i64>>, ComputeError>)
        requires
            forall|i: int| 0 <= i < rows@.len() ==> #[trigger] rows@[i].valid(),
            merge matches Some(cm) ==> cm.wf(),
        ensures
            match r {
                Ok(means) => {
                    &&& means@.len() == NUM_BUCKETS
                    &&& forall|b: int|
                        0 <= b < NUM_BUCKETS ==> #[trigger] means@[b]@.len() == NUM_SOURCES
                    &&& forall|b: int|
                        0 <= b < NUM_BUCKETS ==> #[trigger] diff_of(
                            gen_bucket_count(rows@, b),
                            gen_bucket_count(rows@, 0),
                        ) <= MAX_WINDOW_MISS
                    &&& forall|b: int, s: int|
                        0 <= b < NUM_BUCKETS && 0 <= s < NUM_SOURCES ==> #[trigger] (
                        means@[b]@[s] as int) == bucket_mean(
                            gen_bucket_sum(rows@, merge, b, s),
                            gen_bucket_count(rows@, b),
                        )
                },
                Err(ComputeError::NonUniformDistribution { reference, count }) => {
                    &&& reference == gen_bucket_count(rows@, 0)
                    &&& exists|b: int|
                        0 <= b < NUM_BUCKETS && #[trigger] diff_of(
                            gen_bucket_count(rows@, b),
                            gen_bucket_count(rows@, 0),
                        ) > MAX_WINDOW_MISS && count == gen_bucket_count(rows@, b) && (forall|
                            c: int,
                        |
                            0 <= c < b ==> #[trigger] diff_of(
                                gen_bucket_count(rows@, c),
                                gen_bucket_count(rows@, 0),
                            ) <= MAX_WINDOW_MISS)
                },
            },
    {
        let mut sums: Vec<i128> = vec![0i128; NUM_BUCKETS * NUM_SOURCES];
        let mut counts: Vec<usize> = vec![0usize; NUM_BUCKETS];
        let n = rows.len();
        for i in 0..n
            invariant
                sums@.len() == NUM_BUCKETS * NUM_SOURCES,
                counts@.len() == NUM_BUCKETS,
                n == rows@.len(),
                forall|j: int| 0 <= j < n ==> #[trigger] rows@[j].valid(),
                merge matches Some(cm) ==> cm.wf(),
                forall|b: int|
                    0 <= b < NUM_BUCKETS ==> #[trigger] (counts@[b] as int) == gen_bucket_count(
                        rows@.take(i as int),
                        b,
                    ),
                forall|b: int| 0 <= b < NUM_BUCKETS ==> #[trigger] counts@[b] <= i,
                forall|b: int, s: int|
                    0 <= b < NUM_BUCKETS && 0 <= s < NUM_SOURCES ==> #[trigger] cell(sums@, b, s)
                        == gen_bucket_sum(rows@.take(i as int), merge, b, s),
                forall|b: int, s: int|
                    0 <= b < NUM_BUCKETS && 0 <= s < NUM_SOURCES ==> -((counts@[b] as int) * (2
                        * VAL_LIMIT)) <= #[trigger] cell(sums@, b, s) <= (counts@[b] as int) * (2
                        * VAL_LIMIT),
        {
            let row = &rows[i];
            proof {
                assert(rows@[i as int].valid());
            }
            let ghost applied = opt_apply(merge, rows@[i as int].sources_spec());
            let mut srcs = row.sources();
            proof {
                assert(srcs@.map_values(|v: i64| v as int) =~= rows@[i as int].sources_spec());
            }
            match &merge {
                Some(m) => m.apply(&mut srcs),
                None => {},
            }
            proof {
                assert forall|t: int| 0 <= t < NUM_SOURCES implies #[trigger] (srcs@[t] as int)
                    == applied[t] && -2 * VAL_LIMIT <= srcs@[t] <= 2 * VAL_LIMIT by {
                    lemma_opt_apply_bound(merge, rows@[i as int], t);
                }
            }
            let idx = Compute::time_to_idx_5min(row.hour, row.minute);
            let ghost pre_sums = sums@;
            let ghost pre_counts = counts@;
            for s in 0..NUM_SOURCES
                invariant
                    sums@.len() == NUM_BUCKETS * NUM_SOURCES,
                    srcs@.len() == NUM_SOURCES,
                    idx < NUM_BUCKETS,
                    idx == bucket_of(rows@[i as int].hour as int, rows@[i as int].minute as int),
                    counts@ == pre_counts,
                    counts@.len() == NUM_BUCKETS,
                    forall|t: int|
                        0 <= t < NUM_SOURCES ==> #[trigger] (srcs@[t] as int) == applied[t] && -2
                            * VAL_LIMIT <= srcs@[t] <= 2 * VAL_LIMIT,
                    forall|b: int| 0 <= b < NUM_BUCKETS ==> #[trigger] counts@[b] <= i < n,
                    forall|b: int, t: int|
                        0 <= b < NUM_BUCKETS && 0 <= t < NUM_SOURCES && (b != idx || t >= s)
                            ==> #[trigger] cell(sums@, b, t) == cell(pre_sums, b, t),
                    forall|t: int|
                        0 <= t < s ==> #[trigger] cell(sums@, idx as int, t) == cell(
                            pre_sums,
                            idx as int,
                            t,
                        ) + applied[t],
                    forall|b: int, t: int|
                        0 <= b < NUM_BUCKETS && 0 <= t < NUM_SOURCES ==> -((counts@[b] as int) * (2
                            * VAL_LIMIT)) <= #[trigger] cell(pre_sums, b, t) <= (
                        counts@[b] as int) * (2 * VAL_LIMIT),
            {
                let fi = idx * NUM_SOURCES + s;
                proof {
                    assert(cell(sums@, idx as int, s as int) == cell(pre_sums, idx as int, s as int));
                    vstd::arithmetic::mul::lemma_mul_inequality(
                        counts@[idx as int] as int,
                        usize::MAX as int,
                        2 * VAL_LIMIT as int,
                    );
                }
                let ghost mid_sums = sums@;
                sums[fi] = sums[fi] + srcs[s] as i128;
                proof {
                    assert forall|b: int, t: int|
                        0 <= b < NUM_BUCKETS && 0 <= t < NUM_SOURCES && (b != idx || t != s)
                            implies #[trigger] cell(sums@, b, t) == cell(mid_sums, b, t) by {
                        if b * NUM_SOURCES + t == idx as int * NUM_SOURCES + s as int {
                            lemma_cell_inj(b, t, idx as int, s as int);
                        }
                    }
                }
            }
            counts[idx] = counts[idx] + 1;
            proof {
                assert(rows@.take(i + 1).drop_last() =~= rows@.take(i as int));
                assert(rows@.take(i + 1).last() == rows@[i as int]);
                assert forall|b: int| 0 <= b < NUM_BUCKETS implies {
                    &&& #[trigger] (counts@[b] as int) == gen_bucket_count(rows@.take(i + 1), b)
                    &&& counts@[b] <= i + 1
                } by {
                    assert(gen_bucket_count(rows@.take(i + 1), b) == gen_bucket_count(
                        rows@.take(i as int),
                        b,
                    ) + if bucket_of(rows@[i as int].hour as int, rows@[i as int].minute as int)
                        == b {
                        1int
                    } else {
                        0int
                    });
                }
                assert forall|b: int, s: int|
                    0 <= b < NUM_BUCKETS && 0 <= s < NUM_SOURCES implies {
                    &&& #[trigger] cell(sums@, b, s) == gen_bucket_sum(
                        rows@.take(i + 1),
                        merge,
                        b,
                        s,
                    )
                    &&& -((counts@[b] as int) * (2 * VAL_LIMIT)) <= cell(sums@, b, s) <= (
                    counts@[b] as int) * (2 * VAL_LIMIT)
                } by {
                    assert(gen_bucket_sum(rows@.take(i + 1), merge, b, s) == gen_bucket_sum(
                        rows@.take(i as int),
                        merge,
                        b,
                        s,
                    ) + if bucket_of(rows@[i as int].hour as int, rows@[i as int].minute as int)
                        == b {
                        opt_apply(merge, rows@[i as int].sources_spec())[s]
                    } else {
                        0int
                    });
                    assert((pre_counts[b] as int + 1) * (2 * VAL_LIMIT) == (pre_counts[b] as int)
                        * (2 * VAL_LIMIT) + 2 * VAL_LIMIT) by (nonlinear_arith);
                }
            }
        }
        proof {
            assert(rows@.take(n as int) =~= rows@);
        }
        let ref_count = counts[0];
        for b in 0..NUM_BUCKETS
            invariant
                counts@.len() == NUM_BUCKETS,
                ref_count == counts@[0],
                forall|c: int|
                    0 <= c < NUM_BUCKETS ==> #[trigger] (counts@[c] as int) == gen_bucket_count(
                        rows@,
                        c,
                    ),
                forall|c: int|
                    0 <= c < b ==> #[trigger] diff_of(
                        gen_bucket_count(rows@, c),
                        gen_bucket_count(rows@, 0),
                    ) <= MAX_WINDOW_MISS,
        {
            let ct = counts[b];
            let d = if ct >= ref_count {
                ct - ref_count
            } else {
                ref_count - ct
            };
            if d > MAX_WINDOW_MISS {
                proof {
                    assert(diff_of(gen_bucket_count(rows@, b as int), gen_bucket_count(rows@, 0))
                        > MAX_WINDOW_MISS);
                }
                return Err(ComputeError::NonUniformDistribution { reference: ref_count, count: ct });
            }
        }
        let mut means: Vec<Vec<i64>> = Vec::new();
        for b in 0..NUM_BUCKETS
            invariant
                sums@.len() == NUM_BUCKETS * NUM_SOURCES,
                counts@.len() == NUM_BUCKETS,
                means@.len() == b,
                forall|c: int|
                    0 <= c < NUM_BUCKETS ==> #[trigger] (counts@[c] as int) == gen_bucket_count(
                        rows@,
                        c,
                    ),
                forall|c: int, s: int|
                    0 <= c < NUM_BUCKETS && 0 <= s < NUM_SOURCES ==> #[trigger] cell(sums@, c, s)
                        == gen_bucket_sum(rows@, merge, c, s),
                forall|c: int, s: int|
                    0 <= c < NUM_BUCKETS && 0 <= s < NUM_SOURCES ==> -((counts@[c] as int) * (2
                        * VAL_LIMIT)) <= #[trigger] cell(sums@, c, s) <= (counts@[c] as int) * (2
                        * VAL_LIMIT),
                forall|c: int|
                    0 <= c < NUM_BUCKETS ==> #[trigger] diff_of(
                        gen_bucket_count(rows@, c),
                        gen_bucket_count(rows@, 0),
                    ) <= MAX_WINDOW_MISS,
                forall|c: int| 0 <= c < b ==> #[trigger] means@[c]@.len() == NUM_SOURCES,
                forall|c: int, s: int|
                    0 <= c < b && 0 <= s < NUM_SOURCES ==> #[trigger] (means@[c]@[s] as int)
                        == bucket_mean(gen_bucket_sum(rows@, merge, c, s), gen_bucket_count(rows@, c)),
        {
            let ct = counts[b];
            let mut slot: Vec<i64> = Vec::new();
            for s in 0..NUM_SOURCES
                invariant
                    sums@.len() == NUM_BUCKETS * NUM_SOURCES,
                    counts@.len() == NUM_BUCKETS,
                    b < NUM_BUCKETS,
                    ct == counts@[b as int],
                    ct as int == gen_bucket_count(rows@, b as int),
                    slot@.len() == s,
                    forall|c: int, t: int|
                        0 <= c < NUM_BUCKETS && 0 <= t < NUM_SOURCES ==> #[trigger] cell(
                            sums@,
                            c,
                            t,
                        ) == gen_bucket_sum(rows@, merge, c, t),
                    forall|c: int, t: int|
                        0 <= c < NUM_BUCKETS && 0 <= t < NUM_SOURCES ==> -((counts@[c] as int) * (2
                            * VAL_LIMIT)) <= #[trigger] cell(sums@, c, t) <= (counts@[c] as int)
                            * (2 * VAL_LIMIT),
                    forall|t: int|
                        0 <= t < s ==> #[trigger] (slot@[t] as int) == bucket_mean(
                            gen_bucket_sum(rows@, merge, b as int, t),
                            gen_bucket_count(rows@, b as int),
                        ),
            {
                let fi = b * NUM_SOURCES + s;
                proof {
                    assert(sums@[fi as int] as int == cell(sums@, b as int, s as int));
                }
                if ct == 0 {
                    slot.push(0);
                } else {
                    proof {
                        lemma_div_trunc_bound(
                            sums@[fi as int] as int,
                            ct as int,
                            2 * VAL_LIMIT as int,
                        );
                    }
                    let m = div_trunc_i128(sums[fi], ct as i128);
                    slot.push(m as i64);
                }
            }
            means.push(slot);
        }
        Ok(means)
    }

    /// The 288-slot daily profile of per-source generation means.
    pub fn average_gen_5min(&self, rows: &Vec<EnergyGenCsvRow>) -> (r: Result<
        Vec<Vec<i64>>,
        ComputeError,
    >)
        requires
            forall|i: int| 0 <= i < rows@.len() ==> #[trigger] rows@[i].valid(),
        ensures
            match r {
                Ok(means) => {
                    &&& means@.len() == NUM_BUCKETS
                    &&& forall|b: int|
                        0 <= b < NUM_BUCKETS ==> #[trigger] means@[b]@.len() == NUM_SOURCES
                    &&& forall|b: int|
                        0 <= b < NUM_BUCKETS ==> #[trigger] diff_of(
                            gen_bucket_count(rows@, b),
                            gen_bucket_count(rows@, 0),
                        ) <= MAX_WINDOW_MISS
                    &&& forall|b: int, s: int|
                        0 <= b < NUM_BUCKETS && 0 <= s < NUM_SOURCES ==> #[trigger] (
                        means@[b]@[s] as int) == bucket_mean(
                            gen_bucket_sum(rows@, None, b, s),
                            gen_bucket_count(rows@, b),
                        )
                },
                Err(ComputeError::NonUniformDistribution { reference, count }) => {
                    &&& reference == gen_bucket_count(rows@, 0)
                    &&& exists|b: int|
                        0 <= b < NUM_BUCKETS && #[trigger] diff_of(
                            gen_bucket_count(rows@, b),
                            gen_bucket_count(rows@, 0),
                        ) > MAX_WINDOW_MISS && count == gen_bucket_count(rows@, b)
                },
            },
    {
        self.average_gen_5min_custom(rows, None)
    }

    /// `average_gen_5min` under the hypothetical of battery output
    /// folded into the solar column.
    pub fn average_gen_solar_battery(&self, rows: &Vec<EnergyGenCsvRow>) -> (r: Result<
        Vec<Vec<i64>>,
        ComputeError,
    >)
        requires
            forall|i: int| 0 <= i < rows@.len() ==> #[trigger] rows@[i].valid(),
        ensures
            match r {
                Ok(means) => {
                    &&& means@.len() == NUM_BUCKETS
                    &&& forall|b: int|
                        0 <= b < NUM_BUCKETS ==> #[trigger] means@[b]@.len() == NUM_SOURCES
                    &&& forall|b: int|
                        0 <= b < NUM_BUCKETS ==> #[trigger] diff_of(
                            gen_bucket_count(rows@, b),
                            gen_bucket_count(rows@, 0),
                        ) <= MAX_WINDOW_MISS
                    &&& forall|b: int, s: int|
                        0 <= b < NUM_BUCKETS && 0 <= s < NUM_SOURCES ==> #[trigger] (
                        means@[b]@[s] as int) == bucket_mean(
                            gen_bucket_sum(
                                rows@,
                                Some(CategoryMerge { donor: 1, receiver: 12 }),
                                b,
                                s,
                            ),
                            gen_bucket_count(rows@, b),
                        )
                },
                Err(ComputeError::NonUniformDistribution { reference, count }) => {
                    &&& reference == gen_bucket_count(rows@, 0)
                    &&& exists|b: int|
                        0 <= b < NUM_BUCKETS && #[trigger] diff_of(
                            gen_bucket_count(rows@, b),
                            gen_bucket_count(rows@, 0),
                        ) > MAX_WINDOW_MISS && count == gen_bucket_count(rows@, b)
                },
            },
    {
        self.average_gen_5min_custom(rows, Some(CategoryMerge::solar_battery()))
    }
}

/// Zero-quantity guard: a source whose (transformed) quantity is zero
/// in every aligned pair accumulates a zero quantity total and a zero
/// value total, so the value pass reports average 0 and total 0 for
/// it rather than dividing by zero.
pub proof fn lemma_zero_quantity_guard(
    pairs: Seq<(EnergyPriceCsvRow, EnergyGenCsvRow)>,
    m: Option<CategoryMerge>,
    s: int,
)
    requires
        forall|i: int|
            0 <= i < pairs.len() ==> #[trigger] opt_apply(m, pairs[i].1.sources_spec())[s] == 0,
    ensures
        pair_qty_total(pairs, m, s) == 0,
        pair_value_total(pairs, m, s) == 0,
    decreases pairs.len(),
{
    if pairs.len() > 0 {
        assert(opt_apply(m, pairs[0].1.sources_spec())[s] == 0);
        assert(pairs.first() == pairs[0]);
        assert(pair_qty_total(pairs, m, s) == vstd::math::abs(
            opt_apply(m, pairs.first().1.sources_spec())[s],
        ) + pair_qty_total(pairs.drop_first(), m, s));
        assert(pair_value_total(pairs, m, s) == vstd::math::abs(
            opt_apply(m, pairs.first().1.sources_spec())[s],
        ) * pairs.first().0.lmp_avg + pair_value_total(pairs.drop_first(), m, s));
        assert forall|i: int|
            0 <= i < pairs.drop_first().len() implies #[trigger] opt_apply(
            m,
            pairs.drop_first()[i].1.sources_spec(),
        )[s] == 0 by {
            assert(pairs.drop_first()[i] == pairs[i + 1]);
        }
        lemma_zero_quantity_guard(pairs.drop_first(), m, s);
    }
}

/// Every pair the merge-join emits takes its generation record from
/// the generation series.
proof fn lemma_join_gen_membership(ps: Seq<EnergyPriceCsvRow>, gs: Seq<EnergyGenCsvRow>)
    ensures
        forall|k: int|
            0 <= k < spec_join(ps, gs).len() ==> gs.contains(#[trigger] spec_join(ps, gs)[k].1),
    decreases ps.len() + gs.len(),
{
    if ps.len() == 0 || gs.len() == 0 {
    } else {
        match (price_key(ps.first()), gen_key(gs.first())) {
            (Some(pk), Some(gk)) => {
                if pk == gk {
                    lemma_join_gen_membership(ps.drop_first(), gs.drop_first());
                    let rest = spec_join(ps.drop_first(), gs.drop_first());
                    assert(spec_join(ps, gs) == seq![(ps.first(), gs.first())] + rest);
                    assert forall|k: int| 0 <= k < spec_join(ps, gs).len() implies gs.contains(
                        #[trigger] spec_join(ps, gs)[k].1,
                    ) by {
                        if k == 0 {
                            assert(spec_join(ps, gs)[0].1 == gs[0]);
                            assert(gs.contains(gs[0]));
                        } else {
                            assert(spec_join(ps, gs)[k] == rest[k - 1]);
                            assert(gs.drop_first().contains(rest[k - 1].1));
                            assert(gs.skip(0) =~= gs);
                            lemma_skip_suffix_contains(gs, 0, 1);
                        }
                    }
                } else if pk < gk {
                    lemma_join_gen_membership(ps.drop_first(), gs);
                    assert(spec_join(ps, gs) == spec_join(ps.drop_first(), gs));
                } else {
                    lemma_join_gen_membership(ps, gs.drop_first());
                    assert(spec_join(ps, gs) == spec_join(ps, gs.drop_first()));
                    assert forall|k: int| 0 <= k < spec_join(ps, gs).len() implies gs.contains(
                        #[trigger] spec_join(ps, gs)[k].1,
                    ) by {
                        assert(gs.drop_first().contains(spec_join(ps, gs.drop_first())[k].1));
                        assert(gs.skip(0) =~= gs);
                        lemma_skip_suffix_contains(gs, 0, 1);
                    }
                }
            },
            _ => {},
        }
    }
}

/// The zero-quantity guard stated over the two series themselves: a
/// source whose (transformed) quantity is zero in every generation
/// record accumulates a zero quantity total and a zero value total
/// over the aligned join, so the value pass reports average 0 and
/// total 0 for it.
pub proof fn lemma_zero_quantity_source(
    prices: Seq<EnergyPriceCsvRow>,
    gens: Seq<EnergyGenCsvRow>,
    m: Option<CategoryMerge>,
    s: int,
)
    requires
        forall|i: int|
            0 <= i < gens.len() ==> #[trigger] opt_apply(m, gens[i].sources_spec())[s] == 0,
    ensures
        pair_qty_total(spec_join(prices, gens), m, s) == 0,
        pair_value_total(spec_join(prices, gens), m, s) == 0,
{
    lemma_join_gen_membership(prices, gens);
    let pairs = spec_join(prices, gens);
    assert forall|k: int| 0 <= k < pairs.len() implies #[trigger] opt_apply(
        m,
        pairs[k].1.sources_spec(),
    )[s] == 0 by {
        assert(gens.contains(pairs[k].1));
        let i = choose|i: int| 0 <= i < gens.len() && gens[i] == pairs[k].1;
        assert(opt_apply(m, gens[i].sources_spec())[s] == 0);
    }
    lemma_zero_quantity_guard(pairs, m, s);
}

/// Everything in a later suffix of a sequence is in an earlier one.
proof fn lemma_skip_suffix_contains<T>(s: Seq<T>, a: int, b: int)
    requires
        0 <= a <= b <= s.len(),
    ensures
        forall|x: T| #[trigger] s.skip(b).contains(x) ==> s.skip(a).contains(x),
{
    assert forall|x: T| #[trigger] s.skip(b).contains(x) implies s.skip(a).contains(x) by {
        let i = choose|i: int| 0 <= i < s.skip(b).len() && s.skip(b)[i] == x;
        assert(s.skip(a)[i + b - a] == x);
    }
}

/// Round trip of the bucket indexer: mapping a bucket index to the
/// clock time at its start and back recovers the index, for every one
/// of the 288 buckets.
pub proof fn lemma_bucket_round_trip(idx: int)
    requires
        0 <= idx < NUM_BUCKETS,
    ensures
        0 <= bucket_hour(idx) < 24,
        0 <= bucket_minute(idx) < 60,
        bucket_of(bucket_hour(idx), bucket_minute(idx)) == idx,
{
    let t = idx * 5;
    vstd::arithmetic::div_mod::lemma_fundamental_div_mod(t, 60);
    assert(t == 60 * (t / 60) + t % 60);
    assert(0 <= t < 1440) by (nonlinear_arith)
        requires
            0 <= idx < 288,
            t == idx * 5,
    ;
    assert(t / 60 < 24 && t % 60 < 60) by (nonlinear_arith)
        requires
            0 <= t < 1440,
    ;
    assert(bucket_hour(idx) * 60 + bucket_minute(idx) == t);
    vstd::arithmetic::div_mod::lemma_div_multiples_vanish(idx, 5);
    assert((5 * idx) / 5 == idx);
    assert(t == 5 * idx) by (nonlinear_arith)
        requires
            t == idx * 5,
    ;
}

} // verus!
