//! The aligned-pair merge-join, the value aggregation, and the
//! category-merge transform.

use energy_analysis::compute::{CategoryMerge, Compute, PriceGenIter};
use energy_analysis::convert::{EnergyGenCsvRow, EnergyPriceCsvRow};

fn price_at(ts: &str, lmp_avg: i64) -> EnergyPriceCsvRow {
    EnergyPriceCsvRow {
        timestamp: ts.to_string(),
        hour: 0,
        minute: 0,
        lmp_avg,
    }
}

fn gen_at(ts: &str, sources: [i64; 14]) -> EnergyGenCsvRow {
    EnergyGenCsvRow {
        utc_timestamp: ts.to_string(),
        local_timestamp_start: ts.to_string(),
        local_timestamp_end: ts.to_string(),
        local_date: "2024-01-01".to_string(),
        hour: 0,
        total: sources[0],
        battery: sources[1],
        biogas: sources[2],
        biomass: sources[3],
        coal: sources[4],
        geothermal: sources[5],
        imports: sources[6],
        large_hydro: sources[7],
        natural_gas: sources[8],
        nuclear: sources[9],
        other: sources[10],
        small_hydro: sources[11],
        solar: sources[12],
        wind: sources[13],
        minute: 0,
    }
}

const T1: &str = "2024-01-01 00:00:00";
const T2: &str = "2024-01-01 00:05:00";
const T3: &str = "2024-01-01 00:10:00";

#[test]
fn join_aligns_exactly_matching_timestamps() {
    let prices = vec![price_at(T1, 100), price_at(T2, 200), price_at(T3, 300)];
    let gens = vec![gen_at(T1, [0; 14]), gen_at(T3, [0; 14])];
    let mut it = PriceGenIter::new(prices, gens);

    let (p, g) = it.next().expect("pair at T1");
    assert_eq!(p.timestamp, T1);
    assert_eq!(g.local_timestamp_start, T1);
    assert_eq!(p.lmp_avg, 100);

    let (p, g) = it.next().expect("pair at T3");
    assert_eq!(p.timestamp, T3);
    assert_eq!(g.local_timestamp_start, T3);
    assert_eq!(p.lmp_avg, 300);

    assert!(it.next().is_none());
    assert!(it.next().is_none());
}

#[test]
fn join_drops_unmatched_records_on_either_side() {
    let prices = vec![price_at(T2, 200)];
    let gens = vec![gen_at(T1, [0; 14]), gen_at(T3, [0; 14])];
    let mut it = PriceGenIter::new(prices, gens);
    assert!(it.next().is_none());
}

#[test]
fn join_treats_malformed_timestamp_as_end_of_stream() {
    let prices = vec![price_at(T1, 100), price_at("not a time", 200), price_at(T3, 300)];
    let gens = vec![gen_at(T1, [0; 14]), gen_at(T3, [0; 14])];
    let mut it = PriceGenIter::new(prices, gens);

    let (p, _) = it.next().expect("pair at T1 before the malformed record");
    assert_eq!(p.timestamp, T1);
    assert!(it.next().is_none());
}

#[test]
fn weighted_average_over_two_aligned_pairs() {
    // Quantities 10 and 30 at prices 2.0 and 4.0 (thousandths):
    // (10*2000 + 30*4000) / (10 + 30) = 3500, total quantity 40.
    let prices = vec![price_at(T1, 2000), price_at(T2, 4000)];
    let mut s1 = [0i64; 14];
    s1[13] = 10;
    let mut s2 = [0i64; 14];
    s2[13] = 30;
    let gens = vec![gen_at(T1, s1), gen_at(T2, s2)];
    let (avgs, qtys) = Compute::average_value_5min(prices, gens);
    assert_eq!(avgs.len(), 14);
    assert_eq!(qtys.len(), 14);
    assert_eq!(avgs[13], 3500);
    assert_eq!(qtys[13], 40);
}

#[test]
fn negative_quantities_weigh_by_magnitude() {
    let prices = vec![price_at(T1, 2000), price_at(T2, 4000)];
    let mut s1 = [0i64; 14];
    s1[13] = -10;
    let mut s2 = [0i64; 14];
    s2[13] = 30;
    let gens = vec![gen_at(T1, s1), gen_at(T2, s2)];
    let (avgs, qtys) = Compute::average_value_5min(prices, gens);
    // value total |−10|*2000 + |30|*4000 = 140000 over |−10|+|30| = 40
    assert_eq!(qtys[13], 40);
    assert_eq!(avgs[13], 3500);
}

#[test]
fn a_purely_negative_source_still_averages_the_price() {
    // One pair with quantity −10 at price 2.0: the weight is the
    // magnitude, so the average is +2.0, not −2.0.
    let prices = vec![price_at(T1, 2000)];
    let mut s = [0i64; 14];
    s[13] = -10;
    let gens = vec![gen_at(T1, s)];
    let (avgs, qtys) = Compute::average_value_5min(prices, gens);
    assert_eq!(qtys[13], 10);
    assert_eq!(avgs[13], 2000);
}

#[test]
fn all_zero_source_reports_zero_not_a_division_failure() {
    let prices = vec![price_at(T1, 2000), price_at(T2, 4000)];
    let gens = vec![gen_at(T1, [0; 14]), gen_at(T2, [0; 14])];
    let (avgs, qtys) = Compute::average_value_5min(prices, gens);
    for s in 0..14 {
        assert_eq!(avgs[s], 0);
        assert_eq!(qtys[s], 0);
    }
}

#[test]
fn value_on_empty_series_is_all_zero() {
    let (avgs, qtys) = Compute::average_value_5min(Vec::new(), Vec::new());
    assert!(avgs.iter().all(|&v| v == 0));
    assert!(qtys.iter().all(|&v| v == 0));
}

#[test]
fn category_merge_zeroes_donor_and_sums_receiver() {
    let merge = CategoryMerge::solar_battery();
    assert_eq!(merge.donor, Compute::battery_idx());
    assert_eq!(merge.receiver, Compute::solar_idx());

    let mut srcs: Vec<i64> = vec![0; 14];
    srcs[1] = 5000;
    srcs[12] = 7000;
    srcs[3] = 42;
    merge.apply(&mut srcs);
    assert_eq!(srcs[1], 0);
    assert_eq!(srcs[12], 12000);
    assert_eq!(srcs[3], 42);

    // Applying the merge again changes nothing: the donor stays zero.
    let before = srcs.clone();
    merge.apply(&mut srcs);
    assert_eq!(srcs, before);
}

#[test]
fn source_key_table_is_pinned() {
    let keys = EnergyGenCsvRow::source_keys();
    assert_eq!(keys.len(), 14);
    assert_eq!(keys[0], "Total");
    assert_eq!(keys[Compute::battery_idx()], "Batteries");
    assert_eq!(keys[Compute::solar_idx()], "Solar");
    assert_eq!(keys[13], "Wind");
}

#[test]
fn sources_vector_follows_the_fixed_order() {
    let mut srcs = [0i64; 14];
    for (i, v) in srcs.iter_mut().enumerate() {
        *v = i as i64 * 10;
    }
    let row = gen_at(T1, srcs);
    let v = row.sources();
    assert_eq!(v.len(), 14);
    for (i, got) in v.iter().enumerate() {
        assert_eq!(*got, i as i64 * 10);
    }
}

#[test]
fn value_solar_battery_weights_merged_column() {
    // Battery 10 and solar 30 at price 2.0; merged they weigh 40 on
    // the solar column and the battery column reports zero.
    let prices = vec![price_at(T1, 2000)];
    let mut s = [0i64; 14];
    s[1] = 10;
    s[12] = 30;
    let gens = vec![gen_at(T1, s)];
    let (avgs, qtys) = Compute::average_value_solar_battery(prices, gens);
    assert_eq!(qtys[1], 0);
    assert_eq!(avgs[1], 0);
    assert_eq!(qtys[12], 40);
    assert_eq!(avgs[12], 2000);
}
