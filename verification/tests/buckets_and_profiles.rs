//! Bucket indexing and the bucketed (price and generation) profiles.

use energy_analysis::compute::{Compute, ComputeError};
use energy_analysis::convert::{EnergyGenCsvRow, EnergyPriceCsvRow};

fn price_row(hour: u32, minute: u32, lmp_avg: i64) -> EnergyPriceCsvRow {
    EnergyPriceCsvRow {
        timestamp: format!("2024-01-01 {:02}:{:02}:00", hour, minute),
        hour,
        minute,
        lmp_avg,
    }
}

fn gen_row(hour: u32, minute: u32, sources: [i64; 14]) -> EnergyGenCsvRow {
    let ts = format!("2024-01-01 {:02}:{:02}:00", hour, minute);
    EnergyGenCsvRow {
        utc_timestamp: ts.clone(),
        local_timestamp_start: ts.clone(),
        local_timestamp_end: ts,
        local_date: "2024-01-01".to_string(),
        hour,
        total: sources[0],
        battery: sources[1],
        biogas: sources[2],
        biomass: sources[3],
        coal: sources[4],
        geothermal: sources[5],
        imports: sources[6],
        large_hydro: sources[7],
        natural_gas: sources[8],
        nuclear: sources[9],
        other: sources[10],
        small_hydro: sources[11],
        solar: sources[12],
        wind: sources[13],
        minute,
    }
}

#[test]
fn bucket_round_trip_all_indices() {
    for idx in 0..288usize {
        let (hour, minute) = Compute::idx_5min_to_time(idx);
        assert_eq!(Compute::time_to_idx_5min(hour, minute), idx);
    }
}

#[test]
fn bucket_index_spot_values() {
    assert_eq!(Compute::time_to_idx_5min(0, 0), 0);
    assert_eq!(Compute::time_to_idx_5min(0, 4), 0);
    assert_eq!(Compute::time_to_idx_5min(0, 5), 1);
    assert_eq!(Compute::time_to_idx_5min(1, 0), 12);
    assert_eq!(Compute::time_to_idx_5min(23, 59), 287);
    assert_eq!(Compute::idx_5min_to_time(0), (0, 0));
    assert_eq!(Compute::idx_5min_to_time(287), (23, 55));
}

#[test]
fn one_record_per_minute_fills_every_bucket_uniformly() {
    let mut rows = Vec::new();
    for hour in 0..24 {
        for minute in 0..60 {
            rows.push(price_row(hour, minute, 3000));
        }
    }
    assert_eq!(rows.len(), 1440);
    let means = Compute::new().average_price_5min(&rows).expect("uniform day must pass");
    assert_eq!(means.len(), 288);
    for m in means {
        assert_eq!(m, 3000);
    }
}

#[test]
fn twelve_samples_per_bucket_pass_uniformity() {
    let mut rows = Vec::new();
    for _day in 0..12 {
        for hour in 0..24 {
            for minute in [0, 5, 10, 15, 20, 25, 30, 35, 40, 45, 50, 55] {
                rows.push(price_row(hour, minute, 2500));
            }
        }
    }
    assert_eq!(rows.len(), 12 * 288);
    let means = Compute::new().average_price_5min(&rows).expect("equal counts must pass");
    for m in means {
        assert_eq!(m, 2500);
    }
}

#[test]
fn empty_bucket_against_twelve_reference_samples_fails() {
    let mut rows = Vec::new();
    for _ in 0..12 {
        rows.push(price_row(0, 0, 1000));
    }
    let r = Compute::new().average_price_5min(&rows);
    assert_eq!(
        r,
        Err(ComputeError::NonUniformDistribution { reference: 12, count: 0 })
    );
}

#[test]
fn price_uniformity_tolerates_a_gap_of_eight() {
    // Bucket 0 holds eight samples, every other bucket none: the gap
    // is exactly the price tolerance, so the pass succeeds.
    let mut rows = Vec::new();
    for _ in 0..8 {
        rows.push(price_row(0, 0, 4000));
    }
    let means = Compute::new().average_price_5min(&rows).expect("gap of eight is tolerated");
    assert_eq!(means[0], 4000);
    assert_eq!(means[1], 0);
}

#[test]
fn price_uniformity_rejects_a_gap_of_nine() {
    let mut rows = Vec::new();
    for _ in 0..9 {
        rows.push(price_row(0, 0, 4000));
    }
    let r = Compute::new().average_price_5min(&rows);
    assert_eq!(
        r,
        Err(ComputeError::NonUniformDistribution { reference: 9, count: 0 })
    );
}

#[test]
fn price_mean_truncates_toward_zero() {
    let mut rows = Vec::new();
    rows.push(price_row(0, 0, -5));
    rows.push(price_row(0, 1, -4));
    rows.push(price_row(0, 5, 9));
    rows.push(price_row(0, 6, 0));
    let means = Compute::new().average_price_5min(&rows).expect("small gaps pass");
    assert_eq!(means[0], -4); // (-9)/2 truncated toward zero
    assert_eq!(means[1], 4); // 9/2 truncated toward zero
    assert_eq!(means[2], 0); // empty bucket reports the zero sentinel
}

#[test]
fn empty_input_yields_all_zero_profile() {
    let rows: Vec<EnergyPriceCsvRow> = Vec::new();
    let means = Compute::new().average_price_5min(&rows).expect("empty input is uniform");
    assert_eq!(means.len(), 288);
    assert!(means.iter().all(|&m| m == 0));
}

#[test]
fn gen_profile_averages_each_source() {
    let mut srcs_a = [0i64; 14];
    srcs_a[1] = 5000;
    srcs_a[12] = 7000;
    let mut srcs_b = [0i64; 14];
    srcs_b[1] = 3000;
    srcs_b[12] = 9000;
    let rows = vec![gen_row(0, 0, srcs_a), gen_row(0, 1, srcs_b)];
    let means = Compute::new().average_gen_5min(&rows).expect("single bucket passes");
    assert_eq!(means.len(), 288);
    assert_eq!(means[0].len(), 14);
    assert_eq!(means[0][1], 4000);
    assert_eq!(means[0][12], 8000);
    assert_eq!(means[0][0], 0);
    assert_eq!(means[1][1], 0);
}

#[test]
fn gen_solar_battery_merges_columns_before_bucketing() {
    let mut srcs = [0i64; 14];
    srcs[1] = 5000; // battery
    srcs[12] = 7000; // solar
    let rows = vec![gen_row(0, 0, srcs)];
    let means = Compute::new().average_gen_solar_battery(&rows).expect("single bucket passes");
    assert_eq!(means[0][1], 0);
    assert_eq!(means[0][12], 12000);
}

#[test]
fn gen_uniformity_tolerates_twelve_but_rejects_thirteen() {
    let srcs = [0i64; 14];
    let rows_ok: Vec<EnergyGenCsvRow> = (0..12).map(|_| gen_row(0, 0, srcs)).collect();
    assert!(Compute::new().average_gen_5min(&rows_ok).is_ok());

    let rows_bad: Vec<EnergyGenCsvRow> = (0..13).map(|_| gen_row(0, 0, srcs)).collect();
    let r = Compute::new().average_gen_5min(&rows_bad);
    assert_eq!(
        r,
        Err(ComputeError::NonUniformDistribution { reference: 13, count: 0 })
    );
}
