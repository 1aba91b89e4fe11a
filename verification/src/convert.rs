//! Record types shared by the aggregation pipelines.
//!
//! A price record carries one locational-marginal-price sample; a
//! generation record carries one interval of per-source output. Both
//! keep the local timestamp string that the merge-join aligns on, and
//! the hour/minute pair that the bucketed aggregator keys on. Values
//! are fixed-point integers in thousandths of the external unit
//! ($/MWh for prices, MWh for quantities).

use vstd::prelude::*;

verus! {

/// Number of generation source categories, the synthetic "total"
/// column included.
pub const NUM_SOURCES: usize = 14;

/// Magnitude bound on every fixed-point sample value. Sums and
/// products of in-range values stay far inside `i128`, which the
/// accumulators rely on.
pub const VAL_LIMIT: i64 = 1_000_000_000_000;

/// One price sample: the timestamp it was taken at (also the join
/// key), its hour and minute, and the zone-averaged locational
/// marginal price in thousandths of a currency unit.
pub struct EnergyPriceCsvRow {
    pub timestamp: String,
    pub hour: u32,
    pub minute: u32,
    pub lmp_avg: i64,
}

impl EnergyPriceCsvRow {
    /// An in-range record: a clock time that exists, and a price
    /// within the fixed-point bound.
    pub open spec fn valid(self) -> bool {
        &&& self.hour < 24
        &&& self.minute < 60
        &&& -VAL_LIMIT <= self.lmp_avg <= VAL_LIMIT
    }

    /// An exact copy; the aligned-pair iterator hands out copies of
    /// the matched records.
    pub fn duplicate(&self) -> (r: Self)
        ensures
            r == *self,
    {
        EnergyPriceCsvRow {
            timestamp: self.timestamp.clone(),
            hour: self.hour,
            minute: self.minute,
            lmp_avg: self.lmp_avg,
        }
    }
}

/// One generation interval: its timestamps, hour and minute, and a
/// signed quantity for each source category, in thousandths of a MWh.
/// `local_timestamp_start` is the join key.
pub struct EnergyGenCsvRow {
    pub utc_timestamp: String,
    pub local_timestamp_start: String,
    pub local_timestamp_end: String,
    pub local_date: String,
    pub hour: u32,

    pub total: i64,
    pub battery: i64,
    pub biogas: i64,
    pub biomass: i64,
    pub coal: i64,
    pub geothermal: i64,
    pub imports: i64,
    pub large_hydro: i64,
    pub natural_gas: i64,
    pub nuclear: i64,
    pub other: i64,
    pub small_hydro: i64,
    pub solar: i64,
    pub wind: i64,

    pub minute: u32,
}

impl EnergyGenCsvRow {
    /// The source quantities in their fixed order; index 0 is the
    /// synthetic "total".
    pub open spec fn sources_spec(self) -> Seq<int> {
        seq![
            self.total as int,
            self.battery as int,
            self.biogas as int,
            self.biomass as int,
            self.coal as int,
            self.geothermal as int,
            self.imports as int,
            self.large_hydro as int,
            self.natural_gas as int,
            self.nuclear as int,
            self.other as int,
            self.small_hydro as int,
            self.solar as int,
            self.wind as int,
        ]
    }

    /// An in-range record: a clock time that exists, and every source
    /// quantity within the fixed-point bound.
    pub open spec fn valid(self) -> bool {
        &&& self.hour < 24
        &&& self.minute < 60
        &&& forall|s: int|
            0 <= s < NUM_SOURCES ==> -VAL_LIMIT <= #[trigger] self.sources_spec()[s] <= VAL_LIMIT
    }

    /// The source quantities as a vector, in the fixed category order.
    pub fn sources(&self) -> (r: Vec<i64>)
        ensures
            r@.len() == NUM_SOURCES,
            forall|s: int| 0 <= s < NUM_SOURCES ==> #[trigger] (r@[s] as int) == self.sources_spec()[s],
    {
        let r = vec![
            self.total,
            self.battery,
            self.biogas,
            self.biomass,
            self.coal,
            self.geothermal,
            self.imports,
            self.large_hydro,
            self.natural_gas,
            self.nuclear,
            self.other,
            self.small_hydro,
            self.solar,
            self.wind,
        ];
        assert forall|s: int| 0 <= s < NUM_SOURCES implies #[trigger] (r@[s] as int)
            == self.sources_spec()[s] by {
            assert(r@.len() == 14);
        }
        r
    }

    /// An exact copy; the aligned-pair iterator hands out copies of
    /// the matched records.
    pub fn duplicate(&self) -> (r: Self)
        ensures
            r == *self,
    {
        EnergyGenCsvRow {
            utc_timestamp: self.utc_timestamp.clone(),
            local_timestamp_start: self.local_timestamp_start.clone(),
            local_timestamp_end: self.local_timestamp_end.clone(),
            local_date: self.local_date.clone(),
            hour: self.hour,
            total: self.total,
            battery: self.battery,
            biogas: self.biogas,
            biomass: self.biomass,
            coal: self.coal,
            geothermal: self.geothermal,
            imports: self.imports,
            large_hydro: self.large_hydro,
            natural_gas: self.natural_gas,
            nuclear: self.nuclear,
            other: self.other,
            small_hydro: self.small_hydro,
            solar: self.solar,
            wind: self.wind,
            minute: self.minute,
        }
    }
}

/// The display name of each source category, in the fixed order of
/// `EnergyGenCsvRow::sources`.
pub open spec fn source_key_spec(s: int) -> Seq<char> {
    if s == 0 {
        "Total"@
    } else if s == 1 {
        "Batteries"@
    } else if s == 2 {
        "Biogas"@
    } else if s == 3 {
        "Biomass"@
    } else if s == 4 {
        "Coal"@
    } else if s == 5 {
        "Geothermal"@
    } else if s == 6 {
        "Imports"@
    } else if s == 7 {
        "Large Hydro"@
    } else if s == 8 {
        "Natural Gas"@
    } else if s == 9 {
        "Nuclear"@
    } else if s == 10 {
        "Other"@
    } else if s == 11 {
        "Small Hydro"@
    } else if s == 12 {
        "Solar"@
    } else if s == 13 {
        "Wind"@
    } else {
        Seq::empty()
    }
}

impl EnergyGenCsvRow {
    /// The category names in source order, for writers and charts.
    pub fn source_keys() -> (r: Vec<&'static str>)
        ensures
            r@.len() == NUM_SOURCES,
            forall|s: int| 0 <= s < NUM_SOURCES ==> #[trigger] r@[s]@ == source_key_spec(s),
    {
        let r: Vec<&'static str> = vec![
            "Total",
            "Batteries",
            "Biogas",
            "Biomass",
            "Coal",
            "Geothermal",
            "Imports",
            "Large Hydro",
            "Natural Gas",
            "Nuclear",
            "Other",
            "Small Hydro",
            "Solar",
            "Wind",
        ];
        assert forall|s: int| 0 <= s < NUM_SOURCES implies #[trigger] r@[s]@ == source_key_spec(s) by {
            assert(r@.len() == 14);
        }
        r
    }
}

} // verus!
