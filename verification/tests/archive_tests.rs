use shelly_web::aggreated_archive_data::{AggregatedArchiveData, EnergyData, GetEnergyData, Granularity};
use shelly_web::archive::{Archive, EnergyUnit, PowerUnit, SqlValue};
use shelly_web::archive_service::{
    aggregate_to_archive_data, aggregation_fits_for, entries_fit_chart, get_entries,
    get_timestamp_last_round_day, get_timestamp_last_round_hour, get_timestamp_last_round_timestamp,
    is_different_granularity, new_archive_entry, utc_timestamp, entry_to_insert, tables_missing,
};

fn entry(timestamp: u64, energy: u32) -> Archive {
    Archive {
        timestamp,
        plug_id: 1,
        power: 1000,
        power_unit: PowerUnit::Milliwatt,
        energy,
        energy_unit: EnergyUnit::MiliwattMinute,
        total_energy: 11000,
    }
}

#[test]
fn rounding() {
    assert_eq!(get_timestamp_last_round_hour(7199), 3600);
    assert_eq!(get_timestamp_last_round_hour(7200), 7200);
    assert_eq!(get_timestamp_last_round_day(86399), 0);
    assert_eq!(get_timestamp_last_round_day(1672227677), 1672185600);
    assert_eq!(get_timestamp_last_round_timestamp(Granularity::Hours, 1672227677), 1672225200);
    assert_eq!(get_timestamp_last_round_timestamp(Granularity::Days, 1672227677), 1672185600);
    assert_eq!(get_timestamp_last_round_timestamp(Granularity::Weeks, 1672227677), 1672227677);
    assert_eq!(get_timestamp_last_round_hour(u64::MAX), u64::MAX / 3600 * 3600);
}

#[test]
fn different_granularity() {
    assert!(is_different_granularity(Granularity::Days, 86400, 86399));
    assert!(!is_different_granularity(Granularity::Days, 86400, 100000));
    // hourly aggregation opens a new aggregate only on a new day
    assert!(!is_different_granularity(Granularity::Hours, 3600, 7200));
    assert!(is_different_granularity(Granularity::Hours, 90000, 3600));
    assert!(!is_different_granularity(Granularity::Months, 0, 1_000_000_000));
}

#[test]
fn aggregation_by_day() {
    let entries = vec![entry(10, 1), entry(20, 2), entry(86400 + 5, 4), entry(86400 + 7, 8), entry(30, 16)];
    let aggregated = aggregate_to_archive_data(entries, Granularity::Days);
    assert_eq!(aggregated.len(), 3);
    assert_eq!(aggregated[0], AggregatedArchiveData {
        timestamp: 0,
        plug_id: 1,
        energy: 3,
        energy_unit: EnergyUnit::MiliwattMinute,
        granularity: Granularity::Days,
    });
    assert_eq!(aggregated[1].timestamp, 86400);
    assert_eq!(aggregated[1].energy, 12);
    assert_eq!(aggregated[2].timestamp, 0);
    assert_eq!(aggregated[2].energy, 16);
    let total: u32 = aggregated.iter().map(|a| a.energy).sum();
    assert_eq!(total, 31);
}

#[test]
fn aggregation_by_hour_groups_by_day() {
    let entries = vec![entry(3700, 1), entry(7300, 2), entry(86400 + 3700, 4)];
    let aggregated = aggregate_to_archive_data(entries, Granularity::Hours);
    assert_eq!(aggregated.len(), 2);
    assert_eq!(aggregated[0].timestamp, 3600);
    assert_eq!(aggregated[0].energy, 3);
    assert_eq!(aggregated[0].granularity, Granularity::Hours);
    assert_eq!(aggregated[1].timestamp, 86400 + 3600);
}

#[test]
fn aggregation_coarse_single() {
    let entries = vec![entry(5, 1), entry(10_000_000, 2), entry(3, 3)];
    let aggregated = aggregate_to_archive_data(entries, Granularity::Years);
    assert_eq!(aggregated.len(), 1);
    assert_eq!(aggregated[0].timestamp, 5);
    assert_eq!(aggregated[0].energy, 6);
    assert!(aggregate_to_archive_data(Vec::new(), Granularity::Days).is_empty());
}

#[test]
fn aggregation_overflow_check() {
    let fits = vec![entry(1, u32::MAX - 1), entry(2, 1), entry(86400, u32::MAX)];
    assert!(aggregation_fits_for(&fits, Granularity::Days));
    let overflows = vec![entry(1, u32::MAX), entry(2, 1)];
    assert!(!aggregation_fits_for(&overflows, Granularity::Days));
    assert!(aggregation_fits_for(&vec![entry(1, u32::MAX), entry(86401, 1)], Granularity::Days));
    let last = aggregate_to_archive_data(fits, Granularity::Days);
    assert_eq!(last[0].energy, u32::MAX);
}

#[test]
fn chart_below_hourly_threshold_is_one_to_one() {
    let entries: Vec<Archive> = (0..1439u64).map(|i| entry(i * 60, 2)).collect();
    assert!(entries_fit_chart(&entries));
    let points = get_entries(entries.clone());
    assert_eq!(points.len(), 1439);
    assert_eq!(points[5], EnergyData { timestamp: 300, plug_id: 1, energy: 2, energy_unit: EnergyUnit::MiliwattMinute });
    assert_eq!(points[5], entries[5].get_energy_data());
}

#[test]
fn chart_hourly_threshold() {
    // 1440 minutes over two days: hourly aggregation groups by day
    let entries: Vec<Archive> = (0..1440u64).map(|i| entry(43200 + i * 60, 1)).collect();
    let points = get_entries(entries);
    assert_eq!(points.len(), 2);
    assert_eq!(points[0].timestamp, 43200);
    assert_eq!(points[0].energy, 720);
    assert_eq!(points[1].timestamp, 86400);
    assert_eq!(points[1].energy, 720);
}

#[test]
fn chart_daily_threshold() {
    let entries: Vec<Archive> = (0..43200u64).map(|i| entry(i * 60, 1)).collect();
    let points = get_entries(entries);
    assert_eq!(points.len(), 30);
    assert!(points.iter().all(|p| p.energy == 1440 && p.timestamp % 86400 == 0));
}

#[test]
fn chart_fit_check_with_many_entries() {
    let entries: Vec<Archive> = (0..1440u64).map(|_| entry(0, u32::MAX / 1000)).collect();
    assert!(!entries_fit_chart(&entries));
}

#[test]
fn aggregated_energy_data() {
    let aggregated = AggregatedArchiveData {
        timestamp: 3600,
        plug_id: 2,
        energy: 9,
        energy_unit: EnergyUnit::WattHours,
        granularity: Granularity::Hours,
    };
    assert_eq!(aggregated.get_energy_data(), EnergyData { timestamp: 3600, plug_id: 2, energy: 9, energy_unit: EnergyUnit::WattHours });
}

#[test]
fn units_from_and_code() {
    for code in 0..=2i64 {
        assert_eq!(PowerUnit::from(code).code() as i64, code);
    }
    for code in 0..=5i64 {
        assert_eq!(EnergyUnit::from(code).code() as i64, code);
    }
    assert_eq!(PowerUnit::from(2), PowerUnit::Kilowatt);
    assert_eq!(EnergyUnit::from(1), EnergyUnit::MiliwattMinute);
    assert_eq!(EnergyUnit::from(5), EnergyUnit::KilowattHours);
    assert_eq!(EnergyUnit::WattMinutes.code(), 3);
}

#[test]
fn units_from_columns() {
    assert_eq!(PowerUnit::column_result(SqlValue::Null), PowerUnit::Milliwatt);
    assert_eq!(PowerUnit::column_result(SqlValue::Integer(1)), PowerUnit::Watt);
    assert_eq!(EnergyUnit::column_result(SqlValue::Null), EnergyUnit::WattMinutes);
    assert_eq!(EnergyUnit::column_result(SqlValue::Integer(0)), EnergyUnit::MilliwattSeconds);
}

#[test]
fn utc_timestamp_conversion() {
    assert_eq!(utc_timestamp(1672227677, 3600), 1672224077);
    assert_eq!(utc_timestamp(100, -3600), 3700);
    assert_eq!(utc_timestamp(0, 1), u64::MAX);
    assert_eq!(utc_timestamp(u64::MAX, -1), 0);
    assert_eq!(utc_timestamp(5, 0), 5);
}

#[test]
fn new_archive_entry_row() {
    let row = new_archive_entry(1, 1000, 1000, 11);
    assert_eq!(row, Archive {
        timestamp: 1,
        plug_id: 1,
        power: 1000,
        power_unit: PowerUnit::Milliwatt,
        energy: 1000,
        energy_unit: EnergyUnit::MiliwattMinute,
        total_energy: 11000,
    });
    assert_eq!(new_archive_entry(0, 0, 0, u32::MAX).total_energy, u32::MAX as u64 * 1000);
}

#[test]
fn entry_inserted_only_when_absent() {
    assert_eq!(entry_to_insert(Some(0), 7, 1000, 2000, 11), Some(new_archive_entry(7, 1000, 2000, 11)));
    assert_eq!(entry_to_insert(Some(1), 7, 1000, 2000, 11), None);
    assert_eq!(entry_to_insert(None, 7, 1000, 2000, 11), None);
}

#[test]
fn tables_created_when_missing() {
    assert!(tables_missing(None));
    assert!(tables_missing(Some(0)));
    assert!(!tables_missing(Some(1)));
}

#[test]
fn ordered_entries_one_aggregate_per_day() {
    let entries: Vec<Archive> = vec![
        entry(100, 1),
        entry(5000, 2),
        entry(86400 + 10, 4),
        entry(86400 + 7300, 8),
        entry(3 * 86400 + 1, 16),
    ];
    let daily = aggregate_to_archive_data(entries.clone(), Granularity::Days);
    let stamps: Vec<u64> = daily.iter().map(|a| a.timestamp).collect();
    let energies: Vec<u32> = daily.iter().map(|a| a.energy).collect();
    assert_eq!(stamps, vec![0, 86400, 3 * 86400]);
    assert_eq!(energies, vec![3, 12, 16]);
    let hourly = aggregate_to_archive_data(entries, Granularity::Hours);
    let stamps: Vec<u64> = hourly.iter().map(|a| a.timestamp).collect();
    let energies: Vec<u32> = hourly.iter().map(|a| a.energy).collect();
    assert_eq!(stamps, vec![0, 86400, 3 * 86400]);
    assert_eq!(energies, vec![3, 12, 16]);
}
