//! The archive: how stored measurements are summed up for the chart, how a
//! Shelly reading becomes an archive row, and when the archive loop fetches,
//! measures and trims.

use vstd::prelude::*;

use crate::aggreated_archive_data::{AggregatedArchiveData, EnergyData, GetEnergyData, Granularity};
use crate::archive::{Archive, EnergyUnit, PowerUnit};

verus! {

/// Seconds in an hour.
pub const SECONDS_PER_HOUR: u64 = 3600;

/// Seconds in a day.
pub const SECONDS_PER_DAY: u64 = 86400;

/// From this many entries on, the chart shows one point per day.
pub const DAILY_FROM_ENTRIES: usize = 43200;

/// From this many entries on (and below the daily threshold), the chart
/// shows one point per period of `Granularity::Hours`.
pub const HOURLY_FROM_ENTRIES: usize = 1440;

/// The start of the hour that contains `t`.
pub open spec fn round_hour(t: u64) -> u64 {
    (t as int / 3600 * 3600) as u64
}

/// The start of the (UTC) day that contains `t`.
pub open spec fn round_day(t: u64) -> u64 {
    (t as int / 86400 * 86400) as u64
}

/// The timestamp that an aggregate of the given granularity starting with a
/// measurement at `t` carries: the start of its hour or day; the coarser
/// granularities keep `t` itself.
pub open spec fn round_to(granularity: Granularity, t: u64) -> u64 {
    match granularity {
        Granularity::Days => round_day(t),
        Granularity::Hours => round_hour(t),
        _ => t,
    }
}

/// Whether a measurement at `first` opens a new aggregate after one stamped
/// `second`: for days and hours alike, when the two lie on different days;
/// the coarser granularities never open a new one.
pub open spec fn differs_in_period(granularity: Granularity, first: u64, second: u64) -> bool {
    match granularity {
        Granularity::Days => round_day(first) != round_day(second),
        Granularity::Hours => round_day(first) != round_day(second),
        _ => false,
    }
}

/// The start of the hour that contains `timestamp`.
pub fn get_timestamp_last_round_hour(timestamp: u64) -> (r: u64)
    ensures
        r == round_hour(timestamp),
        r <= timestamp,
        timestamp - r < 3600,
        r % 3600 == 0,
{
    timestamp / 3600 * 3600
}

/// The start of the day that contains `timestamp`.
pub fn get_timestamp_last_round_day(timestamp: u64) -> (r: u64)
    ensures
        r == round_day(timestamp),
        r <= timestamp,
        timestamp - r < 86400,
        r % 86400 == 0,
{
    timestamp / 86400 * 86400
}

/// The timestamp of an aggregate that starts with a measurement at
/// `timestamp`.
pub fn get_timestamp_last_round_timestamp(granularity: Granularity, timestamp: u64) -> (r: u64)
    ensures
        r == round_to(granularity, timestamp),
{
    match granularity {
        Granularity::Days => get_timestamp_last_round_day(timestamp),
        Granularity::Hours => get_timestamp_last_round_hour(timestamp),
        _ => timestamp,
    }
}

/// Whether a measurement at `first_timestamp` opens a new aggregate after
/// the one stamped `second_timestamp`.
pub fn is_different_granularity(
    granularity: Granularity,
    first_timestamp: u64,
    second_timestamp: u64,
) -> (r: bool)
    ensures
        r == differs_in_period(granularity, first_timestamp, second_timestamp),
{
    match granularity {
        Granularity::Days => get_timestamp_last_round_day(first_timestamp)
            != get_timestamp_last_round_day(second_timestamp),
        Granularity::Hours => get_timestamp_last_round_day(first_timestamp)
            != get_timestamp_last_round_day(second_timestamp),
        _ => false,
    }
}

/// The runs of consecutive entries that are summed up into one aggregate
/// each: an entry joins the last run unless it lies in a different period
/// than that run's (rounded) timestamp.
pub open spec fn period_runs(entries: Seq<Archive>, granularity: Granularity) -> Seq<Seq<Archive>>
    decreases entries.len(),
{
    if entries.len() == 0 {
        Seq::empty()
    } else {
        let runs = period_runs(entries.drop_last(), granularity);
        let entry = entries.last();
        if runs.len() == 0 || differs_in_period(
            granularity,
            entry.timestamp,
            round_to(granularity, runs.last()[0].timestamp),
        ) {
            runs.push(seq![entry])
        } else {
            runs.update(runs.len() - 1, runs.last().push(entry))
        }
    }
}

/// The energy of a run of entries, summed up.
pub open spec fn energy_sum(entries: Seq<Archive>) -> int
    decreases entries.len(),
{
    if entries.len() == 0 {
        0
    } else {
        energy_sum(entries.drop_last()) + entries.last().energy
    }
}

/// The aggregate of one run: stamped with the rounded timestamp of its first
/// entry, with that entry's plug and energy unit, and the run's energy.
pub open spec fn run_summary(run: Seq<Archive>, granularity: Granularity) -> AggregatedArchiveData {
    AggregatedArchiveData {
        timestamp: round_to(granularity, run[0].timestamp),
        plug_id: run[0].plug_id,
        energy: energy_sum(run) as u32,
        energy_unit: run[0].energy_unit,
        granularity,
    }
}

/// The aggregates of `entries`, one per run.
pub open spec fn aggregate(entries: Seq<Archive>, granularity: Granularity) -> Seq<
    AggregatedArchiveData,
> {
    period_runs(entries, granularity).map_values(|run: Seq<Archive>| run_summary(run, granularity))
}

/// Whether summing up `entries` never takes a running total past
/// `u32::MAX`: after each entry, the run it belongs to still fits.
pub open spec fn aggregation_fits(entries: Seq<Archive>, granularity: Granularity) -> bool {
    forall|k: int|
        1 <= k <= entries.len() ==> energy_sum(#[trigger] period_runs(entries.take(k), granularity).last())
            <= u32::MAX
}

/// A sum of energies is never negative.
pub proof fn lemma_energy_sum_nonnegative(entries: Seq<Archive>)
    ensures
        energy_sum(entries) >= 0,
    decreases entries.len(),
{
    if entries.len() > 0 {
        lemma_energy_sum_nonnegative(entries.drop_last());
    }
}

/// Every run holds at least one entry.
pub proof fn lemma_runs_nonempty(entries: Seq<Archive>, granularity: Granularity)
    ensures
        forall|i: int|
            0 <= i < period_runs(entries, granularity).len() ==> #[trigger] period_runs(
                entries,
                granularity,
            )[i].len() > 0,
        (period_runs(entries, granularity).len() == 0) == (entries.len() == 0),
        period_runs(entries, granularity).len() <= entries.len(),
    decreases entries.len(),
{
    if entries.len() > 0 {
        lemma_runs_nonempty(entries.drop_last(), granularity);
    }
}

/// Sums up the entries of one plug into aggregates of the given
/// granularity, in the order of the entries.
pub fn aggregate_to_archive_data(vec: Vec<Archive>, granularity: Granularity) -> (r: Vec<
    AggregatedArchiveData,
>)
    requires
        aggregation_fits(vec@, granularity),
    ensures
        r@ == aggregate(vec@, granularity),
{
    let mut aggregated_datas: Vec<AggregatedArchiveData> = Vec::new();
    let n = vec.len();
    let mut i: usize = 0;
    assert(vec@.take(0) =~= Seq::<Archive>::empty());
    while i < n
        invariant
            i <= n,
            n == vec@.len(),
            aggregation_fits(vec@, granularity),
            aggregated_datas@ == aggregate(vec@.take(i as int), granularity),
        decreases n - i,
    {
        let ele = vec[i];
        let ghost before = vec@.take(i as int);
        let ghost after = vec@.take(i + 1);
        let ghost runs = period_runs(before, granularity);
        proof {
            assert(after.drop_last() =~= before);
            assert(after.last() == ele);
            lemma_runs_nonempty(before, granularity);
        }
        if aggregated_datas.len() == 0 || is_different_granularity(
            granularity,
            ele.timestamp,
            aggregated_datas[aggregated_datas.len() - 1].timestamp,
        ) {
            let aggregated_data = AggregatedArchiveData {
                timestamp: get_timestamp_last_round_timestamp(granularity, ele.timestamp),
                plug_id: ele.plug_id,
                energy: ele.energy,
                energy_unit: ele.energy_unit,
                granularity,
            };
            aggregated_datas.push(aggregated_data);
            proof {
                let single = seq![ele];
                assert(single.drop_last() =~= Seq::<Archive>::empty());
                assert(energy_sum(Seq::<Archive>::empty()) == 0);
                assert(energy_sum(single) == ele.energy);
                assert(run_summary(single, granularity) == aggregated_data);
                assert(aggregated_datas@ =~= aggregate(after, granularity));
            }
        } else {
            let last_index = aggregated_datas.len() - 1;
            let ghost last_run = runs.last();
            proof {
                assert(last_run.len() > 0);
                let k = i as int;
                assert(1 <= k <= vec@.len());
                assert(energy_sum(period_runs(vec@.take(k), granularity).last()) <= u32::MAX);
                assert(vec@.take(k) == before);
                let k1 = k + 1;
                assert(energy_sum(period_runs(vec@.take(k1), granularity).last()) <= u32::MAX);
                assert(vec@.take(k1) == after);
                let grown = last_run.push(ele);
                assert(grown.drop_last() =~= last_run);
                assert(period_runs(after, granularity).last() == grown);
                lemma_energy_sum_nonnegative(last_run);
                assert(aggregated_datas@[last_index as int] == run_summary(last_run, granularity));
                assert(energy_sum(grown) == energy_sum(last_run) + ele.energy);
            }
            let mut last = aggregated_datas[last_index];
            last.energy = last.energy + ele.energy;
            aggregated_datas.set(last_index, last);
            proof {
                let grown = last_run.push(ele);
                assert(grown[0] == last_run[0]);
                assert(run_summary(grown, granularity) == last);
                assert(aggregated_datas@ =~= aggregate(after, granularity));
            }
        }
        i = i + 1;
    }
    assert(vec@.take(n as int) =~= vec@);
    aggregated_datas
}

/// Whether `aggregation_fits` holds, checked by running the sums.
pub fn aggregation_fits_for(vec: &Vec<Archive>, granularity: Granularity) -> (r: bool)
    ensures
        r == aggregation_fits(vec@, granularity),
{
    let n = vec.len();
    let mut i: usize = 0;
    let mut running: u64 = 0;
    let mut run_stamp: u64 = 0;
    while i < n
        invariant
            i <= n,
            n == vec@.len(),
            forall|k: int|
                1 <= k <= i ==> energy_sum(#[trigger] period_runs(vec@.take(k), granularity).last())
                    <= u32::MAX,
            i > 0 ==> running == energy_sum(period_runs(vec@.take(i as int), granularity).last()),
            i > 0 ==> run_stamp == round_to(
                granularity,
                period_runs(vec@.take(i as int), granularity).last()[0].timestamp,
            ),
        decreases n - i,
    {
        let ele = vec[i];
        let ghost before = vec@.take(i as int);
        let ghost after = vec@.take(i + 1);
        proof {
            assert(after.drop_last() =~= before);
            assert(after.last() == ele);
            lemma_runs_nonempty(before, granularity);
        }
        if i == 0 || is_different_granularity(granularity, ele.timestamp, run_stamp) {
            running = ele.energy as u64;
            run_stamp = get_timestamp_last_round_timestamp(granularity, ele.timestamp);
            proof {
                let single = seq![ele];
                assert(single.drop_last() =~= Seq::<Archive>::empty());
                assert(energy_sum(Seq::<Archive>::empty()) == 0);
                assert(period_runs(after, granularity).last() == single);
            }
        } else {
            let ghost last_run = period_runs(before, granularity).last();
            proof {
                let grown = last_run.push(ele);
                assert(grown.drop_last() =~= last_run);
                assert(period_runs(after, granularity).last() == grown);
                assert(grown[0] == last_run[0]);
            }
            running = running + ele.energy as u64;
        }
        if running > u32::MAX as u64 {
            proof {
                let k = i + 1;
                assert(vec@.take(k) == after);
                assert(!(energy_sum(period_runs(vec@.take(k), granularity).last()) <= u32::MAX));
            }
            return false;
        }
        i = i + 1;
        proof {
            assert(vec@.take(i as int) == after);
        }
    }
    true
}

/// The granularity of the chart for `count` entries, if they are summed up
/// at all.
pub open spec fn chart_granularity(count: nat) -> Option<Granularity> {
    if count >= DAILY_FROM_ENTRIES {
        Some(Granularity::Days)
    } else if count >= HOURLY_FROM_ENTRIES {
        Some(Granularity::Hours)
    } else {
        None
    }
}

/// The points of the chart for the stored `entries` of one plug: one per
/// entry below the hourly threshold, else one per aggregate.
pub open spec fn chart_entries(entries: Seq<Archive>) -> Seq<EnergyData> {
    match chart_granularity(entries.len()) {
        Some(granularity) => aggregate(entries, granularity).map_values(
            |a: AggregatedArchiveData| a.energy_data(),
        ),
        None => entries.map_values(|e: Archive| e.energy_data()),
    }
}

/// Whether the chart for `entries` can be summed up without a running total
/// passing `u32::MAX`.
pub open spec fn chart_fits(entries: Seq<Archive>) -> bool {
    match chart_granularity(entries.len()) {
        Some(granularity) => aggregation_fits(entries, granularity),
        None => true,
    }
}

/// Whether `chart_fits` holds for the stored entries.
pub fn entries_fit_chart(vec: &Vec<Archive>) -> (r: bool)
    ensures
        r == chart_fits(vec@),
{
    let count = vec.len();
    if count >= DAILY_FROM_ENTRIES {
        aggregation_fits_for(vec, Granularity::Days)
    } else if count >= HOURLY_FROM_ENTRIES {
        aggregation_fits_for(vec, Granularity::Hours)
    } else {
        true
    }
}

/// The energy readings of `items`, in order.
pub fn energy_points<T: GetEnergyData>(items: &Vec<T>) -> (r: Vec<EnergyData>)
    ensures
        r@ == items@.map_values(|x: T| x.energy_data()),
{
    let mut points: Vec<EnergyData> = Vec::new();
    let n = items.len();
    let mut i: usize = 0;
    while i < n
        invariant
            i <= n,
            n == items@.len(),
            points@ =~= items@.take(i as int).map_values(|x: T| x.energy_data()),
        decreases n - i,
    {
        points.push(items[i].get_energy_data());
        i = i + 1;
        assert(points@ =~= items@.take(i as int).map_values(|x: T| x.energy_data()));
    }
    assert(items@.take(n as int) =~= items@);
    points
}

/// The points of the energy chart for the stored entries of one plug (in the
/// order the database returned them): from 43200 entries on one point per
/// day, from 1440 entries on one per period of `Granularity::Hours`, and one
/// per entry below that.
pub fn get_entries(vec: Vec<Archive>) -> (r: Vec<EnergyData>)
    requires
        chart_fits(vec@),
    ensures
        r@ == chart_entries(vec@),
{
    let count = vec.len();
    if count >= DAILY_FROM_ENTRIES {
        let aggregated = aggregate_to_archive_data(vec, Granularity::Days);
        energy_points(&aggregated)
    } else if count >= HOURLY_FROM_ENTRIES {
        let aggregated = aggregate_to_archive_data(vec, Granularity::Hours);
        energy_points(&aggregated)
    } else {
        energy_points(&vec)
    }
}

/// The energies of a sequence of aggregates, summed up.
pub open spec fn aggregates_energy(aggregates: Seq<AggregatedArchiveData>) -> int
    decreases aggregates.len(),
{
    if aggregates.len() == 0 {
        0
    } else {
        aggregates_energy(aggregates.drop_last()) + aggregates.last().energy
    }
}

/// The energies of a sequence of runs, summed up.
pub open spec fn runs_energy(runs: Seq<Seq<Archive>>) -> int
    decreases runs.len(),
{
    if runs.len() == 0 {
        0
    } else {
        runs_energy(runs.drop_last()) + energy_sum(runs.last())
    }
}

/// Rounding laws: rounding twice changes nothing, and the start of the hour
/// of `t` lies on the same day as `t`.
pub proof fn lemma_rounding_laws(t: u64)
    ensures
        round_hour(round_hour(t)) == round_hour(t),
        round_day(round_day(t)) == round_day(t),
        round_day(round_hour(t)) == round_day(t),
        round_hour(t) <= t < round_hour(t) + 3600,
        round_day(t) <= t < round_day(t) + 86400,
{
    let a = t as int / 86400;
    let b = t as int % 86400;
    assert(t as int == 86400 * a + b && 0 <= b < 86400);
    let c = b / 3600;
    assert(b == 3600 * c + b % 3600 && 0 <= b % 3600 < 3600);
    assert(t as int / 3600 == 24 * a + c) by (nonlinear_arith)
        requires
            t as int == 86400 * a + 3600 * c + b % 3600,
            0 <= b % 3600 < 3600,
    ;
    assert(0 <= c < 24) by (nonlinear_arith)
        requires
            b == 3600 * c + b % 3600,
            0 <= b % 3600 < 3600,
            0 <= b < 86400,
    ;
    let h = 86400 * a + 3600 * c;
    assert(round_hour(t) == h);
    assert(h / 86400 == a) by (nonlinear_arith)
        requires
            h == 86400 * a + 3600 * c,
            0 <= c < 24,
    ;
    assert(round_day(t) == 86400 * a);
}

/// Each entry lands in exactly one run, and the runs, laid end to end, give
/// back the entries in their order.
pub proof fn lemma_runs_cover_entries(entries: Seq<Archive>, granularity: Granularity)
    ensures
        period_runs(entries, granularity).flatten() == entries,
    decreases entries.len(),
{
    let runs = period_runs(entries, granularity);
    runs.lemma_flatten_and_flatten_alt_are_equivalent();
    if entries.len() > 0 {
        let prefix = entries.drop_last();
        let e = entries.last();
        let previous = period_runs(prefix, granularity);
        lemma_runs_cover_entries(prefix, granularity);
        previous.lemma_flatten_and_flatten_alt_are_equivalent();
        if previous.len() == 0 || differs_in_period(
            granularity,
            e.timestamp,
            round_to(granularity, previous.last()[0].timestamp),
        ) {
            assert(runs.drop_last() =~= previous);
            assert(runs.flatten_alt() =~= prefix + seq![e]);
        } else {
            let last_run = previous.last();
            assert(runs.drop_last() =~= previous.drop_last());
            assert(previous.flatten_alt() =~= previous.drop_last().flatten_alt() + last_run);
            assert(runs.flatten_alt() =~= previous.drop_last().flatten_alt() + last_run.push(e));
            assert(runs.flatten_alt() =~= prefix + seq![e]);
        }
        assert(entries =~= prefix + seq![e]);
    } else {
        assert(runs.flatten_alt() =~= entries);
    }
}

/// The runs together hold all the energy of the entries.
proof fn lemma_runs_energy(entries: Seq<Archive>, granularity: Granularity)
    ensures
        runs_energy(period_runs(entries, granularity)) == energy_sum(entries),
    decreases entries.len(),
{
    if entries.len() > 0 {
        let prefix = entries.drop_last();
        let e = entries.last();
        let previous = period_runs(prefix, granularity);
        let runs = period_runs(entries, granularity);
        lemma_runs_energy(prefix, granularity);
        if previous.len() == 0 || differs_in_period(
            granularity,
            e.timestamp,
            round_to(granularity, previous.last()[0].timestamp),
        ) {
            assert(runs.drop_last() =~= previous);
            let single = seq![e];
            assert(single.drop_last() =~= Seq::<Archive>::empty());
            assert(energy_sum(Seq::<Archive>::empty()) == 0);
            assert(energy_sum(single) == e.energy);
        } else {
            let last_run = previous.last();
            assert(runs.drop_last() =~= previous.drop_last());
            assert(last_run.push(e).drop_last() =~= last_run);
        }
    }
}

/// When the sums fit, every run of the entries fits in a `u32`.
proof fn lemma_every_run_fits(entries: Seq<Archive>, granularity: Granularity)
    requires
        aggregation_fits(entries, granularity),
    ensures
        forall|i: int|
            0 <= i < period_runs(entries, granularity).len() ==> 0 <= energy_sum(
                #[trigger] period_runs(entries, granularity)[i],
            ) <= u32::MAX,
    decreases entries.len(),
{
    let runs = period_runs(entries, granularity);
    if entries.len() > 0 {
        let prefix = entries.drop_last();
        let previous = period_runs(prefix, granularity);
        assert forall|k: int| 1 <= k <= prefix.len() implies energy_sum(
            #[trigger] period_runs(prefix.take(k), granularity).last(),
        ) <= u32::MAX by {
            assert(prefix.take(k) =~= entries.take(k));
        }
        lemma_every_run_fits(prefix, granularity);
        let n = entries.len() as int;
        assert(entries.take(n) =~= entries);
        assert(energy_sum(period_runs(entries.take(n), granularity).last()) <= u32::MAX);
        assert forall|i: int| 0 <= i < runs.len() implies 0 <= energy_sum(#[trigger] runs[i])
            <= u32::MAX by {
            lemma_energy_sum_nonnegative(runs[i]);
            if i < runs.len() - 1 {
                assert(runs[i] == previous[i]);
            }
        }
    }
}

/// When every run of the entries fits in a `u32`, so does every running
/// total along the way.
proof fn lemma_fits_when_every_run_fits(entries: Seq<Archive>, granularity: Granularity)
    requires
        forall|i: int|
            0 <= i < period_runs(entries, granularity).len() ==> energy_sum(
                #[trigger] period_runs(entries, granularity)[i],
            ) <= u32::MAX,
    ensures
        aggregation_fits(entries, granularity),
    decreases entries.len(),
{
    if entries.len() > 0 {
        let prefix = entries.drop_last();
        let e = entries.last();
        let previous = period_runs(prefix, granularity);
        let runs = period_runs(entries, granularity);
        lemma_runs_nonempty(prefix, granularity);
        assert forall|i: int| 0 <= i < previous.len() implies energy_sum(#[trigger] previous[i])
            <= u32::MAX by {
            if previous.len() == 0 || differs_in_period(
                granularity,
                e.timestamp,
                round_to(granularity, previous.last()[0].timestamp),
            ) {
                assert(runs[i] == previous[i]);
            } else if i < previous.len() - 1 {
                assert(runs[i] == previous[i]);
            } else {
                let grown = previous[i].push(e);
                assert(grown.drop_last() =~= previous[i]);
                assert(runs[i] == grown);
            }
        }
        lemma_fits_when_every_run_fits(prefix, granularity);
        let n = entries.len() as int;
        assert(entries.take(n) =~= entries);
        lemma_runs_nonempty(entries, granularity);
        assert forall|k: int| 1 <= k <= entries.len() implies energy_sum(
            #[trigger] period_runs(entries.take(k), granularity).last(),
        ) <= u32::MAX by {
            if k < n {
                assert(prefix.take(k) =~= entries.take(k));
            } else {
                assert(runs[runs.len() - 1] == runs.last());
            }
        }
    }
}

/// The running totals never pass `u32::MAX` exactly when no aggregate's
/// energy does: `aggregation_fits` asks for nothing more than that every
/// aggregate fits in its `u32` field.
pub proof fn lemma_fits_iff_every_run_fits(entries: Seq<Archive>, granularity: Granularity)
    ensures
        aggregation_fits(entries, granularity) <==> (forall|i: int|
            0 <= i < period_runs(entries, granularity).len() ==> energy_sum(
                #[trigger] period_runs(entries, granularity)[i],
            ) <= u32::MAX),
{
    if aggregation_fits(entries, granularity) {
        lemma_every_run_fits(entries, granularity);
    }
    if forall|i: int|
        0 <= i < period_runs(entries, granularity).len() ==> energy_sum(
            #[trigger] period_runs(entries, granularity)[i],
        ) <= u32::MAX {
        lemma_fits_when_every_run_fits(entries, granularity);
    }
}

/// Summing up the aggregates of runs that fit gives the energy of the runs.
proof fn lemma_aggregates_energy_of_runs(runs: Seq<Seq<Archive>>, granularity: Granularity)
    requires
        forall|i: int| 0 <= i < runs.len() ==> 0 <= energy_sum(#[trigger] runs[i]) <= u32::MAX,
    ensures
        aggregates_energy(runs.map_values(|run: Seq<Archive>| run_summary(run, granularity)))
            == runs_energy(runs),
    decreases runs.len(),
{
    if runs.len() > 0 {
        let shorter = runs.drop_last();
        lemma_aggregates_energy_of_runs(shorter, granularity);
        let mapped = runs.map_values(|run: Seq<Archive>| run_summary(run, granularity));
        assert(mapped.drop_last() =~= shorter.map_values(
            |run: Seq<Archive>| run_summary(run, granularity),
        ));
        assert(0 <= energy_sum(runs[runs.len() - 1]) <= u32::MAX);
    }
}

/// Summing up keeps the energy: the aggregates together hold exactly the
/// energy of the entries.
pub proof fn lemma_aggregation_keeps_energy(entries: Seq<Archive>, granularity: Granularity)
    requires
        aggregation_fits(entries, granularity),
    ensures
        aggregates_energy(aggregate(entries, granularity)) == energy_sum(entries),
{
    lemma_every_run_fits(entries, granularity);
    lemma_aggregates_energy_of_runs(period_runs(entries, granularity), granularity);
    lemma_runs_energy(entries, granularity);
}

/// There are never more aggregates than entries, and there are none exactly
/// when there are no entries.
pub proof fn lemma_aggregate_size(entries: Seq<Archive>, granularity: Granularity)
    ensures
        aggregate(entries, granularity).len() <= entries.len(),
        (aggregate(entries, granularity).len() == 0) == (entries.len() == 0),
{
    lemma_runs_nonempty(entries, granularity);
}

/// The coarser granularities (weeks, months, years) never open a second
/// aggregate: all entries are summed up into one.
pub proof fn lemma_coarse_granularity_single_aggregate(
    entries: Seq<Archive>,
    granularity: Granularity,
)
    requires
        granularity != Granularity::Days,
        granularity != Granularity::Hours,
    ensures
        aggregate(entries, granularity).len() <= 1,
    decreases entries.len(),
{
    if entries.len() > 0 {
        lemma_coarse_granularity_single_aggregate(entries.drop_last(), granularity);
    }
}

/// Whether `t` is the start of a day (daily granularity) or of an hour
/// (hourly granularity).
pub open spec fn stamp_is_period_start(granularity: Granularity, t: u64) -> bool {
    if granularity == Granularity::Days {
        t % 86400 == 0
    } else {
        t % 3600 == 0
    }
}

/// Daily and hourly aggregates are stamped with the start of their day or
/// hour, and two neighbouring aggregates never lie on the same day.
pub proof fn lemma_aggregate_stamps(entries: Seq<Archive>, granularity: Granularity)
    requires
        granularity == Granularity::Days || granularity == Granularity::Hours,
    ensures
        forall|i: int|
            0 <= i < aggregate(entries, granularity).len() ==> stamp_is_period_start(
                granularity,
                #[trigger] aggregate(entries, granularity)[i].timestamp,
            ),
        forall|i: int|
            0 <= i < aggregate(entries, granularity).len() - 1 ==> round_day(
                #[trigger] aggregate(entries, granularity)[i].timestamp,
            ) != round_day(aggregate(entries, granularity)[i + 1].timestamp),
    decreases entries.len(),
{
    let runs = period_runs(entries, granularity);
    let aggs = aggregate(entries, granularity);
    lemma_runs_nonempty(entries, granularity);
    if entries.len() > 0 {
        let prefix = entries.drop_last();
        let e = entries.last();
        let previous = period_runs(prefix, granularity);
        let before = aggregate(prefix, granularity);
        lemma_aggregate_stamps(prefix, granularity);
        lemma_runs_nonempty(prefix, granularity);
        lemma_rounding_laws(e.timestamp);
        assert forall|i: int| 0 <= i < aggs.len() implies stamp_is_period_start(
            granularity,
            #[trigger] aggs[i].timestamp,
        ) by {
            let t = runs[i][0].timestamp;
            assert(aggs[i].timestamp == round_to(granularity, t));
            assert((t as int / 86400 * 86400) % 86400 == 0) by (nonlinear_arith);
            assert((t as int / 3600 * 3600) % 3600 == 0) by (nonlinear_arith);
        }
        if previous.len() == 0 || differs_in_period(
            granularity,
            e.timestamp,
            round_to(granularity, previous.last()[0].timestamp),
        ) {
            assert forall|i: int| 0 <= i < aggs.len() - 1 implies round_day(
                #[trigger] aggs[i].timestamp,
            ) != round_day(aggs[i + 1].timestamp) by {
                assert(aggs[i] == before[i]);
                if i + 1 < before.len() {
                    assert(aggs[i + 1] == before[i + 1]);
                } else {
                    let last_stamp = round_to(granularity, previous.last()[0].timestamp);
                    assert(aggs[i].timestamp == last_stamp);
                    assert(aggs[i + 1].timestamp == round_to(granularity, e.timestamp));
                    lemma_rounding_laws(previous.last()[0].timestamp);
                }
            }
        } else {
            assert forall|i: int| 0 <= i < aggs.len() - 1 implies round_day(
                #[trigger] aggs[i].timestamp,
            ) != round_day(aggs[i + 1].timestamp) by {
                assert(aggs[i].timestamp == before[i].timestamp);
                assert(runs[i + 1][0] == previous[i + 1][0]);
                assert(aggs[i + 1].timestamp == before[i + 1].timestamp);
            }
        }
    }
}

/// The plug that new archive rows are written for.
pub const ARCHIVED_PLUG_ID: u8 = 1;

/// The UTC time of a reading that the plug stamped in its local time, which
/// is `utc_offset` seconds ahead of UTC; the difference wraps around as a
/// `u64`.
pub fn utc_timestamp(local_timestamp: u64, utc_offset: i32) -> (r: u64)
    ensures
        r as int == (local_timestamp as int - utc_offset as int) % 0x1_0000_0000_0000_0000,
{
    let shift: i64 = -(utc_offset as i64);
    local_timestamp.wrapping_add_signed(shift)
}

/// The archive row written for a reading taken at `timestamp` (UTC): power
/// in milliwatts, energy in milliwatt minutes, and the plug's total (in watt
/// minutes) scaled by a thousand, for plug 1.
pub fn new_archive_entry(
    timestamp: u64,
    power_milliwatt: u32,
    energy_milliwatt_minutes: u32,
    total: u32,
) -> (r: Archive)
    ensures
        r == new_entry_spec(timestamp, power_milliwatt, energy_milliwatt_minutes, total),
        r.timestamp == timestamp,
        r.plug_id == 1,
        r.power == power_milliwatt,
        r.power_unit == PowerUnit::Milliwatt,
        r.energy == energy_milliwatt_minutes,
        r.energy_unit == EnergyUnit::MiliwattMinute,
        r.total_energy == total as int * 1000,
{
    Archive {
        timestamp,
        plug_id: ARCHIVED_PLUG_ID,
        power: power_milliwatt,
        power_unit: PowerUnit::Milliwatt,
        energy: energy_milliwatt_minutes,
        energy_unit: EnergyUnit::MiliwattMinute,
        total_energy: total as u64 * 1000,
    }
}

/// The row to insert for a reading taken at `timestamp`, given what the
/// count of rows already stored for plug 1 at that time came back as: a row
/// only when the count came back and is zero, so a reading is never stored
/// twice.
pub fn entry_to_insert(
    existing_count: Option<u8>,
    timestamp: u64,
    power_milliwatt: u32,
    energy_milliwatt_minutes: u32,
    total: u32,
) -> (r: Option<Archive>)
    ensures
        existing_count == Some(0u8) ==> r == Some(
            new_entry_spec(timestamp, power_milliwatt, energy_milliwatt_minutes, total),
        ),
        existing_count != Some(0u8) ==> r is None,
        existing_count == Some(0u8) ==> (r matches Some(row) && row.timestamp == timestamp
            && row.plug_id == 1 && row.power == power_milliwatt && row.power_unit == PowerUnit::Milliwatt
            && row.energy == energy_milliwatt_minutes && row.energy_unit == EnergyUnit::MiliwattMinute
            && row.total_energy == total as int * 1000),
{
    match existing_count {
        Some(count) => if count == 0 {
            Some(new_archive_entry(timestamp, power_milliwatt, energy_milliwatt_minutes, total))
        } else {
            None
        },
        None => None,
    }
}

/// The row that `new_archive_entry` builds.
pub open spec fn new_entry_spec(
    timestamp: u64,
    power_milliwatt: u32,
    energy_milliwatt_minutes: u32,
    total: u32,
) -> Archive {
    Archive {
        timestamp,
        plug_id: ARCHIVED_PLUG_ID,
        power: power_milliwatt,
        power_unit: PowerUnit::Milliwatt,
        energy: energy_milliwatt_minutes,
        energy_unit: EnergyUnit::MiliwattMinute,
        total_energy: (total as int * 1000) as u64,
    }
}

/// The row written for a reading keeps the reading's power (in milliwatts)
/// in its power field and its energy (in milliwatt minutes) in its energy
/// field, is written for plug 1, and scales the total by a thousand.
pub proof fn lemma_archive_row_fields(
    timestamp: u64,
    power_milliwatt: u32,
    energy_milliwatt_minutes: u32,
    total: u32,
)
    ensures
        new_entry_spec(timestamp, power_milliwatt, energy_milliwatt_minutes, total).timestamp
            == timestamp,
        new_entry_spec(timestamp, power_milliwatt, energy_milliwatt_minutes, total).plug_id == 1,
        new_entry_spec(timestamp, power_milliwatt, energy_milliwatt_minutes, total).power
            == power_milliwatt,
        new_entry_spec(timestamp, power_milliwatt, energy_milliwatt_minutes, total).power_unit
            == PowerUnit::Milliwatt,
        new_entry_spec(timestamp, power_milliwatt, energy_milliwatt_minutes, total).energy
            == energy_milliwatt_minutes,
        new_entry_spec(timestamp, power_milliwatt, energy_milliwatt_minutes, total).energy_unit
            == EnergyUnit::MiliwattMinute,
        new_entry_spec(timestamp, power_milliwatt, energy_milliwatt_minutes, total).total_energy
            == total as int * 1000,
{
}

/// Whether the archive tables have to be created, given what the count of
/// tables named `Archive` came back as: when no count came back or it is
/// zero.
pub fn tables_missing(table_count: Option<u8>) -> (r: bool)
    ensures
        r == (table_count is None || table_count == Some(0u8)),
{
    match table_count {
        Some(count) => count == 0,
        None => true,
    }
}

/// Whether the entries come in order of their timestamps.
pub open spec fn in_time_order(entries: Seq<Archive>) -> bool {
    forall|i: int, j: int|
        0 <= i <= j < entries.len() ==> #[trigger] entries[i].timestamp <= #[trigger] entries[j].timestamp
}

/// The energy of the entries that lie on the day starting at `day`.
pub open spec fn day_energy(entries: Seq<Archive>, day: u64) -> int
    decreases entries.len(),
{
    if entries.len() == 0 {
        0
    } else {
        day_energy(entries.drop_last(), day) + if round_day(entries.last().timestamp) == day {
            entries.last().energy as int
        } else {
            0
        }
    }
}

/// The day on which run `r` starts.
pub open spec fn run_day(runs: Seq<Seq<Archive>>, r: int) -> u64 {
    round_day(runs[r][0].timestamp)
}

/// A later time never lies on an earlier day.
proof fn lemma_round_day_monotone(a: u64, b: u64)
    requires
        a <= b,
    ensures
        round_day(a) <= round_day(b),
        round_day(a) < round_day(b) ==> round_day(a) + 86400 <= round_day(b),
{
    vstd::arithmetic::div_mod::lemma_div_is_ordered(a as int, b as int, 86400);
}

/// Entries none of which lies on `day` have no energy on it.
proof fn lemma_day_energy_absent(entries: Seq<Archive>, day: u64)
    requires
        forall|k: int| 0 <= k < entries.len() ==> round_day(#[trigger] entries[k].timestamp) != day,
    ensures
        day_energy(entries, day) == 0,
    decreases entries.len(),
{
    if entries.len() > 0 {
        let shorter = entries.drop_last();
        assert forall|k: int| 0 <= k < shorter.len() implies round_day(
            #[trigger] shorter[k].timestamp,
        ) != day by {
            assert(shorter[k] == entries[k]);
        }
        lemma_day_energy_absent(shorter, day);
        assert(entries.last() == entries[entries.len() - 1]);
    }
}

/// For entries in time order, daily and hourly runs alike are the days of
/// the entries: each run lies on one day, later runs on later days, each
/// run holds all the energy of its day, and every entry's day has a run.
proof fn lemma_runs_of_ordered_entries(entries: Seq<Archive>, granularity: Granularity)
    requires
        in_time_order(entries),
        granularity == Granularity::Days || granularity == Granularity::Hours,
    ensures
        forall|r: int, m: int|
            0 <= r < period_runs(entries, granularity).len() && 0 <= m < period_runs(
                entries,
                granularity,
            )[r].len() ==> round_day(#[trigger] period_runs(entries, granularity)[r][m].timestamp)
                == run_day(period_runs(entries, granularity), r),
        forall|r1: int, r2: int|
            0 <= r1 < r2 < period_runs(entries, granularity).len() ==> #[trigger] run_day(
                period_runs(entries, granularity),
                r1,
            ) < #[trigger] run_day(period_runs(entries, granularity), r2),
        forall|r: int|
            0 <= r < period_runs(entries, granularity).len() ==> energy_sum(
                #[trigger] period_runs(entries, granularity)[r],
            ) == day_energy(entries, run_day(period_runs(entries, granularity), r)),
        forall|k: int|
            0 <= k < entries.len() ==> exists|r: int|
                0 <= r < period_runs(entries, granularity).len() && #[trigger] run_day(
                    period_runs(entries, granularity),
                    r,
                ) == round_day(#[trigger] entries[k].timestamp),
        entries.len() > 0 ==> period_runs(entries, granularity).last().last() == entries.last(),
    decreases entries.len(),
{
    let runs = period_runs(entries, granularity);
    lemma_runs_nonempty(entries, granularity);
    if entries.len() > 0 {
        let prefix = entries.drop_last();
        let e = entries.last();
        let previous = period_runs(prefix, granularity);
        assert forall|i: int, j: int| 0 <= i <= j < prefix.len() implies #[trigger] prefix[i].timestamp
            <= #[trigger] prefix[j].timestamp by {
            assert(prefix[i] == entries[i] && prefix[j] == entries[j]);
        }
        lemma_runs_of_ordered_entries(prefix, granularity);
        lemma_runs_nonempty(prefix, granularity);
        lemma_rounding_laws(e.timestamp);
        let single = seq![e];
        assert(single.drop_last() =~= Seq::<Archive>::empty());
        assert(energy_sum(Seq::<Archive>::empty()) == 0);
        assert(energy_sum(single) == e.energy);
        if previous.len() == 0 {
            assert(runs =~= seq![single]);
            assert(prefix.len() == 0);
            lemma_day_energy_absent(prefix, round_day(e.timestamp));
            assert(run_day(runs, 0) == round_day(e.timestamp));
            assert forall|k: int| 0 <= k < entries.len() implies exists|r: int|
                0 <= r < runs.len() && #[trigger] run_day(runs, r) == round_day(
                    #[trigger] entries[k].timestamp,
                ) by {
                assert(entries[k] == e);
                assert(run_day(runs, 0) == round_day(entries[k].timestamp));
            }
        } else {
            let last_index = previous.len() - 1;
            let last_run = previous[last_index];
            let last_day = run_day(previous, last_index);
            let p = prefix.last();
            assert(p == last_run.last());
            assert(last_run.last() == last_run[last_run.len() - 1]);
            assert(round_day(p.timestamp) == last_day);
            assert(p == entries[entries.len() - 2] && e == entries[entries.len() - 1]);
            lemma_round_day_monotone(p.timestamp, e.timestamp);
            lemma_rounding_laws(last_run[0].timestamp);
            assert(round_day(round_to(granularity, last_run[0].timestamp)) == last_day);
            assert forall|k: int| 0 <= k < prefix.len() implies round_day(#[trigger] prefix[k].timestamp)
                <= last_day by {
                assert(prefix[k] == entries[k]);
                lemma_round_day_monotone(prefix[k].timestamp, p.timestamp);
            }
            assert forall|r: int| 0 <= r < previous.len() implies #[trigger] run_day(previous, r)
                <= last_day by {
                if r < last_index {
                    assert(run_day(previous, r) < run_day(previous, last_index));
                }
            }
            if round_day(e.timestamp) != last_day {
                let day = round_day(e.timestamp);
                assert(runs == previous.push(single));
                assert(last_day < day);
                assert forall|k: int| 0 <= k < prefix.len() implies round_day(
                    #[trigger] prefix[k].timestamp,
                ) != day by {
                    assert(round_day(prefix[k].timestamp) <= last_day);
                }
                lemma_day_energy_absent(prefix, day);
                assert forall|r: int, m: int|
                    0 <= r < runs.len() && 0 <= m < runs[r].len() implies round_day(
                    #[trigger] runs[r][m].timestamp,
                ) == run_day(runs, r) by {
                    if r < previous.len() {
                        assert(runs[r] == previous[r]);
                    }
                }
                assert forall|r1: int, r2: int| 0 <= r1 < r2 < runs.len() implies #[trigger] run_day(
                    runs,
                    r1,
                ) < #[trigger] run_day(runs, r2) by {
                    assert(runs[r1] == previous[r1]);
                    assert(run_day(previous, r1) <= last_day);
                    if r2 < previous.len() {
                        assert(runs[r2] == previous[r2]);
                        assert(run_day(previous, r1) < run_day(previous, r2));
                    } else {
                        assert(run_day(runs, r2) == day);
                    }
                }
                assert forall|r: int| 0 <= r < runs.len() implies energy_sum(#[trigger] runs[r])
                    == day_energy(entries, run_day(runs, r)) by {
                    if r < previous.len() {
                        assert(runs[r] == previous[r]);
                        assert(run_day(previous, r) <= last_day);
                        assert(energy_sum(previous[r]) == day_energy(prefix, run_day(previous, r)));
                    } else {
                        assert(runs[r] == single);
                        assert(run_day(runs, r) == day);
                    }
                }
                assert forall|k: int| 0 <= k < entries.len() implies exists|r: int|
                    0 <= r < runs.len() && #[trigger] run_day(runs, r) == round_day(
                        #[trigger] entries[k].timestamp,
                    ) by {
                    if k < prefix.len() {
                        assert(entries[k] == prefix[k]);
                        let r = choose|r: int|
                            0 <= r < previous.len() && #[trigger] run_day(previous, r) == round_day(
                                prefix[k].timestamp,
                            );
                        assert(runs[r] == previous[r]);
                        assert(run_day(runs, r) == round_day(entries[k].timestamp));
                    } else {
                        assert(run_day(runs, previous.len() as int) == round_day(entries[k].timestamp));
                    }
                }
            } else {
                let grown = last_run.push(e);
                assert(runs == previous.update(last_index, grown));
                assert(grown.drop_last() =~= last_run);
                assert(energy_sum(grown) == energy_sum(last_run) + e.energy);
                assert(grown[0] == last_run[0]);
                assert(run_day(runs, last_index) == last_day);
                assert forall|r: int, m: int|
                    0 <= r < runs.len() && 0 <= m < runs[r].len() implies round_day(
                    #[trigger] runs[r][m].timestamp,
                ) == run_day(runs, r) by {
                    if r < last_index {
                        assert(runs[r] == previous[r]);
                    } else if m < last_run.len() {
                        assert(runs[r][m] == last_run[m]);
                    }
                }
                assert forall|r1: int, r2: int| 0 <= r1 < r2 < runs.len() implies #[trigger] run_day(
                    runs,
                    r1,
                ) < #[trigger] run_day(runs, r2) by {
                    assert(runs[r1] == previous[r1]);
                    assert(run_day(runs, r2) == run_day(previous, r2));
                    assert(run_day(previous, r1) < run_day(previous, r2));
                }
                assert forall|r: int| 0 <= r < runs.len() implies energy_sum(#[trigger] runs[r])
                    == day_energy(entries, run_day(runs, r)) by {
                    if r < last_index {
                        assert(runs[r] == previous[r]);
                        assert(run_day(previous, r) < last_day);
                        assert(energy_sum(previous[r]) == day_energy(prefix, run_day(previous, r)));
                    } else {
                        assert(energy_sum(last_run) == day_energy(prefix, last_day));
                    }
                }
                assert forall|k: int| 0 <= k < entries.len() implies exists|r: int|
                    0 <= r < runs.len() && #[trigger] run_day(runs, r) == round_day(
                        #[trigger] entries[k].timestamp,
                    ) by {
                    if k < prefix.len() {
                        assert(entries[k] == prefix[k]);
                        let r = choose|r: int|
                            0 <= r < previous.len() && #[trigger] run_day(previous, r) == round_day(
                                prefix[k].timestamp,
                            );
                        assert(run_day(runs, r) == run_day(previous, r));
                    } else {
                        assert(run_day(runs, last_index) == round_day(entries[k].timestamp));
                    }
                }
            }
        }
    }
}

/// For entries in time order, the daily aggregates are the days of the
/// entries: their stamps strictly increase, every entry's day has an
/// aggregate, and each aggregate carries all the energy of its day.
pub proof fn lemma_daily_aggregates_of_ordered_entries(entries: Seq<Archive>)
    requires
        in_time_order(entries),
        aggregation_fits(entries, Granularity::Days),
    ensures
        forall|i: int, j: int|
            0 <= i < j < aggregate(entries, Granularity::Days).len() ==> (#[trigger] aggregate(
                entries,
                Granularity::Days,
            )[i]).timestamp < (#[trigger] aggregate(entries, Granularity::Days)[j]).timestamp,
        forall|k: int|
            0 <= k < entries.len() ==> exists|i: int|
                0 <= i < aggregate(entries, Granularity::Days).len() && (#[trigger] aggregate(
                    entries,
                    Granularity::Days,
                )[i]).timestamp == round_day(#[trigger] entries[k].timestamp),
        forall|i: int|
            0 <= i < aggregate(entries, Granularity::Days).len() ==> (#[trigger] aggregate(
                entries,
                Granularity::Days,
            )[i]).energy == day_energy(entries, aggregate(entries, Granularity::Days)[i].timestamp),
{
    let g = Granularity::Days;
    let runs = period_runs(entries, g);
    let aggs = aggregate(entries, g);
    lemma_runs_of_ordered_entries(entries, g);
    lemma_runs_nonempty(entries, g);
    lemma_every_run_fits(entries, g);
    assert forall|i: int| 0 <= i < aggs.len() implies (#[trigger] aggs[i]).timestamp == run_day(runs, i)
        by {
        assert(aggs[i] == run_summary(runs[i], g));
    }
    assert forall|i: int, j: int| 0 <= i < j < aggs.len() implies (#[trigger] aggs[i]).timestamp < (
    #[trigger] aggs[j]).timestamp by {
        assert(run_day(runs, i) < run_day(runs, j));
    }
    assert forall|k: int| 0 <= k < entries.len() implies exists|i: int|
        0 <= i < aggs.len() && (#[trigger] aggs[i]).timestamp == round_day(
            #[trigger] entries[k].timestamp,
        ) by {
        let r = choose|r: int| 0 <= r < runs.len() && #[trigger] run_day(runs, r) == round_day(entries[k].timestamp);
        assert(aggs[r].timestamp == run_day(runs, r));
    }
    assert forall|i: int| 0 <= i < aggs.len() implies (#[trigger] aggs[i]).energy == day_energy(
        entries,
        aggs[i].timestamp,
    ) by {
        assert(aggs[i] == run_summary(runs[i], g));
        assert(0 <= energy_sum(runs[i]) <= u32::MAX);
        assert(energy_sum(runs[i]) == day_energy(entries, run_day(runs, i)));
    }
}

/// For entries in time order, the hourly aggregates also fall one per day
/// of the entries (the hourly granularity starts a new aggregate only on a
/// new day), stamped with the start of the hour of the day's first entry:
/// their stamps strictly increase, every entry's day has an aggregate, and
/// each aggregate carries all the energy of its day.
pub proof fn lemma_hourly_aggregates_of_ordered_entries(entries: Seq<Archive>)
    requires
        in_time_order(entries),
        aggregation_fits(entries, Granularity::Hours),
    ensures
        forall|i: int, j: int|
            0 <= i < j < aggregate(entries, Granularity::Hours).len() ==> (#[trigger] aggregate(
                entries,
                Granularity::Hours,
            )[i]).timestamp < (#[trigger] aggregate(entries, Granularity::Hours)[j]).timestamp,
        forall|k: int|
            0 <= k < entries.len() ==> exists|i: int|
                0 <= i < aggregate(entries, Granularity::Hours).len() && round_day(
                    (#[trigger] aggregate(entries, Granularity::Hours)[i]).timestamp,
                ) == round_day(#[trigger] entries[k].timestamp),
        forall|i: int|
            0 <= i < aggregate(entries, Granularity::Hours).len() ==> (#[trigger] aggregate(
                entries,
                Granularity::Hours,
            )[i]).energy == day_energy(
                entries,
                round_day(aggregate(entries, Granularity::Hours)[i].timestamp),
            ),
{
    let g = Granularity::Hours;
    let runs = period_runs(entries, g);
    let aggs = aggregate(entries, g);
    lemma_runs_of_ordered_entries(entries, g);
    lemma_runs_nonempty(entries, g);
    lemma_every_run_fits(entries, g);
    assert forall|i: int| 0 <= i < aggs.len() implies round_day((#[trigger] aggs[i]).timestamp)
        == run_day(runs, i) && run_day(runs, i) <= aggs[i].timestamp < run_day(runs, i) + 86400 by {
        assert(aggs[i] == run_summary(runs[i], g));
        lemma_rounding_laws(runs[i][0].timestamp);
        let t = runs[i][0].timestamp;
        assert(round_hour(t) as int / 86400 * 86400 <= round_hour(t));
    }
    assert forall|i: int, j: int| 0 <= i < j < aggs.len() implies (#[trigger] aggs[i]).timestamp < (
    #[trigger] aggs[j]).timestamp by {
        assert(run_day(runs, i) < run_day(runs, j));
        assert(run_day(runs, i) as int % 86400 == 0 && run_day(runs, j) as int % 86400 == 0) by {
            lemma_rounding_laws(runs[i][0].timestamp);
            let a = runs[i][0].timestamp as int;
            let b = runs[j][0].timestamp as int;
            assert((a / 86400 * 86400) % 86400 == 0) by (nonlinear_arith);
            assert((b / 86400 * 86400) % 86400 == 0) by (nonlinear_arith);
        }
    }
    assert forall|k: int| 0 <= k < entries.len() implies exists|i: int|
        0 <= i < aggs.len() && round_day((#[trigger] aggs[i]).timestamp) == round_day(
            #[trigger] entries[k].timestamp,
        ) by {
        let r = choose|r: int| 0 <= r < runs.len() && #[trigger] run_day(runs, r) == round_day(entries[k].timestamp);
        assert(round_day(aggs[r].timestamp) == run_day(runs, r));
    }
    assert forall|i: int| 0 <= i < aggs.len() implies (#[trigger] aggs[i]).energy == day_energy(
        entries,
        round_day(aggs[i].timestamp),
    ) by {
        assert(aggs[i] == run_summary(runs[i], g));
        assert(0 <= energy_sum(runs[i]) <= u32::MAX);
        assert(energy_sum(runs[i]) == day_energy(entries, run_day(runs, i)));
        assert(round_day(aggs[i].timestamp) == run_day(runs, i));
    }
}

/// For 43200 or more entries in time order, the chart has one point per
/// day of the entries, in increasing order, each with all the energy of its
/// day.
pub proof fn lemma_daily_chart_of_ordered_entries(entries: Seq<Archive>)
    requires
        entries.len() >= DAILY_FROM_ENTRIES,
        in_time_order(entries),
        chart_fits(entries),
    ensures
        forall|i: int, j: int|
            0 <= i < j < chart_entries(entries).len() ==> (#[trigger] chart_entries(entries)[i]).timestamp
                < (#[trigger] chart_entries(entries)[j]).timestamp,
        forall|k: int|
            0 <= k < entries.len() ==> exists|i: int|
                0 <= i < chart_entries(entries).len() && (#[trigger] chart_entries(entries)[i]).timestamp
                    == round_day(#[trigger] entries[k].timestamp),
        forall|i: int|
            0 <= i < chart_entries(entries).len() ==> (#[trigger] chart_entries(entries)[i]).energy
                == day_energy(entries, chart_entries(entries)[i].timestamp),
{
    let aggs = aggregate(entries, Granularity::Days);
    let points = chart_entries(entries);
    lemma_daily_aggregates_of_ordered_entries(entries);
    assert(points.len() == aggs.len());
    assert forall|i: int| 0 <= i < points.len() implies #[trigger] points[i] == aggs[i].energy_data() by {
    }
    assert forall|i: int, j: int| 0 <= i < j < points.len() implies (#[trigger] points[i]).timestamp < (
    #[trigger] points[j]).timestamp by {
        assert(points[i] == aggs[i].energy_data() && points[j] == aggs[j].energy_data());
        assert(aggs[i].timestamp < aggs[j].timestamp);
    }
    assert forall|k: int| 0 <= k < entries.len() implies exists|i: int|
        0 <= i < points.len() && (#[trigger] points[i]).timestamp == round_day(
            #[trigger] entries[k].timestamp,
        ) by {
        let i = choose|i: int| 0 <= i < aggs.len() && (#[trigger] aggs[i]).timestamp == round_day(entries[k].timestamp);
        assert(points[i] == aggs[i].energy_data());
    }
    assert forall|i: int| 0 <= i < points.len() implies (#[trigger] points[i]).energy == day_energy(
        entries,
        points[i].timestamp,
    ) by {
        assert(points[i] == aggs[i].energy_data());
        assert(aggs[i].energy == day_energy(entries, aggs[i].timestamp));
    }
}

/// For at least 1440 and fewer than 43200 entries in time order, the
/// chart has one point per day of the entries, in increasing order of
/// days, each stamped on its day (at the start of the hour of the day's
/// first entry) and carrying all the energy of its day.
pub proof fn lemma_hourly_chart_of_ordered_entries(entries: Seq<Archive>)
    requires
        1440 <= entries.len() < 43200,
        in_time_order(entries),
        aggregation_fits(entries, Granularity::Hours),
    ensures
        chart_granularity(entries.len()) == Some(Granularity::Hours),
        forall|i: int, j: int|
            0 <= i < j < chart_entries(entries).len() ==> round_day(
                (#[trigger] chart_entries(entries)[i]).timestamp,
            ) < round_day((#[trigger] chart_entries(entries)[j]).timestamp),
        forall|k: int|
            0 <= k < entries.len() ==> exists|i: int|
                0 <= i < chart_entries(entries).len() && round_day(
                    (#[trigger] chart_entries(entries)[i]).timestamp,
                ) == round_day(#[trigger] entries[k].timestamp),
        forall|i: int|
            0 <= i < chart_entries(entries).len() ==> (#[trigger] chart_entries(entries)[i]).energy
                == day_energy(entries, round_day(chart_entries(entries)[i].timestamp)),
        forall|i: int|
            0 <= i < chart_entries(entries).len() ==> exists|k: int|
                0 <= k < entries.len() && round_day((#[trigger] chart_entries(entries)[i]).timestamp)
                    == round_day(#[trigger] entries[k].timestamp),
{
    let g = Granularity::Hours;
    let runs = period_runs(entries, g);
    let aggs = aggregate(entries, g);
    let points = chart_entries(entries);
    lemma_hourly_aggregates_of_ordered_entries(entries);
    lemma_runs_of_ordered_entries(entries, g);
    lemma_runs_nonempty(entries, g);
    lemma_runs_cover_entries(entries, g);
    assert(points.len() == aggs.len());
    assert forall|i: int| 0 <= i < aggs.len() implies round_day((#[trigger] aggs[i]).timestamp)
        == run_day(runs, i) by {
        assert(aggs[i] == run_summary(runs[i], g));
        lemma_rounding_laws(runs[i][0].timestamp);
    }
    assert forall|i: int, j: int| 0 <= i < j < points.len() implies round_day(
        (#[trigger] points[i]).timestamp,
    ) < round_day((#[trigger] points[j]).timestamp) by {
        assert(points[i] == aggs[i].energy_data() && points[j] == aggs[j].energy_data());
        assert(run_day(runs, i) < run_day(runs, j));
        assert(round_day(aggs[i].timestamp) == run_day(runs, i));
        assert(round_day(aggs[j].timestamp) == run_day(runs, j));
    }
    assert forall|k: int| 0 <= k < entries.len() implies exists|i: int|
        0 <= i < points.len() && round_day((#[trigger] points[i]).timestamp) == round_day(
            #[trigger] entries[k].timestamp,
        ) by {
        let i = choose|i: int|
            0 <= i < aggs.len() && round_day((#[trigger] aggs[i]).timestamp) == round_day(
                entries[k].timestamp,
            );
        assert(points[i] == aggs[i].energy_data());
    }
    assert forall|i: int| 0 <= i < points.len() implies (#[trigger] points[i]).energy == day_energy(
        entries,
        round_day(points[i].timestamp),
    ) by {
        assert(points[i] == aggs[i].energy_data());
    }
    assert forall|i: int| 0 <= i < points.len() implies exists|k: int|
        0 <= k < entries.len() && round_day((#[trigger] points[i]).timestamp) == round_day(
            #[trigger] entries[k].timestamp,
        ) by {
        assert(points[i] == aggs[i].energy_data());
        let first = runs[i][0];
        assert(runs[i].len() > 0);
        lemma_run_member_is_entry(entries, g, i, 0);
        let k = choose|k: int| 0 <= k < entries.len() && entries[k] == runs[i][0];
        assert(round_day(entries[k].timestamp) == run_day(runs, i));
    }
}

/// Each member of a run is one of the entries.
proof fn lemma_run_member_is_entry(entries: Seq<Archive>, granularity: Granularity, r: int, m: int)
    requires
        0 <= r < period_runs(entries, granularity).len(),
        0 <= m < period_runs(entries, granularity)[r].len(),
    ensures
        exists|k: int| 0 <= k < entries.len() && entries[k] == period_runs(entries, granularity)[r][m],
    decreases entries.len(),
{
    let runs = period_runs(entries, granularity);
    let prefix = entries.drop_last();
    let previous = period_runs(prefix, granularity);
    let e = entries.last();
    assert(entries.len() > 0);
    if r < previous.len() && m < previous[r].len() {
        assert(runs[r][m] == previous[r][m]);
        lemma_run_member_is_entry(prefix, granularity, r, m);
        let k = choose|k: int| 0 <= k < prefix.len() && prefix[k] == previous[r][m];
        assert(entries[k] == prefix[k]);
    } else {
        assert(runs[r][m] == e);
        assert(entries[entries.len() - 1] == e);
    }
}

/// Below 1440 entries the chart shows every entry as it is stored: one
/// point per entry, in order, with the entry's time, plug, energy and unit.
pub proof fn lemma_small_chart_one_point_per_entry(entries: Seq<Archive>)
    requires
        entries.len() < 1440,
    ensures
        chart_entries(entries).len() == entries.len(),
        forall|i: int|
            0 <= i < entries.len() ==> (#[trigger] chart_entries(entries)[i]).timestamp
                == entries[i].timestamp && chart_entries(entries)[i].plug_id == entries[i].plug_id
                && chart_entries(entries)[i].energy == entries[i].energy
                && chart_entries(entries)[i].energy_unit == entries[i].energy_unit,
{
}

/// The least time, in nanoseconds, between two fetches of the archive loop.
pub const ARCHIVE_INTERVAL_NANOS: i128 = 60_000_000_000;

/// What the archive loop is doing.
#[derive(Clone, Copy, Debug, PartialEq, Eq, Structural)]
pub enum ArchivePhase {
    /// Sleeping between checks.
    Waiting,
    /// Fetching a reading and writing it to the archive.
    Archiving,
    /// Measuring the size of the database.
    MeasuringSize,
    /// Deleting the oldest entries.
    Removing,
    /// Cancelled; the loop has ended.
    Stopped,
}

/// What the archive loop reports back after doing what it was told.
#[derive(Clone, Copy, Debug, PartialEq, Eq, Structural)]
pub enum ArchiveEvent {
    /// A check after sleeping: whether the token was cancelled, and the time
    /// in nanoseconds since the Unix epoch (negative before it).
    Tick { cancelled: bool, now: i128 },
    /// Fetching and writing a reading ended, successfully or not, at `now`.
    Archived { succeeded: bool, now: i128 },
    /// The size of the database in bytes, if it could be read.
    DbSize { size: Option<usize> },
    /// The oldest entries were deleted.
    Removed,
}

/// What the archive loop is told to do next.
#[derive(Clone, Copy, Debug, PartialEq, Eq, Structural)]
pub enum ArchiveAction {
    /// End the loop.
    Stop,
    /// Sleep for a second, then report a `Tick`.
    Sleep,
    /// Fetch a reading and write it, then report `Archived`.
    ArchiveData,
    /// Read the size of the database, then report `DbSize`.
    MeasureDbSize,
    /// Delete the oldest entries, then report `Removed`.
    RemoveOldEntries,
}

/// The state of the archive loop: the archive limit in kilobytes (0 for no
/// limit), when the last reading was archived, and the current phase.
#[derive(Clone, Copy, Debug, PartialEq, Eq, Structural)]
pub struct ScheduleState {
    pub storage_size: usize,
    pub last_archive: i128,
    pub phase: ArchivePhase,
}

/// Whether a minute or more has passed from `last` to `now`.
pub open spec fn minute_elapsed(last: i128, now: i128) -> bool {
    now - last >= ARCHIVE_INTERVAL_NANOS
}

/// Whether a database of `size` bytes is larger than a limit of
/// `storage_size` kilobytes.
pub open spec fn over_limit(storage_size: usize, size: usize) -> bool {
    size > storage_size * 1024
}

/// The action a phase waits to have done.
pub open spec fn pending_action(phase: ArchivePhase) -> ArchiveAction {
    match phase {
        ArchivePhase::Waiting => ArchiveAction::Sleep,
        ArchivePhase::Archiving => ArchiveAction::ArchiveData,
        ArchivePhase::MeasuringSize => ArchiveAction::MeasureDbSize,
        ArchivePhase::Removing => ArchiveAction::RemoveOldEntries,
        ArchivePhase::Stopped => ArchiveAction::Stop,
    }
}

/// One step of the archive loop. While waiting, a tick stops the loop when
/// the token is cancelled, and starts an archive run once a minute has
/// passed since the last successful one. A finished run records its time if
/// it succeeded, then, when there is a limit, measures the database, and
/// deletes the oldest entries when the database is over the limit. An event
/// that the phase does not wait for changes nothing and repeats the pending
/// action.
pub open spec fn schedule_step(s: ScheduleState, event: ArchiveEvent) -> (ScheduleState, ArchiveAction) {
    let unexpected = (s, pending_action(s.phase));
    match s.phase {
        ArchivePhase::Waiting => match event {
            ArchiveEvent::Tick { cancelled, now } => if cancelled {
                (ScheduleState { phase: ArchivePhase::Stopped, ..s }, ArchiveAction::Stop)
            } else if minute_elapsed(s.last_archive, now) {
                (ScheduleState { phase: ArchivePhase::Archiving, ..s }, ArchiveAction::ArchiveData)
            } else {
                (s, ArchiveAction::Sleep)
            },
            _ => unexpected,
        },
        ArchivePhase::Archiving => match event {
            ArchiveEvent::Archived { succeeded, now } => {
                let last = if succeeded {
                    now
                } else {
                    s.last_archive
                };
                if s.storage_size != 0 {
                    (
                        ScheduleState {
                            storage_size: s.storage_size,
                            last_archive: last,
                            phase: ArchivePhase::MeasuringSize,
                        },
                        ArchiveAction::MeasureDbSize,
                    )
                } else {
                    (
                        ScheduleState {
                            storage_size: s.storage_size,
                            last_archive: last,
                            phase: ArchivePhase::Waiting,
                        },
                        ArchiveAction::Sleep,
                    )
                }
            },
            _ => unexpected,
        },
        ArchivePhase::MeasuringSize => match event {
            ArchiveEvent::DbSize { size } => match size {
                Some(n) => if over_limit(s.storage_size, n) {
                    (
                        ScheduleState { phase: ArchivePhase::Removing, ..s },
                        ArchiveAction::RemoveOldEntries,
                    )
                } else {
                    (ScheduleState { phase: ArchivePhase::Waiting, ..s }, ArchiveAction::Sleep)
                },
                None => (ScheduleState { phase: ArchivePhase::Waiting, ..s }, ArchiveAction::Sleep),
            },
            _ => unexpected,
        },
        ArchivePhase::Removing => match event {
            ArchiveEvent::Removed => (
                ScheduleState { phase: ArchivePhase::Waiting, ..s },
                ArchiveAction::Sleep,
            ),
            _ => unexpected,
        },
        ArchivePhase::Stopped => unexpected,
    }
}

/// The loop before its first step: nothing archived yet (the last run
/// counts as the Unix epoch), waiting.
pub open spec fn initial_schedule(storage_size: usize) -> ScheduleState {
    ScheduleState { storage_size, last_archive: 0, phase: ArchivePhase::Waiting }
}

/// Whether the limit in bytes fits in a `usize` wherever `event` makes the
/// loop compare a measured size with it.
pub open spec fn size_check_fits(s: ScheduleState, event: ArchiveEvent) -> bool {
    (s.phase == ArchivePhase::MeasuringSize && event matches ArchiveEvent::DbSize { size: Some(_) })
        ==> s.storage_size <= usize::MAX / 1024
}

/// The decisions of the archive loop, which fetches a reading once a minute
/// until cancelled and keeps the database under its size limit.
pub struct ArchiveSchedule {
    storage_size: usize,
    last_archive: i128,
    phase: ArchivePhase,
}

impl View for ArchiveSchedule {
    type V = ScheduleState;

    closed spec fn view(&self) -> ScheduleState {
        ScheduleState {
            storage_size: self.storage_size,
            last_archive: self.last_archive,
            phase: self.phase,
        }
    }
}

impl ArchiveSchedule {
    /// A loop for an archive of at most `storage_size` kilobytes (0 for no
    /// limit) that has not archived anything yet: its last run counts as
    /// the Unix epoch.
    pub fn new(storage_size: usize) -> (r: ArchiveSchedule)
        ensures
            r@ == initial_schedule(storage_size),
    {
        ArchiveSchedule { storage_size, last_archive: 0, phase: ArchivePhase::Waiting }
    }

    /// The current phase.
    pub fn phase(&self) -> (r: ArchivePhase)
        ensures
            r == self@.phase,
    {
        self.phase
    }

    /// When the last reading was archived, in nanoseconds since the epoch.
    pub fn last_archive(&self) -> (r: i128)
        ensures
            r == self@.last_archive,
    {
        self.last_archive
    }

    /// The archive limit in kilobytes (0 for no limit).
    pub fn storage_size(&self) -> (r: usize)
        ensures
            r == self@.storage_size,
    {
        self.storage_size
    }

    /// Takes in what the loop reports and says what it does next.
    /// A measured size is compared with the limit in bytes, which must fit
    /// in a `usize` then.
    pub fn step(&mut self, event: ArchiveEvent) -> (r: ArchiveAction)
        requires
            size_check_fits(old(self)@, event),
        ensures
            (final(self)@, r) == schedule_step(old(self)@, event),
    {
        match self.phase {
            ArchivePhase::Waiting => match event {
                ArchiveEvent::Tick { cancelled, now } => {
                    if cancelled {
                        self.phase = ArchivePhase::Stopped;
                        ArchiveAction::Stop
                    } else if now >= i128::MIN + ARCHIVE_INTERVAL_NANOS && self.last_archive
                        <= now - ARCHIVE_INTERVAL_NANOS {
                        self.phase = ArchivePhase::Archiving;
                        ArchiveAction::ArchiveData
                    } else {
                        ArchiveAction::Sleep
                    }
                },
                _ => ArchiveAction::Sleep,
            },
            ArchivePhase::Archiving => match event {
                ArchiveEvent::Archived { succeeded, now } => {
                    if succeeded {
                        self.last_archive = now;
                    }
                    if self.storage_size != 0 {
                        self.phase = ArchivePhase::MeasuringSize;
                        ArchiveAction::MeasureDbSize
                    } else {
                        self.phase = ArchivePhase::Waiting;
                        ArchiveAction::Sleep
                    }
                },
                _ => ArchiveAction::ArchiveData,
            },
            ArchivePhase::MeasuringSize => match event {
                ArchiveEvent::DbSize { size } => {
                    match size {
                        Some(n) => {
                            if n > self.storage_size * 1024 {
                                self.phase = ArchivePhase::Removing;
                                ArchiveAction::RemoveOldEntries
                            } else {
                                self.phase = ArchivePhase::Waiting;
                                ArchiveAction::Sleep
                            }
                        },
                        None => {
                            self.phase = ArchivePhase::Waiting;
                            ArchiveAction::Sleep
                        },
                    }
                },
                _ => ArchiveAction::MeasureDbSize,
            },
            ArchivePhase::Removing => match event {
                ArchiveEvent::Removed => {
                    self.phase = ArchivePhase::Waiting;
                    ArchiveAction::Sleep
                },
                _ => ArchiveAction::RemoveOldEntries,
            },
            ArchivePhase::Stopped => ArchiveAction::Stop,
        }
    }
}

/// A cancelled token stops a waiting loop, and a stopped loop stays stopped
/// whatever it is told.
pub proof fn lemma_cancellation_stops(s: ScheduleState, now: i128, event: ArchiveEvent)
    ensures
        s.phase == ArchivePhase::Waiting ==> schedule_step(
            s,
            ArchiveEvent::Tick { cancelled: true, now },
        ) == (ScheduleState { phase: ArchivePhase::Stopped, ..s }, ArchiveAction::Stop),
        s.phase == ArchivePhase::Stopped ==> schedule_step(s, event) == (s, ArchiveAction::Stop),
{
}

/// A new archive run starts only from a tick of an uncancelled token at
/// least a minute after the last successful run.
pub proof fn lemma_archive_at_most_once_a_minute(s: ScheduleState, event: ArchiveEvent)
    requires
        s.phase != ArchivePhase::Archiving,
        schedule_step(s, event).1 == ArchiveAction::ArchiveData,
    ensures
        event matches ArchiveEvent::Tick { cancelled, now } && !cancelled && now - s.last_archive
            >= ARCHIVE_INTERVAL_NANOS,
{
}

/// A successful run records its end as the time of the last run; a failed
/// one leaves it, so the next attempt comes after the next tick.
pub proof fn lemma_success_records_time(s: ScheduleState, succeeded: bool, now: i128)
    requires
        s.phase == ArchivePhase::Archiving,
    ensures
        schedule_step(s, ArchiveEvent::Archived { succeeded, now }).0.last_archive == (if succeeded {
            now
        } else {
            s.last_archive
        }),
{
}

/// The limit never changes, and an archive without a limit is never
/// measured or trimmed.
pub proof fn lemma_unlimited_archive_never_trimmed(s: ScheduleState, event: ArchiveEvent)
    requires
        s.storage_size == 0,
        s.phase != ArchivePhase::MeasuringSize,
        s.phase != ArchivePhase::Removing,
    ensures
        schedule_step(s, event).0.storage_size == 0,
        schedule_step(s, event).0.phase != ArchivePhase::MeasuringSize,
        schedule_step(s, event).0.phase != ArchivePhase::Removing,
        schedule_step(s, event).1 != ArchiveAction::MeasureDbSize,
        schedule_step(s, event).1 != ArchiveAction::RemoveOldEntries,
{
}

/// Old entries are deleted only after the database was measured and found
/// larger than the limit.
pub proof fn lemma_trim_only_over_limit(s: ScheduleState, event: ArchiveEvent)
    requires
        s.phase != ArchivePhase::Removing,
        schedule_step(s, event).1 == ArchiveAction::RemoveOldEntries,
    ensures
        s.phase == ArchivePhase::MeasuringSize,
        event matches ArchiveEvent::DbSize { size: Some(n) } && over_limit(s.storage_size, n),
{
}

/// Whether `event` is the report that a loop in `phase` waits for: a tick
/// while waiting, the end of the run while archiving, a size while
/// measuring, the deletion while removing; a stopped loop reports nothing.
pub open spec fn expects(phase: ArchivePhase, event: ArchiveEvent) -> bool {
    match phase {
        ArchivePhase::Waiting => event is Tick,
        ArchivePhase::Archiving => event is Archived,
        ArchivePhase::MeasuringSize => event is DbSize,
        ArchivePhase::Removing => event is Removed,
        ArchivePhase::Stopped => false,
    }
}

/// The state of the loop after it has taken in `events` from `s`.
pub open spec fn state_after(s: ScheduleState, events: Seq<ArchiveEvent>) -> ScheduleState
    decreases events.len(),
{
    if events.len() == 0 {
        s
    } else {
        schedule_step(state_after(s, events.drop_last()), events.last()).0
    }
}

/// Whether every event of a run from `s` is the report that the loop was
/// waiting for, as a driver that does what it is told sends them.
pub open spec fn well_driven(s: ScheduleState, events: Seq<ArchiveEvent>) -> bool
    decreases events.len(),
{
    if events.len() == 0 {
        true
    } else {
        well_driven(s, events.drop_last()) && expects(
            state_after(s, events.drop_last()).phase,
            events.last(),
        )
    }
}

/// The end time of the last successful archive run among `events`, or the
/// Unix epoch if there was none.
pub open spec fn last_success(events: Seq<ArchiveEvent>) -> i128
    decreases events.len(),
{
    if events.len() == 0 {
        0
    } else {
        match events.last() {
            ArchiveEvent::Archived { succeeded: true, now } => now,
            _ => last_success(events.drop_last()),
        }
    }
}

/// A run never changes the limit.
pub proof fn lemma_run_keeps_limit(s: ScheduleState, events: Seq<ArchiveEvent>)
    ensures
        state_after(s, events).storage_size == s.storage_size,
    decreases events.len(),
{
    if events.len() > 0 {
        lemma_run_keeps_limit(s, events.drop_last());
    }
}

/// In any run of a loop without a limit, whatever it is told, the database
/// is never measured and no entry is ever deleted.
pub proof fn lemma_unlimited_run_never_trims(events: Seq<ArchiveEvent>, next: ArchiveEvent)
    ensures
        state_after(initial_schedule(0), events).phase != ArchivePhase::MeasuringSize,
        state_after(initial_schedule(0), events).phase != ArchivePhase::Removing,
        schedule_step(state_after(initial_schedule(0), events), next).1 != ArchiveAction::MeasureDbSize,
        schedule_step(state_after(initial_schedule(0), events), next).1
            != ArchiveAction::RemoveOldEntries,
    decreases events.len(),
{
    lemma_run_keeps_limit(initial_schedule(0), events);
    if events.len() > 0 {
        lemma_unlimited_run_never_trims(events.drop_last(), events.last());
        lemma_run_keeps_limit(initial_schedule(0), events.drop_last());
        lemma_unlimited_archive_never_trimmed(
            state_after(initial_schedule(0), events.drop_last()),
            events.last(),
        );
    }
    lemma_unlimited_archive_never_trimmed(state_after(initial_schedule(0), events), next);
}

/// In a run where every report is the one the loop waits for, the loop
/// remembers the end of the last successful archive run.
pub proof fn lemma_run_remembers_last_success(storage_size: usize, events: Seq<ArchiveEvent>)
    requires
        well_driven(initial_schedule(storage_size), events),
    ensures
        state_after(initial_schedule(storage_size), events).last_archive == last_success(events),
    decreases events.len(),
{
    if events.len() > 0 {
        lemma_run_remembers_last_success(storage_size, events.drop_last());
    }
}

/// In a run where every report is the one the loop waits for, an archive
/// run starts only on a tick of an uncancelled token, at least a minute
/// after the end of the last successful run.
pub proof fn lemma_run_archives_once_a_minute(
    storage_size: usize,
    events: Seq<ArchiveEvent>,
    next: ArchiveEvent,
)
    requires
        well_driven(initial_schedule(storage_size), events),
        expects(state_after(initial_schedule(storage_size), events).phase, next),
        schedule_step(state_after(initial_schedule(storage_size), events), next).1
            == ArchiveAction::ArchiveData,
    ensures
        next matches ArchiveEvent::Tick { cancelled, now } && !cancelled && now - last_success(events)
            >= ARCHIVE_INTERVAL_NANOS,
{
    lemma_run_remembers_last_success(storage_size, events);
}

/// In a run where every report is the one the loop waits for, the database
/// is measured only right after an archive run, and entries are deleted
/// only when there is a limit and the size just measured is over it.
pub proof fn lemma_run_trims_only_over_limit(
    storage_size: usize,
    events: Seq<ArchiveEvent>,
    next: ArchiveEvent,
)
    requires
        well_driven(initial_schedule(storage_size), events),
        expects(state_after(initial_schedule(storage_size), events).phase, next),
    ensures
        schedule_step(state_after(initial_schedule(storage_size), events), next).1
            == ArchiveAction::MeasureDbSize ==> next is Archived && storage_size != 0,
        schedule_step(state_after(initial_schedule(storage_size), events), next).1
            == ArchiveAction::RemoveOldEntries ==> storage_size != 0 && (next matches ArchiveEvent::DbSize {
            size: Some(n),
        } && over_limit(storage_size, n)),
{
    lemma_run_keeps_limit(initial_schedule(storage_size), events);
    if storage_size == 0 {
        lemma_unlimited_run_never_trims(events, next);
    }
}

/// How many reports a loop in `phase` takes at most to stop once every tick
/// says the token is cancelled: a waiting loop stops at the next tick, a
/// running archive round first finishes (archive, measure, remove).
pub open spec fn phase_rank(phase: ArchivePhase) -> nat {
    match phase {
        ArchivePhase::Stopped => 0,
        ArchivePhase::Waiting => 1,
        ArchivePhase::Removing => 2,
        ArchivePhase::MeasuringSize => 3,
        ArchivePhase::Archiving => 4,
    }
}

/// Whether no report among `events` is a tick of an uncancelled token.
pub open spec fn all_ticks_cancelled(events: Seq<ArchiveEvent>) -> bool {
    forall|i: int|
        0 <= i < events.len() ==> !(#[trigger] events[i] matches ArchiveEvent::Tick {
            cancelled: false,
            ..
        })
}

/// Taking in two runs of reports one after the other is taking in both at
/// once, and a run whose reports are all awaited is so in each part.
pub proof fn lemma_run_in_parts(s: ScheduleState, a: Seq<ArchiveEvent>, b: Seq<ArchiveEvent>)
    ensures
        state_after(s, a + b) == state_after(state_after(s, a), b),
        well_driven(s, a + b) ==> well_driven(s, a) && well_driven(state_after(s, a), b),
    decreases b.len(),
{
    if b.len() == 0 {
        assert(a + b =~= a);
    } else {
        lemma_run_in_parts(s, a, b.drop_last());
        assert((a + b).drop_last() =~= a + b.drop_last());
        assert((a + b).last() == b.last());
    }
}

/// Once every tick says the token is cancelled, a loop whose reports are
/// all awaited takes at most `phase_rank` more reports, drops a rank with
/// each, and starts no new archive run.
pub proof fn lemma_cancelled_run_winds_down(s: ScheduleState, more: Seq<ArchiveEvent>)
    requires
        well_driven(s, more),
        all_ticks_cancelled(more),
    ensures
        phase_rank(state_after(s, more).phase) + more.len() <= phase_rank(s.phase),
        forall|i: int|
            0 <= i < more.len() ==> schedule_step(state_after(s, more.take(i)), #[trigger] more[i]).1
                != ArchiveAction::ArchiveData,
    decreases more.len(),
{
    if more.len() > 0 {
        let shorter = more.drop_last();
        assert forall|i: int| 0 <= i < shorter.len() implies !(#[trigger] shorter[i] matches ArchiveEvent::Tick {
            cancelled: false,
            ..
        }) by {
            assert(shorter[i] == more[i]);
        }
        lemma_cancelled_run_winds_down(s, shorter);
        let last = more.len() - 1;
        assert(more[last] == more.last());
        assert(!(more[last] matches ArchiveEvent::Tick { cancelled: false, .. }));
        assert forall|i: int| 0 <= i < more.len() implies schedule_step(
            state_after(s, more.take(i)),
            #[trigger] more[i],
        ).1 != ArchiveAction::ArchiveData by {
            if i < last {
                assert(more.take(i) =~= shorter.take(i));
                assert(more[i] == shorter[i]);
            } else {
                assert(more.take(i) =~= shorter);
            }
        }
    }
}

/// Once the token is cancelled, the archive loop ends: in a run whose
/// reports are all awaited, from the moment every tick says the token is
/// cancelled the loop takes at most four more reports (finishing the
/// archive round it is in, then one tick), starts no new archive run, and
/// has stopped when it takes no more.
pub proof fn lemma_cancel_ends_archive_loop(
    storage_size: usize,
    events: Seq<ArchiveEvent>,
    more: Seq<ArchiveEvent>,
)
    requires
        well_driven(initial_schedule(storage_size), events + more),
        all_ticks_cancelled(more),
    ensures
        more.len() <= 4,
        phase_rank(state_after(initial_schedule(storage_size), events + more).phase) + more.len()
            <= phase_rank(state_after(initial_schedule(storage_size), events).phase),
        forall|i: int|
            0 <= i < more.len() ==> schedule_step(
                state_after(state_after(initial_schedule(storage_size), events), more.take(i)),
                #[trigger] more[i],
            ).1 != ArchiveAction::ArchiveData,
        state_after(initial_schedule(storage_size), events + more).phase != ArchivePhase::Stopped
            ==> exists|next: ArchiveEvent|
            expects(
                state_after(initial_schedule(storage_size), events + more).phase,
                next,
            ) && !(next matches ArchiveEvent::Tick { cancelled: false, .. }),
{
    let s0 = initial_schedule(storage_size);
    lemma_run_in_parts(s0, events, more);
    lemma_cancelled_run_winds_down(state_after(s0, events), more);
    let end = state_after(s0, events + more);
    if end.phase != ArchivePhase::Stopped {
        let next = match end.phase {
            ArchivePhase::Waiting => ArchiveEvent::Tick { cancelled: true, now: 0 },
            ArchivePhase::Archiving => ArchiveEvent::Archived { succeeded: false, now: 0 },
            ArchivePhase::MeasuringSize => ArchiveEvent::DbSize { size: None },
            _ => ArchiveEvent::Removed,
        };
        assert(expects(end.phase, next));
    }
}

/// The size, over the limit, whose report last sent the loop from
/// measuring to removing, if any did.
pub open spec fn trim_trigger(s: ScheduleState, events: Seq<ArchiveEvent>) -> Option<usize>
    decreases events.len(),
{
    if events.len() == 0 {
        None
    } else {
        let before = state_after(s, events.drop_last());
        match events.last() {
            ArchiveEvent::DbSize { size: Some(m) } => if before.phase == ArchivePhase::MeasuringSize
                && over_limit(before.storage_size, m) {
                Some(m)
            } else {
                trim_trigger(s, events.drop_last())
            },
            _ => trim_trigger(s, events.drop_last()),
        }
    }
}

/// The end time of the last successful archive run that the loop took in
/// while archiving, or the Unix epoch if there was none.
pub open spec fn last_taken_success(s: ScheduleState, events: Seq<ArchiveEvent>) -> i128
    decreases events.len(),
{
    if events.len() == 0 {
        0
    } else {
        let before = state_after(s, events.drop_last());
        match events.last() {
            ArchiveEvent::Archived { succeeded: true, now } => if before.phase
                == ArchivePhase::Archiving {
                now
            } else {
                last_taken_success(s, events.drop_last())
            },
            _ => last_taken_success(s, events.drop_last()),
        }
    }
}

/// Whatever the loop is told, it removes only after a measured size over
/// the limit, and it remembers the end of the last successful archive run
/// it took in.
proof fn lemma_any_run_invariant(storage_size: usize, events: Seq<ArchiveEvent>)
    ensures
        state_after(initial_schedule(storage_size), events).phase == ArchivePhase::Removing
            ==> (trim_trigger(initial_schedule(storage_size), events) matches Some(m) && over_limit(
            storage_size,
            m,
        )),
        state_after(initial_schedule(storage_size), events).last_archive == last_taken_success(
            initial_schedule(storage_size),
            events,
        ),
    decreases events.len(),
{
    lemma_run_keeps_limit(initial_schedule(storage_size), events);
    if events.len() > 0 {
        lemma_any_run_invariant(storage_size, events.drop_last());
        lemma_run_keeps_limit(initial_schedule(storage_size), events.drop_last());
    }
}

/// Whatever the loop is told, it asks to delete entries only when there is
/// a limit and either a size over it was just reported while measuring, or
/// it is still waiting for the deletion that such a report asked for.
pub proof fn lemma_any_run_trims_only_over_limit(
    storage_size: usize,
    events: Seq<ArchiveEvent>,
    next: ArchiveEvent,
)
    requires
        schedule_step(state_after(initial_schedule(storage_size), events), next).1
            == ArchiveAction::RemoveOldEntries,
    ensures
        storage_size != 0,
        (next matches ArchiveEvent::DbSize { size: Some(m) } && over_limit(storage_size, m)) || (
        trim_trigger(initial_schedule(storage_size), events) matches Some(m) && over_limit(
            storage_size,
            m,
        )),
{
    lemma_any_run_invariant(storage_size, events);
    lemma_run_keeps_limit(initial_schedule(storage_size), events);
    if storage_size == 0 {
        lemma_unlimited_run_never_trims(events, next);
    }
}

/// Whatever the loop is told, it asks for an archive run either on a tick
/// of an uncancelled token at least a minute after the end of the last
/// successful run it took in, or while it still waits for the run it asked
/// for before.
pub proof fn lemma_any_run_archives_once_a_minute(
    storage_size: usize,
    events: Seq<ArchiveEvent>,
    next: ArchiveEvent,
)
    requires
        schedule_step(state_after(initial_schedule(storage_size), events), next).1
            == ArchiveAction::ArchiveData,
    ensures
        (next matches ArchiveEvent::Tick { cancelled, now } && !cancelled && now
            - last_taken_success(initial_schedule(storage_size), events) >= ARCHIVE_INTERVAL_NANOS)
            || state_after(initial_schedule(storage_size), events).phase == ArchivePhase::Archiving,
{
    lemma_any_run_invariant(storage_size, events);
}

} // verus!
