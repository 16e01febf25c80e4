//! Archive entries summed up over an hour or a day, and the energy reading
//! that the web front end charts.

use vstd::prelude::*;

use crate::archive::EnergyUnit;

verus! {

/// The energy of several archive entries of one period, summed up.
#[derive(Clone, Copy, Debug, PartialEq, Eq, Structural)]
pub struct AggregatedArchiveData {
    pub timestamp: u64,
    pub plug_id: u8,
    pub energy: u32,
    pub energy_unit: EnergyUnit,
    pub granularity: Granularity,
}

impl GetEnergyData for AggregatedArchiveData {
    open spec fn energy_data(&self) -> EnergyData {
        EnergyData {
            timestamp: self.timestamp,
            plug_id: self.plug_id,
            energy: self.energy,
            energy_unit: self.energy_unit,
        }
    }

    fn get_energy_data(&self) -> (r: EnergyData) {
        EnergyData {
            timestamp: self.timestamp,
            plug_id: self.plug_id,
            energy: self.energy,
            energy_unit: self.energy_unit,
        }
    }
}

/// The length of the period over which archive entries are summed up.
#[derive(Clone, Copy, Debug, PartialEq, Eq, Structural)]
pub enum Granularity {
    Hours,
    Days,
    Weeks,
    Months,
    Years,
}

/// One point of the energy chart.
#[derive(Clone, Copy, Debug, PartialEq, Eq, Structural)]
pub struct EnergyData {
    pub timestamp: u64,
    pub plug_id: u8,
    pub energy: u32,
    pub energy_unit: EnergyUnit,
}

/// Anything that carries an energy reading of the chart.
pub trait GetEnergyData {
    /// The reading that `get_energy_data` returns.
    spec fn energy_data(&self) -> EnergyData;

    fn get_energy_data(&self) -> (r: EnergyData)
        ensures
            r == self.energy_data(),
    ;
}

} // verus!
