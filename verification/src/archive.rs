//! One stored measurement of the plug, and the units it is stored in.

use vstd::prelude::*;

use crate::aggreated_archive_data::{EnergyData, GetEnergyData};

verus! {

/// One row of the archive table: a measurement of the plug at `timestamp`.
#[derive(Clone, Copy, Debug, PartialEq, Eq, Structural)]
pub struct Archive {
    pub timestamp: u64,
    pub plug_id: u8,
    pub power: u32,
    pub power_unit: PowerUnit,
    pub energy: u32,
    pub energy_unit: EnergyUnit,
    pub total_energy: u64,
}

impl GetEnergyData for Archive {
    open spec fn energy_data(&self) -> EnergyData {
        EnergyData {
            timestamp: self.timestamp,
            plug_id: self.plug_id,
            energy: self.energy,
            energy_unit: self.energy_unit,
        }
    }

    fn get_energy_data(&self) -> (r: EnergyData) {
        EnergyData {
            timestamp: self.timestamp,
            plug_id: self.plug_id,
            energy: self.energy,
            energy_unit: self.energy_unit,
        }
    }
}

/// A value of one column as the database hands it out; the library reads
/// only integers and the absence of a value.
#[derive(Clone, Copy, Debug, PartialEq, Eq, Structural)]
pub enum SqlValue {
    Null,
    Integer(i64),
    Real,
    Text,
    Blob,
}

/// The unit of a power reading.
#[derive(Clone, Copy, Debug, PartialEq, Eq, Structural)]
pub enum PowerUnit {
    Milliwatt,
    Watt,
    Kilowatt,
}

/// The number under which each power unit is stored.
pub open spec fn power_unit_code(unit: PowerUnit) -> int {
    match unit {
        PowerUnit::Milliwatt => 0,
        PowerUnit::Watt => 1,
        PowerUnit::Kilowatt => 2,
    }
}

/// Whether a stored column value can be read as a power unit: no value, or
/// one of the stored numbers.
pub open spec fn is_power_unit_column(value: SqlValue) -> bool {
    match value {
        SqlValue::Null => true,
        SqlValue::Integer(n) => 0 <= n <= 2,
        _ => false,
    }
}

impl PowerUnit {
    /// The unit stored under `value`; any other number is refused.
    pub fn from(value: i64) -> (r: PowerUnit)
        requires
            0 <= value <= 2,
        ensures
            power_unit_code(r) == value,
    {
        if value == 0 {
            PowerUnit::Milliwatt
        } else if value == 1 {
            PowerUnit::Watt
        } else {
            PowerUnit::Kilowatt
        }
    }

    /// The number under which the unit is stored.
    pub fn code(self) -> (r: u8)
        ensures
            r == power_unit_code(self),
    {
        match self {
            PowerUnit::Milliwatt => 0,
            PowerUnit::Watt => 1,
            PowerUnit::Kilowatt => 2,
        }
    }

    /// Reads a stored column: no value stands for milliwatts, a number for
    /// the unit stored under it.
    pub fn column_result(value: SqlValue) -> (r: PowerUnit)
        requires
            is_power_unit_column(value),
        ensures
            match value {
                SqlValue::Integer(n) => power_unit_code(r) == n,
                _ => r == PowerUnit::Milliwatt,
            },
    {
        match value {
            SqlValue::Integer(n) => PowerUnit::from(n),
            _ => PowerUnit::Milliwatt,
        }
    }
}

/// The unit of an energy reading.
#[derive(Clone, Copy, Debug, PartialEq, Eq, Structural)]
pub enum EnergyUnit {
    MilliwattSeconds,
    MiliwattMinute,
    WattSeconds,
    WattMinutes,
    WattHours,
    KilowattHours,
}

/// The number under which each energy unit is stored.
pub open spec fn energy_unit_code(unit: EnergyUnit) -> int {
    match unit {
        EnergyUnit::MilliwattSeconds => 0,
        EnergyUnit::MiliwattMinute => 1,
        EnergyUnit::WattSeconds => 2,
        EnergyUnit::WattMinutes => 3,
        EnergyUnit::WattHours => 4,
        EnergyUnit::KilowattHours => 5,
    }
}

/// Whether a stored column value can be read as an energy unit: no value,
/// or one of the stored numbers.
pub open spec fn is_energy_unit_column(value: SqlValue) -> bool {
    match value {
        SqlValue::Null => true,
        SqlValue::Integer(n) => 0 <= n <= 5,
        _ => false,
    }
}

impl EnergyUnit {
    /// The unit stored under `value`; any other number is refused.
    pub fn from(value: i64) -> (r: EnergyUnit)
        requires
            0 <= value <= 5,
        ensures
            energy_unit_code(r) == value,
    {
        if value == 0 {
            EnergyUnit::MilliwattSeconds
        } else if value == 1 {
            EnergyUnit::MiliwattMinute
        } else if value == 2 {
            EnergyUnit::WattSeconds
        } else if value == 3 {
            EnergyUnit::WattMinutes
        } else if value == 4 {
            EnergyUnit::WattHours
        } else {
            EnergyUnit::KilowattHours
        }
    }

    /// The number under which the unit is stored.
    pub fn code(self) -> (r: u8)
        ensures
            r == energy_unit_code(self),
    {
        match self {
            EnergyUnit::MilliwattSeconds => 0,
            EnergyUnit::MiliwattMinute => 1,
            EnergyUnit::WattSeconds => 2,
            EnergyUnit::WattMinutes => 3,
            EnergyUnit::WattHours => 4,
            EnergyUnit::KilowattHours => 5,
        }
    }

    /// Reads a stored column: no value stands for watt minutes, a number for
    /// the unit stored under it.
    pub fn column_result(value: SqlValue) -> (r: EnergyUnit)
        requires
            is_energy_unit_column(value),
        ensures
            match value {
                SqlValue::Integer(n) => energy_unit_code(r) == n,
                _ => r == EnergyUnit::WattMinutes,
            },
    {
        match value {
            SqlValue::Integer(n) => EnergyUnit::from(n),
            _ => EnergyUnit::WattMinutes,
        }
    }
}

/// A power unit survives being stored as its number and read back.
pub proof fn lemma_power_unit_round_trip(unit: PowerUnit, other: PowerUnit)
    ensures
        0 <= power_unit_code(unit) <= 2,
        power_unit_code(unit) == power_unit_code(other) ==> unit == other,
{
}

/// An energy unit survives being stored as its number and read back.
pub proof fn lemma_energy_unit_round_trip(unit: EnergyUnit, other: EnergyUnit)
    ensures
        0 <= energy_unit_code(unit) <= 5,
        energy_unit_code(unit) == energy_unit_code(other) ==> unit == other,
{
}

} // verus!
