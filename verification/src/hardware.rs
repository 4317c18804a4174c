//! Kinds of filesystems, and the readings of hardware sensors.

use vstd::prelude::*;

use crate::text::str_eq;

verus! {

/// The kinds of filesystems that `hrFSType` tells apart here.
#[derive(Clone, Copy, Debug, PartialEq, Eq, Structural)]
pub enum FsType {
    /// `hrFSOther`.
    Other,
    /// `hrFSUnknown`.
    Unknown,
    /// `hrFSFat`.
    Fat,
    /// `hrFSHPFS`.
    Hpfs,
    /// `hrFSLinuxExt2`.
    LinuxExt2,
    /// `hrFSXFS`.
    Xfs,
}

impl FsType {
    /// The kind of a filesystem with the given name; none is unknown, and what is not listed is
    /// another.
    pub open spec fn named(fs: Seq<char>) -> FsType {
        if fs.len() == 0 {
            FsType::Unknown
        } else if fs == "ext2"@ || fs == "ext3"@ || fs == "ext4"@ {
            FsType::LinuxExt2
        } else if fs == "xfs"@ {
            FsType::Xfs
        } else if fs == "ntfs"@ {
            FsType::Hpfs
        } else if fs == "vfat"@ {
            FsType::Fat
        } else {
            FsType::Other
        }
    }

    /// The last arc of the object identifier of a kind.
    pub open spec fn suffix(self) -> u32 {
        match self {
            FsType::Other => 1,
            FsType::Unknown => 2,
            FsType::Fat => 6,
            FsType::Hpfs => 7,
            FsType::LinuxExt2 => 10,
            FsType::Xfs => 14,
        }
    }

    /// The kind of a filesystem with the given name.
    pub fn from_fs_string(fs: &str) -> (r: FsType)
        ensures
            r == FsType::named(fs@),
    {
        if fs.unicode_len() == 0 {
            FsType::Unknown
        } else if str_eq(fs, "ext2") || str_eq(fs, "ext3") || str_eq(fs, "ext4") {
            FsType::LinuxExt2
        } else if str_eq(fs, "xfs") {
            FsType::Xfs
        } else if str_eq(fs, "ntfs") {
            FsType::Hpfs
        } else if str_eq(fs, "vfat") {
            FsType::Fat
        } else {
            FsType::Other
        }
    }

    /// The last arc of the object identifier of a kind.
    pub fn as_oid_suffix(self) -> (r: u32)
        ensures
            r == self.suffix(),
    {
        match self {
            FsType::Other => 1,
            FsType::Unknown => 2,
            FsType::Fat => 6,
            FsType::Hpfs => 7,
            FsType::LinuxExt2 => 10,
            FsType::Xfs => 14,
        }
    }
}

/// One reading of a sensor.
#[derive(Debug)]
pub struct SensorReading {
    /// The name of the sensor.
    pub name: String,
    /// The reading, rounded to a whole number.
    pub value: i64,
    /// The unit.
    pub unit: String,
}

/// The readings of all sensors.
#[derive(Debug)]
pub struct SensorReadings {
    /// Temperatures.
    pub temps: Vec<SensorReading>,
    /// Fans.
    pub fans: Vec<SensorReading>,
    /// Voltages.
    pub voltages: Vec<SensorReading>,
}

impl Default for SensorReadings {
    /// The readings where there are no sensors.
    fn default() -> (r: SensorReadings)
        ensures
            r.temps@.len() == 0,
            r.fans@.len() == 0,
            r.voltages@.len() == 0,
    {
        SensorReadings { temps: Vec::new(), fans: Vec::new(), voltages: Vec::new() }
    }
}

} // verus!
