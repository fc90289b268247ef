//! The device-facing surface: configuration knobs, access modes, the error
//! taxonomy, and the open/seek/ioctl entry points.

use vstd::prelude::*;

use crate::engine::StorageEngine;
use crate::model::EngineModel;

verus! {

/// The two externally settable configuration knobs, snapshotted by the
/// engine at construction and at each trim.  Non-positive values are a
/// configuration error.
#[derive(Clone, Copy, Debug)]
pub struct Config {
    /// Capacity in bytes of one quantum buffer.
    pub quantum: i32,
    /// Number of quantum slots per group.
    pub qset: i32,
}

impl Config {
    /// Both sizes must be strictly positive before the engine may use them.
    pub open spec fn valid(self) -> bool {
        self.quantum > 0 && self.qset > 0
    }
}

/// How a session asks to access the device.  A write-only open discards all
/// prior content.
#[derive(Clone, Copy, Debug, PartialEq, Eq, Structural)]
pub enum AccessMode {
    ReadOnly,
    WriteOnly,
    ReadWrite,
}

/// Every failure an operation can report.
#[derive(Clone, Copy, Debug, PartialEq, Eq, Structural)]
pub enum ScullError {
    /// A non-positive quantum or group size was configured.
    Configuration,
    /// The operation (seek, any ioctl) is outside the supported surface.
    Unsupported,
}

/// Opens a session on the shared engine: a write-only open trims the engine,
/// re-snapshotting the configuration; any other mode leaves it untouched.
pub fn open(engine: &mut StorageEngine, mode: AccessMode, config: Config) -> (r: Result<
    (),
    ScullError,
>)
    ensures
        mode == AccessMode::WriteOnly && config.valid() ==> r is Ok && final(engine)@
            == EngineModel::fresh(config.quantum as int, config.qset as int)
            && final(engine)@.wf(),
        mode == AccessMode::WriteOnly && !config.valid() ==> r == Err::<(), ScullError>(
            ScullError::Configuration,
        ) && *final(engine) == *old(engine),
        mode != AccessMode::WriteOnly ==> r is Ok && *final(engine) == *old(engine),
{
    match mode {
        AccessMode::WriteOnly => engine.trim(config),
        _ => Ok(()),
    }
}

/// Seeking is not part of the supported surface: it always fails and touches
/// no state.
pub fn seek(_offset: u64) -> (r: Result<u64, ScullError>)
    ensures
        r == Err::<u64, ScullError>(ScullError::Unsupported),
{
    Err(ScullError::Unsupported)
}

/// No ioctl code is implemented: every command fails and touches no state.
pub fn ioctl(_command: u32) -> (r: Result<i32, ScullError>)
    ensures
        r == Err::<i32, ScullError>(ScullError::Unsupported),
{
    Err(ScullError::Unsupported)
}

} // verus!
