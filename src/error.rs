//! The ways a simulation run can fail.

use vstd::prelude::*;

verus! {

#[derive(Clone, Copy, Debug, PartialEq, Eq, Structural)]
pub enum SimulationError {
    /// The configuration file is missing or unreadable.
    ConfigRead,
    /// The configuration text is malformed.
    ConfigParse,
    /// The latitude lies outside `[-90, 90]` degrees.
    GeodeticValidation,
    /// No output format was given and none follows from the output path.
    UnsupportedFormat,
    /// The geometry rejected a pixel coordinate that the enumeration produced.
    GeometryContractViolation,
    /// Two traced rays claim the same pixel.
    AssemblyCollision,
    /// Encoding or writing the output failed.
    OutputWrite,
}

impl SimulationError {
    /// A short human-readable description.
    pub fn message(&self) -> (s: &'static str)
        ensures
            *self == SimulationError::ConfigRead ==> s@ == "cannot read the parameter file"@,
            *self == SimulationError::ConfigParse ==> s@ == "cannot parse the parameter file"@,
            *self == SimulationError::GeodeticValidation ==> s@ == "latitude must lie between -90 and 90 degrees"@,
            *self == SimulationError::UnsupportedFormat ==> s@ == "unsupported output format"@,
            *self == SimulationError::GeometryContractViolation ==> s@ == "pixel coordinate is not on the sensor plane"@,
            *self == SimulationError::AssemblyCollision ==> s@ == "two rays hit the same pixel"@,
            *self == SimulationError::OutputWrite ==> s@ == "cannot encode or write the output"@,
    {
        match self {
            SimulationError::ConfigRead => "cannot read the parameter file",
            SimulationError::ConfigParse => "cannot parse the parameter file",
            SimulationError::GeodeticValidation => "latitude must lie between -90 and 90 degrees",
            SimulationError::UnsupportedFormat => "unsupported output format",
            SimulationError::GeometryContractViolation => "pixel coordinate is not on the sensor plane",
            SimulationError::AssemblyCollision => "two rays hit the same pixel",
            SimulationError::OutputWrite => "cannot encode or write the output",
        }
    }
}

} // verus!
