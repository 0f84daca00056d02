//! Telemetry payload schema: the parts that hold counts and flags only.
//!
//! No command text, paths, user names or addresses are ever fields here.
use vstd::prelude::*;
use vstd::string::*;

verus! {

/// A command class paired with its population frequency and measured savings.
#[derive(Debug)]
pub struct ClassStratumTelemetry {
    /// The command class.
    pub cmd_class: String,
    /// Observed invocations.
    pub population_count: u64,
    /// Measured invocations.
    pub measured_count: u64,
    /// The tokens saved by the measured invocations.
    pub measured_savings_total: u64,
}

impl Default for ClassStratumTelemetry {
    fn default() -> (r: Self)
        ensures
            r.cmd_class@ == ""@,
            r.population_count == 0,
            r.measured_count == 0,
            r.measured_savings_total == 0,
    {
        ClassStratumTelemetry {
            cmd_class: "".to_owned(),
            population_count: 0,
            measured_count: 0,
            measured_savings_total: 0,
        }
    }
}

/// Which optional features are installed and enabled on this machine. For a
/// backend both are told, so that "not installed", "installed but off" and
/// "on" can be distinguished.
#[derive(Debug, Clone, Copy, PartialEq, Eq, Structural)]
pub struct CapabilitySnapshot {
    /// lean-ctx is installed.
    pub lean_ctx_available: bool,
    /// lean-ctx is on.
    pub lean_ctx_enabled: bool,
    /// Nushell is installed.
    pub nushell_available: bool,
    /// Nushell is on.
    pub nushell_enabled: bool,
    /// lowfat is installed.
    pub lowfat_available: bool,
    /// lowfat is on.
    pub lowfat_enabled: bool,
    /// compression-prompt is installed.
    pub compression_prompt_available: bool,
    /// compression-prompt is on.
    pub compression_prompt_enabled: bool,
    /// RTK is installed; there is no separate toggle.
    pub rtk_available: bool,
    /// diet is on; there is no binary.
    pub diet_enabled: bool,
    /// The counterfactual stream is on.
    pub counterfactual_enabled: bool,
}

impl Default for CapabilitySnapshot {
    fn default() -> (r: Self)
        ensures
            r == (CapabilitySnapshot {
                lean_ctx_available: false,
                lean_ctx_enabled: false,
                nushell_available: false,
                nushell_enabled: false,
                lowfat_available: false,
                lowfat_enabled: false,
                compression_prompt_available: false,
                compression_prompt_enabled: false,
                rtk_available: false,
                diet_enabled: false,
                counterfactual_enabled: false,
            }),
    {
        CapabilitySnapshot {
            lean_ctx_available: false,
            lean_ctx_enabled: false,
            nushell_available: false,
            nushell_enabled: false,
            lowfat_available: false,
            lowfat_enabled: false,
            compression_prompt_available: false,
            compression_prompt_enabled: false,
            rtk_available: false,
            diet_enabled: false,
            counterfactual_enabled: false,
        }
    }
}

} // verus!
