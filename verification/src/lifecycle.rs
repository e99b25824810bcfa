//! Checking the bundled runtime before the harness starts; damaged files can only be
//! repaired by running the full installer again.

use vstd::prelude::*;

verus! {

/// Whether the bundled runtime can start the harness: Node.js is compatible, the harness
/// entry is a file, and the harness version could be read.
pub fn runtime_ready(runtime_compatible: bool, dsh_binary_is_file: bool, dsh_version_known: bool) -> (res:
    bool)
    ensures
        res == (runtime_compatible && dsh_binary_is_file && dsh_version_known),
{
    runtime_compatible && dsh_binary_is_file && dsh_version_known
}

/// The error when the bundled runtime is missing or damaged.
pub const BUNDLED_RUNTIME_MISSING: &'static str =
    "BUNDLED_RUNTIME_MISSING: 内置运行时缺失或损坏，请重新运行完整安装包 / Bundled runtime missing or damaged; reinstall the full installer";

/// What setting up the bundled runtime still has to do.
pub struct InstallSteps {
    /// Record in the settings that the runtime is installed.
    pub mark_installed: bool,
    /// Register the bundled command-line entry (its failure is only logged).
    pub ensure_cli: bool,
}

/// Setting up the bundled runtime: an error where it is not ready; else record it as
/// installed if it was not yet, and register the command-line entry where the user has
/// it enabled, on first start too.
pub fn install_dependencies(runtime_ready: bool, installed: bool, cli_link_enabled: bool) -> (res:
    Result<InstallSteps, String>)
    ensures
        !runtime_ready ==> (res matches Err(e) && e@ == BUNDLED_RUNTIME_MISSING@),
        runtime_ready ==> (res matches Ok(steps) && steps.mark_installed == !installed
            && steps.ensure_cli == cli_link_enabled),
{
    if !runtime_ready {
        return Err(BUNDLED_RUNTIME_MISSING.to_owned());
    }
    Ok(InstallSteps { mark_installed: !installed, ensure_cli: cli_link_enabled })
}

} // verus!
