//! The command-line entry: it lives in the installation directory, which the installer
//! maintains, so enabling and disabling it only registers or unregisters that directory
//! on the user's `PATH`.

use vstd::prelude::*;
use crate::text::{chars_of, contains_chars, contains_spec};

verus! {

/// What the settings page shows of the command-line entry.
pub struct CliLinkStatus {
    /// The user's switch.
    pub enabled: bool,
    /// Whether the main script exists.
    pub shim_exists: bool,
    /// Whether the script directory is on the user's `PATH`.
    pub path_registered: bool,
    /// Always false: enabling only registers `PATH`, so no `dsh` of the user's own is
    /// looked for or reported.
    pub user_dsh_preserved: bool,
    /// The script directory.
    pub bin_dir: String,
    /// The main script.
    pub shim_path: String,
}

/// The status of the command-line entry from what was found; a `dsh` of the user's own is
/// never reported, since the bundled entry no longer writes over one.
pub fn get_status(
    enabled: bool,
    shim_exists: bool,
    path_registered: bool,
    bin_dir: String,
    shim_path: String,
) -> (res: CliLinkStatus)
    ensures
        res.enabled == enabled,
        res.shim_exists == shim_exists,
        res.path_registered == path_registered,
        !res.user_dsh_preserved,
        res.bin_dir == bin_dir,
        res.shim_path == shim_path,
{
    CliLinkStatus {
        enabled,
        shim_exists,
        path_registered,
        user_dsh_preserved: false,
        bin_dir,
        shim_path,
    }
}

/// What to do to the user's `PATH` before the status is reported again.
pub enum PathChange {
    /// Add the script directory to the user's `PATH`.
    Register,
    /// Take the script directory off the user's `PATH`.
    Unregister,
    /// Leave the user's `PATH` alone: development builds do not touch this state, which
    /// the release build that the user runs maintains.
    Keep,
}

/// The error when the bundled command-line script is missing.
pub const BUNDLED_CLI_MISSING: &'static str =
    "BUNDLED_CLI_MISSING: reinstall the full desktop installer";

/// Enabling the command-line entry: an error where the bundled script is missing; else
/// register its directory on `PATH`, except in a development build.
pub fn ensure(shim_exists: bool, debug_build: bool) -> (res: Result<PathChange, String>)
    ensures
        !shim_exists ==> (res matches Err(e) && e@ == BUNDLED_CLI_MISSING@),
        shim_exists && debug_build ==> res matches Ok(PathChange::Keep),
        shim_exists && !debug_build ==> res matches Ok(PathChange::Register),
{
    if !shim_exists {
        return Err(BUNDLED_CLI_MISSING.to_owned());
    }
    if debug_build {
        return Ok(PathChange::Keep);
    }
    Ok(PathChange::Register)
}

/// Disabling the command-line entry: take its directory off `PATH`, except in a
/// development build; the scripts themselves are never deleted.
pub fn remove(debug_build: bool) -> (res: PathChange)
    ensures
        debug_build ==> res matches PathChange::Keep,
        !debug_build ==> res matches PathChange::Unregister,
{
    if debug_build {
        PathChange::Keep
    } else {
        PathChange::Unregister
    }
}

/// The mark that scripts written by earlier versions of the desktop launcher carry.
pub const GENERATED_SHIM_MARK: &'static str = "DeepSeek Harness Desktop";

/// Whether a script was written by an earlier version of the launcher: its text, where it
/// could be read, holds the launcher's mark.
pub fn is_generated_shim(content: Option<&str>) -> (res: bool)
    ensures
        res == match content {
            Some(text) => contains_spec(text@, GENERATED_SHIM_MARK@),
            None => false,
        },
{
    match content {
        Some(text) => {
            let hay = chars_of(text);
            let mark = chars_of(GENERATED_SHIM_MARK);
            contains_chars(hay.as_slice(), mark.as_slice())
        },
        None => false,
    }
}

} // verus!
