//! Runtime facts that the launcher reports and the places it uses: the download mirror,
//! the harness version from its package manifest, the service address, the user-data
//! directory and the bundle directory.

use vstd::prelude::*;
use crate::text::{push_char, strip_leading_spec};
use crate::version::{decimal_spec, get_active_node_version, NODE_VERSION};

verus! {

/// The prefix of the mirror through which GitHub release assets are also fetched.
pub const DSH_MIRROR_PREFIX: &'static str = "https://ghfast.top/";

/// The address of the local harness service, without its port.
pub const DSH_SERVICE_HOST_PREFIX: &'static str = "http://127.0.0.1:";

/// The name of the user-data directory under the home directory.
pub const DSH_HOME_DIR_NAME: &'static str = ".dsh";

/// The name of the user-data directory of development builds, kept apart from release data.
pub const DSH_HOME_DEV_DIR_NAME: &'static str = ".dsh.dev";

/// The key of the version in the harness's package manifest.
pub const MANIFEST_VERSION_KEY: &'static str = "version";

/// The mirror address for a release asset: the mirror prefix and then the asset's own URL,
/// unchanged, so that the downloaded bytes can be checked against the same SHA-256.
pub fn mirror_download_url(asset_url: &str) -> (res: String)
    ensures
        res@ == DSH_MIRROR_PREFIX@ + asset_url@,
{
    let mut res = DSH_MIRROR_PREFIX.to_owned();
    crate::text::push_str(&mut res, asset_url);
    res
}

/// Appends the decimal digits of `n` to `out`.
fn push_decimal(out: &mut String, n: u64)
    ensures
        final(out)@ == old(out)@ + decimal_spec(n as nat),
    decreases n,
{
    let ghost start = out@;
    if n >= 10 {
        push_decimal(out, n / 10);
    }
    let d = (n % 10) as u8;
    push_char(out, (48u8 + d) as char);
    assert(out@ =~= start + decimal_spec(n as nat));
}

/// The address of the harness service on `port`.
pub open spec fn service_url_spec(port: u16) -> Seq<char> {
    DSH_SERVICE_HOST_PREFIX@ + decimal_spec(port as nat)
}

/// The address of the harness service on `port`.
pub fn get_dsh_service_url(port: u16) -> (res: String)
    ensures
        res@ == service_url_spec(port),
{
    let mut res = DSH_SERVICE_HOST_PREFIX.to_owned();
    push_decimal(&mut res, port as u64);
    res
}

/// The string member `key` of the JSON object that `text` holds, if `text` is JSON, its
/// top level an object, and that member a string.
pub uninterp spec fn json_string_member_spec(text: Seq<char>, key: Seq<char>) -> Option<Seq<char>>;

/// Parses `text` as JSON (`serde_json::from_str::<serde_json::Value>`), takes its member
/// `key` (`serde_json::Value::get`, which gives nothing unless the value is an object)
/// and reads that member as a string (`serde_json::Value::as_str`). The result is a
/// function of `text` and `key` alone; no clause says which JSON texts parse.
#[verifier::external_body]
fn json_string_member(text: &str, key: &str) -> (res: Option<String>)
    ensures
        res is Some == json_string_member_spec(text@, key@) is Some,
        res matches Some(s) ==> s@ == json_string_member_spec(text@, key@)->0,
{
    serde_json::from_str::<serde_json::Value>(text).ok()?.get(key)?.as_str().map(str::to_owned)
}

/// The harness version shown in the interface: the `version` string of its package
/// manifest. `manifest` is the manifest's text, or nothing where it could not be read.
pub fn get_dsh_version(manifest: Option<&str>) -> (res: Option<String>)
    ensures
        match manifest {
            None => res is None,
            Some(text) => {
                &&& res is Some == json_string_member_spec(text@, MANIFEST_VERSION_KEY@) is Some
                &&& res matches Some(s) ==> s@ == json_string_member_spec(
                    text@,
                    MANIFEST_VERSION_KEY@,
                )->0
            },
        },
{
    match manifest {
        None => None,
        Some(text) => json_string_member(text, MANIFEST_VERSION_KEY),
    }
}

/// The runtime, version and diagnostic facts that the side bar shows.
pub struct RuntimeInfo {
    pub app_version: String,
    pub dsh_version: Option<String>,
    pub node_version: String,
    pub service_url: String,
    pub data_dir: String,
    pub log_path: String,
    pub platform: String,
    pub arch: String,
}

/// Gathers the facts that the side bar shows; the Node.js version is the bundled one and
/// the service address is the one on `port`.
pub fn runtime_info(
    app_version: String,
    dsh_version: Option<String>,
    port: u16,
    data_dir: String,
    log_path: String,
    platform: String,
    arch: String,
) -> (res: RuntimeInfo)
    ensures
        res.app_version == app_version,
        res.dsh_version == dsh_version,
        res.node_version@ == strip_leading_spec(NODE_VERSION@, 'v'),
        res.service_url@ == service_url_spec(port),
        res.data_dir == data_dir,
        res.log_path == log_path,
        res.platform == platform,
        res.arch == arch,
{
    RuntimeInfo {
        app_version,
        dsh_version,
        node_version: get_active_node_version(),
        service_url: get_dsh_service_url(port),
        data_dir,
        log_path,
        platform,
        arch,
    }
}

/// Where the harness keeps its user data.
pub enum DataDir {
    /// The directory that `DSH_HOME` names.
    Explicit(String),
    /// The directory `name` under the home directory `home`.
    UnderHome { home: String, name: String },
    /// The directory `name`, relative to the working directory, where no home is known.
    Relative(String),
}

/// The name of the user-data directory for a release or a development build.
pub open spec fn data_dir_name_spec(debug_build: bool) -> Seq<char> {
    if debug_build {
        DSH_HOME_DEV_DIR_NAME@
    } else {
        DSH_HOME_DIR_NAME@
    }
}

/// Where the harness keeps its user data, as the official harness decides it: `DSH_HOME`
/// where it is set and not empty; else `.dsh` (`.dsh.dev` for a development build) under
/// the home directory, or on its own where no home directory is known.
pub fn get_dsh_data_path(dsh_home: Option<String>, home: Option<String>, debug_build: bool) -> (res:
    DataDir)
    ensures
        match dsh_home {
            Some(h) if h@.len() > 0 => res == DataDir::Explicit(h),
            _ => match home {
                Some(hd) => res matches DataDir::UnderHome { home: h2, name } && h2 == hd
                    && name@ == data_dir_name_spec(debug_build),
                None => res matches DataDir::Relative(name) && name@ == data_dir_name_spec(
                    debug_build,
                ),
            },
        },
{
    if let Some(h) = dsh_home {
        if !h.as_str().is_empty() {
            return DataDir::Explicit(h);
        }
    }
    let name = if debug_build {
        DSH_HOME_DEV_DIR_NAME
    } else {
        DSH_HOME_DIR_NAME
    };
    match home {
        Some(hd) => DataDir::UnderHome { home: hd, name: name.to_owned() },
        None => DataDir::Relative(name.to_owned()),
    }
}

/// The name of the service log file; development builds write their own file, so that
/// their log rotation does not overwrite the log of a release build that is running.
pub fn service_log_file_name(debug_build: bool) -> (res: &'static str)
    ensures
        res@ == if debug_build {
            "dsh-web.dev.log"@
        } else {
            "dsh-web.log"@
        },
{
    if debug_build {
        "dsh-web.dev.log"
    } else {
        "dsh-web.log"
    }
}

/// The Windows verbatim prefix `\\?\`.
pub open spec fn verbatim_prefix() -> Seq<char> {
    seq!['\\', '\\', '?', '\\']
}

/// `path` in its most widely understood form (`dunce::simplified`): unchanged, except
/// that on Windows a verbatim disk path `\\?\C:\...` that can safely be written without
/// its prefix loses its first four characters. Which of the two happens depends on the
/// platform, which no clause names.
#[verifier::external_body]
fn simplified_path(path: &str) -> (res: String)
    ensures
        res@ == path@ || (path@.len() >= 4 && path@.take(4) == verbatim_prefix() && res@
            == path@.skip(4)),
{
    dunce::simplified(std::path::Path::new(path)).to_string_lossy().into_owned()
}

/// The directory of the bundled runtimes, from the resolved `root`: without the Windows
/// verbatim prefix where it can go, because Node.js misreads a verbatim entry-script path.
pub fn get_bundle_dir(root: &str) -> (res: String)
    ensures
        res@ == root@ || (root@.len() >= 4 && root@.take(4) == verbatim_prefix() && res@
            == root@.skip(4)),
{
    simplified_path(root)
}

} // verus!
