//! The harness core is delivered only with the desktop installer: the cores page lists
//! that one bundled core, read from local files, with no network request.

use vstd::prelude::*;

verus! {

/// One harness core as the cores page shows it.
pub struct HarnessCore {
    pub id: String,
    pub source: String,
    pub version: String,
    pub path: String,
    pub dir: String,
    pub present: bool,
    pub active: bool,
}

/// The id and source of the bundled core.
pub const BUNDLED_CORE_ID: &'static str = "app";

/// The cores to show: only the bundled one, always active, its version empty where it
/// is not known.
pub fn list(binary_path: String, install_dir: String, version: Option<String>, present: bool) -> (res:
    Vec<HarnessCore>)
    ensures
        res@.len() == 1,
        res@[0].id@ == BUNDLED_CORE_ID@,
        res@[0].source@ == BUNDLED_CORE_ID@,
        res@[0].version@ == match version {
            Some(v) => v@,
            None => Seq::<char>::empty(),
        },
        res@[0].path == binary_path,
        res@[0].dir == install_dir,
        res@[0].present == present,
        res@[0].active,
{
    let version = match version {
        Some(v) => v,
        None => String::new(),
    };
    let mut res: Vec<HarnessCore> = Vec::new();
    res.push(
        HarnessCore {
            id: BUNDLED_CORE_ID.to_owned(),
            source: BUNDLED_CORE_ID.to_owned(),
            version,
            path: binary_path,
            dir: install_dir,
            present,
            active: true,
        },
    );
    res
}

} // verus!
