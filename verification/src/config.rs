//! The paths and file names one engine run works with.

use vstd::prelude::*;

verus! {

/// Where the engine keeps its data, all relative to the working
/// directory of the caller: the store's folders, the manifest file,
/// the name of the per-directory ignore file, and the directory that
/// is snapshotted.
pub struct ConfigDetails {
    pub version_control_system_folder: String,
    pub version_control_system_config_folder: String,
    pub version_control_system_objects_folder: String,
    pub struct_file_path: String,
    pub config_file_path: String,
    pub ignore_file_name: String,
    pub working_folder: String,
}

/// The default configuration: every path under one
/// `version_control_system` folder, the ignore file called
/// `.vcs.ignore`, and `test_fold` as the directory to snapshot.
pub fn init() -> (r: ConfigDetails)
    ensures
        r.version_control_system_folder@ == "version_control_system"@,
        r.version_control_system_config_folder@ == "version_control_system/config"@,
        r.version_control_system_objects_folder@ == "version_control_system/objects"@,
        r.struct_file_path@ == "version_control_system/config/struct.json"@,
        r.config_file_path@ == "version_control_system/config/config.txt"@,
        r.ignore_file_name@ == ".vcs.ignore"@,
        r.working_folder@ == "test_fold"@,
{
    ConfigDetails {
        version_control_system_folder: String::from_str("version_control_system"),
        version_control_system_config_folder: String::from_str("version_control_system/config"),
        version_control_system_objects_folder: String::from_str("version_control_system/objects"),
        struct_file_path: String::from_str("version_control_system/config/struct.json"),
        config_file_path: String::from_str("version_control_system/config/config.txt"),
        ignore_file_name: String::from_str(".vcs.ignore"),
        working_folder: String::from_str("test_fold"),
    }
}

} // verus!
