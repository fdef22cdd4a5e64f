//! The writable directories of the application and the names of the bundled
//! files.
use vstd::prelude::*;

use std::path::PathBuf;

verus! {

broadcast use vstd::string::group_string_axioms;

/// The name of the settings file.
pub const SETTINGS_FILE: &'static str = "memory.json";

/// The root of the writable part of the application file system. On Windows
/// and macOS both paths are the same directory; on Linux `config` is
/// `~/.config/<name>` and `data` is `~/.local/share/<name>`.
#[derive(Debug)]
pub struct AppRoot {
    config: PathBuf,
    data: PathBuf,
}

impl AppRoot {
    /// The root with these config and data directories.
    pub fn new(config: PathBuf, data: PathBuf) -> (res: AppRoot)
        ensures
            res.spec_config() == config,
            res.spec_data() == data,
    {
        AppRoot { config, data }
    }

    pub closed spec fn spec_config(&self) -> PathBuf {
        self.config
    }

    pub closed spec fn spec_data(&self) -> PathBuf {
        self.data
    }

    pub fn config_dir(&self) -> (res: &PathBuf)
        ensures
            *res == self.spec_config(),
    {
        &self.config
    }

    pub fn data_dir(&self) -> (res: &PathBuf)
        ensures
            *res == self.spec_data(),
    {
        &self.data
    }
}

/// A writable directory that the application owns.
#[derive(Debug, Clone, Copy, PartialEq, Eq, Structural)]
pub enum Directory {
    BhapticsCache,
    Logs,
    Maps,
    CamMaps,
    Security,
}

/// The folder of a directory under the data root.
pub open spec fn spec_sub_path(d: Directory) -> Seq<char> {
    match d {
        Directory::BhapticsCache => "data"@,
        Directory::Logs => "logs"@,
        Directory::Maps => "map_configs"@,
        Directory::CamMaps => "cam_configs"@,
        Directory::Security => "security"@,
    }
}

impl Directory {
    /// The folder of the directory under the data root.
    pub fn sub_path(self) -> (res: &'static str)
        ensures
            res@ == spec_sub_path(self),
    {
        match self {
            Directory::BhapticsCache => "data",
            Directory::Logs => "logs",
            Directory::Maps => "map_configs",
            Directory::CamMaps => "cam_configs",
            Directory::Security => "security",
        }
    }
}

/// The bundled folders that the first start copies into the data root.
pub fn seeded_directories() -> (res: [Directory; 2])
    ensures
        res@ == seq![Directory::Maps, Directory::Security],
{
    [Directory::Maps, Directory::Security]
}

/// The resource path of a bundled helper program: `sidecars/<name>`.
pub fn sidecar_relative(name: &str) -> (res: String)
    ensures
        res@ == "sidecars/"@ + name@,
{
    let mut s = String::from_str("sidecars/");
    s.append(name);
    s
}

} // verus!
