use vstd::prelude::*;

verus! {

/// The layout versions of the settings file.
#[derive(Debug, Clone, Copy, PartialEq, Eq)]
pub enum Versions {
    V0,
    V1,
}

impl Versions {
    /// Maps a stored version number onto a layout this build can migrate.
    pub fn from_num(num: u32) -> (res: Option<Versions>)
        ensures
            res == (if num == 0 { Some(Versions::V0) } else { None::<Versions> }),
    {
        match num {
            0 => Some(Versions::V0),
            _ => None,
        }
    }
}

} // verus!
