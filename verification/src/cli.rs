//! The command surface: what one invocation of the tool asks for.

use vstd::prelude::*;
use crate::ident::ModIdent;

verus! {

/// One invocation: a command plus the optional paths it runs against.
pub struct Args {
    pub cmd: Cmd,
    pub config: Option<String>,
    pub game_dir: Option<String>,
    pub mods_dir: Option<String>,
}

/// The command families the tool offers.
pub enum Cmd {
    /// Enable, disable, or otherwise synchronize the set of packaged mods.
    Sync { cmd: SyncCmd, disable_all: bool, ignore_deps: bool, no_download: bool },
}

/// What to synchronize against.
pub enum SyncCmd {
    /// Enable the given mods.
    Enable { mods: Vec<ModIdent> },
    /// Enable a named mod set.
    EnableSet { set: Option<String> },
    /// Disable the given mods.
    Disable { mods: Vec<ModIdent> },
    /// Sync the enabled mods and startup settings with a save file.
    SaveFile { path: String, ignore_startup_settings: bool },
}

} // verus!
