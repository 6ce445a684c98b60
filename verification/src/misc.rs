//! Collaborator handles that the engine's surroundings construct: the
//! derivative converter, the cloud-sync manager, the thumbnail layout and
//! the command-line surface.  The work these stand for (process spawning,
//! image decoding, argument parsing) happens outside the library; what is
//! decided from plain values is specified here.

use vstd::prelude::*;
use vstd::string::StringExecFns;
use crate::config::{Config, HeicConverterConfig};

verus! {

/// Handle on the derivative-format converter; the conversion itself runs
/// outside the library.
pub struct HeicConverter {
    pub config: HeicConverterConfig,
}

impl HeicConverter {
    /// A converter over the given settings.
    pub fn new(config: HeicConverterConfig) -> (r: HeicConverter)
        ensures
            r.config == config,
    {
        HeicConverter { config }
    }
}

/// Handle on the cloud-sync runner; the sync command itself runs outside
/// the library.
pub struct SyncManager {
    pub config: Config,
}

impl SyncManager {
    /// A sync manager over the given configuration.
    pub fn new(config: Config) -> (r: SyncManager)
        ensures
            r.config == config,
    {
        SyncManager { config }
    }
}

/// Thumbnail storage layout.
pub struct ThumbnailGenerator;

impl ThumbnailGenerator {
    /// The directory thumbnails are stored under.
    pub fn thumbnail_dir(config: &Config) -> (r: String)
        ensures
            r@ == config.storage.base_path@ + "/.thumbnails"@,
    {
        config.storage.base_path.clone().concat("/.thumbnails")
    }
}

/// Parsed command line.
pub struct Cli {
    pub command: Option<Commands>,
    pub config: Option<String>,
    pub port: Option<u16>,
    pub daemon: bool,
}

/// Subcommands of the command line.
pub enum Commands {
    Start { background: bool },
    Stop,
    Status,
    MenuBar,
}

} // verus!
