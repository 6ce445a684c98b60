//! Server configuration: network, storage, sync, converter and feature
//! settings, with the derived values the rest of the system asks for.

use vstd::prelude::*;
use vstd::string::StringExecFns;

verus! {

/// Network settings of the HTTP server.
#[derive(Clone, Debug)]
pub struct ServerConfig {
    pub port: u16,
    pub host: String,
    pub max_upload_size: usize,
    pub chunk_size: usize,
}

/// Where artifacts and metadata live on disk.
#[derive(Clone, Debug)]
pub struct StorageConfig {
    pub base_path: String,
    pub db_path: String,
    pub default_album: String,
}

/// Cloud-sync settings.
#[derive(Clone, Debug)]
pub struct SyncConfig {
    pub enabled: bool,
    pub command: Option<String>,
    pub auto_sync: bool,
    pub sync_delay_seconds: u64,
}

/// Derivative-conversion settings.
#[derive(Clone, Debug)]
pub struct HeicConverterConfig {
    pub backend: String,
    pub generate_jpeg: bool,
    pub jpeg_quality: u8,
}

/// Feature switches.
#[derive(Clone, Debug)]
pub struct FeaturesConfig {
    pub mdns_enabled: bool,
    pub websocket_enabled: bool,
    pub notification_enabled: bool,
    pub qr_code_enabled: bool,
}

/// The whole configuration.
#[derive(Clone, Debug)]
pub struct Config {
    pub server: ServerConfig,
    pub storage: StorageConfig,
    pub sync: SyncConfig,
    pub heic_converter: HeicConverterConfig,
    pub features: FeaturesConfig,
}

/// Decimal rendering of a non-negative integer, most significant digit
/// first.
pub open spec fn dec_str_of(n: int) -> Seq<char>
    decreases n,
{
    if n < 10 {
        dec_digit_str(n)
    } else {
        dec_str_of(n / 10) + dec_digit_str(n % 10)
    }
}

/// One decimal digit as a character sequence.
pub open spec fn dec_digit_str(d: int) -> Seq<char> {
    if d == 0 {
        "0"@
    } else if d == 1 {
        "1"@
    } else if d == 2 {
        "2"@
    } else if d == 3 {
        "3"@
    } else if d == 4 {
        "4"@
    } else if d == 5 {
        "5"@
    } else if d == 6 {
        "6"@
    } else if d == 7 {
        "7"@
    } else if d == 8 {
        "8"@
    } else {
        "9"@
    }
}

/// One decimal digit as a string slice.
fn dec_digit(d: u64) -> (r: &'static str)
    requires
        d < 10,
    ensures
        r@ == dec_digit_str(d as int),
{
    if d == 0 {
        "0"
    } else if d == 1 {
        "1"
    } else if d == 2 {
        "2"
    } else if d == 3 {
        "3"
    } else if d == 4 {
        "4"
    } else if d == 5 {
        "5"
    } else if d == 6 {
        "6"
    } else if d == 7 {
        "7"
    } else if d == 8 {
        "8"
    } else {
        "9"
    }
}

/// Appends the decimal rendering of `n` to `out`.
fn push_dec(n: u64, out: &mut String)
    ensures
        final(out)@ == old(out)@ + dec_str_of(n as int),
    decreases n,
{
    if n >= 10 {
        push_dec(n / 10, out);
    }
    out.append(dec_digit(n % 10));
}

/// Decimal rendering of an integer as a string.
pub fn dec_string(n: u64) -> (r: String)
    ensures
        r@ == dec_str_of(n as int),
{
    let mut out = String::new();
    push_dec(n, &mut out);
    proof {
        assert(Seq::<char>::empty() + dec_str_of(n as int) =~= dec_str_of(n as int));
    }
    out
}

impl Config {
    /// The base URL clients reach the server at.
    pub fn server_url(&self) -> (r: String)
        ensures
            r@ == "http://"@ + self.server.host@ + ":"@ + dec_str_of(self.server.port as int),
    {
        let mut out = String::new();
        out.append("http://");
        out.append(self.server.host.as_str());
        out.append(":");
        push_dec(self.server.port as u64, &mut out);
        proof {
            assert(out@ =~= "http://"@ + self.server.host@ + ":"@ + dec_str_of(
                self.server.port as int,
            ));
        }
        out
    }

    /// The default configuration rooted under the given home directory:
    /// photos under `Pictures/iPhoneSync`, the catalog under its
    /// `.skynas` directory, every feature switched on and sync off.
    pub fn default_with_home(home: &str) -> (r: Config)
        ensures
            r.server.port == 8080,
            r.server.host@ == "0.0.0.0"@,
            r.storage.base_path@ == home@ + "/Pictures/iPhoneSync"@,
            r.storage.db_path@ == home@ + "/Pictures/iPhoneSync/.skynas/skynas.db"@,
            r.storage.default_album@ == "unsorted"@,
            !r.sync.enabled && !r.sync.auto_sync && r.sync.sync_delay_seconds == 5,
            r.heic_converter.generate_jpeg && r.heic_converter.jpeg_quality == 85,
            r.features.mdns_enabled && r.features.websocket_enabled
                && r.features.notification_enabled && r.features.qr_code_enabled,
    {
        let base_path = home.to_owned().concat("/Pictures/iPhoneSync");
        let db_path = base_path.clone().concat("/.skynas/skynas.db");
        proof {
            assert(db_path@ =~= home@ + "/Pictures/iPhoneSync/.skynas/skynas.db"@) by {
                assert((home@ + "/Pictures/iPhoneSync"@) + "/.skynas/skynas.db"@ =~= home@
                    + "/Pictures/iPhoneSync/.skynas/skynas.db"@) by {
                    reveal_strlit("/Pictures/iPhoneSync");
                    reveal_strlit("/.skynas/skynas.db");
                    reveal_strlit("/Pictures/iPhoneSync/.skynas/skynas.db");
                }
            }
        }
        Config {
            server: ServerConfig {
                port: 8080,
                host: "0.0.0.0".to_owned(),
                max_upload_size: 104857600,
                chunk_size: 1048576,
            },
            storage: StorageConfig {
                base_path,
                db_path,
                default_album: "unsorted".to_owned(),
            },
            sync: SyncConfig {
                enabled: false,
                command: None,
                auto_sync: false,
                sync_delay_seconds: 5,
            },
            heic_converter: HeicConverterConfig {
                backend: "image".to_owned(),
                generate_jpeg: true,
                jpeg_quality: 85,
            },
            features: FeaturesConfig {
                mdns_enabled: true,
                websocket_enabled: true,
                notification_enabled: true,
                qr_code_enabled: true,
            },
        }
    }
}

impl Default for Config {
    /// The default configuration under the `/tmp` fallback home.
    fn default() -> (r: Config)
        ensures
            r.storage.base_path@ == "/tmp"@ + "/Pictures/iPhoneSync"@,
    {
        Config::default_with_home("/tmp")
    }
}

/// Display form of a feature switch.
pub fn feature_status(enabled: bool) -> (r: &'static str)
    ensures
        enabled ==> r@ == "enabled"@,
        !enabled ==> r@ == "disabled"@,
{
    if enabled {
        "enabled"
    } else {
        "disabled"
    }
}

} // verus!
