//! Choosing the host address to advertise to clients.

use vstd::prelude::*;
use vstd::string::StringExecFns;

verus! {

/// String equality by contents.
fn str_equal(a: &str, b: &str) -> (r: bool)
    ensures
        r == (a@ == b@),
{
    let sa = a.to_owned();
    let sb = b.to_owned();
    sa == sb
}

/// Relies on local_ip_address::local_ip: the machine's local IP address,
/// rendered with `Display`.  The result depends on the machine and can be
/// absent; nothing more can be promised of it.
#[verifier::external_body]
pub fn get_local_ip() -> (r: Option<String>)
{
    match local_ip_address::local_ip() {
        Ok(ip) => Some(ip.to_string()),
        Err(_) => None,
    }
}

/// The host to advertise: a concrete configured host wins; a wildcard or
/// loopback host is replaced by the machine's local IP, with loopback as
/// the last resort.
pub fn get_best_host(preferred: &str) -> (r: String)
    ensures
        (preferred@ != "0.0.0.0"@ && preferred@ != "127.0.0.1"@ && preferred@ != "localhost"@)
            ==> r@ == preferred@,
{
    if !str_equal(preferred, "0.0.0.0") && !str_equal(preferred, "127.0.0.1") && !str_equal(
        preferred,
        "localhost",
    ) {
        return preferred.to_owned();
    }
    match get_local_ip() {
        Some(ip) => ip,
        None => "127.0.0.1".to_owned(),
    }
}

} // verus!
