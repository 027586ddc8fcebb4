//! mDNS/DNS-SD service advertisement for gateway discovery: which service
//! is advertised, and the arguments of the platform tools that advertise it
//! (`avahi-publish-service` on Linux, `dns-sd -R` on macOS).

use vstd::prelude::*;
use vstd::string::StringExecFns;
use crate::text::{back_ws, chars_of, decimal, push_decimal, skip_ws, str_eq, string_from_range, trim};

verus! {

/// mDNS configuration.
pub struct MdnsConfig {
    pub enabled: bool,
    /// `off`, `minimal` or `full`
    pub mode: String,
    /// Advertised instance name; the agent's name when unset or blank
    pub service_name: Option<String>,
    /// DNS-SD service type, such as `_rustyclaw._tcp`
    pub service_type: String,
}

/// The mode in effect: `minimal` and `full` as given, anything else `off`.
pub open spec fn mode_spec(mode: Seq<char>) -> Seq<char> {
    if mode == "minimal"@ || mode == "full"@ {
        mode
    } else {
        "off"@
    }
}

/// Normalizing a mode twice changes nothing, and the mode in effect is one
/// of `off`, `minimal` and `full`.
pub proof fn lemma_mode_stable(mode: Seq<char>)
    ensures
        mode_spec(mode_spec(mode)) == mode_spec(mode),
        mode_spec(mode) == "off"@ || mode_spec(mode) == "minimal"@ || mode_spec(mode) == "full"@,
{
    reveal_strlit("off");
    reveal_strlit("minimal");
    reveal_strlit("full");
}

/// Normalize an mDNS mode.
pub fn normalized_mode(mode: &str) -> (r: &str)
    ensures
        r@ == mode_spec(mode@),
{
    if str_eq(mode, "minimal") || str_eq(mode, "full") {
        mode
    } else {
        "off"
    }
}

/// A service to advertise.
pub struct MdnsAdvert {
    pub service_name: String,
    pub service_type: String,
    pub port: u16,
}

/// The advertised name: the configured one unless it is missing or blank,
/// the agent's name otherwise.
pub open spec fn advert_name(cfg: MdnsConfig, agent_name: Seq<char>) -> Seq<char> {
    match cfg.service_name {
        Some(n) => if trim(n@).len() > 0 {
            n@
        } else {
            agent_name
        },
        None => agent_name,
    }
}

/// Decide what to advertise: nothing when disabled or off, an error for a
/// blank service type, else the service with its name and trimmed type.
pub fn plan_mdns_service(cfg: &MdnsConfig, agent_name: &str, port: u16) -> (r: Result<
    Option<MdnsAdvert>,
    String,
>)
    ensures
        (!cfg.enabled || mode_spec(cfg.mode@) == "off"@) ==> r matches Ok(None),
        (cfg.enabled && mode_spec(cfg.mode@) != "off"@ && trim(cfg.service_type@).len() == 0) ==> (r
            matches Err(e) && e@ == "mDNS service_type cannot be empty"@),
        (cfg.enabled && mode_spec(cfg.mode@) != "off"@ && trim(cfg.service_type@).len() > 0) ==> (r
            matches Ok(Some(a)) && a.service_name@ == advert_name(*cfg, agent_name@)
            && a.service_type@ == trim(cfg.service_type@) && a.port == port),
{
    if !cfg.enabled || str_eq(normalized_mode(cfg.mode.as_str()), "off") {
        return Ok(None);
    }
    let service_name = match &cfg.service_name {
        Some(n) => {
            let v = chars_of(n.as_str());
            let a = skip_ws(&v, 0, v.len());
            let b = back_ws(&v, a, v.len());
            assert(v@.subrange(0, v@.len() as int) =~= v@);
            if a < b {
                n.clone()
            } else {
                String::from_str(agent_name)
            }
        },
        None => String::from_str(agent_name),
    };
    let t = chars_of(cfg.service_type.as_str());
    let a = skip_ws(&t, 0, t.len());
    let b = back_ws(&t, a, t.len());
    assert(t@.subrange(0, t@.len() as int) =~= t@);
    if a == b {
        return Err(String::from_str("mDNS service_type cannot be empty"));
    }
    Ok(Some(MdnsAdvert { service_name, service_type: string_from_range(&t, a, b), port }))
}

/// The decimal notation of a port.
fn port_string(port: u16) -> (s: String)
    ensures
        s@ == decimal(port as nat),
{
    let mut s = String::new();
    push_decimal(&mut s, port as u64);
    assert(s@ =~= decimal(port as nat));
    s
}

/// Arguments of `avahi-publish-service`: name, type, port and the version
/// as a TXT record.
pub fn avahi_args(advert: &MdnsAdvert, version: &str) -> (args: Vec<String>)
    ensures
        args@.len() == 4,
        args@[0]@ == advert.service_name@,
        args@[1]@ == advert.service_type@,
        args@[2]@ == decimal(advert.port as nat),
        args@[3]@ == "version="@ + version@,
{
    let mut args: Vec<String> = Vec::new();
    args.push(advert.service_name.clone());
    args.push(advert.service_type.clone());
    args.push(port_string(advert.port));
    let mut txt = String::from_str("version=");
    txt.append(version);
    args.push(txt);
    args
}

/// Arguments of `dns-sd`: register (`-R`) name and type in the `local`
/// domain on the port.
pub fn dns_sd_args(advert: &MdnsAdvert) -> (args: Vec<String>)
    ensures
        args@.len() == 5,
        args@[0]@ == "-R"@,
        args@[1]@ == advert.service_name@,
        args@[2]@ == advert.service_type@,
        args@[3]@ == "local"@,
        args@[4]@ == decimal(advert.port as nat),
{
    let mut args: Vec<String> = Vec::new();
    args.push(String::from_str("-R"));
    args.push(advert.service_name.clone());
    args.push(advert.service_type.clone());
    args.push(String::from_str("local"));
    args.push(port_string(advert.port));
    args
}

} // verus!
