//! The server configuration: the lease range, the network parameters, the
//! static reservations, and the four protocol timers with their defaults.
//!
//! Reading the configuration file and looking up keys is a collaborator's
//! job; the recognized values arrive here as raw strings and are validated
//! and converted in one pass.

use crate::address::{ip_parse, mac_parse, IPAddress, MACAddress};
use crate::util::dec_parse;
use crate::util::parse_dec;
use vstd::prelude::*;

verus! {

/// Seconds in the default lease time of two days.
pub const DEFAULT_ADDRESS_TIME: u32 = 172800;

/// Seconds an unaccepted offer is held by default.
pub const DEFAULT_OFFER_TIME: u64 = 30;

#[derive(Debug)]
pub struct Configuration {
    pub lease_start_ip: IPAddress,
    pub lease_final_ip: IPAddress,
    pub gateway_ip: IPAddress,
    pub our_ip: IPAddress,
    pub subnet_mask: IPAddress,
    pub broadcast_address: IPAddress,
    pub dns: IPAddress,
    pub dns_alternative: IPAddress,
    pub reserved_ips: Vec<(MACAddress, IPAddress)>,
    pub address_time: u32,
    pub renewal_time: u32,
    pub rebinding_time: u32,
    pub offer_time: u64,
    pub log_limit: Option<usize>,
}

#[derive(Debug)]
pub enum ConfigurationError {
    LoadError(String),
    InvalidIP(String),
    InvalidMAC(String),
    InvalidTime(String),
    InvalidLogLimit(String),
    NoLeaseStartIP,
    NoLeaseEndIP,
    NoGatewayIP,
    NoOurIP,
    NoSubnetMask,
    NoBroadcastAddress,
    NoDNS,
    NoAlternativeDNS,
    NoReservedIP(MACAddress),
    OpenLogFileError(String),
}

/// The recognized configuration values as raw strings, exactly as the
/// collaborator that read the configuration source found them. A missing
/// key arrives as `None`; the reserved entries arrive in index order, one
/// pair per index for as long as the MAC key was present.
pub struct RawConfiguration {
    pub lease_start: Option<String>,
    pub lease_final: Option<String>,
    pub gateway: Option<String>,
    pub us: Option<String>,
    pub subnet_mask: Option<String>,
    pub broadcast: Option<String>,
    pub dns_1: Option<String>,
    pub dns_2: Option<String>,
    pub lease_time: Option<String>,
    pub renewal_time: Option<String>,
    pub rebinding_time: Option<String>,
    pub offer_time: Option<String>,
    pub log_limit: Option<String>,
    pub reserved: Vec<(String, Option<String>)>,
}

/// The first of two possible errors.
pub open spec fn or_else(
    a: Option<ConfigurationError>,
    b: Option<ConfigurationError>,
) -> Option<ConfigurationError> {
    if a is Some {
        a
    } else {
        b
    }
}

/// The error a required IPv4 field yields: missing, or not an address.
pub open spec fn required_ip_error(
    field: Option<String>,
    missing: ConfigurationError,
) -> Option<ConfigurationError> {
    match field {
        None => Some(missing),
        Some(s) => if ip_parse(s@) is None {
            Some(ConfigurationError::InvalidIP(s))
        } else {
            None
        },
    }
}

/// The error an optional duration field yields: present but no number.
pub open spec fn time_error(field: Option<String>, max: int) -> Option<ConfigurationError> {
    match field {
        None => None,
        Some(s) => if dec_parse(s@, max) is None {
            Some(ConfigurationError::InvalidTime(s))
        } else {
            None
        },
    }
}

/// The first error among the reserved entries at or after index `i`: a bad
/// MAC string, or a MAC whose address value is missing or bad.
pub open spec fn reserved_error(
    entries: Seq<(String, Option<String>)>,
    i: int,
) -> Option<ConfigurationError>
    decreases entries.len() - i,
{
    if i < 0 || i >= entries.len() {
        None
    } else {
        match mac_parse(entries[i].0@) {
            None => Some(ConfigurationError::InvalidMAC(entries[i].0)),
            Some(m) => match entries[i].1 {
                None => Some(
                    ConfigurationError::NoReservedIP(
                        MACAddress([m[0], m[1], m[2], m[3], m[4], m[5]]),
                    ),
                ),
                Some(s) => if ip_parse(s@) is None {
                    Some(ConfigurationError::InvalidIP(s))
                } else {
                    reserved_error(entries, i + 1)
                },
            },
        }
    }
}

/// The error loading the log limit yields: present but no number.
pub open spec fn log_limit_error(field: Option<String>) -> Option<ConfigurationError> {
    match field {
        None => None,
        Some(s) => if dec_parse(s@, usize::MAX as int) is None {
            Some(ConfigurationError::InvalidLogLimit(s))
        } else {
            None
        },
    }
}

/// The first error loading a raw configuration yields, in the order the
/// fields are examined: the eight required addresses, the reserved
/// entries, the four durations, and the log limit.
pub open spec fn config_error(input: RawConfiguration) -> Option<ConfigurationError> {
    or_else(
        required_ip_error(input.lease_start, ConfigurationError::NoLeaseStartIP),
        or_else(
            required_ip_error(input.lease_final, ConfigurationError::NoLeaseEndIP),
            or_else(
                required_ip_error(input.gateway, ConfigurationError::NoGatewayIP),
                or_else(
                    required_ip_error(input.us, ConfigurationError::NoOurIP),
                    or_else(
                        required_ip_error(input.subnet_mask, ConfigurationError::NoSubnetMask),
                        or_else(
                            required_ip_error(
                                input.broadcast,
                                ConfigurationError::NoBroadcastAddress,
                            ),
                            or_else(
                                required_ip_error(input.dns_1, ConfigurationError::NoDNS),
                                or_else(
                                    required_ip_error(
                                        input.dns_2,
                                        ConfigurationError::NoAlternativeDNS,
                                    ),
                                    or_else(
                                        reserved_error(input.reserved@, 0),
                                        or_else(
                                            time_error(input.lease_time, u32::MAX as int),
                                            or_else(
                                                time_error(input.renewal_time, u32::MAX as int),
                                                or_else(
                                                    time_error(
                                                        input.rebinding_time,
                                                        u32::MAX as int,
                                                    ),
                                                    or_else(
                                                        time_error(
                                                            input.offer_time,
                                                            u64::MAX as int,
                                                        ),
                                                        log_limit_error(input.log_limit),
                                                    ),
                                                ),
                                            ),
                                        ),
                                    ),
                                ),
                            ),
                        ),
                    ),
                ),
            ),
        ),
    )
}

/// Parse a required IPv4 field, yielding the address or the stage's error.
fn load_ip(field: &Option<String>, missing: ConfigurationError) -> (r: Result<
    IPAddress,
    ConfigurationError,
>)
    ensures
        r matches Ok(ip) ==> required_ip_error(*field, missing) is None && ((*field)
            matches Some(s) && ip_parse(s@) == Some(ip@)),
        r matches Err(e) ==> required_ip_error(*field, missing) == Some(e),
{
    match field {
        Some(s) => match IPAddress::parse(s.as_str()) {
            Some(ip) => Ok(ip),
            None => Err(ConfigurationError::InvalidIP(s.clone())),
        },
        None => Err(missing),
    }
}

/// Validate and convert a raw configuration, as `config_error` and the
/// field clauses describe: required addresses must parse, durations
/// default to a two-day lease, half of it for renewal, three quarters of
/// it for rebinding, and thirty seconds for offers.
pub fn load_configuration(input: &RawConfiguration) -> (r: Result<
    Configuration,
    ConfigurationError,
>)
    ensures
        r matches Err(e) ==> config_error(*input) == Some(e),
        r matches Ok(c) ==> {
            &&& config_error(*input) is None
            &&& input.lease_start matches Some(s) && ip_parse(s@) == Some(c.lease_start_ip@)
            &&& input.lease_final matches Some(s) && ip_parse(s@) == Some(c.lease_final_ip@)
            &&& input.gateway matches Some(s) && ip_parse(s@) == Some(c.gateway_ip@)
            &&& input.us matches Some(s) && ip_parse(s@) == Some(c.our_ip@)
            &&& input.subnet_mask matches Some(s) && ip_parse(s@) == Some(c.subnet_mask@)
            &&& input.broadcast matches Some(s) && ip_parse(s@) == Some(c.broadcast_address@)
            &&& input.dns_1 matches Some(s) && ip_parse(s@) == Some(c.dns@)
            &&& input.dns_2 matches Some(s) && ip_parse(s@) == Some(c.dns_alternative@)
            &&& match input.lease_time {
                None => c.address_time == DEFAULT_ADDRESS_TIME,
                Some(s) => dec_parse(s@, u32::MAX as int) == Some(c.address_time as int),
            }
            &&& match input.renewal_time {
                None => c.renewal_time == c.address_time / 2,
                Some(s) => dec_parse(s@, u32::MAX as int) == Some(c.renewal_time as int),
            }
            &&& match input.rebinding_time {
                None => c.rebinding_time == (c.address_time / 4) * 3,
                Some(s) => dec_parse(s@, u32::MAX as int) == Some(c.rebinding_time as int),
            }
            &&& match input.offer_time {
                None => c.offer_time == DEFAULT_OFFER_TIME,
                Some(s) => dec_parse(s@, u64::MAX as int) == Some(c.offer_time as int),
            }
            &&& match input.log_limit {
                None => c.log_limit is None,
                Some(s) => c.log_limit matches Some(v) && dec_parse(s@, usize::MAX as int) == Some(
                    v as int,
                ),
            }
            &&& c.reserved_ips@.len() == input.reserved@.len()
            &&& forall|i: int|
                0 <= i < input.reserved@.len() ==> mac_parse(
                    (#[trigger] input.reserved@[i]).0@,
                ) == Some(c.reserved_ips@[i].0@) && (input.reserved@[i].1 matches Some(s)
                    && ip_parse(s@) == Some(c.reserved_ips@[i].1@))
        },
{
    let lease_start_ip = match load_ip(&input.lease_start, ConfigurationError::NoLeaseStartIP) {
        Ok(ip) => ip,
        Err(e) => {
            return Err(e);
        },
    };
    let lease_final_ip = match load_ip(&input.lease_final, ConfigurationError::NoLeaseEndIP) {
        Ok(ip) => ip,
        Err(e) => {
            return Err(e);
        },
    };
    let gateway_ip = match load_ip(&input.gateway, ConfigurationError::NoGatewayIP) {
        Ok(ip) => ip,
        Err(e) => {
            return Err(e);
        },
    };
    let our_ip = match load_ip(&input.us, ConfigurationError::NoOurIP) {
        Ok(ip) => ip,
        Err(e) => {
            return Err(e);
        },
    };
    let subnet_mask = match load_ip(&input.subnet_mask, ConfigurationError::NoSubnetMask) {
        Ok(ip) => ip,
        Err(e) => {
            return Err(e);
        },
    };
    let broadcast_address = match load_ip(
        &input.broadcast,
        ConfigurationError::NoBroadcastAddress,
    ) {
        Ok(ip) => ip,
        Err(e) => {
            return Err(e);
        },
    };
    let dns = match load_ip(&input.dns_1, ConfigurationError::NoDNS) {
        Ok(ip) => ip,
        Err(e) => {
            return Err(e);
        },
    };
    let dns_alternative = match load_ip(&input.dns_2, ConfigurationError::NoAlternativeDNS) {
        Ok(ip) => ip,
        Err(e) => {
            return Err(e);
        },
    };

    let mut reserved_ips: Vec<(MACAddress, IPAddress)> = Vec::new();
    let mut i: usize = 0;
    while i < input.reserved.len()
        invariant
            i <= input.reserved@.len(),
            required_ip_error(input.lease_start, ConfigurationError::NoLeaseStartIP) is None,
            required_ip_error(input.lease_final, ConfigurationError::NoLeaseEndIP) is None,
            required_ip_error(input.gateway, ConfigurationError::NoGatewayIP) is None,
            required_ip_error(input.us, ConfigurationError::NoOurIP) is None,
            required_ip_error(input.subnet_mask, ConfigurationError::NoSubnetMask) is None,
            required_ip_error(input.broadcast, ConfigurationError::NoBroadcastAddress) is None,
            required_ip_error(input.dns_1, ConfigurationError::NoDNS) is None,
            required_ip_error(input.dns_2, ConfigurationError::NoAlternativeDNS) is None,
            reserved_error(input.reserved@, 0) == reserved_error(input.reserved@, i as int),
            reserved_ips@.len() == i,
            forall|j: int|
                0 <= j < i ==> mac_parse((#[trigger] input.reserved@[j]).0@) == Some(
                    reserved_ips@[j].0@,
                ) && (input.reserved@[j].1 matches Some(s) && ip_parse(s@) == Some(
                    reserved_ips@[j].1@,
                )),
        decreases input.reserved@.len() - i,
    {
        let mac_address = match MACAddress::parse(input.reserved[i].0.as_str()) {
            Some(mac) => mac,
            None => {
                return Err(ConfigurationError::InvalidMAC(input.reserved[i].0.clone()));
            },
        };
        let ip_address = match &input.reserved[i].1 {
            Some(s) => match IPAddress::parse(s.as_str()) {
                Some(ip) => ip,
                None => {
                    return Err(ConfigurationError::InvalidIP(s.clone()));
                },
            },
            None => {
                proof {
                    let m = mac_parse(input.reserved@[i as int].0@).unwrap();
                    assert(mac_address.0@ =~= m);
                    assert(mac_address.0 =~= [m[0], m[1], m[2], m[3], m[4], m[5]]);
                }
                return Err(ConfigurationError::NoReservedIP(mac_address));
            },
        };
        reserved_ips.push((mac_address, ip_address));
        i = i + 1;
    }

    let address_time: u32 = match &input.lease_time {
        Some(s) => match parse_dec(s.as_str(), 0xFFFFFFFF) {
            Some(v) => v as u32,
            None => {
                return Err(ConfigurationError::InvalidTime(s.clone()));
            },
        },
        None => DEFAULT_ADDRESS_TIME,
    };

    let renewal_time: u32 = match &input.renewal_time {
        Some(s) => match parse_dec(s.as_str(), 0xFFFFFFFF) {
            Some(v) => v as u32,
            None => {
                return Err(ConfigurationError::InvalidTime(s.clone()));
            },
        },
        None => address_time / 2,
    };

    let rebinding_time: u32 = match &input.rebinding_time {
        Some(s) => match parse_dec(s.as_str(), 0xFFFFFFFF) {
            Some(v) => v as u32,
            None => {
                return Err(ConfigurationError::InvalidTime(s.clone()));
            },
        },
        None => (address_time / 4) * 3,
    };

    let offer_time: u64 = match &input.offer_time {
        Some(s) => match parse_dec(s.as_str(), 0xFFFFFFFFFFFFFFFF) {
            Some(v) => v,
            None => {
                return Err(ConfigurationError::InvalidTime(s.clone()));
            },
        },
        None => DEFAULT_OFFER_TIME,
    };

    let log_limit: Option<usize> = match &input.log_limit {
        Some(s) => match parse_dec(s.as_str(), usize::MAX as u64) {
            Some(v) => Some(v as usize),
            None => {
                return Err(ConfigurationError::InvalidLogLimit(s.clone()));
            },
        },
        None => None,
    };

    Ok(
        Configuration {
            lease_start_ip,
            lease_final_ip,
            gateway_ip,
            our_ip,
            subnet_mask,
            broadcast_address,
            dns,
            dns_alternative,
            reserved_ips,
            address_time,
            renewal_time,
            rebinding_time,
            offer_time,
            log_limit,
        },
    )
}

impl Configuration {
    pub fn reserved_ips(&self) -> (r: &Vec<(MACAddress, IPAddress)>)
        ensures
            r == &self.reserved_ips,
    {
        &self.reserved_ips
    }

    pub fn our_ip(&self) -> (r: IPAddress)
        ensures
            r == self.our_ip,
    {
        self.our_ip
    }

    pub fn gateway_ip(&self) -> (r: IPAddress)
        ensures
            r == self.gateway_ip,
    {
        self.gateway_ip
    }

    pub fn subnet_mask(&self) -> (r: IPAddress)
        ensures
            r == self.subnet_mask,
    {
        self.subnet_mask
    }

    pub fn broadcast_address(&self) -> (r: IPAddress)
        ensures
            r == self.broadcast_address,
    {
        self.broadcast_address
    }

    pub fn dns(&self) -> (r: (IPAddress, IPAddress))
        ensures
            r.0 == self.dns && r.1 == self.dns_alternative,
    {
        (self.dns, self.dns_alternative)
    }

    pub fn lease_start_ip(&self) -> (r: IPAddress)
        ensures
            r == self.lease_start_ip,
    {
        self.lease_start_ip
    }

    pub fn lease_final_ip(&self) -> (r: IPAddress)
        ensures
            r == self.lease_final_ip,
    {
        self.lease_final_ip
    }

    pub fn address_time(&self) -> (r: u32)
        ensures
            r == self.address_time,
    {
        self.address_time
    }

    pub fn renewal_time(&self) -> (r: u32)
        ensures
            r == self.renewal_time,
    {
        self.renewal_time
    }

    pub fn rebinding_time(&self) -> (r: u32)
        ensures
            r == self.rebinding_time,
    {
        self.rebinding_time
    }

    pub fn offer_time(&self) -> (r: u64)
        ensures
            r == self.offer_time,
    {
        self.offer_time
    }

    pub fn log_limit(&self) -> (r: Option<usize>)
        ensures
            r == self.log_limit,
    {
        self.log_limit
    }
}

} // verus!
