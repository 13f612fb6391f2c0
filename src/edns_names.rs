//! Stable names of EDNS options and Extended DNS Error codes in the key-value projection.

use crate::text::{decimal, decimal_spec};
use vstd::prelude::*;

verus! {

/// The known name of an EDNS option code, if it has one.
pub open spec fn known_option_name(code: u16) -> Option<Seq<char>> {
    if code == 1 {
        Some("LLQ"@)
    } else if code == 2 {
        Some("UL"@)
    } else if code == 3 {
        Some("NSID"@)
    } else if code == 5 {
        Some("DAU"@)
    } else if code == 6 {
        Some("DHU"@)
    } else if code == 7 {
        Some("N3U"@)
    } else if code == 8 {
        Some("CLIENT_SUBNET"@)
    } else if code == 9 {
        Some("EXPIRE"@)
    } else if code == 10 {
        Some("COOKIE"@)
    } else if code == 11 {
        Some("TCP_KEEPALIVE"@)
    } else if code == 12 {
        Some("PADDING"@)
    } else if code == 13 {
        Some("CHAIN"@)
    } else if code == 14 {
        Some("KEY_TAG"@)
    } else if code == 15 {
        Some("EXTENDED_ERROR"@)
    } else if code == 16 {
        Some("CLIENT_TAG"@)
    } else if code == 17 {
        Some("SERVER_TAG"@)
    } else if code == 20292 {
        Some("UMBRELLA_IDENT"@)
    } else if code == 26946 {
        Some("DEVICEID"@)
    } else {
        None
    }
}

/// The name of an EDNS option code: its registered name, `Reserved<n>` for 0, 4 and codes above
/// 65000, and `Code<n>` for the other unassigned ones.
pub open spec fn option_name_spec(code: u16) -> Seq<char> {
    match known_option_name(code) {
        Some(n) => n,
        None => if code == 0 || code == 4 || code > 65000 {
            "Reserved"@ + decimal_spec(code as u64)
        } else {
            "Code"@ + decimal_spec(code as u64)
        },
    }
}

fn known_option_name_exec(code: u16) -> (r: Option<&'static str>)
    ensures
        match known_option_name(code) {
            Some(n) => r is Some && r->0@ == n,
            None => r is None,
        },
{
    if code == 1 {
        Some("LLQ")
    } else if code == 2 {
        Some("UL")
    } else if code == 3 {
        Some("NSID")
    } else if code == 5 {
        Some("DAU")
    } else if code == 6 {
        Some("DHU")
    } else if code == 7 {
        Some("N3U")
    } else if code == 8 {
        Some("CLIENT_SUBNET")
    } else if code == 9 {
        Some("EXPIRE")
    } else if code == 10 {
        Some("COOKIE")
    } else if code == 11 {
        Some("TCP_KEEPALIVE")
    } else if code == 12 {
        Some("PADDING")
    } else if code == 13 {
        Some("CHAIN")
    } else if code == 14 {
        Some("KEY_TAG")
    } else if code == 15 {
        Some("EXTENDED_ERROR")
    } else if code == 16 {
        Some("CLIENT_TAG")
    } else if code == 17 {
        Some("SERVER_TAG")
    } else if code == 20292 {
        Some("UMBRELLA_IDENT")
    } else if code == 26946 {
        Some("DEVICEID")
    } else {
        None
    }
}

/// The name of an EDNS option code, see [`option_name_spec`].
pub fn edns_option_name(code: u16) -> (r: String)
    ensures
        r@ == option_name_spec(code),
{
    match known_option_name_exec(code) {
        Some(n) => String::from_str(n),
        None => {
            let prefix = if code == 0 || code == 4 || code > 65000 {
                "Reserved"
            } else {
                "Code"
            };
            let mut s = String::from_str(prefix);
            let d = decimal(code as u64);
            s.append(d.as_str());
            s
        },
    }
}

/// The known description of an Extended DNS Error code, if it has one.
pub open spec fn known_error_name(code: u16) -> Option<Seq<char>> {
    if code == 0 {
        Some("Other Error"@)
    } else if code == 1 {
        Some("Unsupported DNSKEY Algorithm"@)
    } else if code == 2 {
        Some("Unsupported DS Digest Type"@)
    } else if code == 3 {
        Some("Stale Answer"@)
    } else if code == 4 {
        Some("Forged Answer"@)
    } else if code == 5 {
        Some("DNSSEC Indeterminate"@)
    } else if code == 6 {
        Some("DNSSEC Bogus"@)
    } else if code == 7 {
        Some("Signature Expired"@)
    } else if code == 8 {
        Some("Signature Not Yet Valid"@)
    } else if code == 9 {
        Some("DNSKEY Missing"@)
    } else if code == 10 {
        Some("RRSIGs Missing"@)
    } else if code == 11 {
        Some("No Zone Key Bit Set"@)
    } else if code == 12 {
        Some("NSEC Missing"@)
    } else if code == 13 {
        Some("Cached Error"@)
    } else if code == 14 {
        Some("Not Ready"@)
    } else if code == 15 {
        Some("Blocked"@)
    } else if code == 16 {
        Some("Censored"@)
    } else if code == 17 {
        Some("Filtered"@)
    } else if code == 18 {
        Some("Prohibited"@)
    } else if code == 19 {
        Some("Stale NXDomain Answer"@)
    } else if code == 20 {
        Some("Not Authoritative"@)
    } else if code == 21 {
        Some("Not Supported"@)
    } else if code == 22 {
        Some("No Reachable Authority"@)
    } else if code == 23 {
        Some("Network Error"@)
    } else if code == 24 {
        Some("Invalid Data"@)
    } else if code == 25 {
        Some("Signature Expired before Valid"@)
    } else if code == 26 {
        Some("Too Early"@)
    } else if code == 27 {
        Some("Unsupported NSEC3 Iterations Value"@)
    } else {
        None
    }
}

/// The description of an Extended DNS Error code: its registered description,
/// `Unassigned(<n>)` up to 49151 and `Private(<n>)` above.
pub open spec fn error_name_spec(code: u16) -> Seq<char> {
    match known_error_name(code) {
        Some(n) => n,
        None => if code < 49152 {
            "Unassigned("@ + decimal_spec(code as u64) + ")"@
        } else {
            "Private("@ + decimal_spec(code as u64) + ")"@
        },
    }
}

fn known_error_name_exec(code: u16) -> (r: Option<&'static str>)
    ensures
        match known_error_name(code) {
            Some(n) => r is Some && r->0@ == n,
            None => r is None,
        },
{
    if code == 0 {
        Some("Other Error")
    } else if code == 1 {
        Some("Unsupported DNSKEY Algorithm")
    } else if code == 2 {
        Some("Unsupported DS Digest Type")
    } else if code == 3 {
        Some("Stale Answer")
    } else if code == 4 {
        Some("Forged Answer")
    } else if code == 5 {
        Some("DNSSEC Indeterminate")
    } else if code == 6 {
        Some("DNSSEC Bogus")
    } else if code == 7 {
        Some("Signature Expired")
    } else if code == 8 {
        Some("Signature Not Yet Valid")
    } else if code == 9 {
        Some("DNSKEY Missing")
    } else if code == 10 {
        Some("RRSIGs Missing")
    } else if code == 11 {
        Some("No Zone Key Bit Set")
    } else if code == 12 {
        Some("NSEC Missing")
    } else if code == 13 {
        Some("Cached Error")
    } else if code == 14 {
        Some("Not Ready")
    } else if code == 15 {
        Some("Blocked")
    } else if code == 16 {
        Some("Censored")
    } else if code == 17 {
        Some("Filtered")
    } else if code == 18 {
        Some("Prohibited")
    } else if code == 19 {
        Some("Stale NXDomain Answer")
    } else if code == 20 {
        Some("Not Authoritative")
    } else if code == 21 {
        Some("Not Supported")
    } else if code == 22 {
        Some("No Reachable Authority")
    } else if code == 23 {
        Some("Network Error")
    } else if code == 24 {
        Some("Invalid Data")
    } else if code == 25 {
        Some("Signature Expired before Valid")
    } else if code == 26 {
        Some("Too Early")
    } else if code == 27 {
        Some("Unsupported NSEC3 Iterations Value")
    } else {
        None
    }
}

/// The description of an Extended DNS Error code, see [`error_name_spec`].
pub fn extended_error_name(code: u16) -> (r: String)
    ensures
        r@ == error_name_spec(code),
{
    match known_error_name_exec(code) {
        Some(n) => String::from_str(n),
        None => {
            let prefix = if code < 49152 {
                "Unassigned("
            } else {
                "Private("
            };
            let mut s = String::from_str(prefix);
            let d = decimal(code as u64);
            s.append(d.as_str());
            s.append(")");
            s
        },
    }
}

/// The code of an Extended DNS Error option: its first two bytes, big-endian.
pub fn extended_error_code(value: &Vec<u8>) -> (r: u16)
    requires
        value@.len() >= 2,
    ensures
        r == value@[0] as int * 256 + value@[1] as int,
{
    value[0] as u16 * 256 + value[1] as u16
}

} // verus!
