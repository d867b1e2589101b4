//! The geo-IP access gate: decides whether a request's source address may
//! proceed under the region allow-list.

use vstd::prelude::*;
use crate::config::{allow_listed, Settings};
use crate::ip::{resolve, Ips};
use crate::text::{chars_of, decimal_u32, parse_u32, split_chars, split_spec, views};

verus! {

/// Whether a request may proceed.
#[derive(Debug)]
pub enum Admission {
    Allow,
    /// The request is refused; the region that its address resolved to.
    Deny(String),
}

#[derive(Debug, Clone, Copy, PartialEq, Eq, Structural)]
pub enum GateError {
    /// The source address is not four dot-separated decimal octets.
    MalformedAddress,
}

/// A decimal octet: a decimal number no greater than 255.
pub open spec fn octet_spec(s: Seq<char>) -> Option<u32> {
    match decimal_u32(s) {
        Some(v) => if v <= 255 {
            Some(v)
        } else {
            None
        },
        None => None,
    }
}

/// The 32-bit big-endian value of a dotted IPv4 address, `a.b.c.d` giving
/// `a·2^24 + b·2^16 + c·2^8 + d`; `None` unless `s` is exactly four decimal
/// octets.
pub open spec fn ipv4_spec(s: Seq<char>) -> Option<u32> {
    let f = split_spec(s, '.');
    if f.len() == 4 && octet_spec(f[0]) is Some && octet_spec(f[1]) is Some && octet_spec(
        f[2],
    ) is Some && octet_spec(f[3]) is Some {
        Some(
            (octet_spec(f[0])->0 * 16777216 + octet_spec(f[1])->0 * 65536 + octet_spec(f[2])->0 * 256
                + octet_spec(f[3])->0) as u32,
        )
    } else {
        None
    }
}

/// Whether the policy lets a request from `region` through: always when region
/// blocking is off, else exactly when `region` is on the allow-list.
pub open spec fn admits(enabled: bool, codes: Seq<String>, region: Seq<char>) -> bool {
    !enabled || allow_listed(codes, region)
}

fn parse_octet(cs: &Vec<char>) -> (r: Option<u32>)
    ensures
        r == octet_spec(cs@),
{
    match parse_u32(cs) {
        Some(v) => if v <= 255 {
            Some(v)
        } else {
            None
        },
        None => None,
    }
}

/// Encodes a dotted IPv4 address as a number.
pub fn parse_ipv4(s: &str) -> (r: Result<u32, GateError>)
    ensures
        match r {
            Ok(v) => ipv4_spec(s@) == Some(v),
            Err(e) => ipv4_spec(s@) is None && e == GateError::MalformedAddress,
        },
{
    let cs = chars_of(s);
    let f = split_chars(&cs, '.');
    if f.len() != 4 {
        return Err(GateError::MalformedAddress);
    }
    assert(views(f@)[0] == f@[0]@);
    assert(views(f@)[1] == f@[1]@);
    assert(views(f@)[2] == f@[2]@);
    assert(views(f@)[3] == f@[3]@);
    let a = match parse_octet(&f[0]) {
        Some(v) => v,
        None => return Err(GateError::MalformedAddress),
    };
    let b = match parse_octet(&f[1]) {
        Some(v) => v,
        None => return Err(GateError::MalformedAddress),
    };
    let c = match parse_octet(&f[2]) {
        Some(v) => v,
        None => return Err(GateError::MalformedAddress),
    };
    let d = match parse_octet(&f[3]) {
        Some(v) => v,
        None => return Err(GateError::MalformedAddress),
    };
    Ok(a * 16777216 + b * 65536 + c * 256 + d)
}

impl Settings {
    /// The region policy: admits every region while region blocking is off;
    /// otherwise admits exactly the regions on the allow-list and denies the
    /// rest, naming the region.
    pub fn admit_region(&self, region: &str) -> (r: Admission)
        ensures
            match r {
                Admission::Allow => admits(
                    self.enable_region_block,
                    self.white_region_code_list@,
                    region@,
                ),
                Admission::Deny(code) => !admits(
                    self.enable_region_block,
                    self.white_region_code_list@,
                    region@,
                ) && code@ == region@,
            },
    {
        if !self.enable_region_block || self.contains_region(region) {
            Admission::Allow
        } else {
            Admission::Deny(region.to_owned())
        }
    }
}

/// Decides on a request from the address `source`. With region blocking off
/// every request is admitted and the address is not read. Otherwise the
/// address is encoded, resolved to a region in `table`, and the region policy
/// of `settings` decides; an address that is not a dotted IPv4 address is
/// refused with [`GateError::MalformedAddress`].
pub fn check_access(table: &Ips, settings: &Settings, source: &str) -> (r: Result<Admission, GateError>)
    ensures
        !settings.enable_region_block ==> r matches Ok(Admission::Allow),
        settings.enable_region_block ==> match ipv4_spec(source@) {
            None => r == Err::<Admission, GateError>(GateError::MalformedAddress),
            Some(ip) => {
                let region = resolve(table.rows(), ip);
                match r {
                    Ok(Admission::Allow) => allow_listed(settings.white_region_code_list@, region),
                    Ok(Admission::Deny(code)) => !allow_listed(
                        settings.white_region_code_list@,
                        region,
                    ) && code@ == region,
                    Err(_) => false,
                }
            },
        },
{
    if !settings.enable_region_block {
        return Ok(Admission::Allow);
    }
    let ip = match parse_ipv4(source) {
        Ok(v) => v,
        Err(e) => return Err(e),
    };
    let region = table.get_region(ip);
    Ok(settings.admit_region(region.as_str()))
}

} // verus!
