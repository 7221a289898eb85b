//! Addresses of resolvers.

use std::str::FromStr;

use hickory_client::proto::rr::rdata::{A, AAAA};

use vstd::prelude::*;

use crate::text::{decimal, push_decimal};

verus! {

/// An IP address, held as the number that its bits spell.
#[derive(Clone, Copy, Debug, PartialEq, Eq, Structural)]
pub enum IpAddress {
    V4(u32),
    V6(u128),
}

/// Where a resolver listens.
#[derive(Clone, Copy, Debug, PartialEq, Eq, Structural)]
pub struct Endpoint {
    pub ip: IpAddress,
    pub port: u16,
    /// The scope of an IPv6 address that is only valid on one link, or zero.
    pub scope_id: u32,
}

/// The bits of the IPv4 address that [`A::from_str`] reads a text as, if it does.
pub uninterp spec fn ipv4_bits(text: Seq<char>) -> Option<u32>;

/// The bits of the IPv6 address that [`AAAA::from_str`] reads a text as, if it does.
pub uninterp spec fn ipv6_bits(text: Seq<char>) -> Option<u128>;

/// Calls [`A::from_str`], and gives the address that it reads as the number that its
/// octets spell, the first the highest. Nothing is claimed of its result but that the
/// text alone decides it.
#[verifier::external_body]
fn ipv4_from_str(text: &str) -> (bits: Option<u32>)
    ensures
        bits == ipv4_bits(text@),
{
    match A::from_str(text) {
        Ok(address) => Some(u32::from_be_bytes(address.0.octets())),
        Err(_) => None,
    }
}

/// Calls [`AAAA::from_str`], and gives the address that it reads as the number that its
/// octets spell, the first the highest. Nothing is claimed of its result but that the
/// text alone decides it.
#[verifier::external_body]
fn ipv6_from_str(text: &str) -> (bits: Option<u128>)
    ensures
        bits == ipv6_bits(text@),
{
    match AAAA::from_str(text) {
        Ok(address) => Some(u128::from_be_bytes(address.0.octets())),
        Err(_) => None,
    }
}

/// The IP address that a text is, if it is one.
pub open spec fn ip_read(text: Seq<char>) -> Option<IpAddress> {
    match ipv4_bits(text) {
        Some(bits) => Some(IpAddress::V4(bits)),
        None => match ipv6_bits(text) {
            Some(bits) => Some(IpAddress::V6(bits)),
            None => None,
        },
    }
}

/// The IP address that a text is, if it is one.
pub fn parse_ip(text: &str) -> (ip: Option<IpAddress>)
    ensures
        ip == ip_read(text@),
{
    match ipv4_from_str(text) {
        Some(bits) => Some(IpAddress::V4(bits)),
        None => match ipv6_from_str(text) {
            Some(bits) => Some(IpAddress::V6(bits)),
            None => None,
        },
    }
}

/// The text that the [`Display`](std::fmt::Display) impl of [`AAAA`] prints for the IPv6
/// address of these bits.
pub uninterp spec fn ipv6_text(bits: u128) -> Seq<char>;

/// Calls `to_string` of [`AAAA`], on the address whose octets spell `bits`. Nothing is
/// claimed of its result but that the bits alone decide it.
#[verifier::external_body]
fn ipv6_to_string(bits: u128) -> (text: String)
    ensures
        text@ == ipv6_text(bits),
{
    AAAA(bits.into()).to_string()
}

/// The text of an IPv4 address: its octets in base ten, with dots between them.
pub open spec fn ipv4_text(bits: u32) -> Seq<char> {
    decimal((bits / 0x100_0000) as nat) + seq!['.'] + decimal((bits / 0x1_0000 % 0x100) as nat)
        + seq!['.'] + decimal((bits / 0x100 % 0x100) as nat) + seq!['.'] + decimal(
        (bits % 0x100) as nat,
    )
}

impl Endpoint {
    /// The text of the endpoint: address, colon and port, with brackets around an IPv6
    /// address and its scope, if it has one.
    pub open spec fn text(self) -> Seq<char> {
        let host = match self.ip {
            IpAddress::V4(bits) => ipv4_text(bits),
            IpAddress::V6(bits) => "["@ + ipv6_text(bits) + (if self.scope_id == 0 {
                seq![]
            } else {
                "%"@ + decimal(self.scope_id as nat)
            }) + "]"@,
        };
        host + ":"@ + decimal(self.port as nat)
    }

    /// The text of the endpoint.
    pub fn to_text(&self) -> (text: String)
        ensures
            text@ == self.text(),
    {
        let mut text: String = String::new();
        match self.ip {
            IpAddress::V4(bits) => {
                push_decimal(&mut text, (bits / 0x100_0000) as u64);
                text.push('.');
                push_decimal(&mut text, (bits / 0x1_0000 % 0x100) as u64);
                text.push('.');
                push_decimal(&mut text, (bits / 0x100 % 0x100) as u64);
                text.push('.');
                push_decimal(&mut text, (bits % 0x100) as u64);
                assert(text@ =~= ipv4_text(bits));
            },
            IpAddress::V6(bits) => {
                text.append("[");
                text.append(ipv6_to_string(bits).as_str());
                if self.scope_id != 0 {
                    text.append("%");
                    push_decimal(&mut text, self.scope_id as u64);
                }
                text.append("]");
            },
        }
        text.append(":");
        push_decimal(&mut text, self.port as u64);
        assert(text@ =~= self.text());
        text
    }
}

/// The local endpoint to bind a socket to that talks to `resolver`: any address
/// of its family, any port.
pub fn bind_endpoint(resolver: Endpoint) -> (local: Endpoint)
    ensures
        local.port == 0,
        local.scope_id == 0,
        local.ip == (match resolver.ip {
            IpAddress::V4(_) => IpAddress::V4(0),
            IpAddress::V6(_) => IpAddress::V6(0),
        }),
{
    match resolver.ip {
        IpAddress::V4(_) => Endpoint { ip: IpAddress::V4(0), port: 0, scope_id: 0 },
        IpAddress::V6(_) => Endpoint { ip: IpAddress::V6(0), port: 0, scope_id: 0 },
    }
}

/// An IPv4 address is written octet by octet, the highest first: the address with the
/// octets `a`, `b`, `c` and `d` is their numbers in this order, with dots between them,
/// and its endpoint has the port behind a colon.
pub proof fn law_octets_are_written_in_order(
    a: u8,
    b: u8,
    c: u8,
    d: u8,
    port: u16,
    scope_id: u32,
)
    ensures
        ({
            let bits = (a * 0x100_0000 + b * 0x1_0000 + c * 0x100 + d) as u32;
            let text = decimal(a as nat) + seq!['.'] + decimal(b as nat) + seq!['.'] + decimal(
                c as nat,
            ) + seq!['.'] + decimal(d as nat);
            &&& ipv4_text(bits) == text
            &&& (Endpoint { ip: IpAddress::V4(bits), port, scope_id }).text() == text + ":"@
                + decimal(port as nat)
        }),
{
    let bits = (a * 0x100_0000 + b * 0x1_0000 + c * 0x100 + d) as u32;
    assert(bits / 0x100_0000 == a);
    assert(bits / 0x1_0000 % 0x100 == b);
    assert(bits / 0x100 % 0x100 == c);
    assert(bits % 0x100 == d);
}

/// An IPv6 endpoint has its address in square brackets, with its scope behind a percent
/// sign where it has one, and the port behind a colon.
pub proof fn law_ipv6_endpoints_are_bracketed(bits: u128, port: u16, scope_id: u32)
    ensures
        ({
            let unscoped = Endpoint { ip: IpAddress::V6(bits), port, scope_id: 0 };
            let scoped = Endpoint { ip: IpAddress::V6(bits), port, scope_id };
            &&& unscoped.text() == "["@ + ipv6_text(bits) + "]:"@ + decimal(port as nat)
            &&& scope_id != 0 ==> scoped.text() == "["@ + ipv6_text(bits) + "%"@ + decimal(
                scope_id as nat,
            ) + "]:"@ + decimal(port as nat)
        }),
{
    reveal_strlit("]");
    reveal_strlit(":");
    reveal_strlit("]:");
    assert("]"@ + ":"@ =~= "]:"@);
    let unscoped = Endpoint { ip: IpAddress::V6(bits), port, scope_id: 0 };
    let scoped = Endpoint { ip: IpAddress::V6(bits), port, scope_id };
    assert(unscoped.text() =~= "["@ + ipv6_text(bits) + "]:"@ + decimal(port as nat));
    if scope_id != 0 {
        assert(scoped.text() =~= "["@ + ipv6_text(bits) + "%"@ + decimal(scope_id as nat) + "]:"@
            + decimal(port as nat));
    }
}

/// A text that is an IPv4 address is read as that, and only another is read as an IPv6
/// address.
pub proof fn law_a_text_is_one_address(text: Seq<char>)
    ensures
        ipv4_bits(text) matches Some(bits) ==> ip_read(text) == Some(IpAddress::V4(bits)),
        ipv4_bits(text) is None ==> (ipv6_bits(text) matches Some(bits) ==> ip_read(text) == Some(
            IpAddress::V6(bits),
        )),
        ip_read(text) is None <==> ipv4_bits(text) is None && ipv6_bits(text) is None,
{
}

} // verus!
