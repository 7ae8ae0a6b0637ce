//! The EtherType field of an Ethernet header.

use vstd::prelude::*;
use crate::text::{be16, hex4, read_be16, push_hex4};

verus! {

/// The protocol carried in an Ethernet frame, as its 16-bit EtherType.
#[derive(Debug, Clone, Copy, PartialEq, Eq, Structural)]
pub struct Ethertype {
    pub ethertype: u16,
}

/// The name under which an EtherType is shown.
pub open spec fn ethertype_name(v: u16) -> Seq<char> {
    if v == 0x0800 {
        "IPv4"@
    } else if v == 0x0806 {
        "ARP"@
    } else if v == 0x86DD {
        "IPv6"@
    } else if v == 0x8100 {
        "VLAN"@
    } else {
        "Unknown"@
    }
}

/// The text shown for an EtherType: its name and its value in hexadecimal.
pub open spec fn ethertype_text(v: u16) -> Seq<char> {
    ethertype_name(v) + " (0x"@ + hex4(v) + ")"@
}

impl Ethertype {
    /// The EtherType 0x0800.
    #[allow(non_snake_case)]
    pub fn IPV4() -> (res: Self)
        ensures
            res.ethertype == 0x0800,
    {
        Self { ethertype: 0x0800 }
    }

    /// The EtherType 0x0806.
    #[allow(non_snake_case)]
    pub fn ARP() -> (res: Self)
        ensures
            res.ethertype == 0x0806,
    {
        Self { ethertype: 0x0806 }
    }

    /// The EtherType 0x86DD.
    #[allow(non_snake_case)]
    pub fn IPV6() -> (res: Self)
        ensures
            res.ethertype == 0x86DD,
    {
        Self { ethertype: 0x86DD }
    }

    /// The EtherType 0x8100.
    #[allow(non_snake_case)]
    pub fn VLAN() -> (res: Self)
        ensures
            res.ethertype == 0x8100,
    {
        Self { ethertype: 0x8100 }
    }


    pub fn new(ethertype: u16) -> (res: Self)
        ensures
            res.ethertype == ethertype,
    {
        Self { ethertype }
    }

    /// Reads the EtherType from bytes 12 and 13 of an Ethernet header.
    pub fn from_ethernet(ethernet: &[u8]) -> (res: Self)
        requires
            ethernet@.len() >= 14,
        ensures
            res.ethertype == be16(ethernet@[12], ethernet@[13]),
    {
        Self { ethertype: read_be16(ethernet[12], ethernet[13]) }
    }

    pub fn name(&self) -> (res: &'static str)
        ensures
            res@ == ethertype_name(self.ethertype),
    {
        match self.ethertype {
            0x0800 => "IPv4",
            0x0806 => "ARP",
            0x86DD => "IPv6",
            0x8100 => "VLAN",
            _ => "Unknown",
        }
    }

    /// The text shown for this EtherType, such as `IPv4 (0x0800)`.
    pub fn to_string(&self) -> (res: String)
        ensures
            res@ == ethertype_text(self.ethertype),
    {
        let mut s = String::from_str(self.name());
        s.append(" (0x");
        push_hex4(&mut s, self.ethertype);
        s.append(")");
        s
    }
}

} // verus!
