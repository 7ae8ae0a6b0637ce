//! UDP datagrams carried in IPv4.

use vstd::prelude::*;
use vstd::slice::slice_to_vec;
use crate::parser::{
    display_choice, display_choice_for, has_ipv4_header, ip_lengths_fit, ip_packet, ip_protocol,
    parse_ethernet_and_ipv4, transport, lemma_headers_determined, same_ip_headers, DisplayPacketOptions, EthernetHeader, IPv4Header,
};
use crate::port_table::{owner_pid_of, PortTable};
use crate::ports::Port;
use crate::tcp::is_tcp_frame;
use crate::text::{be16, read_be16};

verus! {

/// The UDP header fields and the datagram's payload.
pub struct UdpHeader {
    pub src_port: Port,
    pub dst_port: Port,
    pub length: u16,
    pub checksum: u16,
    pub payload: Vec<u8>,
}

/// The UDP length field of segment `seg`.
pub open spec fn udp_length(seg: Seq<u8>) -> int {
    be16(seg[4], seg[5])
}

/// The payload of segment `seg`: the bytes after its 8-byte header up to the
/// length its header gives, none when that length is 8 or less.
pub open spec fn udp_payload(seg: Seq<u8>) -> Seq<u8> {
    if udp_length(seg) > 8 {
        seg.subrange(8, udp_length(seg))
    } else {
        Seq::empty()
    }
}

impl UdpHeader {
    /// This header holds the fields of segment `seg` and its payload.
    pub open spec fn is_header_of(&self, seg: Seq<u8>) -> bool {
        &&& self.src_port.port == be16(seg[0], seg[1])
        &&& self.dst_port.port == be16(seg[2], seg[3])
        &&& self.length == udp_length(seg)
        &&& self.checksum == be16(seg[6], seg[7])
        &&& self.payload@ == udp_payload(seg)
    }
}

/// A decoded UDP-over-IPv4 frame.
pub struct ParsedUdpPacket {
    pub ethernet: EthernetHeader,
    pub ipv4: IPv4Header,
    pub udp: UdpHeader,
}

/// Frame `d` is one that `parse_udp_ipv4` decodes: an IPv4 packet whose
/// lengths fit, carrying UDP, with a segment long enough for a UDP header.
pub open spec fn is_udp_frame(d: Seq<u8>) -> bool {
    &&& has_ipv4_header(d)
    &&& ip_protocol(d) == 17
    &&& ip_lengths_fit(d)
    &&& transport(d).len() >= 8
}

/// The UDP length field of frame `d` reaches past the end of the frame: the
/// decoder cannot take such a payload.
pub open spec fn udp_length_overruns(d: Seq<u8>) -> bool {
    is_udp_frame(d) && udp_length(transport(d)) > transport(d).len()
}

impl ParsedUdpPacket {
    /// Whether a listing with `options` shows this packet, and if so whether
    /// with its payload. With a process filter, the packet is shown when the
    /// process it belongs to is the one asked for: the first process recorded
    /// for its source port, or, when the source port has no entry, the first
    /// one recorded for its destination port.
    pub fn display_choice(&self, options: &Option<DisplayPacketOptions>, table: &PortTable) -> (res:
        Option<bool>)
        ensures
            res == display_choice_for(
                *options,
                owner_pid_of(table@, self.udp.src_port.port, self.udp.dst_port.port),
            ),
    {
        display_choice(options, table.first_pid_of_either(self.udp.src_port.port, self.udp.dst_port.port))
    }
}

/// Whether the UDP length field of frame `data` reaches past its end.
pub fn udp_length_past_end(data: &[u8]) -> (res: bool)
    ensures
        res == udp_length_overruns(data@),
{
    let (_, ipv4, ihl) = match parse_ethernet_and_ipv4(data) {
        Some(parts) => parts,
        None => return false,
    };
    let ip = &data[14..data.len()];
    if ipv4.protocol != 17 {
        return false;
    }
    let total_len = read_be16(ip[2], ip[3]);
    if ip.len() < total_len as usize || ip.len() < ihl as usize {
        return false;
    }
    let udp = &ip[ihl as usize..ip.len()];
    proof {
        assert(udp@ =~= transport(data@));
    }
    if udp.len() < 8 {
        return false;
    }
    let length = read_be16(udp[4], udp[5]);
    length as usize > udp.len()
}

/// Decodes a frame that carries UDP over IPv4. `None` for any other frame.
pub fn parse_udp_ipv4(data: &[u8]) -> (res: Option<ParsedUdpPacket>)
    requires
        !udp_length_overruns(data@),
    ensures
        match res {
            None => !is_udp_frame(data@),
            Some(p) => {
                &&& is_udp_frame(data@)
                &&& p.ethernet.is_header_of(data@)
                &&& p.ipv4.is_header_of(ip_packet(data@))
                &&& p.udp.is_header_of(transport(data@))
            },
        },
{
    let (ethernet, ipv4, ihl) = match parse_ethernet_and_ipv4(data) {
        Some(parts) => parts,
        None => return None,
    };
    let ip = &data[14..data.len()];
    if ipv4.protocol != 17 {
        return None;
    }
    let total_len = read_be16(ip[2], ip[3]);
    if ip.len() < total_len as usize {
        return None;
    }
    if ip.len() < ihl as usize {
        return None;
    }
    let udp = &ip[ihl as usize..ip.len()];
    proof {
        assert(udp@ =~= transport(data@));
    }
    if udp.len() < 8 {
        return None;
    }
    let udp_len = read_be16(udp[4], udp[5]);
    let payload: Vec<u8> = if udp_len as usize > 8 {
        slice_to_vec(&udp[8..udp_len as usize])
    } else {
        Vec::new()
    };
    let udp_header = UdpHeader {
        src_port: Port::new(read_be16(udp[0], udp[1])),
        dst_port: Port::new(read_be16(udp[2], udp[3])),
        length: udp_len,
        checksum: read_be16(udp[6], udp[7]),
        payload,
    };
    Some(ParsedUdpPacket { ethernet, ipv4, udp: udp_header })
}

/// A frame that `parse_udp_ipv4` decodes is one that
/// `parse_ethernet_and_ipv4` decodes too, and into the same Ethernet and IPv4
/// headers: any decoding of `d` that each function's contract admits has
/// the same two headers.
pub proof fn lemma_udp_frame_has_ipv4_header(
    d: Seq<u8>,
    p: ParsedUdpPacket,
    ethernet: EthernetHeader,
    ipv4: IPv4Header,
)
    requires
        is_udp_frame(d),
        p.ethernet.is_header_of(d),
        p.ipv4.is_header_of(ip_packet(d)),
        ethernet.is_header_of(d),
        ipv4.is_header_of(ip_packet(d)),
    ensures
        has_ipv4_header(d),
        same_ip_headers(p.ethernet, p.ipv4, ethernet, ipv4),
{
    lemma_headers_determined(d, p.ethernet, p.ipv4, ethernet, ipv4);
}

/// No frame is decoded both as TCP and as UDP.
pub proof fn lemma_tcp_and_udp_exclusive(d: Seq<u8>)
    ensures
        !(is_tcp_frame(d) && is_udp_frame(d)),
{
}

/// A UDP header holds, for a segment whose length field does not reach
/// past its end: the ports, length and checksum as the big-endian values of
/// bytes 0-1, 2-3, 4-5 and 6-7, and as payload the bytes from 8 up to the
/// length field (none when it is 8 or less).
pub proof fn lemma_udp_header_fields(h: UdpHeader, seg: Seq<u8>)
    requires
        seg.len() >= 8,
        seg[4] * 256 + seg[5] <= seg.len(),
        h.is_header_of(seg),
    ensures
        h.src_port.port == seg[0] * 256 + seg[1],
        h.dst_port.port == seg[2] * 256 + seg[3],
        h.length == seg[4] * 256 + seg[5],
        h.checksum == seg[6] * 256 + seg[7],
        h.payload@.len() == (if h.length > 8 { h.length - 8 } else { 0 }),
        forall|i: int| 0 <= i < h.payload@.len() ==> h.payload@[i] == seg[8 + i],
{
}

/// For a frame that `parse_udp_ipv4` decodes, with `t` where its UDP
/// segment starts (byte 14 plus four times the low four bits of byte 14):
/// the ports are the big-endian values of bytes `t`-`t + 1` and
/// `t + 2`-`t + 3`, and the payload is the frame from `t + 8` up to `t`
/// plus the length field. (The frames left out, whose length field reaches
/// past their end, are those on which `parse_udp_ipv4` may not be called.)
pub proof fn lemma_udp_frame_fields(d: Seq<u8>, p: ParsedUdpPacket)
    requires
        is_udp_frame(d),
        !udp_length_overruns(d),
        p.udp.is_header_of(transport(d)),
    ensures
        ({
            let t = 14 + 4 * (d[14] % 16);
            let len = d[t + 4] * 256 + d[t + 5];
            &&& t + 8 <= d.len()
            &&& p.udp.src_port.port == d[t] * 256 + d[t + 1]
            &&& p.udp.dst_port.port == d[t + 2] * 256 + d[t + 3]
            &&& p.udp.length == len
            &&& p.udp.payload@ == (if len > 8 {
                d.subrange(t + 8, t + len)
            } else {
                Seq::empty()
            })
        }),
{
    let seg = transport(d);
    let t = 14 + 4 * (d[14] % 16);
    assert(seg.len() == d.len() - t);
    assert(forall|k: int| 0 <= k < seg.len() ==> seg[k] == d[t + k]);
    assert(seg[0] == d[t] && seg[1] == d[t + 1] && seg[2] == d[t + 2] && seg[3] == d[t + 3]);
    assert(seg[4] == d[t + 4] && seg[5] == d[t + 5]);
    lemma_udp_header_fields(p.udp, seg);
    let len = d[t + 4] * 256 + d[t + 5];
    if len > 8 {
        assert(p.udp.payload@ =~= d.subrange(t + 8, t + len));
    } else {
        assert(p.udp.payload@ =~= Seq::<u8>::empty());
    }
}

/// The frames that `parse_udp_ipv4` decodes, in terms of their bytes, with
/// `t` where the UDP segment starts (byte 14 plus four times the low four
/// bits of byte 14): at least 34 bytes; protocol byte 23 is 17; the IPv4
/// packet is at least as long as its total length (bytes 16-17) and its
/// header; and the segment has at least 8 bytes. The frames it may not be
/// called on are those among them whose UDP length (bytes `t + 4` and
/// `t + 5`) is more than the segment holds.
pub proof fn lemma_udp_frame_bytes(d: Seq<u8>)
    ensures
        ({
            let t = 14 + 4 * (d[14] % 16);
            &&& is_udp_frame(d) <==> {
                &&& d.len() >= 34
                &&& d[23] == 17
                &&& d.len() - 14 >= d[16] * 256 + d[17]
                &&& d.len() >= t
                &&& d.len() - t >= 8
            }
            &&& is_udp_frame(d) ==> (udp_length_overruns(d) <==> d[t + 4] * 256 + d[t + 5] > d.len()
                - t)
        }),
{
    let t = 14 + 4 * (d[14] % 16);
    if d.len() >= 34 && d.len() >= t {
        let seg = transport(d);
        assert(seg.len() == d.len() - t);
        if seg.len() >= 8 {
            assert(seg[4] == d[t + 4] && seg[5] == d[t + 5]);
        }
    }
}

} // verus!
