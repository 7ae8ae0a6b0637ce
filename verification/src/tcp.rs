//! TCP segments carried in IPv4, with the TLS record header that starts
//! their payload.

use vstd::prelude::*;
use vstd::slice::slice_to_vec;
use crate::parser::{
    display_choice, display_choice_for, has_ipv4_header, ip_lengths_fit, ip_packet, ip_protocol,
    parse_ethernet_and_ipv4, transport, lemma_headers_determined, same_ip_headers, DisplayPacketOptions, EthernetHeader, IPv4Header,
};
use crate::port_table::{owner_pid_of, PortTable};
use crate::ports::Port;
use crate::text::{be16, read_be16};

verus! {

/// The eight TCP flags, from the most significant bit of the flags byte down.
pub struct TcpFlags {
    pub cwr: bool,
    pub ece: bool,
    pub urg: bool,
    pub ack: bool,
    pub psh: bool,
    pub rst: bool,
    pub syn: bool,
    pub fin: bool,
}

/// One TCP flag.
#[derive(Debug, Clone, Copy, PartialEq, Eq, Structural)]
pub enum TcpFlag {
    Cwr,
    Ece,
    Urg,
    Ack,
    Psh,
    Rst,
    Syn,
    Fin,
}

/// The flags that the flags byte `b` sets.
pub open spec fn tcp_flags_of(b: u8) -> TcpFlags {
    TcpFlags {
        cwr: b & 0x80 != 0,
        ece: b & 0x40 != 0,
        urg: b & 0x20 != 0,
        ack: b & 0x10 != 0,
        psh: b & 0x08 != 0,
        rst: b & 0x04 != 0,
        syn: b & 0x02 != 0,
        fin: b & 0x01 != 0,
    }
}

/// No flag is set.
pub open spec fn no_flag_set(f: TcpFlags) -> bool {
    !f.cwr && !f.ece && !f.urg && !f.ack && !f.psh && !f.rst && !f.syn && !f.fin
}

/// The flags that are set, from the most significant bit down.
pub open spec fn listed_flags(f: TcpFlags) -> Seq<TcpFlag> {
    let s0: Seq<TcpFlag> = if f.cwr { seq![TcpFlag::Cwr] } else { Seq::empty() };
    let s1 = if f.ece { s0.push(TcpFlag::Ece) } else { s0 };
    let s2 = if f.urg { s1.push(TcpFlag::Urg) } else { s1 };
    let s3 = if f.ack { s2.push(TcpFlag::Ack) } else { s2 };
    let s4 = if f.psh { s3.push(TcpFlag::Psh) } else { s3 };
    let s5 = if f.rst { s4.push(TcpFlag::Rst) } else { s4 };
    let s6 = if f.syn { s5.push(TcpFlag::Syn) } else { s5 };
    if f.fin { s6.push(TcpFlag::Fin) } else { s6 }
}

/// The name under which a flag is shown.
pub open spec fn flag_name(f: TcpFlag) -> Seq<char> {
    match f {
        TcpFlag::Cwr => "CWR"@,
        TcpFlag::Ece => "ECE"@,
        TcpFlag::Urg => "URG"@,
        TcpFlag::Ack => "ACK"@,
        TcpFlag::Psh => "PSH"@,
        TcpFlag::Rst => "RST"@,
        TcpFlag::Syn => "SYN"@,
        TcpFlag::Fin => "FIN"@,
    }
}

impl TcpFlag {
    pub fn name(&self) -> (res: &'static str)
        ensures
            res@ == flag_name(*self),
    {
        match self {
            TcpFlag::Cwr => "CWR",
            TcpFlag::Ece => "ECE",
            TcpFlag::Urg => "URG",
            TcpFlag::Ack => "ACK",
            TcpFlag::Psh => "PSH",
            TcpFlag::Rst => "RST",
            TcpFlag::Syn => "SYN",
            TcpFlag::Fin => "FIN",
        }
    }
}

impl TcpFlags {
    pub fn from_byte(flags: u8) -> (res: Self)
        ensures
            res == tcp_flags_of(flags),
    {
        Self {
            cwr: flags & 0x80 != 0,
            ece: flags & 0x40 != 0,
            urg: flags & 0x20 != 0,
            ack: flags & 0x10 != 0,
            psh: flags & 0x08 != 0,
            rst: flags & 0x04 != 0,
            syn: flags & 0x02 != 0,
            fin: flags & 0x01 != 0,
        }
    }

    pub fn is_empty(&self) -> (res: bool)
        ensures
            res == no_flag_set(*self),
    {
        !self.cwr && !self.ece && !self.urg && !self.ack && !self.psh && !self.rst && !self.syn
            && !self.fin
    }

    /// The flags that are set, in the order in which a listing shows them.
    pub fn set_flags(&self) -> (res: Vec<TcpFlag>)
        ensures
            res@ == listed_flags(*self),
    {
        let mut v: Vec<TcpFlag> = Vec::new();
        if self.cwr {
            v.push(TcpFlag::Cwr);
        }
        if self.ece {
            v.push(TcpFlag::Ece);
        }
        if self.urg {
            v.push(TcpFlag::Urg);
        }
        if self.ack {
            v.push(TcpFlag::Ack);
        }
        if self.psh {
            v.push(TcpFlag::Psh);
        }
        if self.rst {
            v.push(TcpFlag::Rst);
        }
        if self.syn {
            v.push(TcpFlag::Syn);
        }
        if self.fin {
            v.push(TcpFlag::Fin);
        }
        proof {
            assert(v@ =~= listed_flags(*self));
        }
        v
    }
}

/// A flags byte sets no flag exactly when it is zero.
pub proof fn lemma_flags_empty_iff_zero(b: u8)
    ensures
        no_flag_set(tcp_flags_of(b)) <==> b == 0,
{
    assert((b & 0x80 == 0 && b & 0x40 == 0 && b & 0x20 == 0 && b & 0x10 == 0 && b & 0x08 == 0
        && b & 0x04 == 0 && b & 0x02 == 0 && b & 0x01 == 0) <==> b == 0) by (bit_vector);
}

/// The TCP header fields that the decoder keeps, and the segment's payload.
pub struct TcpHeader {
    pub src_port: Port,
    pub dst_port: Port,
    pub flags: TcpFlags,
    pub payload: Vec<u8>,
}

/// The TCP header length of segment `seg`, in bytes: four times its data
/// offset field.
pub open spec fn tcp_data_offset(seg: Seq<u8>) -> int {
    (seg[12] / 16) * 4
}

impl TcpHeader {
    /// This header holds the fields of segment `seg` and its payload.
    pub open spec fn is_header_of(&self, seg: Seq<u8>) -> bool {
        &&& self.src_port.port == be16(seg[0], seg[1])
        &&& self.dst_port.port == be16(seg[2], seg[3])
        &&& self.flags == tcp_flags_of(seg[13])
        &&& self.payload@ == seg.subrange(tcp_data_offset(seg), seg.len() as int)
    }
}

/// The content type of a TLS record.
#[derive(Debug, Clone, Copy, PartialEq, Eq, Structural)]
pub enum TlsContentType {
    ChangeCipherSpec,
    Alert,
    Handshake,
    ApplicationData,
}

/// The byte that stands for a content type in a TLS record header.
pub open spec fn content_type_byte(t: TlsContentType) -> u8 {
    match t {
        TlsContentType::ChangeCipherSpec => 20,
        TlsContentType::Alert => 21,
        TlsContentType::Handshake => 22,
        TlsContentType::ApplicationData => 23,
    }
}

/// The content type that byte `b` stands for, if any.
pub open spec fn content_type_of(b: u8) -> Option<TlsContentType> {
    if b == 20 {
        Some(TlsContentType::ChangeCipherSpec)
    } else if b == 21 {
        Some(TlsContentType::Alert)
    } else if b == 22 {
        Some(TlsContentType::Handshake)
    } else if b == 23 {
        Some(TlsContentType::ApplicationData)
    } else {
        None
    }
}

/// The name under which a content type is shown.
pub open spec fn content_type_name(t: TlsContentType) -> Seq<char> {
    match t {
        TlsContentType::ChangeCipherSpec => "Change Cipher Spec"@,
        TlsContentType::Alert => "Alert"@,
        TlsContentType::Handshake => "Handshake"@,
        TlsContentType::ApplicationData => "Application Data"@,
    }
}

impl TlsContentType {
    pub fn to_byte(&self) -> (res: u8)
        ensures
            res == content_type_byte(*self),
    {
        match self {
            Self::ChangeCipherSpec => 20,
            Self::Alert => 21,
            Self::Handshake => 22,
            Self::ApplicationData => 23,
        }
    }

    /// The content type named by the first byte of a TLS record.
    pub fn from_payload(payload_data: &[u8]) -> (res: Option<Self>)
        requires
            payload_data@.len() >= 1,
        ensures
            res == content_type_of(payload_data@[0]),
    {
        match payload_data[0] {
            20 => Some(Self::ChangeCipherSpec),
            21 => Some(Self::Alert),
            22 => Some(Self::Handshake),
            23 => Some(Self::ApplicationData),
            _ => None,
        }
    }

    /// The name shown for this content type, such as `Application Data`.
    pub fn to_string(&self) -> (res: String)
        ensures
            res@ == content_type_name(*self),
    {
        match self {
            Self::ChangeCipherSpec => String::from_str("Change Cipher Spec"),
            Self::Alert => String::from_str("Alert"),
            Self::Handshake => String::from_str("Handshake"),
            Self::ApplicationData => String::from_str("Application Data"),
        }
    }
}

/// The byte of a content type names that content type again.
pub proof fn lemma_content_type_byte_round_trip(t: TlsContentType)
    ensures
        content_type_of(content_type_byte(t)) == Some(t),
{
}

/// A byte that names a content type is that content type's byte; the
/// content types are numbered as in TLS: change cipher spec 20, alert 21,
/// handshake 22, application data 23.
pub proof fn lemma_content_type_of_byte(b: u8)
    ensures
        content_type_of(b) matches Some(t) ==> content_type_byte(t) == b,
        content_type_of(b) is Some <==> 20 <= b <= 23,
        content_type_of(b) == Some(TlsContentType::ChangeCipherSpec) <==> b == 20,
        content_type_of(b) == Some(TlsContentType::Alert) <==> b == 21,
        content_type_of(b) == Some(TlsContentType::Handshake) <==> b == 22,
        content_type_of(b) == Some(TlsContentType::ApplicationData) <==> b == 23,
{
}

/// The name of the TLS version with the given value.
pub open spec fn tls_version_name(v: int) -> Seq<char> {
    if v == 0x0301 {
        "TLS 1.0"@
    } else if v == 0x0302 {
        "TLS 1.1"@
    } else if v == 0x0303 {
        "TLS 1.2"@
    } else if v == 0x0304 {
        "TLS 1.3"@
    } else {
        "Unknown"@
    }
}

/// The header of a TLS record: its content type, version and length.
pub struct TlsRecord {
    pub content_type: Option<TlsContentType>,
    pub version: String,
    pub length: u16,
}

impl TlsRecord {
    /// This record header is the one that `p` starts with.
    pub open spec fn is_record_of(&self, p: Seq<u8>) -> bool {
        &&& self.content_type == content_type_of(p[0])
        &&& self.version@ == tls_version_name(be16(p[1], p[2]))
        &&& self.length == be16(p[3], p[4])
    }

    fn get_version_from_payload(tcp_payload: &[u8]) -> (res: String)
        requires
            tcp_payload@.len() >= 3,
        ensures
            res@ == tls_version_name(be16(tcp_payload@[1], tcp_payload@[2])),
    {
        let version = read_be16(tcp_payload[1], tcp_payload[2]);
        String::from_str(
            match version {
                0x0301 => "TLS 1.0",
                0x0302 => "TLS 1.1",
                0x0303 => "TLS 1.2",
                0x0304 => "TLS 1.3",
                _ => "Unknown",
            },
        )
    }

    fn get_length_from_payload(tcp_payload: &[u8]) -> (res: u16)
        requires
            tcp_payload@.len() >= 5,
        ensures
            res == be16(tcp_payload@[3], tcp_payload@[4]),
    {
        read_be16(tcp_payload[3], tcp_payload[4])
    }

    /// Reads the header of the TLS record that `tcp_payload` starts with.
    pub fn from_data(tcp_payload: &[u8]) -> (res: Self)
        requires
            tcp_payload@.len() >= 5,
        ensures
            res.is_record_of(tcp_payload@),
    {
        Self {
            content_type: TlsContentType::from_payload(tcp_payload),
            version: TlsRecord::get_version_from_payload(tcp_payload),
            length: TlsRecord::get_length_from_payload(tcp_payload),
        }
    }
}

/// A decoded TCP-over-IPv4 frame.
pub struct ParsedPacket {
    pub ethernet: EthernetHeader,
    pub ipv4: IPv4Header,
    pub tcp: TcpHeader,
    pub tls: TlsRecord,
}

/// Frame `d` holds an IPv4 packet whose lengths fit, carrying TCP, with a
/// segment of at least thirteen bytes that holds its own header.
pub open spec fn reaches_tcp_header(d: Seq<u8>) -> bool {
    &&& has_ipv4_header(d)
    &&& ip_protocol(d) == 6
    &&& ip_lengths_fit(d)
    &&& transport(d).len() >= 13
    &&& transport(d).len() >= tcp_data_offset(transport(d))
}

/// The TCP segment of frame `d` stops right before its flags byte, which the
/// decoder reads: it cannot decode such a frame.
pub open spec fn lacks_tcp_flags(d: Seq<u8>) -> bool {
    reaches_tcp_header(d) && transport(d).len() == 13
}

/// The payload of the TCP segment of frame `d`.
pub open spec fn tcp_payload(d: Seq<u8>) -> Seq<u8> {
    transport(d).subrange(tcp_data_offset(transport(d)), transport(d).len() as int)
}

/// Frame `d` is one that `parse_tcp_ipv4` decodes: its TCP segment is whole
/// and its payload is long enough for a TLS record header.
pub open spec fn is_tcp_frame(d: Seq<u8>) -> bool {
    reaches_tcp_header(d) && tcp_payload(d).len() >= 5
}

impl ParsedPacket {
    /// Whether a listing with `options` shows this packet, and if so whether
    /// with its payload. With a process filter, the packet is shown when the
    /// process it belongs to is the one asked for: the first process recorded
    /// for its source port, or, when the source port has no entry, the first
    /// one recorded for its destination port.
    pub fn display_choice(&self, options: &Option<DisplayPacketOptions>, table: &PortTable) -> (res:
        Option<bool>)
        ensures
            res == display_choice_for(
                *options,
                owner_pid_of(table@, self.tcp.src_port.port, self.tcp.dst_port.port),
            ),
    {
        display_choice(options, table.first_pid_of_either(self.tcp.src_port.port, self.tcp.dst_port.port))
    }
}

/// Whether frame `data` is one whose TCP segment stops right before its
/// flags byte.
pub fn tcp_flags_missing(data: &[u8]) -> (res: bool)
    ensures
        res == lacks_tcp_flags(data@),
{
    let (_, ipv4, ihl) = match parse_ethernet_and_ipv4(data) {
        Some(parts) => parts,
        None => return false,
    };
    let ip = &data[14..data.len()];
    if ipv4.protocol != 6 {
        return false;
    }
    let total_len = read_be16(ip[2], ip[3]);
    if ip.len() < total_len as usize || ip.len() < ihl as usize {
        return false;
    }
    let tcp = &ip[ihl as usize..ip.len()];
    if tcp.len() != 13 {
        return false;
    }
    let offset_field = tcp[12] >> 4;
    proof {
        let b = tcp@[12];
        assert(b >> 4 == b / 16) by (bit_vector);
        assert(tcp@ =~= transport(data@));
    }
    let hl = (offset_field * 4) as usize;
    tcp.len() >= hl
}

/// Decodes a frame that carries TCP over IPv4, with the header of the TLS
/// record that starts its payload. `None` for any other frame.
pub fn parse_tcp_ipv4(data: &[u8]) -> (res: Option<ParsedPacket>)
    requires
        !lacks_tcp_flags(data@),
    ensures
        match res {
            None => !is_tcp_frame(data@),
            Some(p) => {
                &&& is_tcp_frame(data@)
                &&& p.ethernet.is_header_of(data@)
                &&& p.ipv4.is_header_of(ip_packet(data@))
                &&& p.tcp.is_header_of(transport(data@))
                &&& p.tls.is_record_of(tcp_payload(data@))
            },
        },
{
    let (ethernet, ipv4, ihl) = match parse_ethernet_and_ipv4(data) {
        Some(parts) => parts,
        None => return None,
    };
    let ip = &data[14..data.len()];
    if ipv4.protocol != 6 {
        return None;
    }
    let total_len = read_be16(ip[2], ip[3]);
    if ip.len() < total_len as usize {
        return None;
    }
    if ip.len() < ihl as usize {
        return None;
    }
    let tcp = &ip[ihl as usize..ip.len()];
    proof {
        assert(tcp@ =~= transport(data@));
    }
    if tcp.len() < 13 {
        return None;
    }
    let offset_field = tcp[12] >> 4;
    proof {
        let b = tcp@[12];
        assert(b >> 4 == b / 16) by (bit_vector);
    }
    let tcp_header_len = (offset_field * 4) as usize;
    if tcp.len() < tcp_header_len {
        return None;
    }
    let payload = &tcp[tcp_header_len..tcp.len()];
    let tcp_header = TcpHeader {
        src_port: Port::new(read_be16(tcp[0], tcp[1])),
        dst_port: Port::new(read_be16(tcp[2], tcp[3])),
        flags: TcpFlags::from_byte(tcp[13]),
        payload: slice_to_vec(payload),
    };
    if payload.len() < 5 {
        return None;
    }
    let tls = TlsRecord::from_data(payload);
    Some(ParsedPacket { ethernet, ipv4, tcp: tcp_header, tls })
}

/// A frame that `parse_tcp_ipv4` decodes is one that
/// `parse_ethernet_and_ipv4` decodes too, and into the same Ethernet and IPv4
/// headers: any decoding of `d` that each function's contract admits has
/// the same two headers.
pub proof fn lemma_tcp_frame_has_ipv4_header(
    d: Seq<u8>,
    p: ParsedPacket,
    ethernet: EthernetHeader,
    ipv4: IPv4Header,
)
    requires
        is_tcp_frame(d),
        p.ethernet.is_header_of(d),
        p.ipv4.is_header_of(ip_packet(d)),
        ethernet.is_header_of(d),
        ipv4.is_header_of(ip_packet(d)),
    ensures
        has_ipv4_header(d),
        same_ip_headers(p.ethernet, p.ipv4, ethernet, ipv4),
{
    lemma_headers_determined(d, p.ethernet, p.ipv4, ethernet, ipv4);
}

/// Each TCP flag is its own bit of the flags byte: CWR the highest (128),
/// then ECE (64), URG (32), ACK (16), PSH (8), RST (4), SYN (2) and FIN the
/// lowest (1); the byte is the sum of the bits of the flags it sets.
pub proof fn lemma_flag_bits(b: u8)
    ensures
        tcp_flags_of(b).cwr == (b / 128 % 2 == 1),
        tcp_flags_of(b).ece == (b / 64 % 2 == 1),
        tcp_flags_of(b).urg == (b / 32 % 2 == 1),
        tcp_flags_of(b).ack == (b / 16 % 2 == 1),
        tcp_flags_of(b).psh == (b / 8 % 2 == 1),
        tcp_flags_of(b).rst == (b / 4 % 2 == 1),
        tcp_flags_of(b).syn == (b / 2 % 2 == 1),
        tcp_flags_of(b).fin == (b % 2 == 1),
        b == (if tcp_flags_of(b).cwr { 128int } else { 0 }) + (if tcp_flags_of(b).ece { 64int } else { 0 })
            + (if tcp_flags_of(b).urg { 32int } else { 0 }) + (if tcp_flags_of(b).ack { 16int } else { 0 })
            + (if tcp_flags_of(b).psh { 8int } else { 0 }) + (if tcp_flags_of(b).rst { 4int } else { 0 })
            + (if tcp_flags_of(b).syn { 2int } else { 0 }) + (if tcp_flags_of(b).fin { 1int } else { 0 }),
{
    assert((b & 0x80 != 0) == (b / 128 % 2 == 1)) by (bit_vector);
    assert((b & 0x40 != 0) == (b / 64 % 2 == 1)) by (bit_vector);
    assert((b & 0x20 != 0) == (b / 32 % 2 == 1)) by (bit_vector);
    assert((b & 0x10 != 0) == (b / 16 % 2 == 1)) by (bit_vector);
    assert((b & 0x08 != 0) == (b / 8 % 2 == 1)) by (bit_vector);
    assert((b & 0x04 != 0) == (b / 4 % 2 == 1)) by (bit_vector);
    assert((b & 0x02 != 0) == (b / 2 % 2 == 1)) by (bit_vector);
    assert((b & 0x01 != 0) == (b % 2 == 1)) by (bit_vector);
    assert(b == 128 * (b / 128 % 2) + 64 * (b / 64 % 2) + 32 * (b / 32 % 2) + 16 * (b / 16 % 2) + 8 * (
    b / 8 % 2) + 4 * (b / 4 % 2) + 2 * (b / 2 % 2) + b % 2) by (bit_vector);
}

/// The value of a flag's bit in the flags byte.
pub open spec fn flag_weight(x: TcpFlag) -> int {
    match x {
        TcpFlag::Cwr => 128,
        TcpFlag::Ece => 64,
        TcpFlag::Urg => 32,
        TcpFlag::Ack => 16,
        TcpFlag::Psh => 8,
        TcpFlag::Rst => 4,
        TcpFlag::Syn => 2,
        TcpFlag::Fin => 1,
    }
}

/// Whether flags `f` set flag `x`.
pub open spec fn flag_is_set(f: TcpFlags, x: TcpFlag) -> bool {
    match x {
        TcpFlag::Cwr => f.cwr,
        TcpFlag::Ece => f.ece,
        TcpFlag::Urg => f.urg,
        TcpFlag::Ack => f.ack,
        TcpFlag::Psh => f.psh,
        TcpFlag::Rst => f.rst,
        TcpFlag::Syn => f.syn,
        TcpFlag::Fin => f.fin,
    }
}

/// The flags listed for a flags byte are exactly those whose bit the byte
/// sets, each once, from the highest bit down.
pub proof fn lemma_listed_flags(b: u8)
    ensures
        forall|x: TcpFlag|
            #[trigger] listed_flags(tcp_flags_of(b)).contains(x) <==> (b as int / flag_weight(x)) % 2
                == 1,
        forall|i: int, j: int|
            0 <= i < j < listed_flags(tcp_flags_of(b)).len() ==> #[trigger] flag_weight(
                listed_flags(tcp_flags_of(b))[i],
            ) > #[trigger] flag_weight(listed_flags(tcp_flags_of(b))[j]),
{
    lemma_flag_bits(b);
    let f = tcp_flags_of(b);
    lemma_listed_flags_of(f);
    assert forall|x: TcpFlag| flag_is_set(f, x) <==> (b as int / flag_weight(x)) % 2 == 1 by {
        match x {
            TcpFlag::Cwr => {},
            TcpFlag::Ece => {},
            TcpFlag::Urg => {},
            TcpFlag::Ack => {},
            TcpFlag::Psh => {},
            TcpFlag::Rst => {},
            TcpFlag::Syn => {},
            TcpFlag::Fin => {},
        }
    }
}

/// The flags listed for `f` are exactly those it sets, each once, from the
/// highest bit down.
proof fn lemma_listed_flags_of(f: TcpFlags)
    ensures
        forall|x: TcpFlag| #[trigger] listed_flags(f).contains(x) <==> flag_is_set(f, x),
        forall|i: int, j: int|
            0 <= i < j < listed_flags(f).len() ==> #[trigger] flag_weight(listed_flags(f)[i])
                > #[trigger] flag_weight(listed_flags(f)[j]),
{
    let s0: Seq<TcpFlag> = if f.cwr { seq![TcpFlag::Cwr] } else { Seq::empty() };
    let s1 = if f.ece { s0.push(TcpFlag::Ece) } else { s0 };
    let s2 = if f.urg { s1.push(TcpFlag::Urg) } else { s1 };
    let s3 = if f.ack { s2.push(TcpFlag::Ack) } else { s2 };
    let s4 = if f.psh { s3.push(TcpFlag::Psh) } else { s3 };
    let s5 = if f.rst { s4.push(TcpFlag::Rst) } else { s4 };
    let s6 = if f.syn { s5.push(TcpFlag::Syn) } else { s5 };
    let s7 = if f.fin { s6.push(TcpFlag::Fin) } else { s6 };
    assert(s7 == listed_flags(f));
    assert forall|y: TcpFlag| #[trigger] s0.contains(y) <==> (flag_weight(y) >= 128 && flag_is_set(f, y)) by {
        if f.cwr && y == TcpFlag::Cwr {
            assert(s0[0] == y);
        }
    }
    lemma_push_listed(f, s0, s1, TcpFlag::Ece, 128);
    lemma_push_listed(f, s1, s2, TcpFlag::Urg, 64);
    lemma_push_listed(f, s2, s3, TcpFlag::Ack, 32);
    lemma_push_listed(f, s3, s4, TcpFlag::Psh, 16);
    lemma_push_listed(f, s4, s5, TcpFlag::Rst, 8);
    lemma_push_listed(f, s5, s6, TcpFlag::Syn, 4);
    lemma_push_listed(f, s6, s7, TcpFlag::Fin, 2);
}

/// Listing flag `x` when `f` sets it, after flags of weight at least twice
/// its own, keeps a listing strictly decreasing and holding exactly the set
/// flags of weight at least that of `x`.
proof fn lemma_push_listed(f: TcpFlags, s: Seq<TcpFlag>, t: Seq<TcpFlag>, x: TcpFlag, bound: int)
    requires
        t == (if flag_is_set(f, x) { s.push(x) } else { s }),
        forall|y: TcpFlag| #[trigger] s.contains(y) <==> (flag_weight(y) >= bound && flag_is_set(f, y)),
        forall|i: int| 0 <= i < s.len() ==> #[trigger] flag_weight(s[i]) >= bound,
        forall|i: int, j: int|
            0 <= i < j < s.len() ==> #[trigger] flag_weight(s[i]) > #[trigger] flag_weight(s[j]),
        flag_weight(x) * 2 == bound,
    ensures
        forall|y: TcpFlag|
            #[trigger] t.contains(y) <==> (flag_weight(y) >= flag_weight(x) && flag_is_set(f, y)),
        forall|i: int| 0 <= i < t.len() ==> #[trigger] flag_weight(t[i]) >= flag_weight(x),
        forall|i: int, j: int|
            0 <= i < j < t.len() ==> #[trigger] flag_weight(t[i]) > #[trigger] flag_weight(t[j]),
{
    assert forall|y: TcpFlag|
        #[trigger] t.contains(y) <==> (flag_weight(y) >= flag_weight(x) && flag_is_set(f, y)) by {
        if s.contains(y) {
            let k = choose|k: int| 0 <= k < s.len() && s[k] == y;
            assert(t[k] == y);
        }
        if t.contains(y) {
            let k = choose|k: int| 0 <= k < t.len() && t[k] == y;
            if k < s.len() {
                assert(s[k] == y);
            }
        }
        if flag_is_set(f, x) && y == x {
            assert(t[s.len() as int] == y);
        }
        match y {
            TcpFlag::Cwr => {},
            TcpFlag::Ece => {},
            TcpFlag::Urg => {},
            TcpFlag::Ack => {},
            TcpFlag::Psh => {},
            TcpFlag::Rst => {},
            TcpFlag::Syn => {},
            TcpFlag::Fin => {},
        }
        match x {
            TcpFlag::Cwr => {},
            TcpFlag::Ece => {},
            TcpFlag::Urg => {},
            TcpFlag::Ack => {},
            TcpFlag::Psh => {},
            TcpFlag::Rst => {},
            TcpFlag::Syn => {},
            TcpFlag::Fin => {},
        }
    }
}

/// A TCP header holds, for a segment whose header fits in it: the ports as
/// the big-endian values of bytes 0-1 and 2-3, the flags of byte 13, and as
/// payload everything after the header, whose length is four times the high
/// four bits of byte 12.
pub proof fn lemma_tcp_header_fields(h: TcpHeader, seg: Seq<u8>)
    requires
        seg.len() >= 14,
        4 * (seg[12] / 16) <= seg.len(),
        h.is_header_of(seg),
    ensures
        h.src_port.port == seg[0] * 256 + seg[1],
        h.dst_port.port == seg[2] * 256 + seg[3],
        h.flags.cwr == (seg[13] / 128 % 2 == 1),
        h.flags.ece == (seg[13] / 64 % 2 == 1),
        h.flags.urg == (seg[13] / 32 % 2 == 1),
        h.flags.ack == (seg[13] / 16 % 2 == 1),
        h.flags.psh == (seg[13] / 8 % 2 == 1),
        h.flags.rst == (seg[13] / 4 % 2 == 1),
        h.flags.syn == (seg[13] / 2 % 2 == 1),
        h.flags.fin == (seg[13] % 2 == 1),
        h.payload@.len() + 4 * (seg[12] / 16) == seg.len(),
        forall|i: int|
            0 <= i < h.payload@.len() ==> h.payload@[i] == seg[4 * (seg[12] / 16) + i],
{
    lemma_flag_bits(seg[13]);
}

/// A TLS record header holds the content type named by byte 0 (bytes 20 to
/// 23, and none for any other byte), the version name of bytes 1-2 (a known
/// version exactly for 3.1 to 3.4) and as length the big-endian value of
/// bytes 3-4.
pub proof fn lemma_tls_record_fields(r: TlsRecord, p: Seq<u8>)
    requires
        p.len() >= 5,
        r.is_record_of(p),
    ensures
        r.length == p[3] * 256 + p[4],
        r.content_type is Some <==> 20 <= p[0] <= 23,
        r.content_type matches Some(t) ==> content_type_byte(t) == p[0],
        r.version@ != "Unknown"@ <==> p[1] == 3 && 1 <= p[2] <= 4,
        p[1] == 3 && p[2] == 1 ==> r.version@ == "TLS 1.0"@,
        p[1] == 3 && p[2] == 2 ==> r.version@ == "TLS 1.1"@,
        p[1] == 3 && p[2] == 3 ==> r.version@ == "TLS 1.2"@,
        p[1] == 3 && p[2] == 4 ==> r.version@ == "TLS 1.3"@,
{
    reveal_strlit("Unknown");
    reveal_strlit("TLS 1.0");
    reveal_strlit("TLS 1.1");
    reveal_strlit("TLS 1.2");
    reveal_strlit("TLS 1.3");
    let v = be16(p[1], p[2]);
    if v == 0x0301 || v == 0x0302 || v == 0x0303 || v == 0x0304 {
        assert(r.version@[0] == 'T');
        assert("Unknown"@[0] == 'U');
    }
}

/// For a frame that `parse_tcp_ipv4` decodes, with `t` where its TCP
/// segment starts (byte 14 plus four times the low four bits of byte 14) and
/// `s` where the segment's payload starts (`t` plus four times the high four
/// bits of byte `t + 12`): the ports are bytes `t` to `t + 3`, the flags
/// come from byte `t + 13`, the payload is the frame from `s` on, and the
/// TLS record length is the big-endian value of bytes `s + 3` and `s + 4`.
/// (The frames left out, whose segment stops right before its flags byte,
/// are those on which `parse_tcp_ipv4` may not be called.)
pub proof fn lemma_tcp_frame_fields(d: Seq<u8>, p: ParsedPacket)
    requires
        is_tcp_frame(d),
        !lacks_tcp_flags(d),
        p.tcp.is_header_of(transport(d)),
        p.tls.is_record_of(tcp_payload(d)),
    ensures
        ({
            let t = 14 + 4 * (d[14] % 16);
            let s = t + 4 * (d[t + 12] / 16);
            &&& t + 14 <= d.len()
            &&& s + 5 <= d.len()
            &&& p.tcp.src_port.port == d[t] * 256 + d[t + 1]
            &&& p.tcp.dst_port.port == d[t + 2] * 256 + d[t + 3]
            &&& p.tcp.flags.psh == (d[t + 13] / 8 % 2 == 1)
            &&& p.tcp.flags.rst == (d[t + 13] / 4 % 2 == 1)
            &&& p.tcp.payload@ == d.subrange(s, d.len() as int)
            &&& p.tls.length == d[s + 3] * 256 + d[s + 4]
        }),
{
    let seg = transport(d);
    let t = 14 + 4 * (d[14] % 16);
    assert(seg.len() == d.len() - t);
    assert(forall|k: int| 0 <= k < seg.len() ==> seg[k] == d[t + k]);
    assert(seg[12] == d[t + 12]);
    assert(seg[13] == d[t + 13]);
    assert(seg[0] == d[t] && seg[1] == d[t + 1] && seg[2] == d[t + 2] && seg[3] == d[t + 3]);
    lemma_tcp_header_fields(p.tcp, seg);
    let s = t + 4 * (d[t + 12] / 16);
    let pl = tcp_payload(d);
    assert(pl =~= d.subrange(s, d.len() as int));
    lemma_tls_record_fields(p.tls, pl);
    assert(pl[3] == d[s + 3] && pl[4] == d[s + 4]);
    assert(p.tcp.payload@ =~= d.subrange(s, d.len() as int));
}

/// The frames that `parse_tcp_ipv4` decodes, in terms of their bytes, with
/// `t` where the TCP segment starts (byte 14 plus four times the low four
/// bits of byte 14) and `h` the TCP header length (four times the high four
/// bits of byte `t + 12`): at least 34 bytes; protocol byte 23 is 6; the
/// IPv4 packet is at least as long as its total length (bytes 16-17) and
/// its header; the segment has at least 13 bytes and holds its header; and
/// at least 5 bytes follow the header. The frames it may not be called on
/// are those among them whose segment has exactly 13 bytes.
pub proof fn lemma_tcp_frame_bytes(d: Seq<u8>)
    ensures
        ({
            let t = 14 + 4 * (d[14] % 16);
            let h = 4 * (d[t + 12] / 16);
            &&& is_tcp_frame(d) <==> {
                &&& d.len() >= 34
                &&& d[23] == 6
                &&& d.len() - 14 >= d[16] * 256 + d[17]
                &&& d.len() >= t
                &&& d.len() - t >= 13
                &&& d.len() - t >= h
                &&& d.len() - t - h >= 5
            }
            &&& is_tcp_frame(d) ==> (lacks_tcp_flags(d) <==> d.len() - t == 13)
        }),
{
    let t = 14 + 4 * (d[14] % 16);
    if d.len() >= 34 && d.len() >= t {
        let seg = transport(d);
        assert(seg.len() == d.len() - t);
        if seg.len() >= 13 {
            assert(seg[12] == d[t + 12]);
        }
    }
}

} // verus!
