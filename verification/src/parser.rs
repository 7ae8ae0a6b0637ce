//! Ethernet and IPv4 headers, shared by the TCP and UDP decoders, and the
//! text that a packet listing shows for them.

use vstd::prelude::*;
use vstd::slice::slice_to_vec;
use crate::ethertypes::Ethertype;
use crate::text::{be16, decimal, hex2, push_char, push_decimal, push_hex2};

verus! {

/// The character that stands for `b` in the text column of a payload dump:
/// the byte itself when it is a printable ASCII character or a space, `.`
/// otherwise.
pub open spec fn ascii_char(b: u8) -> char {
    if 0x20 <= b <= 0x7e {
        b as char
    } else {
        '.'
    }
}

/// The text column of a payload dump for the bytes `s`.
pub open spec fn ascii_text(s: Seq<u8>) -> Seq<char> {
    s.map_values(|b: u8| ascii_char(b))
}

pub fn ascii_repr(byte: u8) -> (c: char)
    ensures
        c == ascii_char(byte),
{
    if (0x21 <= byte && byte <= 0x7e) || byte == 0x20 {
        byte as char
    } else {
        '.'
    }
}

/// A MAC address as colon-separated pairs of lower-case hexadecimal digits.
pub open spec fn mac_text(m: Seq<u8>) -> Seq<char>
    decreases m.len(),
{
    if m.len() == 0 {
        Seq::empty()
    } else if m.len() == 1 {
        hex2(m[0])
    } else {
        mac_text(m.drop_last()) + ":"@ + hex2(m.last())
    }
}

/// An IPv4 address in dotted decimal notation.
pub open spec fn ipv4_text(a: Seq<u8>) -> Seq<char> {
    decimal(a[0] as nat) + "."@ + decimal(a[1] as nat) + "."@ + decimal(a[2] as nat) + "."@
        + decimal(a[3] as nat)
}

/// Renders a MAC address such as `00:11:22:33:44:55`.
pub fn format_mac(mac: &[u8]) -> (res: String)
    ensures
        res@ == mac_text(mac@),
{
    let mut s = String::new();
    let mut i: usize = 0;
    while i < mac.len()
        invariant
            i <= mac@.len(),
            s@ == mac_text(mac@.take(i as int)),
        decreases mac@.len() - i,
    {
        if i > 0 {
            s.append(":");
        }
        push_hex2(&mut s, mac[i]);
        proof {
            assert(mac@.take(i + 1).drop_last() =~= mac@.take(i as int));
        }
        i = i + 1;
    }
    proof {
        assert(mac@.take(mac@.len() as int) =~= mac@);
    }
    s
}

/// Renders an IPv4 address such as `10.0.0.1`.
pub fn format_ipv4(addr: &[u8; 4]) -> (res: String)
    ensures
        res@ == ipv4_text(addr@),
{
    let mut s = String::new();
    push_decimal(&mut s, addr[0] as u32);
    s.append(".");
    push_decimal(&mut s, addr[1] as u32);
    s.append(".");
    push_decimal(&mut s, addr[2] as u32);
    s.append(".");
    push_decimal(&mut s, addr[3] as u32);
    s
}

/// Renders the text column of a payload dump for `bytes`.
pub fn ascii_line(bytes: &[u8]) -> (res: String)
    ensures
        res@ == ascii_text(bytes@),
{
    let mut s = String::new();
    let mut i: usize = 0;
    while i < bytes.len()
        invariant
            i <= bytes@.len(),
            s@ == ascii_text(bytes@.take(i as int)),
        decreases bytes@.len() - i,
    {
        push_char(&mut s, ascii_repr(bytes[i]));
        proof {
            assert(ascii_text(bytes@.take(i + 1)) =~= ascii_text(bytes@.take(i as int)).push(
                ascii_char(bytes@[i as int]),
            ));
        }
        i = i + 1;
    }
    proof {
        assert(bytes@.take(bytes@.len() as int) =~= bytes@);
    }
    s
}

/// One line of a payload dump: up to sixteen bytes, where they start, and
/// their text column.
pub struct PayloadRow {
    pub offset: usize,
    pub bytes: Vec<u8>,
    pub ascii: String,
}

/// Row `i` of the dump of `payload` is `row`.
pub open spec fn is_payload_row(payload: Seq<u8>, i: int, row: PayloadRow) -> bool {
    let end = if 16 * i + 16 <= payload.len() {
        16 * i + 16
    } else {
        payload.len() as int
    };
    &&& row.offset == 16 * i
    &&& row.bytes@ == payload.subrange(16 * i, end)
    &&& row.ascii@ == ascii_text(row.bytes@)
}

/// Cuts a payload into the lines of its dump, sixteen bytes to a line.
pub fn payload_rows(payload: &[u8]) -> (rows: Vec<PayloadRow>)
    ensures
        rows@.len() == (payload@.len() + 15) / 16,
        forall|i: int| 0 <= i < rows@.len() ==> #[trigger] is_payload_row(payload@, i, rows@[i]),
{
    let len = payload.len();
    let mut rows: Vec<PayloadRow> = Vec::new();
    let mut off: usize = 0;
    loop
        invariant_except_break
            off == 16 * rows@.len(),
            off <= len,
        invariant
            len == payload@.len(),
            forall|i: int| 0 <= i < rows@.len() ==> #[trigger] is_payload_row(payload@, i, rows@[i]),
        ensures
            rows@.len() == (len + 15) / 16,
        decreases len - off,
    {
        if off == len {
            break;
        }
        let end: usize = if len - off <= 16 {
            len
        } else {
            off + 16
        };
        let bytes = slice_to_vec(&payload[off..end]);
        let ascii = ascii_line(bytes.as_slice());
        let row = PayloadRow { offset: off, bytes, ascii };
        proof {
            assert(is_payload_row(payload@, rows@.len() as int, row));
        }
        rows.push(row);
        if end == len {
            break;
        }
        off = end;
    }
    rows
}

/// The Ethernet header of a frame.
pub struct EthernetHeader {
    pub dst_mac: Vec<u8>,
    pub src_mac: Vec<u8>,
    pub ethertype: Ethertype,
}

impl EthernetHeader {
    /// This header holds the first fourteen bytes of frame `d`.
    pub open spec fn is_header_of(&self, d: Seq<u8>) -> bool {
        &&& self.dst_mac@ == d.subrange(0, 6)
        &&& self.src_mac@ == d.subrange(6, 12)
        &&& self.ethertype.ethertype == be16(d[12], d[13])
    }
}

/// The fields of an IPv4 header that the decoders keep.
pub struct IPv4Header {
    pub src_ip: [u8; 4],
    pub dst_ip: [u8; 4],
    pub ttl: u8,
    pub protocol: u8,
}

impl IPv4Header {
    /// This header holds the fields of the IPv4 packet `ip`.
    pub open spec fn is_header_of(&self, ip: Seq<u8>) -> bool {
        &&& self.src_ip@ == ip.subrange(12, 16)
        &&& self.dst_ip@ == ip.subrange(16, 20)
        &&& self.ttl == ip[8]
        &&& self.protocol == ip[9]
    }
}

/// What a packet listing shows of each packet.
pub struct DisplayPacketOptions {
    pub show_payload: bool,
    pub filter_by_pid: Option<u32>,
}

impl Default for DisplayPacketOptions {
    fn default() -> (res: Self)
        ensures
            !res.show_payload,
            res.filter_by_pid is None,
    {
        DisplayPacketOptions { show_payload: false, filter_by_pid: None }
    }
}

/// Whether a listing with `options` shows a packet that belongs to process
/// `pid` (`None` when no process is known for it), and if so whether with its
/// payload: with no options, always and with the payload; with no process
/// filter, always and as the options say; with a filter, only when `pid` is
/// the process asked for.
pub open spec fn display_choice_for(options: Option<DisplayPacketOptions>, pid: Option<u32>) -> Option<bool> {
    match options {
        None => Some(true),
        Some(o) => match o.filter_by_pid {
            None => Some(o.show_payload),
            Some(wanted) => if pid == Some(wanted) {
                Some(o.show_payload)
            } else {
                None
            },
        },
    }
}

/// Decides whether a packet is shown, and whether with its payload, given
/// the process it belongs to.
pub fn display_choice(options: &Option<DisplayPacketOptions>, pid: Option<u32>) -> (res: Option<bool>)
    ensures
        res == display_choice_for(*options, pid),
{
    match options {
        None => Some(true),
        Some(o) => match o.filter_by_pid {
            None => Some(o.show_payload),
            Some(wanted) => match pid {
                Some(found) => if found == wanted {
                    Some(o.show_payload)
                } else {
                    None
                },
                None => None,
            },
        },
    }
}

/// The bytes of the rows of a dump, one row after the other.
pub open spec fn row_bytes(rows: Seq<PayloadRow>) -> Seq<u8>
    decreases rows.len(),
{
    if rows.len() == 0 {
        Seq::empty()
    } else {
        row_bytes(rows.drop_last()) + rows.last().bytes@
    }
}

proof fn lemma_row_prefix(payload: Seq<u8>, rows: Seq<PayloadRow>, k: int)
    requires
        0 <= k <= rows.len(),
        rows.len() == (payload.len() + 15) / 16,
        forall|i: int| 0 <= i < rows.len() ==> #[trigger] is_payload_row(payload, i, rows[i]),
    ensures
        row_bytes(rows.take(k)) == payload.subrange(
            0,
            if 16 * k <= payload.len() { 16 * k } else { payload.len() as int },
        ),
    decreases k,
{
    if k == 0 {
        assert(rows.take(0) =~= Seq::<PayloadRow>::empty());
        assert(payload.subrange(0, 0) =~= Seq::<u8>::empty());
    } else {
        lemma_row_prefix(payload, rows, k - 1);
        assert(rows.take(k).drop_last() =~= rows.take(k - 1));
        assert(is_payload_row(payload, k - 1, rows[k - 1]));
        assert(16 * (k - 1) < payload.len()) by (nonlinear_arith)
            requires
                k <= rows.len(),
                rows.len() == (payload.len() + 15) / 16,
        ;
        let end = if 16 * k <= payload.len() { 16 * k } else { payload.len() as int };
        assert(payload.subrange(0, 16 * (k - 1)) + payload.subrange(16 * (k - 1), end)
            =~= payload.subrange(0, end));
    }
}

/// A dump cut by `payload_rows` holds the whole payload, in order, once:
/// its rows' bytes, one row after the other, are the payload.
pub proof fn lemma_payload_rows_cover(payload: Seq<u8>, rows: Seq<PayloadRow>)
    requires
        rows.len() == (payload.len() + 15) / 16,
        forall|i: int| 0 <= i < rows.len() ==> #[trigger] is_payload_row(payload, i, rows[i]),
    ensures
        row_bytes(rows) == payload,
{
    lemma_row_prefix(payload, rows, rows.len() as int);
    assert(rows.take(rows.len() as int) =~= rows);
    assert(16 * rows.len() >= payload.len()) by (nonlinear_arith)
        requires
            rows.len() == (payload.len() + 15) / 16,
    ;
    assert(payload.subrange(0, payload.len() as int) =~= payload);
}

/// A payload's text column has one character per byte: the byte itself
/// when it is a printable ASCII character or a space (0x20 to 0x7e), `.`
/// otherwise.
pub proof fn lemma_ascii_text(s: Seq<u8>)
    ensures
        ascii_text(s).len() == s.len(),
        forall|i: int|
            0 <= i < s.len() ==> (if 0x20 <= s[i] <= 0x7e {
                #[trigger] ascii_text(s)[i] as int == s[i] as int
            } else {
                ascii_text(s)[i] == '.'
            }),
{
}

/// A MAC address of `n` bytes is shown in `3n - 1` characters: byte `k` as
/// two lower-case hexadecimal digits at positions `3k` and `3k + 1`, with a
/// colon between consecutive bytes.
pub proof fn lemma_mac_text(m: Seq<u8>)
    requires
        m.len() >= 1,
    ensures
        mac_text(m).len() == 3 * m.len() - 1,
        forall|k: int|
            0 <= k < m.len() ==> #[trigger] mac_text(m).subrange(3 * k, 3 * k + 2) == hex2(m[k]),
        forall|k: int| 1 <= k < m.len() ==> #[trigger] mac_text(m)[3 * k - 1] == ':',
    decreases m.len(),
{
    reveal_strlit(":");
    if m.len() == 1 {
        assert(mac_text(m).subrange(0, 2) =~= hex2(m[0]));
    } else {
        let init = m.drop_last();
        lemma_mac_text(init);
        let t = mac_text(init);
        let u = mac_text(m);
        assert(u == t + ":"@ + hex2(m.last()));
        assert forall|k: int| 0 <= k < m.len() implies #[trigger] u.subrange(3 * k, 3 * k + 2)
            == hex2(m[k]) by {
            if k < init.len() {
                assert(t.subrange(3 * k, 3 * k + 2) == hex2(init[k]));
                assert(u.subrange(3 * k, 3 * k + 2) =~= t.subrange(3 * k, 3 * k + 2));
            } else {
                assert(u.subrange(3 * k, 3 * k + 2) =~= hex2(m.last()));
            }
        }
        assert forall|k: int| 1 <= k < m.len() implies #[trigger] u[3 * k - 1] == ':' by {
            if k < init.len() {
                assert(u[3 * k - 1] == t[3 * k - 1]);
            } else {
                assert(u[3 * k - 1] == ":"@[0]);
            }
        }
    }
}

/// Two Ethernet headers and two IPv4 headers that both describe frame `d`
/// agree field by field.
pub open spec fn same_ip_headers(
    e1: EthernetHeader,
    i1: IPv4Header,
    e2: EthernetHeader,
    i2: IPv4Header,
) -> bool {
    &&& e1.dst_mac@ == e2.dst_mac@
    &&& e1.src_mac@ == e2.src_mac@
    &&& e1.ethertype == e2.ethertype
    &&& i1.src_ip@ == i2.src_ip@
    &&& i1.dst_ip@ == i2.dst_ip@
    &&& i1.ttl == i2.ttl
    &&& i1.protocol == i2.protocol
}

/// A frame fixes its headers: two Ethernet headers that both describe it,
/// and two IPv4 headers that both describe its IPv4 packet, are the same.
pub proof fn lemma_headers_determined(
    d: Seq<u8>,
    e1: EthernetHeader,
    i1: IPv4Header,
    e2: EthernetHeader,
    i2: IPv4Header,
)
    requires
        e1.is_header_of(d),
        e2.is_header_of(d),
        i1.is_header_of(ip_packet(d)),
        i2.is_header_of(ip_packet(d)),
    ensures
        same_ip_headers(e1, i1, e2, i2),
{
}

/// An Ethernet header holds the first six bytes of the frame as destination
/// MAC, the next six as source MAC, and as EtherType the big-endian value of
/// bytes 12 and 13.
pub proof fn lemma_ethernet_header_fields(e: EthernetHeader, d: Seq<u8>)
    requires
        d.len() >= 14,
        e.is_header_of(d),
    ensures
        e.dst_mac@.len() == 6,
        e.src_mac@.len() == 6,
        forall|k: int| 0 <= k < 6 ==> e.dst_mac@[k] == d[k] && e.src_mac@[k] == d[6 + k],
        e.ethertype.ethertype == d[12] * 256 + d[13],
{
}

/// An IPv4 header holds, in order, bytes 12 to 15 of the IPv4 packet as
/// source address and bytes 16 to 19 as destination address, byte 8 as TTL
/// and byte 9 as protocol.
pub proof fn lemma_ipv4_header_fields(h: IPv4Header, ip: Seq<u8>)
    requires
        ip.len() >= 20,
        h.is_header_of(ip),
    ensures
        forall|k: int| 0 <= k < 4 ==> h.src_ip[k] == ip[12 + k] && h.dst_ip[k] == ip[16 + k],
        h.ttl == ip[8],
        h.protocol == ip[9],
{
    assert forall|k: int| 0 <= k < 4 implies h.src_ip[k] == ip[12 + k] && h.dst_ip[k] == ip[16 + k] by {
        assert(h.src_ip@[k] == ip.subrange(12, 16)[k]);
        assert(h.dst_ip@[k] == ip.subrange(16, 20)[k]);
    }
}

/// For a frame that `parse_ethernet_and_ipv4` decodes, the IPv4 header
/// length it gives is four times the low four bits of byte 14, and the
/// headers hold the frame's bytes: MACs at 0-5 and 6-11, EtherType at 12-13,
/// TTL at 22, protocol at 23, source address at 26-29 and destination
/// address at 30-33, in order.
pub proof fn lemma_frame_headers(d: Seq<u8>, e: EthernetHeader, h: IPv4Header, ihl: u8)
    requires
        has_ipv4_header(d),
        e.is_header_of(d),
        h.is_header_of(ip_packet(d)),
        ihl == ip_header_len(d),
    ensures
        ihl == 4 * (d[14] % 16),
        forall|k: int| 0 <= k < 6 ==> e.dst_mac@[k] == d[k] && e.src_mac@[k] == d[6 + k],
        e.ethertype.ethertype == d[12] * 256 + d[13],
        h.ttl == d[22],
        h.protocol == d[23],
        forall|k: int| 0 <= k < 4 ==> h.src_ip[k] == d[26 + k] && h.dst_ip[k] == d[30 + k],
{
    lemma_ethernet_header_fields(e, d);
    let ip = ip_packet(d);
    lemma_ipv4_header_fields(h, ip);
    assert forall|k: int| 0 <= k < 4 implies h.src_ip[k] == d[26 + k] && h.dst_ip[k] == d[30 + k] by {
        assert(ip[12 + k] == d[26 + k]);
        assert(ip[16 + k] == d[30 + k]);
    }
    assert(ip[8] == d[22] && ip[9] == d[23]);
}

/// Without a process filter, every packet is shown, whatever process it
/// belongs to; without options, every packet is shown with its
/// payload.
pub proof fn lemma_unfiltered_listing_shows_all(
    options: Option<DisplayPacketOptions>,
    pid: Option<u32>,
)
    ensures
        options is None ==> display_choice_for(options, pid) == Some(true),
        options matches Some(o) ==> (o.filter_by_pid is None ==> display_choice_for(
            options,
            pid,
        ) == Some(o.show_payload)),
{
}

/// With a process filter, a packet is shown exactly when it belongs to the
/// process asked for, and then with its payload as the options say.
pub proof fn lemma_filtered_listing(o: DisplayPacketOptions, wanted: u32, pid: Option<u32>)
    requires
        o.filter_by_pid == Some(wanted),
    ensures
        display_choice_for(Some(o), pid) is Some <==> pid == Some(wanted),
        display_choice_for(Some(o), pid) matches Some(show) ==> show == o.show_payload,
{
}

/// The IPv4 packet carried in frame `d`: everything after the Ethernet header.
pub open spec fn ip_packet(d: Seq<u8>) -> Seq<u8> {
    d.subrange(14, d.len() as int)
}

/// The IPv4 header length of frame `d`, in bytes: four times the IHL field.
pub open spec fn ip_header_len(d: Seq<u8>) -> int {
    (d[14] % 16) * 4
}

/// The IPv4 total length field of frame `d`.
pub open spec fn ip_total_len(d: Seq<u8>) -> int {
    be16(d[16], d[17])
}

/// The IPv4 protocol field of frame `d`.
pub open spec fn ip_protocol(d: Seq<u8>) -> u8 {
    d[23]
}

/// Frame `d` is long enough for an Ethernet header and a 20-byte IPv4 header.
pub open spec fn has_ipv4_header(d: Seq<u8>) -> bool {
    d.len() >= 34
}

/// The IPv4 packet of frame `d` is at least as long as its total length
/// field and its header length field say.
pub open spec fn ip_lengths_fit(d: Seq<u8>) -> bool {
    &&& d.len() - 14 >= ip_total_len(d)
    &&& d.len() - 14 >= ip_header_len(d)
}

/// The transport segment of frame `d`: its IPv4 packet after the IPv4 header.
pub open spec fn transport(d: Seq<u8>) -> Seq<u8> {
    d.subrange(14 + ip_header_len(d), d.len() as int)
}

/// Decodes the Ethernet header and the IPv4 header of a frame, with the IPv4
/// header length in bytes. `None` when the frame is too short for both.
pub fn parse_ethernet_and_ipv4(data: &[u8]) -> (res: Option<(EthernetHeader, IPv4Header, u8)>)
    ensures
        match res {
            None => !has_ipv4_header(data@),
            Some((ethernet, ipv4, ihl)) => {
                &&& has_ipv4_header(data@)
                &&& ethernet.is_header_of(data@)
                &&& ipv4.is_header_of(ip_packet(data@))
                &&& ihl == ip_header_len(data@)
            },
        },
{
    if data.len() < 14 {
        return None;
    }
    let ethernet = EthernetHeader {
        dst_mac: slice_to_vec(&data[0..6]),
        src_mac: slice_to_vec(&data[6..12]),
        ethertype: Ethertype::from_ethernet(data),
    };
    let ip = &data[14..data.len()];
    if ip.len() < 20 {
        return None;
    }
    let first = ip[0];
    let nibble = first & 0x0f;
    proof {
        assert(first & 0x0f == first % 16) by (bit_vector);
    }
    let ihl = nibble * 4;
    let ipv4 = IPv4Header {
        src_ip: [ip[12], ip[13], ip[14], ip[15]],
        dst_ip: [ip[16], ip[17], ip[18], ip[19]],
        ttl: ip[8],
        protocol: ip[9],
    };
    proof {
        assert(ipv4.src_ip@ =~= ip@.subrange(12, 16));
        assert(ipv4.dst_ip@ =~= ip@.subrange(16, 20));
    }
    Some((ethernet, ipv4, ihl))
}

} // verus!
