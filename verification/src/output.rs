//! sACN (ANSI E1.31) framing: the data packet that carries one universe of
//! DMX, and the multicast group a universe is sent to.
use vstd::prelude::*;

verus! {

/// The UDP port sACN receivers listen on.
pub const SACN_PORT: u16 = 5568;

/// A 16-bit value in network (big-endian) byte order.
pub open spec fn be16(v: int) -> Seq<u8> {
    seq![(v / 256) as u8, (v % 256) as u8]
}

/// A PDU's "flags and length" field: flag bits 0x7 over a 12-bit length.
pub open spec fn flags_len(len: int) -> Seq<u8> {
    be16(0x7000 + len % 4096)
}

/// The ACN packet identifier, "ASC-E1.17" padded with three NULs.
pub open spec fn acn_packet_id() -> Seq<u8> {
    seq![0x41u8, 0x53, 0x43, 0x2d, 0x45, 0x31, 0x2e, 0x31, 0x37, 0x00, 0x00, 0x00]
}

/// The source name field: "ledbetter" NUL-padded to 64 bytes.
pub open spec fn source_name() -> Seq<u8> {
    seq![0x6cu8, 0x65, 0x64, 0x62, 0x65, 0x74, 0x74, 0x65, 0x72] + Seq::new(55, |i: int| 0u8)
}

/// Property value count of a packet carrying `dmx_len` DMX slots: the start
/// code plus the slots, as a 16-bit field.
pub open spec fn property_count(dmx_len: int) -> int {
    (dmx_len + 1) % 65536
}

/// The E1.31 data packet for `dmx` on `universe` from source `cid`, sequence
/// number `seq`: root layer, framing layer, DMP layer, start code 0, slots.
pub open spec fn e131_packet(cid: Seq<u8>, seq: u8, universe: u16, dmx: Seq<u8>) -> Seq<u8> {
    let total = 125 + property_count(dmx.len() as int);
    // root layer
    seq![0x00u8, 0x10, 0x00, 0x00] + acn_packet_id() + flags_len(total - 16) + seq![
        0x00u8,
        0x00,
        0x00,
        0x04,
    ] + cid
    // framing layer
     + flags_len(total - 38) + seq![0x00u8, 0x00, 0x00, 0x02] + source_name() + seq![
        100u8,
        0x00,
        0x00,
        seq,
        0x00,
    ] + be16(universe as int)
    // DMP layer
     + flags_len(total - 115) + seq![0x02u8, 0xa1, 0x00, 0x00, 0x00, 0x01] + be16(
        property_count(dmx.len() as int),
    ) + seq![0x00u8] + dmx
}

fn push_be16(p: &mut Vec<u8>, v: u16)
    ensures
        final(p)@ == old(p)@ + be16(v as int),
{
    p.push((v / 256) as u8);
    p.push((v % 256) as u8);
    assert(p@ =~= old(p)@ + be16(v as int));
}

fn push_bytes(p: &mut Vec<u8>, bytes: &[u8])
    ensures
        final(p)@ == old(p)@ + bytes@,
{
    let mut i: usize = 0;
    while i < bytes.len()
        invariant
            i <= bytes@.len(),
            p@ == old(p)@ + bytes@.take(i as int),
        decreases bytes@.len() - i,
    {
        p.push(bytes[i]);
        assert(bytes@.take(i + 1) =~= bytes@.take(i as int).push(bytes@[i as int]));
        i = i + 1;
    }
    assert(bytes@.take(bytes@.len() as int) =~= bytes@);
}

/// PDU flags (0x7) over a 12-bit length, big-endian.
fn push_flags_len(p: &mut Vec<u8>, len: usize)
    ensures
        final(p)@ == old(p)@ + flags_len(len as int),
{
    push_be16(p, 0x7000u16 + (len % 4096) as u16);
}

/// Build an E1.31 (sACN) data packet carrying `dmx` on `universe`; 638
/// bytes for a full universe of 512 channels.
pub fn e131(cid: &[u8; 16], seq: u8, universe: u16, dmx: &[u8]) -> (p: Vec<u8>)
    requires
        dmx@.len() < usize::MAX,
    ensures
        p@ == e131_packet(cid@, seq, universe, dmx@),
        p@.len() == 126 + dmx@.len(),
        p@[2] == 0 && p@[3] == 0,
        p@[109] == 0 && p@[110] == 0,
        p@[111] == seq,
        p@[112] == 0,
        p@.subrange(126, p@.len() as int) == dmx@,
{
    let prop_count: u16 = ((dmx.len() + 1) % 65536) as u16;
    let total: usize = 125 + prop_count as usize;
    let mut p: Vec<u8> = Vec::with_capacity(total);

    // root layer
    push_bytes(&mut p, &[0x00, 0x10, 0x00, 0x00]);
    push_bytes(&mut p, &[0x41, 0x53, 0x43, 0x2d, 0x45, 0x31, 0x2e, 0x31, 0x37, 0x00, 0x00, 0x00]);
    push_flags_len(&mut p, total - 16);
    push_bytes(&mut p, &[0x00, 0x00, 0x00, 0x04]);
    push_bytes(&mut p, cid);

    // framing layer
    push_flags_len(&mut p, total - 38);
    push_bytes(&mut p, &[0x00, 0x00, 0x00, 0x02]);
    let mut name: [u8; 64] = [0u8; 64];
    name[0] = 0x6c;
    name[1] = 0x65;
    name[2] = 0x64;
    name[3] = 0x62;
    name[4] = 0x65;
    name[5] = 0x74;
    name[6] = 0x74;
    name[7] = 0x65;
    name[8] = 0x72;
    assert(name@ =~= source_name());
    push_bytes(&mut p, &name);
    p.push(100);
    p.push(0x00);
    p.push(0x00);
    p.push(seq);
    p.push(0x00);
    push_be16(&mut p, universe);

    // DMP layer
    push_flags_len(&mut p, total - 115);
    push_bytes(&mut p, &[0x02, 0xa1, 0x00, 0x00, 0x00, 0x01]);
    push_be16(&mut p, prop_count);
    p.push(0x00);
    push_bytes(&mut p, dmx);
    assert(p@ =~= e131_packet(cid@, seq, universe, dmx@));
    let ghost pk = e131_packet(cid@, seq, universe, dmx@);
    assert(pk.len() == 126 + dmx@.len() && pk[2] == 0 && pk[3] == 0 && pk[109] == 0 && pk[110]
        == 0 && pk[111] == seq && pk[112] == 0 && pk.subrange(126, pk.len() as int) == dmx@) by {
        e131_layout(cid@, seq, universe, dmx@);
        e131_header_fields(cid@, seq, universe, dmx@);
        e131_frame_fields(cid@, seq, universe, dmx@);
    }
    p
}

/// Layout of an E1.31 data packet: it is 126 bytes longer than the DMX data;
/// the preamble, packet identifier, CID, framing vector, source name,
/// priority, sequence number, universe and start code stand at their fixed
/// offsets; the DMX data ends the packet; and while a packet stays under 4096
/// bytes, each of the three PDU length fields holds the number of bytes from
/// the start of its PDU to the end of the packet.
pub proof fn e131_layout(cid: Seq<u8>, seq: u8, universe: u16, dmx: Seq<u8>)
    requires
        cid.len() == 16,
    ensures
        ({
            let p = e131_packet(cid, seq, universe, dmx);
            &&& p.len() == 126 + dmx.len()
            &&& p.subrange(0, 2) == seq![0x00u8, 0x10]
            &&& p.subrange(4, 16) == acn_packet_id()
            &&& p.subrange(22, 38) == cid
            &&& p.subrange(40, 44) == seq![0x00u8, 0x00, 0x00, 0x02]
            &&& p.subrange(44, 108) == source_name()
            &&& p[108] == 100
            &&& p[111] == seq
            &&& p.subrange(113, 115) == be16(universe as int)
            &&& p[125] == 0
            &&& p.subrange(126, p.len() as int) == dmx
            &&& p.len() < 4096 ==> {
                &&& p.subrange(16, 18) == flags_len(p.len() - 16)
                &&& p.subrange(38, 40) == flags_len(p.len() - 38)
                &&& p.subrange(115, 117) == flags_len(p.len() - 115)
            }
        }),
{
    let p = e131_packet(cid, seq, universe, dmx);
    let total = 125 + property_count(dmx.len() as int);
    let root = seq![0x00u8, 0x10, 0x00, 0x00] + acn_packet_id() + flags_len(total - 16) + seq![
        0x00u8,
        0x00,
        0x00,
        0x04,
    ] + cid;
    let framing = flags_len(total - 38) + seq![0x00u8, 0x00, 0x00, 0x02] + source_name() + seq![
        100u8,
        0x00,
        0x00,
        seq,
        0x00,
    ] + be16(universe as int);
    let dmp = flags_len(total - 115) + seq![0x02u8, 0xa1, 0x00, 0x00, 0x00, 0x01] + be16(
        property_count(dmx.len() as int),
    ) + seq![0x00u8];
    assert(p =~= root + framing + dmp + dmx);
    assert(root.len() == 38);
    assert(framing.len() == 77);
    assert(dmp.len() == 11);
    assert(p.subrange(0, 38) =~= root);
    assert(p.subrange(38, 115) =~= framing);
    assert(p.subrange(115, 126) =~= dmp);
    assert(p.subrange(126, p.len() as int) =~= dmx);
    assert(p.subrange(0, 2) =~= root.subrange(0, 2));
    assert(p.subrange(4, 16) =~= root.subrange(4, 16));
    assert(p.subrange(16, 18) =~= root.subrange(16, 18));
    assert(p.subrange(22, 38) =~= root.subrange(22, 38));
    assert(p.subrange(38, 40) =~= framing.subrange(0, 2));
    assert(p.subrange(40, 44) =~= framing.subrange(2, 6));
    assert(p.subrange(44, 108) =~= framing.subrange(6, 70));
    assert(p.subrange(113, 115) =~= framing.subrange(75, 77));
    assert(p.subrange(115, 117) =~= dmp.subrange(0, 2));
    assert(p[108] == framing[70]);
    assert(p[111] == framing[73]);
    assert(p[125] == dmp[10]);
}

proof fn lemma_be16_value(v: int)
    requires
        0 <= v < 65536,
    ensures
        be16(v)[0] as int * 256 + be16(v)[1] as int == v,
{
    assert(0 <= v / 256 < 256);
    assert(0 <= v % 256 < 256);
}

/// The root layer of a packet whose length field counts from `total`.
spec fn root_layer(cid: Seq<u8>, total: int) -> Seq<u8> {
    seq![0x00u8, 0x10, 0x00, 0x00] + acn_packet_id() + flags_len(total - 16) + seq![
        0x00u8,
        0x00,
        0x00,
        0x04,
    ] + cid
}

/// The framing layer of a packet whose length field counts from `total`.
spec fn framing_layer(seq: u8, universe: u16, total: int) -> Seq<u8> {
    flags_len(total - 38) + seq![0x00u8, 0x00, 0x00, 0x02] + source_name() + seq![
        100u8,
        0x00,
        0x00,
        seq,
        0x00,
    ] + be16(universe as int)
}

/// The DMP layer, up to and including the start code.
spec fn dmp_layer(dmx_len: int, total: int) -> Seq<u8> {
    flags_len(total - 115) + seq![0x02u8, 0xa1, 0x00, 0x00, 0x00, 0x01] + be16(
        property_count(dmx_len),
    ) + seq![0x00u8]
}

proof fn lemma_e131_split(cid: Seq<u8>, seq: u8, universe: u16, dmx: Seq<u8>)
    requires
        cid.len() == 16,
    ensures
        ({
            let p = e131_packet(cid, seq, universe, dmx);
            let total = 125 + property_count(dmx.len() as int);
            let root = root_layer(cid, total);
            let framing = framing_layer(seq, universe, total);
            let dmp = dmp_layer(dmx.len() as int, total);
            &&& root.len() == 38
            &&& framing.len() == 77
            &&& dmp.len() == 11
            &&& p.len() == 126 + dmx.len()
            &&& forall|i: int| 0 <= i < 38 ==> #[trigger] p[i] == root[i]
            &&& forall|i: int| 38 <= i < 115 ==> #[trigger] p[i] == framing[i - 38]
            &&& forall|i: int| 115 <= i < 126 ==> #[trigger] p[i] == dmp[i - 115]
        }),
{
    let p = e131_packet(cid, seq, universe, dmx);
    let total = 125 + property_count(dmx.len() as int);
    let root = root_layer(cid, total);
    let framing = framing_layer(seq, universe, total);
    let dmp = dmp_layer(dmx.len() as int, total);
    assert(p =~= root + framing + dmp + dmx);
}

/// Fixed header fields of every E1.31 data packet: preamble size 0x0010 and
/// postamble size 0, the "ASC-E1.17" identifier, root vector 4, the CID,
/// framing vector 2, and the source name "ledbetter", NUL-padded to 64 bytes.
pub proof fn e131_header_fields(cid: Seq<u8>, seq: u8, universe: u16, dmx: Seq<u8>)
    requires
        cid.len() == 16,
    ensures
        ({
            let p = e131_packet(cid, seq, universe, dmx);
            &&& p.len() == 126 + dmx.len()
            &&& p[0] == 0x00 && p[1] == 0x10 && p[2] == 0x00 && p[3] == 0x00
            &&& p[4] == 0x41 && p[5] == 0x53 && p[6] == 0x43 && p[7] == 0x2d
            &&& p[8] == 0x45 && p[9] == 0x31 && p[10] == 0x2e && p[11] == 0x31
            &&& p[12] == 0x37 && p[13] == 0x00 && p[14] == 0x00 && p[15] == 0x00
            &&& p[18] == 0x00 && p[19] == 0x00 && p[20] == 0x00 && p[21] == 0x04
            &&& forall|i: int| 0 <= i < 16 ==> #[trigger] p[22 + i] == cid[i]
            &&& p[40] == 0x00 && p[41] == 0x00 && p[42] == 0x00 && p[43] == 0x02
            &&& p[44] == 0x6c && p[45] == 0x65 && p[46] == 0x64 && p[47] == 0x62
            &&& p[48] == 0x65 && p[49] == 0x74 && p[50] == 0x74 && p[51] == 0x65
            &&& p[52] == 0x72
            &&& forall|i: int| 53 <= i < 108 ==> #[trigger] p[i] == 0
        }),
{
    lemma_e131_split(cid, seq, universe, dmx);
    let p = e131_packet(cid, seq, universe, dmx);
    let total = 125 + property_count(dmx.len() as int);
    let root = root_layer(cid, total);
    let framing = framing_layer(seq, universe, total);
    assert forall|i: int| 0 <= i < 16 implies #[trigger] p[22 + i] == cid[i] by {
        assert(p[22 + i] == root[22 + i]);
    }
    assert forall|i: int| 53 <= i < 108 implies #[trigger] p[i] == 0 by {
        assert(p[i] == framing[i - 38]);
    }
    assert(p[0] == root[0] && p[1] == root[1] && p[2] == root[2] && p[3] == root[3]);
    assert(p[4] == root[4] && p[5] == root[5] && p[6] == root[6] && p[7] == root[7]);
    assert(p[8] == root[8] && p[9] == root[9] && p[10] == root[10] && p[11] == root[11]);
    assert(p[12] == root[12] && p[13] == root[13] && p[14] == root[14] && p[15] == root[15]);
    assert(p[18] == root[18] && p[19] == root[19] && p[20] == root[20] && p[21] == root[21]);
    assert(p[40] == framing[2] && p[41] == framing[3] && p[42] == framing[4] && p[43]
        == framing[5]);
    assert(p[44] == framing[6] && p[45] == framing[7] && p[46] == framing[8] && p[47]
        == framing[9]);
    assert(p[48] == framing[10] && p[49] == framing[11] && p[50] == framing[12] && p[51]
        == framing[13] && p[52] == framing[14]);
}

/// Per-packet fields of every E1.31 data packet: priority 100, sync address
/// 0, the sequence number, options 0 (no preview, not terminated), the
/// universe big-endian, DMP vector 2, address and data type 0xa1, first
/// property address 0, increment 1, the property value count (start code plus
/// slots) big-endian, start code 0, and then exactly the slots.
pub proof fn e131_frame_fields(cid: Seq<u8>, seq: u8, universe: u16, dmx: Seq<u8>)
    requires
        cid.len() == 16,
    ensures
        ({
            let p = e131_packet(cid, seq, universe, dmx);
            &&& p[108] == 100
            &&& p[109] == 0 && p[110] == 0
            &&& p[111] == seq
            &&& p[112] == 0
            &&& p[113] as int * 256 + p[114] as int == universe as int
            &&& p[117] == 0x02 && p[118] == 0xa1 && p[119] == 0x00 && p[120] == 0x00
            &&& p[121] == 0x00 && p[122] == 0x01
            &&& p[123] as int * 256 + p[124] as int == (dmx.len() + 1) % 65536
            &&& p[125] == 0
            &&& forall|i: int| 0 <= i < dmx.len() ==> #[trigger] p[126 + i] == dmx[i]
        }),
{
    lemma_e131_split(cid, seq, universe, dmx);
    let p = e131_packet(cid, seq, universe, dmx);
    let total = 125 + property_count(dmx.len() as int);
    let framing = framing_layer(seq, universe, total);
    let dmp = dmp_layer(dmx.len() as int, total);
    e131_layout(cid, seq, universe, dmx);
    assert forall|i: int| 0 <= i < dmx.len() implies #[trigger] p[126 + i] == dmx[i] by {
        assert(p.subrange(126, p.len() as int)[i] == p[126 + i]);
    }
    assert(p[108] == framing[70] && p[109] == framing[71] && p[110] == framing[72]);
    assert(p[111] == framing[73] && p[112] == framing[74]);
    assert(p[113] == framing[75] && p[114] == framing[76]);
    lemma_be16_value(universe as int);
    assert(p[117] == dmp[2] && p[118] == dmp[3] && p[119] == dmp[4] && p[120] == dmp[5]);
    assert(p[121] == dmp[6] && p[122] == dmp[7] && p[123] == dmp[8] && p[124] == dmp[9]);
    assert(p[125] == dmp[10]);
    lemma_be16_value(property_count(dmx.len() as int));
}

/// While a packet stays under 4096 bytes, each of its three PDU length fields
/// holds flag bits 0x7 over the number of bytes from the start of its PDU
/// (offsets 16, 38 and 115) to the end of the packet.
pub proof fn e131_pdu_lengths(cid: Seq<u8>, seq: u8, universe: u16, dmx: Seq<u8>)
    requires
        cid.len() == 16,
        e131_packet(cid, seq, universe, dmx).len() < 4096,
    ensures
        ({
            let p = e131_packet(cid, seq, universe, dmx);
            &&& p[16] as int * 256 + p[17] as int == 0x7000 + p.len() - 16
            &&& p[38] as int * 256 + p[39] as int == 0x7000 + p.len() - 38
            &&& p[115] as int * 256 + p[116] as int == 0x7000 + p.len() - 115
        }),
{
    lemma_e131_split(cid, seq, universe, dmx);
    let p = e131_packet(cid, seq, universe, dmx);
    let total = 125 + property_count(dmx.len() as int);
    let root = root_layer(cid, total);
    let framing = framing_layer(seq, universe, total);
    let dmp = dmp_layer(dmx.len() as int, total);
    assert(total == p.len());
    assert(p[16] == root[16] && p[17] == root[17]);
    assert(p[38] == framing[0] && p[39] == framing[1]);
    assert(p[115] == dmp[0] && p[116] == dmp[1]);
    lemma_be16_value(0x7000 + (total - 16) % 4096);
    lemma_be16_value(0x7000 + (total - 38) % 4096);
    lemma_be16_value(0x7000 + (total - 115) % 4096);
}

/// The E1.31 multicast group of `universe`, 239.255.<hi>.<lo>, as four
/// octets, with the sACN port.
pub fn sacn_multicast_group(universe: u16) -> (r: ([u8; 4], u16))
    ensures
        r.0@ == seq![239u8, 255u8, (universe / 256) as u8, (universe % 256) as u8],
        r.1 == SACN_PORT,
{
    let octets: [u8; 4] = [239, 255, (universe / 256) as u8, (universe % 256) as u8];
    assert(octets@ =~= seq![239u8, 255u8, (universe / 256) as u8, (universe % 256) as u8]);
    (octets, SACN_PORT)
}

} // verus!
