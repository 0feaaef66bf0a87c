use ledbetter::output::{e131, sacn_multicast_group, SACN_PORT};

#[test]
fn e131_layout_and_length() {
    let cid = [0xAB; 16];
    let dmx = [9u8; 512];
    let p = e131(&cid, 3, 0x0102, &dmx);
    assert_eq!(p.len(), 638);
    assert_eq!(&p[0..2], &[0x00, 0x10]); // preamble
    assert_eq!(&p[4..16], b"ASC-E1.17\0\0\0");
    assert_eq!(&p[22..38], &cid); // CID after root flags+vector
    assert_eq!(&p[40..44], &[0x00, 0x00, 0x00, 0x02]); // framing vector
    assert_eq!(&p[44..53], b"ledbetter"); // source name
    assert_eq!(p[111], 3); // sequence
    assert_eq!(&p[113..115], &[0x01, 0x02]); // universe
    assert_eq!(p[125], 0x00); // DMX start code
    assert_eq!(&p[126..], &dmx); // 512 channels
    // flags+length on the root PDU
    assert_eq!(&p[16..18], &(0x7000u16 | (638 - 16)).to_be_bytes());
}

#[test]
fn e131_pdu_lengths_and_counts() {
    let cid = [1u8; 16];
    let dmx = [7u8, 8, 9];
    let p = e131(&cid, 200, 7, &dmx);
    assert_eq!(p.len(), 129);
    assert_eq!(&p[16..18], &(0x7000u16 | (129 - 16)).to_be_bytes());
    assert_eq!(&p[38..40], &(0x7000u16 | (129 - 38)).to_be_bytes());
    assert_eq!(&p[115..117], &(0x7000u16 | (129 - 115)).to_be_bytes());
    assert_eq!(&p[18..22], &[0, 0, 0, 4]); // root vector
    assert!(p[53..108].iter().all(|b| *b == 0)); // name padding
    assert_eq!(p[108], 100); // priority
    assert_eq!(p[111], 200);
    assert_eq!(&p[113..115], &[0, 7]);
    assert_eq!(&p[117..125], &[0x02, 0xa1, 0, 0, 0, 1, 0, 4]); // 4 property values
    assert_eq!(&p[126..], &dmx);
}

#[test]
fn e131_with_no_slots() {
    let p = e131(&[0u8; 16], 0, 0, &[]);
    assert_eq!(p.len(), 126);
    assert_eq!(&p[123..125], &[0, 1]);
}

#[test]
fn sacn_multicast_address() {
    assert_eq!(sacn_multicast_group(1), ([239, 255, 0, 1], 5568));
    assert_eq!(sacn_multicast_group(0x0102), ([239, 255, 1, 2], SACN_PORT));
    assert_eq!(sacn_multicast_group(65535).0, [239, 255, 255, 255]);
}
