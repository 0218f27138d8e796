//! Capture files.
use custos::bench::{packet_of, TestProfile};
use custos::packet_gen::TrafficProfile;
use custos::pcap::{generate_capture, write_capture_packet, ByteOrder, PcapWriter};

#[test]
fn file_header_in_both_byte_orders() {
    let mut little = PcapWriter::new(ByteOrder::Little);
    assert_eq!(
        little.take(),
        vec![
            0xd4, 0xc3, 0xb2, 0xa1, 2, 0, 4, 0, 0, 0, 0, 0, 0, 0, 0, 0, 0xff, 0xff, 0, 0, 1, 0, 0,
            0
        ]
    );
    let mut big = PcapWriter::new(ByteOrder::Big);
    assert_eq!(
        big.take(),
        vec![
            0xa1, 0xb2, 0xc3, 0xd4, 0, 2, 0, 4, 0, 0, 0, 0, 0, 0, 0, 0, 0, 0, 0xff, 0xff, 0, 0, 0,
            1
        ]
    );
}

#[test]
fn a_record_holds_time_length_and_bytes() {
    let mut writer = PcapWriter::new(ByteOrder::Little);
    writer.take();
    writer.write_packet(1, 500_000, &[9, 8, 7]);
    assert_eq!(
        writer.take(),
        vec![1, 0, 0, 0, 0x20, 0xa1, 0x07, 0, 3, 0, 0, 0, 3, 0, 0, 0, 9, 8, 7]
    );
    assert_eq!(writer.take(), Vec::<u8>::new());
}

#[test]
fn packets_of_a_capture_are_a_tenth_of_a_millisecond_apart() {
    let mut writer = PcapWriter::new(ByteOrder::Little);
    writer.take();
    write_capture_packet(&mut writer, TestProfile::Light, 12_345, 0);
    let bytes = writer.take();
    assert_eq!(&bytes[0..8], &[1, 0, 0, 0, 0x04, 0x94, 0x03, 0]);
    assert_eq!(&bytes[16..], &packet_of(TrafficProfile::ValidPacked)[..]);
}

#[test]
fn a_capture_holds_as_many_packets_as_asked_for() {
    let bytes = generate_capture(TestProfile::HeavyBurst, 300, ByteOrder::Little);
    let kinds = [
        packet_of(TrafficProfile::ValidPacked),
        packet_of(TrafficProfile::InvalidShapeValue),
        packet_of(TrafficProfile::RecursionLimitExceeded),
        packet_of(TrafficProfile::BadHttp2),
        packet_of(TrafficProfile::BadTcpChecksum),
    ];
    let mut at = 24;
    let mut count = 0;
    let mut seen = [0u32; 5];
    while at < bytes.len() {
        let len = u32::from_le_bytes([bytes[at + 8], bytes[at + 9], bytes[at + 10], bytes[at + 11]]);
        let packet = &bytes[at + 16..at + 16 + len as usize];
        let kind = kinds.iter().position(|k| &k[..] == packet).unwrap();
        seen[kind] += 1;
        at += 16 + len as usize;
        count += 1;
    }
    assert_eq!(count, 300);
    assert!(seen[0] > seen[1]);
    assert!(seen.iter().filter(|n| **n > 0).count() > 1);
}
