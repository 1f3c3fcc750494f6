//! Compound-file tests over synthesized containers: stream round trips,
//! lenient recovery of a truncated FAT, the cycle guard, and a full
//! Outlook message with attachments.

use kreuzberg::cfb::{parse, CfbError, CfbMode};
use kreuzberg::extractor::{extract_bytes, ExtractionConfig, FormatMetadata};

const END_OF_CHAIN: u32 = 0xFFFF_FFFE;
const FREE_SECT: u32 = 0xFFFF_FFFF;
const FAT_SECT: u32 = 0xFFFF_FFFD;
const NO_STREAM: u32 = 0xFFFF_FFFF;

fn push_u16(v: &mut Vec<u8>, x: u16) {
    v.push((x & 0xFF) as u8);
    v.push((x >> 8) as u8);
}

fn push_u32(v: &mut Vec<u8>, x: u32) {
    push_u16(v, (x & 0xFFFF) as u16);
    push_u16(v, (x >> 16) as u16);
}

fn push_u64(v: &mut Vec<u8>, x: u64) {
    push_u32(v, (x & 0xFFFF_FFFF) as u32);
    push_u32(v, (x >> 32) as u32);
}

fn utf16le(s: &str) -> Vec<u8> {
    let mut out = Vec::new();
    for u in s.encode_utf16() {
        push_u16(&mut out, u);
    }
    out
}

/// The 512-byte header: version 3 sectors, all tables as given.
fn header(num_fat: u32, first_dir: u32, difat: &[u32]) -> Vec<u8> {
    let mut h = Vec::new();
    h.extend_from_slice(&[0xD0, 0xCF, 0x11, 0xE0, 0xA1, 0xB1, 0x1A, 0xE1]);
    while h.len() < 30 {
        h.push(0);
    }
    push_u16(&mut h, 9); // sector shift: 512-byte sectors
    push_u16(&mut h, 6); // mini shift: 64-byte mini sectors
    while h.len() < 44 {
        h.push(0);
    }
    push_u32(&mut h, num_fat);
    push_u32(&mut h, first_dir);
    push_u32(&mut h, 0); // transaction signature
    push_u32(&mut h, 0); // mini cutoff: every stream goes through the FAT
    push_u32(&mut h, END_OF_CHAIN); // first MiniFAT sector
    push_u32(&mut h, 0); // MiniFAT sector count
    push_u32(&mut h, END_OF_CHAIN); // first DIFAT sector
    push_u32(&mut h, 0); // DIFAT sector count
    for i in 0..109 {
        push_u32(&mut h, if i < difat.len() { difat[i] } else { FREE_SECT });
    }
    assert_eq!(h.len(), 512);
    h
}

/// One 128-byte directory record.
fn dir_entry(name: &str, typ: u8, left: u32, right: u32, child: u32, start: u32, size: u64) -> Vec<u8> {
    let mut e = Vec::new();
    let units = utf16le(name);
    assert!(units.len() <= 62);
    e.extend_from_slice(&units);
    while e.len() < 64 {
        e.push(0);
    }
    push_u16(&mut e, (units.len() + 2) as u16);
    e.push(typ);
    e.push(1); // color: black
    push_u32(&mut e, left);
    push_u32(&mut e, right);
    push_u32(&mut e, child);
    while e.len() < 116 {
        e.push(0);
    }
    push_u32(&mut e, start);
    push_u64(&mut e, size);
    assert_eq!(e.len(), 128);
    e
}

fn fat_sector(entries: &[u32]) -> Vec<u8> {
    let mut s = Vec::new();
    for i in 0..128 {
        push_u32(&mut s, if i < entries.len() { entries[i] } else { FREE_SECT });
    }
    s
}

fn pad_sector(v: &mut Vec<u8>) {
    while v.len() % 512 != 0 {
        v.push(0);
    }
}

/// A container with two streams, `a` and `b`, laid out contiguously.
fn two_stream_container(content_a: &[u8], content_b: &[u8]) -> Vec<u8> {
    assert!(content_a.len() <= 512);
    assert!(content_b.len() > 512 && content_b.len() <= 1024);
    let mut buf = header(1, 1, &[0]);
    // sector 0: the FAT
    buf.extend_from_slice(&fat_sector(&[FAT_SECT, END_OF_CHAIN, END_OF_CHAIN, 4, END_OF_CHAIN]));
    // sector 1: the directory
    buf.extend_from_slice(&dir_entry("Root Entry", 5, NO_STREAM, NO_STREAM, 1, END_OF_CHAIN, 0));
    buf.extend_from_slice(&dir_entry("a", 2, NO_STREAM, 2, NO_STREAM, 2, content_a.len() as u64));
    buf.extend_from_slice(&dir_entry("b", 2, NO_STREAM, NO_STREAM, NO_STREAM, 3, content_b.len() as u64));
    buf.extend_from_slice(&dir_entry("", 0, NO_STREAM, NO_STREAM, NO_STREAM, 0, 0));
    // sector 2: stream a
    buf.extend_from_slice(content_a);
    pad_sector(&mut buf);
    // sectors 3 and 4: stream b
    buf.extend_from_slice(content_b);
    pad_sector(&mut buf);
    assert_eq!(buf.len(), 512 * 6);
    buf
}

#[test]
fn cfb_stream_round_trip() {
    let content_a = b"Hello, compound file! This is stream a.";
    let mut content_b = Vec::new();
    for i in 0..600u32 {
        content_b.push((i % 251) as u8);
    }
    let buf = two_stream_container(content_a, &content_b);

    for mode in [CfbMode::Strict, CfbMode::Lenient] {
        let c = parse(&buf, mode).expect("synthesized container should parse");
        let children = c.children_of(0).expect("root children");
        assert_eq!(children, vec![1, 2]);
        let a = c.read_stream(1).expect("stream a");
        assert_eq!(a, content_a.to_vec());
        let b = c.read_stream(2).expect("stream b");
        assert_eq!(b, content_b);
    }
}

#[test]
fn cfb_lenient_recovers_truncated_fat() {
    let content_a = b"Survivor stream content.";
    let mut content_b = Vec::new();
    for i in 0..600u32 {
        content_b.push((i % 13) as u8);
    }
    let mut buf = two_stream_container(content_a, &content_b);
    // Declare a second FAT sector that lies beyond the end of the buffer.
    let mut h = header(2, 1, &[0, 6]);
    buf[..512].copy_from_slice(&h.drain(..).collect::<Vec<u8>>());

    let strict = parse(&buf, CfbMode::Strict);
    assert!(matches!(strict, Err(CfbError::TruncatedData)));

    let c = parse(&buf, CfbMode::Lenient).expect("lenient parse should recover");
    let a = c.read_stream(1).expect("stream a");
    assert_eq!(a, content_a.to_vec());
}

#[test]
fn cfb_chain_cycle_fails_not_hangs() {
    let content_a = b"Cycled stream.";
    let mut content_b = Vec::new();
    for _ in 0..600u32 {
        content_b.push(7);
    }
    let mut buf = two_stream_container(content_a, &content_b);
    // Point stream a's FAT entry back at its own sector: a self-loop.
    let fat2 = 512 + 2 * 4;
    buf[fat2..fat2 + 4].copy_from_slice(&2u32.to_le_bytes());

    for mode in [CfbMode::Strict, CfbMode::Lenient] {
        let c = parse(&buf, mode).expect("container itself parses");
        let r = c.read_stream(1);
        assert!(matches!(r, Err(CfbError::CorruptChain)));
    }
}

/// A full Outlook message: subject and body properties, three attachment
/// storages each naming a file, and a fixed-property stream carrying the
/// client-submit time.
fn msg_container() -> Vec<u8> {
    let subject = utf16le("Test Email");
    let body = utf16le("Body text here.");
    let names = ["a1.txt", "a2.txt", "a3.txt"];
    let props_tag: u32 = 0x0039_0040;
    let filetime: u64 = (11_644_473_600 + 42) * 10_000_000;

    let mut buf = header(1, 1, &[0]);
    // sector 0: FAT — dir chain 1->2->3, then one data sector per stream
    buf.extend_from_slice(&fat_sector(&[
        FAT_SECT,
        2,
        3,
        END_OF_CHAIN, // directory
        END_OF_CHAIN, // subject
        END_OF_CHAIN, // body
        END_OF_CHAIN, // filename 1
        END_OF_CHAIN, // filename 2
        END_OF_CHAIN, // filename 3
        END_OF_CHAIN, // properties
    ]));
    // sectors 1..=3: the directory, a right spine under the root
    buf.extend_from_slice(&dir_entry("Root Entry", 5, NO_STREAM, NO_STREAM, 1, END_OF_CHAIN, 0));
    buf.extend_from_slice(&dir_entry(
        "__substg1.0_0037001F",
        2,
        NO_STREAM,
        2,
        NO_STREAM,
        4,
        subject.len() as u64,
    ));
    buf.extend_from_slice(&dir_entry(
        "__substg1.0_1000001F",
        2,
        NO_STREAM,
        3,
        NO_STREAM,
        5,
        body.len() as u64,
    ));
    buf.extend_from_slice(&dir_entry("__attach_version1.0_#00000000", 1, NO_STREAM, 4, 6, 0, 0));
    buf.extend_from_slice(&dir_entry("__attach_version1.0_#00000001", 1, NO_STREAM, 5, 7, 0, 0));
    buf.extend_from_slice(&dir_entry("__attach_version1.0_#00000002", 1, NO_STREAM, 9, 8, 0, 0));
    for (i, name) in names.iter().enumerate() {
        let units = utf16le(name);
        buf.extend_from_slice(&dir_entry(
            "__substg1.0_3707001F",
            2,
            NO_STREAM,
            NO_STREAM,
            NO_STREAM,
            (6 + i) as u32,
            units.len() as u64,
        ));
    }
    buf.extend_from_slice(&dir_entry(
        "__properties_version1.0",
        2,
        NO_STREAM,
        NO_STREAM,
        NO_STREAM,
        9,
        48,
    ));
    buf.extend_from_slice(&dir_entry("", 0, NO_STREAM, NO_STREAM, NO_STREAM, 0, 0));
    buf.extend_from_slice(&dir_entry("", 0, NO_STREAM, NO_STREAM, NO_STREAM, 0, 0));
    assert_eq!(buf.len(), 512 * 5);
    // sector 4: subject
    buf.extend_from_slice(&subject);
    pad_sector(&mut buf);
    // sector 5: body
    buf.extend_from_slice(&body);
    pad_sector(&mut buf);
    // sectors 6..=8: attachment file names
    for name in names.iter() {
        buf.extend_from_slice(&utf16le(name));
        pad_sector(&mut buf);
    }
    // sector 9: the fixed-property stream: 32-byte header, one record
    let mut props = vec![0u8; 32];
    push_u32(&mut props, props_tag);
    push_u32(&mut props, 0);
    push_u64(&mut props, filetime);
    buf.extend_from_slice(&props);
    pad_sector(&mut buf);
    assert_eq!(buf.len(), 512 * 11);
    buf
}

#[test]
fn msg_with_attachments() {
    let config = ExtractionConfig::default();
    let data = msg_container();
    let result = extract_bytes(&data, "application/vnd.ms-outlook", &config)
        .expect("synthesized MSG should extract");

    assert_eq!(result.mime_type, "application/vnd.ms-outlook");
    assert_eq!(result.metadata.subject, Some("Test Email".to_string()));
    assert_eq!(result.metadata.created_at, Some("42".to_string()));

    let email_meta = match result.metadata.format.as_ref().expect("format") {
        FormatMetadata::Email(m) => m,
    };
    assert_eq!(email_meta.attachments.len(), 3);
    assert_eq!(email_meta.attachments[0].filename, "a1.txt");
    assert_eq!(email_meta.attachments[1].filename, "a2.txt");
    assert_eq!(email_meta.attachments[2].filename, "a3.txt");

    assert!(result.content.contains("Attachments:"));
    assert!(result.content.contains("- a1.txt"));
    assert!(result.content.contains("Subject: Test Email"));
    assert!(result.content.contains("Body text here."));
}

#[test]
fn msg_sniffed_without_declared_type() {
    // The compound-file magic alone routes the bytes to the message path.
    let config = ExtractionConfig::default();
    let data = msg_container();
    let result = extract_bytes(&data, "", &config).expect("sniffed MSG should extract");
    assert_eq!(result.mime_type, "application/vnd.ms-outlook");
    assert_eq!(result.metadata.subject, Some("Test Email".to_string()));
}

#[test]
fn cfb_fifteen_bytes_rejected_quickly() {
    let config = ExtractionConfig::default();
    let junk: Vec<u8> = (0u8..15).collect();
    let start = std::time::Instant::now();
    let result = extract_bytes(&junk, "application/vnd.ms-outlook", &config);
    assert!(result.is_err(), "garbage must not parse");
    assert!(start.elapsed().as_secs() < 1, "rejection must be quick");
    match result {
        Err(e) => assert_eq!(e.error_type_label(), "ParsingError"),
        Ok(_) => unreachable!(),
    }
}

/// A container whose only stream is small enough for the mini stream:
/// its bytes live in the root's mini stream and are reached through the
/// MiniFAT.
fn mini_stream_container(content: &[u8]) -> Vec<u8> {
    assert!(content.len() <= 128);
    // Header with a real mini cutoff so small streams use the MiniFAT.
    let mut buf = Vec::new();
    let mut h = header(1, 1, &[0]);
    // Rewrite the cutoff and MiniFAT fields: cutoff 4096, MiniFAT at
    // sector 2, one MiniFAT sector.
    h[56..60].copy_from_slice(&4096u32.to_le_bytes());
    h[60..64].copy_from_slice(&2u32.to_le_bytes());
    h[64..68].copy_from_slice(&1u32.to_le_bytes());
    buf.extend_from_slice(&h);
    // sector 0: FAT — dir, MiniFAT sector, mini-stream data sector
    buf.extend_from_slice(&fat_sector(&[FAT_SECT, END_OF_CHAIN, END_OF_CHAIN, END_OF_CHAIN]));
    // sector 1: directory; the root's stream is the mini stream itself
    buf.extend_from_slice(&dir_entry("Root Entry", 5, NO_STREAM, NO_STREAM, 1, 3, 512));
    buf.extend_from_slice(&dir_entry("small", 2, NO_STREAM, NO_STREAM, NO_STREAM, 0, content.len() as u64));
    buf.extend_from_slice(&dir_entry("", 0, NO_STREAM, NO_STREAM, NO_STREAM, 0, 0));
    buf.extend_from_slice(&dir_entry("", 0, NO_STREAM, NO_STREAM, NO_STREAM, 0, 0));
    // sector 2: the MiniFAT — the stream spans mini sectors 0 and 1
    buf.extend_from_slice(&fat_sector(&[1, END_OF_CHAIN]));
    // sector 3: the mini stream, holding the content at its start
    buf.extend_from_slice(content);
    pad_sector(&mut buf);
    assert_eq!(buf.len(), 512 * 5);
    buf
}

#[test]
fn cfb_mini_stream_round_trip() {
    let content: Vec<u8> = (0u8..100).collect();
    let buf = mini_stream_container(&content);
    let c = parse(&buf, CfbMode::Strict).expect("mini-stream container parses");
    let small = c.read_stream(1).expect("small stream via MiniFAT");
    assert_eq!(small, content);
}

#[test]
fn cfb_difat_chain_is_walked() {
    let content_a = b"Stream behind a DIFAT chain.";
    let mut content_b = Vec::new();
    for i in 0..600u32 {
        content_b.push((i % 17) as u8);
    }
    let mut buf = two_stream_container(content_a, &content_b);
    // Move the second half of the FAT behind a DIFAT sector: DIFAT names
    // FAT sectors 0 and 6, and the DIFAT chain lives in sector 5.
    let mut h = header(2, 1, &[0]);
    h[68..72].copy_from_slice(&5u32.to_le_bytes()); // first DIFAT sector
    h[72..76].copy_from_slice(&1u32.to_le_bytes()); // one DIFAT sector
    buf[..512].copy_from_slice(&h);
    // sector 5: the DIFAT sector — entry 0 names FAT sector 6, the final
    // slot ends the chain
    let mut difat = Vec::new();
    difat.extend_from_slice(&6u32.to_le_bytes());
    for _ in 1..127 {
        difat.extend_from_slice(&FREE_SECT.to_le_bytes());
    }
    difat.extend_from_slice(&END_OF_CHAIN.to_le_bytes());
    assert_eq!(difat.len(), 512);
    buf.extend_from_slice(&difat);
    // sector 6: the second FAT sector, all free
    buf.extend_from_slice(&fat_sector(&[]));
    assert_eq!(buf.len(), 512 * 8);

    let c = parse(&buf, CfbMode::Strict).expect("container with DIFAT chain parses");
    assert_eq!(c.fat.len(), 256);
    let a = c.read_stream(1).expect("stream a");
    assert_eq!(a, content_a.to_vec());
}

#[test]
fn cfb_duplicate_names_kept_in_order() {
    // Two sibling streams under the root share a name; both survive, in
    // traversal order, and each keeps its own contents.
    let content_a = b"first of the namesakes";
    let mut content_b = Vec::new();
    for i in 0..600u32 {
        content_b.push((i % 29) as u8);
    }
    let mut buf = two_stream_container(content_a, &content_b);
    // Rename entry 2 (named "b") to "a", the same name entry 1 has.
    let e2 = 512 * 2 + 2 * 128;
    buf[e2] = b'a';
    let c = parse(&buf, CfbMode::Strict).expect("container parses");
    let children = c.children_of(0).expect("root children");
    assert_eq!(children, vec![1, 2]);
    assert_eq!(c.entries[1].name, c.entries[2].name);
    assert_eq!(c.read_stream(1).expect("first"), content_a.to_vec());
    assert_eq!(c.read_stream(2).expect("second"), content_b);
}

#[test]
fn cfb_unsupported_sector_size() {
    let content_a = b"irrelevant";
    let mut content_b = Vec::new();
    for _ in 0..600u32 {
        content_b.push(1);
    }
    let mut buf = two_stream_container(content_a, &content_b);
    buf[30] = 13; // sector size exponent outside the supported range
    for mode in [CfbMode::Strict, CfbMode::Lenient] {
        assert!(matches!(parse(&buf, mode), Err(CfbError::UnsupportedSectorSize)));
    }
}

#[test]
fn cfb_invalid_signature() {
    assert!(matches!(parse(b"short", CfbMode::Strict), Err(CfbError::InvalidSignature)));
    let garbage = vec![0xABu8; 600];
    assert!(matches!(parse(&garbage, CfbMode::Lenient), Err(CfbError::InvalidSignature)));
}

#[test]
fn cfb_header_only_is_truncated() {
    // A good signature with nothing behind it: too short for a header.
    let mut buf = vec![0xD0u8, 0xCF, 0x11, 0xE0, 0xA1, 0xB1, 0x1A, 0xE1];
    buf.extend_from_slice(&[0u8; 100]);
    assert!(matches!(parse(&buf, CfbMode::Strict), Err(CfbError::TruncatedData)));
}
