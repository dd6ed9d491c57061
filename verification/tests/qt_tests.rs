use exifinf_rs::qt::parse;
use exifinf_rs::{read_box, Metadata};

/// `mdat` with 64-bit size header (size = 1, extended size = 16 + 8 payload).
#[test]
fn read_box_64bit_size() {
    let mut v = vec![0x00, 0x00, 0x00, 0x01];
    v.extend_from_slice(b"mdat");
    v.extend_from_slice(&24u64.to_be_bytes());
    v.extend_from_slice(b"12345678");
    let r = read_box(&v, 0).expect("read");
    let (end, b) = r.unwrap();
    assert_eq!(end, v.len());
    assert_eq!(b.kind, *b"mdat");
    assert_eq!(b.body, b"12345678");
}

#[test]
fn minimal_ftyp_moov_mvhd_yields_duration() {
    let mut m = Metadata::default();
    let mut buf: Vec<u8> = vec![];
    // 8 (size+type) + 12 (major + minor + one compatible brand) = 20. Size must
    // match bytes written, or the `moov` would overlap the declared `ftyp` span.
    buf.extend_from_slice(&20u32.to_be_bytes());
    buf.extend_from_slice(b"ftyp");
    buf.extend_from_slice(b"isom");
    buf.extend_from_slice(&0u32.to_be_bytes());
    buf.extend_from_slice(b"mp41");
    let moov_body_len = 108u32;
    buf.extend_from_slice(&(moov_body_len + 8).to_be_bytes());
    buf.extend_from_slice(b"moov");
    buf.extend_from_slice(&moov_body_len.to_be_bytes());
    buf.extend_from_slice(b"mvhd");
    let mut mvhd = vec![0u8; 100];
    mvhd[0] = 0;
    mvhd[12..16].copy_from_slice(&600u32.to_be_bytes());
    mvhd[16..20].copy_from_slice(&3000u32.to_be_bytes());
    buf.extend_from_slice(&mvhd);
    parse(&mut m, &buf).expect("parse");
    assert!(m.tags.iter().any(|t| t.name == "Duration" && t.group == "QuickTime"));
    assert!(m.tags.iter().any(|t| t.name == "FileType" && t.group == "File"));
}
