use exifinf_rs::png_strip::keep_chunk;
use exifinf_rs::qt_strip::make_box;
use exifinf_rs::{strip_metadata, StripOptions};

fn minimal_tiff() -> Vec<u8> {
    vec![b'I', b'I', 0x2a, 0, 8, 0, 0, 0, 0]
}

#[test]
fn strips_app1_preserves_sos() {
    let tiff = minimal_tiff();
    let mut j = vec![0xff, 0xd8];
    let pl = (2 + 6 + tiff.len()) as u16;
    j.push(0xff);
    j.push(0xe1);
    j.extend_from_slice(&pl.to_be_bytes());
    j.extend_from_slice(b"Exif\0\0");
    j.extend_from_slice(&tiff);
    j.extend_from_slice(&[0xff, 0xda, 0, 8, 0, 0, 0, 0, 0, 0x3f, 0xff, 0xd9]);
    let s = exifinf_rs::jpeg_strip::strip(&j, &StripOptions::default()).unwrap();
    assert!(!s.windows(2).any(|w| w == [0xff, 0xe1]));
    assert!(s.len() < j.len());
}

#[test]
fn keep_default_strips_ancillary_name() {
    assert!(!keep_chunk(*b"eXIf", &StripOptions::default()));
    assert!(keep_chunk(*b"IHDR", &StripOptions::default()));
}

#[test]
fn make_box_size() {
    let b = make_box(*b"ftyp", b"x".to_vec()).unwrap();
    assert_eq!(&b[0..4], &9u32.to_be_bytes());
    assert_eq!(&b[4..8], b"ftyp");
    assert_eq!(b[8], b'x');
}

#[test]
fn strip_keep_icc_keeps_app2() {
    // Synthetic: SOI + APP1 (Exif) + APP2 (ICC 1/1) + SOS + tail
    let tiff = {
        let v = vec![b'I', b'I', 0x2a, 0, 8, 0, 0, 0, 0];
        v
    };
    let mut j = vec![0xff, 0xd8];
    let pl1 = (2 + 6 + tiff.len()) as u16;
    j.extend_from_slice(&[0xff, 0xe1]);
    j.extend_from_slice(&pl1.to_be_bytes());
    j.extend_from_slice(b"Exif\0\0");
    j.extend_from_slice(&tiff);
    let icc_payload: Vec<u8> = b"ICC_PROFILE\0\x01\x01\x00"
        .iter()
        .copied()
        .chain(std::iter::repeat_n(0u8, 16))
        .collect();
    let pl2 = (2 + icc_payload.len()) as u16;
    j.extend_from_slice(&[0xff, 0xe2]);
    j.extend_from_slice(&pl2.to_be_bytes());
    j.extend_from_slice(&icc_payload);
    j.extend_from_slice(&[0xff, 0xda, 0, 8, 0, 0, 0, 0, 0, 0x3f, 0xff, 0xd9]);
    let def = strip_metadata(&j, &StripOptions::default()).expect("strip");
    assert!(!def.windows(2).any(|w| w == [0xff, 0xe1]));
    let keep = strip_metadata(
        &j,
        &StripOptions {
            keep_icc: true,
            keep_color_info: false,
            keep_jfif: false,
            overwrite_original: false,
        },
    )
    .expect("strip");
    assert!(keep.windows(2).any(|w| w == [0xff, 0xe2]));
}
