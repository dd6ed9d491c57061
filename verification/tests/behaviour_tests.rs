use exifinf_rs::bebytes::set_be32;
use exifinf_rs::byteorder::{read_i16, read_i32, read_i64, read_u16, read_u32, read_u64, Endian};
use exifinf_rs::detect::detect;
use exifinf_rs::format::Format;
use exifinf_rs::gps::coordinate_parts;
use exifinf_rs::iso6709::parse_iso6709;
use exifinf_rs::metadata::Metadata;
use exifinf_rs::png_strip::keep_chunk;
use exifinf_rs::printconv::{record_text, RecordText};
use exifinf_rs::qt_strip::make_box;
use exifinf_rs::tiff::parse_exif_slice;
use exifinf_rs::value::Rational;
use exifinf_rs::{extract, read_box, strip_metadata, Error, StripOptions, TagRecord, Value};
use std::io::Write;

fn bx(t: &[u8; 4], body: &[u8]) -> Vec<u8> {
    let mut v = ((body.len() + 8) as u32).to_be_bytes().to_vec();
    v.extend_from_slice(t);
    v.extend_from_slice(body);
    v
}

fn png_chunk(t: &[u8; 4], data: &[u8]) -> Vec<u8> {
    let mut v = (data.len() as u32).to_be_bytes().to_vec();
    v.extend_from_slice(t);
    v.extend_from_slice(data);
    let mut c = flate2::Crc::new();
    c.update(t);
    c.update(data);
    v.extend_from_slice(&c.sum().to_be_bytes());
    v
}

fn png_with(extra: &[Vec<u8>]) -> Vec<u8> {
    let mut v = vec![0x89, b'P', b'N', b'G', b'\r', b'\n', 0x1a, b'\n'];
    let mut ihdr = Vec::new();
    ihdr.extend_from_slice(&640u32.to_be_bytes());
    ihdr.extend_from_slice(&480u32.to_be_bytes());
    ihdr.extend_from_slice(&[8, 2, 0, 0, 0]);
    v.extend_from_slice(&png_chunk(b"IHDR", &ihdr));
    for c in extra {
        v.extend_from_slice(c);
    }
    v.extend_from_slice(&png_chunk(b"IDAT", &[1, 2, 3]));
    v.extend_from_slice(&png_chunk(b"IEND", &[]));
    v
}

fn zlib(data: &[u8]) -> Vec<u8> {
    let mut e = flate2::write::ZlibEncoder::new(Vec::new(), flate2::Compression::default());
    e.write_all(data).unwrap();
    e.finish().unwrap()
}

fn tiff_with_entry(tag: u16, typ: u16, count: u32, value: [u8; 4]) -> Vec<u8> {
    let mut v = Vec::new();
    v.extend_from_slice(b"II");
    v.extend_from_slice(&42u16.to_le_bytes());
    v.extend_from_slice(&8u32.to_le_bytes());
    v.extend_from_slice(&1u16.to_le_bytes());
    v.extend_from_slice(&tag.to_le_bytes());
    v.extend_from_slice(&typ.to_le_bytes());
    v.extend_from_slice(&count.to_le_bytes());
    v.extend_from_slice(&value);
    v.extend_from_slice(&0u32.to_le_bytes());
    v
}

fn jpeg_with_exif_and_sof() -> Vec<u8> {
    let tiff = tiff_with_entry(0x010f, 2, 4, *b"Cam\0");
    let mut j = vec![0xff, 0xd8];
    j.extend_from_slice(&[0xff, 0xe1]);
    j.extend_from_slice(&((2 + 6 + tiff.len()) as u16).to_be_bytes());
    j.extend_from_slice(b"Exif\0\0");
    j.extend_from_slice(&tiff);
    j.extend_from_slice(&[0xff, 0xfe, 0, 5, b'h', b'i', b'!']);
    j.extend_from_slice(&[0xff, 0xc0, 0, 11, 8, 0, 20, 0, 30, 3, 1, 0x11, 0]);
    j.extend_from_slice(&[0xff, 0xda, 0, 8, 0, 0, 0, 0, 0, 0x3f, 0xff, 0xd9]);
    j
}

fn find<'a>(m: &'a Metadata, group: &str, name: &str) -> Option<&'a Value> {
    m.tags.iter().find(|t| t.group == group && t.name == name).map(|t| &t.value)
}

#[test]
fn jpeg_strip_keeps_frame_and_drops_metadata() {
    let j = jpeg_with_exif_and_sof();
    let before = extract(&j).unwrap();
    assert_eq!(find(&before, "IFD0", "Make"), Some(&Value::Ascii("Cam".into())));
    let s = strip_metadata(&j, &StripOptions::default()).unwrap();
    assert!(s.len() <= j.len());
    assert_eq!(&s[0..2], &[0xff, 0xd8]);
    let after = extract(&s).unwrap();
    assert_eq!(find(&after, "IFD0", "Make"), None);
    assert_eq!(find(&after, "File", "ImageWidth"), Some(&Value::U32(30)));
    assert_eq!(find(&after, "File", "ImageHeight"), Some(&Value::U32(20)));
}

#[test]
fn jpeg_sof_tags() {
    let m = extract(&jpeg_with_exif_and_sof()).unwrap();
    assert_eq!(find(&m, "File", "BitsPerSample"), Some(&Value::U8(8)));
    assert_eq!(find(&m, "File", "ColorComponents"), Some(&Value::U8(3)));
}

#[test]
fn png_strip_keeps_header_and_drops_text() {
    let p = png_with(&[png_chunk(b"tEXt", b"Software\0tool"), png_chunk(b"gAMA", &[0, 0, 0xb1, 0x8f])]);
    let before = extract(&p).unwrap();
    assert_eq!(find(&before, "PNG", "Software"), Some(&Value::Utf8("tool".into())));
    let s = strip_metadata(&p, &StripOptions::default()).unwrap();
    assert!(s.len() < p.len());
    let after = extract(&s).unwrap();
    assert_eq!(find(&after, "PNG", "Software"), None);
    assert_eq!(find(&after, "PNG", "ImageWidth"), Some(&Value::U32(640)));
    assert_eq!(find(&after, "PNG", "ImageHeight"), Some(&Value::U32(480)));
    assert!(!s.windows(4).any(|w| w == b"gAMA"));
    let keep = StripOptions { keep_color_info: true, ..StripOptions::default() };
    let s2 = strip_metadata(&p, &keep).unwrap();
    assert!(s2.windows(4).any(|w| w == b"gAMA"));
}

#[test]
fn png_ihdr_tags() {
    let m = extract(&png_with(&[])).unwrap();
    assert_eq!(find(&m, "PNG", "BitsPerSample"), Some(&Value::U8(8)));
    assert_eq!(find(&m, "PNG", "ColorType"), Some(&Value::U8(2)));
}

#[test]
fn keep_chunk_classes_for_every_option() {
    for &(icc, color, jfif) in &[(false, false, false), (true, true, true), (true, false, true)] {
        let o = StripOptions { keep_icc: icc, keep_color_info: color, keep_jfif: jfif, overwrite_original: false };
        for t in [b"IHDR", b"PLTE", b"IDAT", b"IEND"] {
            assert!(keep_chunk(*t, &o));
        }
        for t in [b"eXIf", b"tEXt", b"zTXt", b"iTXt", b"tIME", b"pHYs"] {
            assert!(!keep_chunk(*t, &o));
        }
        assert_eq!(keep_chunk(*b"iCCP", &o), icc);
        assert_eq!(keep_chunk(*b"gAMA", &o), color);
    }
    assert!(keep_chunk(*b"ABCD", &StripOptions::default()));
    assert!(!keep_chunk(*b"abcd", &StripOptions::default()));
    assert!(!keep_chunk(*b"XmPa", &StripOptions::default()));
}

#[test]
fn made_box_reads_back() {
    let b = make_box(*b"free", vec![1, 2, 3]).unwrap();
    let (end, r) = read_box(&b, 0).unwrap().unwrap();
    assert_eq!(end, 11);
    assert_eq!(r.kind, *b"free");
    assert_eq!(r.body, &[1, 2, 3]);
}

#[test]
fn read_box_errors() {
    let mut v = 4u32.to_be_bytes().to_vec();
    v.extend_from_slice(b"free");
    assert!(matches!(read_box(&v, 0), Err(Error::BadQt)));
    let mut w = 100u32.to_be_bytes().to_vec();
    w.extend_from_slice(b"free");
    assert!(matches!(read_box(&w, 0), Err(Error::Truncated)));
    assert!(matches!(read_box(&w[0..7], 0), Ok(None)));
    let mut z = 0u32.to_be_bytes().to_vec();
    z.extend_from_slice(b"mdat");
    z.extend_from_slice(b"rest");
    let (end, b) = read_box(&z, 0).unwrap().unwrap();
    assert_eq!(end, 12);
    assert_eq!(b.body, b"rest");
}

#[test]
fn written_field_reads_back() {
    let mut d = vec![9u8; 10];
    set_be32(&mut d, 3, 0xdead_beef);
    assert_eq!(read_u32(&d, 3, Endian::Big).unwrap(), 0xdead_beef);
    assert_eq!(d[2], 9);
    assert_eq!(d[7], 9);
}

#[test]
fn signed_reads_are_casts() {
    let d = [0xff, 0xfe];
    assert_eq!(read_u16(&d, 0, Endian::Big).unwrap(), 0xfffe);
    assert_eq!(read_i16(&d, 0, Endian::Big).unwrap(), -2);
    assert_eq!(read_u16(&d, 0, Endian::Little).unwrap(), 0xfeff);
    assert!(matches!(read_u16(&d, 1, Endian::Big), Err(Error::Truncated)));
}

#[test]
fn formats_read_back_from_numbers() {
    let all = [
        Format::Int8u, Format::String, Format::Int16u, Format::Int32u, Format::Rational64u,
        Format::Int8s, Format::Undef, Format::Int16s, Format::Int32s, Format::Rational64s,
        Format::Float, Format::Double, Format::Ifd, Format::Unicode, Format::Complex,
        Format::Int64u, Format::Int64s, Format::Ifd64, Format::Utf8,
    ];
    let mut found = 0;
    for n in 0u16..=200 {
        if let Some(f) = Format::from_u16(n) {
            assert!(all.contains(&f));
            found += 1;
        }
    }
    assert_eq!(found, all.len());
    assert_eq!(Format::from_u16(5).unwrap().size(), 8);
    assert_eq!(Format::from_u16(129), Some(Format::Utf8));
    assert_eq!(Format::from_u16(19), None);
}

#[test]
fn tiff_strip_is_unsupported() {
    let t = tiff_with_entry(0x0112, 3, 1, [1, 0, 0, 0]);
    assert!(matches!(strip_metadata(&t, &StripOptions::default()), Err(Error::Unsupported("TIFF strip"))));
}

#[test]
fn tiff_short_and_rational() {
    let t = tiff_with_entry(0x0112, 3, 1, [6, 0, 0, 0]);
    let m = extract(&t).unwrap();
    assert_eq!(find(&m, "IFD0", "Orientation"), Some(&Value::U16(6)));
    let rec = m.tags.iter().find(|r| r.name == "Orientation").unwrap();
    match record_text(rec, &m.tags) {
        RecordText::Text(s) => assert_eq!(s, "Rotate 90 CW"),
        _ => panic!("expected a print conversion"),
    }
}

#[test]
fn tiff_unknown_tag_is_named_by_number() {
    let t = tiff_with_entry(0xabcd, 3, 1, [7, 0, 0, 0]);
    let m = extract(&t).unwrap();
    assert_eq!(find(&m, "IFD0", "Tag 0xabcd"), Some(&Value::U16(7)));
}

#[test]
fn error_variants() {
    assert!(matches!(detect(&[0, 1, 2]), Err(Error::BadMagic)));
    let mut m = Metadata::default();
    assert!(matches!(parse_exif_slice(&mut m, b"II*\0"), Err(Error::BadTiff)));
    assert!(matches!(parse_exif_slice(&mut m, &tiff_with_entry(0x0112, 0, 1, [0; 4])), Err(Error::UnknownFormat)));
    assert!(matches!(exifinf_rs::png::parse(&mut m, &[0u8; 8]), Err(Error::BadPng)));
    assert!(matches!(exifinf_rs::jpeg::parse(&mut m, &[0xff, 0xd8, 0, 0]), Err(Error::BadJpeg)));
    assert!(matches!(exifinf_rs::jpeg::parse(&mut m, &[0xff, 0xd8, 0xff, 0xe1, 0]), Err(Error::Truncated)));
}

#[test]
fn ztxt_inflates_and_rejects_other_methods() {
    let mut z = b"Comment\0\0".to_vec();
    z.extend_from_slice(&zlib(b"hello"));
    let m = extract(&png_with(&[png_chunk(b"zTXt", &z)])).unwrap();
    assert_eq!(find(&m, "PNG", "Comment"), Some(&Value::Utf8("hello".into())));
    let bad = png_with(&[png_chunk(b"zTXt", b"Comment\0\x01abc")]);
    assert!(matches!(extract(&bad), Err(Error::Unsupported("zTXt compression"))));
    let garbage = png_with(&[png_chunk(b"zTXt", b"Comment\0\0not zlib")]);
    assert!(matches!(extract(&garbage), Err(Error::Decompress(_))));
}

#[test]
fn itxt_and_invalid_utf8() {
    let mut i = b"Title\0\x01\0en\0Titel\0".to_vec();
    i.extend_from_slice(&zlib("caf\u{e9}".as_bytes()));
    let m = extract(&png_with(&[png_chunk(b"iTXt", &i)])).unwrap();
    assert_eq!(find(&m, "PNG", "Title"), Some(&Value::Utf8("caf\u{e9}".into())));
    let t = extract(&png_with(&[png_chunk(b"tEXt", b"\xffkey\0v")])).unwrap();
    assert_eq!(find(&t, "PNG", ""), Some(&Value::Utf8("v".into())));
    let u = extract(&png_with(&[png_chunk(b"iTXt", b"Author\0\0\0\0\0a\xffb")])).unwrap();
    assert_eq!(find(&u, "PNG", "Author"), Some(&Value::Utf8("a\u{fffd}b".into())));
}

#[test]
fn png_exif_chunk() {
    let t = tiff_with_entry(0x010f, 2, 4, *b"Cam\0");
    let m = extract(&png_with(&[png_chunk(b"eXIf", &t)])).unwrap();
    assert_eq!(find(&m, "IFD0", "Make"), Some(&Value::Ascii("Cam".into())));
}

fn mvhd_file(ctime: u32, ts: u32, dur: u32) -> Vec<u8> {
    let mut mvhd = vec![0u8; 100];
    mvhd[4..8].copy_from_slice(&ctime.to_be_bytes());
    mvhd[12..16].copy_from_slice(&ts.to_be_bytes());
    mvhd[16..20].copy_from_slice(&dur.to_be_bytes());
    let mut f = bx(b"ftyp", b"qt  \0\0\0\0qt  ");
    f.extend_from_slice(&bx(b"moov", &bx(b"mvhd", &mvhd)));
    f
}

#[test]
fn movie_header_tags() {
    let m = extract(&mvhd_file(2_082_844_800, 600, 3000)).unwrap();
    assert_eq!(find(&m, "QuickTime", "TimeScale"), Some(&Value::U32(600)));
    assert_eq!(find(&m, "QuickTime", "Duration"), Some(&Value::Quotient { num: 3000, scale: 1, den: 600 }));
    assert_eq!(find(&m, "QuickTime", "CreateDate"), Some(&Value::Utf8("1970:01:01 00:00:00".into())));
    assert_eq!(find(&m, "File", "FileType"), Some(&Value::Utf8("MOV".into())));
    assert_eq!(find(&m, "File", "MIMEType"), Some(&Value::Utf8("video/quicktime".into())));
    assert_eq!(find(&m, "File", "MajorBrand"), Some(&Value::Utf8("qt".into())));
    assert_eq!(find(&m, "File", "CompatibleBrands"), Some(&Value::Utf8("qt".into())));
}

#[test]
fn calendar_dates() {
    let leap_day = 2_082_844_800u32 + 951_782_400 + 3_723;
    let m = extract(&mvhd_file(leap_day, 1, 1)).unwrap();
    assert_eq!(find(&m, "QuickTime", "CreateDate"), Some(&Value::Utf8("2000:02:29 01:02:03".into())));
    let march = 2_082_844_800u32 + 59 * 86_400;
    let m2 = extract(&mvhd_file(march, 1, 1)).unwrap();
    assert_eq!(find(&m2, "QuickTime", "CreateDate"), Some(&Value::Utf8("1970:03:01 00:00:00".into())));
    let before_1970 = extract(&mvhd_file(1000, 1, 1)).unwrap();
    assert_eq!(find(&before_1970, "QuickTime", "CreateDate"), None);
}

#[test]
fn track_dimensions_rate_and_codec() {
    let mut tkhd = vec![0u8; 84];
    tkhd[76..80].copy_from_slice(&(640u32 << 16).to_be_bytes());
    tkhd[80..84].copy_from_slice(&((360u32 << 16) + 0x8000).to_be_bytes());
    let mut mdhd = vec![0u8; 24];
    mdhd[12..16].copy_from_slice(&30000u32.to_be_bytes());
    let mut hdlr = vec![0u8; 24];
    hdlr[12..16].copy_from_slice(b"vide");
    let mut stts = vec![0u8; 8];
    stts[4..8].copy_from_slice(&1u32.to_be_bytes());
    stts.extend_from_slice(&10u32.to_be_bytes());
    stts.extend_from_slice(&1001u32.to_be_bytes());
    let mut stsd = vec![0u8; 16];
    stsd[4..8].copy_from_slice(&1u32.to_be_bytes());
    stsd[12..16].copy_from_slice(b"avc1");
    let mut stbl = bx(b"stts", &stts);
    stbl.extend_from_slice(&bx(b"stsd", &stsd));
    let minf = bx(b"stbl", &stbl);
    let mut mdia = bx(b"mdhd", &mdhd);
    mdia.extend_from_slice(&bx(b"hdlr", &hdlr));
    mdia.extend_from_slice(&bx(b"minf", &minf));
    let mut trak = bx(b"tkhd", &tkhd);
    trak.extend_from_slice(&bx(b"mdia", &mdia));
    let mut f = bx(b"ftyp", b"isom\0\0\0\x01mp41");
    f.extend_from_slice(&bx(b"moov", &bx(b"trak", &trak)));
    let m = extract(&f).unwrap();
    assert_eq!(find(&m, "File", "ImageWidth"), Some(&Value::U32(640)));
    assert_eq!(find(&m, "File", "ImageHeight"), Some(&Value::U32(360)));
    assert_eq!(
        find(&m, "Track1", "VideoFrameRate"),
        Some(&Value::Quotient { num: 10, scale: 30000, den: 10010 })
    );
    assert_eq!(find(&m, "Track1", "VideoCodec"), Some(&Value::Utf8("avc1".into())));
    assert_eq!(find(&m, "File", "FileType"), Some(&Value::Utf8("MP4".into())));
    assert_eq!(find(&m, "File", "MinorVersion"), Some(&Value::U32(1)));
}

#[test]
fn udta_and_item_list_tags() {
    let mut nam = vec![0, 0, 0x15, 0xc7];
    nam.extend_from_slice(b"Clip");
    let mut xyz = vec![0, 0, 0, 0];
    xyz.extend_from_slice(b"+37.4221-122.0841/");
    let mut udta = bx(&[0xa9, b'n', b'a', b'm'], &nam);
    udta.extend_from_slice(&bx(&[0xa9, b'x', b'y', b'z'], &xyz));
    let mut data = vec![0, 0, 0, 0, 0, 0, 0, 0, 1, 0, 0, 0];
    data.extend_from_slice(b" Maker ");
    let ilst = bx(&[0xa9, b'm', b'a', b'k'], &bx(b"data", &data));
    let mut meta = vec![0, 0, 0, 0];
    meta.extend_from_slice(&bx(b"ilst", &ilst));
    udta.extend_from_slice(&bx(b"meta", &meta));
    let mut f = bx(b"ftyp", b"qt  \0\0\0\0");
    f.extend_from_slice(&bx(b"moov", &bx(b"udta", &udta)));
    let m = extract(&f).unwrap();
    assert_eq!(find(&m, "QuickTime", "Title"), Some(&Value::Utf8("Clip".into())));
    assert_eq!(
        find(&m, "QuickTime", "GPSCoordinates"),
        Some(&Value::Coordinates("+37.4221".into(), "-122.0841".into()))
    );
    assert_eq!(find(&m, "QuickTime", "GPSLatitude"), Some(&Value::Decimal("+37.4221".into())));
    assert_eq!(find(&m, "QuickTime", "GPSAltitude"), None);
    assert_eq!(find(&m, "IFD0", "Make"), Some(&Value::Utf8("Maker".into())));
}

#[test]
fn apple_keys_item_list() {
    let mut keys = vec![0, 0, 0, 0, 0, 0, 0, 1];
    let key = b"com.apple.quicktime.model";
    keys.push(key.len() as u8);
    keys.extend_from_slice(key);
    let mut data = vec![0, 0, 0, 0, 0, 0, 0, 0, 21, 0, 0, 0];
    data.extend_from_slice(&(-5i32).to_be_bytes());
    let ilst = bx(&1u32.to_be_bytes(), &bx(b"data", &data));
    let mut meta = vec![0, 0, 0, 0];
    meta.extend_from_slice(&bx(b"keys", &keys));
    meta.extend_from_slice(&bx(b"ilst", &ilst));
    let mut f = bx(b"ftyp", b"qt  \0\0\0\0");
    f.extend_from_slice(&bx(b"moov", &bx(b"meta", &meta)));
    let m = extract(&f).unwrap();
    assert_eq!(find(&m, "IFD0", "Model"), Some(&Value::Utf8("-5".into())));
}

#[test]
fn heif_extent_and_embedded_exif() {
    let mut ispe = vec![0, 0, 0, 0];
    ispe.extend_from_slice(&4032u32.to_be_bytes());
    ispe.extend_from_slice(&3024u32.to_be_bytes());
    let iprp = bx(b"ipco", &bx(b"ispe", &ispe));
    let mut meta = vec![0, 0, 0, 0];
    meta.extend_from_slice(&bx(b"iprp", &iprp));
    let mut f = bx(b"ftyp", b"heic\0\0\0\0mif1heic");
    f.extend_from_slice(&bx(b"meta", &meta));
    f.extend_from_slice(&bx(b"mdat", &tiff_with_entry(0x0110, 2, 4, *b"Phn\0")));
    let m = extract(&f).unwrap();
    assert_eq!(find(&m, "File", "ImageWidth"), Some(&Value::U32(4032)));
    assert_eq!(find(&m, "File", "ImageHeight"), Some(&Value::U32(3024)));
    assert_eq!(find(&m, "IFD0", "Model"), Some(&Value::Ascii("Phn".into())));
    assert_eq!(find(&m, "File", "FileType"), Some(&Value::Utf8("HEIC".into())));
    assert_eq!(find(&m, "File", "CompatibleBrands"), Some(&Value::Utf8("mif1, heic".into())));
}

#[test]
fn qt_strip_moves_chunk_offsets_with_mdat() {
    let mut stco = vec![0, 0, 0, 0, 0, 0, 0, 1];
    stco.extend_from_slice(&0u32.to_be_bytes());
    let trak = bx(b"trak", &bx(b"mdia", &bx(b"minf", &bx(b"stbl", &bx(b"stco", &stco)))));
    let udta = bx(b"udta", &bx(&[0xa9, b'n', b'a', b'm'], b"\0\0\x15\xc7Clip"));
    let build = |first: u32| {
        let mut st = stco.clone();
        st[8..12].copy_from_slice(&first.to_be_bytes());
        let trak = bx(b"trak", &bx(b"mdia", &bx(b"minf", &bx(b"stbl", &bx(b"stco", &st)))));
        let mut moov = udta.clone();
        moov.extend_from_slice(&trak);
        let mut f = bx(b"ftyp", b"isom\0\0\0\0");
        f.extend_from_slice(&bx(b"moov", &moov));
        f.extend_from_slice(&bx(b"mdat", b"samples"));
        f
    };
    let probe = build(0);
    let mdat_payload = probe.len() - 7;
    let f = build(mdat_payload as u32);
    let s = strip_metadata(&f, &StripOptions::default()).unwrap();
    assert_eq!(s.len(), f.len() - udta.len());
    let new_payload = s.len() - 7;
    assert_eq!(&s[new_payload..], b"samples");
    let at = s.windows(4).position(|w| w == b"stco").unwrap() + 12;
    assert_eq!(read_u32(&s, at, Endian::Big).unwrap() as usize, new_payload);
    assert!(!s.windows(4).any(|w| w == b"udta"));
    assert_eq!(trak.len(), 8 + 8 + 8 + 8 + 8 + 12);
    let tight = build(3);
    assert!(matches!(strip_metadata(&tight, &StripOptions::default()), Err(Error::OffsetOverflow)));
}

#[test]
fn heif_strip_never_grows_when_children_nest() {
    let mut xmp = vec![0xBE, 0x7A, 0xCF, 0xCB, 0x97, 0xA9, 0x42, 0xE8, 0x9C, 0x71, 0x99, 0x94, 0x91, 0xE3, 0xAF, 0xAC];
    xmp.extend_from_slice(b"<x/>");
    let colr = bx(b"colr", b"nclx");
    let ispe = bx(b"ispe", &[0, 0, 0, 0, 0, 0, 0, 4, 0, 0, 0, 3]);
    let mut ipco_body = colr.clone();
    ipco_body.extend_from_slice(&ispe);
    let iprp = bx(b"iprp", &bx(b"ipco", &ipco_body));
    let mut meta_body = vec![0, 0, 0, 0];
    meta_body.extend_from_slice(&bx(b"uuid", &xmp));
    meta_body.extend_from_slice(&iprp);
    let mut f = bx(b"ftyp", b"heic\0\0\0\0");
    f.extend_from_slice(&bx(b"meta", &meta_body));
    let s = strip_metadata(&f, &StripOptions::default()).unwrap();
    assert_eq!(s.len(), f.len() - (8 + xmp.len()) - colr.len());
    assert!(s.windows(4).any(|w| w == b"ispe"));
    assert!(!s.windows(4).any(|w| w == b"colr"));
    let keep = StripOptions { keep_icc: true, ..StripOptions::default() };
    let s2 = strip_metadata(&f, &keep).unwrap();
    assert_eq!(s2.len(), f.len() - (8 + xmp.len()));
}

#[test]
fn heif_child_reaching_past_its_meta_is_copied_whole() {
    let mut f = bx(b"ftyp", b"heic\0\0\0\0");
    // `meta` of 20 bytes whose only child claims 24 bytes, running into the next box
    f.extend_from_slice(&[0, 0, 0, 20]);
    f.extend_from_slice(b"meta");
    f.extend_from_slice(&[0, 0, 0, 0]);
    f.extend_from_slice(&[0, 0, 0, 24]);
    f.extend_from_slice(b"abcd");
    f.extend_from_slice(&bx(b"efgh", b"12345678"));
    assert_eq!(f.len(), 52);
    let s = strip_metadata(&f, &StripOptions::default()).unwrap();
    assert_eq!(s.len(), 68);
}

#[test]
fn heif_item_base_offset_moves_with_mdat() {
    // iloc v0: offset_size 0, length_size 4, base_offset_size 4, one item, one extent
    let build = |base: u32| {
        let mut iloc = vec![0, 0, 0, 0, 0x04, 0x40, 0, 1, 0, 1, 0, 0];
        iloc.extend_from_slice(&base.to_be_bytes());
        iloc.extend_from_slice(&[0, 1, 0, 0, 0, 5]);
        let mut meta_body = vec![0, 0, 0, 0];
        meta_body.extend_from_slice(&bx(b"iloc", &iloc));
        let mut xmp = vec![0xBE, 0x7A, 0xCF, 0xCB, 0x97, 0xA9, 0x42, 0xE8, 0x9C, 0x71, 0x99, 0x94, 0x91, 0xE3, 0xAF, 0xAC];
        xmp.extend_from_slice(&[b' '; 26]);
        let mut f = bx(b"ftyp", b"heic\0\0\0\0");
        f.extend_from_slice(&bx(b"meta", &meta_body));
        f.extend_from_slice(&bx(b"uuid", &xmp));
        f.extend_from_slice(&bx(b"mdat", b"image"));
        f
    };
    let probe = build(0);
    let payload = (probe.len() - 5) as u32;
    let f = build(payload);
    let s = strip_metadata(&f, &StripOptions::default()).unwrap();
    assert_eq!(s.len(), f.len() - 50);
    let at = s.windows(4).position(|w| w == b"iloc").unwrap() + 4 + 12;
    let new_base = read_u32(&s, at, Endian::Big).unwrap();
    assert_eq!(new_base, payload - 50);
    assert_eq!(&s[new_base as usize..new_base as usize + 5], b"image");
}

#[test]
fn stripping_twice_changes_nothing() {
    let j = jpeg_with_exif_and_sof();
    let o = StripOptions::default();
    let s = strip_metadata(&j, &o).unwrap();
    assert_eq!(strip_metadata(&s, &o).unwrap(), s);
    let p = png_with(&[png_chunk(b"tEXt", b"Software\0tool"), png_chunk(b"gAMA", &[0, 0, 0xb1, 0x8f])]);
    for keep in [false, true] {
        let o = StripOptions { keep_color_info: keep, ..StripOptions::default() };
        let s = strip_metadata(&p, &o).unwrap();
        assert_eq!(strip_metadata(&s, &o).unwrap(), s);
    }
}

#[test]
fn more_keep_options_keep_more() {
    let p = png_with(&[png_chunk(b"tEXt", b"Software\0tool"), png_chunk(b"gAMA", &[0, 0, 0xb1, 0x8f])]);
    let a = strip_metadata(&p, &StripOptions::default()).unwrap();
    let b = strip_metadata(&p, &StripOptions { keep_color_info: true, ..StripOptions::default() }).unwrap();
    assert_eq!(b.len(), a.len() + 16);
    let gama = png_chunk(b"gAMA", &[0, 0, 0xb1, 0x8f]);
    let at = b.windows(4).position(|w| w == b"gAMA").unwrap() - 4;
    let mut without = b[..at].to_vec();
    without.extend_from_slice(&b[at + gama.len()..]);
    assert_eq!(without, a);
}

#[test]
fn encoded_integers_read_back() {
    let a = [7u8, 8, 9];
    let z = [1u8, 2];
    let x: u32 = 0xdead_beef;
    let mut v = a.to_vec();
    v.extend_from_slice(&x.to_be_bytes());
    v.extend_from_slice(&z);
    assert_eq!(read_u32(&v, a.len(), Endian::Big).unwrap(), x);
    let mut w = a.to_vec();
    w.extend_from_slice(&x.to_le_bytes());
    w.extend_from_slice(&z);
    assert_eq!(read_u32(&w, a.len(), Endian::Little).unwrap(), x);
    let y: u64 = 0x0123_4567_89ab_cdef;
    let mut u = a.to_vec();
    u.extend_from_slice(&y.to_le_bytes());
    assert_eq!(read_u64(&u, a.len(), Endian::Little).unwrap(), y);
    assert_eq!(read_i32(&[0x80, 0, 0, 0], 0, Endian::Big).unwrap(), i32::MIN);
    assert_eq!(read_i64(&[0xff; 8], 0, Endian::Little).unwrap(), -1);
    assert!(matches!(read_i32(&[0x80, 0, 0], 0, Endian::Big), Err(Error::Truncated)));
}

#[test]
fn qt_stripping_twice_changes_nothing() {
    let mut stco = vec![0, 0, 0, 0, 0, 0, 0, 1];
    stco.extend_from_slice(&7u32.to_be_bytes());
    let trak = bx(b"trak", &bx(b"mdia", &bx(b"minf", &bx(b"stbl", &bx(b"stco", &stco)))));
    let mut moov = bx(b"udta", &bx(&[0xa9, b'n', b'a', b'm'], b"\0\0\x15\xc7Clip"));
    moov.extend_from_slice(&trak);
    let mut f = bx(b"ftyp", b"isom\0\0\0\0");
    f.extend_from_slice(&bx(b"mdat", b"samples"));
    f.extend_from_slice(&bx(b"moov", &moov));
    let o = StripOptions::default();
    let s = strip_metadata(&f, &o).unwrap();
    assert!(s.len() < f.len());
    assert_eq!(strip_metadata(&s, &o).unwrap(), s);
}

#[test]
fn heif_child_with_size_zero_grows_on_each_strip() {
    let mut f = bx(b"ftyp", b"heic\0\0\0\0");
    // `ipco` of 20 bytes whose only child has size field 0, so it runs to the end of the file
    let mut child = vec![0, 0, 0, 0];
    child.extend_from_slice(b"abcd");
    child.extend_from_slice(b"wxyz");
    let ipco = bx(b"ipco", &child);
    let iprp = bx(b"iprp", &ipco);
    let mut meta_body = vec![0, 0, 0, 0];
    meta_body.extend_from_slice(&iprp);
    meta_body.extend_from_slice(&bx(b"iinf", b"1234"));
    f.extend_from_slice(&bx(b"meta", &meta_body));
    assert_eq!(f.len(), 68);
    let o = StripOptions::default();
    let s1 = strip_metadata(&f, &o).unwrap();
    assert_eq!(s1.len(), 80);
    let s2 = strip_metadata(&s1, &o).unwrap();
    assert_eq!(s2.len(), 92);
}

#[test]
fn iso6709_points() {
    let (a, b, c) = parse_iso6709("  +12.5-045.25/ ").unwrap();
    assert_eq!((a.as_str(), b.as_str(), c), ("+12.5", "-045.25", None));
    assert!(parse_iso6709("+1.2.3-4").is_none());
    assert!(parse_iso6709("+1-2x").is_none());
    assert!(parse_iso6709("").is_none());
    assert!(parse_iso6709("+12").is_none());
}

#[test]
fn gps_coordinates_and_references() {
    let v = Value::Rationals(vec![
        Rational { num: 40, den: 1 },
        Rational { num: 30, den: 1 },
        Rational { num: 36, den: 1 },
    ]);
    let (d, _, s, neg) = coordinate_parts(&v, Some(" s")).unwrap();
    assert_eq!((d.num, s.num, neg), (40, 36, true));
    assert!(!coordinate_parts(&v, Some("N")).unwrap().3);
    let zero = Value::Rationals(vec![Rational { num: 1, den: 0 }; 3]);
    assert!(coordinate_parts(&zero, None).is_none());
    let lat_ref = TagRecord { group: "GPS".into(), name: "GPSLatitudeRef".into(), tag_id: Some(1), value: Value::Ascii("S".into()) };
    let lat = TagRecord { group: "GPS".into(), name: "GPSLatitude".into(), tag_id: Some(2), value: v };
    let all = vec![lat_ref.clone(), lat.clone()];
    match record_text(&lat_ref, &all) {
        RecordText::Text(t) => assert_eq!(t, "South"),
        _ => panic!("expected South"),
    }
    match record_text(&lat, &all) {
        RecordText::Coordinate(_, _, _, neg) => assert!(neg),
        _ => panic!("expected a coordinate"),
    }
}

#[test]
fn value_texts() {
    assert_eq!(Value::I16s(vec![-1, 2]).text().unwrap(), "-1 2");
    assert_eq!(Value::Undef(vec![0; 5]).text().unwrap(), "(5 bytes)");
    assert_eq!(Value::Rationals(vec![Rational { num: 1, den: 2 }, Rational { num: 3, den: 0 }]).text().unwrap(), "1/2 3/0");
    assert_eq!(Value::SRational(exifinf_rs::value::SRational { num: -1, den: 3 }).text().unwrap(), "-1/3");
    assert_eq!(Value::U64(u64::MAX).text().unwrap(), "18446744073709551615");
    assert!(Value::F64(0).text().is_none());
}

#[test]
fn error_messages() {
    assert_eq!(Error::BadPng.message(), "invalid PNG structure");
    assert_eq!(Error::Decompress("x".into()).message(), "decompression failed: x");
    assert_eq!(Error::Unsupported("TIFF strip").message(), "unsupported: TIFF strip");
    let io = Error::Io(std::io::Error::new(std::io::ErrorKind::Other, "boom"));
    assert_eq!(io.message(), "boom");
}
