use thermal_printer::datauri::{
    data_url_decode, image_source, load_image, source_is_decodable, ImageSource, LoadedImage,
};

#[test]
fn decodes_complete_groups() {
    assert_eq!(data_url_decode("SGVsbG8h"), b"Hello!".to_vec());
}

#[test]
fn padding_is_dropped_anywhere() {
    assert_eq!(data_url_decode("SGVs=bG8h=="), b"Hello!".to_vec());
}

#[test]
fn final_group_is_decoded() {
    assert_eq!(data_url_decode("TWE="), vec![0x4D, 0x61]);
    assert_eq!(data_url_decode("QQ=="), vec![0x41]);
    assert_eq!(data_url_decode("SGVsbG8hQQ"), b"Hello!A".to_vec());
    assert_eq!(data_url_decode("SGVsbG8"), b"Hello".to_vec());
    // A single leftover character carries no whole byte.
    assert_eq!(data_url_decode("TWFuQ"), b"Man".to_vec());
}

#[test]
fn base64_alphabet_edges() {
    // "+/" and digits: 0xFB 0xFF 0xBF from "+/+/"
    assert_eq!(data_url_decode("+/+/"), vec![0xFB, 0xFF, 0xBF]);
    assert_eq!(data_url_decode("AAAA"), vec![0, 0, 0]);
    assert_eq!(data_url_decode("////"), vec![0xFF, 0xFF, 0xFF]);
}

#[test]
fn data_uri_source() {
    assert_eq!(
        image_source("data:image/png;base64,SGVsbG8h"),
        ImageSource::Data(b"Hello!".to_vec())
    );
    assert_eq!(image_source("data:nocomma"), ImageSource::InvalidDataUri);
    assert_eq!(image_source("pics/cat.png"), ImageSource::File("pics/cat.png".to_string()));
    assert_eq!(image_source("Data:x,AAAA"), ImageSource::File("Data:x,AAAA".to_string()));
}

#[test]
fn decodability() {
    assert!(source_is_decodable("data:,AAAA"));
    assert!(source_is_decodable("photo.png"));
    assert!(!source_is_decodable("data:,AAé="));
    assert!(!source_is_decodable("data:,AAAAé"));
    assert!(source_is_decodable("data:,AAAA=="));
}

fn base64(bytes: &[u8]) -> String {
    const A: &[u8] = b"ABCDEFGHIJKLMNOPQRSTUVWXYZabcdefghijklmnopqrstuvwxyz0123456789+/";
    let mut out = String::new();
    for g in bytes.chunks(3) {
        let x = g[0];
        let y = if g.len() > 1 { g[1] } else { 0 };
        let z = if g.len() > 2 { g[2] } else { 0 };
        out.push(A[(x >> 2) as usize] as char);
        out.push(A[(((x & 3) << 4) | (y >> 4)) as usize] as char);
        if g.len() > 1 {
            out.push(A[(((y & 15) << 2) | (z >> 6)) as usize] as char);
        } else {
            out.push('=');
        }
        if g.len() > 2 {
            out.push(A[(z & 63) as usize] as char);
        } else {
            out.push('=');
        }
    }
    out
}

#[test]
fn base64_roundtrip_any_length() {
    let all: Vec<u8> = (0..=255u8).chain(0..=255u8).collect();
    for n in [0usize, 1, 2, 3, 4, 5, 509, 510, 511] {
        let bytes = all[..n].to_vec();
        assert_eq!(data_url_decode(&base64(&bytes)), bytes);
    }
    assert_eq!(base64(b"Ma"), "TWE=");
    assert_eq!(data_url_decode("TWFu"), b"Man".to_vec());
}

#[test]
fn loads_png_data_uri() {
    let img = image::RgbaImage::from_raw(2, 1, vec![255, 0, 0, 255, 0, 0, 255, 128]).unwrap();
    let mut png = std::io::Cursor::new(Vec::new());
    img.write_to(&mut png, image::ImageFormat::Png).unwrap();
    let bytes = png.into_inner();
    let uri = format!("data:image/png;base64,{}", base64(&bytes));
    match load_image(&uri) {
        LoadedImage::Pixels(p) => {
            assert_eq!((p.width, p.height), (2, 1));
            assert_eq!(p.pixels, vec![255, 0, 0, 255, 0, 0, 255, 128]);
        }
        _ => panic!("expected pixels"),
    }
    assert!(matches!(load_image("data:image/png;base64,AAAA"), LoadedImage::Failed));
    assert!(matches!(load_image("data:oops"), LoadedImage::Failed));
    match load_image("cat.png") {
        LoadedImage::File(p) => assert_eq!(p, "cat.png"),
        _ => panic!("expected a file"),
    }
}
