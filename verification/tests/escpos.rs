use thermal_printer::escpos::{fit_to_print_width, threshold, Bitmap, LumaImage, Packet, PRINT_WIDTH};

#[test]
fn text_receipt_bytes() {
    let bytes = Packet::new().initialize().text("Hi\n").feed(4).cut().into_bytes();
    assert_eq!(
        bytes,
        vec![0x1B, 0x40, b'H', b'i', b'\n', 0x1B, 0x64, 4, 0x1D, 0x56, 0x41, 0x00]
    );
}

#[test]
fn text_is_utf8() {
    let bytes = Packet::new().text("é").into_bytes();
    assert_eq!(bytes, vec![0xC3, 0xA9]);
}

#[test]
fn empty_packet() {
    assert!(Packet::new().into_bytes().is_empty());
}

#[test]
fn raster_packs_msb_first() {
    let mut black = vec![false; 20];
    black[0] = true; // (0, 0)
    black[9] = true; // (9, 0)
    black[11] = true; // (1, 1)
    let bm = Bitmap { width: 10, height: 2, black };
    let bytes = Packet::new().image(&bm).into_bytes();
    assert_eq!(
        bytes,
        vec![0x1D, 0x76, 0x30, 0x00, 2, 0, 2, 0, 0x80, 0x40, 0x40, 0x00]
    );
}

#[test]
fn raster_header_two_byte_height() {
    let bm = Bitmap { width: 8, height: 300, black: vec![true; 8 * 300] };
    let bytes = Packet::new().image(&bm).into_bytes();
    assert_eq!(&bytes[..8], &[0x1D, 0x76, 0x30, 0x00, 1, 0, 44, 1]);
    assert_eq!(bytes.len(), 8 + 300);
    assert!(bytes[8..].iter().all(|b| *b == 0xFF));
}

#[test]
fn threshold_at_128() {
    let img = LumaImage { width: 4, height: 1, pixels: vec![0, 127, 128, 255] };
    let bm = threshold(&img);
    assert_eq!((bm.width, bm.height), (4, 1));
    assert_eq!(bm.black, vec![true, true, false, false]);
}

#[test]
fn fit_keeps_narrow_images() {
    let img = LumaImage { width: 3, height: 2, pixels: vec![1, 2, 3, 4, 5, 6] };
    let out = fit_to_print_width(img, 99);
    assert_eq!((out.width, out.height), (3, 2));
    assert_eq!(out.pixels, vec![1, 2, 3, 4, 5, 6]);
}

#[test]
fn fit_scales_wide_images_down() {
    let img = LumaImage { width: 1152, height: 4, pixels: vec![0; 1152 * 4] };
    let out = fit_to_print_width(img, 2);
    assert_eq!((out.width, out.height), (PRINT_WIDTH, 2));
    assert_eq!(out.pixels.len(), 576 * 2);
    assert!(out.pixels.iter().all(|p| *p == 0));
}
