use thermal_printer::escpos::{Bitmap, DitherMode};
use thermal_printer::upload::{
    build_escpos, decode_upload, dither_from_quality, FieldAction, PrintJob, PrintPayload,
    UploadError, UploadState,
};

#[test]
fn quality_names() {
    assert_eq!(dither_from_quality("normal"), DitherMode::Threshold);
    assert_eq!(dither_from_quality("high"), DitherMode::FloydSteinberg);
    assert_eq!(dither_from_quality("Normal"), DitherMode::FloydSteinberg);
}

#[test]
fn quality_after_file_applies() {
    // The upload form sends `file` before `quality`.
    let mut st = UploadState::new();
    assert_eq!(st.field_action(Some("file")), FieldAction::ReadFile);
    st.set_file(vec![1, 2, 3]);
    assert_eq!(st.field_action(Some("quality")), FieldAction::ReadQuality);
    st.set_quality("normal".to_string());
    match st.finish().unwrap() {
        PrintPayload::Image { data, dither } => {
            assert_eq!(data, vec![1, 2, 3]);
            assert_eq!(dither, DitherMode::Threshold);
        }
        _ => panic!("expected an image"),
    }
}

#[test]
fn last_quality_wins() {
    let mut st = UploadState::new();
    st.set_quality("normal".to_string());
    st.set_file(vec![4]);
    st.set_quality("high".to_string());
    match st.finish().unwrap() {
        PrintPayload::Image { dither, .. } => assert_eq!(dither, DitherMode::FloydSteinberg),
        _ => panic!("expected an image"),
    }
}

#[test]
fn text_payload_is_kept() {
    let mut st = UploadState::new();
    st.set_text("hi".to_string());
    match st.finish().unwrap() {
        PrintPayload::Text(t) => assert_eq!(t, "hi"),
        _ => panic!("expected text"),
    }
}

#[test]
fn default_quality_is_high() {
    let mut st = UploadState::new();
    st.set_file(vec![9]);
    match st.finish().unwrap() {
        PrintPayload::Image { dither, .. } => assert_eq!(dither, DitherMode::FloydSteinberg),
        _ => panic!("expected an image"),
    }
}

#[test]
fn second_payload_is_rejected() {
    let mut st = UploadState::new();
    assert_eq!(st.field_action(Some("text")), FieldAction::ReadText);
    st.set_text("hello".to_string());
    assert_eq!(st.field_action(Some("file")), FieldAction::Reject(UploadError::BothPayloads));
    assert_eq!(st.field_action(Some("text")), FieldAction::Reject(UploadError::BothPayloads));
    assert_eq!(st.field_action(Some("other")), FieldAction::Skip);
    assert_eq!(st.field_action(None), FieldAction::Skip);
    assert_eq!(
        UploadError::BothPayloads.message(),
        "Received both 'file' and 'text' fields — send one or the other"
    );
}

#[test]
fn no_payload_is_an_error() {
    let st = UploadState::new();
    let e = match st.finish() {
        Err(e) => e,
        Ok(_) => panic!("expected an error"),
    };
    assert_eq!(e, UploadError::NoPayload);
    assert_eq!(e.message(), "No payload: send either a 'file' field (image) or a 'text' field");
}

#[test]
fn text_job_bytes() {
    let bytes = build_escpos(PrintJob::Text("ok".to_string()));
    assert_eq!(bytes, vec![0x1B, 0x40, b'o', b'k', 0x1B, 0x64, 4, 0x1D, 0x56, 0x41, 0x00]);
}

#[test]
fn raster_job_bytes() {
    let bm = Bitmap { width: 1, height: 1, black: vec![true] };
    let bytes = build_escpos(PrintJob::Raster(bm));
    assert_eq!(
        bytes,
        vec![0x1B, 0x40, 0x1D, 0x76, 0x30, 0x00, 1, 0, 1, 0, 0x80, 0x1B, 0x64, 4, 0x1D, 0x56, 0x41, 0x00]
    );
}

#[test]
fn decodes_uploaded_png() {
    let img = image::GrayImage::from_raw(3, 2, vec![0, 50, 100, 150, 200, 250]).unwrap();
    let mut png = std::io::Cursor::new(Vec::new());
    img.write_to(&mut png, image::ImageFormat::Png).unwrap();
    let luma = decode_upload(png.get_ref()).unwrap();
    assert_eq!((luma.width, luma.height), (3, 2));
    assert_eq!(luma.pixels, vec![0, 50, 100, 150, 200, 250]);
}

#[test]
fn undecodable_upload() {
    let e = match decode_upload(b"not an image") {
        Err(e) => e,
        Ok(_) => panic!("expected an error"),
    };
    assert!(matches!(e, UploadError::Decode(_)));
    assert!(e.message().starts_with("Failed to decode image: "));
}
