//! The print server's request handling: the multipart upload as a state
//! machine over its fields, and the ESC/POS job built from it.
use vstd::prelude::*;
use crate::escpos::{
    cut_bytes, decode_luma, decoded_luma, feed_bytes, image_error_text, initialize_bytes, raster,
    raster_header, Bitmap, DitherMode, LumaImage, Packet,
};
use crate::text::str_eq;

verus! {

/// The image quality a form field names: `normal` is threshold dithering,
/// anything else Floyd–Steinberg.
pub open spec fn spec_dither_from_quality(quality: Seq<char>) -> DitherMode {
    if quality == "normal"@ {
        DitherMode::Threshold
    } else {
        DitherMode::FloydSteinberg
    }
}

/// The dithering for a `quality` form value.
pub fn dither_from_quality(quality: &str) -> (d: DitherMode)
    ensures
        d == spec_dither_from_quality(quality@),
{
    if str_eq(quality, "normal") {
        DitherMode::Threshold
    } else {
        DitherMode::FloydSteinberg
    }
}

/// What was uploaded to print.
pub enum PrintPayload {
    /// An encoded image and the dithering chosen for it.
    Image { data: Vec<u8>, dither: DitherMode },
    /// Plain text.
    Text(String),
}

/// Why an upload is refused.
#[derive(PartialEq, Eq, Debug)]
pub enum UploadError {
    /// A second `file` or `text` field came after the payload.
    BothPayloads,
    /// Neither a `file` nor a `text` field came.
    NoPayload,
    /// The image could not be decoded; the decoder's message.
    Decode(String),
}

impl UploadError {
    /// The message the server answers with.
    pub fn message(&self) -> (m: String)
        ensures
            m@ == match self {
                UploadError::BothPayloads => "Received both 'file' and 'text' fields — send one or the other"@,
                UploadError::NoPayload => "No payload: send either a 'file' field (image) or a 'text' field"@,
                UploadError::Decode(e) => "Failed to decode image: "@ + e@,
            },
    {
        match self {
            UploadError::BothPayloads => String::from_str(
                "Received both 'file' and 'text' fields — send one or the other",
            ),
            UploadError::NoPayload => String::from_str(
                "No payload: send either a 'file' field (image) or a 'text' field",
            ),
            UploadError::Decode(e) => {
                let mut m = String::from_str("Failed to decode image: ");
                m.append(e.as_str());
                m
            },
        }
    }
}

/// What to do with the next form field.
#[derive(PartialEq, Eq, Debug)]
pub enum FieldAction {
    /// Read it as text and keep it as the image quality.
    ReadQuality,
    /// Read its bytes as the image to print.
    ReadFile,
    /// Read it as the text to print.
    ReadText,
    /// Ignore it.
    Skip,
    /// Refuse the request: a payload was already received.
    Reject(UploadError),
}

/// The payload field received so far, kept as it came.
pub enum Received {
    /// The bytes of a `file` field.
    File(Vec<u8>),
    /// The value of a `text` field.
    Text(String),
}

/// The state of a multipart upload, field by field. The dithering of an image
/// is chosen when the upload finishes, from the last `quality` received,
/// whether that field came before or after the image.
pub struct UploadState {
    pub quality: String,
    pub payload: Option<Received>,
}

/// The field names of the upload form.
pub open spec fn field_action_for(has_payload: bool, name: Option<Seq<char>>) -> FieldAction {
    match name {
        Some(n) => if n == "quality"@ {
            FieldAction::ReadQuality
        } else if n == "file"@ {
            if has_payload {
                FieldAction::Reject(UploadError::BothPayloads)
            } else {
                FieldAction::ReadFile
            }
        } else if n == "text"@ {
            if has_payload {
                FieldAction::Reject(UploadError::BothPayloads)
            } else {
                FieldAction::ReadText
            }
        } else {
            FieldAction::Skip
        },
        None => FieldAction::Skip,
    }
}

/// One payload per request: once a payload is kept, every later `file` or
/// `text` field is refused, and no other field is read as a payload.
pub proof fn lemma_one_payload(name: Option<Seq<char>>)
    ensures
        field_action_for(true, name) != FieldAction::ReadFile,
        field_action_for(true, name) != FieldAction::ReadText,
        name == Some("file"@) ==> field_action_for(true, name) == FieldAction::Reject(UploadError::BothPayloads),
        name == Some("text"@) ==> field_action_for(true, name) == FieldAction::Reject(UploadError::BothPayloads),
{
    reveal_strlit("quality");
    reveal_strlit("file");
    reveal_strlit("text");
    assert("file"@.len() == 4 && "quality"@.len() == 7 && "text"@.len() == 4);
    assert("file"@ != "quality"@);
    assert("text"@ != "quality"@);
    assert("text"@ != "file"@) by {
        assert("text"@[0] != "file"@[0]);
    }
}

/// A `quality` field is always read as the quality, before or after the
/// payload; an unnamed field or one with another name never is.
pub proof fn lemma_quality_always_read(has_payload: bool, name: Option<Seq<char>>)
    ensures
        field_action_for(has_payload, Some("quality"@)) == FieldAction::ReadQuality,
        field_action_for(has_payload, name) == FieldAction::ReadQuality ==> name == Some("quality"@),
{
}

impl UploadState {
    /// A fresh upload: quality `high`, no payload.
    pub fn new() -> (s: Self)
        ensures
            s.quality@ == "high"@,
            s.payload is None,
    {
        UploadState { quality: String::from_str("high"), payload: None }
    }

    /// The action for a field named `name` (`None` for an unnamed field). A
    /// `file` or `text` field after the payload is refused.
    pub fn field_action(&self, name: Option<&str>) -> (a: FieldAction)
        ensures
            a == field_action_for(self.payload is Some, match name {
                Some(n) => Some(n@),
                None => None,
            }),
    {
        match name {
            Some(n) => if str_eq(n, "quality") {
                FieldAction::ReadQuality
            } else if str_eq(n, "file") {
                if self.payload.is_some() {
                    FieldAction::Reject(UploadError::BothPayloads)
                } else {
                    FieldAction::ReadFile
                }
            } else if str_eq(n, "text") {
                if self.payload.is_some() {
                    FieldAction::Reject(UploadError::BothPayloads)
                } else {
                    FieldAction::ReadText
                }
            } else {
                FieldAction::Skip
            },
            None => FieldAction::Skip,
        }
    }

    /// Keeps a `quality` value; the last one received applies to the image.
    pub fn set_quality(&mut self, quality: String)
        ensures
            final(self).quality@ == quality@,
            final(self).payload == old(self).payload,
    {
        self.quality = quality;
    }

    /// Keeps the bytes of the uploaded image.
    pub fn set_file(&mut self, data: Vec<u8>)
        requires
            old(self).payload is None,
        ensures
            final(self).quality == old(self).quality,
            final(self).payload matches Some(Received::File(d)) && d@ == data@,
    {
        self.payload = Some(Received::File(data));
    }

    /// Keeps the uploaded text.
    pub fn set_text(&mut self, text: String)
        requires
            old(self).payload is None,
        ensures
            final(self).quality == old(self).quality,
            final(self).payload matches Some(Received::Text(t)) && t@ == text@,
    {
        self.payload = Some(Received::Text(text));
    }

    /// The payload of the finished upload; refused when there is none. An
    /// image is dithered as the last `quality` received says.
    pub fn finish(self) -> (r: Result<PrintPayload, UploadError>)
        ensures
            self.payload is None ==> r == Err::<PrintPayload, UploadError>(UploadError::NoPayload),
            self.payload matches Some(Received::File(d)) ==> r matches Ok(PrintPayload::Image { data, dither })
                && data@ == d@ && dither == spec_dither_from_quality(self.quality@),
            self.payload matches Some(Received::Text(t)) ==> r matches Ok(PrintPayload::Text(u)) && u@ == t@,
    {
        match self.payload {
            Some(Received::File(data)) => {
                let dither = dither_from_quality(self.quality.as_str());
                Ok(PrintPayload::Image { data, dither })
            },
            Some(Received::Text(t)) => Ok(PrintPayload::Text(t)),
            None => Err(UploadError::NoPayload),
        }
    }
}

/// Decodes an uploaded image to grayscale; a decoding failure is
/// `UploadError::Decode` with the decoder's message.
pub fn decode_upload(data: &[u8]) -> (r: Result<LumaImage, UploadError>)
    ensures
        r is Ok <==> decoded_luma(data@) is Some,
        r matches Ok(img) ==> img.wf() && decoded_luma(data@) == Some((img.width, img.height, img.pixels@)),
        r matches Err(e) ==> e is Decode,
{
    match decode_luma(data) {
        Ok(img) => Ok(img),
        Err(e) => Err(UploadError::Decode(image_error_text(&e))),
    }
}

/// What is sent to the printer.
pub enum PrintJob {
    /// A dithered image.
    Raster(Bitmap),
    /// Plain text.
    Text(String),
}

/// The ESC/POS bytes of a job: reset, the image or text, four blank lines
/// and a partial cut.
pub fn build_escpos(job: PrintJob) -> (bytes: Vec<u8>)
    requires
        job matches PrintJob::Raster(bm) ==> bm.wf(),
    ensures
        bytes@ == initialize_bytes() + match job {
            PrintJob::Raster(bm) => raster_header(bm.width, bm.height) + raster(bm.black@, bm.width, bm.height),
            PrintJob::Text(t) => vstd::utf8::encode_utf8(t@),
        } + feed_bytes(4) + cut_bytes(),
{
    let packet = Packet::new().initialize();
    let packet = match job {
        PrintJob::Raster(bm) => packet.image(&bm),
        PrintJob::Text(text) => packet.text(text.as_str()),
    };
    packet.feed(4).cut().into_bytes()
}

} // verus!
