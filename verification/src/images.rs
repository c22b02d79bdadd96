//! The image fetcher's verified part: the decision taken after each
//! transport event of the retry loop, and the decoding of a fetched body
//! into the chapter's image at its ordinal index. The network calls
//! themselves live outside the library; they hand events and bodies in as
//! plain values.

use vstd::prelude::*;

verus! {

/// Declares the image crate's bitmap type so that a decoded image can be
/// carried through the library; the library never looks inside it.
#[verifier::external_type_specification]
#[verifier::external_body]
pub struct ExDynamicImage(image::DynamicImage);

/// Relies on `image::load_from_memory`. Whether a byte string decodes, and
/// into what, may depend on decoder hooks registered process-wide, not on
/// the bytes alone, so nothing is promised of the outcome: the callers say
/// what holds whatever came back.
#[verifier::external_body]
fn load_image(bytes: &[u8]) -> (r: Option<image::DynamicImage>) {
    image::load_from_memory(bytes).ok()
}

/// One fetched and decoded page image, tagged with the ordinal index of the
/// reference it was fetched for. The bitmap itself is an opaque pixel
/// buffer.
pub struct DecodedImage {
    pub ordinal_index: usize,
    pub bitmap: image::DynamicImage,
}

/// Decode one fetched body into the image at `ordinal_index`; `None` when
/// the decoder yields no bitmap. Whatever the decoder returned, a returned
/// image carries the given ordinal index.
pub fn decode_body(ordinal_index: usize, body: &[u8]) -> (r: Option<DecodedImage>)
    ensures
        r matches Option::Some(img) ==> img.ordinal_index == ordinal_index,
{
    match load_image(body) {
        Some(bitmap) => Some(DecodedImage { ordinal_index, bitmap }),
        None => None,
    }
}

/// One transport event of the image fetcher's request loop.
#[derive(Debug)]
pub enum TransportEvent {
    /// The request could not be built or executed.
    Failed,
    /// A response arrived with this status code.
    Responded { status: u16 },
}

/// What the image fetcher does next after one transport event.
#[derive(Debug, PartialEq, Eq, Structural)]
pub enum FetchDirective {
    /// Transport-level failure: wait this many time units, then retry.
    Retry { delay_secs: u64 },
    /// Success status: read the full body and decode it.
    ReadBody,
    /// Non-success status: terminal for this image, no retry.
    Fail { status: u16 },
}

/// The fixed delay before a retried request, in time units.
pub const RETRY_DELAY_SECS: u64 = 2;

/// Lowest and first-above-highest success status codes.
pub const SUCCESS_LO: u16 = 200;

pub const SUCCESS_HI: u16 = 300;

/// Whether a status code counts as success. The page fetcher drops its whole
/// chapter on a non-success status; the image fetcher fails the one image.
pub fn status_is_success(status: u16) -> (r: bool)
    ensures
        r == (SUCCESS_LO <= status < SUCCESS_HI),
{
    SUCCESS_LO <= status && status < SUCCESS_HI
}

/// Decide the image fetcher's next step from one transport event: a
/// transport failure is retried after the fixed delay, a success status
/// proceeds to the body read, any other status is terminal for this image.
pub fn image_fetch_step(event: &TransportEvent) -> (d: FetchDirective)
    ensures
        *event is Failed ==> d == (FetchDirective::Retry { delay_secs: RETRY_DELAY_SECS }),
        *event matches TransportEvent::Responded { status } ==> d == (if SUCCESS_LO <= status
            < SUCCESS_HI {
            FetchDirective::ReadBody
        } else {
            FetchDirective::Fail { status }
        }),
{
    match event {
        TransportEvent::Failed => FetchDirective::Retry { delay_secs: RETRY_DELAY_SECS },
        TransportEvent::Responded { status } => {
            if status_is_success(*status) {
                FetchDirective::ReadBody
            } else {
                FetchDirective::Fail { status: *status }
            }
        },
    }
}

} // verus!
