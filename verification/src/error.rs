use vstd::prelude::*;

verus! {

/// The ways a request of the API can fail.
#[derive(Clone, Copy, Debug, PartialEq, Eq, Structural)]
pub enum ApiError {
    /// The request carries no `good_id` string.
    EmptyUuid,
    /// The `good_id` string is not a UUID.
    InvalidUuid,
    /// No good with this identifier is where the request expects it.
    GoodNotFound(u128),
    /// Every bin is taken.
    FreeBinNotFound,
    /// The store refused a write (a key that already exists, an exhausted key space).
    Database,
    /// The identifier could not be encoded as a QR code.
    QrCodeGenerating,
    /// The QR code could not be written as a PNG image.
    ImageGenerating,
}

} // verus!
