//! Reasons a layout string cannot be read.

use vstd::prelude::*;
use super::text::{chars_to_string, decimal_chars, push_decimal, push_text};

verus! {

/// Errors that can occur while decoding layout transfer strings.
#[derive(Debug)]
pub enum LayoutTransferError {
    /// The provided string was empty or contained only whitespace.
    EmptyPayload,
    /// The prefix segment was missing from the encoded snapshot.
    MissingPrefix,
    /// The encoded snapshot did not contain a version segment.
    MissingVersion,
    /// The encoded snapshot did not include grid dimensions.
    MissingDimensions,
    /// The encoded snapshot did not include the payload segment.
    MissingPayload,
    /// The encoded snapshot used an unexpected prefix segment.
    InvalidPrefix(String),
    /// The encoded snapshot used an unsupported version identifier.
    UnsupportedVersion(String),
    /// The grid dimensions could not be parsed from the encoded snapshot.
    InvalidDimensions(String),
    /// The base64 payload could not be decoded.
    InvalidEncoding(base64::DecodeError),
    /// The binary payload terminated before all fields were read.
    TruncatedBinaryPayload,
    /// The binary payload encoded a varint that exceeds the supported width.
    VarintOverflow,
    /// The binary payload referenced a tower kind that is not recognised.
    UnknownTowerKind(u8),
    /// Additional bytes remained after decoding the binary payload.
    TrailingBinaryData,
    /// The legacy JSON payload does not hold a layout.
    InvalidLegacyPayload,
}

/// The text of a `base64` decode error (its `Display` form). Nothing is
/// stated of the text.
#[verifier::external_body]
fn decode_error_text(error: &base64::DecodeError) -> String {
    error.to_string()
}

impl LayoutTransferError {
    /// The human-readable message describing the error. For an invalid
    /// encoding the message ends with the `base64` crate's own description.
    pub fn message(&self) -> (r: String)
        ensures
            match self {
                LayoutTransferError::EmptyPayload => r@ == "clipboard payload was empty"@,
                LayoutTransferError::MissingPrefix => r@ == "layout string is missing the prefix"@,
                LayoutTransferError::MissingVersion => r@ == "layout string is missing the version"@,
                LayoutTransferError::MissingDimensions => r@ == "layout string is missing the grid dimensions"@,
                LayoutTransferError::MissingPayload => r@ == "layout string is missing the payload"@,
                LayoutTransferError::InvalidPrefix(prefix) => r@ == "layout prefix '"@ + prefix@
                    + "' is not supported"@,
                LayoutTransferError::UnsupportedVersion(version) => r@ == "layout version '"@ + version@
                    + "' is not supported"@,
                LayoutTransferError::InvalidDimensions(dimensions) => r@ == "could not parse grid dimensions '"@
                    + dimensions@ + "'"@,
                LayoutTransferError::InvalidEncoding(_) => r@.len() >= "could not decode layout payload: "@.len()
                    && r@.subrange(0, "could not decode layout payload: "@.len() as int)
                    == "could not decode layout payload: "@,
                LayoutTransferError::TruncatedBinaryPayload => r@ == "binary layout payload terminated unexpectedly"@,
                LayoutTransferError::VarintOverflow => r@ == "binary layout payload used an oversized varint"@,
                LayoutTransferError::UnknownTowerKind(kind) => r@ == "binary layout payload referenced unknown tower kind "@
                    + decimal_chars(*kind as nat),
                LayoutTransferError::TrailingBinaryData => r@ == "binary layout payload contained trailing bytes"@,
                LayoutTransferError::InvalidLegacyPayload => r@ == "legacy layout payload is not a valid layout"@,
            },
    {
        let mut out: Vec<char> = Vec::new();
        match self {
            LayoutTransferError::EmptyPayload => push_text("clipboard payload was empty", &mut out),
            LayoutTransferError::MissingPrefix => push_text("layout string is missing the prefix", &mut out),
            LayoutTransferError::MissingVersion => push_text("layout string is missing the version", &mut out),
            LayoutTransferError::MissingDimensions => push_text("layout string is missing the grid dimensions", &mut out),
            LayoutTransferError::MissingPayload => push_text("layout string is missing the payload", &mut out),
            LayoutTransferError::InvalidPrefix(prefix) => {
                push_text("layout prefix '", &mut out);
                push_text(prefix.as_str(), &mut out);
                push_text("' is not supported", &mut out);
            },
            LayoutTransferError::UnsupportedVersion(version) => {
                push_text("layout version '", &mut out);
                push_text(version.as_str(), &mut out);
                push_text("' is not supported", &mut out);
            },
            LayoutTransferError::InvalidDimensions(dimensions) => {
                push_text("could not parse grid dimensions '", &mut out);
                push_text(dimensions.as_str(), &mut out);
                push_text("'", &mut out);
            },
            LayoutTransferError::InvalidEncoding(error) => {
                push_text("could not decode layout payload: ", &mut out);
                let detail = decode_error_text(error);
                let ghost head = out@;
                push_text(detail.as_str(), &mut out);
                assert(out@.subrange(0, head.len() as int) =~= head);
            },
            LayoutTransferError::TruncatedBinaryPayload => push_text(
                "binary layout payload terminated unexpectedly",
                &mut out,
            ),
            LayoutTransferError::VarintOverflow => push_text("binary layout payload used an oversized varint", &mut out),
            LayoutTransferError::UnknownTowerKind(kind) => {
                push_text("binary layout payload referenced unknown tower kind ", &mut out);
                push_decimal(*kind as u32, &mut out);
            },
            LayoutTransferError::TrailingBinaryData => push_text(
                "binary layout payload contained trailing bytes",
                &mut out,
            ),
            LayoutTransferError::InvalidLegacyPayload => push_text("legacy layout payload is not a valid layout", &mut out),
        }
        proof {
            assert(out@ =~= Seq::<char>::empty() + out@);
        }
        chars_to_string(out.as_slice())
    }
}

} // verus!
