//! What can go wrong while decoding or encoding a packet.

use vstd::prelude::*;

use crate::callsign::{Callsign, CallsignView};
use crate::extensions::Extension;
use crate::lonlat::{Latitude, Longitude};

verus! {

/// Why a sequence of bytes is no APRS packet, or no part of one.
///
/// Most variants carry the bytes that were refused.
#[derive(Debug, PartialEq, Eq, Clone)]
pub enum DecodeError {
    InvalidCallsign(Vec<u8>),
    InvalidVia(Vec<u8>),
    InvalidTimestamp(Vec<u8>),
    UnsupportedPositionFormat(Vec<u8>),
    InvalidPosition(Vec<u8>),
    InvalidLatitude(Vec<u8>),
    InvalidLongitude(Vec<u8>),
    InvalidPacket(Vec<u8>),
    InvalidMessageDestination(Vec<u8>),
    InvalidMessageId(Vec<u8>),
    InvalidCs([u8; 2]),
    InvalidMicEDestination(Callsign),
    InvalidMicEInformation(Vec<u8>),
    InvalidObjectName(Vec<u8>),
    InvalidObjectLiveness(char),
    InvalidItemName(Vec<u8>),
    InvalidItemLiveness(char),
    InvalidExtension(Vec<u8>),
    InvalidExtensionRange(Vec<u8>),
    InvalidExtensionDirectionSpeed(Vec<u8>),
    InvalidExtensionPhg(Vec<u8>),
    InvalidExtensionDfs(Vec<u8>),
    InvalidExtensionArea(Vec<u8>),
}

/// The mathematical value of a `DecodeError`.
pub enum DecodeErrorView {
    InvalidCallsign(Seq<u8>),
    InvalidVia(Seq<u8>),
    InvalidTimestamp(Seq<u8>),
    UnsupportedPositionFormat(Seq<u8>),
    InvalidPosition(Seq<u8>),
    InvalidLatitude(Seq<u8>),
    InvalidLongitude(Seq<u8>),
    InvalidPacket(Seq<u8>),
    InvalidMessageDestination(Seq<u8>),
    InvalidMessageId(Seq<u8>),
    InvalidCs(Seq<u8>),
    InvalidMicEDestination(CallsignView),
    InvalidMicEInformation(Seq<u8>),
    InvalidObjectName(Seq<u8>),
    InvalidObjectLiveness(char),
    InvalidItemName(Seq<u8>),
    InvalidItemLiveness(char),
    InvalidExtension(Seq<u8>),
    InvalidExtensionRange(Seq<u8>),
    InvalidExtensionDirectionSpeed(Seq<u8>),
    InvalidExtensionPhg(Seq<u8>),
    InvalidExtensionDfs(Seq<u8>),
    InvalidExtensionArea(Seq<u8>),
}

impl View for DecodeError {
    type V = DecodeErrorView;

    open spec fn view(&self) -> DecodeErrorView {
        match *self {
            DecodeError::InvalidCallsign(b) => DecodeErrorView::InvalidCallsign(b@),
            DecodeError::InvalidVia(b) => DecodeErrorView::InvalidVia(b@),
            DecodeError::InvalidTimestamp(b) => DecodeErrorView::InvalidTimestamp(b@),
            DecodeError::UnsupportedPositionFormat(b) => DecodeErrorView::UnsupportedPositionFormat(
                b@,
            ),
            DecodeError::InvalidPosition(b) => DecodeErrorView::InvalidPosition(b@),
            DecodeError::InvalidLatitude(b) => DecodeErrorView::InvalidLatitude(b@),
            DecodeError::InvalidLongitude(b) => DecodeErrorView::InvalidLongitude(b@),
            DecodeError::InvalidPacket(b) => DecodeErrorView::InvalidPacket(b@),
            DecodeError::InvalidMessageDestination(b) => DecodeErrorView::InvalidMessageDestination(
                b@,
            ),
            DecodeError::InvalidMessageId(b) => DecodeErrorView::InvalidMessageId(b@),
            DecodeError::InvalidCs(b) => DecodeErrorView::InvalidCs(b@),
            DecodeError::InvalidMicEDestination(c) => DecodeErrorView::InvalidMicEDestination(c@),
            DecodeError::InvalidMicEInformation(b) => DecodeErrorView::InvalidMicEInformation(b@),
            DecodeError::InvalidObjectName(b) => DecodeErrorView::InvalidObjectName(b@),
            DecodeError::InvalidObjectLiveness(c) => DecodeErrorView::InvalidObjectLiveness(c),
            DecodeError::InvalidItemName(b) => DecodeErrorView::InvalidItemName(b@),
            DecodeError::InvalidItemLiveness(c) => DecodeErrorView::InvalidItemLiveness(c),
            DecodeError::InvalidExtension(b) => DecodeErrorView::InvalidExtension(b@),
            DecodeError::InvalidExtensionRange(b) => DecodeErrorView::InvalidExtensionRange(b@),
            DecodeError::InvalidExtensionDirectionSpeed(b) =>
                DecodeErrorView::InvalidExtensionDirectionSpeed(b@),
            DecodeError::InvalidExtensionPhg(b) => DecodeErrorView::InvalidExtensionPhg(b@),
            DecodeError::InvalidExtensionDfs(b) => DecodeErrorView::InvalidExtensionDfs(b@),
            DecodeError::InvalidExtensionArea(b) => DecodeErrorView::InvalidExtensionArea(b@),
        }
    }
}

/// Why a value cannot be written in a wire format.
#[derive(Debug, PartialEq, Eq, Clone)]
pub enum EncodeError {
    /// The callsign does not fit an AX.25 address field.
    InvalidCallsign(Callsign),
    /// The latitude cannot be written in the format asked for.
    InvalidLatitude(Latitude),
    /// The longitude cannot be written in the format asked for.
    InvalidLongitude(Longitude),
    /// The data has no encoding.
    InvalidData,
    /// The addressee of a message is longer than nine bytes.
    InvalidMessageAddressee(Vec<u8>),
    /// A compressed altitude needs the NMEA source GGA.
    NonGgaAltitude,
    /// The extension would not decode to the same value.
    InvalidExtension(Extension),
}

/// The mathematical value of an `EncodeError`.
pub enum EncodeErrorView {
    InvalidCallsign(CallsignView),
    InvalidLatitude(Latitude),
    InvalidLongitude(Longitude),
    InvalidData,
    InvalidMessageAddressee(Seq<u8>),
    NonGgaAltitude,
    InvalidExtension(Extension),
}

impl View for EncodeError {
    type V = EncodeErrorView;

    open spec fn view(&self) -> EncodeErrorView {
        match *self {
            EncodeError::InvalidCallsign(c) => EncodeErrorView::InvalidCallsign(c@),
            EncodeError::InvalidLatitude(l) => EncodeErrorView::InvalidLatitude(l),
            EncodeError::InvalidLongitude(l) => EncodeErrorView::InvalidLongitude(l),
            EncodeError::InvalidData => EncodeErrorView::InvalidData,
            EncodeError::InvalidMessageAddressee(b) => EncodeErrorView::InvalidMessageAddressee(b@),
            EncodeError::NonGgaAltitude => EncodeErrorView::NonGgaAltitude,
            EncodeError::InvalidExtension(e) => EncodeErrorView::InvalidExtension(e),
        }
    }
}

} // verus!
