//! The decisions of the PC/SC transport: error classification, reader-name checks, and the
//! interpretation of what the resource manager hands back.

use vstd::prelude::*;

use crate::diagnostics::{BackendKind, Capabilities, CapabilitiesView, ExchangeLevel};
use crate::facade::{reader_identity, ReaderId, ReaderRecord};
use crate::error::{Error, ErrorKind, Result};
use crate::model::{atr_error_text, parse_atr, parse_response, Atr, Response};
use crate::text::{chars_of, contains_char};

verus! {

/// The resource manager's error codes that carry a portable meaning.
#[derive(Clone, Copy, Debug, PartialEq, Eq, Structural)]
pub enum PcscErrorClass {
    NoReadersAvailable,
    UnknownReader,
    NoSmartcard,
    UnpoweredCard,
    RemovedCard,
    ResetCard,
    SharingViolation,
    Timeout,
    WaitedTooLong,
    Cancelled,
    CancelledByUser,
    SystemCancelled,
    NoService,
    ServiceStopped,
    NoAccess,
    SecurityViolation,
    UnsupportedFeature,
    ReaderUnsupported,
    CardUnsupported,
    UnsupportedCard,
    InvalidAtr,
    ProtoMismatch,
    /// Any other code.
    Other,
}

/// The portable category of each resource-manager error class.
pub open spec fn pcsc_kind(class: PcscErrorClass) -> ErrorKind {
    match class {
        PcscErrorClass::NoReadersAvailable | PcscErrorClass::UnknownReader => ErrorKind::NoReader,
        PcscErrorClass::NoSmartcard | PcscErrorClass::UnpoweredCard => ErrorKind::CardAbsent,
        PcscErrorClass::RemovedCard | PcscErrorClass::ResetCard => ErrorKind::CardGone,
        PcscErrorClass::SharingViolation => ErrorKind::Busy,
        PcscErrorClass::Timeout | PcscErrorClass::WaitedTooLong => ErrorKind::Timeout,
        PcscErrorClass::Cancelled | PcscErrorClass::CancelledByUser
        | PcscErrorClass::SystemCancelled => ErrorKind::Cancelled,
        PcscErrorClass::NoService | PcscErrorClass::ServiceStopped => ErrorKind::BackendUnavailable,
        PcscErrorClass::NoAccess | PcscErrorClass::SecurityViolation => ErrorKind::PermissionDenied,
        PcscErrorClass::UnsupportedFeature | PcscErrorClass::ReaderUnsupported
        | PcscErrorClass::CardUnsupported | PcscErrorClass::UnsupportedCard => ErrorKind::NotSupported,
        PcscErrorClass::InvalidAtr | PcscErrorClass::ProtoMismatch => ErrorKind::Protocol,
        PcscErrorClass::Other => ErrorKind::Transport,
    }
}

/// Classify a resource-manager error.
pub fn pcsc_error_kind(class: PcscErrorClass) -> (kind: ErrorKind)
    ensures
        kind == pcsc_kind(class),
{
    match class {
        PcscErrorClass::NoReadersAvailable | PcscErrorClass::UnknownReader => ErrorKind::NoReader,
        PcscErrorClass::NoSmartcard | PcscErrorClass::UnpoweredCard => ErrorKind::CardAbsent,
        PcscErrorClass::RemovedCard | PcscErrorClass::ResetCard => ErrorKind::CardGone,
        PcscErrorClass::SharingViolation => ErrorKind::Busy,
        PcscErrorClass::Timeout | PcscErrorClass::WaitedTooLong => ErrorKind::Timeout,
        PcscErrorClass::Cancelled | PcscErrorClass::CancelledByUser
        | PcscErrorClass::SystemCancelled => ErrorKind::Cancelled,
        PcscErrorClass::NoService | PcscErrorClass::ServiceStopped => ErrorKind::BackendUnavailable,
        PcscErrorClass::NoAccess | PcscErrorClass::SecurityViolation => ErrorKind::PermissionDenied,
        PcscErrorClass::UnsupportedFeature | PcscErrorClass::ReaderUnsupported
        | PcscErrorClass::CardUnsupported | PcscErrorClass::UnsupportedCard => ErrorKind::NotSupported,
        PcscErrorClass::InvalidAtr | PcscErrorClass::ProtoMismatch => ErrorKind::Protocol,
        PcscErrorClass::Other => ErrorKind::Transport,
    }
}

/// An error for a failed resource-manager call: the class decides the category and the
/// message is `context: detail`.
pub fn pcsc_error(class: PcscErrorClass, context: &str, detail: &str) -> (error: Error)
    ensures
        error.category() == pcsc_kind(class),
        error.text() == context@ + ": "@ + detail@,
{
    Error::contextual(pcsc_error_kind(class), context, detail)
}

/// What every PC/SC reader is reported to offer: the resource manager hides slots and carries
/// extended APDUs itself.
pub fn capabilities() -> (capabilities: Capabilities)
    ensures
        capabilities@ == (CapabilitiesView {
            slots: 1,
            maximum_message_length: 65_538,
            exchange_level: ExchangeLevel::ExtendedApdu,
            supports_t0: true,
            supports_t1: true,
        }),
{
    Capabilities::new(1, 65_538, ExchangeLevel::ExtendedApdu, true, true)
}

/// The record of a reader the resource manager names: the name is both the display name
/// and the selector, and the identifier follows from it.
pub fn reader_record(name: &str) -> (record: ReaderRecord)
    ensures
        record.name@ == name@,
        record.selector@ == name@,
        record.backend == BackendKind::Pcsc,
        record.capabilities@ == (CapabilitiesView {
            slots: 1,
            maximum_message_length: 65_538,
            exchange_level: ExchangeLevel::ExtendedApdu,
            supports_t0: true,
            supports_t1: true,
        }),
        reader_identity(record),
{
    ReaderRecord {
        id: ReaderId::from_name(BackendKind::Pcsc, name),
        name: name.to_owned(),
        backend: BackendKind::Pcsc,
        capabilities: capabilities(),
        selector: name.to_owned(),
    }
}

/// A reader name can be handed to the resource manager only if it holds no NUL character.
pub fn check_reader_name(name: &str) -> (result: Result<()>)
    ensures
        match result {
            Ok(()) => !name@.contains('\0'),
            Err(error) => name@.contains('\0') && error.category() == ErrorKind::InvalidInput
                && error.text() == "PC/SC reader name contains an interior NUL"@,
        },
{
    let chars = chars_of(name);
    if contains_char(chars.as_slice(), '\0') {
        return Err(Error::new(ErrorKind::InvalidInput, "PC/SC reader name contains an interior NUL"));
    }
    Ok(())
}

/// Interpret the ATR the resource manager reports for a connected card.
pub fn card_atr(bytes: &[u8]) -> (result: Result<Atr>)
    ensures
        match result {
            Ok(atr) => parse_atr(bytes@) == Some(atr@),
            Err(error) => parse_atr(bytes@) is None && error.category() == ErrorKind::Protocol
                && error.text() == "PC/SC returned an invalid ATR"@ + ": "@ + atr_error_text(bytes@),
        },
{
    match Atr::parse(bytes) {
        Ok(atr) => Ok(atr),
        Err(error) => Err(Error::contextual(
            ErrorKind::Protocol,
            "PC/SC returned an invalid ATR",
            error.message(),
        )),
    }
}

/// Interpret the bytes a card answered to a transmitted APDU.
pub fn card_response(bytes: &[u8]) -> (result: Result<Response>)
    ensures
        match result {
            Ok(response) => parse_response(bytes@) == Some(response@),
            Err(error) => parse_response(bytes@) is None && error.category() == ErrorKind::Protocol
                && error.text() == "PC/SC returned a malformed APDU response"@ + ": "@
                    + "a response APDU needs two status bytes"@,
        },
{
    match Response::from_bytes(bytes) {
        Ok(response) => Ok(response),
        Err(error) => Err(Error::contextual(
            ErrorKind::Protocol,
            "PC/SC returned a malformed APDU response",
            error.message(),
        )),
    }
}

} // verus!
