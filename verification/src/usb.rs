//! The decisions of the native USB CCID transport: reader selectors, quirk application,
//! error classification, and the per-slot session policy around each bulk exchange.

use vstd::prelude::*;

use crate::ccid::{
    decode_device_message, descriptor_error, device_message_error, parse_class_descriptor,
    parse_descriptor, validation_failure, validation_message, CommandStatus, DescriptorExchange,
    DescriptorFacts, DeviceMessage, DeviceMessageView, TransportParameters,
};
use crate::diagnostics::{BackendKind, Capabilities, CapabilitiesView, ExchangeLevel};
use crate::error::{Error, ErrorKind, Result};
use crate::facade::{reader_id_hash, reader_identity, ReaderId, ReaderRecord};
use crate::model::{
    atr_error_text, encode_command, parse_atr, parse_response, Atr, Command, CommandView,
    Response, ResponseView,
};
use crate::protocol::{
    accept_error, conversation_steps_keep_invariants, machine_wf, spec_accept, spec_start,
    ActionView, MachineView, Phase, T1Action, T1Machine,
};
use crate::text::{
    chars_of, decimal, hex4, push_hex4, lemma_decimal_round_trip, lemma_find_char_is,
    lemma_find_char_none, parse_bounded, parse_bounded_chars, push_decimal,
    split_all, split_all_chars, string_from_chars,
};
use vstd::string::StringExecFns;
use vstd::utf8::encode_utf8;

verus! {

/// The USB interface class of CCID readers.
pub const CCID_CLASS: u8 = 0x0B;

/// The character separating selector fields.
pub const SELECTOR_SEPARATOR: char = '\u{1f}';

/// Transport fixes the quirk table records for specific reader models.
#[derive(Clone, Copy, Debug, PartialEq, Eq, Structural)]
pub struct Quirks {
    pub force_short_apdu: bool,
    pub needs_zlp: bool,
    pub slow_power_on: bool,
}

impl Default for Quirks {
    fn default() -> (quirks: Self)
        ensures
            quirks == (Quirks { force_short_apdu: false, needs_zlp: false, slow_power_on: false }),
    {
        Quirks { force_short_apdu: false, needs_zlp: false, slow_power_on: false }
    }
}

/// A reader with the `no-extended-apdu` quirk is treated as a short-APDU reader.
pub fn apply_quirks(facts: DescriptorFacts, quirks: Quirks) -> (applied: DescriptorFacts)
    ensures
        applied == if quirks.force_short_apdu && facts.exchange == DescriptorExchange::ExtendedApdu {
            DescriptorFacts { exchange: DescriptorExchange::ShortApdu, ..facts }
        } else {
            facts
        },
{
    if quirks.force_short_apdu && facts.exchange == DescriptorExchange::ExtendedApdu {
        DescriptorFacts { exchange: DescriptorExchange::ShortApdu, ..facts }
    } else {
        facts
    }
}

/// The portable exchange level of a descriptor exchange.
pub open spec fn exchange_level_of(exchange: DescriptorExchange) -> ExchangeLevel {
    match exchange {
        DescriptorExchange::Character => ExchangeLevel::Character,
        DescriptorExchange::Tpdu => ExchangeLevel::Tpdu,
        DescriptorExchange::ShortApdu => ExchangeLevel::ShortApdu,
        DescriptorExchange::ExtendedApdu => ExchangeLevel::ExtendedApdu,
    }
}

/// Portable capabilities from descriptor facts.
pub fn capabilities(facts: DescriptorFacts) -> (capabilities: Capabilities)
    ensures
        capabilities@ == (CapabilitiesView {
            slots: facts.slots,
            maximum_message_length: facts.maximum_message_length,
            exchange_level: exchange_level_of(facts.exchange),
            supports_t0: facts.supports_t0,
            supports_t1: facts.supports_t1,
        }),
{
    let exchange = match facts.exchange {
        DescriptorExchange::Character => ExchangeLevel::Character,
        DescriptorExchange::Tpdu => ExchangeLevel::Tpdu,
        DescriptorExchange::ShortApdu => ExchangeLevel::ShortApdu,
        DescriptorExchange::ExtendedApdu => ExchangeLevel::ExtendedApdu,
    };
    Capabilities::new(
        facts.slots,
        facts.maximum_message_length,
        exchange,
        facts.supports_t0,
        facts.supports_t1,
    )
}

/// What a reader whose descriptor cannot be read is assumed to offer.
pub fn fallback_capabilities() -> (capabilities: Capabilities)
    ensures
        capabilities@ == (CapabilitiesView {
            slots: 1,
            maximum_message_length: 271,
            exchange_level: ExchangeLevel::ShortApdu,
            supports_t0: true,
            supports_t1: true,
        }),
{
    Capabilities::new(1, 271, ExchangeLevel::ShortApdu, true, true)
}

// ---------------------------------------------------------------------------------------
// Selectors
// ---------------------------------------------------------------------------------------

/// The selector naming one slot: bus, address, interface, and slot, separated by U+001F.
pub open spec fn selector_text(bus: Seq<char>, address: u8, interface: u8, slot: u8) -> Seq<char> {
    bus + seq![SELECTOR_SEPARATOR] + decimal(address as nat) + seq![SELECTOR_SEPARATOR] + decimal(
        interface as nat,
    ) + seq![SELECTOR_SEPARATOR] + decimal(slot as nat)
}

/// The fields a selector names, if it is well formed: exactly four fields, a non-empty bus,
/// and three decimal bytes.
pub open spec fn parse_selector_text(s: Seq<char>) -> Option<(Seq<char>, u8, u8, u8)> {
    let fields = split_all(s, SELECTOR_SEPARATOR);
    if fields.len() != 4 || fields[0].len() == 0 {
        None
    } else {
        match (
            parse_bounded(fields[1], 10, 255),
            parse_bounded(fields[2], 10, 255),
            parse_bounded(fields[3], 10, 255),
        ) {
            (Some(address), Some(interface), Some(slot)) => Some(
                (fields[0], address as u8, interface as u8, slot as u8),
            ),
            _ => None,
        }
    }
}

/// Encode a slot selector.
pub fn selector(bus: &str, address: u8, interface: u8, slot: u8) -> (text: String)
    ensures
        text@ == selector_text(bus@, address, interface, slot),
{
    let mut chars = chars_of(bus);
    chars.push(SELECTOR_SEPARATOR);
    push_decimal(&mut chars, address as u64);
    chars.push(SELECTOR_SEPARATOR);
    push_decimal(&mut chars, interface as u64);
    chars.push(SELECTOR_SEPARATOR);
    push_decimal(&mut chars, slot as u64);
    assert(chars@ =~= selector_text(bus@, address, interface, slot));
    string_from_chars(chars.as_slice())
}

fn invalid_selector() -> (error: Error)
    ensures
        error.category() == ErrorKind::InvalidInput,
        error.text() == "invalid USB reader selector"@,
{
    Error::new(ErrorKind::InvalidInput, "invalid USB reader selector")
}

/// Decode a slot selector.
pub fn parse_selector(selector: &str) -> (result: Result<(String, u8, u8, u8)>)
    ensures
        match result {
            Ok((bus, address, interface, slot)) => parse_selector_text(selector@) == Some(
                (bus@, address, interface, slot),
            ),
            Err(error) => parse_selector_text(selector@) is None && error.category()
                == ErrorKind::InvalidInput && error.text() == "invalid USB reader selector"@,
        },
{
    let chars = chars_of(selector);
    let fields = split_all_chars(chars.as_slice(), SELECTOR_SEPARATOR);
    let ghost spec_fields = split_all(selector@, SELECTOR_SEPARATOR);
    if fields.len() < 2 {
        return Err(invalid_selector());
    }
    let address = match parse_bounded_chars(fields[1].as_slice(), 10, 255) {
        Some(value) => value as u8,
        None => {
            return Err(invalid_selector());
        },
    };
    if fields.len() < 3 {
        return Err(invalid_selector());
    }
    let interface = match parse_bounded_chars(fields[2].as_slice(), 10, 255) {
        Some(value) => value as u8,
        None => {
            return Err(invalid_selector());
        },
    };
    if fields.len() < 4 {
        return Err(invalid_selector());
    }
    let slot = match parse_bounded_chars(fields[3].as_slice(), 10, 255) {
        Some(value) => value as u8,
        None => {
            return Err(invalid_selector());
        },
    };
    if fields[0].len() == 0 || fields.len() != 4 {
        return Err(invalid_selector());
    }
    assert(fields@[0]@ == spec_fields[0]);
    Ok((string_from_chars(fields[0].as_slice()), address, interface, slot))
}

proof fn lemma_decimal_has_no_separator(value: nat)
    ensures
        forall|j: int| 0 <= j < decimal(value).len() ==> decimal(value)[j] != SELECTOR_SEPARATOR,
{
    lemma_decimal_round_trip(value);
}

proof fn lemma_split_concat(field: Seq<char>, rest: Seq<char>)
    requires
        forall|j: int| 0 <= j < field.len() ==> field[j] != SELECTOR_SEPARATOR,
    ensures
        split_all(field + seq![SELECTOR_SEPARATOR] + rest, SELECTOR_SEPARATOR) == seq![field]
            + split_all(rest, SELECTOR_SEPARATOR),
{
    let s = field + seq![SELECTOR_SEPARATOR] + rest;
    let k = field.len() as int;
    assert forall|j: int| 0 <= j < k implies s[j] != SELECTOR_SEPARATOR by {
        assert(s[j] == field[j]);
    }
    lemma_find_char_is(s, SELECTOR_SEPARATOR, k);
    assert(s.subrange(0, k) =~= field);
    assert(s.subrange(k + 1, s.len() as int) =~= rest);
}

/// A selector for a bus name without U+001F decodes to the fields it was built from.
pub proof fn selector_round_trip(bus: Seq<char>, address: u8, interface: u8, slot: u8)
    requires
        bus.len() > 0,
        forall|j: int| 0 <= j < bus.len() ==> bus[j] != SELECTOR_SEPARATOR,
    ensures
        parse_selector_text(selector_text(bus, address, interface, slot)) == Some(
            (bus, address, interface, slot),
        ),
{
    let a = decimal(address as nat);
    let i = decimal(interface as nat);
    let s = decimal(slot as nat);
    lemma_decimal_has_no_separator(address as nat);
    lemma_decimal_has_no_separator(interface as nat);
    lemma_decimal_has_no_separator(slot as nat);
    lemma_decimal_round_trip(address as nat);
    lemma_decimal_round_trip(interface as nat);
    lemma_decimal_round_trip(slot as nat);
    let sep = seq![SELECTOR_SEPARATOR];
    let text = selector_text(bus, address, interface, slot);
    assert(text =~= bus + sep + (a + sep + (i + sep + s)));
    lemma_find_char_none(s, SELECTOR_SEPARATOR);
    lemma_split_concat(i, s);
    lemma_split_concat(a, i + sep + s);
    lemma_split_concat(bus, a + sep + (i + sep + s));
    let fields = split_all(text, SELECTOR_SEPARATOR);
    assert(fields =~= seq![bus, a, i, s]);
    assert(a[0] != '+');
    assert(i[0] != '+');
    assert(s[0] != '+');
}

// ---------------------------------------------------------------------------------------
// Error classification
// ---------------------------------------------------------------------------------------

/// The USB stack's error categories that carry a portable meaning.
#[derive(Clone, Copy, Debug, PartialEq, Eq, Structural)]
pub enum UsbErrorClass {
    PermissionDenied,
    NotFound,
    Unsupported,
    Busy,
    Other,
}

/// The portable category of a USB stack error.
pub fn usb_error_kind(class: UsbErrorClass) -> (kind: ErrorKind)
    ensures
        kind == usb_error_kind_of(class),
{
    match class {
        UsbErrorClass::PermissionDenied => ErrorKind::PermissionDenied,
        UsbErrorClass::NotFound => ErrorKind::NoReader,
        UsbErrorClass::Unsupported => ErrorKind::NotSupported,
        UsbErrorClass::Busy => ErrorKind::Busy,
        UsbErrorClass::Other => ErrorKind::Transport,
    }
}

/// An error for a failed USB stack call: the class decides the category and the message is
/// `context: detail`.
pub fn usb_error(class: UsbErrorClass, context: &str, detail: &str) -> (error: Error)
    ensures
        error.category() == usb_error_kind_of(class),
        error.text() == context@ + ": "@ + detail@,
{
    Error::contextual(usb_error_kind(class), context, detail)
}

/// The portable category of each USB stack error class.
pub open spec fn usb_error_kind_of(class: UsbErrorClass) -> ErrorKind {
    match class {
        UsbErrorClass::PermissionDenied => ErrorKind::PermissionDenied,
        UsbErrorClass::NotFound => ErrorKind::NoReader,
        UsbErrorClass::Unsupported => ErrorKind::NotSupported,
        UsbErrorClass::Busy => ErrorKind::Busy,
        UsbErrorClass::Other => ErrorKind::Transport,
    }
}

/// How a bulk transfer failed.
#[derive(Clone, Copy, Debug, PartialEq, Eq, Structural)]
pub enum TransferFailure {
    Cancelled,
    Disconnected,
    InvalidArgument,
    Stall,
    Fault,
    Unknown,
}

/// The portable category of a failed bulk transfer.
pub fn transfer_error_kind(failure: TransferFailure) -> (kind: ErrorKind)
    ensures
        kind == transfer_kind_of(failure),
{
    match failure {
        TransferFailure::Cancelled => ErrorKind::Timeout,
        TransferFailure::Disconnected => ErrorKind::CardGone,
        TransferFailure::InvalidArgument => ErrorKind::InvalidInput,
        TransferFailure::Stall | TransferFailure::Fault | TransferFailure::Unknown => {
            ErrorKind::Transport
        },
    }
}

/// The portable category of each way a bulk transfer fails.
pub open spec fn transfer_kind_of(failure: TransferFailure) -> ErrorKind {
    match failure {
        TransferFailure::Cancelled => ErrorKind::Timeout,
        TransferFailure::Disconnected => ErrorKind::CardGone,
        TransferFailure::InvalidArgument => ErrorKind::InvalidInput,
        _ => ErrorKind::Transport,
    }
}

/// An error for a failed bulk transfer, with the message `context: detail`.
pub fn transfer_error(failure: TransferFailure, context: &str, detail: &str) -> (error: Error)
    ensures
        error.category() == transfer_kind_of(failure),
        error.text() == context@ + ": "@ + detail@,
{
    Error::contextual(transfer_error_kind(failure), context, detail)
}

/// Interpret the ATR a reader returned after powering the card.
pub fn reader_atr(payload: &[u8]) -> (result: Result<Atr>)
    ensures
        match result {
            Ok(atr) => parse_atr(payload@) == Some(atr@),
            Err(error) => parse_atr(payload@) is None && error.category() == ErrorKind::Protocol
                && error.text() == "reader returned an invalid ATR"@ + ": "@ + atr_error_text(payload@),
        },
{
    match Atr::parse(payload) {
        Ok(atr) => Ok(atr),
        Err(error) => Err(
            Error::contextual(ErrorKind::Protocol, "reader returned an invalid ATR", error.message()),
        ),
    }
}

// ---------------------------------------------------------------------------------------
// Interface descriptors
// ---------------------------------------------------------------------------------------

/// An endpoint of an alternate setting: whether it is a bulk endpoint, and its address.
#[derive(Clone, Copy, Debug, PartialEq, Eq, Structural)]
pub struct EndpointInfo {
    pub bulk: bool,
    pub address: u8,
}

/// A descriptor nested in an alternate setting, as its type and its complete bytes.
#[derive(Clone, Debug)]
pub struct ExtraDescriptor {
    pub descriptor_type: u8,
    pub bytes: Vec<u8>,
}

/// One alternate setting of a USB interface, in the order the configuration lists it.
#[derive(Clone, Debug)]
pub struct AlternateSetting {
    pub interface_number: u8,
    pub class: u8,
    pub alternate_setting: u8,
    pub descriptors: Vec<ExtraDescriptor>,
    pub endpoints: Vec<EndpointInfo>,
}

/// What an alternate setting holds.
pub struct AlternateSettingView {
    pub interface_number: u8,
    pub class: u8,
    pub alternate_setting: u8,
    pub descriptors: Seq<(u8, Seq<u8>)>,
    pub endpoints: Seq<EndpointInfo>,
}

impl View for AlternateSetting {
    type V = AlternateSettingView;

    open spec fn view(&self) -> AlternateSettingView {
        AlternateSettingView {
            interface_number: self.interface_number,
            class: self.class,
            alternate_setting: self.alternate_setting,
            descriptors: self.descriptors@.map_values(
                |d: ExtraDescriptor| (d.descriptor_type, d.bytes@),
            ),
            endpoints: self.endpoints@,
        }
    }
}

/// The views of alternate settings.
pub open spec fn setting_views(settings: Seq<AlternateSetting>) -> Seq<AlternateSettingView> {
    settings.map_values(|s: AlternateSetting| s@)
}

/// How a CCID interface is used: its facts, the alternate setting that carries them, and
/// its bulk endpoints.
#[derive(Clone, Copy, Debug, PartialEq, Eq, Structural)]
pub struct InterfacePlan {
    pub facts: DescriptorFacts,
    pub alternate_setting: u8,
    pub bulk_out: u8,
    pub bulk_in: u8,
}

/// Whether an alternate setting belongs to this interface and has the CCID class.
pub open spec fn is_ccid_setting(setting: AlternateSettingView, interface_number: u8) -> bool {
    setting.interface_number == interface_number && setting.class == CCID_CLASS
}

/// The first CCID alternate setting of this interface.
pub open spec fn chosen_setting(settings: Seq<AlternateSettingView>, interface_number: u8) -> Option<
    AlternateSettingView,
>
    decreases settings.len(),
{
    if settings.len() == 0 {
        None
    } else if is_ccid_setting(settings[0], interface_number) {
        Some(settings[0])
    } else {
        chosen_setting(settings.drop_first(), interface_number)
    }
}

/// The bytes of the first descriptor of the CCID class type (0x21).
pub open spec fn class_descriptor(descriptors: Seq<(u8, Seq<u8>)>) -> Option<Seq<u8>>
    decreases descriptors.len(),
{
    if descriptors.len() == 0 {
        None
    } else if descriptors[0].0 == 0x21 {
        Some(descriptors[0].1)
    } else {
        class_descriptor(descriptors.drop_first())
    }
}

/// The address of the last bulk endpoint in the given direction (inward when the
/// address has its top bit set).
pub open spec fn last_bulk(endpoints: Seq<EndpointInfo>, inward: bool) -> Option<u8>
    decreases endpoints.len(),
{
    if endpoints.len() == 0 {
        None
    } else {
        let e = endpoints.last();
        if e.bulk && ((e.address & 0x80) != 0) == inward {
            Some(e.address)
        } else {
            last_bulk(endpoints.drop_last(), inward)
        }
    }
}

/// How this interface is used, or `None` when it has no CCID setting, the setting has no
/// valid class descriptor, or a bulk endpoint is missing.
pub open spec fn interface_plan(settings: Seq<AlternateSettingView>, interface_number: u8) -> Option<
    InterfacePlan,
> {
    match chosen_setting(settings, interface_number) {
        None => None,
        Some(s) => match class_descriptor(s.descriptors) {
            None => None,
            Some(bytes) => match parse_descriptor(bytes) {
                None => None,
                Some(facts) => match (last_bulk(s.endpoints, false), last_bulk(s.endpoints, true)) {
                    (Some(bulk_out), Some(bulk_in)) => Some(
                        InterfacePlan {
                            facts,
                            alternate_setting: s.alternate_setting,
                            bulk_out,
                            bulk_in,
                        },
                    ),
                    _ => None,
                },
            },
        },
    }
}

proof fn lemma_chosen_after(settings: Seq<AlternateSettingView>, interface_number: u8, skipped: int)
    requires
        0 <= skipped <= settings.len(),
        forall|k: int| 0 <= k < skipped ==> !is_ccid_setting(settings[k], interface_number),
    ensures
        chosen_setting(settings, interface_number) == chosen_setting(
            settings.subrange(skipped, settings.len() as int),
            interface_number,
        ),
    decreases skipped,
{
    if skipped == 0 {
        assert(settings.subrange(0, settings.len() as int) =~= settings);
    } else {
        let rest = settings.drop_first();
        lemma_chosen_after(rest, interface_number, skipped - 1);
        assert(rest.subrange(skipped - 1, rest.len() as int) =~= settings.subrange(
            skipped,
            settings.len() as int,
        ));
    }
}

proof fn lemma_class_after(descriptors: Seq<(u8, Seq<u8>)>, skipped: int)
    requires
        0 <= skipped <= descriptors.len(),
        forall|k: int| 0 <= k < skipped ==> descriptors[k].0 != 0x21,
    ensures
        class_descriptor(descriptors) == class_descriptor(
            descriptors.subrange(skipped, descriptors.len() as int),
        ),
    decreases skipped,
{
    if skipped == 0 {
        assert(descriptors.subrange(0, descriptors.len() as int) =~= descriptors);
    } else {
        let rest = descriptors.drop_first();
        lemma_class_after(rest, skipped - 1);
        assert(rest.subrange(skipped - 1, rest.len() as int) =~= descriptors.subrange(
            skipped,
            descriptors.len() as int,
        ));
    }
}

fn find_setting(settings: &[AlternateSetting], interface_number: u8) -> (found: Option<usize>)
    ensures
        match found {
            Some(i) => i < settings@.len() && chosen_setting(setting_views(settings@), interface_number)
                == Some(settings@[i as int]@),
            None => chosen_setting(setting_views(settings@), interface_number) is None,
        },
{
    let ghost views = setting_views(settings@);
    let mut index: usize = 0;
    while index < settings.len()
        invariant
            views == setting_views(settings@),
            index <= settings@.len(),
            forall|k: int| 0 <= k < index ==> !is_ccid_setting(views[k], interface_number),
        decreases settings@.len() - index,
    {
        if settings[index].interface_number == interface_number && settings[index].class
            == CCID_CLASS {
            proof {
                lemma_chosen_after(views, interface_number, index as int);
                assert(views.subrange(index as int, views.len() as int)[0] == views[index as int]);
            }
            return Some(index);
        }
        index = index + 1;
    }
    proof {
        lemma_chosen_after(views, interface_number, index as int);
    }
    None
}

fn find_class_descriptor(descriptors: &[ExtraDescriptor]) -> (found: Option<usize>)
    ensures
        match found {
            Some(i) => i < descriptors@.len() && class_descriptor(
                descriptors@.map_values(|d: ExtraDescriptor| (d.descriptor_type, d.bytes@)),
            ) == Some(descriptors@[i as int].bytes@),
            None => class_descriptor(
                descriptors@.map_values(|d: ExtraDescriptor| (d.descriptor_type, d.bytes@)),
            ) is None,
        },
{
    let ghost views = descriptors@.map_values(|d: ExtraDescriptor| (d.descriptor_type, d.bytes@));
    let mut index: usize = 0;
    while index < descriptors.len()
        invariant
            views == descriptors@.map_values(|d: ExtraDescriptor| (d.descriptor_type, d.bytes@)),
            index <= descriptors@.len(),
            forall|k: int| 0 <= k < index ==> views[k].0 != 0x21,
        decreases descriptors@.len() - index,
    {
        if descriptors[index].descriptor_type == 0x21 {
            proof {
                lemma_class_after(views, index as int);
                assert(views.subrange(index as int, views.len() as int)[0] == views[index as int]);
            }
            return Some(index);
        }
        index = index + 1;
    }
    proof {
        lemma_class_after(views, index as int);
    }
    None
}

fn bulk_endpoints(endpoints: &[EndpointInfo]) -> (found: (Option<u8>, Option<u8>))
    ensures
        found.0 == last_bulk(endpoints@, false),
        found.1 == last_bulk(endpoints@, true),
{
    let mut bulk_out: Option<u8> = None;
    let mut bulk_in: Option<u8> = None;
    let mut index: usize = 0;
    while index < endpoints.len()
        invariant
            index <= endpoints@.len(),
            bulk_out == last_bulk(endpoints@.subrange(0, index as int), false),
            bulk_in == last_bulk(endpoints@.subrange(0, index as int), true),
        decreases endpoints@.len() - index,
    {
        let endpoint = endpoints[index];
        assert(endpoints@.subrange(0, index as int + 1).drop_last() =~= endpoints@.subrange(
            0,
            index as int,
        ));
        if endpoint.bulk {
            if endpoint.address & 0x80 == 0 {
                bulk_out = Some(endpoint.address);
            } else {
                bulk_in = Some(endpoint.address);
            }
        }
        index = index + 1;
    }
    assert(endpoints@.subrange(0, endpoints@.len() as int) =~= endpoints@);
    (bulk_out, bulk_in)
}

/// Choose how to use interface `interface_number`: the first CCID alternate setting for
/// it, the facts of that setting's class descriptor, and its last bulk-out and bulk-in
/// endpoints.
pub fn interface_facts(settings: &[AlternateSetting], interface_number: u8) -> (result: Result<
    InterfacePlan,
>)
    ensures
        match interface_plan(setting_views(settings@), interface_number) {
            Some(plan) => result == Ok::<InterfacePlan, Error>(plan),
            None => result matches Err(error) && error.category() == ErrorKind::Protocol,
        },
        chosen_setting(setting_views(settings@), interface_number) is None ==> (result matches Err(
            error,
        ) && error.text() == "selected USB interface has no CCID alternate setting"@),
        (chosen_setting(setting_views(settings@), interface_number) matches Some(s)
            && class_descriptor(s.descriptors) is None) ==> (result matches Err(error)
            && error.text() == "CCID class descriptor is missing"@),
        match chosen_setting(setting_views(settings@), interface_number) {
            Some(s) => match class_descriptor(s.descriptors) {
                Some(bytes) => if parse_descriptor(bytes) is None {
                    result matches Err(error) && error.text() == descriptor_error(bytes)
                } else {
                    match (
                    last_bulk(s.endpoints, false),
                    last_bulk(s.endpoints, true),
                ) {
                    (None, _) => result matches Err(error) && error.text()
                        == "CCID bulk-out endpoint is missing"@,
                    (Some(_), None) => result matches Err(error) && error.text()
                        == "CCID bulk-in endpoint is missing"@,
                    _ => true,
                }
                },
                None => true,
            },
            None => true,
        },
{
    let chosen = match find_setting(settings, interface_number) {
        Some(index) => index,
        None => {
            return Err(
                Error::new(ErrorKind::Protocol, "selected USB interface has no CCID alternate setting"),
            );
        },
    };
    let setting = &settings[chosen];
    let class = match find_class_descriptor(setting.descriptors.as_slice()) {
        Some(index) => index,
        None => {
            return Err(Error::new(ErrorKind::Protocol, "CCID class descriptor is missing"));
        },
    };
    let facts = parse_class_descriptor(setting.descriptors[class].bytes.as_slice())?;
    let (bulk_out, bulk_in) = bulk_endpoints(setting.endpoints.as_slice());
    let bulk_out = match bulk_out {
        Some(address) => address,
        None => {
            return Err(Error::new(ErrorKind::Protocol, "CCID bulk-out endpoint is missing"));
        },
    };
    let bulk_in = match bulk_in {
        Some(address) => address,
        None => {
            return Err(Error::new(ErrorKind::Protocol, "CCID bulk-in endpoint is missing"));
        },
    };
    Ok(InterfacePlan { facts, alternate_setting: setting.alternate_setting, bulk_out, bulk_in })
}

// ---------------------------------------------------------------------------------------
// Enumeration
// ---------------------------------------------------------------------------------------

/// The display name of a CCID interface: the product string, else the interface string,
/// else the vendor and product identifiers.
pub open spec fn device_name_text(
    product: Option<Seq<char>>,
    interface: Option<Seq<char>>,
    vendor_id: u16,
    product_id: u16,
) -> Seq<char> {
    match product {
        Some(name) => name,
        None => match interface {
            Some(name) => name,
            None => "CCID "@ + hex4(vendor_id) + ":"@ + hex4(product_id),
        },
    }
}

/// Name a CCID interface for display.
pub fn device_name(
    product: Option<&str>,
    interface: Option<&str>,
    vendor_id: u16,
    product_id: u16,
) -> (name: String)
    ensures
        name@ == device_name_text(
            match product {
                Some(p) => Some(p@),
                None => None,
            },
            match interface {
                Some(i) => Some(i@),
                None => None,
            },
            vendor_id,
            product_id,
        ),
{
    match product {
        Some(name) => name.to_owned(),
        None => match interface {
            Some(name) => name.to_owned(),
            None => {
                let mut name = "CCID ".to_owned();
                push_hex4(&mut name, vendor_id);
                name.append(":");
                push_hex4(&mut name, product_id);
                proof {
                    reveal_strlit("CCID ");
                    reveal_strlit(":");
                }
                assert(name@ =~= "CCID "@ + hex4(vendor_id) + ":"@ + hex4(product_id));
                name
            },
        },
    }
}

/// The display name of one slot: the reader name alone for a single-slot reader, else the
/// name followed by ` [slot N]`.
pub open spec fn slot_name_text(name: Seq<char>, slots: u8, slot: u8) -> Seq<char> {
    if slots == 1 {
        name
    } else {
        name + " [slot "@ + decimal(slot as nat) + "]"@
    }
}

/// Name one slot of a reader.
pub fn slot_name(name: &str, slots: u8, slot: u8) -> (text: String)
    ensures
        text@ == slot_name_text(name@, slots, slot),
{
    if slots == 1 {
        return name.to_owned();
    }
    let mut chars = chars_of(name);
    let suffix = chars_of(" [slot ");
    let mut index: usize = 0;
    while index < suffix.len()
        invariant
            index <= suffix@.len(),
            chars@ == name@ + suffix@.subrange(0, index as int),
        decreases suffix@.len() - index,
    {
        chars.push(suffix[index]);
        index = index + 1;
        assert(chars@ =~= name@ + suffix@.subrange(0, index as int));
    }
    push_decimal(&mut chars, slot as u64);
    chars.push(']');
    proof {
        reveal_strlit(" [slot ");
        reveal_strlit("]");
    }
    assert(suffix@.subrange(0, suffix@.len() as int) =~= suffix@);
    assert(chars@ =~= slot_name_text(name@, slots, slot));
    string_from_chars(chars.as_slice())
}

/// The number of slots a reader offers: its descriptor's count, or one when the
/// descriptor could not be read.
pub open spec fn slot_count(facts: Option<DescriptorFacts>) -> u8 {
    match facts {
        Some(facts) => facts.slots,
        None => 1,
    }
}

/// What one enumerated slot record holds.
pub open spec fn usb_record_matches(
    record: ReaderRecord,
    name: Seq<char>,
    bus: Seq<char>,
    address: u8,
    interface: u8,
    facts: Option<DescriptorFacts>,
    slot: u8,
) -> bool {
    &&& record.selector@ == selector_text(bus, address, interface, slot)
    &&& record.name@ == slot_name_text(name, slot_count(facts), slot)
    &&& record.backend == BackendKind::NativeUsb
    &&& record.id@ == reader_id_hash(BackendKind::NativeUsb, encode_utf8(record.selector@))
    &&& record.capabilities@ == match facts {
        Some(facts) => capabilities_view_of(facts),
        None => fallback_view(),
    }
}

/// The capabilities descriptor facts report.
pub open spec fn capabilities_view_of(facts: DescriptorFacts) -> CapabilitiesView {
    CapabilitiesView {
        slots: facts.slots,
        maximum_message_length: facts.maximum_message_length,
        exchange_level: exchange_level_of(facts.exchange),
        supports_t0: facts.supports_t0,
        supports_t1: facts.supports_t1,
    }
}

/// The capabilities assumed when a descriptor cannot be read.
pub open spec fn fallback_view() -> CapabilitiesView {
    CapabilitiesView {
        slots: 1,
        maximum_message_length: 271,
        exchange_level: ExchangeLevel::ShortApdu,
        supports_t0: true,
        supports_t1: true,
    }
}

/// The reader records of one CCID interface, one per slot, in slot order.
pub fn slot_records(
    name: &str,
    bus: &str,
    address: u8,
    interface: u8,
    facts: Option<DescriptorFacts>,
) -> (records: Vec<ReaderRecord>)
    ensures
        records.len() == slot_count(facts),
        forall|slot: int|
            0 <= slot < records.len() ==> usb_record_matches(
                #[trigger] records[slot],
                name@,
                bus@,
                address,
                interface,
                facts,
                slot as u8,
            ),
        forall|slot: int| 0 <= slot < records.len() ==> reader_identity(#[trigger] records[slot]),
{
    let slots: u8 = match facts {
        Some(facts) => facts.slots,
        None => 1,
    };
    let mut records: Vec<ReaderRecord> = Vec::new();
    let mut slot: u8 = 0;
    while slot < slots
        invariant
            slots == slot_count(facts),
            slot <= slots,
            records.len() == slot,
            forall|k: int|
                0 <= k < records.len() ==> usb_record_matches(
                    #[trigger] records[k],
                    name@,
                    bus@,
                    address,
                    interface,
                    facts,
                    k as u8,
                ),
        decreases slots - slot,
    {
        let selector = selector(bus, address, interface, slot);
        let record = ReaderRecord {
            id: ReaderId::from_name(BackendKind::NativeUsb, selector.as_str()),
            name: slot_name(name, slots, slot),
            backend: BackendKind::NativeUsb,
            capabilities: match facts {
                Some(facts) => capabilities(facts),
                None => fallback_capabilities(),
            },
            selector,
        };
        records.push(record);
        slot = slot + 1;
    }
    records
}

// ---------------------------------------------------------------------------------------
// Slot session
// ---------------------------------------------------------------------------------------

/// The card protocol a TPDU-level reader negotiated.
#[derive(Clone, Copy, Debug, PartialEq, Eq, Structural)]
pub enum CardProtocol {
    T0,
    T1,
}

/// How one APDU is carried to the card.
#[derive(Clone, Copy, Debug, PartialEq, Eq, Structural)]
pub enum TransmitRoute {
    /// One `XfrBlock` carrying the whole APDU.
    Apdu,
    /// A T=1 block conversation.
    T1,
}

/// The most consecutive time extensions one exchange tolerates.
pub const MAX_TIME_EXTENSIONS: u32 = 32;

/// The state of one claimed CCID slot.
#[derive(Clone, Copy, Debug, PartialEq, Eq, Structural)]
pub struct SlotSession {
    pub slot: u8,
    pub sequence: u8,
    pub max_message_length: usize,
    pub exchange_level: DescriptorExchange,
    pub protocol: CardProtocol,
    pub ifsc: u8,
    pub quirks: Quirks,
}

/// Why a slot cannot be used, if it cannot.
pub open spec fn session_refusal(facts: DescriptorFacts, slot: u8) -> Option<ErrorKind> {
    if slot >= facts.slots {
        Some(ErrorKind::NoReader)
    } else if facts.exchange == DescriptorExchange::Character {
        Some(ErrorKind::NotSupported)
    } else {
        None
    }
}

/// The route an APDU takes, or the category of the refusal.
pub open spec fn transmit_route(
    exchange: DescriptorExchange,
    protocol: CardProtocol,
    extended: bool,
) -> std::result::Result<TransmitRoute, ErrorKind> {
    if extended && (exchange == DescriptorExchange::ShortApdu || (exchange
        == DescriptorExchange::Tpdu && protocol == CardProtocol::T0)) {
        Err(ErrorKind::NotSupported)
    } else if exchange == DescriptorExchange::Tpdu {
        match protocol {
            CardProtocol::T1 => Ok(TransmitRoute::T1),
            CardProtocol::T0 => Err(ErrorKind::NotSupported),
        }
    } else {
        Ok(TransmitRoute::Apdu)
    }
}

/// Routes follow the exchange level: a TPDU-level reader carries every APDU it can carry
/// in a T=1 block conversation once T=1 is negotiated, and none under T=0; a bare APDU in
/// one `XfrBlock` goes only to an APDU-level reader, and there always unless an extended
/// APDU meets a short-APDU reader.
pub proof fn routes_follow_the_exchange_level(
    exchange: DescriptorExchange,
    protocol: CardProtocol,
    extended: bool,
)
    ensures
        exchange == DescriptorExchange::Tpdu && protocol == CardProtocol::T1 ==> transmit_route(
            exchange,
            protocol,
            extended,
        ) == Ok::<TransmitRoute, ErrorKind>(TransmitRoute::T1),
        exchange == DescriptorExchange::Tpdu && protocol == CardProtocol::T0 ==> transmit_route(
            exchange,
            protocol,
            extended,
        ) is Err,
        transmit_route(exchange, protocol, extended) == Ok::<TransmitRoute, ErrorKind>(
            TransmitRoute::T1,
        ) ==> exchange == DescriptorExchange::Tpdu && protocol == CardProtocol::T1,
        (exchange == DescriptorExchange::ShortApdu || exchange == DescriptorExchange::ExtendedApdu)
            ==> (transmit_route(exchange, protocol, extended) == Ok::<TransmitRoute, ErrorKind>(
            TransmitRoute::Apdu,
        ) <==> !(extended && exchange == DescriptorExchange::ShortApdu)),
{
}

/// The bulk-in request size: the reader's maximum message length (at least a header),
/// rounded up to whole packets.
pub open spec fn input_request(max_message_length: nat, packet: nat) -> Option<nat> {
    let length = if max_message_length < 10 {
        10
    } else {
        max_message_length
    };
    if packet == 0 || length + packet - 1 > usize::MAX {
        None
    } else {
        let rounded: nat = ((length + packet - 1) as nat / packet) * packet;
        if rounded > usize::MAX {
            None
        } else {
            Some(rounded)
        }
    }
}

impl SlotSession {
    /// Claim `slot` of a reader with these (quirk-applied) facts.
    pub fn open(facts: DescriptorFacts, slot: u8, quirks: Quirks) -> (result: Result<Self>)
        ensures
            match result {
                Ok(session) => session_refusal(facts, slot) is None && session == (SlotSession {
                    slot,
                    sequence: 0,
                    max_message_length: facts.maximum_message_length as usize,
                    exchange_level: facts.exchange,
                    protocol: CardProtocol::T0,
                    ifsc: 32,
                    quirks,
                }),
                Err(error) => session_refusal(facts, slot) == Some(error.category())
                    && error.text() == if slot >= facts.slots {
                    "selected CCID slot is no longer reported by the reader"@
                } else {
                    "CCID character-level exchange readers are outside ccidkit's safe API"@
                },
            },
    {
        if slot >= facts.slots {
            return Err(
                Error::new(
                    ErrorKind::NoReader,
                    "selected CCID slot is no longer reported by the reader",
                ),
            );
        }
        if facts.exchange == DescriptorExchange::Character {
            return Err(
                Error::new(
                    ErrorKind::NotSupported,
                    "CCID character-level exchange readers are outside ccidkit's safe API",
                ),
            );
        }
        Ok(
            SlotSession {
                slot,
                sequence: 0,
                max_message_length: facts.maximum_message_length as usize,
                exchange_level: facts.exchange,
                protocol: CardProtocol::T0,
                ifsc: 32,
                quirks,
            },
        )
    }

    /// The sequence number for the next request; numbers wrap after 255.
    pub fn next_sequence(&mut self) -> (current: u8)
        ensures
            current == old(self).sequence,
            *final(self) == (SlotSession {
                sequence: if old(self).sequence == 255 {
                    0
                } else {
                    (old(self).sequence + 1) as u8
                },
                ..*old(self)
            }),
    {
        let current = self.sequence;
        self.sequence = if current == 255 {
            0
        } else {
            current + 1
        };
        current
    }

    /// How to carry an APDU with or without the extended encoding.
    pub fn route(&self, extended: bool) -> (result: Result<TransmitRoute>)
        ensures
            match transmit_route(self.exchange_level, self.protocol, extended) {
                Ok(route) => result matches Ok(r) && r == route,
                Err(kind) => result matches Err(error) && error.category() == kind
                    && error.text() == if extended && self.exchange_level
                    != DescriptorExchange::Tpdu || extended && self.protocol == CardProtocol::T0 {
                    "reader exchange level cannot carry an extended APDU"@
                } else {
                    "native T=0 TPDU procedure-byte handling is not implemented"@
                },
            },
    {
        if extended && (self.exchange_level == DescriptorExchange::ShortApdu || (
        self.exchange_level == DescriptorExchange::Tpdu && self.protocol == CardProtocol::T0)) {
            return Err(
                Error::new(
                    ErrorKind::NotSupported,
                    "reader exchange level cannot carry an extended APDU",
                ),
            );
        }
        if self.exchange_level == DescriptorExchange::Tpdu {
            return match self.protocol {
                CardProtocol::T1 => Ok(TransmitRoute::T1),
                CardProtocol::T0 => Err(
                    Error::new(
                        ErrorKind::NotSupported,
                        "native T=0 TPDU procedure-byte handling is not implemented",
                    ),
                ),
            };
        }
        Ok(TransmitRoute::Apdu)
    }

    /// Whether activation must read the negotiated protocol parameters.
    pub fn needs_parameters(&self) -> (needed: bool)
        ensures
            needed == (self.exchange_level == DescriptorExchange::Tpdu),
    {
        self.exchange_level == DescriptorExchange::Tpdu
    }

    /// Adopt negotiated parameters; T=1 with CRC is refused.
    pub fn apply_parameters(&mut self, parameters: TransportParameters) -> (result: Result<()>)
        ensures
            match parameters {
                TransportParameters::T0 => result is Ok && *final(self) == (SlotSession {
                    protocol: CardProtocol::T0,
                    ..*old(self)
                }),
                TransportParameters::T1 { ifsc, uses_crc } => if uses_crc {
                    result matches Err(error) && error.category() == ErrorKind::NotSupported
                        && error.text()
                        == "reader negotiated T=1 CRC, which this native transport does not implement"@
                        && *final(self) == *old(self)
                } else {
                    result is Ok && *final(self) == (SlotSession {
                        protocol: CardProtocol::T1,
                        ifsc,
                        ..*old(self)
                    })
                },
            },
    {
        match parameters {
            TransportParameters::T0 => {
                self.protocol = CardProtocol::T0;
                Ok(())
            },
            TransportParameters::T1 { ifsc, uses_crc } => {
                if uses_crc {
                    return Err(
                        Error::new(
                            ErrorKind::NotSupported,
                            "reader negotiated T=1 CRC, which this native transport does not implement",
                        ),
                    );
                }
                self.protocol = CardProtocol::T1;
                self.ifsc = ifsc;
                Ok(())
            },
        }
    }

    /// Whether a request of this length must be followed by a zero-length packet.
    pub fn needs_zero_length_packet(&self, request_length: usize, packet_size: usize) -> (needed:
        bool)
        ensures
            needed == (self.quirks.needs_zlp && packet_size != 0 && request_length % packet_size
                == 0),
    {
        self.quirks.needs_zlp && packet_size != 0 && request_length % packet_size == 0
    }

    /// The size of each bulk-in request.
    pub fn input_request_length(&self, packet: usize) -> (result: Result<usize>)
        ensures
            match input_request(self.max_message_length as nat, packet as nat) {
                Some(length) => result matches Ok(l) && l == length,
                None => result matches Err(error) && error.category() == ErrorKind::Protocol
                    && error.text() == "CCID input buffer overflows"@,
            },
    {
        let length = if self.max_message_length < 10 {
            10
        } else {
            self.max_message_length
        };
        if packet == 0 || length > usize::MAX - (packet - 1) {
            return Err(Error::new(ErrorKind::Protocol, "CCID input buffer overflows"));
        }
        let packets = (length + (packet - 1)) / packet;
        if packets > usize::MAX / packet {
            proof {
                let p = packets as int;
                let q = packet as int;
                assert(p * q > usize::MAX) by (nonlinear_arith)
                    requires
                        p > (usize::MAX as int) / q,
                        q > 0,
                ;
            }
            return Err(Error::new(ErrorKind::Protocol, "CCID input buffer overflows"));
        }
        proof {
            let p = packets as int;
            let q = packet as int;
            assert(p * q <= usize::MAX) by (nonlinear_arith)
                requires
                    p <= (usize::MAX as int) / q,
                    q > 0,
            ;
        }
        Ok(packets * packet)
    }

    /// Whether transfers use the longer timeout of slow-powering readers.
    pub fn uses_slow_timeout(&self) -> (slow: bool)
        ensures
            slow == self.quirks.slow_power_on,
    {
        self.quirks.slow_power_on
    }
}

/// The reply to one request after `extensions` earlier time-extension replies: the message
/// when it completes the exchange, `None` when the reader asks for more time and may still
/// do so, or the failure.
pub open spec fn reply_outcome(
    bytes: Seq<u8>,
    expected_type: u8,
    slot: u8,
    sequence: u8,
    extensions: nat,
) -> std::result::Result<Option<DeviceMessageView>, ErrorKind> {
    match decode_device_message(bytes) {
        None => Err(ErrorKind::Protocol),
        Some(message) => match validation_failure(message, expected_type, slot, sequence) {
            Some(kind) => Err(kind),
            None => if message.command_status != CommandStatus::TimeExtension {
                Ok(Some(message))
            } else if extensions + 1 >= 32 {
                Err(ErrorKind::Timeout)
            } else {
                Ok(None)
            },
        },
    }
}

/// What the refusal of a reply says, for a reply that `reply_outcome` refuses.
pub open spec fn reply_error_text(bytes: Seq<u8>, expected_type: u8, slot: u8, sequence: u8) -> Seq<
    char,
> {
    match decode_device_message(bytes) {
        None => device_message_error(bytes),
        Some(message) => match validation_failure(message, expected_type, slot, sequence) {
            Some(_) => validation_message(message, expected_type, slot, sequence),
            None => "reader requested more than 32 consecutive CCID time extensions"@,
        },
    }
}

/// Judge one bulk-in reply to the request with this type, slot, and sequence.
pub fn accept_reply(
    bytes: &[u8],
    expected_type: u8,
    slot: u8,
    sequence: u8,
    extensions: u32,
) -> (result: Result<Option<DeviceMessage>>)
    requires
        extensions < MAX_TIME_EXTENSIONS,
    ensures
        match reply_outcome(bytes@, expected_type, slot, sequence, extensions as nat) {
            Ok(Some(message)) => result matches Ok(Some(m)) && m@ == message,
            Ok(None) => result matches Ok(None),
            Err(kind) => result matches Err(error) && error.category() == kind && error.text()
                == reply_error_text(bytes@, expected_type, slot, sequence),
        },
{
    let message = DeviceMessage::decode(bytes)?;
    message.validate_for(expected_type, slot, sequence)?;
    if message.command_status != CommandStatus::TimeExtension {
        return Ok(Some(message));
    }
    if extensions + 1 >= MAX_TIME_EXTENSIONS {
        return Err(
            Error::new(
                ErrorKind::Timeout,
                "reader requested more than 32 consecutive CCID time extensions",
            ),
        );
    }
    Ok(None)
}

// ---------------------------------------------------------------------------------------
// T=1 exchanges over CCID
// ---------------------------------------------------------------------------------------

/// The most blocks one T=1 exchange sends before it gives up.
pub const MAX_T1_ACTIONS: u32 = 256;

/// What a T=1 exchange asks for next: send this block and hand back the reply's payload,
/// or the complete response.
#[derive(Debug)]
pub enum T1Next {
    Send(Vec<u8>),
    Complete(Response),
}

/// What a T=1 exchange asks for next, in the abstract.
pub enum T1NextView {
    Send(Seq<u8>),
    Complete(ResponseView),
}

/// One APDU exchanged over T=1: the conversation, and how many blocks were sent so far.
#[derive(Debug)]
pub struct T1Exchange {
    machine: T1Machine,
    sent: u32,
}

/// The state of a T=1 exchange.
pub struct T1ExchangeView {
    pub machine: MachineView,
    pub sent: nat,
}

impl View for T1Exchange {
    type V = T1ExchangeView;

    closed spec fn view(&self) -> T1ExchangeView {
        T1ExchangeView { machine: self.machine@, sent: self.sent as nat }
    }
}

/// An exchange that may go on: a well-formed conversation that has sent fewer blocks than
/// the bound.
pub open spec fn t1_exchange_wf(x: T1ExchangeView) -> bool {
    machine_wf(x.machine) && x.sent < MAX_T1_ACTIONS
}

/// The conversation a T=1 exchange of `command` begins with.
pub open spec fn t1_initial(command: CommandView, ifsc: u8) -> MachineView {
    MachineView {
        command: encode_command(command),
        offset: 0,
        ifsc: ifsc as int,
        send_sequence: false,
        receive_sequence: false,
        phase: Phase::Sending,
        last_sent: Seq::empty(),
        response: Seq::empty(),
    }
}

/// One step of a T=1 exchange after a block was sent and its reply's payload came back: the
/// next state (one more block sent) and what comes next, or the category and text of the
/// failure. The reply to the last block the bound allows ends the exchange with a failure,
/// whatever it says.
pub open spec fn t1_exchange_step(x: T1ExchangeView, payload: Seq<u8>) -> (
    T1ExchangeView,
    std::result::Result<T1NextView, (ErrorKind, Seq<char>)>,
) {
    let sent = x.sent + 1;
    match spec_accept(x.machine, payload) {
        None => (
            T1ExchangeView { sent, ..x },
            Err((ErrorKind::Protocol, accept_error(x.machine, payload))),
        ),
        Some((machine, action)) => {
            let next = T1ExchangeView { machine, sent };
            if sent >= MAX_T1_ACTIONS {
                (next, Err((ErrorKind::Protocol, "T=1 exchange exceeded 256 transport actions"@)))
            } else {
                match action {
                    ActionView::Send(block) => (next, Ok(T1NextView::Send(block))),
                    ActionView::Complete(bytes) => match parse_response(bytes) {
                        Some(response) => (next, Ok(T1NextView::Complete(response))),
                        None => (
                            next,
                            Err(
                                (ErrorKind::InvalidInput, "a response APDU needs two status bytes"@),
                            ),
                        ),
                    },
                }
            }
        },
    }
}

/// T=1 transport actions are bounded: every step counts one more block sent, a step that
/// asks for another block leaves the exchange able to go on, and no exchange goes on once
/// it has sent as many blocks as the bound allows; so one exchange sends at most
/// `MAX_T1_ACTIONS` blocks.
pub proof fn t1_transport_actions_are_bounded(x: T1ExchangeView, payload: Seq<u8>)
    requires
        t1_exchange_wf(x),
    ensures
        t1_exchange_step(x, payload).0.sent == x.sent + 1,
        t1_exchange_step(x, payload).1 is Ok ==> t1_exchange_wf(t1_exchange_step(x, payload).0),
        x.sent + 1 == MAX_T1_ACTIONS ==> t1_exchange_step(x, payload).1 is Err,
{
    conversation_steps_keep_invariants(x.machine, payload);
}

proof fn lemma_encoded_command_has_header(c: CommandView)
    ensures
        encode_command(c).len() >= 4,
{
}

impl T1Exchange {
    /// Begin exchanging `command` with a card whose information field size is `ifsc`: the
    /// exchange, and the first block to send.
    pub fn begin(command: &Command, ifsc: u8) -> (result: Result<(T1Exchange, Vec<u8>)>)
        ensures
            match result {
                Ok((exchange, block)) => 1 <= ifsc <= 254 && exchange@.sent == 0
                    && spec_start(t1_initial(command@, ifsc)) == Some(
                    (exchange@.machine, ActionView::Send(block@)),
                ) && t1_exchange_wf(exchange@),
                Err(error) => !(1 <= ifsc <= 254) && error.category() == ErrorKind::Protocol
                    && error.text() == "T=1 IFSC must be in 1..=254"@,
            },
    {
        let bytes = command.to_bytes();
        proof {
            lemma_encoded_command_has_header(command@);
        }
        let mut machine = T1Machine::new(bytes, ifsc)?;
        let ghost initial = machine@;
        proof {
            conversation_steps_keep_invariants(initial, Seq::empty());
        }
        match machine.start() {
            Ok(T1Action::Send(block)) => Ok((T1Exchange { machine, sent: 0 }, block)),
            _ => Err(Error::new(ErrorKind::Protocol, "T=1 conversation was already started")),
        }
    }

    /// Take the payload of the reply to the last block sent.
    pub fn reply(&mut self, payload: &[u8]) -> (result: Result<T1Next>)
        requires
            t1_exchange_wf(old(self)@),
        ensures
            final(self)@ == t1_exchange_step(old(self)@, payload@).0,
            match t1_exchange_step(old(self)@, payload@).1 {
                Ok(T1NextView::Send(block)) => result matches Ok(T1Next::Send(b)) && b@ == block,
                Ok(T1NextView::Complete(response)) => result matches Ok(T1Next::Complete(r))
                    && r@ == response,
                Err((kind, text)) => result matches Err(error) && error.category() == kind
                    && error.text() == text,
            },
    {
        self.sent = self.sent + 1;
        let action = self.machine.accept(payload)?;
        if self.sent >= MAX_T1_ACTIONS {
            return Err(Error::new(ErrorKind::Protocol, "T=1 exchange exceeded 256 transport actions"));
        }
        match action {
            T1Action::Send(block) => Ok(T1Next::Send(block)),
            T1Action::Complete(bytes) => {
                let response = Response::from_bytes(bytes.as_slice())?;
                Ok(T1Next::Complete(response))
            },
        }
    }
}

} // verus!
