use ccidkit::diagnostics::BackendKind;
use ccidkit::facade::ReaderId;
use ccidkit::operation::CompletionSlot;
use ccidkit::usb::{parse_selector, selector};
use ccidkit::ErrorKind;

#[test]
fn reader_ids_are_deterministic_and_backend_scoped() {
    let usb = ReaderId::from_name(BackendKind::NativeUsb, "reader");
    let pcsc = ReaderId::from_name(BackendKind::Pcsc, "reader");
    assert_eq!(usb, ReaderId::from_name(BackendKind::NativeUsb, "reader"));
    assert_ne!(usb, pcsc);
}

#[test]
fn internal_usb_selector_round_trips_opaque_bus_names() {
    let encoded = selector("pci:0000:00", 7, 2, 3);
    assert!(matches!(
        parse_selector(&encoded),
        Ok((ref bus, 7, 2, 3)) if bus == "pci:0000:00"
    ));
}

#[test]
fn ready_operation_waits_without_a_runtime() {
    let value = CompletionSlot::ready(Ok::<_, ccidkit::Error>(7_u8)).take_ready();
    assert!(matches!(value, Some(Ok(7))));
}

#[test]
fn timeout_marks_the_producer_cancelled() {
    let mut operation = CompletionSlot::<()>::pending();
    let result: Result<(), ccidkit::Error> = Err(operation.expire());
    assert!(matches!(result, Err(error) if error.kind() == ErrorKind::Timeout));
    assert!(operation.is_cancelled());
}
