use ccidkit::ccid::{
    CommandStatus, DescriptorExchange, DescriptorFacts, DeviceMessage, RDR_TO_PC_DATA_BLOCK,
};
use ccidkit::protocol::{Block, T1Machine};
use ccidkit::cli::{decode_hex, request, yes_no, CliRequest};
use ccidkit::diagnostics::{BackendKind, Direction, Layer, TraceEvent, TraceFrame, TraceHub};
use ccidkit::facade::{AutoStep, AutoTransmit, ReaderId};
use ccidkit::operation::CompletionSlot;
use ccidkit::pcsc::{card_atr, card_response, check_reader_name, reader_record as pcsc_reader_record};
use ccidkit::text::encode_hex;
use ccidkit::usb::{
    interface_facts, reader_atr, AlternateSetting, T1Exchange, T1Next, MAX_T1_ACTIONS, EndpointInfo, ExtraDescriptor, CCID_CLASS,
    accept_reply, device_name, parse_selector, selector, slot_name, Quirks, SlotSession,
    TransmitRoute, MAX_TIME_EXTENSIONS,
};
use ccidkit::gates::{
    bin_name_violations, dependency_violations, find_gate, gates, purity_violations, report,
    usage, MemberDependencies, PurityMember, TargetMember,
};
use ccidkit::manifest::{before_comment, Declared};
use ccidkit::source_scan::holds_token;
use ccidkit::{Atr, Command, Error, ErrorKind, Response, StatusWord};

fn arguments(words: &[&str]) -> Vec<String> {
    words.iter().map(|w| (*w).to_owned()).collect()
}

fn facts(exchange: DescriptorExchange, slots: u8, maximum: u32) -> DescriptorFacts {
    DescriptorFacts {
        slots,
        maximum_message_length: maximum,
        exchange,
        supports_t0: true,
        supports_t1: true,
    }
}

fn reply(slot: u8, sequence: u8, status: u8) -> Vec<u8> {
    vec![RDR_TO_PC_DATA_BLOCK, 0, 0, 0, 0, slot, sequence, status, 0, 0]
}

#[test]
fn hex_decoding_undoes_encoding_for_every_byte() {
    let all: Vec<u8> = (0..=255u8).collect();
    assert_eq!(decode_hex(&encode_hex(&all)).expect("round trip"), all);
    assert_eq!(decode_hex(&encode_hex(&all).to_lowercase()).expect("lower case"), all);
    assert_eq!(decode_hex("").expect("empty"), Vec::<u8>::new());
}

#[test]
fn hex_errors_name_their_cause() {
    let odd = decode_hex("ABC").expect_err("odd length");
    assert_eq!(odd.kind(), ErrorKind::InvalidInput);
    assert_eq!(odd.message(), "hex input must contain complete byte pairs");
    let accented = decode_hex("\u{e9}0").expect_err("three bytes");
    assert_eq!(accented.message(), "hex input must contain complete byte pairs");
    assert_eq!(decode_hex("00 0G 1Z").expect_err("digit").message(), "`0G` is not a hexadecimal byte");
    assert_eq!(decode_hex("\u{e9}\u{e9}").expect_err("letter").message(), "`\u{e9}` is not a hexadecimal byte");
    assert_eq!(decode_hex("\u{20ac}0").expect_err("split").message(), "hex input is not ASCII");
    assert_eq!(decode_hex("+F-1").expect_err("sign").message(), "`-1` is not a hexadecimal byte");
    let short = request(&arguments(&["apdu", "0A"])).expect_err("header");
    assert_eq!(short.message(), "a command APDU needs a four-byte header");
    let odd = request(&arguments(&["apdu", "0", "0A"])).expect_err("odd");
    assert_eq!(odd.message(), "hex input must contain complete byte pairs");
}

#[test]
fn command_line_requests_are_recognised() {
    assert!(matches!(request(&[]), Ok(CliRequest::Help)));
    assert!(matches!(request(&arguments(&["-h"])), Ok(CliRequest::Help)));
    assert!(matches!(request(&arguments(&["list"])), Ok(CliRequest::List)));
    assert!(matches!(request(&arguments(&["atr"])), Ok(CliRequest::Atr)));
    match request(&arguments(&["apdu", "--raw", "00A4", "0400"])) {
        Ok(CliRequest::Apdu { raw, command }) => {
            assert!(raw);
            assert_eq!(command.to_bytes(), [0x00, 0xA4, 0x04, 0x00]);
        }
        other => panic!("unexpected {other:?}"),
    }
    let unknown = request(&arguments(&["frobnicate"])).expect_err("unknown");
    assert_eq!(unknown.message(), "unknown command `frobnicate`; run `ccid help`");
    let missing = request(&arguments(&["apdu", "--raw"])).expect_err("missing");
    assert_eq!(missing.message(), "usage: ccid apdu [--raw] HEX");
    assert_eq!(yes_no(true), "yes");
    assert_eq!(yes_no(false), "no");
}

#[test]
fn reader_id_hex_is_sixteen_lower_case_digits() {
    for name in ["", "reader", "ACS ACR122U PICC Interface 00 00"] {
        let id = ReaderId::from_name(BackendKind::Pcsc, name);
        assert_eq!(id.to_hex(), format!("{:016x}", id.as_u64()));
    }
}

#[test]
fn selector_rejects_foreign_text() {
    let error = parse_selector("not a selector").expect_err("foreign");
    assert_eq!(error.kind(), ErrorKind::InvalidInput);
    assert!(parse_selector(&selector("", 0, 255, 9)).is_err());
    let encoded = selector("b", 0, 255, 9);
    assert!(matches!(parse_selector(&encoded), Ok((ref bus, 0, 255, 9)) if bus == "b"));
    let signed = "b\u{1f}+1\u{1f}2\u{1f}3";
    assert!(matches!(parse_selector(signed), Ok((_, 1, 2, 3))));
    assert!(parse_selector("b\u{1f}1\u{1f}2\u{1f}256").is_err());
    assert!(parse_selector("b\u{1f}1\u{1f}2\u{1f}3\u{1f}4").is_err());
}

#[test]
fn usb_names_fall_back_to_identifiers() {
    assert_eq!(device_name(Some("Reader"), Some("Iface"), 1, 2), "Reader");
    assert_eq!(device_name(None, Some("Iface"), 1, 2), "Iface");
    assert_eq!(device_name(None, None, 0x1234, 0xabcd), "CCID 1234:ABCD");
    assert_eq!(slot_name("Reader", 1, 0), "Reader");
    assert_eq!(slot_name("Reader", 2, 1), "Reader [slot 1]");
    assert_eq!(slot_name("Reader", 12, 10), "Reader [slot 10]");
}

#[test]
fn slot_sessions_route_by_exchange_level() {
    let quirks = Quirks::default();
    let refused = SlotSession::open(facts(DescriptorExchange::ShortApdu, 1, 271), 1, quirks);
    assert_eq!(refused.expect_err("slot").kind(), ErrorKind::NoReader);
    let character = SlotSession::open(facts(DescriptorExchange::Character, 1, 271), 0, quirks);
    assert_eq!(character.expect_err("character").kind(), ErrorKind::NotSupported);

    let short = SlotSession::open(facts(DescriptorExchange::ShortApdu, 1, 271), 0, quirks)
        .expect("short");
    assert_eq!(short.route(false).expect("short route"), TransmitRoute::Apdu);
    assert_eq!(short.route(true).expect_err("extended").kind(), ErrorKind::NotSupported);
    assert_eq!(short.input_request_length(64).expect("length"), 320);
    assert_eq!(short.input_request_length(0).expect_err("zero").kind(), ErrorKind::Protocol);

    let tiny = SlotSession::open(facts(DescriptorExchange::ExtendedApdu, 1, 3), 0, quirks)
        .expect("tiny");
    assert_eq!(tiny.input_request_length(64).expect("header"), 64);
    assert_eq!(tiny.route(true).expect("extended route"), TransmitRoute::Apdu);
}

#[test]
fn sequence_numbers_wrap() {
    let mut session =
        SlotSession::open(facts(DescriptorExchange::ShortApdu, 1, 271), 0, Quirks::default())
            .expect("open");
    session.sequence = 255;
    assert_eq!(session.next_sequence(), 255);
    assert_eq!(session.next_sequence(), 0);
}

#[test]
fn zero_length_packets_follow_whole_packets_only_when_quirked() {
    let quirks = Quirks { force_short_apdu: false, needs_zlp: true, slow_power_on: true };
    let session = SlotSession::open(facts(DescriptorExchange::ShortApdu, 1, 271), 0, quirks)
        .expect("open");
    assert!(session.needs_zero_length_packet(128, 64));
    assert!(!session.needs_zero_length_packet(100, 64));
    assert!(!session.needs_zero_length_packet(0, 0));
    assert!(session.uses_slow_timeout());
}

#[test]
fn time_extensions_are_bounded() {
    let extension = reply(0, 5, 0x80);
    assert!(matches!(accept_reply(&extension, RDR_TO_PC_DATA_BLOCK, 0, 5, 0), Ok(None)));
    let last = accept_reply(&extension, RDR_TO_PC_DATA_BLOCK, 0, 5, MAX_TIME_EXTENSIONS - 1);
    assert_eq!(last.expect_err("limit").kind(), ErrorKind::Timeout);
    let done = accept_reply(&reply(0, 5, 0), RDR_TO_PC_DATA_BLOCK, 0, 5, 3)
        .expect("complete")
        .expect("message");
    assert_eq!(done.command_status, CommandStatus::Complete);
    let wrong_sequence = accept_reply(&reply(0, 6, 0), RDR_TO_PC_DATA_BLOCK, 0, 5, 0);
    assert_eq!(wrong_sequence.expect_err("sequence").kind(), ErrorKind::Protocol);
    let truncated = accept_reply(&[RDR_TO_PC_DATA_BLOCK, 0], RDR_TO_PC_DATA_BLOCK, 0, 5, 0);
    assert_eq!(truncated.expect_err("short").kind(), ErrorKind::Protocol);
}

#[test]
fn pcsc_inputs_are_checked() {
    assert!(check_reader_name("Reader 0").is_ok());
    assert_eq!(check_reader_name("Rea\0der").expect_err("nul").kind(), ErrorKind::InvalidInput);
    let response = card_response(&[0x01, 0x90, 0x00]).expect("response");
    assert_eq!(response.data(), [0x01]);
    assert_eq!(card_response(&[0x90]).expect_err("short").kind(), ErrorKind::Protocol);
}

fn frame(byte: u8) -> TraceEvent {
    TraceEvent::Frame(TraceFrame::new(
        Layer::Apdu,
        Direction::Out,
        BackendKind::Pcsc,
        ReaderId::from_name(BackendKind::Pcsc, "r"),
        vec![byte],
    ))
}

#[test]
fn a_slow_subscriber_is_told_what_it_missed() {
    let mut hub = TraceHub::new();
    let id = hub.subscribe();
    for i in 0..130u32 {
        hub.emit(&frame((i % 256) as u8));
    }
    for _ in 0..128 {
        assert!(matches!(hub.receive(id), Some(TraceEvent::Frame(_))));
    }
    assert!(hub.receive(id).is_none());
    // Both frames over capacity are counted, the second although the notice owed for the
    // first had no room either.
    hub.emit(&frame(7));
    assert!(matches!(hub.receive(id), Some(TraceEvent::Overflow { dropped: 2 })));
    match hub.receive(id) {
        Some(TraceEvent::Frame(f)) => assert_eq!(f.bytes(), [7]),
        other => panic!("unexpected {other:?}"),
    }
    hub.unsubscribe(id);
    hub.emit(&frame(8));
    assert!(hub.receive(id).is_none());
}

#[test]
fn a_completion_is_accepted_once() {
    let mut slot = CompletionSlot::<u8>::pending();
    assert!(!slot.is_ready());
    assert!(slot.complete(Ok(1)));
    assert!(!slot.complete(Ok(2)));
    assert!(slot.is_ready());
    assert!(matches!(slot.take_ready(), Some(Ok(1))));
    assert!(slot.take_ready().is_none());
}

#[test]
fn an_abandoned_completion_is_cancelled() {
    let mut slot = CompletionSlot::<u8>::pending();
    slot.abandon();
    assert!(slot.is_cancelled());
    let error = slot.expire();
    assert_eq!(error.message(), "operation did not finish before the caller's deadline");
}

#[test]
fn chained_get_responses_are_limited() {
    let command = Command::new(0x00, 0xB0, 0, 0);
    let mut state = AutoTransmit::new(command);
    let mut last = Ok(AutoStep::Done(Response::new(Vec::new(), StatusWord::new(0x90, 0))));
    for _ in 0..33 {
        last = state.accept(Response::new(vec![1], StatusWord::new(0x61, 0x01)));
        if last.is_err() {
            break;
        }
    }
    assert_eq!(last.expect_err("limit").kind(), ErrorKind::Protocol);
}

#[test]
fn a_wrong_length_is_corrected_once() {
    let command = Command::new(0x00, 0xB0, 0, 0).with_expected_len(4).expect("le");
    let mut state = AutoTransmit::new(command);
    match state.accept(Response::new(Vec::new(), StatusWord::new(0x6C, 0x02))) {
        Ok(AutoStep::Send(corrected)) => assert_eq!(corrected.expected_len(), Some(2)),
        other => panic!("unexpected {other:?}"),
    }
    match state.accept(Response::new(vec![5, 6], StatusWord::new(0x90, 0))) {
        Ok(AutoStep::Done(response)) => assert_eq!(response.data(), [5, 6]),
        other => panic!("unexpected {other:?}"),
    }
    assert!(state.is_finished());
}

#[test]
fn error_kinds_describe_and_classify() {
    let error = Error::from_kind(ErrorKind::Busy);
    assert_eq!(error.message(), "resource busy");
    assert!(error.is_retryable());
    assert!(!Error::new(ErrorKind::Protocol, "x").is_retryable());
    assert_eq!(ErrorKind::NotSupported.description(), "operation not supported");
    let contextual = Error::contextual(ErrorKind::Transport, "bulk out", "stalled");
    assert_eq!(contextual.message(), "bulk out: stalled");
}

fn declared(dev: bool, name: &str) -> Declared {
    Declared { dev, name: name.to_owned() }
}

fn member(name: &str, deps: Vec<Declared>) -> MemberDependencies {
    MemberDependencies { name: name.to_owned(), declared: deps }
}

#[test]
fn dependency_findings_come_in_rule_order() {
    let members = vec![
        member("ccidkit", vec![declared(true, "ccid-cli")]),
        member("ccid-cli", vec![declared(false, "ccidkit")]),
        member("ccid-driverkit", vec![declared(false, "ccid-cli"), declared(false, "log")]),
        member("xtask", vec![declared(false, "anyhow"), declared(true, "tempfile")]),
        member("extra", Vec::new()),
    ];
    assert_eq!(
        dependency_violations(&members),
        [
            "extra: workspace member has no row in xtask/src/deps.rs ALLOWED \u{2014} add one so the one rule reaches it",
            "ccidkit: dev-dependency `ccid-cli` closes a cycle \u{2014} this crate is below the one it is testing with",
            "ccid-driverkit: normal dependency `ccid-cli` is not an arrow the ALLOWED matrix carries (ARCHITECTURE.md)",
            "xtask: declares `anyhow`; this crate's dependency-freedom is architecture (docs/adr/0016)",
        ]
    );
    let stale = dependency_violations(&[member("ccidkit", Vec::new())]);
    assert_eq!(stale.len(), 3);
    assert_eq!(
        stale[0],
        "ccid-cli: has an ALLOWED row but is not a workspace member; the matrix in xtask/src/deps.rs has gone stale"
    );
}

fn pure(name: &str, directory: &str, deps: Vec<Declared>) -> PurityMember {
    PurityMember { name: name.to_owned(), directory: directory.to_owned(), declared: deps }
}

fn exempted_members(last: &str) -> Vec<PurityMember> {
    let mut members: Vec<PurityMember> = [
        "crates/ccid-testkit",
        "crates/ccid-backend-usb",
        "crates/ccid-backend-pcsc",
        "crates/ccidkit",
        "crates/ccid-cli",
        "crates/ccid-driverkit",
    ]
    .iter()
    .map(|path| pure(path, &format!("/repo/{path}"), vec![declared(false, "anything")]))
    .collect();
    members.push(pure("xtask", &format!("/repo/{last}"), Vec::new()));
    members
}

#[test]
fn the_pure_layer_depends_only_on_itself() {
    let mut members = exempted_members("xtask");
    members.push(pure(
        "ccid-core",
        "/repo/crates/ccid-core",
        vec![declared(false, "ccid-model"), declared(true, "ccid-cli")],
    ));
    members.push(pure("ccid-model", "/repo/crates/ccid-model", Vec::new()));
    assert_eq!(
        purity_violations(&members).expect("runs"),
        ["ccid-core: declares dev-dependency `ccid-cli`; the pure layer may depend only on itself (docs/adr/0013)"]
    );
}

#[test]
fn an_exemption_matches_whole_path_components() {
    let members = exempted_members("notxtask");
    assert_eq!(
        purity_violations(&members).expect_err("stale"),
        "`xtask` is exempted from the pure layer but is not a workspace member; the exemption list in xtask/src/purity.rs has gone stale"
    );
}

#[test]
fn a_bin_named_like_a_library_is_reported() {
    let members = vec![
        TargetMember { name: "ccidkit".to_owned(), has_lib: true, has_main: false, manifest: String::new() },
        TargetMember {
            name: "ccid-cli".to_owned(),
            has_lib: false,
            has_main: true,
            manifest: "[[bin]]\nname = \"ccidkit\"\n".to_owned(),
        },
        TargetMember { name: "tool".to_owned(), has_lib: false, has_main: true, manifest: String::new() },
    ];
    assert_eq!(
        bin_name_violations(&members),
        ["ccid-cli: bin target `ccidkit` shares its name with a lib crate; parallel rustdoc fights over target/doc/ccidkit (docs/adr/0015)"]
    );
}

#[test]
fn gate_reports_and_usage_read_as_documented() {
    let all = gates();
    let purity = all[find_gate(&all, "purity").expect("purity")];
    assert_eq!(find_gate(&all, "bin-name"), Some(4));
    assert_eq!(find_gate(&all, "lint"), None);
    let clean = report(purity, Ok(Vec::new()));
    assert!(clean.success);
    assert_eq!(
        clean.stdout,
        ["purity: the pure layer declares no dependency outside itself, dev included"]
    );
    let dirty = report(purity, Ok(vec!["a".to_owned(), "b".to_owned()]));
    assert!(!dirty.success);
    assert_eq!(dirty.stderr, ["purity: a", "purity: b", "purity: 2 violation(s). See docs/adr/0013"]);
    let broken = report(purity, Err("no manifest".to_owned()));
    assert!(!broken.success);
    assert_eq!(broken.stderr, ["xtask: purity could not run: no manifest"]);
    let lines = usage(&all);
    assert_eq!(lines.len(), 6);
    assert_eq!(lines[0], "usage: cargo run -p xtask -- <task>");
    assert_eq!(
        lines[1],
        "  purity           the pure layer declares no dependency outside itself, dev included"
    );
}

#[test]
fn tokens_are_bounded_by_unicode_word_characters() {
    assert!(holds_token("é unsafe", "unsafe"));
    assert!(!holds_token("éunsafe", "unsafe"));
    assert!(!holds_token("unsafeé", "unsafe"));
    // A match refused at its edges is retried one byte later, so overlapping matches count.
    assert!(holds_token("xaaa", "aa"));
    // A retry that would start inside a multi-byte character ends the search.
    assert!(!holds_token("a\u{e9} \u{e9}", "\u{e9}"));
    assert!(holds_token("x aa", "aa"));
    assert_eq!(before_comment("name = \"a#b\" # note"), "name = \"a#b\" ");
    assert_eq!(before_comment("# all comment"), "");
}

fn class_descriptor_bytes() -> Vec<u8> {
    let mut bytes = vec![0u8; 54];
    bytes[0] = 54;
    bytes[1] = 0x21;
    bytes[6] = 0x03;
    bytes[42] = 0x04;
    bytes[44] = 0x0F;
    bytes[45] = 0x01;
    bytes
}

fn setting(interface_number: u8, class: u8, alternate: u8, endpoints: Vec<EndpointInfo>) -> AlternateSetting {
    AlternateSetting {
        interface_number,
        class,
        alternate_setting: alternate,
        descriptors: vec![
            ExtraDescriptor { descriptor_type: 0x24, bytes: vec![3, 0x24, 0] },
            ExtraDescriptor { descriptor_type: 0x21, bytes: class_descriptor_bytes() },
        ],
        endpoints,
    }
}

#[test]
fn the_first_ccid_setting_and_its_last_bulk_endpoints_are_used() {
    let bulk = |address| EndpointInfo { bulk: true, address };
    let settings = vec![
        setting(1, 0xFF, 0, vec![bulk(0x01), bulk(0x81)]),
        setting(0, CCID_CLASS, 0, vec![bulk(0x05), bulk(0x85)]),
        setting(1, CCID_CLASS, 2, vec![
            EndpointInfo { bulk: false, address: 0x83 },
            bulk(0x01),
            bulk(0x82),
            bulk(0x02),
        ]),
        setting(1, CCID_CLASS, 3, vec![bulk(0x07), bulk(0x87)]),
    ];
    let plan = interface_facts(&settings, 1).expect("plan");
    assert_eq!(plan.alternate_setting, 2);
    assert_eq!(plan.bulk_out, 0x02);
    assert_eq!(plan.bulk_in, 0x82);
    assert_eq!(plan.facts.slots, 1);
    assert_eq!(plan.facts.maximum_message_length, 271);
    assert_eq!(plan.facts.exchange, DescriptorExchange::ExtendedApdu);

    let missing = interface_facts(&settings, 9).expect_err("absent");
    assert_eq!(missing.message(), "selected USB interface has no CCID alternate setting");
    let only_in = vec![setting(1, CCID_CLASS, 0, vec![bulk(0x81)])];
    assert_eq!(interface_facts(&only_in, 1).expect_err("out").message(), "CCID bulk-out endpoint is missing");
    let mut bare = setting(1, CCID_CLASS, 0, vec![bulk(0x01), bulk(0x81)]);
    bare.descriptors.truncate(1);
    assert_eq!(interface_facts(&[bare], 1).expect_err("class").message(), "CCID class descriptor is missing");
}

#[test]
fn atr_refusals_name_the_first_failed_check() {
    let message = |bytes: &[u8]| Atr::parse(bytes).expect_err("refused").message().to_owned();
    assert_eq!(message(&[]), "ATR is truncated");
    assert_eq!(message(&[0x3A, 0x00]), "ATR convention byte must be 3B or 3F");
    assert_eq!(message(&[0x3B]), "ATR is truncated");
    assert_eq!(message(&[0x3B, 0x10]), "ATR is truncated");
    assert_eq!(message(&[0x3B, 0x01]), "ATR historical bytes are truncated");
    assert_eq!(message(&[0x3B, 0x00, 0x00]), "ATR contains trailing bytes or omits its checksum");
    assert_eq!(message(&[0x3B, 0x80, 0x01]), "ATR contains trailing bytes or omits its checksum");
    assert_eq!(message(&[0x3B, 0x80, 0x01, 0x00]), "ATR checksum does not reduce to zero");
    assert!(Atr::parse(&[0x3B, 0x80, 0x01, 0x81]).is_ok());
    assert_eq!(
        card_atr(&[]).expect_err("pcsc").message(),
        "PC/SC returned an invalid ATR: ATR is truncated"
    );
    assert_eq!(
        reader_atr(&[0x3F]).expect_err("usb").message(),
        "reader returned an invalid ATR: ATR is truncated"
    );
    assert_eq!(
        card_response(&[]).expect_err("short").message(),
        "PC/SC returned a malformed APDU response: a response APDU needs two status bytes"
    );
}

#[test]
fn t1_refusals_name_their_cause() {
    let message = |bytes: &[u8]| Block::decode(bytes).expect_err("refused").message().to_owned();
    assert_eq!(message(&[]), "T=1 block is truncated");
    assert_eq!(message(&[1, 0, 0, 1]), "T=1 non-zero NAD is not negotiated");
    assert_eq!(message(&[0]), "T=1 PCB is truncated");
    assert_eq!(message(&[0, 0]), "T=1 LEN is truncated");
    assert_eq!(message(&[0, 0, 0, 1]), "T=1 block length or LRC is invalid");
    assert_eq!(message(&[0, 0x84, 0, 0x84]), "T=1 R-block contains reserved fields");
    let reserved = Block::R { sequence: false, error: 4 }.encode().expect_err("reserved");
    assert_eq!(reserved.message(), "T=1 R-block error code is reserved");
    assert_eq!(T1Machine::new(Vec::new(), 32).expect_err("empty").message(), "T=1 cannot exchange an empty APDU");
    assert_eq!(T1Machine::new(vec![0], 255).expect_err("ifsc").message(), "T=1 IFSC must be in 1..=254");
    let mut machine = T1Machine::new(vec![0, 0xB0, 0, 0], 32).expect("machine");
    machine.start().expect("start");
    assert_eq!(machine.start().expect_err("again").message(), "T=1 conversation was already started");
    let s_block = Block::S { response: true, kind: 1, information: vec![] }.encode().expect("s");
    assert_eq!(
        machine.accept(&s_block).expect_err("unexpected").message(),
        "unexpected T=1 block for conversation state"
    );
}

#[test]
fn ccid_reply_refusals_name_their_cause() {
    let decode = |bytes: &[u8]| DeviceMessage::decode(bytes).expect_err("refused").message().to_owned();
    assert_eq!(decode(&[0x80, 0, 0]), "CCID response header is truncated");
    assert_eq!(decode(&[0x80, 1, 0, 0, 0, 0, 0, 0, 0, 0]), "CCID response length field does not match transfer");
    assert_eq!(decode(&[0x80, 0, 0, 0, 0, 0, 0, 3, 0, 0]), "CCID response has a reserved ICC status");
    assert_eq!(decode(&[0x80, 0, 0, 0, 0, 0, 0, 0xC0, 0, 0]), "CCID response has a reserved command status");
    let failed = DeviceMessage::decode(&[0x80, 0, 0, 0, 0, 0, 9, 0x40, 0xFE, 0]).expect("decode");
    assert_eq!(
        failed.validate_for(0x80, 0, 9).expect_err("failed").message(),
        "CCID command failed with reader error 0xFE"
    );
    let absent = DeviceMessage::decode(&[0x80, 0, 0, 0, 0, 0, 9, 0x02, 0, 0]).expect("decode");
    assert_eq!(absent.validate_for(0x80, 0, 9).expect_err("absent").message(), "card removed");
    assert_eq!(
        accept_reply(&reply(0, 5, 0x80), RDR_TO_PC_DATA_BLOCK, 0, 5, MAX_TIME_EXTENSIONS - 1)
            .expect_err("limit")
            .message(),
        "reader requested more than 32 consecutive CCID time extensions"
    );
    assert_eq!(
        accept_reply(&reply(1, 5, 0), RDR_TO_PC_DATA_BLOCK, 0, 5, 0).expect_err("slot").message(),
        "reader returned a stale CCID slot or sequence"
    );
}

#[test]
fn a_t1_exchange_completes_with_the_cards_response() {
    let command = Command::new(0x00, 0xB0, 0, 0);
    let (mut exchange, first) = T1Exchange::begin(&command, 32).expect("begin");
    assert_eq!(first, [0, 0x00, 4, 0x00, 0xB0, 0, 0, 0xB4]);
    match exchange.reply(&[0, 0x00, 2, 0x90, 0x00, 0x92]).expect("reply") {
        T1Next::Complete(response) => assert_eq!(response.status().as_u16(), 0x9000),
        other => panic!("unexpected {other:?}"),
    }
    assert_eq!(
        T1Exchange::begin(&command, 0).expect_err("ifsc").message(),
        "T=1 IFSC must be in 1..=254"
    );
}

#[test]
fn a_t1_exchange_sends_at_most_256_blocks() {
    let command = Command::new(0x00, 0xB0, 0, 0);
    let (mut exchange, first) = T1Exchange::begin(&command, 32).expect("begin");
    let retransmit = [0, 0x80, 0, 0x80];
    let mut sent = 1;
    loop {
        match exchange.reply(&retransmit) {
            Ok(T1Next::Send(block)) => {
                assert_eq!(block, first);
                sent += 1;
            }
            Ok(other) => panic!("unexpected {other:?}"),
            Err(error) => {
                assert_eq!(error.message(), "T=1 exchange exceeded 256 transport actions");
                break;
            }
        }
    }
    assert_eq!(sent, MAX_T1_ACTIONS);
}

#[test]
fn an_automatic_transmit_corrects_once_then_collects_the_chain() {
    let command = Command::new(0x80, 0xCA, 0x9F, 0x7F);
    let mut state = AutoTransmit::new(command);
    match state.accept(Response::new(Vec::new(), StatusWord::new(0x6C, 0x03))) {
        Ok(AutoStep::Send(corrected)) => {
            assert_eq!(corrected.to_bytes(), [0x80, 0xCA, 0x9F, 0x7F, 0x03]);
        }
        other => panic!("unexpected {other:?}"),
    }
    match state.accept(Response::new(vec![1, 2], StatusWord::new(0x61, 0x00))) {
        Ok(AutoStep::Send(get_response)) => {
            assert_eq!(get_response.to_bytes(), [0x80, 0xC0, 0x00, 0x00, 0x00]);
        }
        other => panic!("unexpected {other:?}"),
    }
    match state.accept(Response::new(vec![3], StatusWord::new(0x6C, 0x01))) {
        Ok(AutoStep::Done(response)) => {
            assert_eq!(response.data(), [1, 2, 3]);
            assert_eq!(response.status().as_u16(), 0x6C01);
        }
        other => panic!("unexpected {other:?}"),
    }
}

#[test]
fn a_reader_is_known_by_backend_and_selector() {
    let first = pcsc_reader_record("ACS ACR39U 00 00");
    let again = pcsc_reader_record("ACS ACR39U 00 00");
    assert_eq!(first.id, again.id);
    assert_eq!(first.id, ReaderId::from_name(BackendKind::Pcsc, "ACS ACR39U 00 00"));
    assert_eq!(first.selector, "ACS ACR39U 00 00");
    assert_eq!(first.name, first.selector);
    assert_eq!(first.backend, BackendKind::Pcsc);
    assert_ne!(first.id, ReaderId::from_name(BackendKind::NativeUsb, "ACS ACR39U 00 00"));
}

#[test]
fn a_chain_of_32_get_responses_ending_in_9000_succeeds() {
    let mut state = AutoTransmit::new(Command::new(0x00, 0xB0, 0, 0));
    let mut sent = 0;
    let mut step = state.accept(Response::new(vec![0x01], StatusWord::from_u16(0x6101)));
    loop {
        match step {
            Ok(AutoStep::Send(_)) => {
                sent += 1;
                step = if sent < 32 {
                    state.accept(Response::new(vec![0x01], StatusWord::from_u16(0x6101)))
                } else {
                    state.accept(Response::new(vec![0xAA], StatusWord::from_u16(0x9000)))
                };
            }
            Ok(AutoStep::Done(response)) => {
                assert_eq!(sent, 32);
                assert_eq!(response.status(), StatusWord::from_u16(0x9000));
                assert_eq!(response.data().len(), 33);
                assert!(response.data().ends_with(&[0xAA]));
                break;
            }
            Err(error) => panic!("unexpected {error:?}"),
        }
    }
}
