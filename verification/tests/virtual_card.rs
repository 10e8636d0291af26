use ccidkit::facade::{
    route_job, virtual_presence_change, AutoStep, AutoTransmit, JobKind, JobRoute, PresenceChange,
};
use ccidkit::testing::{Scenario, ScriptEvent};
use ccidkit::virtual_reader::{VirtualReply, VirtualState};
use ccidkit::{Atr, Command, Response, Result, StatusWord};

fn atr() -> Atr {
    Atr::parse(&[0x3B, 0x00]).expect("valid fixture")
}

fn exchange(state: &mut VirtualState, command: &Command) -> Result<Response> {
    match state.transmit(command) {
        VirtualReply::Finished(result) => result,
        VirtualReply::Hang => panic!("the script hangs"),
    }
}

/// What the card worker does for an automatic transmit: follow the policy's requests.
fn transmit(state: &mut VirtualState, command: Command) -> Result<Response> {
    let mut policy = AutoTransmit::new(command);
    let mut next = policy.first_command();
    loop {
        let reply = exchange(state, &next)?;
        match policy.accept(reply)? {
            AutoStep::Send(command) => next = command,
            AutoStep::Done(response) => return Ok(response),
        }
    }
}

#[test]
fn virtual_card_runs_the_public_quick_path() {
    let command = Command::new(0, 0x84, 0, 0);
    let expected = Response::new(vec![1, 2, 3], StatusWord::from_u16(0x9000));
    let scenario = Scenario::new()
        .insert(atr())
        .respond(command.clone(), expected.clone());
    let mut state = VirtualState::new(scenario);
    state.connect().expect("card");
    let response = transmit(&mut state, command).expect("transmit");
    assert_eq!(response, expected);
}

#[test]
fn monitor_reports_scripted_presence() {
    let mut state = VirtualState::new(Scenario::new().insert(atr()));
    let known: Vec<_> = state
        .readers()
        .expect("context")
        .into_iter()
        .map(|record| record.id)
        .collect();
    let event = state.next_event().expect("event");
    assert!(matches!(
        virtual_presence_change(event, &known),
        Some(PresenceChange::CardInserted(_))
    ));
}

#[test]
fn automatic_transmit_corrects_le_and_collects_get_response() {
    let original = Command::new(0, 0xCA, 0, 0)
        .with_expected_len(1)
        .expect("Le");
    let corrected = Command::new(0, 0xCA, 0, 0)
        .with_expected_len(3)
        .expect("Le");
    let get_response = Command::new(0, 0xC0, 0, 0)
        .with_expected_len(2)
        .expect("Le");
    let scenario = Scenario::new()
        .insert(atr())
        .respond(
            original.clone(),
            Response::new(vec![], StatusWord::from_u16(0x6C03)),
        )
        .respond(corrected, Response::new(vec![1], StatusWord::from_u16(0x6102)))
        .respond(
            get_response,
            Response::new(vec![2, 3], StatusWord::from_u16(0x9000)),
        );
    let mut state = VirtualState::new(scenario);
    state.connect().expect("card");
    let response = transmit(&mut state, original).expect("transmit");
    assert_eq!(response.data(), [1, 2, 3]);
    assert_eq!(response.status(), StatusWord::from_u16(0x9000));
}

#[test]
fn raw_transmit_never_follows_card_status_policy() {
    let command = Command::new(0, 0xCA, 0, 0);
    let scenario = Scenario::new().insert(atr()).respond(
        command.clone(),
        Response::new(vec![9], StatusWord::from_u16(0x6102)),
    );
    let mut state = VirtualState::new(scenario);
    state.connect().expect("card");
    let response = exchange(&mut state, &command).expect("transmit");
    assert_eq!(response.data(), [9]);
    assert_eq!(response.status(), StatusWord::from_u16(0x6102));
}

#[test]
fn transaction_drop_releases_the_fifo_for_following_card_work() {
    let inside = Command::new(0, 1, 0, 0);
    let after = Command::new(0, 2, 0, 0);
    let scenario = Scenario::new()
        .insert(atr())
        .respond(
            inside.clone(),
            Response::new(vec![1], StatusWord::from_u16(0x9000)),
        )
        .respond(
            after.clone(),
            Response::new(vec![2], StatusWord::from_u16(0x9000)),
        );
    let mut state = VirtualState::new(scenario);
    state.connect().expect("card");
    assert_eq!(route_job(false, JobKind::Begin), JobRoute::StartTransaction);
    assert_eq!(route_job(true, JobKind::Transmit), JobRoute::Run);
    let response = exchange(&mut state, &inside).expect("transaction transmit");
    assert_eq!(response.data(), [1]);
    assert_eq!(route_job(true, JobKind::End), JobRoute::EndTransaction);
    assert_eq!(route_job(false, JobKind::Transmit), JobRoute::Run);
    let response = exchange(&mut state, &after).expect("work after transaction");
    assert_eq!(response.data(), [2]);
}

#[test]
fn dropping_a_hung_operation_unblocks_the_ordered_card_worker() {
    let first = Command::new(0, 1, 0, 0);
    let second = Command::new(0, 2, 0, 0);
    let scenario = Scenario::new().insert(atr()).hang().respond(
        second.clone(),
        Response::new(vec![], StatusWord::from_u16(0x9000)),
    );
    let mut state = VirtualState::new(scenario);
    state.connect().expect("card");
    assert!(matches!(state.transmit(&first), VirtualReply::Hang));
    let response = transmit(&mut state, second).expect("worker drains cancellation");
    assert!(response.status().is_success());
}

#[test]
fn scripted_events_come_out_in_order() {
    let mut scenario = Scenario::new().insert(atr()).remove();
    assert_eq!(scenario.next_event(), Some(ScriptEvent::Inserted));
    assert_eq!(scenario.next_event(), Some(ScriptEvent::Removed));
    assert_eq!(scenario.next_event(), None);
}
