use ccidkit::protocol::{Block, T1Action, T1Machine};

fn encoded(block: &Block) -> Vec<u8> {
    block.encode().expect("encode")
}

#[test]
fn block_codec_round_trips_every_family_and_rejects_bad_lrc() {
    let blocks = [
        Block::I {
            sequence: true,
            more: true,
            information: vec![1, 2],
        },
        Block::R {
            sequence: true,
            error: 1,
        },
        Block::S {
            response: false,
            kind: 3,
            information: vec![2],
        },
    ];
    for block in blocks {
        let bytes = encoded(&block);
        assert!(matches!(Block::decode(&bytes), Ok(decoded) if decoded == block));
        let mut corrupted = bytes;
        if let Some(last) = corrupted.last_mut() {
            *last ^= 1;
        }
        assert!(Block::decode(&corrupted).is_err());
    }
}

#[test]
fn conversation_chains_command_and_response() {
    let mut machine = T1Machine::new(vec![1, 2, 3], 2).expect("machine");
    assert!(
        matches!(machine.start(), Ok(T1Action::Send(ref bytes)) if matches!(Block::decode(bytes), Ok(decoded) if decoded == Block::I {
            sequence: false,
            more: true,
            information: vec![1, 2],
        }))
    );
    let ack = encoded(&Block::R {
        sequence: true,
        error: 0,
    });
    assert!(
        matches!(machine.accept(&ack), Ok(T1Action::Send(ref bytes)) if matches!(Block::decode(bytes), Ok(decoded) if decoded == Block::I {
            sequence: true,
            more: false,
            information: vec![3],
        }))
    );
    let first = encoded(&Block::I {
        sequence: false,
        more: true,
        information: vec![0x90],
    });
    assert!(matches!(machine.accept(&first), Ok(T1Action::Send(_))));
    let last = encoded(&Block::I {
        sequence: true,
        more: false,
        information: vec![0],
    });
    assert!(matches!(
        machine.accept(&last),
        Ok(T1Action::Complete(bytes)) if bytes == [0x90, 0]
    ));
}

#[test]
fn conversation_answers_wtx_without_advancing() {
    let mut machine = T1Machine::new(vec![0], 32).expect("machine");
    let first = machine.start().expect("start");
    let request = encoded(&Block::S {
        response: false,
        kind: 3,
        information: vec![4],
    });
    let reply = machine.accept(&request).expect("WTX");
    assert_ne!(reply, first);
    assert!(
        matches!(reply, T1Action::Send(ref bytes) if matches!(Block::decode(bytes), Ok(decoded) if decoded == Block::S {
            response: true,
            kind: 3,
            information: vec![4],
        }))
    );
}

#[test]
fn block_boundaries_and_reserved_r_fields_are_enforced() {
    for error in [0, 3] {
        assert!(
            Block::R {
                sequence: false,
                error,
            }
            .encode()
            .is_ok()
        );
    }
    assert!(
        Block::R {
            sequence: false,
            error: 4,
        }
        .encode()
        .is_err()
    );
    assert!(
        Block::S {
            response: false,
            kind: 31,
            information: Vec::new(),
        }
        .encode()
        .is_ok()
    );
    assert!(
        Block::S {
            response: false,
            kind: 32,
            information: Vec::new(),
        }
        .encode()
        .is_err()
    );
    assert!(
        Block::I {
            sequence: false,
            more: false,
            information: vec![0; 254],
        }
        .encode()
        .is_ok()
    );
    assert!(
        Block::I {
            sequence: false,
            more: false,
            information: vec![0; 255],
        }
        .encode()
        .is_err()
    );

    assert!(matches!(
        Block::decode(&encoded(&Block::R {
            sequence: false,
            error: 0,
        })),
        Ok(Block::R {
            sequence: false,
            error: 0
        })
    ));
    assert!(Block::decode(&[0, 0x80, 1, 0, 0x81]).is_err());
    assert!(Block::decode(&[0, 0x84, 0, 0x84]).is_err());
}

#[test]
fn conversation_rejects_restart_and_bad_wtx_forms() {
    let mut machine = T1Machine::new(vec![0], 32).expect("machine");
    let _first = machine.start().expect("start");
    assert!(machine.start().is_err());
    for information in [Vec::new(), vec![0], vec![1, 2]] {
        let request = encoded(&Block::S {
            response: false,
            kind: 3,
            information,
        });
        assert!(machine.accept(&request).is_err());
    }
}

#[test]
fn conversation_distinguishes_ack_retry_and_premature_response() {
    let mut machine = T1Machine::new(vec![1, 2, 3], 2).expect("machine");
    let first = machine.start().expect("start");
    let retry = encoded(&Block::R {
        sequence: false,
        error: 1,
    });
    assert_eq!(machine.accept(&retry).expect("retry"), first);

    let premature = encoded(&Block::I {
        sequence: false,
        more: false,
        information: vec![0x90, 0],
    });
    assert!(machine.accept(&premature).is_err());

    let ack = encoded(&Block::R {
        sequence: true,
        error: 0,
    });
    let _last_command = machine.accept(&ack).expect("ack");
    let impossible_final_ack = encoded(&Block::R {
        sequence: false,
        error: 0,
    });
    assert!(machine.accept(&impossible_final_ack).is_err());
}

#[test]
fn duplicate_response_block_requests_the_expected_sequence() {
    let mut machine = T1Machine::new(vec![1], 32).expect("machine");
    let _command = machine.start().expect("start");
    let duplicate = encoded(&Block::I {
        sequence: true,
        more: false,
        information: vec![9],
    });
    let action = machine.accept(&duplicate).expect("R-block");
    assert!(
        matches!(action, T1Action::Send(bytes) if matches!(Block::decode(&bytes), Ok(Block::R { sequence: false, error: 0 })))
    );
}
