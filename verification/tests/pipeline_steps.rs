use rpc_protocol::pipeline::{ack_in_step, ack_out_step, msg_in_step, msg_out_step, AckAction,
    AckResult, MsgInEffects, MsgOutEffects, PacketError, ProtocolMetrics, ProtocolProcesses,
    RecvOperation, BLOOM_PERSIST_INTERVAL_MS};

#[test]
fn forward_path_emits_one_message_and_one_ack() {
    let mut metrics = ProtocolMetrics::new();
    let effects = msg_in_step(
        Ok(RecvOperation::Forward {
            msg_peer: b"next-hop".to_vec(),
            msg_data: b"onion".to_vec(),
            ack_peer: b"prev-hop".to_vec(),
            ack: b"ack-bytes".to_vec(),
        }),
        &mut metrics,
    );
    assert_eq!(
        effects,
        MsgInEffects {
            deliver: None,
            forward: Some((b"next-hop".to_vec(), b"onion".to_vec())),
            ack: AckAction::Processed { peer: b"prev-hop".to_vec(), ack: b"ack-bytes".to_vec() },
        },
        "exactly one item goes to the wire and one ack goes back; nothing reaches the application"
    );
    assert_eq!(metrics, ProtocolMetrics::new());
}

#[test]
fn receive_path_delivers_and_acks() {
    let mut metrics = ProtocolMetrics::new();
    let effects = msg_in_step(
        Ok(RecvOperation::Receive {
            data: b"payload".to_vec(),
            ack_peer: b"prev-hop".to_vec(),
            ack: b"ack-bytes".to_vec(),
        }),
        &mut metrics,
    );
    assert_eq!(effects.deliver, Some(b"payload".to_vec()));
    assert_eq!(effects.forward, None);
    assert_eq!(
        effects.ack,
        AckAction::Processed { peer: b"prev-hop".to_vec(), ack: b"ack-bytes".to_vec() }
    );
}

#[test]
fn tag_replay_bumps_the_counter_and_acks_randomly() {
    let mut metrics = ProtocolMetrics::new();
    let effects = msg_in_step(Err((b"sender".to_vec(), PacketError::TagReplay)), &mut metrics);
    assert_eq!(metrics.replayed_packets, 1, "the replay counter increments by 1");
    assert_eq!(metrics.rejected_tickets, 0);
    assert_eq!(
        effects,
        MsgInEffects {
            deliver: None,
            forward: None,
            ack: AckAction::RandomSigned { peer: b"sender".to_vec() },
        },
        "exactly one random signed ack goes back to the sender"
    );
}

#[test]
fn ticket_rejections_bump_their_counter() {
    let mut metrics = ProtocolMetrics::new();
    let effects = msg_in_step(
        Err((b"sender".to_vec(), PacketError::TicketValidation(b"too cheap".to_vec()))),
        &mut metrics,
    );
    assert_eq!(metrics.rejected_tickets, 1);
    assert_eq!(metrics.replayed_packets, 0);
    assert!(matches!(effects.ack, AckAction::RandomSigned { .. }));
}

#[test]
fn ack_outcomes_are_counted() {
    let mut metrics = ProtocolMetrics::new();
    ack_in_step(&Ok(AckResult::Sender(b"challenge".to_vec())), &mut metrics);
    ack_in_step(&Ok(AckResult::RelayerWinning(b"ticket".to_vec())), &mut metrics);
    ack_in_step(&Ok(AckResult::RelayerLosing), &mut metrics);
    ack_in_step(&Err(b"bad ack".to_vec()), &mut metrics);
    assert_eq!(metrics.received_acks_valid, 3);
    assert_eq!(metrics.received_acks_invalid, 1);
    assert_eq!(metrics.winning_tickets, 1);
    assert_eq!(metrics.losing_tickets, 1);

    ack_out_step(&mut metrics);
    assert_eq!(metrics.sent_acks, 1);
}

#[test]
fn outgoing_sends_finalize_exactly_once_with_the_outcome() {
    let ok = msg_out_step(Ok((b"next".to_vec(), b"wire".to_vec())));
    assert_eq!(
        ok,
        MsgOutEffects { finalize: Ok(()), emit: Some((b"next".to_vec(), b"wire".to_vec())) }
    );
    let err = msg_out_step(Err(b"path closed".to_vec()));
    assert_eq!(
        err,
        MsgOutEffects { finalize: Err(b"path closed".to_vec()), emit: None },
        "the finalizer receives the send error itself"
    );
}

#[test]
fn process_labels_match_the_wire_names() {
    assert_eq!(ProtocolProcesses::AckIn.label(), "HOPR [ack] - ingress");
    assert_eq!(ProtocolProcesses::AckOut.label(), "HOPR [ack] - egress");
    assert_eq!(ProtocolProcesses::MsgIn.label(), "HOPR [msg] - ingress");
    assert_eq!(ProtocolProcesses::MsgOut.label(), "HOPR [msg] - egress");
    assert_eq!(ProtocolProcesses::Mixer.label(), "HOPR [msg] - mixer");
    assert_eq!(ProtocolProcesses::BloomPersist.label(), "bloom filter persistence (periodic)");
}

#[test]
fn bloom_persistence_runs_every_ninety_seconds() {
    assert_eq!(BLOOM_PERSIST_INTERVAL_MS, 90_000);
}
