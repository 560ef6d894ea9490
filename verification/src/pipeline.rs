//! The per-event decisions of the message/acknowledgement protocol
//! pipeline.
//!
//! The pipeline joins four streams — incoming packets, outgoing packets,
//! incoming acks, outgoing acks. The concurrent plumbing lives with the
//! embedder; each event is decided here: what to deliver, what to
//! forward, which acknowledgement to emit, and which counters move.
//! Peers, acknowledgements, packets and addresses appear as plain byte
//! values.

use vstd::prelude::*;

verus! {

/// The tags of the supervised pipeline tasks.
#[derive(Debug, PartialEq, Eq, Hash)]
pub enum ProtocolProcesses {
    /// Incoming acknowledgements.
    AckIn,
    /// Outgoing acknowledgements.
    AckOut,
    /// Incoming packets.
    MsgIn,
    /// Outgoing packets.
    MsgOut,
    /// The mixer overlay.
    Mixer,
    /// Periodic persistence of the tag Bloom filter.
    BloomPersist,
}

impl ProtocolProcesses {
    /// The display label of the task.
    pub fn label(&self) -> (r: String)
        ensures
            match self {
                ProtocolProcesses::AckIn => r@ == "HOPR [ack] - ingress"@,
                ProtocolProcesses::AckOut => r@ == "HOPR [ack] - egress"@,
                ProtocolProcesses::MsgIn => r@ == "HOPR [msg] - ingress"@,
                ProtocolProcesses::MsgOut => r@ == "HOPR [msg] - egress"@,
                ProtocolProcesses::Mixer => r@ == "HOPR [msg] - mixer"@,
                ProtocolProcesses::BloomPersist => r@ == "bloom filter persistence (periodic)"@,
            },
    {
        match self {
            ProtocolProcesses::AckIn => "HOPR [ack] - ingress".to_owned(),
            ProtocolProcesses::AckOut => "HOPR [ack] - egress".to_owned(),
            ProtocolProcesses::MsgIn => "HOPR [msg] - ingress".to_owned(),
            ProtocolProcesses::MsgOut => "HOPR [msg] - egress".to_owned(),
            ProtocolProcesses::Mixer => "HOPR [msg] - mixer".to_owned(),
            ProtocolProcesses::BloomPersist => "bloom filter persistence (periodic)".to_owned(),
        }
    }
}

/// Processed indexer events, with peers and addresses as plain bytes.
#[derive(Debug, PartialEq, Eq)]
pub enum PeerDiscovery {
    Allow(Vec<u8>),
    Ban(Vec<u8>),
    Announce(Vec<u8>, Vec<Vec<u8>>),
}

/// How many milliseconds pass between Bloom filter persists.
pub const BLOOM_PERSIST_INTERVAL_MS: u64 = 90000;

/// What the packet processor made of an incoming packet.
#[derive(Debug, PartialEq, Eq)]
pub enum RecvOperation {
    /// The packet terminates here: deliver `data`, acknowledge the
    /// previous hop.
    Receive { data: Vec<u8>, ack_peer: Vec<u8>, ack: Vec<u8> },
    /// The packet moves on: forward it, acknowledge the previous hop.
    Forward { msg_peer: Vec<u8>, msg_data: Vec<u8>, ack_peer: Vec<u8>, ack: Vec<u8> },
}

/// Why the packet processor rejected an incoming packet.
#[derive(Debug, PartialEq, Eq)]
pub enum PacketError {
    /// The packet's tag was seen before.
    TagReplay,
    /// Its ticket failed validation, for the given reason.
    TicketValidation(Vec<u8>),
    /// Any other failure, described by a message.
    Other(Vec<u8>),
}

/// The one acknowledgement every incoming packet earns.
#[derive(Debug, PartialEq, Eq)]
pub enum AckAction {
    /// Enqueue the processed acknowledgement for this peer.
    Processed { peer: Vec<u8>, ack: Vec<u8> },
    /// Enqueue a random signed acknowledgement for this peer, drawn by
    /// the embedder with the local keypair.
    RandomSigned { peer: Vec<u8> },
}

/// Everything one incoming packet causes.
#[derive(Debug, PartialEq, Eq)]
pub struct MsgInEffects {
    /// What goes up to the application, on a terminal receive.
    pub deliver: Option<Vec<u8>>,
    /// What goes back onto the wire, on a forward: next peer and bytes.
    pub forward: Option<(Vec<u8>, Vec<u8>)>,
    /// The acknowledgement to emit; there is always exactly one.
    pub ack: AckAction,
}

/// The pipeline counters.
#[derive(Debug, PartialEq, Eq)]
pub struct ProtocolMetrics {
    pub received_acks_valid: u64,
    pub received_acks_invalid: u64,
    pub winning_tickets: u64,
    pub losing_tickets: u64,
    pub sent_acks: u64,
    pub replayed_packets: u64,
    pub rejected_tickets: u64,
}

/// A counter moves up by one until it saturates.
pub open spec fn bump(x: u64) -> u64 {
    if x < u64::MAX {
        (x + 1) as u64
    } else {
        x
    }
}

fn bump_counter(x: &mut u64)
    ensures
        *final(x) == bump(*old(x)),
{
    if *x < u64::MAX {
        *x = *x + 1;
    }
}

impl ProtocolMetrics {
    /// All counters start at zero.
    pub fn new() -> (m: Self)
        ensures
            m == (ProtocolMetrics {
                received_acks_valid: 0,
                received_acks_invalid: 0,
                winning_tickets: 0,
                losing_tickets: 0,
                sent_acks: 0,
                replayed_packets: 0,
                rejected_tickets: 0,
            }),
    {
        ProtocolMetrics {
            received_acks_valid: 0,
            received_acks_invalid: 0,
            winning_tickets: 0,
            losing_tickets: 0,
            sent_acks: 0,
            replayed_packets: 0,
            rejected_tickets: 0,
        }
    }
}

/// Decides what one incoming packet causes: on a terminal receive the
/// data goes up and the previous hop is acknowledged; on a forward the
/// packet goes on and the previous hop is acknowledged; on an error
/// nothing is delivered or forwarded, and a random signed acknowledgement
/// goes back so the sender hears something even for rejected traffic.
/// Replays and ticket rejections move their counters.
pub fn msg_in_step(
    outcome: Result<RecvOperation, (Vec<u8>, PacketError)>,
    metrics: &mut ProtocolMetrics,
) -> (e: MsgInEffects)
    ensures
        match outcome {
            Ok(RecvOperation::Receive { data, ack_peer, ack }) => {
                &&& e == (MsgInEffects {
                    deliver: Some(data),
                    forward: None,
                    ack: AckAction::Processed { peer: ack_peer, ack },
                })
                &&& *final(metrics) == *old(metrics)
            },
            Ok(RecvOperation::Forward { msg_peer, msg_data, ack_peer, ack }) => {
                &&& e == (MsgInEffects {
                    deliver: None,
                    forward: Some((msg_peer, msg_data)),
                    ack: AckAction::Processed { peer: ack_peer, ack },
                })
                &&& *final(metrics) == *old(metrics)
            },
            Err((peer, reason)) => {
                &&& e == (MsgInEffects {
                    deliver: None,
                    forward: None,
                    ack: AckAction::RandomSigned { peer },
                })
                &&& final(metrics).replayed_packets == (if reason is TagReplay {
                    bump(old(metrics).replayed_packets)
                } else {
                    old(metrics).replayed_packets
                })
                &&& final(metrics).rejected_tickets == (if reason is TicketValidation {
                    bump(old(metrics).rejected_tickets)
                } else {
                    old(metrics).rejected_tickets
                })
                &&& final(metrics).received_acks_valid == old(metrics).received_acks_valid
                &&& final(metrics).received_acks_invalid == old(metrics).received_acks_invalid
                &&& final(metrics).winning_tickets == old(metrics).winning_tickets
                &&& final(metrics).losing_tickets == old(metrics).losing_tickets
                &&& final(metrics).sent_acks == old(metrics).sent_acks
            },
        },
{
    match outcome {
        Ok(op) => match op {
            RecvOperation::Receive { data, ack_peer, ack } => MsgInEffects {
                deliver: Some(data),
                forward: None,
                ack: AckAction::Processed { peer: ack_peer, ack },
            },
            RecvOperation::Forward { msg_peer, msg_data, ack_peer, ack } => MsgInEffects {
                deliver: None,
                forward: Some((msg_peer, msg_data)),
                ack: AckAction::Processed { peer: ack_peer, ack },
            },
        },
        Err((peer, reason)) => {
            match reason {
                PacketError::TagReplay => {
                    bump_counter(&mut metrics.replayed_packets);
                },
                PacketError::TicketValidation(_) => {
                    bump_counter(&mut metrics.rejected_tickets);
                },
                PacketError::Other(_) => {},
            }
            MsgInEffects { deliver: None, forward: None, ack: AckAction::RandomSigned { peer } }
        },
    }
}

/// Exactly one acknowledgement is emitted per recv outcome, errors
/// included, and a packet is never both delivered and forwarded: the
/// three cases of [`msg_in_step`] each carry one ack action, and its
/// effects never hold a delivery and a forward at once.
pub proof fn lemma_one_ack_per_outcome(
    outcome: Result<RecvOperation, (Vec<u8>, PacketError)>,
    e: MsgInEffects,
    m0: ProtocolMetrics,
    m1: ProtocolMetrics,
)
    requires
        match outcome {
            Ok(RecvOperation::Receive { data, ack_peer, ack }) => e == (MsgInEffects {
                deliver: Some(data),
                forward: None,
                ack: AckAction::Processed { peer: ack_peer, ack },
            }),
            Ok(RecvOperation::Forward { msg_peer, msg_data, ack_peer, ack }) => e
                == (MsgInEffects {
                deliver: None,
                forward: Some((msg_peer, msg_data)),
                ack: AckAction::Processed { peer: ack_peer, ack },
            }),
            Err((peer, reason)) => e == (MsgInEffects {
                deliver: None,
                forward: None,
                ack: AckAction::RandomSigned { peer },
            }),
        },
    ensures
        !(e.deliver is Some && e.forward is Some),
        outcome is Err ==> e.ack is RandomSigned && e.deliver is None && e.forward is None,
        outcome is Ok ==> e.ack is Processed,
{
}

/// What the acknowledgement processor made of an incoming ack.
#[derive(Debug, PartialEq, Eq)]
pub enum AckResult {
    /// We were the sender: the half-key challenge was solved.
    Sender(Vec<u8>),
    /// We relayed and the embedded ticket is a win.
    RelayerWinning(Vec<u8>),
    /// We relayed and the ticket lost.
    RelayerLosing,
}

/// Counts one incoming acknowledgement outcome: valid acks and ticket
/// outcomes move their counters, failures count as invalid.
pub fn ack_in_step(result: &Result<AckResult, Vec<u8>>, metrics: &mut ProtocolMetrics)
    ensures
        final(metrics).received_acks_valid == (if result is Ok {
            bump(old(metrics).received_acks_valid)
        } else {
            old(metrics).received_acks_valid
        }),
        final(metrics).received_acks_invalid == (if result is Err {
            bump(old(metrics).received_acks_invalid)
        } else {
            old(metrics).received_acks_invalid
        }),
        final(metrics).winning_tickets == (match result {
            Ok(AckResult::RelayerWinning(_)) => bump(old(metrics).winning_tickets),
            _ => old(metrics).winning_tickets,
        }),
        final(metrics).losing_tickets == (match result {
            Ok(AckResult::RelayerLosing) => bump(old(metrics).losing_tickets),
            _ => old(metrics).losing_tickets,
        }),
        final(metrics).sent_acks == old(metrics).sent_acks,
        final(metrics).replayed_packets == old(metrics).replayed_packets,
        final(metrics).rejected_tickets == old(metrics).rejected_tickets,
{
    match result {
        Ok(r) => {
            bump_counter(&mut metrics.received_acks_valid);
            match r {
                AckResult::Sender(_) => {},
                AckResult::RelayerWinning(_) => {
                    bump_counter(&mut metrics.winning_tickets);
                },
                AckResult::RelayerLosing => {
                    bump_counter(&mut metrics.losing_tickets);
                },
            }
        },
        Err(_) => {
            bump_counter(&mut metrics.received_acks_invalid);
        },
    }
}

/// Counts one outgoing acknowledgement.
pub fn ack_out_step(metrics: &mut ProtocolMetrics)
    ensures
        *final(metrics) == (ProtocolMetrics {
            sent_acks: bump(old(metrics).sent_acks),
            ..*old(metrics)
        }),
{
    bump_counter(&mut metrics.sent_acks);
}

/// Everything one outgoing send attempt causes.
#[derive(Debug, PartialEq, Eq)]
pub struct MsgOutEffects {
    /// What the caller's finalizer is completed with — success, or the
    /// send error itself; it is completed exactly once either way.
    pub finalize: Result<(), Vec<u8>>,
    /// What goes onto the wire on success: next peer and bytes.
    pub emit: Option<(Vec<u8>, Vec<u8>)>,
}

/// Decides what one outgoing packet causes: on success the finalizer
/// completes with success and the wrapped packet goes out; on failure the
/// finalizer completes with the send error and nothing is emitted.
pub fn msg_out_step(send_result: Result<(Vec<u8>, Vec<u8>), Vec<u8>>) -> (e: MsgOutEffects)
    ensures
        match send_result {
            Ok(v) => e == (MsgOutEffects { finalize: Ok(()), emit: Some(v) }),
            Err(err) => e == (MsgOutEffects { finalize: Err(err), emit: None }),
        },
{
    match send_result {
        Ok(v) => MsgOutEffects { finalize: Ok(()), emit: Some(v) },
        Err(err) => MsgOutEffects { finalize: Err(err), emit: None },
    }
}

} // verus!
