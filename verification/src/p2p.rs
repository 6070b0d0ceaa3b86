//! Peer-facing data types: block sync requests, peer discovery
//! configuration and scoring, and the signaling types for browser peers.

use vstd::prelude::*;

use crate::hash::Digest;
use crate::types::Block;

verus! {

/// Request for a block, by hash or by height.
#[derive(Clone, Debug)]
pub enum BlockRequest {
    ByHash([u8; 32]),
    ByHeight(u64),
}

/// Response to a block request: the block, if found.
#[derive(Clone, Debug)]
pub struct BlockResponse(pub Option<Block>);

impl BlockRequest {
    /// A request for the block carrying a hash.
    pub fn by_hash(h: &Digest) -> (r: Self)
        ensures
            r matches BlockRequest::ByHash(b) && b == h.0,
    {
        BlockRequest::ByHash(h.0)
    }
}

/// Peer reputation inputs: reliability, latency, uptime.
#[derive(Clone, Copy, Debug, PartialEq, Eq, Structural)]
pub struct PeerScore {
    pub reliability: i32,
    pub latency_ms: u32,
    pub uptime_blocks: u64,
}

impl PeerScore {
    pub fn new(reliability: i32, latency_ms: u32, uptime_blocks: u64) -> (r: Self)
        ensures
            r.reliability == reliability,
            r.latency_ms == latency_ms,
            r.uptime_blocks == uptime_blocks,
    {
        PeerScore { reliability, latency_ms, uptime_blocks }
    }

    /// Combined rank: reliability, minus a tenth of the latency, plus the
    /// uptime capped at a thousand blocks.
    pub fn rank(&self) -> (r: i64)
        ensures
            r == self.reliability - self.latency_ms / 10 + (if self.uptime_blocks > 1000 {
                1000int
            } else {
                self.uptime_blocks as int
            }),
    {
        let uptime: i64 = if self.uptime_blocks > 1000 {
            1000
        } else {
            self.uptime_blocks as i64
        };
        (self.reliability as i64) - ((self.latency_ms / 10) as i64) + uptime
    }
}

/// A bootnode address, optionally with its peer identity.
#[derive(Clone, Debug)]
pub struct BootnodeEntry {
    pub multiaddr: Vec<u8>,
    pub peer_id: Option<Vec<u8>>,
}

/// Peer discovery configuration.
#[derive(Clone, Debug)]
pub struct PeerDiscoveryConfig {
    pub use_dht: bool,
    pub use_gossip_first: bool,
    pub bootnodes: Vec<BootnodeEntry>,
    pub use_governance_rotation: bool,
    pub min_peers: u32,
    pub max_peers: u32,
}

impl PeerDiscoveryConfig {
    /// The main-network defaults.
    pub fn default_mainnet() -> (r: Self)
        ensures
            r.use_dht == true,
            r.use_gossip_first == true,
            r.bootnodes@.len() == 0,
            r.use_governance_rotation == false,
            r.min_peers == 10,
            r.max_peers == 50,
    {
        PeerDiscoveryConfig {
            use_dht: true,
            use_gossip_first: true,
            bootnodes: Vec::new(),
            use_governance_rotation: false,
            min_peers: 10,
            max_peers: 50,
        }
    }

    /// The development-network defaults.
    pub fn default_devnet() -> (r: Self)
        ensures
            r.use_dht == false,
            r.use_gossip_first == true,
            r.bootnodes@.len() == 0,
            r.use_governance_rotation == false,
            r.min_peers == 2,
            r.max_peers == 20,
    {
        PeerDiscoveryConfig {
            use_dht: false,
            use_gossip_first: true,
            bootnodes: Vec::new(),
            use_governance_rotation: false,
            min_peers: 2,
            max_peers: 20,
        }
    }
}

/// Rate limit on signaling messages.
#[derive(Clone, Copy, Debug, PartialEq, Eq, Structural)]
pub struct SignalingRateLimit {
    pub max_per_window: u32,
    pub window_secs: u64,
}

impl Default for SignalingRateLimit {
    /// Five messages a minute.
    fn default() -> (r: Self)
        ensures
            r.max_per_window == 5,
            r.window_secs == 60,
    {
        SignalingRateLimit { max_per_window: 5, window_secs: 60 }
    }
}

/// Deposit demanded of an offer's initiator.
#[derive(Clone, Copy, Debug, PartialEq, Eq, Structural)]
pub struct SignalingDepositConfig {
    pub min_deposit: u128,
    pub expiration_secs: u64,
}

impl Default for SignalingDepositConfig {
    /// A small deposit, reclaimable after five minutes.
    fn default() -> (r: Self)
        ensures
            r.min_deposit == 100,
            r.expiration_secs == 300,
    {
        SignalingDepositConfig { min_deposit: 100, expiration_secs: 300 }
    }
}

/// Kinds of signaling messages.
#[derive(Clone, Copy, Debug, PartialEq, Eq, Structural)]
pub enum SignalingMessageKind {
    /// A session offer, encrypted for the recipient.
    Offer,
    /// A session answer, encrypted for the initiator.
    Answer,
    /// A connectivity candidate for hole punching.
    IceCandidate,
}

/// Pointer to off-chain content for large payloads.
#[derive(Clone, Debug, PartialEq, Eq)]
pub struct ContentPointer {
    pub cid: Vec<u8>,
    pub hash: Option<[u8; 32]>,
}

/// A signaling message between two accounts.
#[derive(Clone, Debug)]
pub struct SignalingMessage {
    pub kind: SignalingMessageKind,
    pub sender: [u8; 32],
    pub recipient: [u8; 32],
    pub payload: Option<Vec<u8>>,
    pub content_pointer: Option<ContentPointer>,
}

impl SignalingMessage {
    /// An inline offer.
    pub fn offer(sender: [u8; 32], recipient: [u8; 32], payload: Vec<u8>) -> (r: Self)
        ensures
            r.kind == SignalingMessageKind::Offer,
            r.sender == sender,
            r.recipient == recipient,
            r.payload matches Some(p) && p@ == payload@,
            r.content_pointer matches None,
    {
        SignalingMessage {
            kind: SignalingMessageKind::Offer,
            sender,
            recipient,
            payload: Some(payload),
            content_pointer: None,
        }
    }

    /// An inline answer.
    pub fn answer(sender: [u8; 32], recipient: [u8; 32], payload: Vec<u8>) -> (r: Self)
        ensures
            r.kind == SignalingMessageKind::Answer,
            r.sender == sender,
            r.recipient == recipient,
            r.payload matches Some(p) && p@ == payload@,
            r.content_pointer matches None,
    {
        SignalingMessage {
            kind: SignalingMessageKind::Answer,
            sender,
            recipient,
            payload: Some(payload),
            content_pointer: None,
        }
    }

    /// An inline connectivity candidate.
    pub fn ice_candidate(sender: [u8; 32], recipient: [u8; 32], payload: Vec<u8>) -> (r: Self)
        ensures
            r.kind == SignalingMessageKind::IceCandidate,
            r.sender == sender,
            r.recipient == recipient,
            r.payload matches Some(p) && p@ == payload@,
            r.content_pointer matches None,
    {
        SignalingMessage {
            kind: SignalingMessageKind::IceCandidate,
            sender,
            recipient,
            payload: Some(payload),
            content_pointer: None,
        }
    }

    /// A message whose payload lives off chain, under a content pointer.
    pub fn with_pointer(kind: SignalingMessageKind, sender: [u8; 32], recipient: [u8; 32], cid: Vec<u8>) -> (r: Self)
        ensures
            r.kind == kind,
            r.sender == sender,
            r.recipient == recipient,
            r.payload matches None,
            r.content_pointer matches Some(cp) && cp.cid@ == cid@ && cp.hash matches None,
    {
        SignalingMessage {
            kind,
            sender,
            recipient,
            payload: None,
            content_pointer: Some(ContentPointer { cid, hash: None }),
        }
    }
}

/// Performance metrics of a relay server.
#[derive(Clone, Copy, Debug, PartialEq, Eq, Structural)]
pub struct StunTurnMetrics {
    pub uptime_bps: u16,
    pub avg_latency_ms: u32,
    pub success_rate_bps: u16,
    pub throughput_mb: u64,
}

/// The maximum reputation score.
pub const STUN_TURN_REPUTATION_MAX: u16 = 10_000;

/// Reputation score of a relay server, out of ten thousand.
#[derive(Clone, Copy, Debug, PartialEq, Eq, Structural)]
pub struct StunTurnReputation {
    pub score: u16,
}

impl StunTurnReputation {
    /// A score, clamped to the maximum.
    pub fn new(score: u16) -> (r: Self)
        ensures
            r.score == (if score > STUN_TURN_REPUTATION_MAX {
                STUN_TURN_REPUTATION_MAX
            } else {
                score
            }),
    {
        StunTurnReputation {
            score: if score > STUN_TURN_REPUTATION_MAX {
                STUN_TURN_REPUTATION_MAX
            } else {
                score
            },
        }
    }

    /// The score a server's metrics earn: the mean of uptime and success
    /// rate, raised by a base and lowered by a latency penalty, clamped.
    pub fn from_metrics(metrics: &StunTurnMetrics) -> (r: Self)
        ensures
            r.score <= STUN_TURN_REPUTATION_MAX,
            ({
                let lat_over: int = if metrics.avg_latency_ms >= 100 {
                    metrics.avg_latency_ms - 100
                } else {
                    0
                };
                let capped: int = if lat_over > 500 {
                    500
                } else {
                    lat_over
                };
                let penalty: int = capped / 10;
                let base: int = (metrics.uptime_bps + metrics.success_rate_bps) / 2;
                let raw: int = if base + 5000 >= penalty {
                    base + 5000 - penalty
                } else {
                    0
                };
                r.score == (if raw > STUN_TURN_REPUTATION_MAX {
                    STUN_TURN_REPUTATION_MAX as int
                } else {
                    raw
                })
            }),
    {
        let uptime = metrics.uptime_bps as u32;
        let success = metrics.success_rate_bps as u32;
        let lat_over: u32 = if metrics.avg_latency_ms >= 100 {
            metrics.avg_latency_ms - 100
        } else {
            0
        };
        let capped: u32 = if lat_over > 500 {
            500
        } else {
            lat_over
        };
        let penalty: u32 = capped / 10;
        let base: u32 = (uptime + success) / 2;
        let raw: u32 = if base + 5000 >= penalty {
            base + 5000 - penalty
        } else {
            0
        };
        let clamped: u16 = if raw > STUN_TURN_REPUTATION_MAX as u32 {
            STUN_TURN_REPUTATION_MAX
        } else {
            raw as u16
        };
        StunTurnReputation { score: clamped }
    }
}

/// A registered relay server.
#[derive(Clone, Debug)]
pub struct StunTurnRegistryEntry {
    pub server_id: [u8; 32],
    pub multiaddr: Vec<u8>,
    pub stake: u128,
    pub reputation: StunTurnReputation,
    pub registered_at_secs: u64,
}

/// Result of posting a signaling message.
#[derive(Clone, Copy, Debug)]
pub struct SignalingPostResult {
    pub ok: bool,
    pub message_id: Option<[u8; 32]>,
}

} // verus!
