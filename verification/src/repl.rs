use vstd::prelude::*;

use crate::value::{values_view, RedisValue, SpecValue};

verus! {

/// A replication-ID character: A-Z, a-z or 0-9.
pub open spec fn is_replid_char(b: u8) -> bool {
    (65 <= b <= 90) || (97 <= b <= 122) || (48 <= b <= 57)
}

/// A well-formed replication ID: 40 alphanumeric characters.
pub open spec fn wf_replid(s: Seq<u8>) -> bool {
    s.len() == 40 && forall|i: int| 0 <= i < s.len() ==> is_replid_char(#[trigger] s[i])
}

/// Relies on rand::Rng::gen_range over `0..n`: it panics only on an empty
/// range and returns a value drawn from the range.
#[verifier::external_body]
fn rand_below(n: usize) -> (r: usize)
    requires
        n > 0,
    ensures
        r < n,
{
    rand::Rng::gen_range(&mut rand::thread_rng(), 0..n)
}

/// A fresh replication ID: 40 characters drawn at random from A-Z, a-z, 0-9.
#[verifier::loop_isolation(false)]
pub fn gen_uuid() -> (r: Vec<u8>)
    ensures
        wf_replid(r@),
{
    let mut out: Vec<u8> = Vec::new();
    let mut i: usize = 0;
    while i < 40
        invariant
            i <= 40,
            out@.len() == i,
            forall|j: int| 0 <= j < out@.len() ==> is_replid_char(#[trigger] out@[j]),
        decreases 40 - i,
    {
        let idx = rand_below(62);
        let b: u8 = if idx < 26 {
            65 + idx as u8
        } else if idx < 52 {
            97 + (idx - 26) as u8
        } else {
            48 + (idx - 52) as u8
        };
        out.push(b);
        i += 1;
    }
    out
}

/// Identity of this server when it runs as a master.
pub struct RedisMasterContext {
    /// master replication ID
    pub master_replid: Vec<u8>,
    /// offset into the circular replication buffer
    pub master_repl_offset: u64,
}

impl RedisMasterContext {
    pub fn new() -> (r: RedisMasterContext)
        ensures
            wf_replid(r.master_replid@),
            r.master_repl_offset == 0,
    {
        RedisMasterContext { master_replid: gen_uuid(), master_repl_offset: 0 }
    }
}

/// State of this server when it runs as a replica of a master.
pub struct RedisReplicaContext {
    /// master replication ID
    pub master_replid: Vec<u8>,
    /// offset into the circular backlog buffer
    pub master_repl_offset: u64,
    /// offset of the replica into the circular backlog buffer
    pub slave_repl_offset: u64,
    /// backup replication ID
    pub master_replid2: Option<Vec<u8>>,
    /// backup replication offset
    pub second_repl_offset: Option<u64>,
}

impl RedisReplicaContext {
    /// The state a replica starts from once the handshake has delivered the
    /// master's snapshot.
    pub fn new() -> (r: RedisReplicaContext)
        ensures
            wf_replid(r.master_replid@),
            r.master_repl_offset == 0,
            r.slave_repl_offset == 0,
            r.master_replid2 is None,
            r.second_repl_offset is None,
    {
        RedisReplicaContext {
            master_replid: gen_uuid(),
            master_repl_offset: 0,
            slave_repl_offset: 0,
            master_replid2: Option::None,
            second_repl_offset: Option::None,
        }
    }
}

/// Whether this server is a master or a replica, with the identity of each.
pub enum ServerContext {
    Master(RedisMasterContext),
    Replica(RedisReplicaContext),
}

impl ServerContext {
    /// The replication ID this server advertises.
    pub open spec fn spec_replid(&self) -> Seq<u8> {
        match self {
            ServerContext::Master(c) => c.master_replid@,
            ServerContext::Replica(c) => c.master_replid@,
        }
    }

    pub fn is_master(&self) -> (r: bool)
        ensures
            r == (self is Master),
    {
        match self {
            ServerContext::Master(_) => true,
            ServerContext::Replica(_) => false,
        }
    }

    pub fn get_master_replid(&self) -> (r: &Vec<u8>)
        ensures
            r@ == self.spec_replid(),
    {
        match self {
            ServerContext::Master(c) => &c.master_replid,
            ServerContext::Replica(c) => &c.master_replid,
        }
    }
}

/// Where a replica stands in its bootstrap against the master: the linear run
/// of PING, the two REPLCONF exchanges, PSYNC, receiving the snapshot, ready.
#[derive(PartialEq, Eq, Structural, Debug, Clone, Copy)]
pub enum HandshakeState {
    Ping,
    ReplconfPort,
    ReplconfCapa,
    Psync,
    ReceivingRdb,
    Ready,
}

/// The bytes "PONG".
pub open spec fn spec_pong() -> Seq<u8> {
    seq![80u8, 79, 78, 71]
}

/// The bytes "OK".
pub open spec fn spec_ok() -> Seq<u8> {
    seq![79u8, 75]
}

/// The request a replica sends in each handshake state, as a value tree:
/// nothing once frames stop flowing.
pub open spec fn spec_handshake_request(state: HandshakeState, port: u64) -> Option<SpecValue> {
    match state {
        // PING
        HandshakeState::Ping => Option::Some(SpecValue::Array(seq![
            SpecValue::BulkString(seq![80u8, 73, 78, 71]),
        ])),
        // REPLCONF listening-port <port>
        HandshakeState::ReplconfPort => Option::Some(SpecValue::Array(seq![
            SpecValue::BulkString(seq![82u8, 69, 80, 76, 67, 79, 78, 70]),
            SpecValue::BulkString(
                seq![108u8, 105, 115, 116, 101, 110, 105, 110, 103, 45, 112, 111, 114, 116],
            ),
            SpecValue::BulkString(crate::num::spec_dec(port as nat)),
        ])),
        // REPLCONF capa psync2
        HandshakeState::ReplconfCapa => Option::Some(SpecValue::Array(seq![
            SpecValue::BulkString(seq![82u8, 69, 80, 76, 67, 79, 78, 70]),
            SpecValue::BulkString(seq![99u8, 97, 112, 97]),
            SpecValue::BulkString(seq![112u8, 115, 121, 110, 99, 50]),
        ])),
        // PSYNC ? -1
        HandshakeState::Psync => Option::Some(SpecValue::Array(seq![
            SpecValue::BulkString(seq![80u8, 83, 89, 78, 67]),
            SpecValue::BulkString(seq![63u8]),
            SpecValue::BulkString(seq![45u8, 49]),
        ])),
        HandshakeState::ReceivingRdb => Option::None,
        HandshakeState::Ready => Option::None,
    }
}

/// The state that follows on a given master reply: nothing on a reply the
/// handshake refuses, which is fatal to start-up.
pub open spec fn spec_handshake_step(state: HandshakeState, response: SpecValue) -> Option<
    HandshakeState,
> {
    match state {
        HandshakeState::Ping => if response == SpecValue::SimpleString(spec_pong()) {
            Option::Some(HandshakeState::ReplconfPort)
        } else {
            Option::None
        },
        HandshakeState::ReplconfPort => if response == SpecValue::SimpleString(spec_ok()) {
            Option::Some(HandshakeState::ReplconfCapa)
        } else {
            Option::None
        },
        HandshakeState::ReplconfCapa => if response == SpecValue::SimpleString(spec_ok()) {
            Option::Some(HandshakeState::Psync)
        } else {
            Option::None
        },
        // the FULLRESYNC reply is read and discarded
        HandshakeState::Psync => Option::Some(HandshakeState::ReceivingRdb),
        HandshakeState::ReceivingRdb => Option::None,
        HandshakeState::Ready => Option::None,
    }
}

/// Builds the request for the given handshake state.
pub fn handshake_request(state: &HandshakeState, port: u64) -> (r: Option<RedisValue>)
    ensures
        (match spec_handshake_request(*state, port) {
            Option::Some(v) => r matches Option::Some(rv) && rv@ == v,
            Option::None => r is None,
        }),
{
    match state {
        HandshakeState::Ping => {
            let mut parts: Vec<RedisValue> = Vec::new();
            parts.push(RedisValue::BulkString(vec![80u8, 73, 78, 71]));
            proof {
                crate::value::lemma_values_view(parts@);
                assert(values_view(parts@) =~~= seq![SpecValue::BulkString(seq![
                    80u8, 73, 78, 71,
                ])]);
            }
            Option::Some(RedisValue::Array(parts))
        },
        HandshakeState::ReplconfPort => {
            let mut port_bytes: Vec<u8> = Vec::new();
            crate::num::push_decimal(&mut port_bytes, port);
            proof {
                assert(port_bytes@ =~= crate::num::spec_dec(port as nat));
            }
            let mut parts: Vec<RedisValue> = Vec::new();
            parts.push(RedisValue::BulkString(vec![82u8, 69, 80, 76, 67, 79, 78, 70]));
            parts.push(RedisValue::BulkString(
                vec![108u8, 105, 115, 116, 101, 110, 105, 110, 103, 45, 112, 111, 114, 116],
            ));
            parts.push(RedisValue::BulkString(port_bytes));
            proof {
                crate::value::lemma_values_view(parts@);
                assert(values_view(parts@) =~~= seq![
                    SpecValue::BulkString(seq![82u8, 69, 80, 76, 67, 79, 78, 70]),
                    SpecValue::BulkString(
                        seq![
                            108u8, 105, 115, 116, 101, 110, 105, 110, 103, 45, 112, 111, 114,
                            116,
                        ],
                    ),
                    SpecValue::BulkString(crate::num::spec_dec(port as nat)),
                ]);
            }
            Option::Some(RedisValue::Array(parts))
        },
        HandshakeState::ReplconfCapa => {
            let mut parts: Vec<RedisValue> = Vec::new();
            parts.push(RedisValue::BulkString(vec![82u8, 69, 80, 76, 67, 79, 78, 70]));
            parts.push(RedisValue::BulkString(vec![99u8, 97, 112, 97]));
            parts.push(RedisValue::BulkString(vec![112u8, 115, 121, 110, 99, 50]));
            proof {
                crate::value::lemma_values_view(parts@);
                assert(values_view(parts@) =~~= seq![
                    SpecValue::BulkString(seq![82u8, 69, 80, 76, 67, 79, 78, 70]),
                    SpecValue::BulkString(seq![99u8, 97, 112, 97]),
                    SpecValue::BulkString(seq![112u8, 115, 121, 110, 99, 50]),
                ]);
            }
            Option::Some(RedisValue::Array(parts))
        },
        HandshakeState::Psync => {
            let mut parts: Vec<RedisValue> = Vec::new();
            let mut qmark: Vec<u8> = Vec::new();
            qmark.push(63);
            parts.push(RedisValue::BulkString(vec![80u8, 83, 89, 78, 67]));
            parts.push(RedisValue::BulkString(qmark));
            parts.push(RedisValue::BulkString(vec![45u8, 49]));
            proof {
                crate::value::lemma_values_view(parts@);
                assert(values_view(parts@) =~~= seq![
                    SpecValue::BulkString(seq![80u8, 83, 89, 78, 67]),
                    SpecValue::BulkString(seq![63u8]),
                    SpecValue::BulkString(seq![45u8, 49]),
                ]);
            }
            Option::Some(RedisValue::Array(parts))
        },
        HandshakeState::ReceivingRdb => Option::None,
        HandshakeState::Ready => Option::None,
    }
}

/// Drives the handshake one step on the master's reply.
pub fn handshake_step(state: &HandshakeState, response: &RedisValue) -> (r: Option<
    HandshakeState,
>)
    ensures
        r == spec_handshake_step(*state, response@),
{
    match state {
        HandshakeState::Ping => {
            if expect_simple(response, 80, 79, Option::Some((78, 71))) {
                Option::Some(HandshakeState::ReplconfPort)
            } else {
                Option::None
            }
        },
        HandshakeState::ReplconfPort => {
            if expect_simple(response, 79, 75, Option::None) {
                Option::Some(HandshakeState::ReplconfCapa)
            } else {
                Option::None
            }
        },
        HandshakeState::ReplconfCapa => {
            if expect_simple(response, 79, 75, Option::None) {
                Option::Some(HandshakeState::Psync)
            } else {
                Option::None
            }
        },
        HandshakeState::Psync => Option::Some(HandshakeState::ReceivingRdb),
        HandshakeState::ReceivingRdb => Option::None,
        HandshakeState::Ready => Option::None,
    }
}

/// Whether `v` is the simple string of the two or four given bytes.
fn expect_simple(v: &RedisValue, b0: u8, b1: u8, rest: Option<(u8, u8)>) -> (r: bool)
    ensures
        (match rest {
            Option::Some(p) => r == (v@ == SpecValue::SimpleString(seq![b0, b1, p.0, p.1])),
            Option::None => r == (v@ == SpecValue::SimpleString(seq![b0, b1])),
        }),
{
    match v {
        RedisValue::SimpleString(s) => {
            match rest {
                Option::Some(p) => {
                    let ok = s.len() == 4 && s[0] == b0 && s[1] == b1 && s[2] == p.0 && s[3]
                        == p.1;
                    proof {
                        if ok {
                            assert(s@ =~= seq![b0, b1, p.0, p.1]);
                        } else {
                            assert(s@ != seq![b0, b1, p.0, p.1]) by {
                                let w = seq![b0, b1, p.0, p.1];
                                if s@ == w {
                                    assert(s@.len() == 4);
                                    assert(s@[0] == b0 && s@[1] == b1 && s@[2] == p.0
                                        && s@[3] == p.1);
                                }
                            }
                        }
                    }
                    ok
                },
                Option::None => {
                    let ok = s.len() == 2 && s[0] == b0 && s[1] == b1;
                    proof {
                        if ok {
                            assert(s@ =~= seq![b0, b1]);
                        } else {
                            assert(s@ != seq![b0, b1]) by {
                                let w = seq![b0, b1];
                                if s@ == w {
                                    assert(s@.len() == 2);
                                    assert(s@[0] == b0 && s@[1] == b1);
                                }
                            }
                        }
                    }
                    ok
                },
            }
        },
        _ => false,
    }
}

} // verus!
