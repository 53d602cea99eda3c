//! The server registry: session ids mapped to live sessions, the per-session
//! lifecycle, and the heartbeat decision that drives liveness. The accept
//! loop, the timers and the transports run outside; they call in with plain
//! values and perform the actions these methods decide.

use vstd::prelude::*;

use crate::engine::{EnginePacket, EnginePacketId};
use crate::error::Error;
use crate::handshake::HandshakePacket;
use crate::session::{Session, SessionState};
use crate::sid::{Sid, SidGenerator};
use crate::socket::{ep_view, queue_view};

verus! {

/// Heartbeat configuration, in milliseconds.
#[derive(Clone, Copy, Debug, PartialEq, Eq, Structural)]
pub struct ServerOption {
    pub ping_timeout: u64,
    pub ping_interval: u64,
}

impl Default for ServerOption {
    /// The protocol's defaults: ping every 25 s, allow 20 s for the pong.
    fn default() -> (r: ServerOption)
        ensures
            r.ping_interval == 25000,
            r.ping_timeout == 20000,
    {
        ServerOption { ping_interval: 25000, ping_timeout: 20000 }
    }
}

/// What one heartbeat tick decided.
pub enum HeartbeatAction {
    /// The session answered recently: a `Ping` was queued; tick again after
    /// `ping_interval`.
    Continue,
    /// The pong timeout expired: the session was removed from the registry,
    /// its `Close` is queued on the returned session, and `on_close` is to
    /// be fired exactly once.
    TimedOut(Session),
    /// The session is gone or no longer connected: the driver exits. A
    /// session that was still registered is returned for teardown.
    Stopped(Option<Session>),
}

/// The index of the session carrying `num`, unique in a well-formed registry.
pub open spec fn index_of_sid(s: Seq<Session>, num: u64) -> int {
    choose|i: int| 0 <= i < s.len() && s[i].sid_num == num
}

/// The server core: the sid generator, the heartbeat options and the
/// registry of live sessions.
pub struct Server {
    pub port: u16,
    pub id_generator: SidGenerator,
    pub server_option: ServerOption,
    pub sockets: Vec<Session>,
}

impl Default for Server {
    /// A server on the default port with the protocol's default heartbeat.
    fn default() -> (r: Server)
        ensures
            r.wf(),
            r.port == 80,
            r.server_option == (ServerOption { ping_interval: 25000, ping_timeout: 20000 }),
            r.sockets@.len() == 0,
            r.id_generator.seq_no == 0,
    {
        Server::new(80, ServerOption::default())
    }
}

impl Server {
    /// Registry sanity: no two sessions share a sid, and every registered
    /// sid was issued by the generator (so a fresh one cannot collide).
    pub open spec fn wf(&self) -> bool {
        &&& forall|i: int, j: int|
            0 <= i < j < self.sockets@.len() ==> #[trigger] self.sockets@[i].sid_num
                != #[trigger] self.sockets@[j].sid_num
        &&& forall|i: int|
            0 <= i < self.sockets@.len() ==> #[trigger] self.sockets@[i].sid_num
                < self.id_generator.seq_no
    }

    pub open spec fn contains_sid(&self, num: u64) -> bool {
        exists|i: int| 0 <= i < self.sockets@.len() && #[trigger] self.sockets@[i].sid_num == num
    }

    /// The session carrying `num` (meaningful when `contains_sid` holds).
    pub open spec fn session_at(&self, num: u64) -> Session {
        self.sockets@[index_of_sid(self.sockets@, num)]
    }

    /// A registered, connected session carries `num`.
    pub open spec fn connected_at(&self, num: u64) -> bool {
        self.contains_sid(num) && self.session_at(num).is_connected_spec()
    }

    pub fn new(port: u16, server_option: ServerOption) -> (s: Server)
        ensures
            s.wf(),
            s.port == port,
            s.server_option == server_option,
            s.sockets@.len() == 0,
            s.id_generator.seq_no == 0,
    {
        Server { port, id_generator: SidGenerator::new(), server_option, sockets: Vec::new() }
    }

    /// The heartbeat configuration.
    pub fn server_option(&self) -> (r: ServerOption)
        ensures
            r == self.server_option,
    {
        self.server_option
    }

    /// A fresh session id, never carried by any registered session.
    pub fn sid(&mut self) -> (s: Sid)
        requires
            old(self).id_generator.seq_no < u64::MAX,
        ensures
            final(self).port == old(self).port,
            final(self).server_option == old(self).server_option,
            final(self).sockets == old(self).sockets,
            final(self).id_generator.seq_no == old(self).id_generator.seq_no + 1,
            s.num == old(self).id_generator.seq_no,
            s.wf(),
            old(self).wf() ==> final(self).wf() && !final(self).contains_sid(s.num),
    {
        self.id_generator.generate()
    }

    /// The handshake packet for a session: the given id, or a fresh one, and
    /// this server's heartbeat parameters.
    pub fn handshake_packet(&mut self, upgrades: Vec<Vec<u8>>, sid: Option<Sid>) -> (p:
        HandshakePacket)
        requires
            sid is None ==> old(self).id_generator.seq_no < u64::MAX,
        ensures
            final(self).port == old(self).port,
            final(self).server_option == old(self).server_option,
            final(self).sockets == old(self).sockets,
            old(self).wf() ==> final(self).wf(),
            p.upgrades == upgrades,
            p.ping_interval == old(self).server_option.ping_interval,
            p.ping_timeout == old(self).server_option.ping_timeout,
            match sid {
                Some(s) => p.sid == s.text && final(self).id_generator == old(self).id_generator,
                None => p.sid@ == crate::sid::sid_text_of(old(self).id_generator.seq_no)
                    && final(self).id_generator.seq_no == old(self).id_generator.seq_no + 1,
            },
    {
        let sid_text: Vec<u8> = match sid {
            Some(s) => s.text,
            None => self.id_generator.generate().text,
        };
        HandshakePacket::new(
            sid_text,
            upgrades,
            self.server_option.ping_interval,
            self.server_option.ping_timeout,
        )
    }

    /// Find the registry slot of `num`.
    fn find_index(&self, num: u64) -> (r: Option<usize>)
        requires
            self.wf(),
        ensures
            match r {
                Some(i) => i < self.sockets@.len() && self.sockets@[i as int].sid_num == num
                    && i == index_of_sid(self.sockets@, num),
                None => !self.contains_sid(num),
            },
    {
        let n = self.sockets.len();
        let mut i: usize = 0;
        while i < n
            invariant
                self.wf(),
                n == self.sockets@.len(),
                0 <= i <= n,
                forall|j: int| 0 <= j < i ==> #[trigger] self.sockets@[j].sid_num != num,
            decreases n - i,
        {
            if self.sockets[i].sid_num == num {
                proof {
                    assert(self.sockets@[i as int].sid_num == num);
                    let w = index_of_sid(self.sockets@, num);
                    assert(0 <= w < self.sockets@.len() && self.sockets@[w].sid_num == num);
                    if w != i as int {
                        assert(self.sockets@[w].sid_num != self.sockets@[i as int].sid_num);
                    }
                }
                return Some(i);
            }
            i = i + 1;
        }
        None
    }

    /// Register a session for a fresh sid: the registry grows by exactly one
    /// entry, connected from the start, and stays well-formed. Called once
    /// per session.
    pub fn store_stream(&mut self, sid: Sid, now: u64)
        requires
            old(self).wf(),
            !old(self).contains_sid(sid.num),
            sid.num < old(self).id_generator.seq_no,
        ensures
            final(self).wf(),
            final(self).port == old(self).port,
            final(self).server_option == old(self).server_option,
            final(self).id_generator == old(self).id_generator,
            final(self).sockets@.len() == old(self).sockets@.len() + 1,
            final(self).contains_sid(sid.num),
            ({
                let s = final(self).sockets@.last();
                &&& final(self).sockets@.drop_last() == old(self).sockets@
                &&& s.sid_num == sid.num
                &&& s.sid_text == sid.text
                &&& s.state == SessionState::Connected
                &&& s.last_pong == now
                &&& s.outbound@.len() == 0
            }),
    {
        let mut session = Session::new(sid.num, sid.text, now);
        session.connect();
        let ghost prev = self.sockets@;
        self.sockets.push(session);
        proof {
            assert(self.sockets@.drop_last() =~= prev);
            assert(self.sockets@[self.sockets@.len() - 1].sid_num == sid.num);
        }
    }

    /// Queue a packet on the session carrying `sid`; a missing session is
    /// not an error, a session that is not connected refuses with
    /// `IllegalActionBeforeOpen`.
    pub fn emit(&mut self, sid: u64, packet: EnginePacket) -> (r: Result<(), Error>)
        requires
            old(self).wf(),
        ensures
            final(self).wf(),
            final(self).port == old(self).port,
            final(self).server_option == old(self).server_option,
            final(self).id_generator == old(self).id_generator,
            !old(self).contains_sid(sid) ==> r is Ok && final(self).sockets@ == old(self).sockets@,
            old(self).contains_sid(sid) ==> ({
                let i = index_of_sid(old(self).sockets@, sid);
                let s = old(self).sockets@[i];
                &&& !s.is_connected_spec() ==> (r matches Err(e)
                    && e == Error::IllegalActionBeforeOpen && final(self).sockets@ == old(
                    self,
                ).sockets@)
                &&& s.is_connected_spec() ==> r is Ok && final(self).sockets@.len() == old(
                    self,
                ).sockets@.len() && (forall|j: int|
                    0 <= j < old(self).sockets@.len() && j != i ==> final(self).sockets@[j] == old(
                        self,
                    ).sockets@[j]) && ({
                    let s2 = final(self).sockets@[i];
                    &&& s2.sid_num == s.sid_num
                    &&& s2.state == s.state
                    &&& s2.last_pong == s.last_pong
                    &&& queue_view(s2.outbound@) == queue_view(s.outbound@).push(ep_view(packet))
                })
            }),
    {
        let idx = self.find_index(sid);
        match idx {
            None => Ok(()),
            Some(i) => {
                let session = vstd::std_specs::vec::vec_index_mut(&mut self.sockets, i);
                let r = session.emit(packet);
                proof {
                    assert(forall|j: int|
                        0 <= j < old(self).sockets@.len() && j != i as int
                            ==> self.sockets@[j] == old(self).sockets@[j]);
                    if r is Err {
                        assert(self.sockets@ =~= old(self).sockets@);
                    }
                }
                r
            },
        }
    }

    /// Whether the session carrying `sid` is registered and connected.
    pub fn is_connected(&self, sid: u64) -> (r: bool)
        requires
            self.wf(),
        ensures
            r == (self.contains_sid(sid) && self.sockets@[index_of_sid(self.sockets@, sid)]
                .is_connected_spec()),
    {
        match self.find_index(sid) {
            Some(i) => self.sockets[i].is_connected(),
            None => false,
        }
    }

    /// When the session carrying `sid` last answered a ping.
    pub fn last_pong(&self, sid: u64) -> (r: Option<u64>)
        requires
            self.wf(),
        ensures
            match r {
                Some(t) => self.contains_sid(sid) && t == self.sockets@[index_of_sid(
                    self.sockets@,
                    sid,
                )].last_pong,
                None => !self.contains_sid(sid),
            },
    {
        match self.find_index(sid) {
            Some(i) => Some(self.sockets[i].last_pong),
            None => None,
        }
    }

    /// Remove the session carrying `sid` and tear it down: its `Close` is
    /// queued while it was still connected, and the returned flag says
    /// whether this call made the transition (so `on_close` fires exactly
    /// once). Removing an absent sid does nothing.
    pub fn close_socket(&mut self, sid: u64) -> (r: Option<(Session, bool)>)
        requires
            old(self).wf(),
        ensures
            final(self).wf(),
            final(self).port == old(self).port,
            final(self).server_option == old(self).server_option,
            final(self).id_generator == old(self).id_generator,
            !final(self).contains_sid(sid),
            !old(self).contains_sid(sid) ==> r is None && final(self).sockets == old(self).sockets,
            old(self).contains_sid(sid) ==> ({
                let i = index_of_sid(old(self).sockets@, sid);
                let s = old(self).sockets@[i];
                &&& final(self).sockets@ == old(self).sockets@.remove(i)
                &&& (r matches Some(p) && ({
                    &&& p.0.sid_num == s.sid_num
                    &&& p.0.state == SessionState::Disconnected
                    &&& p.0.last_pong == s.last_pong
                    &&& p.1 == s.is_connected_spec()
                    &&& p.1 ==> queue_view(p.0.outbound@) == queue_view(s.outbound@).push(
                        (EnginePacketId::Close, Seq::<u8>::empty()),
                    )
                    &&& !p.1 ==> p.0.outbound == s.outbound
                }))
            }),
    {
        let idx = self.find_index(sid);
        match idx {
            None => None,
            Some(i) => {
                let mut session = self.sockets.remove(i);
                proof {
                    lemma_remove_keeps_wf(old(self).sockets@, i as int, self.id_generator.seq_no);
                    lemma_removed_sid_absent(old(self).sockets@, i as int, sid);
                }
                let fired = session.disconnect();
                Some((session, fired))
            },
        }
    }

    /// Remove the session carrying `sid` from the registry without touching
    /// it; idempotent. This is the removal a close callback requests.
    pub fn drop_socket(&mut self, sid: u64)
        requires
            old(self).wf(),
        ensures
            final(self).wf(),
            final(self).port == old(self).port,
            final(self).server_option == old(self).server_option,
            final(self).id_generator == old(self).id_generator,
            !final(self).contains_sid(sid),
            !old(self).contains_sid(sid) ==> final(self).sockets == old(self).sockets,
            old(self).contains_sid(sid) ==> final(self).sockets@ == old(self).sockets@.remove(
                index_of_sid(old(self).sockets@, sid),
            ),
    {
        let idx = self.find_index(sid);
        if let Some(i) = idx {
            let _ = self.sockets.remove(i);
            proof {
                lemma_remove_keeps_wf(old(self).sockets@, i as int, self.id_generator.seq_no);
                lemma_removed_sid_absent(old(self).sockets@, i as int, sid);
            }
        }
    }

    /// One heartbeat tick for the session carrying `sid`: queue a `Ping`
    /// while it is connected, and when the pong timeout has expired, remove
    /// it from the registry. The surrounding task performs the I/O and calls
    /// again after `ping_interval`.
    pub fn heartbeat_tick(&mut self, sid: u64, now: u64) -> (act: HeartbeatAction)
        requires
            old(self).wf(),
            old(self).server_option.ping_interval + old(self).server_option.ping_timeout
                <= u64::MAX,
        ensures
            final(self).wf(),
            final(self).port == old(self).port,
            final(self).server_option == old(self).server_option,
            final(self).id_generator == old(self).id_generator,
            !old(self).connected_at(sid) ==> (act matches HeartbeatAction::Stopped(s)
                && !final(self).contains_sid(sid) && (old(self).contains_sid(sid) ==> s is Some)
                && (!old(self).contains_sid(sid) ==> s is None && final(self).sockets@ == old(
                self,
            ).sockets@)),
            old(self).connected_at(sid) ==> ({
                let i = index_of_sid(old(self).sockets@, sid);
                let s = old(self).sockets@[i];
                let limit = old(self).server_option.ping_interval + old(
                    self,
                ).server_option.ping_timeout;
                let elapsed: u64 = if now >= s.last_pong {
                    (now - s.last_pong) as u64
                } else {
                    0
                };
                let timed_out = elapsed >= limit;
                &&& !timed_out ==> (act is Continue && final(self).contains_sid(sid)
                    && final(self).sockets@.len() == old(self).sockets@.len() && ({
                    let s2 = final(self).sockets@[i];
                    &&& s2.state == SessionState::Connected
                    &&& s2.last_pong == s.last_pong
                    &&& queue_view(s2.outbound@) == queue_view(s.outbound@).push(
                        (EnginePacketId::Ping, Seq::<u8>::empty()),
                    )
                }))
                &&& timed_out ==> (act matches HeartbeatAction::TimedOut(t)
                    && !final(self).contains_sid(sid) && final(self).sockets@.len() == old(
                    self,
                ).sockets@.len() - 1 && t.sid_num == sid && t.state == SessionState::Disconnected
                    && queue_view(t.outbound@) == queue_view(s.outbound@).push(
                    (EnginePacketId::Ping, Seq::<u8>::empty()),
                ).push((EnginePacketId::Close, Seq::<u8>::empty())))
            }),
    {
        if !self.is_connected(sid) {
            let closed = self.close_socket(sid);
            let r = match closed {
                Some((session, _)) => HeartbeatAction::Stopped(Some(session)),
                None => HeartbeatAction::Stopped(None),
            };
            return r;
        }
        let _ = self.emit(sid, EnginePacket::new(EnginePacketId::Ping, Vec::new()));
        let timeout = self.server_option.ping_interval + self.server_option.ping_timeout;
        let lp = match self.last_pong(sid) {
            Some(t) => t,
            None => {
                proof {
                    assert(false);
                }
                0
            },
        };
        let elapsed = if now >= lp {
            now - lp
        } else {
            0
        };
        if elapsed >= timeout {
            match self.close_socket(sid) {
                Some((session, _)) => HeartbeatAction::TimedOut(session),
                None => {
                    proof {
                        assert(false);
                    }
                    HeartbeatAction::Stopped(None)
                },
            }
        } else {
            HeartbeatAction::Continue
        }
    }
}

/// Removing one session keeps the registry well-formed.
proof fn lemma_remove_keeps_wf(s: Seq<Session>, i: int, bound: u64)
    requires
        0 <= i < s.len(),
        forall|a: int, b: int|
            0 <= a < b < s.len() ==> #[trigger] s[a].sid_num != #[trigger] s[b].sid_num,
        forall|a: int| 0 <= a < s.len() ==> #[trigger] s[a].sid_num < bound,
    ensures
        forall|a: int, b: int|
            0 <= a < b < s.remove(i).len() ==> #[trigger] s.remove(i)[a].sid_num
                != #[trigger] s.remove(i)[b].sid_num,
        forall|a: int| 0 <= a < s.remove(i).len() ==> #[trigger] s.remove(i)[a].sid_num < bound,
{
    assert forall|a: int, b: int|
        0 <= a < b < s.remove(i).len() implies #[trigger] s.remove(i)[a].sid_num
        != #[trigger] s.remove(i)[b].sid_num by {
        let a0 = if a < i {
            a
        } else {
            a + 1
        };
        let b0 = if b < i {
            b
        } else {
            b + 1
        };
        assert(s.remove(i)[a] == s[a0]);
        assert(s.remove(i)[b] == s[b0]);
    }
    assert forall|a: int| 0 <= a < s.remove(i).len() implies #[trigger] s.remove(i)[a].sid_num
        < bound by {
        let a0 = if a < i {
            a
        } else {
            a + 1
        };
        assert(s.remove(i)[a] == s[a0]);
    }
}

/// After removing the one slot that carried `num`, no slot carries it.
proof fn lemma_removed_sid_absent(s: Seq<Session>, i: int, num: u64)
    requires
        0 <= i < s.len(),
        s[i].sid_num == num,
        forall|a: int, b: int|
            0 <= a < b < s.len() ==> #[trigger] s[a].sid_num != #[trigger] s[b].sid_num,
    ensures
        forall|a: int| 0 <= a < s.remove(i).len() ==> #[trigger] s.remove(i)[a].sid_num != num,
{
    assert forall|a: int| 0 <= a < s.remove(i).len() implies #[trigger] s.remove(i)[a].sid_num
        != num by {
        let a0 = if a < i {
            a
        } else {
            a + 1
        };
        assert(s.remove(i)[a] == s[a0]);
        if a0 < i {
            assert(s[a0].sid_num != s[i].sid_num);
        } else {
            assert(s[i].sid_num != s[a0].sid_num);
        }
    }
}

/// Distinct live sessions carry distinct sids: in a well-formed registry,
/// however many handshakes have registered sessions, every two entries
/// differ in their sid. Registration itself (`store_stream`) grows the
/// registry by exactly one entry and preserves well-formedness.
pub proof fn lemma_registry_sids_distinct(s: &Server)
    requires
        s.wf(),
    ensures
        forall|i: int, j: int|
            0 <= i < j < s.sockets@.len() ==> #[trigger] s.sockets@[i].sid_num
                != #[trigger] s.sockets@[j].sid_num,
{
}

} // verus!
