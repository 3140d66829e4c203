//! The embedded-broker supervisor: hosts a broker instance instead of
//! connecting to a remote one, keeps per-client bookkeeping (id,
//! timestamps, subscriptions), offers the same publish-style operation
//! through an internal channel, and computes statistics on demand.

use crate::channel::MessageChannel;
use crate::config::MqttConfig;
use crate::errors::BrokerError;
use crate::message::{now_epoch_seconds, MqttMessage};
use crate::valid_qos;
use vstd::prelude::*;
use vstd::pervasive::VecAdditionalExecFns;
use vstd::string::*;

verus! {

#[verifier::external_type_specification]
#[verifier::external_body]
pub struct ExRumqttdBroker(rumqttd::Broker);

#[verifier::external_type_specification]
#[verifier::external_body]
pub struct ExRumqttdConfig(rumqttd::Config);

/// Relies on the derived `Default` of `rumqttd::Config`: a configuration
/// with no listeners set.
#[verifier::external_body]
fn default_broker_config() -> rumqttd::Config {
    rumqttd::Config::default()
}

/// Relies on `rumqttd::Broker::new`: builds the embedded broker and
/// spawns its router.
#[verifier::external_body]
fn new_embedded_broker(config: rumqttd::Config) -> rumqttd::Broker {
    rumqttd::Broker::new(config)
}

/// Broker-side bookkeeping for one connected client.
#[derive(Debug, Clone)]
pub struct ClientInfo {
    pub client_id: String,
    pub connected_at: u64,
    pub last_seen: u64,
    pub subscriptions: Vec<String>,
}

/// Statistics over the supervisor's bookkeeping, computed on demand.
#[derive(Debug, Clone)]
pub struct BrokerStats {
    pub is_running: bool,
    pub connected_clients: usize,
    pub total_subscriptions: usize,
    pub listen_addr: String,
    pub uptime: u64,
}

/// No two sessions share a client id.
pub open spec fn unique_ids(s: Seq<ClientInfo>) -> bool {
    forall|i: int, j: int|
        0 <= i < j < s.len() ==> (#[trigger] s[i]).client_id@ != (#[trigger] s[j]).client_id@
}

/// The total number of subscriptions over all sessions.
pub open spec fn spec_total_subscriptions(s: Seq<ClientInfo>) -> nat
    decreases s.len(),
{
    if s.len() == 0 {
        0
    } else {
        spec_total_subscriptions(s.drop_last()) + s.last().subscriptions@.len()
    }
}

/// The embedded-broker supervisor.
pub struct MqttBroker {
    config: MqttConfig,
    broker: Option<rumqttd::Broker>,
    /// The internal hand-off queue fed by `publish` and drained by the
    /// message-observing step; its receiver is detached by `stop`.
    channel: MessageChannel,
    sessions: Vec<ClientInfo>,
    is_running: bool,
}

impl MqttBroker {
    /// The supervisor's invariant: session ids are unique.
    pub closed spec fn wf(&self) -> bool {
        unique_ids(self.sessions@)
    }

    pub closed spec fn running(&self) -> bool {
        self.is_running
    }

    /// Whether the embedded broker instance is held, still waiting to be
    /// taken and driven.
    pub closed spec fn has_runtime(&self) -> bool {
        self.broker is Some
    }

    pub closed spec fn channel_open(&self) -> bool {
        self.channel.open
    }

    pub closed spec fn spec_queue(&self) -> Seq<MqttMessage> {
        self.channel.queue@
    }

    pub closed spec fn spec_sessions(&self) -> Seq<ClientInfo> {
        self.sessions@
    }

    pub closed spec fn spec_config(&self) -> MqttConfig {
        self.config
    }

    /// A supervisor for the given listen configuration: not running, no
    /// sessions, an open internal channel.
    pub fn new(config: MqttConfig) -> (b: MqttBroker)
        ensures
            b.wf(),
            !b.running(),
            b.channel_open(),
            b.spec_queue().len() == 0,
            b.spec_sessions().len() == 0,
            !b.has_runtime(),
            b.spec_config() == config,
    {
        MqttBroker {
            config,
            broker: None,
            channel: MessageChannel::new(),
            sessions: Vec::new(),
            is_running: false,
        }
    }

    /// Constructs the embedded broker and marks the supervisor running.
    /// Fails if it is already running. The broker's own accept loop is
    /// long-running and blocking: the caller takes it with
    /// `take_runtime` and drives it on a dedicated thread.
    pub fn start(&mut self) -> (r: Result<(), BrokerError>)
        requires
            old(self).wf(),
        ensures
            final(self).wf(),
            old(self).running() <==> r matches Err(BrokerError::AlreadyRunning),
            !old(self).running() ==> r is Ok && final(self).running() && final(self).has_runtime(),
            old(self).running() ==> *final(self) == *old(self),
            final(self).spec_sessions() == old(self).spec_sessions(),
            final(self).spec_queue() == old(self).spec_queue(),
            final(self).channel_open() == old(self).channel_open(),
            final(self).spec_config() == old(self).spec_config(),
    {
        if self.is_running {
            return Err(BrokerError::AlreadyRunning);
        }
        let config = default_broker_config();
        self.broker = Some(new_embedded_broker(config));
        self.is_running = true;
        Ok(())
    }

    /// Hands the embedded broker instance to the caller, to be driven on
    /// a dedicated thread; the bookkeeping state is untouched.
    pub fn take_runtime(&mut self) -> (r: Option<rumqttd::Broker>)
        requires
            old(self).wf(),
        ensures
            final(self).wf(),
            (r is Some) == old(self).has_runtime(),
            !final(self).has_runtime(),
            final(self).running() == old(self).running(),
            final(self).spec_sessions() == old(self).spec_sessions(),
            final(self).spec_queue() == old(self).spec_queue(),
            final(self).channel_open() == old(self).channel_open(),
            final(self).spec_config() == old(self).spec_config(),
    {
        self.broker.take()
    }

    /// Stops the supervisor: clears the running flag, detaches the
    /// internal channel's receiver (later publishes fail), and forgets
    /// every session. The embedded broker's own accept loop is not
    /// guaranteed to stop promptly.
    pub fn stop(&mut self) -> (r: Result<(), BrokerError>)
        requires
            old(self).wf(),
        ensures
            final(self).wf(),
            r is Ok,
            !final(self).running(),
            !final(self).channel_open(),
            final(self).spec_sessions().len() == 0,
            final(self).spec_queue() == old(self).spec_queue(),
            final(self).has_runtime() == old(self).has_runtime(),
            final(self).spec_config() == old(self).spec_config(),
    {
        self.is_running = false;
        self.channel.close();
        self.sessions = Vec::new();
        Ok(())
    }

    /// Whether the supervisor is running.
    pub fn is_running(&self) -> (b: bool)
        ensures
            b == self.running(),
    {
        self.is_running
    }

    /// How many clients are connected.
    pub fn get_client_count(&self) -> (n: usize)
        ensures
            n == self.spec_sessions().len(),
    {
        self.sessions.len()
    }

    /// A copy of every session record, in order.
    pub fn get_connected_clients(&self) -> (r: Vec<ClientInfo>)
        ensures
            r@.len() == self.spec_sessions().len(),
            forall|i: int|
                0 <= i < r@.len() ==> session_like(#[trigger] r@[i], self.spec_sessions()[i]),
    {
        let ghost s0 = self.sessions@;
        let mut r: Vec<ClientInfo> = Vec::new();
        let mut i: usize = 0;
        while i < self.sessions.len()
            invariant
                i <= s0.len(),
                self.sessions@ == s0,
                r@.len() == i,
                forall|k: int| 0 <= k < i ==> session_like(#[trigger] r@[k], s0[k]),
            decreases s0.len() - i,
        {
            r.push(clone_session(&self.sessions[i]));
            i = i + 1;
        }
        r
    }

    /// Enqueues one domain message with these fields on the internal
    /// channel; fails with the channel-closed text when the supervisor
    /// was stopped.
    pub fn publish(&mut self, topic: String, payload: Vec<u8>, qos: u8) -> (r: Result<(), String>)
        requires
            old(self).wf(),
            topic@.len() > 0,
            valid_qos(qos),
        ensures
            final(self).wf(),
            final(self).spec_sessions() == old(self).spec_sessions(),
            final(self).running() == old(self).running(),
            final(self).channel_open() == old(self).channel_open(),
            final(self).has_runtime() == old(self).has_runtime(),
            final(self).spec_config() == old(self).spec_config(),
            !old(self).channel_open() ==> (r matches Err(t) && t@ == "Message channel is closed"@)
                && final(self).spec_queue() == old(self).spec_queue(),
            old(self).channel_open() ==> r is Ok && final(self).spec_queue().len() == old(self).spec_queue().len() + 1 && final(self).spec_queue().subrange(
                0,
                old(self).spec_queue().len() as int,
            ) == old(self).spec_queue() && final(self).spec_queue().last().topic@ == topic@
                && final(self).spec_queue().last().payload@ == payload@ && final(self).spec_queue().last().qos == qos && !final(self).spec_queue().last().retain && final(self).spec_queue().last().client_id is None && final(self).spec_queue().last().wf(),
    {
        if !self.channel.is_open() {
            return Err(String::from_str("Message channel is closed"));
        }
        let message = MqttMessage::new(topic, payload, qos);
        let ghost q0 = self.channel.queue@;
        let _ = self.channel.send(message);
        proof {
            assert(self.channel.queue@.subrange(0, q0.len() as int) =~= q0);
        }
        Ok(())
    }

    /// One step of the internal message-observing task: takes the oldest
    /// queued message and, if it names an originating client with a live
    /// session, moves that session's last-seen stamp to the message's
    /// timestamp. Returns the message it observed, if any.
    pub fn process_next(&mut self) -> (r: Option<MqttMessage>)
        requires
            old(self).wf(),
        ensures
            final(self).wf(),
            final(self).running() == old(self).running(),
            final(self).channel_open() == old(self).channel_open(),
            final(self).has_runtime() == old(self).has_runtime(),
            final(self).spec_config() == old(self).spec_config(),
            old(self).spec_queue().len() == 0 ==> r is None && *final(self) == *old(self),
            old(self).spec_queue().len() > 0 ==> r == Some(old(self).spec_queue()[0]) && final(self).spec_queue() == old(self).spec_queue().subrange(
                1,
                old(self).spec_queue().len() as int,
            ) && observed(old(self).spec_sessions(), final(self).spec_sessions(), old(self).spec_queue()[0]),
    {
        let next = self.channel.recv();
        match next {
            None => None,
            Some(m) => {
                self.observe_message(&m);
                Some(m)
            },
        }
    }

    /// Moves the last-seen stamp of the message's originating session, if
    /// the message names one and it is connected; everything else stays.
    pub fn observe_message(&mut self, m: &MqttMessage)
        requires
            old(self).wf(),
        ensures
            final(self).wf(),
            final(self).running() == old(self).running(),
            final(self).channel_open() == old(self).channel_open(),
            final(self).spec_queue() == old(self).spec_queue(),
            final(self).has_runtime() == old(self).has_runtime(),
            final(self).spec_config() == old(self).spec_config(),
            observed(old(self).spec_sessions(), final(self).spec_sessions(), *m),
    {
        let ghost s0 = self.sessions@;
        if let Some(client_id) = &m.client_id {
            let position = self.find_client(client_id);
            if let Some(i) = position {
                let mut taken = ClientInfo {
                    client_id: String::new(),
                    connected_at: 0,
                    last_seen: 0,
                    subscriptions: Vec::new(),
                };
                self.sessions.set_and_swap(i, &mut taken);
                taken.last_seen = m.timestamp;
                self.sessions.set_and_swap(i, &mut taken);
                proof {
                    assert(self.sessions@[i as int] == stamped(s0[i as int], m.timestamp));
                    assert forall|k: int|
                        0 <= k < s0.len() && k != i implies (#[trigger] s0[k]).client_id@
                        != client_id@ by {
                        if k < i {
                            assert(s0[i as int].client_id@ == client_id@);
                        }
                    }
                    assert forall|k: int| 0 <= k < s0.len() implies #[trigger] self.sessions@[k]
                        == (if s0[k].client_id@ == client_id@ {
                        stamped(s0[k], m.timestamp)
                    } else {
                        s0[k]
                    }) by {}
                    assert(unique_ids(self.sessions@));
                }
            } else {
                proof {
                    assert(self.sessions@ =~= s0);
                }
            }
        }
    }

    /// Registers (or replaces) a session for the client, subscribed to
    /// the given filters, with both timestamps at the current time.
    pub fn add_client(&mut self, client_id: String, subscriptions: Vec<String>)
        requires
            old(self).wf(),
        ensures
            final(self).wf(),
            final(self).running() == old(self).running(),
            final(self).channel_open() == old(self).channel_open(),
            final(self).spec_queue() == old(self).spec_queue(),
            final(self).has_runtime() == old(self).has_runtime(),
            final(self).spec_config() == old(self).spec_config(),
            has_client(final(self).spec_sessions(), client_id@),
            !has_client(old(self).spec_sessions(), client_id@) ==> final(self).spec_sessions().len() == old(self).spec_sessions().len() + 1 && final(self).spec_sessions().subrange(0, old(self).spec_sessions().len() as int) == old(self).spec_sessions() && session_fresh(final(self).spec_sessions().last(), client_id@,
                subscriptions@),
            has_client(old(self).spec_sessions(), client_id@) ==> final(self).spec_sessions().len() == old(self).spec_sessions().len() && exists|i: int|
                0 <= i < old(self).spec_sessions().len() && old(self).spec_sessions()[i].client_id@ == client_id@ && session_fresh(
                    #[trigger] final(self).spec_sessions()[i],
                    client_id@,
                    subscriptions@,
                ) && (forall|j: int|
                    0 <= j < old(self).spec_sessions().len() && j != i ==> final(self).spec_sessions()[j] == old(self).spec_sessions()[j]),
    {
        let ghost s0 = self.sessions@;
        let ghost subs0 = subscriptions@;
        let now = now_epoch_seconds();
        let stamp: u64 = if now < 0 {
            0
        } else {
            now as u64
        };
        let record = ClientInfo {
            client_id: client_id.clone(),
            connected_at: stamp,
            last_seen: stamp,
            subscriptions,
        };
        let ghost rec = record;
        let position = self.find_client(&client_id);
        match position {
            Some(i) => {
                self.sessions.set(i, record);
                proof {
                    assert(self.sessions@[i as int] == rec);
                    assert(self.sessions@[i as int].client_id@ == client_id@);
                    assert(has_client(self.sessions@, client_id@));
                    assert(has_client(s0, client_id@)) by {
                        assert(s0[i as int].client_id@ == client_id@);
                    }
                    assert(session_fresh(self.sessions@[i as int], client_id@, subs0));
                    assert(forall|j: int|
                        0 <= j < s0.len() && j != i ==> self.sessions@[j] == s0[j]);
                    assert(exists|k: int|
                        0 <= k < old(self).spec_sessions().len() && old(
                            self,
                        ).spec_sessions()[k].client_id@ == client_id@ && session_fresh(
                            #[trigger] self.spec_sessions()[k],
                            client_id@,
                            subscriptions@,
                        ) && (forall|j: int|
                            0 <= j < old(self).spec_sessions().len() && j != k
                                ==> self.spec_sessions()[j] == old(self).spec_sessions()[j]))
                        by {
                        assert(session_fresh(self.spec_sessions()[i as int], client_id@,
                            subscriptions@));
                    }
                    assert forall|a: int, b: int|
                        0 <= a < b < self.sessions@.len() implies (
                        #[trigger] self.sessions@[a]).client_id@ != (
                        #[trigger] self.sessions@[b]).client_id@ by {
                        assert(s0[a].client_id@ != s0[b].client_id@);
                        if a == i {
                            assert(self.sessions@[a].client_id@ == s0[a].client_id@);
                        }
                        if b == i {
                            assert(self.sessions@[b].client_id@ == s0[b].client_id@);
                        }
                    }
                }
            },
            None => {
                self.sessions.push(record);
                proof {
                    let ghost n = s0.len() as int;
                    assert(self.sessions@.last() == rec);
                    assert(self.sessions@[n].client_id@ == client_id@);
                    assert(has_client(self.sessions@, client_id@));
                    assert(self.sessions@.subrange(0, n) =~= s0);
                    assert(session_fresh(self.sessions@.last(), client_id@, subs0));
                    assert forall|a: int, b: int|
                        0 <= a < b < self.sessions@.len() implies (
                        #[trigger] self.sessions@[a]).client_id@ != (
                        #[trigger] self.sessions@[b]).client_id@ by {
                        if b < n {
                            assert(s0[a].client_id@ != s0[b].client_id@);
                        } else {
                            assert(self.sessions@[b].client_id@ == client_id@);
                            assert(s0[a].client_id@ != client_id@);
                        }
                    }
                }
            },
        }
    }

    /// Forgets the client's session, if one exists; every other session
    /// stays in place.
    pub fn remove_client(&mut self, client_id: &String)
        requires
            old(self).wf(),
        ensures
            final(self).wf(),
            final(self).running() == old(self).running(),
            final(self).channel_open() == old(self).channel_open(),
            final(self).spec_queue() == old(self).spec_queue(),
            final(self).has_runtime() == old(self).has_runtime(),
            final(self).spec_config() == old(self).spec_config(),
            !has_client(final(self).spec_sessions(), client_id@),
            !has_client(old(self).spec_sessions(), client_id@) ==> *final(self) == *old(self),
            has_client(old(self).spec_sessions(), client_id@) ==> exists|i: int|
                0 <= i < old(self).spec_sessions().len() && old(self).spec_sessions()[i].client_id@ == client_id@ && final(self).spec_sessions()
                    == #[trigger] old(self).spec_sessions().remove(i),
    {
        let position = self.find_client(client_id);
        if let Some(i) = position {
            let ghost s0 = self.sessions@;
            let _ = self.sessions.remove(i);
            proof {
                assert(unique_ids(self.sessions@));
                assert forall|k: int|
                    0 <= k < self.sessions@.len() implies #[trigger] self.sessions@[k].client_id@
                    != client_id@ by {
                    if k < i {
                        assert(self.sessions@[k] == s0[k]);
                    } else {
                        assert(self.sessions@[k] == s0[k + 1]);
                    }
                }
            }
        }
    }

    /// Replaces the client's subscription list and moves its last-seen
    /// stamp to the current time; a client without a session is ignored.
    pub fn update_client_subscriptions(&mut self, client_id: &String, subscriptions: Vec<String>)
        requires
            old(self).wf(),
        ensures
            final(self).wf(),
            final(self).running() == old(self).running(),
            final(self).channel_open() == old(self).channel_open(),
            final(self).spec_queue() == old(self).spec_queue(),
            final(self).has_runtime() == old(self).has_runtime(),
            final(self).spec_config() == old(self).spec_config(),
            !has_client(old(self).spec_sessions(), client_id@) ==> *final(self) == *old(self),
            has_client(old(self).spec_sessions(), client_id@) ==> exists|i: int|
                0 <= i < old(self).spec_sessions().len() && old(self).spec_sessions()[i].client_id@ == client_id@ && (#[trigger] final(self).spec_sessions()[i]).client_id@ == client_id@ && final(self).spec_sessions()[i].subscriptions@ == subscriptions@ && final(self).spec_sessions()[i].connected_at == old(self).spec_sessions()[i].connected_at
                    && final(self).spec_sessions().len() == old(self).spec_sessions().len() && (
                forall|j: int|
                    0 <= j < old(self).spec_sessions().len() && j != i ==> final(self).spec_sessions()[j] == old(self).spec_sessions()[j]),
    {
        let position = self.find_client(client_id);
        if let Some(i) = position {
            let now = now_epoch_seconds();
            let stamp: u64 = if now < 0 {
                0
            } else {
                now as u64
            };
            let ghost s0 = self.sessions@;
            let ghost subs0 = subscriptions@;
            let record = ClientInfo {
                client_id: self.sessions[i].client_id.clone(),
                connected_at: self.sessions[i].connected_at,
                last_seen: stamp,
                subscriptions,
            };
            let ghost rec = record;
            self.sessions.set(i, record);
            proof {
                assert(self.sessions@[i as int] == rec);
                assert(self.sessions@[i as int].client_id@ == client_id@);
                assert(has_client(s0, client_id@)) by {
                    assert(s0[i as int].client_id@ == client_id@);
                }
                assert(self.sessions@[i as int].subscriptions@ == subs0);
                assert(self.sessions@[i as int].connected_at == s0[i as int].connected_at);
                assert(forall|j: int| 0 <= j < s0.len() && j != i ==> self.sessions@[j] == s0[j]);
                assert(exists|k: int|
                    0 <= k < old(self).spec_sessions().len() && old(
                        self,
                    ).spec_sessions()[k].client_id@ == client_id@ && (
                    #[trigger] self.spec_sessions()[k]).client_id@ == client_id@
                        && self.spec_sessions()[k].subscriptions@ == subscriptions@
                        && self.spec_sessions()[k].connected_at == old(
                        self,
                    ).spec_sessions()[k].connected_at && self.spec_sessions().len() == old(
                        self,
                    ).spec_sessions().len() && (forall|j: int|
                        0 <= j < old(self).spec_sessions().len() && j != k
                            ==> self.spec_sessions()[j] == old(self).spec_sessions()[j])) by {
                    assert((self.spec_sessions()[i as int]).client_id@ == client_id@);
                    assert(self.spec_sessions()[i as int].subscriptions@ == subscriptions@);
                }
                assert forall|a: int, b: int|
                    0 <= a < b < self.sessions@.len() implies (
                    #[trigger] self.sessions@[a]).client_id@ != (
                    #[trigger] self.sessions@[b]).client_id@ by {
                    assert(s0[a].client_id@ != s0[b].client_id@);
                    if a == i {
                        assert(self.sessions@[a].client_id@ == s0[a].client_id@);
                    }
                    if b == i {
                        assert(self.sessions@[b].client_id@ == s0[b].client_id@);
                    }
                }
            }
        }
    }

    /// The running flag, client count, total subscription count and
    /// listen address, computed from the bookkeeping now.
    pub fn get_stats(&self) -> (stats: BrokerStats)
        ensures
            stats.is_running == self.running(),
            stats.connected_clients == self.spec_sessions().len(),
            spec_total_subscriptions(self.spec_sessions()) <= usize::MAX
                ==> stats.total_subscriptions == spec_total_subscriptions(self.spec_sessions()),
            stats.listen_addr@ == self.spec_config().host@ + seq![':']
                + crate::text::dec_rep(self.spec_config().port as nat),
            stats.uptime == 0,
    {
        let mut total: usize = 0;
        let mut i: usize = 0;
        while i < self.sessions.len()
            invariant
                i <= self.sessions@.len(),
                spec_total_subscriptions(self.sessions@.subrange(0, i as int)) <= usize::MAX
                    ==> total == spec_total_subscriptions(self.sessions@.subrange(0, i as int)),
                spec_total_subscriptions(self.sessions@.subrange(0, i as int)) > usize::MAX
                    ==> total == usize::MAX,
            decreases self.sessions@.len() - i,
        {
            proof {
                assert(self.sessions@.subrange(0, i + 1).drop_last() =~= self.sessions@.subrange(
                    0,
                    i as int,
                ));
                assert(self.sessions@.subrange(0, i + 1).last() == self.sessions@[i as int]);
            }
            let n = self.sessions[i].subscriptions.len();
            if total <= usize::MAX - n {
                total = total + n;
            } else {
                total = usize::MAX;
            }
            i = i + 1;
        }
        proof {
            assert(self.sessions@.subrange(0, self.sessions@.len() as int) =~= self.sessions@);
        }
        BrokerStats {
            is_running: self.is_running,
            connected_clients: self.sessions.len(),
            total_subscriptions: total,
            listen_addr: self.config.listen_addr(),
            uptime: 0,
        }
    }

    /// The index of the client's session, if it has one.
    fn find_client(&self, client_id: &String) -> (r: Option<usize>)
        ensures
            r is None ==> !has_client(self.spec_sessions(), client_id@),
            r matches Some(i) ==> i < self.spec_sessions().len()
                && self.spec_sessions()[i as int].client_id@ == client_id@,
    {
        let n = self.sessions.len();
        let mut i: usize = 0;
        while i < n
            invariant
                i <= n,
                n == self.sessions@.len(),
                forall|k: int| 0 <= k < i ==> (#[trigger] self.sessions@[k]).client_id@
                    != client_id@,
            decreases n - i,
        {
            if self.sessions[i].client_id.eq(client_id) {
                return Some(i);
            }
            i = i + 1;
        }
        None
    }
}

/// Whether some session belongs to the client.
pub open spec fn has_client(s: Seq<ClientInfo>, id: Seq<char>) -> bool {
    exists|i: int| 0 <= i < s.len() && (#[trigger] s[i]).client_id@ == id
}

/// The session, with only its last-seen stamp moved.
pub open spec fn stamped(c: ClientInfo, t: u64) -> ClientInfo {
    ClientInfo { last_seen: t, ..c }
}

/// A freshly registered session: this client, these filters, and both
/// timestamps equal.
pub open spec fn session_fresh(c: ClientInfo, id: Seq<char>, subscriptions: Seq<String>) -> bool {
    c.client_id@ == id && c.subscriptions@ == subscriptions && c.connected_at == c.last_seen
}

/// What the message-observing step does to the bookkeeping: the
/// originating session's last-seen stamp moves to the message's
/// timestamp, and no other session changes.
pub open spec fn observed(s0: Seq<ClientInfo>, s1: Seq<ClientInfo>, m: MqttMessage) -> bool {
    &&& s1.len() == s0.len()
    &&& (m.client_id is None ==> s1 == s0)
    &&& (m.client_id matches Some(c) ==> forall|k: int|
        0 <= k < s0.len() ==> #[trigger] s1[k] == (if s0[k].client_id@ == c@ {
            stamped(s0[k], m.timestamp)
        } else {
            s0[k]
        }))
}

/// Whether two session records hold the same client, timestamps and
/// filters.
pub open spec fn session_like(a: ClientInfo, b: ClientInfo) -> bool {
    a.client_id@ == b.client_id@ && a.connected_at == b.connected_at && a.last_seen == b.last_seen
        && a.subscriptions@ == b.subscriptions@
}

/// A copy of one session record.
fn clone_session(c: &ClientInfo) -> (r: ClientInfo)
    ensures
        session_like(r, *c),
{
    let subscriptions = c.subscriptions.clone();
    proof {
        assert(subscriptions@ =~= c.subscriptions@);
    }
    ClientInfo {
        client_id: c.client_id.clone(),
        connected_at: c.connected_at,
        last_seen: c.last_seen,
        subscriptions,
    }
}

} // verus!
