//! What passes through a tunnel: the counters of each direction, and how much of the traffic goes
//! into a capture.
use vstd::arithmetic::div_mod::lemma_add_mod_noop_right;
use vstd::prelude::*;

use crate::capture::CaptureSession;
use crate::text::{contains, has_substring, law_occurrence};

verus! {

/// Which way a piece of traffic goes.
#[derive(Clone, Copy, Debug, PartialEq, Eq, Structural)]
pub enum TrafficDirection {
    ClientToTarget,
    TargetToClient,
}

/// How many bytes went each way.
#[derive(Clone, Copy, Debug, PartialEq, Eq, Structural)]
pub struct ProxyStats {
    pub client_to_target: u64,
    pub target_to_client: u64,
}

impl Default for ProxyStats {
    fn default() -> (r: Self)
        ensures
            r == (ProxyStats { client_to_target: 0, target_to_client: 0 }),
    {
        ProxyStats { client_to_target: 0, target_to_client: 0 }
    }
}

impl ProxyStats {
    /// The counters when `n` more bytes have gone one way. They wrap at 64 bits.
    pub open spec fn plus(self, direction: TrafficDirection, n: nat) -> Self {
        match direction {
            TrafficDirection::ClientToTarget => ProxyStats {
                client_to_target: ((self.client_to_target + n) % 0x1_0000_0000_0000_0000) as u64,
                ..self
            },
            TrafficDirection::TargetToClient => ProxyStats {
                target_to_client: ((self.target_to_client + n) % 0x1_0000_0000_0000_0000) as u64,
                ..self
            },
        }
    }
}

/// How much of a connection's traffic has gone into its capture.
#[derive(Clone, Copy, Debug, PartialEq, Eq)]
pub struct CaptureObserver {
    /// Payload bytes that were captured.
    pub captured: u64,
    /// Whether some traffic is missing from the capture.
    pub truncated: bool,
    /// The most payload bytes to capture.
    pub max_bytes: u64,
}

impl CaptureObserver {
    /// No more was captured than is allowed.
    pub open spec fn wf(self) -> bool {
        self.captured <= self.max_bytes
    }

    /// How many bytes of the next `len` bytes are to be captured; `None` where the limit has been
    /// reached.
    pub open spec fn share(self, len: nat) -> Option<nat> {
        if self.captured >= self.max_bytes {
            None
        } else if len <= self.max_bytes - self.captured {
            Some(len)
        } else {
            Some((self.max_bytes - self.captured) as nat)
        }
    }

    /// The observer once it has seen `len` bytes and chosen its share of them.
    pub open spec fn offered(self, len: nat) -> Self {
        CaptureObserver { truncated: self.truncated || self.share(len) != Some(len), ..self }
    }

    /// The observer once its share of `taken` bytes was queued for the capture, or was not.
    pub open spec fn answered(self, taken: nat, queued: bool) -> Self {
        if queued {
            CaptureObserver {
                captured: ((self.captured + taken) % 0x1_0000_0000_0000_0000) as u64,
                ..self
            }
        } else {
            CaptureObserver { truncated: true, ..self }
        }
    }

    /// The observer after one message of `len` bytes whose share was queued, or was not.
    pub open spec fn after_message(self, len: nat, queued: bool) -> Self {
        match self.share(len) {
            Some(taken) => self.offered(len).answered(taken, queued),
            None => self.offered(len),
        }
    }

    /// The observer after messages, each given by its length and by whether its share was queued.
    pub open spec fn after_messages(self, messages: Seq<(nat, bool)>) -> Self
        decreases messages.len(),
    {
        if messages.len() == 0 {
            self
        } else {
            self.after_messages(messages.drop_last()).after_message(
                messages.last().0,
                messages.last().1,
            )
        }
    }

    /// An observer of a capture that holds nothing yet.
    pub fn new(max_bytes: u64) -> (r: Self)
        ensures
            r == (CaptureObserver { captured: 0, truncated: false, max_bytes }),
            r.wf(),
    {
        CaptureObserver { captured: 0, truncated: false, max_bytes }
    }

    /// Takes the share of a message that is to be queued for the capture. Where the message is
    /// longer than what the limit leaves, the rest of it is missing from the capture. Where the
    /// limit has been reached, nothing is to be queued.
    pub fn observe(&mut self, data: &[u8]) -> (r: Option<Vec<u8>>)
        ensures
            *final(self) == old(self).offered(data@.len()),
            r is Some <==> old(self).share(data@.len()) is Some,
            r matches Some(packet) ==> packet@ == data@.take(
                old(self).share(data@.len())->0 as int,
            ),
    {
        if self.captured >= self.max_bytes {
            self.truncated = true;
            return None;
        }
        let remaining: u64 = self.max_bytes - self.captured;
        let length: usize = if (data.len() as u64) <= remaining {
            data.len()
        } else {
            remaining as usize
        };
        if length < data.len() {
            self.truncated = true;
        }
        let mut packet: Vec<u8> = Vec::new();
        let mut i: usize = 0;
        while i < length
            invariant
                i <= length <= data@.len(),
                packet@ == data@.take(i as int),
            decreases length - i,
        {
            packet.push(data[i]);
            i = i + 1;
        }
        Some(packet)
    }

    /// Counts a share of `length` bytes that was queued; one that was not is missing from the
    /// capture.
    pub fn packet_queued(&mut self, length: usize, queued: bool)
        ensures
            *final(self) == old(self).answered(length as nat, queued),
    {
        if queued {
            self.captured = self.captured.wrapping_add(length as u64);
        } else {
            self.truncated = true;
        }
    }
}

/// The counters of one connection, and its capture where there is one.
#[derive(Debug, PartialEq, Eq)]
pub struct ConnectionObserver {
    pub client_to_target: u64,
    pub target_to_client: u64,
    pub capture: Option<CaptureSession>,
}

impl ConnectionObserver {
    /// The counters of both directions.
    pub open spec fn counts(self) -> ProxyStats {
        ProxyStats {
            client_to_target: self.client_to_target,
            target_to_client: self.target_to_client,
        }
    }

    /// The observer after messages, each given by its direction and its length.
    pub open spec fn after_observing(self, messages: Seq<(TrafficDirection, nat)>) -> Self
        decreases messages.len(),
    {
        if messages.len() == 0 {
            self
        } else {
            self.after_observing(messages.drop_last()).observed(
                messages.last().0,
                messages.last().1,
            )
        }
    }

    /// The counters after messages, each given by its direction and its length.
    pub open spec fn counts_after(self, messages: Seq<(TrafficDirection, nat)>) -> ProxyStats {
        self.after_observing(messages).counts()
    }

    /// The capture with another state of what went into it.
    pub open spec fn with_capture(self, observer: CaptureObserver) -> Self {
        match self.capture {
            Some(session) => ConnectionObserver {
                capture: Some(CaptureSession { observer, ..session }),
                ..self
            },
            None => self,
        }
    }

    /// The observer once it has seen a message.
    pub open spec fn observed(self, direction: TrafficDirection, len: nat) -> Self {
        let counts = self.counts().plus(direction, len);
        let counted = ConnectionObserver {
            client_to_target: counts.client_to_target,
            target_to_client: counts.target_to_client,
            ..self
        };
        match self.capture {
            Some(session) => counted.with_capture(session.observer.offered(len)),
            None => counted,
        }
    }

    /// An observer that has seen nothing yet.
    pub fn new(capture: Option<CaptureSession>) -> (r: Self)
        ensures
            r == (ConnectionObserver { client_to_target: 0, target_to_client: 0, capture }),
    {
        ConnectionObserver { client_to_target: 0, target_to_client: 0, capture }
    }

    /// The counters of both directions.
    pub fn stats(&self) -> (r: ProxyStats)
        ensures
            r == self.counts(),
    {
        ProxyStats {
            client_to_target: self.client_to_target,
            target_to_client: self.target_to_client,
        }
    }

    /// Counts a message, and hands out what of it is to be queued for the capture.
    pub fn observe(&mut self, direction: TrafficDirection, data: &[u8]) -> (r: Option<Vec<u8>>)
        ensures
            *final(self) == old(self).observed(direction, data@.len()),
            match old(self).capture {
                Some(session) => {
                    &&& r is Some <==> session.observer.share(data@.len()) is Some
                    &&& r matches Some(packet) ==> packet@ == data@.take(
                        session.observer.share(data@.len())->0 as int,
                    )
                },
                None => r is None,
            },
    {
        match direction {
            TrafficDirection::ClientToTarget => {
                self.client_to_target = self.client_to_target.wrapping_add(data.len() as u64);
            },
            TrafficDirection::TargetToClient => {
                self.target_to_client = self.target_to_client.wrapping_add(data.len() as u64);
            },
        }
        match &mut self.capture {
            Some(session) => session.observer.observe(data),
            None => None,
        }
    }

    /// Tells the capture whether a share of `length` bytes was queued.
    pub fn packet_queued(&mut self, length: usize, queued: bool)
        ensures
            *final(self) == (match old(self).capture {
                Some(session) => old(self).with_capture(
                    session.observer.answered(length as nat, queued),
                ),
                None => *old(self),
            }),
    {
        match &mut self.capture {
            Some(session) => session.observer.packet_queued(length, queued),
            None => {},
        }
    }
}

/// How the end of a proxied connection with an error is recorded.
pub open spec fn proxy_error_result(error: Seq<char>, stats: ProxyStats) -> Seq<char> {
    if (stats.client_to_target > 0 || stats.target_to_client > 0) && has_substring(
        error,
        "Connection reset without closing handshake"@,
    ) {
        "completed_ungraceful_close"@
    } else {
        "proxy_error:"@ + error
    }
}

/// How the end of a proxied connection with an error is recorded: a reset after some traffic has
/// passed is an ungraceful close, anything else a proxy error.
pub fn classify_proxy_error(error: &str, stats: ProxyStats) -> (r: String)
    ensures
        r@ == proxy_error_result(error@, stats),
{
    if (stats.client_to_target > 0 || stats.target_to_client > 0) && contains(
        error,
        "Connection reset without closing handshake",
    ) {
        "completed_ungraceful_close".to_string()
    } else {
        let mut r = "proxy_error:".to_string();
        r.append(error);
        r
    }
}

/// The lengths of messages together.
pub open spec fn total_length(messages: Seq<(nat, bool)>) -> nat
    decreases messages.len(),
{
    if messages.len() == 0 {
        0
    } else {
        total_length(messages.drop_last()) + messages.last().0
    }
}

/// A capture never holds more than its limit, whatever passes and whatever is queued, and the
/// limit stays what it was.
pub proof fn law_capture_stays_within_its_limit(
    observer: CaptureObserver,
    messages: Seq<(nat, bool)>,
)
    requires
        observer.wf(),
    ensures
        observer.after_messages(messages).wf(),
        observer.after_messages(messages).max_bytes == observer.max_bytes,
    decreases messages.len(),
{
    if messages.len() > 0 {
        law_capture_stays_within_its_limit(observer, messages.drop_last());
    }
}

/// A capture that lacks some traffic is known as truncated from then on, and what was captured
/// stays captured.
pub proof fn law_truncation_is_final(
    observer: CaptureObserver,
    earlier: Seq<(nat, bool)>,
    later: Seq<(nat, bool)>,
)
    requires
        observer.wf(),
    ensures
        observer.after_messages(earlier).truncated ==> observer.after_messages(
            earlier + later,
        ).truncated,
        observer.after_messages(earlier).captured <= observer.after_messages(
            earlier + later,
        ).captured,
    decreases later.len(),
{
    if later.len() == 0 {
        assert(earlier + later == earlier);
    } else {
        law_truncation_is_final(observer, earlier, later.drop_last());
        law_capture_stays_within_its_limit(observer, earlier + later.drop_last());
        assert((earlier + later).drop_last() == earlier + later.drop_last());
    }
}

/// A capture that is not marked as truncated holds every byte that passed.
pub proof fn law_untruncated_capture_is_complete(max_bytes: u64, messages: Seq<(nat, bool)>)
    ensures
        ({
            let fresh = CaptureObserver { captured: 0, truncated: false, max_bytes };
            !fresh.after_messages(messages).truncated ==> fresh.after_messages(messages).captured
                == total_length(messages)
        }),
    decreases messages.len(),
{
    let fresh = CaptureObserver { captured: 0, truncated: false, max_bytes };
    if messages.len() > 0 {
        law_untruncated_capture_is_complete(max_bytes, messages.drop_last());
        law_capture_stays_within_its_limit(fresh, messages.drop_last());
    }
}

/// Of messages that all hold something, a capture is marked as truncated exactly where it lacks some
/// of their bytes.
pub proof fn law_truncated_capture_lacks_traffic(max_bytes: u64, messages: Seq<(nat, bool)>)
    requires
        forall|i: int| 0 <= i < messages.len() ==> (#[trigger] messages[i]).0 > 0,
    ensures
        ({
            let fresh = CaptureObserver { captured: 0, truncated: false, max_bytes };
            let now = fresh.after_messages(messages);
            &&& now.captured <= total_length(messages)
            &&& now.truncated <==> now.captured < total_length(messages)
        }),
    decreases messages.len(),
{
    let fresh = CaptureObserver { captured: 0, truncated: false, max_bytes };
    if messages.len() > 0 {
        let earlier = messages.drop_last();
        law_truncated_capture_lacks_traffic(max_bytes, earlier);
        law_capture_stays_within_its_limit(fresh, earlier);
        assert(messages.last() == messages[messages.len() - 1]);
    }
}

/// The bytes of messages, one after the other.
pub open spec fn passed(messages: Seq<Seq<u8>>) -> Seq<u8>
    decreases messages.len(),
{
    if messages.len() == 0 {
        Seq::empty()
    } else {
        passed(messages.drop_last()) + messages.last()
    }
}

/// Messages whose shares are all queued, by their lengths.
pub open spec fn all_queued(messages: Seq<Seq<u8>>) -> Seq<(nat, bool)> {
    messages.map_values(|data: Seq<u8>| (data.len(), true))
}

/// The shares of messages that a new capture takes where all of them are queued, one after the
/// other.
pub open spec fn queued_data(max_bytes: u64, messages: Seq<Seq<u8>>) -> Seq<u8>
    decreases messages.len(),
{
    if messages.len() == 0 {
        Seq::empty()
    } else {
        let fresh = CaptureObserver { captured: 0, truncated: false, max_bytes };
        let earlier = messages.drop_last();
        match fresh.after_messages(all_queued(earlier)).share(messages.last().len()) {
            Some(taken) => queued_data(max_bytes, earlier) + messages.last().take(taken as int),
            None => queued_data(max_bytes, earlier),
        }
    }
}

/// Where all that is to be captured is queued, a capture holds the first bytes of the traffic, as
/// many as the limit allows, and counts them.
pub proof fn law_capture_holds_the_first_bytes(max_bytes: u64, messages: Seq<Seq<u8>>)
    ensures
        ({
            let fresh = CaptureObserver { captured: 0, truncated: false, max_bytes };
            let all = passed(messages);
            let kept = if all.len() <= max_bytes {
                all.len() as int
            } else {
                max_bytes as int
            };
            &&& queued_data(max_bytes, messages) == all.take(kept)
            &&& fresh.after_messages(all_queued(messages)).captured == kept
        }),
    decreases messages.len(),
{
    let fresh = CaptureObserver { captured: 0, truncated: false, max_bytes };
    if messages.len() > 0 {
        let earlier = messages.drop_last();
        let last = messages.last();
        law_capture_holds_the_first_bytes(max_bytes, earlier);
        law_capture_stays_within_its_limit(fresh, all_queued(earlier));
        assert(all_queued(messages).drop_last() == all_queued(earlier));
        assert(all_queued(messages).last() == (last.len(), true));
        assert(last.take(last.len() as int) == last);
        let before = passed(earlier);
        let all = passed(messages);
        assert(all == before + last);
        if all.len() <= max_bytes {
            assert(queued_data(max_bytes, messages) =~= all);
        } else {
            assert(queued_data(max_bytes, messages) =~= all.take(max_bytes as int));
        }
    }
}

/// The lengths together of the messages that went one way.
pub open spec fn length_towards(
    messages: Seq<(TrafficDirection, nat)>,
    direction: TrafficDirection,
) -> nat
    decreases messages.len(),
{
    if messages.len() == 0 {
        0
    } else if messages.last().0 == direction {
        length_towards(messages.drop_last(), direction) + messages.last().1
    } else {
        length_towards(messages.drop_last(), direction)
    }
}

/// Each counter of a connection shows how many bytes went its way, as far as 64 bits hold it.
pub proof fn law_counters_add_up(
    capture: Option<CaptureSession>,
    messages: Seq<(TrafficDirection, nat)>,
)
    ensures
        ({
            let fresh = ConnectionObserver { client_to_target: 0, target_to_client: 0, capture };
            let counts = fresh.counts_after(messages);
            &&& counts.client_to_target == length_towards(messages, TrafficDirection::ClientToTarget)
                % 0x1_0000_0000_0000_0000
            &&& counts.target_to_client == length_towards(messages, TrafficDirection::TargetToClient)
                % 0x1_0000_0000_0000_0000
        }),
    decreases messages.len(),
{
    if messages.len() > 0 {
        let earlier = messages.drop_last();
        let (direction, len) = messages.last();
        law_counters_add_up(capture, earlier);
        lemma_add_mod_noop_right(
            len as int,
            length_towards(earlier, direction) as int,
            0x1_0000_0000_0000_0000,
        );
    }
}

/// A reset after some traffic has passed, in either direction, is never recorded as an error.
pub proof fn law_reset_after_traffic_is_no_error(error: Seq<char>, stats: ProxyStats)
    requires
        stats.client_to_target > 0 || stats.target_to_client > 0,
        has_substring(error, "Connection reset without closing handshake"@),
    ensures
        proxy_error_result(error, stats) == "completed_ungraceful_close"@,
{
}

/// Observing a message adds its length to the counter of its direction, as far as 64 bits hold it,
/// and leaves the other counter alone; the capture keeps its file, its limit and what it has
/// captured, and is marked as truncated where it has no room for all of the message.
pub proof fn law_observing_a_message(before: ConnectionObserver, len: nat)
    ensures
        ({
            let up = before.observed(TrafficDirection::ClientToTarget, len);
            let down = before.observed(TrafficDirection::TargetToClient, len);
            &&& up.client_to_target == (before.client_to_target + len) % 0x1_0000_0000_0000_0000
            &&& up.target_to_client == before.target_to_client
            &&& down.target_to_client == (before.target_to_client + len) % 0x1_0000_0000_0000_0000
            &&& down.client_to_target == before.client_to_target
            &&& up.capture == down.capture
            &&& up.capture is Some <==> before.capture is Some
            &&& before.capture matches Some(old) ==> up.capture matches Some(new) && {
                &&& new.relative_path == old.relative_path
                &&& new.observer.captured == old.observer.captured
                &&& new.observer.max_bytes == old.observer.max_bytes
                &&& new.observer.truncated <==> old.observer.truncated || old.observer.captured
                    >= old.observer.max_bytes || old.observer.captured + len
                    > old.observer.max_bytes
            }
        }),
{
}

/// The counters that a connection shows are those that it keeps, each as what it is.
pub proof fn law_counters_shown(observer: ConnectionObserver)
    ensures
        observer.counts().client_to_target == observer.client_to_target,
        observer.counts().target_to_client == observer.target_to_client,
{
}

/// The answer to the question whether a share was queued changes what was captured and nothing
/// else: a share that was queued is added, one that was not is known to be missing.
pub proof fn law_queueing_a_share(
    before: ConnectionObserver,
    session: CaptureSession,
    taken: nat,
    queued: bool,
)
    requires
        before.capture == Some(session),
        session.observer.captured + taken <= u64::MAX,
    ensures
        ({
            let after = before.with_capture(session.observer.answered(taken, queued));
            &&& after.client_to_target == before.client_to_target
            &&& after.target_to_client == before.target_to_client
            &&& after.capture matches Some(new) && {
                &&& new.relative_path == session.relative_path
                &&& new.observer.max_bytes == session.observer.max_bytes
                &&& new.observer.captured == session.observer.captured + (if queued {
                    taken
                } else {
                    0
                })
                &&& new.observer.truncated <==> session.observer.truncated || !queued
            }
        }),
{
}

/// The share of a message that is captured is as much of it as the limit leaves room for; where it
/// leaves none, nothing is.
pub proof fn law_share_of_a_message(observer: CaptureObserver, len: nat)
    ensures
        observer.share(len) is None <==> observer.captured >= observer.max_bytes,
        observer.share(len) matches Some(taken) ==> {
            &&& taken <= len
            &&& observer.captured + taken <= observer.max_bytes
            &&& taken == len || observer.captured + taken == observer.max_bytes
        },
{
}

/// An error with the words of a reset without a handshake is an ungraceful close once some traffic
/// has passed. Without traffic, or without those words, it is an error, which is told in full.
pub proof fn law_ends_with_an_error(before: Seq<char>, after: Seq<char>, error: Seq<char>)
    ensures
        forall|stats: ProxyStats|
            #![trigger stats.client_to_target]
            stats.client_to_target > 0 || stats.target_to_client > 0 ==> proxy_error_result(
                before + "Connection reset without closing handshake"@ + after,
                stats,
            ) == "completed_ungraceful_close"@,
        proxy_error_result(error, ProxyStats { client_to_target: 0, target_to_client: 0 })
            == "proxy_error:"@ + error,
        forall|stats: ProxyStats|
            #![trigger stats.client_to_target]
            (forall|a: Seq<char>, b: Seq<char>|
                error != #[trigger] (a + "Connection reset without closing handshake"@ + b))
                ==> proxy_error_result(error, stats) == "proxy_error:"@ + error,
{
    law_occurrence(error, before, "Connection reset without closing handshake"@, after);
}

} // verus!
