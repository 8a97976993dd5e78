//! The event bus: protocol occurrences are wrapped in a cancelable,
//! mutable event and handed to every registered handler in ascending
//! priority order before the default action runs. A handler's mutation or
//! cancellation is visible to every handler after it and to the caller;
//! a cancelled event makes the default action be skipped.

use vstd::prelude::*;

verus! {

/// A namespaced key, written `namespace:path` on the wire.
#[derive(Clone, Debug, PartialEq, Eq)]
pub struct ResourceLocation {
    /// The namespace before the colon.
    pub namespace: String,
    /// The path after the colon.
    pub path: String,
}

impl ResourceLocation {
    /// Builds the key from its two parts.
    pub fn new(namespace: String, path: String) -> (r: Self)
        ensures
            r.namespace == namespace,
            r.path == path,
    {
        Self { namespace, path }
    }

    /// A copy of the key, equal to the original.
    pub fn clone_key(&self) -> (r: ResourceLocation)
        ensures
            r == *self,
    {
        ResourceLocation { namespace: self.namespace.clone(), path: self.path.clone() }
    }

    /// Whether two keys read the same.
    pub fn same_key(&self, other: &ResourceLocation) -> (r: bool)
        ensures
            r == (self.namespace@ == other.namespace@ && self.path@ == other.path@),
    {
        self.namespace == other.namespace && self.path == other.path
    }
}

/// A cookie response received from a client: the echoed key, whether a
/// payload came with it, and the opaque payload bytes if so.
#[derive(Clone)]
pub struct ConfigCookieResponseEvent {
    /// The handle of the connection that sent the response.
    pub client: u64,
    /// The cookie key the client echoes back.
    pub key: ResourceLocation,
    /// Whether the cookie carries a payload.
    pub has_payload: bool,
    /// The opaque payload bytes, if present.
    pub payload: Option<Vec<u8>>,
}

/// The mathematical content of a cookie response: the payload as a byte
/// sequence, the key as its two character sequences.
pub ghost struct CookieEventView {
    /// The handle of the connection that sent the response.
    pub client: u64,
    /// The key's namespace.
    pub key_ns: Seq<char>,
    /// The key's path.
    pub key_path: Seq<char>,
    /// Whether the cookie carries a payload.
    pub has_payload: bool,
    /// The payload bytes, if present.
    pub payload: Option<Seq<u8>>,
}

/// The payload bytes as a sequence, if present.
pub open spec fn opt_bytes_view(p: Option<Vec<u8>>) -> Option<Seq<u8>> {
    match p {
        None => None,
        Some(v) => Some(v@),
    }
}

impl ConfigCookieResponseEvent {
    /// The mathematical content of this response.
    pub open spec fn model(&self) -> CookieEventView {
        CookieEventView {
            client: self.client,
            key_ns: self.key.namespace@,
            key_path: self.key.path@,
            has_payload: self.has_payload,
            payload: opt_bytes_view(self.payload),
        }
    }

    /// Builds the event from the decoded fields of a cookie-response
    /// packet.
    pub fn new(client: u64, key: ResourceLocation, has_payload: bool, payload: Option<Vec<u8>>) -> (r:
        Self)
        ensures
            r.client == client,
            r.key == key,
            r.has_payload == has_payload,
            r.payload == payload,
    {
        Self { client, key, has_payload, payload }
    }
}

/// A cancelable, mutable wrapper around an event payload, as handed to
/// each handler in turn.
pub struct Event<T> {
    /// The event's mutable payload.
    pub payload: T,
    /// Whether some handler asked for the default action to be skipped.
    pub cancelled: bool,
}

/// The mathematical content of a cookie-response event in flight.
pub ghost struct EventView {
    /// The payload as the handlers so far left it.
    pub payload: CookieEventView,
    /// Whether some handler asked for the default action to be skipped.
    pub cancelled: bool,
}

impl Event<ConfigCookieResponseEvent> {
    /// The mathematical content of this event.
    pub open spec fn model(&self) -> EventView {
        EventView { payload: self.payload.model(), cancelled: self.cancelled }
    }
}

/// What a registered handler does to a cookie-response event.
#[derive(Debug)]
pub enum HandlerBehavior {
    /// Reads the event and changes nothing.
    Observe,
    /// Asks for the default action to be skipped.
    Cancel,
    /// Replaces the payload bytes, setting the presence flag to match.
    SetPayload(Option<Vec<u8>>),
    /// Cancels exactly when a payload is present, as left by the handlers
    /// that ran before.
    CancelIfPayloadPresent,
}

/// A registered handler: an identity, the priority it runs at, and what it
/// does.
#[derive(Debug)]
pub struct EventHandler {
    /// Identifies the registration, for unregistering.
    pub id: u64,
    /// Handlers run in ascending priority order.
    pub priority: u8,
    /// What the handler does to the event.
    pub behavior: HandlerBehavior,
}

/// The event as one handler leaves it.
pub open spec fn apply_handler(b: HandlerBehavior, ev: EventView) -> EventView {
    match b {
        HandlerBehavior::Observe => ev,
        HandlerBehavior::Cancel => EventView { payload: ev.payload, cancelled: true },
        HandlerBehavior::SetPayload(p) => EventView {
            payload: CookieEventView {
                client: ev.payload.client,
                key_ns: ev.payload.key_ns,
                key_path: ev.payload.key_path,
                has_payload: p is Some,
                payload: opt_bytes_view(p),
            },
            cancelled: ev.cancelled,
        },
        HandlerBehavior::CancelIfPayloadPresent => EventView {
            payload: ev.payload,
            cancelled: ev.cancelled || ev.payload.has_payload,
        },
    }
}

/// The event after every handler in `hs` ran, front to back.
pub open spec fn dispatch_seq(hs: Seq<EventHandler>, ev: EventView) -> EventView
    decreases hs.len(),
{
    if hs.len() == 0 {
        ev
    } else {
        dispatch_seq(hs.drop_first(), apply_handler(hs[0].behavior, ev))
    }
}

/// Handlers stand in ascending priority order; equal priorities keep
/// registration order.
pub open spec fn handlers_sorted(hs: Seq<EventHandler>) -> bool {
    forall|i: int, j: int| 0 <= i < j < hs.len() ==> hs[i].priority <= hs[j].priority
}

/// Where a new handler of priority `pri` is inserted: after every handler
/// of priority at most `pri`, before the first of a higher priority.
pub open spec fn insert_pos(hs: Seq<EventHandler>, pri: u8) -> int
    decreases hs.len(),
{
    if hs.len() == 0 {
        0
    } else if hs[0].priority <= pri {
        1 + insert_pos(hs.drop_first(), pri)
    } else {
        0
    }
}

/// A byte-for-byte copy.
fn clone_bytes(v: &Vec<u8>) -> (r: Vec<u8>)
    ensures
        r@ == v@,
{
    let mut r: Vec<u8> = Vec::new();
    let mut i: usize = 0;
    while i < v.len()
        invariant
            i <= v@.len(),
            r@ == v@.take(i as int),
        decreases v@.len() - i,
    {
        r.push(v[i]);
        proof {
            assert(v@.take(i as int + 1) =~= v@.take(i as int).push(v@[i as int]));
        }
        i = i + 1;
    }
    proof {
        assert(v@.take(i as int) =~= v@);
    }
    r
}

/// The registry of handlers for cookie-response events.
pub struct EventBus {
    handlers: Vec<EventHandler>,
}

impl EventBus {
    /// The registered handlers, in the order they run.
    pub closed spec fn spec_handlers(&self) -> Seq<EventHandler> {
        self.handlers@
    }

    /// The handlers stand in the order they run: ascending priority.
    pub open spec fn wf(&self) -> bool {
        handlers_sorted(self.spec_handlers())
    }

    /// A bus with no handlers.
    pub fn new() -> (r: Self)
        ensures
            r.spec_handlers() == Seq::<EventHandler>::empty(),
            r.wf(),
    {
        Self { handlers: Vec::new() }
    }

    /// Registers a handler at its priority: it will run after every
    /// handler of the same or lower priority already registered, and
    /// before every handler of a higher one.
    pub fn register(&mut self, handler: EventHandler)
        requires
            old(self).wf(),
        ensures
            final(self).wf(),
            final(self).spec_handlers() == old(self).spec_handlers().insert(
                insert_pos(old(self).spec_handlers(), handler.priority),
                handler,
            ),
    {
        let ghost hs = self.handlers@;
        let pri = handler.priority;
        let mut i: usize = 0;
        proof {
            assert(hs.skip(0) =~= hs);
        }
        while i < self.handlers.len() && self.handlers[i].priority <= pri
            invariant
                hs == self.handlers@,
                i <= hs.len(),
                forall|j: int| 0 <= j < i ==> hs[j].priority <= pri,
                insert_pos(hs, pri) == i + insert_pos(hs.skip(i as int), pri),
                pri == handler.priority,
            decreases hs.len() - i,
        {
            proof {
                assert(hs.skip(i as int)[0] == hs[i as int]);
                assert(hs.skip(i as int).drop_first() =~= hs.skip(i as int + 1));
            }
            i = i + 1;
        }
        proof {
            if i < hs.len() {
                assert(hs.skip(i as int)[0] == hs[i as int]);
                assert(insert_pos(hs.skip(i as int), pri) == 0);
            } else {
                assert(hs.skip(i as int).len() == 0);
            }
            assert(insert_pos(hs, pri) == i as int);
        }
        self.handlers.insert(i, handler);
        proof {
            hs.insert_ensures(i as int, handler);
            let s = self.handlers@;
            assert forall|p: int, q: int| 0 <= p < q < s.len() implies s[p].priority
                <= s[q].priority by {
                if q < i as int {
                } else if q == i as int {
                    assert(s[p] == hs[p]);
                } else if p == i as int {
                    assert(s[q] == hs[q - 1]);
                } else if p < i as int {
                    assert(s[q] == hs[q - 1]);
                } else {
                    assert(s[p] == hs[p - 1]);
                    assert(s[q] == hs[q - 1]);
                }
            }
        }
    }

    /// Unregisters the first handler registered under `id`; a no-op when
    /// none is.
    pub fn unregister(&mut self, id: u64)
        requires
            old(self).wf(),
        ensures
            final(self).wf(),
            (forall|i: int|
                0 <= i < old(self).spec_handlers().len() ==> old(self).spec_handlers()[i].id != id)
                ==> final(self).spec_handlers() == old(self).spec_handlers(),
            (exists|i: int|
                0 <= i < old(self).spec_handlers().len() && old(self).spec_handlers()[i].id == id)
                ==> exists|i: int|
                0 <= i < old(self).spec_handlers().len() && old(self).spec_handlers()[i].id == id
                    && final(self).spec_handlers() == old(self).spec_handlers().remove(i),
    {
        let ghost hs = self.handlers@;
        let mut i: usize = 0;
        while i < self.handlers.len()
            invariant
                hs == self.handlers@,
                i <= hs.len(),
                hs == old(self).spec_handlers(),
                old(self).wf(),
                forall|j: int| 0 <= j < i ==> hs[j].id != id,
                handlers_sorted(hs),
            decreases hs.len() - i,
        {
            if self.handlers[i].id == id {
                self.handlers.remove(i);
                proof {
                    hs.remove_ensures(i as int);
                    let s = hs.remove(i as int);
                    assert forall|p: int, q: int| 0 <= p < q < s.len() implies s[p].priority
                        <= s[q].priority by {
                        if q < i as int {
                        } else if p >= i as int {
                            assert(s[p] == hs[p + 1]);
                            assert(s[q] == hs[q + 1]);
                        } else {
                            assert(s[p] == hs[p]);
                            assert(s[q] == hs[q + 1]);
                        }
                    }
                }
                return ;
            }
            i = i + 1;
        }
    }

    /// Publishes a cookie-response payload: wraps it uncancelled, runs
    /// every handler front to back — each seeing the payload and
    /// cancellation exactly as the previous handler left them — and
    /// returns the event as the last handler left it.
    pub fn publish(&self, payload: ConfigCookieResponseEvent) -> (r: Event<
        ConfigCookieResponseEvent,
    >)
        ensures
            r.model() == dispatch_seq(
                self.spec_handlers(),
                (EventView { payload: payload.model(), cancelled: false }),
            ),
    {
        let ghost hs = self.handlers@;
        let mut ev = Event { payload, cancelled: false };
        let ghost ev0 = ev.model();
        let mut i: usize = 0;
        proof {
            assert(hs.skip(0) =~= hs);
        }
        while i < self.handlers.len()
            invariant
                hs == self.handlers@,
                i <= hs.len(),
                dispatch_seq(hs, ev0) == dispatch_seq(hs.skip(i as int), ev.model()),
            decreases hs.len() - i,
        {
            let ghost ev_before = ev.model();
            match &self.handlers[i].behavior {
                HandlerBehavior::Observe => {},
                HandlerBehavior::Cancel => {
                    ev.cancelled = true;
                },
                HandlerBehavior::SetPayload(p) => {
                    let new_payload = match p {
                        None => None,
                        Some(bytes) => Some(clone_bytes(bytes)),
                    };
                    ev.payload.has_payload = new_payload.is_some();
                    ev.payload.payload = new_payload;
                },
                HandlerBehavior::CancelIfPayloadPresent => {
                    if ev.payload.has_payload {
                        ev.cancelled = true;
                    }
                },
            }
            proof {
                assert(hs.skip(i as int)[0] == hs[i as int]);
                assert(ev.model() == apply_handler(hs[i as int].behavior, ev_before));
                assert(hs.skip(i as int).drop_first() =~= hs.skip(i as int + 1));
            }
            i = i + 1;
        }
        ev
    }
}

/// Law (mutation visibility): dispatch decomposes around any split, so the
/// handlers after a prefix receive exactly the event — payload mutations
/// and cancellation included — that the prefix produced.
pub proof fn lemma_dispatch_decompose(hs1: Seq<EventHandler>, hs2: Seq<EventHandler>, ev: EventView)
    ensures
        dispatch_seq(hs1 + hs2, ev) == dispatch_seq(hs2, dispatch_seq(hs1, ev)),
    decreases hs1.len(),
{
    if hs1.len() == 0 {
        assert(hs1 + hs2 =~= hs2);
    } else {
        assert((hs1 + hs2)[0] == hs1[0]);
        assert((hs1 + hs2).drop_first() =~= hs1.drop_first() + hs2);
        lemma_dispatch_decompose(hs1.drop_first(), hs2, apply_handler(hs1[0].behavior, ev));
    }
}

/// Law: no handler clears a cancellation once set.
pub proof fn lemma_cancelled_stays(hs: Seq<EventHandler>, ev: EventView)
    requires
        ev.cancelled,
    ensures
        dispatch_seq(hs, ev).cancelled,
    decreases hs.len(),
{
    if hs.len() > 0 {
        lemma_cancelled_stays(hs.drop_first(), apply_handler(hs[0].behavior, ev));
    }
}

/// Law (cancellation): a cancelling handler anywhere in the chain leaves
/// the published event cancelled, so the default action bound to it is
/// skipped.
pub proof fn lemma_cancel_handler_cancels(hs: Seq<EventHandler>, ev: EventView, i: int)
    requires
        0 <= i < hs.len(),
        hs[i].behavior is Cancel,
    ensures
        dispatch_seq(hs, ev).cancelled,
    decreases i,
{
    if i == 0 {
        lemma_cancelled_stays(hs.drop_first(), apply_handler(hs[0].behavior, ev));
    } else {
        assert(hs.drop_first()[i - 1] == hs[i]);
        lemma_cancel_handler_cancels(hs.drop_first(), apply_handler(hs[0].behavior, ev), i - 1);
    }
}

} // verus!
