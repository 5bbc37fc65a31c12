use vstd::prelude::*;

use crate::json::chat_json;
use crate::message::{ChatMessage, ChatMessageView, MessageType, ToJson, error_view};
use crate::routing::{ClientKey, applies_route, route_applies, route_message};
use crate::seq_facts::{
    lemma_filter_contains_iff, lemma_filter_no_duplicates, lemma_map_add, lemma_map_push,
    lemma_take_succ,
};

verus! {

/// How long, in nanoseconds, a client may stay silent before it is dropped.
pub const TIMEOUT_NS: u64 = 30_000_000_000;

/// What the relay is asked to do by a connection.
#[derive(Debug)]
pub enum SessionCommand {
    /// A client has authenticated as `key`; its connection joins the session.
    Join { key: ClientKey },
    /// The connection of `key` has closed.
    Leave { key: ClientKey },
    /// `sender_key` sent `msg` to be routed.
    SendMessage { msg: ChatMessage, sender_key: ClientKey },
    /// `key` pinged the relay.
    Ping { key: ClientKey },
}

/// What the relay asks its network layer to do after a decision.
#[derive(Debug)]
pub enum SessionAction {
    /// Send `payload` on the outgoing channel of `to`.
    Deliver { to: ClientKey, payload: String },
    /// Register the joining connection of `key` (its channel and stop signal).
    Open { key: ClientKey },
    /// Drop the outgoing channel of `key` and signal its connection to stop.
    Close { key: ClientKey },
}

/// The mathematical content of a [`SessionAction`].
pub enum ActionView {
    Deliver { to: ClientKey, payload: Seq<char> },
    Open { key: ClientKey },
    Close { key: ClientKey },
}

impl View for SessionAction {
    type V = ActionView;

    open spec fn view(&self) -> ActionView {
        match self {
            SessionAction::Deliver { to, payload } => ActionView::Deliver { to: *to, payload: payload@ },
            SessionAction::Open { key } => ActionView::Open { key: *key },
            SessionAction::Close { key } => ActionView::Close { key: *key },
        }
    }
}

pub open spec fn action_view() -> spec_fn(SessionAction) -> ActionView {
    |a: SessionAction| a@
}

/// The actions of a list, as values.
pub open spec fn actions_view(a: Seq<SessionAction>) -> Seq<ActionView> {
    a.map_values(action_view())
}

/// The state of a session: who is connected, who has joined since the session
/// began, when each client was last seen (nanoseconds on a monotonic clock), and the messages sent.
pub struct SessionView {
    pub active: Seq<ClientKey>,
    pub joined_once: Seq<ClientKey>,
    pub last_seen: Seq<(ClientKey, u64)>,
    pub messages: Seq<ChatMessageView>,
}

/// Whether some entry of `s` is about `key`.
pub open spec fn has_entry(s: Seq<(ClientKey, u64)>, key: ClientKey) -> bool {
    exists|i: int| 0 <= i < s.len() && s[i].0 == key
}

/// No two entries of `s` are about the same client.
pub open spec fn unique_keys(s: Seq<(ClientKey, u64)>) -> bool {
    forall|i: int, j: int| 0 <= i < s.len() && 0 <= j < s.len() && i != j ==> s[i].0 != s[j].0
}

impl SessionView {
    /// The invariant of every reachable session: no client twice in any
    /// list, and every connected client has joined and has a last-seen time.
    pub open spec fn wf(self) -> bool {
        &&& self.active.no_duplicates()
        &&& self.joined_once.no_duplicates()
        &&& unique_keys(self.last_seen)
        &&& forall|k: ClientKey| #[trigger] self.active.contains(k)
            ==> self.joined_once.contains(k) && has_entry(self.last_seen, k)
    }
}

/// The session with nobody and nothing in it.
pub open spec fn empty_session() -> SessionView {
    SessionView {
        active: Seq::empty(),
        joined_once: Seq::empty(),
        last_seen: Seq::empty(),
        messages: Seq::empty(),
    }
}

pub open spec fn other_than(key: ClientKey) -> spec_fn(ClientKey) -> bool {
    |k: ClientKey| k != key
}

pub open spec fn entry_not_of(key: ClientKey) -> spec_fn((ClientKey, u64)) -> bool {
    |e: (ClientKey, u64)| e.0 != key
}

pub open spec fn restamp(key: ClientKey, now: u64) -> spec_fn((ClientKey, u64)) -> (ClientKey, u64) {
    |e: (ClientKey, u64)| if e.0 == key { (key, now) } else { e }
}

/// Records that `key` was seen at `now`: its entry is updated, or added last.
pub open spec fn touch(s: Seq<(ClientKey, u64)>, key: ClientKey, now: u64) -> Seq<(ClientKey, u64)> {
    if has_entry(s, key) {
        s.map_values(restamp(key, now))
    } else {
        s.push((key, now))
    }
}

/// Whether a client last seen at `last` has been silent too long at `now`.
pub open spec fn expired(now: u64, last: u64) -> bool {
    now > last && now - last > TIMEOUT_NS
}

pub open spec fn expired_at(now: u64) -> spec_fn((ClientKey, u64)) -> bool {
    |e: (ClientKey, u64)| expired(now, e.1)
}

pub open spec fn entry_key() -> spec_fn((ClientKey, u64)) -> ClientKey {
    |e: (ClientKey, u64)| e.0
}

/// Whether `msg`, sent by `sender` (or by the relay), goes to `client`: its
/// route selects the client, and a client never gets back its own message
/// unless it is a `Pong`.
pub open spec fn delivers(msg: ChatMessageView, client: ClientKey, sender: Option<ClientKey>) -> bool {
    &&& !(sender == Some(client) && msg.msg_type != MessageType::Pong)
    &&& route_applies(msg, client)
}

pub open spec fn delivers_to(msg: ChatMessageView, sender: Option<ClientKey>) -> spec_fn(ClientKey) -> bool {
    |c: ClientKey| delivers(msg, c, sender)
}

/// The connected clients that receive `msg`, in connection order.
pub open spec fn route_recipients(active: Seq<ClientKey>, msg: ChatMessageView, sender: Option<ClientKey>) -> Seq<ClientKey> {
    active.filter(delivers_to(msg, sender))
}

pub open spec fn deliver_action(payload: Seq<char>) -> spec_fn(ClientKey) -> ActionView {
    |c: ClientKey| ActionView::Deliver { to: c, payload: payload }
}

/// Sending the same payload to each of `to`, in order.
pub open spec fn deliveries(to: Seq<ClientKey>, payload: Seq<char>) -> Seq<ActionView> {
    to.map_values(deliver_action(payload))
}

pub open spec fn close_action() -> spec_fn(ClientKey) -> ActionView {
    |c: ClientKey| ActionView::Close { key: c }
}

pub open spec fn applies_to(key: ClientKey) -> spec_fn(ChatMessageView) -> bool {
    |m: ChatMessageView| route_applies(m, key)
}

pub open spec fn replay_action(key: ClientKey) -> spec_fn(ChatMessageView) -> ActionView {
    |m: ChatMessageView| ActionView::Deliver { to: key, payload: chat_json(m) }
}

/// The text of the notice sent when a duplicate join restarts the session.
pub open spec fn duplicate_join_text() -> Seq<char> {
    "session terminated due to duplicate join"@
}

/// The name under which the relay signs its own messages.
pub open spec fn relay_name() -> Seq<char> {
    "pqgch-router"@
}

/// The answer to a ping from `key`.
pub open spec fn pong_view(key: ClientKey) -> ChatMessageView {
    ChatMessageView {
        send_id: 0,
        recv_id: key.user_id,
        msg_type: MessageType::Pong,
        cluster_id: key.cluster_id,
        sender: relay_name(),
        content: Seq::empty(),
    }
}

/// Resetting: everything is forgotten and every connection is closed.
pub open spec fn reset_effect(s: SessionView) -> (SessionView, Seq<ActionView>) {
    (empty_session(), s.active.map_values(close_action()))
}

/// Leaving: a connected client is closed and forgotten; when it was the last
/// one, the session is reset.  A client that is not connected changes nothing.
pub open spec fn leave_effect(s: SessionView, key: ClientKey) -> (SessionView, Seq<ActionView>) {
    if s.active.contains(key) {
        let left = SessionView {
            active: s.active.filter(other_than(key)),
            last_seen: s.last_seen.filter(entry_not_of(key)),
            ..s
        };
        if left.active.len() == 0 {
            let r = reset_effect(left);
            (r.0, seq![ActionView::Close { key: key }] + r.1)
        } else {
            (left, seq![ActionView::Close { key: key }])
        }
    } else {
        (s, Seq::empty())
    }
}

/// Joining: a client that has joined before restarts the session (every
/// connected client is told, then everything is reset); then the new
/// connection is registered, replayed the stored messages meant for it, and
/// recorded as connected, joined and seen at `now`.
pub open spec fn join_effect(s: SessionView, key: ClientKey, now: u64) -> (SessionView, Seq<ActionView>) {
    let restart = if s.joined_once.contains(key) {
        let r = reset_effect(s);
        (r.0, deliveries(s.active, chat_json(error_view(duplicate_join_text()))) + r.1)
    } else {
        (s, Seq::empty())
    };
    let s0 = restart.0;
    let replay = s0.messages.filter(applies_to(key)).map_values(replay_action(key));
    let joined = SessionView {
        active: s0.active.push(key),
        joined_once: s0.joined_once.push(key),
        last_seen: touch(s0.last_seen, key, now),
        messages: s0.messages,
    };
    (joined, restart.1 + seq![ActionView::Open { key: key }] + replay)
}

/// Sending: the message goes to the clients its route selects (never back to
/// its sender) and is stored.
pub open spec fn send_effect(s: SessionView, msg: ChatMessageView, sender: ClientKey) -> (SessionView, Seq<ActionView>) {
    (
        SessionView { messages: s.messages.push(msg), ..s },
        deliveries(route_recipients(s.active, msg, Some(sender)), chat_json(msg)),
    )
}

/// Pinging: `key` is recorded as seen at `now` and answered with a pong.
pub open spec fn ping_effect(s: SessionView, key: ClientKey, now: u64) -> (SessionView, Seq<ActionView>) {
    (
        SessionView { last_seen: touch(s.last_seen, key, now), ..s },
        deliveries(route_recipients(s.active, pong_view(key), None), chat_json(pong_view(key))),
    )
}

/// The effect of one command arriving at time `now`.
pub open spec fn command_effect(s: SessionView, cmd: SessionCommand, now: u64) -> (SessionView, Seq<ActionView>) {
    match cmd {
        SessionCommand::Join { key } => join_effect(s, key, now),
        SessionCommand::Leave { key } => leave_effect(s, key),
        SessionCommand::SendMessage { msg, sender_key } => send_effect(s, msg@, sender_key),
        SessionCommand::Ping { key } => ping_effect(s, key, now),
    }
}

/// The clients whose last-seen time has expired at `now`, in record order.
pub open spec fn expired_clients(s: SessionView, now: u64) -> Seq<ClientKey> {
    s.last_seen.filter(expired_at(now)).map_values(entry_key())
}

/// Each of `keys` leaves in turn.
pub open spec fn leave_each(s: SessionView, keys: Seq<ClientKey>) -> (SessionView, Seq<ActionView>)
    decreases keys.len(),
{
    if keys.len() == 0 {
        (s, Seq::empty())
    } else {
        let before = leave_each(s, keys.drop_last());
        let last = leave_effect(before.0, keys.last());
        (last.0, before.1 + last.1)
    }
}

/// The periodic check at `now`: every client silent for too long leaves.
pub open spec fn timeout_effect(s: SessionView, now: u64) -> (SessionView, Seq<ActionView>) {
    leave_each(s, expired_clients(s, now))
}


/// Keeping only some entries keeps them about distinct clients.
pub(crate) proof fn lemma_filter_unique_keys(s: Seq<(ClientKey, u64)>, p: spec_fn((ClientKey, u64)) -> bool)
    requires
        unique_keys(s),
    ensures
        unique_keys(s.filter(p)),
    decreases s.len(),
{
    if s.len() > 0 {
        let init = s.drop_last();
        let last = s.last();
        assert(init.push(last) =~= s);
        assert(unique_keys(init));
        lemma_filter_unique_keys(init, p);
        init.lemma_filter_push(last, p);
        if p(last) {
            let f = init.filter(p);
            assert forall|i: int| 0 <= i < f.len() implies f[i].0 != last.0 by {
                init.lemma_filter_contains_rev(p, f[i]);
                let j = choose|j: int| 0 <= j < init.len() && init[j] == f[i];
                assert(s[j] == init[j]);
                assert(s[s.len() - 1] == last);
            }
            let g = f.push(last);
            assert forall|i: int, j: int| 0 <= i < g.len() && 0 <= j < g.len() && i != j
                implies g[i].0 != g[j].0 by {
                if i < f.len() && j < f.len() {
                    assert(g[i] == f[i] && g[j] == f[j]);
                } else if i < f.len() {
                    assert(g[i] == f[i]);
                } else {
                    assert(g[j] == f[j]);
                }
            }
        }
    }
}

/// An entry about `k` survives the removal of the entries about another client.
pub(crate) proof fn lemma_filter_keeps_entry(s: Seq<(ClientKey, u64)>, key: ClientKey, k: ClientKey)
    requires
        has_entry(s, k),
        k != key,
    ensures
        has_entry(s.filter(entry_not_of(key)), k),
{
    let i = choose|i: int| 0 <= i < s.len() && s[i].0 == k;
    lemma_filter_contains_iff(s, entry_not_of(key), s[i]);
    let f = s.filter(entry_not_of(key));
    let j = choose|j: int| 0 <= j < f.len() && f[j] == s[i];
    assert(f[j].0 == k);
}

/// Recording a time keeps entries distinct, gives `key` an entry, and keeps
/// every other client's entry.
pub(crate) proof fn lemma_touch(s: Seq<(ClientKey, u64)>, key: ClientKey, now: u64)
    requires
        unique_keys(s),
    ensures
        unique_keys(touch(s, key, now)),
        has_entry(touch(s, key, now), key),
        forall|k: ClientKey| has_entry(s, k) ==> #[trigger] has_entry(touch(s, key, now), k),
{
    let t = touch(s, key, now);
    if has_entry(s, key) {
        let i = choose|i: int| 0 <= i < s.len() && s[i].0 == key;
        assert(t[i].0 == key);
        assert forall|k: ClientKey| has_entry(s, k) implies #[trigger] has_entry(t, k) by {
            let j = choose|j: int| 0 <= j < s.len() && s[j].0 == k;
            assert(t[j].0 == k);
        }
        assert forall|a: int, b: int| 0 <= a < t.len() && 0 <= b < t.len() && a != b
            implies t[a].0 != t[b].0 by {
            assert(t[a].0 == s[a].0 && t[b].0 == s[b].0);
        }
    } else {
        assert(t[s.len() as int].0 == key);
        assert forall|k: ClientKey| has_entry(s, k) implies #[trigger] has_entry(t, k) by {
            let j = choose|j: int| 0 <= j < s.len() && s[j].0 == k;
            assert(t[j] == s[j]);
        }
        assert forall|a: int, b: int| 0 <= a < t.len() && 0 <= b < t.len() && a != b
            implies t[a].0 != t[b].0 by {
            if a < s.len() && b < s.len() {
                assert(t[a] == s[a] && t[b] == s[b]);
            } else if a < s.len() {
                assert(t[a] == s[a]);
            } else {
                assert(t[b] == s[b]);
            }
        }
    }
}

pub(crate) proof fn lemma_leave_wf(s: SessionView, key: ClientKey)
    requires
        s.wf(),
    ensures
        leave_effect(s, key).0.wf(),
{
    if s.active.contains(key) {
        let active = s.active.filter(other_than(key));
        let last_seen = s.last_seen.filter(entry_not_of(key));
        lemma_filter_no_duplicates(s.active, other_than(key));
        lemma_filter_unique_keys(s.last_seen, entry_not_of(key));
        assert forall|k: ClientKey| #[trigger] active.contains(k)
            implies s.joined_once.contains(k) && has_entry(last_seen, k) by {
            lemma_filter_contains_iff(s.active, other_than(key), k);
            lemma_filter_keeps_entry(s.last_seen, key, k);
        }
    }
}

pub(crate) proof fn lemma_join_wf(s: SessionView, key: ClientKey, now: u64)
    requires
        s.wf(),
    ensures
        join_effect(s, key, now).0.wf(),
{
    let s0 = if s.joined_once.contains(key) { empty_session() } else { s };
    assert(s0.wf());
    assert(!s0.joined_once.contains(key));
    assert(!s0.active.contains(key));
    let j = join_effect(s, key, now).0;
    assert(j.active == s0.active.push(key));
    assert(j.joined_once == s0.joined_once.push(key));
    lemma_touch(s0.last_seen, key, now);
    assert forall|a: int, b: int| 0 <= a < j.active.len() && 0 <= b < j.active.len() && a != b
        implies j.active[a] != j.active[b] by {
        if a < s0.active.len() && b < s0.active.len() {
        } else if a < s0.active.len() {
            assert(s0.active.contains(j.active[a]));
        } else {
            assert(s0.active.contains(j.active[b]));
        }
    }
    assert forall|a: int, b: int| 0 <= a < j.joined_once.len() && 0 <= b < j.joined_once.len() && a != b
        implies j.joined_once[a] != j.joined_once[b] by {
        if a < s0.joined_once.len() && b < s0.joined_once.len() {
        } else if a < s0.joined_once.len() {
            assert(s0.joined_once.contains(j.joined_once[a]));
        } else {
            assert(s0.joined_once.contains(j.joined_once[b]));
        }
    }
    assert forall|k: ClientKey| #[trigger] j.active.contains(k)
        implies j.joined_once.contains(k) && has_entry(j.last_seen, k) by {
        if k == key {
            assert(j.joined_once[s0.joined_once.len() as int] == key);
        } else {
            let i = choose|i: int| 0 <= i < j.active.len() && j.active[i] == k;
            assert(s0.active[i] == k);
            assert(s0.active.contains(k));
            let m = choose|m: int| 0 <= m < s0.joined_once.len() && s0.joined_once[m] == k;
            assert(j.joined_once[m] == k);
        }
    }
}

pub(crate) proof fn lemma_ping_wf(s: SessionView, key: ClientKey, now: u64)
    requires
        s.wf(),
    ensures
        ping_effect(s, key, now).0.wf(),
{
    lemma_touch(s.last_seen, key, now);
}

pub(crate) proof fn lemma_command_wf(s: SessionView, cmd: SessionCommand, now: u64)
    requires
        s.wf(),
    ensures
        command_effect(s, cmd, now).0.wf(),
{
    match cmd {
        SessionCommand::Join { key } => lemma_join_wf(s, key, now),
        SessionCommand::Leave { key } => lemma_leave_wf(s, key),
        SessionCommand::SendMessage { msg, sender_key } => {},
        SessionCommand::Ping { key } => lemma_ping_wf(s, key, now),
    }
}

pub(crate) proof fn lemma_leave_each_wf(s: SessionView, keys: Seq<ClientKey>)
    requires
        s.wf(),
    ensures
        leave_each(s, keys).0.wf(),
    decreases keys.len(),
{
    if keys.len() > 0 {
        lemma_leave_each_wf(s, keys.drop_last());
        lemma_leave_wf(leave_each(s, keys.drop_last()).0, keys.last());
    }
}


/// The connected clients of a session, as a set.
pub open spec fn active_set(s: SessionView) -> Set<ClientKey> {
    Set::new(|k: ClientKey| s.active.contains(k))
}

/// Carries out `acts` on a set of open connections: `Open` adds a connection,
/// `Close` removes one, `Deliver` uses one.  `None` where an action opens a
/// connection that is already open, or closes or uses one that is not.
pub open spec fn track_open(open: Set<ClientKey>, acts: Seq<ActionView>) -> Option<Set<ClientKey>>
    decreases acts.len(),
{
    if acts.len() == 0 {
        Some(open)
    } else {
        match track_open(open, acts.drop_last()) {
            None => None,
            Some(cur) => match acts.last() {
                ActionView::Open { key } => if cur.contains(key) { None } else { Some(cur.insert(key)) },
                ActionView::Close { key } => if cur.contains(key) { Some(cur.remove(key)) } else { None },
                ActionView::Deliver { to, payload } => if cur.contains(to) { Some(cur) } else { None },
            },
        }
    }
}

/// The relay's record of one chat session.
pub struct SessionState {
    active: Vec<ClientKey>,
    joined_once: Vec<ClientKey>,
    last_seen: Vec<(ClientKey, u64)>,
    messages: Vec<ChatMessage>,
}

pub open spec fn message_view() -> spec_fn(ChatMessage) -> ChatMessageView {
    |m: ChatMessage| m@
}

impl View for SessionState {
    type V = SessionView;

    closed spec fn view(&self) -> SessionView {
        SessionView {
            active: self.active@,
            joined_once: self.joined_once@,
            last_seen: self.last_seen@,
            messages: self.messages@.map_values(message_view()),
        }
    }
}

fn contains_client(v: &Vec<ClientKey>, key: ClientKey) -> (r: bool)
    ensures
        r == v@.contains(key),
{
    let mut i: usize = 0;
    while i < v.len()
        invariant
            i <= v.len(),
            forall|j: int| 0 <= j < i ==> v@[j] != key,
        decreases v.len() - i,
    {
        if v[i] == key {
            return true;
        }
        i = i + 1;
    }
    false
}

fn without_client(v: &Vec<ClientKey>, key: ClientKey) -> (r: Vec<ClientKey>)
    ensures
        r@ == v@.filter(other_than(key)),
{
    let mut out: Vec<ClientKey> = Vec::new();
    let mut i: usize = 0;
    while i < v.len()
        invariant
            i <= v.len(),
            out@ == v@.take(i as int).filter(other_than(key)),
        decreases v.len() - i,
    {
        proof {
            lemma_take_succ(v@, i as int);
            v@.take(i as int).lemma_filter_push(v@[i as int], other_than(key));
        }
        if v[i] != key {
            out.push(v[i]);
        }
        i = i + 1;
    }
    assert(v@.take(v.len() as int) =~= v@);
    out
}

fn entries_without(v: &Vec<(ClientKey, u64)>, key: ClientKey) -> (r: Vec<(ClientKey, u64)>)
    ensures
        r@ == v@.filter(entry_not_of(key)),
{
    let mut out: Vec<(ClientKey, u64)> = Vec::new();
    let mut i: usize = 0;
    while i < v.len()
        invariant
            i <= v.len(),
            out@ == v@.take(i as int).filter(entry_not_of(key)),
        decreases v.len() - i,
    {
        proof {
            lemma_take_succ(v@, i as int);
            v@.take(i as int).lemma_filter_push(v@[i as int], entry_not_of(key));
        }
        let e = v[i];
        if e.0 != key {
            out.push(e);
        }
        i = i + 1;
    }
    assert(v@.take(v.len() as int) =~= v@);
    out
}

fn touched(v: &Vec<(ClientKey, u64)>, key: ClientKey, now: u64) -> (r: Vec<(ClientKey, u64)>)
    ensures
        r@ == touch(v@, key, now),
{
    let mut out: Vec<(ClientKey, u64)> = Vec::new();
    let mut found = false;
    let mut i: usize = 0;
    while i < v.len()
        invariant
            i <= v.len(),
            out@ == v@.take(i as int).map_values(restamp(key, now)),
            found == has_entry(v@.take(i as int), key),
        decreases v.len() - i,
    {
        proof {
            lemma_take_succ(v@, i as int);
            lemma_map_push(v@.take(i as int), v@[i as int], restamp(key, now));
        }
        let e = v[i];
        if e.0 == key {
            out.push((key, now));
            found = true;
            assert(v@.take(i + 1)[i as int].0 == key);
        } else {
            out.push(e);
            assert(has_entry(v@.take(i + 1), key) ==> has_entry(v@.take(i as int), key)) by {
                let t = v@.take(i + 1);
                if has_entry(t, key) {
                    let j = choose|j: int| 0 <= j < t.len() && t[j].0 == key;
                    assert(j < i);
                    assert(v@.take(i as int)[j].0 == key);
                }
            }
            assert(has_entry(v@.take(i as int), key) ==> has_entry(v@.take(i + 1), key)) by {
                let t = v@.take(i as int);
                if has_entry(t, key) {
                    let j = choose|j: int| 0 <= j < t.len() && t[j].0 == key;
                    assert(v@.take(i + 1)[j].0 == key);
                }
            }
        }
        i = i + 1;
    }
    assert(v@.take(v.len() as int) =~= v@);
    if !found {
        assert forall|j: int| 0 <= j < v@.len() implies v@[j].0 != key by {
            if v@[j].0 == key {
                assert(has_entry(v@, key));
            }
        }
        assert(out@ =~= v@);
        out.push((key, now));
    }
    out
}

fn expired_keys(v: &Vec<(ClientKey, u64)>, now: u64) -> (r: Vec<ClientKey>)
    ensures
        r@ == v@.filter(expired_at(now)).map_values(entry_key()),
{
    let mut out: Vec<ClientKey> = Vec::new();
    let mut i: usize = 0;
    while i < v.len()
        invariant
            i <= v.len(),
            out@ == v@.take(i as int).filter(expired_at(now)).map_values(entry_key()),
        decreases v.len() - i,
    {
        proof {
            lemma_take_succ(v@, i as int);
            v@.take(i as int).lemma_filter_push(v@[i as int], expired_at(now));
            lemma_map_push(v@.take(i as int).filter(expired_at(now)), v@[i as int], entry_key());
        }
        let e = v[i];
        if now > e.1 && now - e.1 > TIMEOUT_NS {
            out.push(e.0);
        }
        i = i + 1;
    }
    assert(v@.take(v.len() as int) =~= v@);
    out
}

/// Appends a delivery of `msg` to each of `to`.
fn deliver_each(to: &Vec<ClientKey>, msg: &ChatMessage, acts: &mut Vec<SessionAction>)
    ensures
        actions_view(final(acts)@) == actions_view(old(acts)@) + deliveries(to@, chat_json(msg@)),
{
    let ghost start = actions_view(acts@);
    let mut i: usize = 0;
    while i < to.len()
        invariant
            i <= to.len(),
            actions_view(acts@) == start + deliveries(to@.take(i as int), chat_json(msg@)),
        decreases to.len() - i,
    {
        let ghost before = acts@;
        let payload = msg.to_json();
        acts.push(SessionAction::Deliver { to: to[i], payload: payload });
        proof {
            lemma_take_succ(to@, i as int);
            lemma_map_push(to@.take(i as int), to@[i as int], deliver_action(chat_json(msg@)));
            lemma_map_push(before, acts@.last(), action_view());
            assert(acts@ == before.push(acts@.last()));
        }
        i = i + 1;
    }
    assert(to@.take(to.len() as int) =~= to@);
}

impl SessionState {
    /// Every session record is well formed.
    #[verifier::type_invariant]
    spec fn well_formed(self) -> bool {
        self@.wf()
    }

    /// An empty session.
    pub fn new() -> (s: SessionState)
        ensures
            s@ == empty_session(),
            s@.wf(),
    {
        let s = SessionState {
            active: Vec::new(),
            joined_once: Vec::new(),
            last_seen: Vec::new(),
            messages: Vec::new(),
        };
        assert(s@.messages =~= Seq::<ChatMessageView>::empty());
        s
    }

    /// The connected clients, in the order they joined; the record it comes
    /// from is well formed.
    pub fn active_clients(&self) -> (r: &Vec<ClientKey>)
        ensures
            r@ == self@.active,
            self@.wf(),
    {
        proof {
            use_type_invariant(self);
        }
        &self.active
    }

    /// Forgets everything and closes every connection.
    pub fn reset_session(&mut self) -> (acts: Vec<SessionAction>)
        ensures
            final(self)@ == reset_effect(old(self)@).0,
            actions_view(acts@) == reset_effect(old(self)@).1,
            final(self)@.wf(),
    {
        proof {
            use_type_invariant(&*self);
        }
        let mut acts: Vec<SessionAction> = Vec::new();
        let mut i: usize = 0;
        while i < self.active.len()
            invariant
                i <= self.active.len(),
                actions_view(acts@) == self.active@.take(i as int).map_values(close_action()),
            decreases self.active.len() - i,
        {
            let ghost before = acts@;
            acts.push(SessionAction::Close { key: self.active[i] });
            proof {
                lemma_take_succ(self.active@, i as int);
                lemma_map_push(self.active@.take(i as int), self.active@[i as int], close_action());
                lemma_map_push(before, acts@.last(), action_view());
                assert(acts@ == before.push(acts@.last()));
            }
            i = i + 1;
        }
        assert(self.active@.take(self.active.len() as int) =~= self.active@);
        self.messages = Vec::new();
        self.active = Vec::new();
        self.joined_once = Vec::new();
        self.last_seen = Vec::new();
        assert(self@.messages =~= Seq::<ChatMessageView>::empty());
        acts
    }

    /// The client `key` leaves; the session is reset when it was the last one.
    pub fn leave_session(&mut self, client_key: &ClientKey) -> (acts: Vec<SessionAction>)
        ensures
            final(self)@ == leave_effect(old(self)@, *client_key).0,
            actions_view(acts@) == leave_effect(old(self)@, *client_key).1,
            final(self)@.wf(),
    {
        proof {
            use_type_invariant(&*self);
            lemma_leave_wf(self@, *client_key);
        }
        let key = *client_key;
        if contains_client(&self.active, key) {
            let ghost s = self@;
            let active = without_client(&self.active, key);
            proof {
                lemma_filter_no_duplicates(s.active, other_than(key));
                assert forall|k: ClientKey| #[trigger] active@.contains(k) implies s.active.contains(k) && k != key by {
                    lemma_filter_contains_iff(s.active, other_than(key), k);
                }
            }
            self.active = active;
            let last_seen = entries_without(&self.last_seen, key);
            proof {
                lemma_filter_unique_keys(s.last_seen, entry_not_of(key));
                assert forall|k: ClientKey| #[trigger] active@.contains(k) implies has_entry(last_seen@, k) by {
                    lemma_filter_keeps_entry(s.last_seen, key, k);
                }
            }
            self.last_seen = last_seen;
            let mut acts: Vec<SessionAction> = Vec::new();
            acts.push(SessionAction::Close { key: key });
            if self.active.len() == 0 {
                // Nobody is left to close: resetting only clears the record.
                let none = self.reset_session();
                assert(actions_view(none@) =~= Seq::<ActionView>::empty());
            }
            assert(actions_view(acts@) =~= seq![ActionView::Close { key: key }]);
            assert(seq![ActionView::Close { key: key }] + Seq::<ActionView>::empty()
                =~= seq![ActionView::Close { key: key }]);
            acts
        } else {
            Vec::new()
        }
    }

    /// Appends `more` to `acts`, as values too.
    fn append_actions(acts: &mut Vec<SessionAction>, more: Vec<SessionAction>)
        ensures
            actions_view(final(acts)@) == actions_view(old(acts)@) + actions_view(more@),
    {
        let ghost first = acts@;
        let mut more = more;
        let ghost second = more@;
        acts.append(&mut more);
        proof {
            lemma_map_add(first, second, action_view());
        }
    }

    fn join(&mut self, key: ClientKey, now: u64) -> (acts: Vec<SessionAction>)
        requires
            old(self)@.wf(),
        ensures
            final(self)@ == join_effect(old(self)@, key, now).0,
            actions_view(acts@) == join_effect(old(self)@, key, now).1,
    {
        let ghost s = self@;
        let mut acts: Vec<SessionAction> = Vec::new();
        if contains_client(&self.joined_once, key) {
            let notice = ChatMessage::err(String::from_str("session terminated due to duplicate join"));
            deliver_each(&self.active, &notice, &mut acts);
            let closes = self.reset_session();
            Self::append_actions(&mut acts, closes);
        }
        let ghost s0 = self@;
        let ghost restart = actions_view(acts@);
        let ghost msgs = self@.messages;
        let ghost before_open = acts@;
        acts.push(SessionAction::Open { key: key });
        proof {
            lemma_map_push(before_open, acts@.last(), action_view());
            assert(acts@ == before_open.push(acts@.last()));
        }
        let ghost opened = actions_view(acts@);
        let mut i: usize = 0;
        while i < self.messages.len()
            invariant
                i <= self.messages.len(),
                self@ == s0,
                msgs == s0.messages,
                msgs == self.messages@.map_values(message_view()),
                actions_view(acts@) == opened + msgs.take(i as int).filter(applies_to(key)).map_values(
                    replay_action(key),
                ),
            decreases self.messages.len() - i,
        {
            proof {
                lemma_take_succ(msgs, i as int);
                msgs.take(i as int).lemma_filter_push(msgs[i as int], applies_to(key));
                lemma_map_push(msgs.take(i as int).filter(applies_to(key)), msgs[i as int], replay_action(key));
                assert(msgs[i as int] == self.messages@[i as int]@);
            }
            if applies_route(&self.messages[i], key) {
                let ghost before = acts@;
                let payload = self.messages[i].to_json();
                acts.push(SessionAction::Deliver { to: key, payload: payload });
                proof {
                    lemma_map_push(before, acts@.last(), action_view());
                    assert(acts@ == before.push(acts@.last()));
                }
            }
            i = i + 1;
        }
        assert(msgs.take(self.messages.len() as int) =~= msgs);
        proof {
            lemma_join_wf(s, key, now);
            lemma_touch(s0.last_seen, key, now);
        }
        // Take the lists out (an empty session part is well formed), extend
        // them, and put them back with the connected list last.
        let mut active: Vec<ClientKey> = Vec::new();
        std::mem::swap(&mut active, &mut self.active);
        let mut joined_once: Vec<ClientKey> = Vec::new();
        std::mem::swap(&mut joined_once, &mut self.joined_once);
        active.push(key);
        joined_once.push(key);
        let last_seen = touched(&self.last_seen, key, now);
        self.last_seen = last_seen;
        self.joined_once = joined_once;
        assert(active@ == join_effect(s, key, now).0.active);
        self.active = active;
        proof {
            let r = join_effect(s, key, now);
            assert(self@.active == r.0.active);
            assert(self@.joined_once == r.0.joined_once);
            assert(self@.last_seen == r.0.last_seen);
            assert(self@.messages == r.0.messages);
            assert(actions_view(acts@) =~= r.1);
        }
        acts
    }

    fn send(&mut self, msg: ChatMessage, sender_key: ClientKey) -> (acts: Vec<SessionAction>)
        ensures
            final(self)@ == send_effect(old(self)@, msg@, sender_key).0,
            actions_view(acts@) == send_effect(old(self)@, msg@, sender_key).1,
    {
        let mut acts: Vec<SessionAction> = Vec::new();
        let recipients = route_message(&msg, self, Some(sender_key));
        deliver_each(&recipients, &msg, &mut acts);
        proof {
            use_type_invariant(&*self);
        }
        let ghost old_messages = self.messages@;
        let mut messages: Vec<ChatMessage> = Vec::new();
        std::mem::swap(&mut messages, &mut self.messages);
        messages.push(msg);
        self.messages = messages;
        proof {
            lemma_map_push(old_messages, self.messages@.last(), message_view());
            assert(self.messages@ == old_messages.push(self.messages@.last()));
            assert(actions_view(acts@) =~= send_effect(old(self)@, msg@, sender_key).1);
        }
        acts
    }

    fn ping(&mut self, key: ClientKey, now: u64) -> (acts: Vec<SessionAction>)
        ensures
            final(self)@ == ping_effect(old(self)@, key, now).0,
            actions_view(acts@) == ping_effect(old(self)@, key, now).1,
    {
        proof {
            use_type_invariant(&*self);
            lemma_touch(self@.last_seen, key, now);
        }
        self.last_seen = touched(&self.last_seen, key, now);
        let pong = ChatMessage {
            send_id: 0,
            recv_id: key.user_id,
            cluster_id: key.cluster_id,
            msg_type: MessageType::Pong,
            sender: String::from_str("pqgch-router"),
            content: String::new(),
        };
        assert(pong@ == pong_view(key));
        let mut acts: Vec<SessionAction> = Vec::new();
        let recipients = route_message(&pong, self, None);
        deliver_each(&recipients, &pong, &mut acts);
        assert(actions_view(acts@) =~= ping_effect(old(self)@, key, now).1);
        acts
    }

    /// Acts on one command that arrived at `now` (nanoseconds on a monotonic
    /// clock): the new state and the actions, in order, are those of
    /// [`command_effect`].
    pub fn handle_command(&mut self, cmd: SessionCommand, now: u64) -> (acts: Vec<SessionAction>)
        ensures
            final(self)@ == command_effect(old(self)@, cmd, now).0,
            actions_view(acts@) == command_effect(old(self)@, cmd, now).1,
            final(self)@.wf(),
    {
        proof {
            use_type_invariant(&*self);
            lemma_command_wf(self@, cmd, now);
        }
        match cmd {
            SessionCommand::Join { key } => self.join(key, now),
            SessionCommand::Leave { key } => self.leave_session(&key),
            SessionCommand::SendMessage { msg, sender_key } => self.send(msg, sender_key),
            SessionCommand::Ping { key } => self.ping(key, now),
        }
    }

    /// The periodic check at `now`: every client whose last-seen time is more
    /// than [`TIMEOUT_NS`] old leaves, in record order.
    pub fn check_timeouts(&mut self, now: u64) -> (acts: Vec<SessionAction>)
        ensures
            final(self)@ == timeout_effect(old(self)@, now).0,
            actions_view(acts@) == timeout_effect(old(self)@, now).1,
            final(self)@.wf(),
    {
        proof {
            use_type_invariant(&*self);
        }
        let ghost s0 = self@;
        let keys = expired_keys(&self.last_seen, now);
        proof {
            lemma_leave_each_wf(s0, keys@);
        }
        let mut acts: Vec<SessionAction> = Vec::new();
        let mut i: usize = 0;
        while i < keys.len()
            invariant
                i <= keys.len(),
                keys@ == expired_clients(s0, now),
                self@ == leave_each(s0, keys@.take(i as int)).0,
                actions_view(acts@) == leave_each(s0, keys@.take(i as int)).1,
            decreases keys.len() - i,
        {
            proof {
                assert(keys@.take(i + 1).drop_last() =~= keys@.take(i as int));
                assert(keys@.take(i + 1).last() == keys@[i as int]);
            }
            let more = self.leave_session(&keys[i]);
            Self::append_actions(&mut acts, more);
            i = i + 1;
        }
        assert(keys@.take(keys.len() as int) =~= keys@);
        acts
    }
}

} // verus!
