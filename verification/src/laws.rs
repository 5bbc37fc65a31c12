use vstd::prelude::*;

use crate::json::{chat_json, json_quoted, lemma_frame_one_line, lemma_quoted_no_newline};
use crate::message::{ChatMessageView, MessageType, route_of_type, type_code, type_of_code};
use crate::routing::{ClientKey, RouteType, route_applies};
use crate::connection::{ConnectionEvent, ConnectionOutputView, ConnectionPhase, auth_key, connection_effect};
use crate::message::{ChatMessage, error_view};
use crate::seq_facts::{lemma_filter_contains_iff, lemma_filter_no_duplicates};
use crate::session::{
    ActionView, SessionCommand, active_set, deliveries, duplicate_join_text, track_open, SessionView, close_action, command_effect, delivers_to, empty_session,
    entry_not_of, expired, expired_at, expired_clients, has_entry, join_effect,
    leave_each, leave_effect, lemma_command_wf, lemma_leave_each_wf, other_than, ping_effect,
    pong_view, replay_action, applies_to, route_recipients, send_effect, timeout_effect,
};

verus! {

/// Every message kind survives the trip through its wire code.
pub proof fn law_code_round_trip(t: MessageType)
    ensures
        type_of_code(type_code(t)) == Some(t),
{
}

/// Exactly the codes 0 to 14 denote a message kind, and each denotes the
/// kind whose code it is.
pub proof fn law_codes_decode(v: u8)
    ensures
        type_of_code(v) is Some <==> v < 15,
        type_of_code(v) matches Some(t) ==> type_code(t) == v,
{
}

/// Authentication, pings and error reports are never routed to anyone;
/// every other kind has a route.
pub proof fn law_unrouted_kinds(t: MessageType)
    ensures
        route_of_type(t) == RouteType::NoRoute <==> (t == MessageType::MemberAuth
            || t == MessageType::LeaderAuth || t == MessageType::Ping || t == MessageType::Error),
{
}

/// A message whose kind has no route reaches no client.
pub proof fn law_unrouted_reaches_nobody(active: Seq<ClientKey>, msg: ChatMessageView, sender: Option<ClientKey>)
    requires
        route_of_type(msg.msg_type) == RouteType::NoRoute,
    ensures
        route_recipients(active, msg, sender).len() == 0,
{
    let r = route_recipients(active, msg, sender);
    if r.len() > 0 {
        active.lemma_filter_pred(delivers_to(msg, sender), 0);
    }
}

/// A client never receives its own message back, except a pong.
pub proof fn law_no_echo(active: Seq<ClientKey>, msg: ChatMessageView, sender: ClientKey)
    requires
        msg.msg_type != MessageType::Pong,
    ensures
        !route_recipients(active, msg, Some(sender)).contains(sender),
{
    lemma_filter_contains_iff(active, delivers_to(msg, Some(sender)), sender);
}

/// A text message reaches every connected client but its sender.
pub proof fn law_text_reaches_all_others(active: Seq<ClientKey>, msg: ChatMessageView, sender: ClientKey, c: ClientKey)
    requires
        msg.msg_type == MessageType::Text,
    ensures
        route_recipients(active, msg, Some(sender)).contains(c) <==> (active.contains(c) && c != sender),
{
    lemma_filter_contains_iff(active, delivers_to(msg, Some(sender)), c);
}

/// In a well-formed session no client receives the same message twice.
pub proof fn law_each_recipient_once(s: SessionView, msg: ChatMessageView, sender: Option<ClientKey>)
    requires
        s.wf(),
    ensures
        route_recipients(s.active, msg, sender).no_duplicates(),
{
    lemma_filter_no_duplicates(s.active, delivers_to(msg, sender));
}

/// A connected client that pings gets the pong.
pub proof fn law_ping_is_answered(s: SessionView, key: ClientKey, now: u64)
    requires
        s.active.contains(key),
    ensures
        ping_effect(s, key, now).1.contains(
            ActionView::Deliver { to: key, payload: chat_json(pong_view(key)) },
        ),
        ping_effect(s, key, now).0.last_seen.contains((key, now)),
{
    let r = route_recipients(s.active, pong_view(key), None);
    lemma_filter_contains_iff(s.active, delivers_to(pong_view(key), None), key);
    let i = choose|i: int| 0 <= i < r.len() && r[i] == key;
    let acts = ping_effect(s, key, now).1;
    assert(acts[i] == ActionView::Deliver { to: key, payload: chat_json(pong_view(key)) });
    let t = ping_effect(s, key, now).0.last_seen;
    if has_entry(s.last_seen, key) {
        let j = choose|j: int| 0 <= j < s.last_seen.len() && s.last_seen[j].0 == key;
        assert(t[j] == (key, now));
    } else {
        assert(t[s.last_seen.len() as int] == (key, now));
    }
}

/// Every command keeps a session well formed.
pub proof fn law_commands_keep_invariant(s: SessionView, cmd: SessionCommand, now: u64)
    requires
        s.wf(),
    ensures
        command_effect(s, cmd, now).0.wf(),
{
    lemma_command_wf(s, cmd, now);
}

/// The periodic timeout check keeps a session well formed.
pub proof fn law_timeouts_keep_invariant(s: SessionView, now: u64)
    requires
        s.wf(),
    ensures
        timeout_effect(s, now).0.wf(),
{
    lemma_leave_each_wf(s, expired_clients(s, now));
}

/// The empty session is well formed.
pub proof fn law_empty_session_is_well_formed()
    ensures
        empty_session().wf(),
{
}

/// A sent message is stored after the others, and nothing else changes.
pub proof fn law_sent_message_is_stored(s: SessionView, msg: ChatMessageView, sender: ClientKey)
    ensures
        send_effect(s, msg, sender).0.messages == s.messages.push(msg),
        send_effect(s, msg, sender).0.active == s.active,
        send_effect(s, msg, sender).0.joined_once == s.joined_once,
        send_effect(s, msg, sender).0.last_seen == s.last_seen,
{
}

/// A client that is not connected can leave without effect.
pub proof fn law_leave_of_stranger_is_noop(s: SessionView, key: ClientKey)
    requires
        !s.active.contains(key),
    ensures
        leave_effect(s, key).0 == s,
        leave_effect(s, key).1.len() == 0,
{
}

/// When the last connected client leaves, the session is forgotten entirely,
/// and only that client's connection is closed.
pub proof fn law_last_leave_empties_session(s: SessionView, key: ClientKey)
    requires
        s.active == seq![key],
    ensures
        leave_effect(s, key).0 == empty_session(),
        leave_effect(s, key).1 == seq![ActionView::Close { key: key }],
{
    assert(s.active[0] == key);
    let left = s.active.filter(other_than(key));
    if left.len() > 0 {
        s.active.lemma_filter_pred(other_than(key), 0);
        lemma_filter_contains_iff(s.active, other_than(key), left[0]);
        assert(left.contains(left[0]));
    }
    assert(left.map_values(close_action()) =~= Seq::<ActionView>::empty());
    assert(seq![ActionView::Close { key: key }] + Seq::<ActionView>::empty() =~= seq![ActionView::Close { key: key }]);
}

/// A connected client that leaves is no longer connected nor timed, and
/// its connection is closed.
pub proof fn law_leave_disconnects(s: SessionView, key: ClientKey)
    requires
        s.wf(),
        s.active.contains(key),
    ensures
        !leave_effect(s, key).0.active.contains(key),
        !has_entry(leave_effect(s, key).0.last_seen, key),
        leave_effect(s, key).1[0] == (ActionView::Close { key: key }),
{
    lemma_filter_contains_iff(s.active, other_than(key), key);
    let l = s.last_seen.filter(entry_not_of(key));
    if has_entry(l, key) {
        let i = choose|i: int| 0 <= i < l.len() && l[i].0 == key;
        s.last_seen.lemma_filter_pred(entry_not_of(key), i);
    }
}

/// A client that joins is connected, has joined and was seen at the time of
/// joining; its connection is opened.
pub proof fn law_join_connects(s: SessionView, key: ClientKey, now: u64)
    requires
        s.wf(),
    ensures
        join_effect(s, key, now).0.active.contains(key),
        join_effect(s, key, now).0.joined_once.contains(key),
        join_effect(s, key, now).0.last_seen.contains((key, now)),
        join_effect(s, key, now).1.contains(ActionView::Open { key: key }),
{
    let j = join_effect(s, key, now);
    let s0 = if s.joined_once.contains(key) { empty_session() } else { s };
    assert(j.0.active[s0.active.len() as int] == key);
    assert(j.0.joined_once[s0.joined_once.len() as int] == key);
    let t = j.0.last_seen;
    if has_entry(s0.last_seen, key) {
        let i = choose|i: int| 0 <= i < s0.last_seen.len() && s0.last_seen[i].0 == key;
        assert(t[i] == (key, now));
    } else {
        assert(t[s0.last_seen.len() as int] == (key, now));
    }
    let restart_len: int = if s.joined_once.contains(key) {
        (s.active.len() + s.active.len()) as int
    } else {
        0
    };
    assert(j.1[restart_len] == ActionView::Open { key: key });
}

/// A first join is replayed, in order, exactly the stored messages that are
/// routed to the joining client, and the history is kept.
pub proof fn law_first_join_replays_history(s: SessionView, key: ClientKey, now: u64)
    requires
        !s.joined_once.contains(key),
    ensures
        join_effect(s, key, now).1 == seq![ActionView::Open { key: key }]
            + s.messages.filter(applies_to(key)).map_values(replay_action(key)),
        join_effect(s, key, now).0.messages == s.messages,
{
    assert(Seq::<ActionView>::empty() + seq![ActionView::Open { key: key }]
        =~= seq![ActionView::Open { key: key }]);
}

/// A second join of the same client restarts the session: the connected
/// clients are told and closed, and afterwards only the joining client is
/// known, with no history.
pub proof fn law_duplicate_join_restarts(s: SessionView, key: ClientKey, now: u64)
    requires
        s.joined_once.contains(key),
    ensures
        join_effect(s, key, now).0 == (SessionView {
            active: seq![key],
            joined_once: seq![key],
            last_seen: seq![(key, now)],
            messages: Seq::empty(),
        }),
        join_effect(s, key, now).1.len() == 2 * s.active.len() + 1,
        forall|i: int| 0 <= i < s.active.len() ==> #[trigger] join_effect(s, key, now).1[s.active.len() + i]
            == (ActionView::Close { key: s.active[i] }),
        join_effect(s, key, now).1.last() == (ActionView::Open { key: key }),
{
    let j = join_effect(s, key, now);
    assert(j.0.active =~= seq![key]);
    assert(j.0.joined_once =~= seq![key]);
    assert(j.0.last_seen =~= seq![(key, now)]);
    assert(Seq::<ChatMessageView>::empty().filter(applies_to(key)) =~= Seq::<ChatMessageView>::empty()) by {
        Seq::<ChatMessageView>::empty().lemma_filter_len(applies_to(key));
    }
}

proof fn lemma_leave_shrinks(s: SessionView, key: ClientKey)
    ensures
        forall|k: ClientKey| #[trigger] leave_effect(s, key).0.active.contains(k) ==> s.active.contains(k),
        forall|e: (ClientKey, u64)| #[trigger] leave_effect(s, key).0.last_seen.contains(e) ==> s.last_seen.contains(e),
        !leave_effect(s, key).0.active.contains(key),
{
    if s.active.contains(key) {
        assert forall|k: ClientKey| #[trigger] leave_effect(s, key).0.active.contains(k) implies s.active.contains(k) by {
            lemma_filter_contains_iff(s.active, other_than(key), k);
        }
        assert forall|e: (ClientKey, u64)| #[trigger] leave_effect(s, key).0.last_seen.contains(e) implies s.last_seen.contains(e) by {
            lemma_filter_contains_iff(s.last_seen, entry_not_of(key), e);
        }
        lemma_filter_contains_iff(s.active, other_than(key), key);
    }
}

proof fn lemma_leave_each_shrinks(s: SessionView, keys: Seq<ClientKey>)
    ensures
        forall|k: ClientKey| #[trigger] leave_each(s, keys).0.active.contains(k) ==> s.active.contains(k),
        forall|e: (ClientKey, u64)| #[trigger] leave_each(s, keys).0.last_seen.contains(e) ==> s.last_seen.contains(e),
        forall|k: ClientKey| keys.contains(k) ==> !(#[trigger] leave_each(s, keys).0.active.contains(k)),
    decreases keys.len(),
{
    if keys.len() > 0 {
        let init = keys.drop_last();
        lemma_leave_each_shrinks(s, init);
        let mid = leave_each(s, init).0;
        lemma_leave_shrinks(mid, keys.last());
        assert forall|k: ClientKey| keys.contains(k) implies !(#[trigger] leave_each(s, keys).0.active.contains(k)) by {
            if k != keys.last() {
                let i = choose|i: int| 0 <= i < keys.len() && keys[i] == k;
                assert(init[i] == k);
            }
        }
    }
}

/// After the timeout check at `now`, no connected client has been silent
/// for longer than the timeout.
pub proof fn law_no_expired_client_after_check(s: SessionView, now: u64)
    ensures
        forall|i: int| 0 <= i < timeout_effect(s, now).0.last_seen.len()
            && timeout_effect(s, now).0.active.contains(#[trigger] timeout_effect(s, now).0.last_seen[i].0)
            ==> !expired(now, timeout_effect(s, now).0.last_seen[i].1),
{
    let keys = expired_clients(s, now);
    let r = timeout_effect(s, now).0;
    lemma_leave_each_shrinks(s, keys);
    assert forall|i: int| 0 <= i < r.last_seen.len() && r.active.contains(#[trigger] r.last_seen[i].0)
        implies !expired(now, r.last_seen[i].1) by {
        let e = r.last_seen[i];
        assert(r.last_seen.contains(e));
        if expired(now, e.1) {
            assert(s.last_seen.contains(e));
            lemma_filter_contains_iff(s.last_seen, expired_at(now), e);
            let f = s.last_seen.filter(expired_at(now));
            let j = choose|j: int| 0 <= j < f.len() && f[j] == e;
            assert(keys[j] == e.0);
            assert(keys.contains(e.0));
        }
    }
}

/// What a client receives for a message is exactly one line: a JSON object
/// that holds no line break, then a newline.
pub proof fn law_json_is_one_line(m: ChatMessageView)
    ensures
        chat_json(m)[0] == '{',
        chat_json(m).last() == '\n',
        !chat_json(m).drop_last().contains('\n'),
{
    lemma_quoted_no_newline(m.sender);
    lemma_quoted_no_newline(m.content);
    lemma_frame_one_line(m, json_quoted(m.sender), json_quoted(m.content));
}

proof fn lemma_track_add(open: Set<ClientKey>, a: Seq<ActionView>, b: Seq<ActionView>)
    ensures
        track_open(open, a + b) == match track_open(open, a) {
            None => None,
            Some(cur) => track_open(cur, b),
        },
    decreases b.len(),
{
    if b.len() == 0 {
        assert(a + b =~= a);
    } else {
        lemma_track_add(open, a, b.drop_last());
        assert((a + b).drop_last() =~= a + b.drop_last());
        assert((a + b).last() == b.last());
    }
}

proof fn lemma_track_uses(open: Set<ClientKey>, acts: Seq<ActionView>)
    requires
        forall|i: int| 0 <= i < acts.len() ==> (#[trigger] acts[i] matches ActionView::Deliver { to, .. } && open.contains(to)),
    ensures
        track_open(open, acts) == Some(open),
    decreases acts.len(),
{
    if acts.len() > 0 {
        let init = acts.drop_last();
        assert forall|i: int| 0 <= i < init.len() implies (#[trigger] init[i] matches ActionView::Deliver { to, .. } && open.contains(to)) by {
            assert(init[i] == acts[i]);
        }
        lemma_track_uses(open, init);
        assert(acts[acts.len() - 1] matches ActionView::Deliver { to, .. } && open.contains(to));
    }
}

proof fn lemma_track_deliveries(open: Set<ClientKey>, to: Seq<ClientKey>, payload: Seq<char>)
    requires
        forall|k: ClientKey| to.contains(k) ==> open.contains(k),
    ensures
        track_open(open, deliveries(to, payload)) == Some(open),
{
    let d = deliveries(to, payload);
    assert forall|i: int| 0 <= i < d.len() implies (#[trigger] d[i] matches ActionView::Deliver { to: t, .. } && open.contains(t)) by {
        assert(to.contains(to[i]));
    }
    lemma_track_uses(open, d);
}

proof fn lemma_track_closes(open: Set<ClientKey>, keys: Seq<ClientKey>)
    requires
        keys.no_duplicates(),
        forall|k: ClientKey| keys.contains(k) ==> open.contains(k),
    ensures
        track_open(open, keys.map_values(close_action())) == Some(
            Set::new(|k: ClientKey| open.contains(k) && !keys.contains(k)),
        ),
    decreases keys.len(),
{
    let acts = keys.map_values(close_action());
    if keys.len() == 0 {
        assert(Set::new(|k: ClientKey| open.contains(k) && !keys.contains(k)) =~= open);
    } else {
        let init = keys.drop_last();
        let last = keys.last();
        assert(init.no_duplicates());
        assert forall|k: ClientKey| init.contains(k) implies open.contains(k) by {
            let i = choose|i: int| 0 <= i < init.len() && init[i] == k;
            assert(keys[i] == k);
        }
        lemma_track_closes(open, init);
        assert(acts.drop_last() =~= init.map_values(close_action()));
        let cur = Set::new(|k: ClientKey| open.contains(k) && !init.contains(k));
        assert(keys.contains(last)) by {
            assert(keys[keys.len() - 1] == last);
        }
        assert(!init.contains(last)) by {
            if init.contains(last) {
                let i = choose|i: int| 0 <= i < init.len() && init[i] == last;
                assert(keys[i] == keys[keys.len() - 1]);
            }
        }
        assert(cur.contains(last));
        assert forall|k: ClientKey| keys.contains(k) <==> (init.contains(k) || k == last) by {
            if keys.contains(k) {
                let i = choose|i: int| 0 <= i < keys.len() && keys[i] == k;
                if i < keys.len() - 1 {
                    assert(init[i] == k);
                }
            }
            if init.contains(k) {
                let i = choose|i: int| 0 <= i < init.len() && init[i] == k;
                assert(keys[i] == k);
            }
        }
        assert(cur.remove(last) =~= Set::new(|k: ClientKey| open.contains(k) && !keys.contains(k)));
    }
}

proof fn lemma_track_leave(s: SessionView, key: ClientKey)
    ensures
        track_open(active_set(s), leave_effect(s, key).1) == Some(active_set(leave_effect(s, key).0)),
{
    let open = active_set(s);
    if s.active.contains(key) {
        let acts = leave_effect(s, key).1;
        let left = s.active.filter(other_than(key));
        assert forall|k: ClientKey| left.contains(k) <==> (s.active.contains(k) && k != key) by {
            lemma_filter_contains_iff(s.active, other_than(key), k);
        }
        if left.len() == 0 {
            assert(left.map_values(close_action()) =~= Seq::<ActionView>::empty());
            assert(acts =~= seq![ActionView::Close { key: key }]);
            assert forall|k: ClientKey| !(s.active.contains(k) && k != key) by {
                if s.active.contains(k) && k != key {
                    assert(left.contains(k));
                }
            }
            assert(open.remove(key) =~= active_set(leave_effect(s, key).0));
        } else {
            assert(open.remove(key) =~= active_set(leave_effect(s, key).0));
        }
        assert(acts.drop_last() =~= Seq::<ActionView>::empty());
        assert(track_open(open, Seq::<ActionView>::empty()) == Some(open));
    } else {
        assert(leave_effect(s, key).1 =~= Seq::<ActionView>::empty());
        assert(track_open(open, Seq::<ActionView>::empty()) == Some(open));
        assert(active_set(leave_effect(s, key).0) =~= open);
    }
}

proof fn lemma_track_join(s: SessionView, key: ClientKey, now: u64)
    requires
        s.wf(),
    ensures
        track_open(active_set(s), join_effect(s, key, now).1) == Some(active_set(join_effect(s, key, now).0)),
{
    let open = active_set(s);
    let j = join_effect(s, key, now);
    let restart_acts = if s.joined_once.contains(key) {
        deliveries(s.active, chat_json(error_view(duplicate_join_text()))) + s.active.map_values(close_action())
    } else {
        Seq::empty()
    };
    let s0 = if s.joined_once.contains(key) { empty_session() } else { s };
    let replay = s0.messages.filter(applies_to(key)).map_values(replay_action(key));
    assert(j.1 == restart_acts + seq![ActionView::Open { key: key }] + replay);
    if s.joined_once.contains(key) {
        let d = deliveries(s.active, chat_json(error_view(duplicate_join_text())));
        lemma_track_deliveries(open, s.active, chat_json(error_view(duplicate_join_text())));
        lemma_track_closes(open, s.active);
        lemma_track_add(open, d, s.active.map_values(close_action()));
        assert(Set::new(|k: ClientKey| open.contains(k) && !s.active.contains(k)) =~= active_set(s0));
    } else {
        assert(track_open(open, restart_acts) == Some(open));
    }
    assert(track_open(open, restart_acts) == Some(active_set(s0)));
    assert(!s0.active.contains(key));
    let opened = restart_acts + seq![ActionView::Open { key: key }];
    lemma_track_add(open, restart_acts, seq![ActionView::Open { key: key }]);
    assert(seq![ActionView::Open { key: key }].drop_last() =~= Seq::<ActionView>::empty());
    assert(track_open(active_set(s0), Seq::<ActionView>::empty()) == Some(active_set(s0)));
    let set1 = active_set(s0).insert(key);
    assert(track_open(open, opened) == Some(set1));
    assert forall|i: int| 0 <= i < replay.len() implies (#[trigger] replay[i] matches ActionView::Deliver { to, .. } && set1.contains(to)) by {}
    lemma_track_uses(set1, replay);
    lemma_track_add(open, opened, replay);
    assert forall|k: ClientKey| #[trigger] j.0.active.contains(k) <==> (s0.active.contains(k) || k == key) by {
        if j.0.active.contains(k) {
            let i = choose|i: int| 0 <= i < j.0.active.len() && j.0.active[i] == k;
            if i < s0.active.len() {
                assert(s0.active[i] == k);
            }
        }
        if s0.active.contains(k) {
            let i = choose|i: int| 0 <= i < s0.active.len() && s0.active[i] == k;
            assert(j.0.active[i] == k);
        }
        if k == key {
            assert(j.0.active[s0.active.len() as int] == key);
        }
    }
    assert(set1 =~= active_set(j.0));
}

proof fn lemma_track_routed(s: SessionView, msg: ChatMessageView, sender: Option<ClientKey>)
    ensures
        track_open(active_set(s), deliveries(route_recipients(s.active, msg, sender), chat_json(msg))) == Some(active_set(s)),
{
    let r = route_recipients(s.active, msg, sender);
    assert forall|k: ClientKey| r.contains(k) implies active_set(s).contains(k) by {
        lemma_filter_contains_iff(s.active, delivers_to(msg, sender), k);
    }
    lemma_track_deliveries(active_set(s), r, chat_json(msg));
}

/// The `Open` and `Close` actions keep the open connections equal to the
/// connected clients: carried out on the connected clients before a command,
/// they never open an open connection nor close or use a missing one, and
/// they leave exactly the connected clients after it.
pub proof fn law_actions_track_connections(s: SessionView, cmd: SessionCommand, now: u64)
    requires
        s.wf(),
    ensures
        track_open(active_set(s), command_effect(s, cmd, now).1) == Some(active_set(command_effect(s, cmd, now).0)),
{
    match cmd {
        SessionCommand::Join { key } => lemma_track_join(s, key, now),
        SessionCommand::Leave { key } => lemma_track_leave(s, key),
        SessionCommand::SendMessage { msg, sender_key } => lemma_track_routed(s, msg@, Some(sender_key)),
        SessionCommand::Ping { key } => {
            lemma_track_routed(s, pong_view(key), None);
            assert(active_set(ping_effect(s, key, now).0) =~= active_set(s));
        },
    }
}

proof fn lemma_track_leave_each(s: SessionView, keys: Seq<ClientKey>)
    ensures
        track_open(active_set(s), leave_each(s, keys).1) == Some(active_set(leave_each(s, keys).0)),
    decreases keys.len(),
{
    if keys.len() == 0 {
        assert(active_set(leave_each(s, keys).0) =~= active_set(s));
    } else {
        let before = leave_each(s, keys.drop_last());
        lemma_track_leave_each(s, keys.drop_last());
        lemma_track_leave(before.0, keys.last());
        lemma_track_add(active_set(s), before.1, leave_effect(before.0, keys.last()).1);
    }
}

/// The timeout check, too, only closes open connections, and leaves open
/// exactly the clients still connected.
pub proof fn law_timeouts_track_connections(s: SessionView, now: u64)
    ensures
        track_open(active_set(s), timeout_effect(s, now).1) == Some(active_set(timeout_effect(s, now).0)),
{
    lemma_track_leave_each(s, expired_clients(s, now));
}

/// The stop signal ends any connection, and never makes it leave the session.
pub proof fn law_stop_ends_without_leaving(phase: ConnectionPhase)
    ensures
        connection_effect(phase, ConnectionEvent::Stopped) == (ConnectionPhase::Finished, ConnectionOutputView::Nothing),
{
}

/// A finished connection stays finished and does nothing.
pub proof fn law_finished_is_final(event: ConnectionEvent)
    ensures
        connection_effect(ConnectionPhase::Finished, event) == (ConnectionPhase::Finished, ConnectionOutputView::Nothing),
{
}

/// A connection joins the session only with a valid authentication as its
/// first message, and becomes connected as the identity it claimed.
pub proof fn law_join_only_by_auth(phase: ConnectionPhase, event: ConnectionEvent, key: ClientKey)
    requires
        connection_effect(phase, event).1 == (ConnectionOutputView::Command { cmd: SessionCommand::Join { key: key } }),
    ensures
        phase == ConnectionPhase::AwaitingAuth,
        event matches ConnectionEvent::Line { msg } && auth_key(msg@) == Some(key),
        connection_effect(phase, event).0 == (ConnectionPhase::Connected { key: key }),
{
}

/// A connection leaves the session only when its client closes the input,
/// and then it is over.
pub proof fn law_leave_only_at_end(phase: ConnectionPhase, event: ConnectionEvent, key: ClientKey)
    requires
        connection_effect(phase, event).1 == (ConnectionOutputView::Command { cmd: SessionCommand::Leave { key: key } }),
    ensures
        phase == (ConnectionPhase::Connected { key: key }),
        event is EndOfInput,
        connection_effect(phase, event).0 == ConnectionPhase::Finished,
{
}

/// Who each kind of message goes to, in terms of the message's and the
/// client's fields: text to everyone; the key-agreement messages and pongs to
/// the one client whose user is the receiver and whose cluster is the
/// message's (leader or not); commitments, keys and member identities to the
/// whole cluster; leader key agreement and leader identities to the leaders
/// of the cluster named by the receiver; leader commitments to every leader;
/// authentication, pings and error reports to nobody.
pub proof fn law_route_by_kind(msg: ChatMessageView, c: ClientKey)
    ensures
        msg.msg_type == MessageType::Text ==> route_applies(msg, c),
        (msg.msg_type == MessageType::AkeOne || msg.msg_type == MessageType::AkeTwo
            || msg.msg_type == MessageType::Pong) ==> (route_applies(msg, c) <==> (c.cluster_id
            == msg.cluster_id && c.user_id == msg.recv_id)),
        (msg.msg_type == MessageType::XiRiCommitment || msg.msg_type == MessageType::Key
            || msg.msg_type == MessageType::QKDIDMember) ==> (route_applies(msg, c) <==> c.cluster_id
            == msg.cluster_id),
        (msg.msg_type == MessageType::LeadAkeOne || msg.msg_type == MessageType::LeadAkeTwo
            || msg.msg_type == MessageType::QKDIDLeader) ==> (route_applies(msg, c) <==> (c.is_leader
            && c.cluster_id == msg.recv_id)),
        msg.msg_type == MessageType::LeaderXiRiCommitment ==> (route_applies(msg, c) <==> c.is_leader),
        (msg.msg_type == MessageType::MemberAuth || msg.msg_type == MessageType::LeaderAuth
            || msg.msg_type == MessageType::Ping || msg.msg_type == MessageType::Error) ==> !route_applies(msg, c),
{
}

/// The first line of a connection: a member or leader authentication joins
/// as the sender of that message in its cluster, with the leader flag of its
/// kind; anything else is answered with the `invalid auth` error report and
/// ends the connection.
pub proof fn law_auth_line(msg: ChatMessage)
    ensures
        msg.msg_type == MessageType::MemberAuth ==> connection_effect(
            ConnectionPhase::AwaitingAuth,
            ConnectionEvent::Line { msg: msg },
        ) == (
            ConnectionPhase::Connected { key: ClientKey { user_id: msg.send_id, cluster_id: msg.cluster_id, is_leader: false } },
            ConnectionOutputView::Command { cmd: SessionCommand::Join {
                key: ClientKey { user_id: msg.send_id, cluster_id: msg.cluster_id, is_leader: false },
            } },
        ),
        msg.msg_type == MessageType::LeaderAuth ==> connection_effect(
            ConnectionPhase::AwaitingAuth,
            ConnectionEvent::Line { msg: msg },
        ) == (
            ConnectionPhase::Connected { key: ClientKey { user_id: msg.send_id, cluster_id: msg.cluster_id, is_leader: true } },
            ConnectionOutputView::Command { cmd: SessionCommand::Join {
                key: ClientKey { user_id: msg.send_id, cluster_id: msg.cluster_id, is_leader: true },
            } },
        ),
        (msg.msg_type != MessageType::MemberAuth && msg.msg_type != MessageType::LeaderAuth) ==> connection_effect(
            ConnectionPhase::AwaitingAuth,
            ConnectionEvent::Line { msg: msg },
        ) == (
            ConnectionPhase::Finished,
            ConnectionOutputView::Reply { payload: chat_json(ChatMessageView {
                send_id: 0,
                recv_id: 0,
                msg_type: MessageType::Error,
                cluster_id: 0,
                sender: Seq::empty(),
                content: "invalid auth"@,
            }) },
        ),
{
}

/// A line from a connected client becomes a command that names exactly the
/// client of the connection: a ping is its ping, anything else is its message
/// to route; the connection stays connected as the same client.
pub proof fn law_connected_line(key: ClientKey, msg: ChatMessage)
    ensures
        connection_effect(ConnectionPhase::Connected { key: key }, ConnectionEvent::Line { msg: msg }).0
            == (ConnectionPhase::Connected { key: key }),
        msg.msg_type == MessageType::Ping ==> connection_effect(
            ConnectionPhase::Connected { key: key },
            ConnectionEvent::Line { msg: msg },
        ).1 == (ConnectionOutputView::Command { cmd: SessionCommand::Ping { key: key } }),
        msg.msg_type != MessageType::Ping ==> connection_effect(
            ConnectionPhase::Connected { key: key },
            ConnectionEvent::Line { msg: msg },
        ).1 == (ConnectionOutputView::Command { cmd: SessionCommand::SendMessage { msg: msg, sender_key: key } }),
{
}

/// A first join opens the connection, then replays, in storage order, exactly
/// the stored messages whose route selects the joining client, each as its
/// JSON line; the history is kept.
pub proof fn law_first_join_replay(s: SessionView, key: ClientKey, now: u64)
    requires
        !s.joined_once.contains(key),
    ensures
        join_effect(s, key, now).1 == seq![ActionView::Open { key: key }] + s.messages.filter(
            |m: ChatMessageView| route_applies(m, key),
        ).map_values(|m: ChatMessageView| ActionView::Deliver { to: key, payload: chat_json(m) }),
        join_effect(s, key, now).0.messages == s.messages,
{
    law_first_join_replays_history(s, key, now);
    assert(applies_to(key) =~= (|m: ChatMessageView| route_applies(m, key)));
    assert(replay_action(key) =~= (|m: ChatMessageView| ActionView::Deliver { to: key, payload: chat_json(m) }));
}

/// A client that leaves while another is still connected closes only its own
/// connection: the history and the record of who joined are kept, and every
/// other client stays connected.
pub proof fn law_leave_keeps_session(s: SessionView, key: ClientKey, other: ClientKey)
    requires
        s.active.contains(key),
        s.active.contains(other),
        other != key,
    ensures
        leave_effect(s, key).0.messages == s.messages,
        leave_effect(s, key).0.joined_once == s.joined_once,
        forall|k: ClientKey| leave_effect(s, key).0.active.contains(k) <==> (s.active.contains(k) && k != key),
        leave_effect(s, key).1 == seq![ActionView::Close { key: key }],
{
    let left = s.active.filter(other_than(key));
    assert forall|k: ClientKey| left.contains(k) <==> (s.active.contains(k) && k != key) by {
        lemma_filter_contains_iff(s.active, other_than(key), k);
    }
    assert(left.contains(other));
}

/// Relaying a message: every action delivers the message's JSON line to a
/// connected client; a connected client gets it exactly when the route
/// selects it and it is not the sender (a pong may go back to its sender);
/// the sender never gets its own message back unless it is a pong; and the
/// message is stored.
pub proof fn law_send_delivers(s: SessionView, msg: ChatMessageView, sender: ClientKey)
    ensures
        forall|i: int| 0 <= i < send_effect(s, msg, sender).1.len() ==> (#[trigger] send_effect(s, msg, sender).1[i]
            matches ActionView::Deliver { to, payload } && payload == chat_json(msg) && s.active.contains(to)),
        forall|c: ClientKey| #[trigger] send_effect(s, msg, sender).1.contains(
            ActionView::Deliver { to: c, payload: chat_json(msg) },
        ) <==> (s.active.contains(c) && route_applies(msg, c) && (c != sender || msg.msg_type == MessageType::Pong)),
        msg.msg_type != MessageType::Pong ==> forall|i: int| 0 <= i < send_effect(s, msg, sender).1.len()
            ==> (#[trigger] send_effect(s, msg, sender).1[i] matches ActionView::Deliver { to, .. } && to != sender),
        send_effect(s, msg, sender).0.messages == s.messages.push(msg),
{
    let r = route_recipients(s.active, msg, Some(sender));
    let acts = send_effect(s, msg, sender).1;
    assert forall|i: int| 0 <= i < acts.len() implies (#[trigger] acts[i] matches ActionView::Deliver { to, payload }
        && payload == chat_json(msg) && s.active.contains(to)) by {
        assert(r.contains(r[i]));
        lemma_filter_contains_iff(s.active, delivers_to(msg, Some(sender)), r[i]);
    }
    assert forall|c: ClientKey| #[trigger] acts.contains(ActionView::Deliver { to: c, payload: chat_json(msg) })
        <==> (s.active.contains(c) && route_applies(msg, c) && (c != sender || msg.msg_type == MessageType::Pong)) by {
        lemma_filter_contains_iff(s.active, delivers_to(msg, Some(sender)), c);
        if acts.contains(ActionView::Deliver { to: c, payload: chat_json(msg) }) {
            let i = choose|i: int| 0 <= i < acts.len() && acts[i] == ActionView::Deliver { to: c, payload: chat_json(msg) };
            assert(r[i] == c);
        }
        if r.contains(c) {
            let i = choose|i: int| 0 <= i < r.len() && r[i] == c;
            assert(acts[i] == ActionView::Deliver { to: c, payload: chat_json(msg) });
        }
    }
    if msg.msg_type != MessageType::Pong {
        assert forall|i: int| 0 <= i < acts.len() implies (#[trigger] acts[i] matches ActionView::Deliver { to, .. } && to != sender) by {
            assert(r.contains(r[i]));
            lemma_filter_contains_iff(s.active, delivers_to(msg, Some(sender)), r[i]);
        }
    }
}

/// Answering a ping: the pinging client is recorded as seen at `now`; the
/// relay's pong (from user 0, to the pinging user in its cluster, signed
/// `pqgch-router`, empty) goes to exactly the connected clients with the
/// pinging client's user and cluster, and the rest of the session is kept.
pub proof fn law_ping_pongs(s: SessionView, key: ClientKey, now: u64)
    ensures
        ({
            let pong = ChatMessageView {
                send_id: 0,
                recv_id: key.user_id,
                msg_type: MessageType::Pong,
                cluster_id: key.cluster_id,
                sender: "pqgch-router"@,
                content: Seq::empty(),
            };
            let acts = ping_effect(s, key, now).1;
            &&& forall|i: int| 0 <= i < acts.len() ==> (#[trigger] acts[i] matches ActionView::Deliver { to, payload }
                && payload == chat_json(pong) && s.active.contains(to) && to.user_id == key.user_id
                && to.cluster_id == key.cluster_id)
            &&& forall|c: ClientKey| s.active.contains(c) && c.user_id == key.user_id && c.cluster_id == key.cluster_id
                ==> #[trigger] acts.contains(ActionView::Deliver { to: c, payload: chat_json(pong) })
        }),
        ping_effect(s, key, now).0.last_seen.contains((key, now)),
        ping_effect(s, key, now).0.active == s.active,
        ping_effect(s, key, now).0.joined_once == s.joined_once,
        ping_effect(s, key, now).0.messages == s.messages,
{
    let pong = pong_view(key);
    let r = route_recipients(s.active, pong, None);
    let acts = ping_effect(s, key, now).1;
    assert forall|i: int| 0 <= i < acts.len() implies (#[trigger] acts[i] matches ActionView::Deliver { to, payload }
        && payload == chat_json(pong) && s.active.contains(to) && to.user_id == key.user_id
        && to.cluster_id == key.cluster_id) by {
        assert(r.contains(r[i]));
        lemma_filter_contains_iff(s.active, delivers_to(pong, None), r[i]);
    }
    assert forall|c: ClientKey| s.active.contains(c) && c.user_id == key.user_id && c.cluster_id == key.cluster_id
        implies #[trigger] acts.contains(ActionView::Deliver { to: c, payload: chat_json(pong) }) by {
        lemma_filter_contains_iff(s.active, delivers_to(pong, None), c);
        let i = choose|i: int| 0 <= i < r.len() && r[i] == c;
        assert(acts[i] == ActionView::Deliver { to: c, payload: chat_json(pong) });
    }
    let t = ping_effect(s, key, now).0.last_seen;
    if has_entry(s.last_seen, key) {
        let j = choose|j: int| 0 <= j < s.last_seen.len() && s.last_seen[j].0 == key;
        assert(t[j] == (key, now));
    } else {
        assert(t[s.last_seen.len() as int] == (key, now));
    }
}

/// A second join first tells every connected client, in order, with the
/// error report `session terminated due to duplicate join`.
pub proof fn law_duplicate_join_notice(s: SessionView, key: ClientKey, now: u64)
    requires
        s.joined_once.contains(key),
    ensures
        forall|i: int| 0 <= i < s.active.len() ==> #[trigger] join_effect(s, key, now).1[i] == (ActionView::Deliver {
            to: s.active[i],
            payload: chat_json(ChatMessageView {
                send_id: 0,
                recv_id: 0,
                msg_type: MessageType::Error,
                cluster_id: 0,
                sender: Seq::empty(),
                content: "session terminated due to duplicate join"@,
            }),
        }),
{
    law_duplicate_join_restarts(s, key, now);
}

proof fn lemma_leave_each_keeps(s: SessionView, keys: Seq<ClientKey>, k: ClientKey)
    requires
        s.active.contains(k),
        !keys.contains(k),
    ensures
        leave_each(s, keys).0.active.contains(k),
    decreases keys.len(),
{
    if keys.len() > 0 {
        let init = keys.drop_last();
        assert(!init.contains(k)) by {
            if init.contains(k) {
                let i = choose|i: int| 0 <= i < init.len() && init[i] == k;
                assert(keys[i] == k);
            }
        }
        lemma_leave_each_keeps(s, init, k);
        let mid = leave_each(s, init).0;
        let last = keys.last();
        assert(keys[keys.len() - 1] == last);
        assert(last != k);
        if mid.active.contains(last) {
            lemma_filter_contains_iff(mid.active, other_than(last), k);
        }
    }
}

/// The timeout check at `now` keeps a connected client connected exactly
/// when it was seen at most 30 seconds (in nanoseconds) before `now`, or at
/// `now` or later.
pub proof fn law_timeout_drops_exactly_the_silent(s: SessionView, now: u64, k: ClientKey, i: int)
    requires
        s.wf(),
        s.active.contains(k),
        0 <= i < s.last_seen.len(),
        s.last_seen[i].0 == k,
    ensures
        timeout_effect(s, now).0.active.contains(k) <==> !(now > s.last_seen[i].1 && now - s.last_seen[i].1
            > 30_000_000_000u64),
{
    let keys = expired_clients(s, now);
    let f = s.last_seen.filter(expired_at(now));
    let e = s.last_seen[i];
    lemma_leave_each_shrinks(s, keys);
    lemma_filter_contains_iff(s.last_seen, expired_at(now), e);
    assert(s.last_seen.contains(e));
    if now > e.1 && now - e.1 > 30_000_000_000u64 {
        let j = choose|j: int| 0 <= j < f.len() && f[j] == e;
        assert(keys[j] == k);
        assert(keys.contains(k));
    } else {
        assert(!keys.contains(k)) by {
            if keys.contains(k) {
                let j = choose|j: int| 0 <= j < keys.len() && keys[j] == k;
                let g = f[j];
                assert(f.contains(g));
                lemma_filter_contains_iff(s.last_seen, expired_at(now), g);
                let m = choose|m: int| 0 <= m < s.last_seen.len() && s.last_seen[m] == g;
                assert(s.last_seen[m].0 == k);
                assert(m == i);
            }
        }
        lemma_leave_each_keeps(s, keys, k);
    }
}

/// The wire codes follow the order in which the kinds are declared, from 0
/// for `MemberAuth` to 14 for the error report.
pub proof fn law_codes_in_declaration_order()
    ensures
        type_code(MessageType::MemberAuth) == 0,
        type_code(MessageType::LeaderAuth) == 1,
        type_code(MessageType::Text) == 2,
        type_code(MessageType::AkeOne) == 3,
        type_code(MessageType::AkeTwo) == 4,
        type_code(MessageType::XiRiCommitment) == 5,
        type_code(MessageType::Key) == 6,
        type_code(MessageType::LeadAkeOne) == 7,
        type_code(MessageType::LeadAkeTwo) == 8,
        type_code(MessageType::LeaderXiRiCommitment) == 9,
        type_code(MessageType::QKDIDLeader) == 10,
        type_code(MessageType::QKDIDMember) == 11,
        type_code(MessageType::Ping) == 12,
        type_code(MessageType::Pong) == 13,
        type_code(MessageType::Error) == 14,
{
}

/// The routing rule of each kind.
pub proof fn law_route_type_by_kind(t: MessageType)
    ensures
        t == MessageType::Text ==> route_of_type(t) == RouteType::Broadcast,
        (t == MessageType::AkeOne || t == MessageType::AkeTwo || t == MessageType::Pong) ==> route_of_type(t)
            == RouteType::Direct,
        (t == MessageType::XiRiCommitment || t == MessageType::Key || t == MessageType::QKDIDMember)
            ==> route_of_type(t) == RouteType::ClusterBroadcast,
        (t == MessageType::LeadAkeOne || t == MessageType::LeadAkeTwo || t == MessageType::QKDIDLeader)
            ==> route_of_type(t) == RouteType::LeaderDirect,
        t == MessageType::LeaderXiRiCommitment ==> route_of_type(t) == RouteType::LeaderBroadcast,
{
}

/// An error report carries its text as content, is of the error kind, and
/// has zero numbers and no sender.
pub proof fn law_error_report_fields(text: Seq<char>)
    ensures
        error_view(text).content == text,
        error_view(text).msg_type == MessageType::Error,
        error_view(text).send_id == 0,
        error_view(text).recv_id == 0,
        error_view(text).cluster_id == 0,
        error_view(text).sender.len() == 0,
{
}

/// Every other event a connection can see: before authentication a missing
/// or unreadable first line is answered with the `invalid auth` report and
/// ends the connection, a failed read ends it silently; once connected, an
/// unreadable line is skipped, the end of input leaves the session as the
/// connection's client and ends, a failed read leaves only the stop signal
/// to wait for; while draining only the stop signal matters.
pub proof fn law_connection_events(key: ClientKey)
    ensures
        connection_effect(ConnectionPhase::AwaitingAuth, ConnectionEvent::BadLine) == (
            ConnectionPhase::Finished,
            ConnectionOutputView::Reply { payload: chat_json(ChatMessageView {
                send_id: 0,
                recv_id: 0,
                msg_type: MessageType::Error,
                cluster_id: 0,
                sender: Seq::empty(),
                content: "invalid auth"@,
            }) },
        ),
        connection_effect(ConnectionPhase::AwaitingAuth, ConnectionEvent::EndOfInput) == (
            ConnectionPhase::Finished,
            ConnectionOutputView::Reply { payload: chat_json(ChatMessageView {
                send_id: 0,
                recv_id: 0,
                msg_type: MessageType::Error,
                cluster_id: 0,
                sender: Seq::empty(),
                content: "invalid auth"@,
            }) },
        ),
        connection_effect(ConnectionPhase::AwaitingAuth, ConnectionEvent::ReadFailed)
            == (ConnectionPhase::Finished, ConnectionOutputView::Nothing),
        connection_effect(ConnectionPhase::Connected { key: key }, ConnectionEvent::BadLine)
            == (ConnectionPhase::Connected { key: key }, ConnectionOutputView::Nothing),
        connection_effect(ConnectionPhase::Connected { key: key }, ConnectionEvent::EndOfInput) == (
            ConnectionPhase::Finished,
            ConnectionOutputView::Command { cmd: SessionCommand::Leave { key: key } },
        ),
        connection_effect(ConnectionPhase::Connected { key: key }, ConnectionEvent::ReadFailed)
            == (ConnectionPhase::Draining { key: key }, ConnectionOutputView::Nothing),
        connection_effect(ConnectionPhase::Draining { key: key }, ConnectionEvent::BadLine)
            == (ConnectionPhase::Draining { key: key }, ConnectionOutputView::Nothing),
        connection_effect(ConnectionPhase::Draining { key: key }, ConnectionEvent::EndOfInput)
            == (ConnectionPhase::Draining { key: key }, ConnectionOutputView::Nothing),
        connection_effect(ConnectionPhase::Draining { key: key }, ConnectionEvent::ReadFailed)
            == (ConnectionPhase::Draining { key: key }, ConnectionOutputView::Nothing),
{
}

/// A connection whose reading failed ignores any line still reported.
pub proof fn law_draining_ignores_lines(key: ClientKey, msg: ChatMessage)
    ensures
        connection_effect(ConnectionPhase::Draining { key: key }, ConnectionEvent::Line { msg: msg })
            == (ConnectionPhase::Draining { key: key }, ConnectionOutputView::Nothing),
{
}

} // verus!
