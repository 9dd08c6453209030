use rand::Rng;
use vstd::prelude::*;

use crate::chat::{joined_line, joined_text, left_line, left_text, said_line, said_text, Chat};
use crate::protocol::{ClientMessage, ClientMessageModel, ServerMessage, ServerMessageModel};
use crate::roster::Roster;

verus! {

/// What the client asks of its presentation layer after a server message.
#[derive(Debug, Clone, Copy, PartialEq, Eq, Structural)]
pub enum ClientEvent {
    /// A participant appeared; `is_self` marks the locally controlled one.
    Spawn { client_id: u64, is_self: bool },
    /// A participant departed.
    Despawn { client_id: u64 },
    /// A participant reported where it is and how it steers.
    RemoteUpdate { client_id: u64, x: i32, y: i32, horizontal: i32, vertical: i32 },
}

/// The event that shows the participant `c`, who is not the local one.
pub open spec fn spawn_other(c: u64) -> ClientEvent {
    ClientEvent::Spawn { client_id: c, is_self: false }
}

/// The client's view of the session: its own id, once the server has assigned
/// it, and who is present.
pub ghost struct ClientModel {
    pub self_id: Option<u64>,
    pub names: Map<u64, Seq<char>>,
}

/// The session state after the client handles `msg`.
pub open spec fn session_after(s: ClientModel, msg: ServerMessageModel) -> ClientModel {
    match msg {
        ServerMessageModel::ClientConnected { client_id, username } => ClientModel {
            names: s.names.insert(client_id, username),
            ..s
        },
        ServerMessageModel::ClientDisconnected { client_id } => ClientModel {
            names: s.names.remove(client_id),
            ..s
        },
        ServerMessageModel::InitClient { client_id, usernames } => if s.self_id is Some {
            s
        } else {
            ClientModel { self_id: Some(client_id), names: usernames }
        },
        _ => s,
    }
}

/// The chat transcript after the client, in state `s`, handles `msg`.
pub open spec fn chat_after(
    log: Seq<Seq<char>>,
    s: ClientModel,
    msg: ServerMessageModel,
) -> Seq<Seq<char>> {
    match msg {
        ServerMessageModel::ClientConnected { client_id, username } => log.push(
            joined_line(username),
        ),
        ServerMessageModel::ClientDisconnected { client_id } => if s.names.contains_key(client_id) {
            log.push(left_line(s.names[client_id]))
        } else {
            log
        },
        ServerMessageModel::ChatMessage { client_id, message } => if s.names.contains_key(
            client_id,
        ) {
            log.push(said_line(s.names[client_id], message))
        } else {
            log
        },
        _ => log,
    }
}

/// The events on `msg` in state `s`, for every message but an `InitClient`
/// that arrives before the local id is set; one that arrives after is ignored.
pub open spec fn events_for(s: ClientModel, msg: ServerMessageModel) -> Seq<ClientEvent> {
    match msg {
        ServerMessageModel::ClientConnected { client_id, username } => if s.self_id == Some(
            client_id,
        ) {
            seq![]
        } else {
            seq![ClientEvent::Spawn { client_id, is_self: false }]
        },
        ServerMessageModel::ClientDisconnected { client_id } => if s.names.contains_key(client_id) {
            seq![ClientEvent::Despawn { client_id }]
        } else {
            seq![]
        },
        ServerMessageModel::PlayerUpdate { client_id, x, y, horizontal, vertical } => seq![
            ClientEvent::RemoteUpdate { client_id, x, y, horizontal, vertical },
        ],
        _ => seq![],
    }
}

/// The events on `InitClient { client_id: id, usernames: names }`: the local
/// participant first, then every other present one, each once.
pub open spec fn init_events(events: Seq<ClientEvent>, id: u64, names: Map<u64, Seq<char>>) -> bool {
    &&& events.len() >= 1
    &&& events[0] == (ClientEvent::Spawn { client_id: id, is_self: true })
    &&& forall|i: int|
        1 <= i < events.len() ==> match #[trigger] events[i] {
            ClientEvent::Spawn { client_id, is_self } => !is_self && client_id != id
                && names.contains_key(client_id),
            _ => false,
        }
    &&& forall|c: u64|
        names.contains_key(c) && c != id ==> exists|i: int|
            1 <= i < events.len() && #[trigger] events[i] == spawn_other(c)
    &&& forall|i: int, j: int|
        0 <= i < events.len() && 0 <= j < events.len() && i != j ==> events[i] != events[j]
}

/// Handling the same `ClientDisconnected` a second time changes neither the
/// session nor the transcript, and asks nothing of the presentation layer.
pub proof fn lemma_repeated_departure_inert(s: ClientModel, log: Seq<Seq<char>>, id: u64)
    ensures
        ({
            let msg = ServerMessageModel::ClientDisconnected { client_id: id };
            let s1 = session_after(s, msg);
            let log1 = chat_after(log, s, msg);
            &&& session_after(s1, msg) == s1
            &&& chat_after(log1, s1, msg) == log1
            &&& events_for(s1, msg).len() == 0
        }),
{
    let msg = ServerMessageModel::ClientDisconnected { client_id: id };
    let s1 = session_after(s, msg);
    assert(s1.names.remove(id) =~= s1.names);
}

/// Length of the name a client joins with.
pub const NAME_LEN: usize = 7;

/// An ASCII letter or digit.
pub open spec fn is_alphanumeric(c: char) -> bool {
    ('a' <= c && c <= 'z') || ('A' <= c && c <= 'Z') || ('0' <= c && c <= '9')
}

/// Relies on rand's `Alphanumeric` distribution, drawn `len` times from
/// `thread_rng`: each draw is one of the 62 ASCII letters and digits.
#[verifier::external_body]
fn random_alphanumeric(len: usize) -> (r: String)
    ensures
        r@.len() == len,
        forall|i: int| 0 <= i < r@.len() ==> is_alphanumeric(#[trigger] r@[i]),
{
    rand::thread_rng().sample_iter(&rand::distributions::Alphanumeric).take(len).map(char::from).collect()
}

/// The message a client sends once connected: a `Join` under a fresh random
/// name of ASCII letters and digits.
pub fn join_request() -> (r: ClientMessage)
    ensures
        match r@ {
            ClientMessageModel::Join { name } => name.len() == NAME_LEN && forall|i: int|
                0 <= i < name.len() ==> is_alphanumeric(#[trigger] name[i]),
            _ => false,
        },
{
    ClientMessage::Join { name: random_alphanumeric(NAME_LEN) }
}

/// Once the server has assigned the local id, no message changes it.
pub proof fn lemma_self_id_fixed(s: ClientModel, msg: ServerMessageModel)
    requires
        s.self_id is Some,
    ensures
        session_after(s, msg).self_id == s.self_id,
{
}

/// The client's mirror of the session.
pub struct ClientSession {
    self_id: Option<u64>,
    names: Roster,
}

impl View for ClientSession {
    type V = ClientModel;

    closed spec fn view(&self) -> ClientModel {
        ClientModel { self_id: self.self_id, names: self.names@ }
    }
}

impl ClientSession {
    /// Before the server has assigned an id: nobody is known.
    pub fn new() -> (r: ClientSession)
        ensures
            r@ == (ClientModel { self_id: None, names: Map::empty() }),
    {
        ClientSession { self_id: None, names: Roster::new() }
    }

    /// The id of the local participant, once assigned.
    pub fn self_id(&self) -> (r: Option<u64>)
        ensures
            r == self@.self_id,
    {
        self.self_id
    }

    /// Who the client knows to be present.
    pub fn roster(&self) -> (r: &Roster)
        ensures
            r@ == self@.names,
    {
        &self.names
    }

    /// Handles one server message, appending to `chat` what it shows.
    pub fn handle_server_message(&mut self, chat: &mut Chat, msg: ServerMessage) -> (r: Vec<
        ClientEvent,
    >)
        ensures
            final(self)@ == session_after(old(self)@, msg@),
            final(chat)@ == chat_after(old(chat)@, old(self)@, msg@),
            match msg@ {
                ServerMessageModel::InitClient { client_id, usernames } => if old(
                    self,
                )@.self_id is None {
                    init_events(r@, client_id, usernames)
                } else {
                    r@ == events_for(old(self)@, msg@)
                },
                _ => r@ == events_for(old(self)@, msg@),
            },
    {
        let ghost s0 = self@;
        let mut events: Vec<ClientEvent> = Vec::new();
        match msg {
            ServerMessage::ClientConnected { client_id, username } => {
                chat.push(joined_text(&username));
                let _ = self.names.remove(client_id);
                let _ = self.names.insert(client_id, username);
                proof {
                    assert(self.names@ =~= s0.names.insert(client_id, msg@->username));
                }
                if self.self_id != Some(client_id) {
                    events.push(ClientEvent::Spawn { client_id, is_self: false });
                }
            },
            ServerMessage::ClientDisconnected { client_id } => {
                match self.names.remove(client_id) {
                    Some(username) => {
                        chat.push(left_text(&username));
                        events.push(ClientEvent::Despawn { client_id });
                    },
                    None => {},
                }
            },
            ServerMessage::ChatMessage { client_id, message } => {
                match self.names.get(client_id) {
                    Some(username) => {
                        chat.push(said_text(&username, &message));
                    },
                    None => {},
                }
            },
            ServerMessage::InitClient { client_id, usernames } => {
                if self.self_id.is_none() {
                    self.self_id = Some(client_id);
                    let ids = usernames.ids();
                    self.names = usernames;
                    events.push(ClientEvent::Spawn { client_id, is_self: true });
                    let mut i: usize = 0;
                    while i < ids.len()
                        invariant
                            i <= ids@.len(),
                            ids@.to_set() == self.names@.dom(),
                            ids@.no_duplicates(),
                            events@.len() >= 1,
                            events@[0] == (ClientEvent::Spawn { client_id, is_self: true }),
                            forall|k: int|
                                1 <= k < events@.len() ==> match #[trigger] events@[k] {
                                    ClientEvent::Spawn { client_id: c, is_self } => !is_self && c
                                        != client_id && self.names@.contains_key(c),
                                    _ => false,
                                },
                            forall|k: int|
                                1 <= k < events@.len() ==> exists|j: int|
                                    0 <= j < i && #[trigger] events@[k] == spawn_other(ids@[j]),
                            forall|j: int|
                                0 <= j < i && ids@[j] != client_id ==> exists|k: int|
                                    1 <= k < events@.len() && #[trigger] events@[k]
                                        == spawn_other(ids@[j]),
                            forall|a: int, b: int|
                                0 <= a < events@.len() && 0 <= b < events@.len() && a != b
                                    ==> events@[a] != events@[b],
                        decreases ids@.len() - i,
                    {
                        let other = ids[i];
                        if other != client_id {
                            proof {
                                assert(ids@.to_set().contains(other));
                                assert forall|k: int| 1 <= k < events@.len() implies events@[k]
                                    != (spawn_other(other)) by {
                                    let j = choose|j: int|
                                        0 <= j < i && #[trigger] events@[k] == spawn_other(ids@[j]);
                                    assert(ids@[j] != ids@[i as int]);
                                }
                            }
                            let ghost prev = events@;
                            events.push(ClientEvent::Spawn { client_id: other, is_self: false });
                            proof {
                                let n = events@.len();
                                assert(forall|k: int| 0 <= k < n - 1 ==> events@[k] == prev[k]);
                                assert(events@[n - 1] == spawn_other(ids@[i as int]));
                                assert forall|j: int|
                                    0 <= j < i + 1 && ids@[j] != client_id implies exists|k: int|
                                    1 <= k < events@.len() && #[trigger] events@[k]
                                        == spawn_other(ids@[j]) by {
                                    if j == i {
                                        assert(events@[n - 1] == spawn_other(ids@[j]));
                                    } else {
                                        let k = choose|k: int|
                                            1 <= k < prev.len() && #[trigger] prev[k]
                                                == spawn_other(ids@[j]);
                                        assert(events@[k] == spawn_other(ids@[j]));
                                    }
                                }
                            }
                        }
                        i = i + 1;
                    }
                    proof {
                        assert forall|c: u64| self.names@.contains_key(c) && c != client_id implies exists|
                            k: int,
                        |
                            1 <= k < events@.len() && #[trigger] events@[k] == spawn_other(c) by {
                            assert(ids@.to_set().contains(c));
                            let j = choose|j: int| 0 <= j < ids@.len() && ids@[j] == c;
                            assert(ids@[j] != client_id);
                        }
                    }
                }
            },
            ServerMessage::PlayerUpdate { client_id, x, y, horizontal, vertical } => {
                events.push(ClientEvent::RemoteUpdate { client_id, x, y, horizontal, vertical });
            },
        }
        proof {
            match msg@ {
                ServerMessageModel::InitClient { client_id, usernames } => {
                    if s0.self_id is Some {
                        assert(events@ =~= events_for(s0, msg@));
                    }
                },
                _ => {
                    assert(events@ =~= events_for(s0, msg@));
                },
            }
        }
        events
    }
}

} // verus!
