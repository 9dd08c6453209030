use vstd::prelude::*;

use crate::protocol::{ClientMessage, ClientMessageModel, ServerMessage, ServerMessageModel};
use crate::roster::Roster;

verus! {

/// Why a registry operation was not applied.
#[derive(Debug, Clone, Copy, PartialEq, Eq, Structural)]
pub enum RegistryError {
    /// A `Join` came from a connection that is registered already.
    AlreadyRegistered,
}

/// One message for the transport to deliver, and to whom.
pub struct Outbound {
    pub recipients: Vec<u64>,
    pub message: ServerMessage,
}

/// An outbound message seen as the set of its recipients and its meaning.
pub open spec fn outbound_model(o: Outbound) -> (Set<u64>, ServerMessageModel) {
    (o.recipients@.to_set(), o.message@)
}

pub open spec fn outbound_models(os: Seq<Outbound>) -> Seq<(Set<u64>, ServerMessageModel)> {
    os.map_values(|o: Outbound| outbound_model(o))
}

/// Every outbound message names each recipient once.
pub open spec fn recipients_distinct(os: Seq<Outbound>) -> bool {
    forall|i: int| 0 <= i < os.len() ==> (#[trigger] os[i]).recipients@.no_duplicates()
}

/// What the server does on one client message: whether to close the connection,
/// and what to send.
pub struct SessionStep {
    pub close_connection: bool,
    pub outbound: Vec<Outbound>,
}

/// The roster after the server handles `msg` from connection `id`.
pub open spec fn roster_after(
    m: Map<u64, Seq<char>>,
    id: u64,
    msg: ClientMessageModel,
) -> Map<u64, Seq<char>> {
    match msg {
        ClientMessageModel::Join { name } => if m.contains_key(id) {
            m
        } else {
            m.insert(id, name)
        },
        ClientMessageModel::Disconnect => m.remove(id),
        _ => m,
    }
}

/// What the server sends on `msg` from connection `id`, given the roster `m`
/// before: each message with the set of its recipients.
pub open spec fn replies(
    m: Map<u64, Seq<char>>,
    id: u64,
    msg: ClientMessageModel,
) -> Seq<(Set<u64>, ServerMessageModel)> {
    let after = roster_after(m, id, msg);
    match msg {
        ClientMessageModel::Join { name } => if m.contains_key(id) {
            seq![]
        } else {
            seq![
                (set![id], ServerMessageModel::InitClient { client_id: id, usernames: after }),
                (after.dom(), ServerMessageModel::ClientConnected { client_id: id, username: name }),
            ]
        },
        ClientMessageModel::Disconnect => departure_replies(m, id),
        ClientMessageModel::ChatMessage { message } => seq![
            (m.dom(), ServerMessageModel::ChatMessage { client_id: id, message }),
        ],
        ClientMessageModel::PlayerUpdate { x, y, horizontal, vertical } => seq![
            (
                m.dom(),
                ServerMessageModel::PlayerUpdate { client_id: id, x, y, horizontal, vertical },
            ),
        ],
    }
}

/// What the server sends when connection `id` departs: a notice to those who
/// remain, where `id` was registered.
pub open spec fn departure_replies(m: Map<u64, Seq<char>>, id: u64) -> Seq<
    (Set<u64>, ServerMessageModel),
> {
    if m.contains_key(id) {
        seq![(m.remove(id).dom(), ServerMessageModel::ClientDisconnected { client_id: id })]
    } else {
        seq![]
    }
}

/// The roster after the server handles each `(id, message)` of `log` in turn.
pub open spec fn replay(m: Map<u64, Seq<char>>, log: Seq<(u64, ClientMessageModel)>) -> Map<
    u64,
    Seq<char>,
>
    decreases log.len(),
{
    if log.len() == 0 {
        m
    } else {
        roster_after(replay(m, log.drop_last()), log.last().0, log.last().1)
    }
}

/// Whether the last `Join` or `Disconnect` of `id` in `log` is a `Join`.
pub open spec fn joined_last(log: Seq<(u64, ClientMessageModel)>, id: u64) -> bool
    decreases log.len(),
{
    if log.len() == 0 {
        false
    } else if log.last().0 == id && log.last().1 is Join {
        true
    } else if log.last().0 == id && log.last().1 is Disconnect {
        false
    } else {
        joined_last(log.drop_last(), id)
    }
}

/// From an empty roster, the ids present after any log of client messages are
/// exactly those whose last `Join` has no `Disconnect` after it.
pub proof fn lemma_replay_roster(log: Seq<(u64, ClientMessageModel)>)
    ensures
        replay(Map::empty(), log).dom() == Set::new(|id: u64| joined_last(log, id)),
    decreases log.len(),
{
    if log.len() > 0 {
        lemma_replay_roster(log.drop_last());
    }
    assert(replay(Map::empty(), log).dom() =~= Set::new(|id: u64| joined_last(log, id)));
}

/// A `Join` from a registered connection leaves the roster as it is and sends
/// nothing.
pub proof fn lemma_duplicate_join_inert(m: Map<u64, Seq<char>>, id: u64, name: Seq<char>)
    requires
        m.contains_key(id),
    ensures
        roster_after(m, id, ClientMessageModel::Join { name }) == m,
        replies(m, id, ClientMessageModel::Join { name }).len() == 0,
{
}

/// A `Disconnect` from an unregistered connection leaves the roster as it is
/// and sends nothing.
pub proof fn lemma_unknown_disconnect_inert(m: Map<u64, Seq<char>>, id: u64)
    requires
        !m.contains_key(id),
    ensures
        roster_after(m, id, ClientMessageModel::Disconnect) == m,
        replies(m, id, ClientMessageModel::Disconnect).len() == 0,
        departure_replies(m, id).len() == 0,
{
    assert(m.remove(id) =~= m);
}

/// Whether `msgs` holds a `Disconnect`.
pub open spec fn has_disconnect(msgs: Seq<ClientMessageModel>) -> bool {
    exists|j: int| 0 <= j < msgs.len() && msgs[j] is Disconnect
}

/// How many messages of an inbox the server handles: all of them, or those up
/// to and including the first `Disconnect`.
pub open spec fn handled_len(msgs: Seq<ClientMessageModel>) -> nat
    decreases msgs.len(),
{
    if msgs.len() == 0 {
        0
    } else if has_disconnect(msgs.drop_last()) {
        handled_len(msgs.drop_last())
    } else {
        msgs.len()
    }
}

/// The roster after the server handles every message of `msgs` from `id`.
pub open spec fn run_roster(m: Map<u64, Seq<char>>, id: u64, msgs: Seq<ClientMessageModel>) -> Map<
    u64,
    Seq<char>,
>
    decreases msgs.len(),
{
    if msgs.len() == 0 {
        m
    } else {
        roster_after(run_roster(m, id, msgs.drop_last()), id, msgs.last())
    }
}

/// What the server sends while it handles every message of `msgs` from `id`.
pub open spec fn run_replies(m: Map<u64, Seq<char>>, id: u64, msgs: Seq<ClientMessageModel>) -> Seq<
    (Set<u64>, ServerMessageModel),
>
    decreases msgs.len(),
{
    if msgs.len() == 0 {
        seq![]
    } else {
        run_replies(m, id, msgs.drop_last()) + replies(
            run_roster(m, id, msgs.drop_last()),
            id,
            msgs.last(),
        )
    }
}

/// Where the first `Disconnect` stands at `i`, it ends what is handled.
pub proof fn lemma_handled_len(msgs: Seq<ClientMessageModel>, i: int)
    requires
        0 <= i < msgs.len(),
        msgs[i] is Disconnect,
        !has_disconnect(msgs.take(i)),
    ensures
        handled_len(msgs) == i + 1,
    decreases msgs.len(),
{
    if msgs.len() > i + 1 {
        assert(msgs.drop_last()[i] is Disconnect);
        assert(msgs.drop_last().take(i) =~= msgs.take(i));
        lemma_handled_len(msgs.drop_last(), i);
    } else {
        assert(msgs.drop_last() =~= msgs.take(i));
    }
}

/// Without a `Disconnect`, every message is handled.
pub proof fn lemma_handled_all(msgs: Seq<ClientMessageModel>)
    requires
        !has_disconnect(msgs),
    ensures
        handled_len(msgs) == msgs.len(),
{
    if msgs.len() > 0 {
        if has_disconnect(msgs.drop_last()) {
            let j = choose|j: int| 0 <= j < msgs.drop_last().len() && msgs.drop_last()[j] is Disconnect;
            assert(msgs[j] is Disconnect);
        }
    }
}

/// The roster after one connection's messages is the replay of the log that
/// names that connection as the sender of each.
pub proof fn lemma_run_roster_is_replay(
    m: Map<u64, Seq<char>>,
    id: u64,
    msgs: Seq<ClientMessageModel>,
)
    ensures
        run_roster(m, id, msgs) == replay(m, msgs.map_values(|x: ClientMessageModel| (id, x))),
    decreases msgs.len(),
{
    let log = msgs.map_values(|x: ClientMessageModel| (id, x));
    if msgs.len() > 0 {
        lemma_run_roster_is_replay(m, id, msgs.drop_last());
        assert(log.drop_last() =~= msgs.drop_last().map_values(|x: ClientMessageModel| (id, x)));
    }
}

/// The inbox seen as the meanings of its messages.
pub open spec fn inbox_models(inbox: Seq<ClientMessage>) -> Seq<ClientMessageModel> {
    inbox.map_values(|m: ClientMessage| m@)
}

/// The server's registry of who is present.
pub struct Users {
    names: Roster,
}

impl View for Users {
    type V = Map<u64, Seq<char>>;

    closed spec fn view(&self) -> Map<u64, Seq<char>> {
        self.names@
    }
}

fn single(id: u64) -> (r: Vec<u64>)
    ensures
        r@.to_set() == set![id],
        r@.no_duplicates(),
{
    let r = vec![id];
    assert(r@.to_set() =~= set![id]) by {
        assert(r@[0] == id);
    }
    r
}

impl Users {
    /// A registry with nobody in it.
    pub fn new() -> (r: Users)
        ensures
            r@ == Map::<u64, Seq<char>>::empty(),
    {
        Users { names: Roster::new() }
    }

    /// The present participants.
    pub fn roster(&self) -> (r: &Roster)
        ensures
            r@ == self@,
    {
        &self.names
    }

    /// Registers `client_id` under `name` and hands back the roster afterwards,
    /// or refuses where `client_id` is registered already.
    pub fn register(&mut self, client_id: u64, name: String) -> (r: Result<Roster, RegistryError>)
        ensures
            match r {
                Ok(snapshot) => !old(self)@.contains_key(client_id) && final(self)@ == old(
                    self,
                )@.insert(client_id, name@) && snapshot@ == final(self)@,
                Err(e) => old(self)@.contains_key(client_id) && final(self)@ == old(self)@ && e
                    == RegistryError::AlreadyRegistered,
            },
    {
        if self.names.insert(client_id, name) {
            Ok(self.names.duplicate())
        } else {
            Err(RegistryError::AlreadyRegistered)
        }
    }

    /// Removes `client_id` and hands back the name it had, or `None` where it
    /// was not registered.
    pub fn unregister(&mut self, client_id: u64) -> (r: Option<String>)
        ensures
            final(self)@ == old(self)@.remove(client_id),
            match r {
                Some(name) => old(self)@.contains_key(client_id) && name@ == old(self)@[client_id],
                None => !old(self)@.contains_key(client_id),
            },
    {
        self.names.remove(client_id)
    }

    /// The departure of `client_id`, whether it asked to leave or its
    /// connection was lost: unregisters it and, where it was registered, tells
    /// those who remain.
    pub fn handle_disconnect(&mut self, client_id: u64) -> (r: Option<Outbound>)
        ensures
            final(self)@ == old(self)@.remove(client_id),
            r is Some <==> old(self)@.contains_key(client_id),
            match r {
                Some(o) => seq![outbound_model(o)] == departure_replies(old(self)@, client_id)
                    && o.recipients@.no_duplicates(),
                None => departure_replies(old(self)@, client_id).len() == 0,
            },
    {
        match self.unregister(client_id) {
            Some(_) => {
                let recipients = self.names.ids();
                Some(Outbound { recipients, message: ServerMessage::ClientDisconnected { client_id } })
            },
            None => None,
        }
    }

    /// Handles the messages that connection `client_id` sent since the last
    /// tick, in order. A `Disconnect` ends the connection: what follows it is
    /// dropped.
    pub fn handle_inbox(&mut self, client_id: u64, inbox: Vec<ClientMessage>) -> (r: SessionStep)
        ensures
            ({
                let msgs = inbox_models(inbox@);
                let handled = msgs.take(handled_len(msgs) as int);
                &&& final(self)@ == run_roster(old(self)@, client_id, handled)
                &&& outbound_models(r.outbound@) == run_replies(old(self)@, client_id, handled)
                &&& r.close_connection == has_disconnect(msgs)
                &&& recipients_distinct(r.outbound@)
            }),
    {
        let ghost m0 = self@;
        let ghost msgs = inbox_models(inbox@);
        let mut rest = inbox;
        let mut outbound: Vec<Outbound> = Vec::new();
        let mut close_connection = false;
        let ghost mut i: int = 0;
        proof {
            assert(msgs.skip(0) =~= msgs);
            assert(msgs.take(0) =~= Seq::<ClientMessageModel>::empty());
            assert(outbound_models(outbound@) =~= Seq::<(Set<u64>, ServerMessageModel)>::empty());
        }
        while rest.len() > 0 && !close_connection
            invariant
                0 <= i <= msgs.len(),
                inbox_models(rest@) == msgs.skip(i),
                close_connection == has_disconnect(msgs.take(i)),
                close_connection ==> i >= 1 && msgs[i - 1] is Disconnect && !has_disconnect(
                    msgs.take(i - 1),
                ),
                self@ == run_roster(m0, client_id, msgs.take(i)),
                outbound_models(outbound@) == run_replies(m0, client_id, msgs.take(i)),
                recipients_distinct(outbound@),
            decreases rest@.len(),
        {
            let ghost old_rest = rest@;
            let msg = rest.remove(0);
            let ghost before = outbound@;
            proof {
                assert(inbox_models(old_rest).len() == old_rest.len());
                assert(i < msgs.len());
                assert(inbox_models(old_rest)[0] == msg@);
                assert(msgs.skip(i)[0] == msgs[i]);
                assert(inbox_models(rest@) =~= msgs.skip(i + 1)) by {
                    assert(rest@ =~= old_rest.drop_first());
                    assert(inbox_models(rest@) =~= inbox_models(old_rest).drop_first());
                }
            }
            let step = self.handle_client_message(client_id, msg);
            let mut sent = step.outbound;
            outbound.append(&mut sent);
            proof {
                let t = msgs.take(i + 1);
                assert(t.drop_last() =~= msgs.take(i));
                assert(outbound_models(outbound@) =~= outbound_models(before) + outbound_models(
                    step.outbound@,
                ));
                assert forall|k: int| 0 <= k < outbound@.len() implies (
                #[trigger] outbound@[k]).recipients@.no_duplicates() by {
                    if k >= before.len() {
                        assert(outbound@[k] == step.outbound@[k - before.len()]);
                    }
                }
                if has_disconnect(t) && !step.close_connection {
                    let j = choose|j: int| 0 <= j < t.len() && t[j] is Disconnect;
                    assert(msgs.take(i)[j] is Disconnect);
                }
                if step.close_connection {
                    assert(t[i] is Disconnect);
                }
            }
            proof {
                i = i + 1;
            }
            close_connection = step.close_connection;
        }
        proof {
            if close_connection {
                lemma_handled_len(msgs, i - 1);
                assert(msgs[i - 1] is Disconnect);
            } else {
                assert(msgs.take(i) =~= msgs);
                lemma_handled_all(msgs);
            }
        }
        SessionStep { close_connection, outbound }
    }

    /// Handles one message from connection `client_id`.
    pub fn handle_client_message(&mut self, client_id: u64, msg: ClientMessage) -> (r:
        SessionStep)
        ensures
            final(self)@ == roster_after(old(self)@, client_id, msg@),
            r.close_connection == (msg@ is Disconnect),
            outbound_models(r.outbound@) == replies(old(self)@, client_id, msg@),
            r.outbound@.len() == replies(old(self)@, client_id, msg@).len(),
            recipients_distinct(r.outbound@),
    {
        let ghost before = self@;
        let mut outbound: Vec<Outbound> = Vec::new();
        let mut close_connection = false;
        match msg {
            ClientMessage::Join { name } => {
                let username = name.clone();
                match self.register(client_id, name) {
                    Ok(snapshot) => {
                        outbound.push(
                            Outbound {
                                recipients: single(client_id),
                                message: ServerMessage::InitClient {
                                    client_id,
                                    usernames: snapshot,
                                },
                            },
                        );
                        outbound.push(
                            Outbound {
                                recipients: self.names.ids(),
                                message: ServerMessage::ClientConnected { client_id, username },
                            },
                        );
                    },
                    Err(_) => {},
                }
            },
            ClientMessage::Disconnect {  } => {
                close_connection = true;
                match self.handle_disconnect(client_id) {
                    Some(o) => outbound.push(o),
                    None => {},
                }
            },
            ClientMessage::ChatMessage { message } => {
                outbound.push(
                    Outbound {
                        recipients: self.names.ids(),
                        message: ServerMessage::ChatMessage { client_id, message },
                    },
                );
            },
            ClientMessage::PlayerUpdate { x, y, horizontal, vertical } => {
                outbound.push(
                    Outbound {
                        recipients: self.names.ids(),
                        message: ServerMessage::PlayerUpdate {
                            client_id,
                            x,
                            y,
                            horizontal,
                            vertical,
                        },
                    },
                );
            },
        }
        proof {
            assert(outbound_models(outbound@) =~= replies(before, client_id, msg@));
        }
        SessionStep { close_connection, outbound }
    }
}

} // verus!
