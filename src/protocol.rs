use vstd::prelude::*;

use crate::roster::Roster;

verus! {

/// A message a client sends to the server.
///
/// Positions and input axes are fixed-point numbers: thousandths of a distance
/// unit (for `x`, `y`) or of full deflection (for `horizontal`, `vertical`).
pub enum ClientMessage {
    Join { name: String },
    Disconnect {},
    ChatMessage { message: String },
    PlayerUpdate { x: i32, y: i32, horizontal: i32, vertical: i32 },
}

/// A message the server sends to clients.
pub enum ServerMessage {
    ClientConnected { client_id: u64, username: String },
    ClientDisconnected { client_id: u64 },
    ChatMessage { client_id: u64, message: String },
    InitClient { client_id: u64, usernames: Roster },
    PlayerUpdate { client_id: u64, x: i32, y: i32, horizontal: i32, vertical: i32 },
}

/// What a `ClientMessage` means, with each text seen as its characters.
pub ghost enum ClientMessageModel {
    Join { name: Seq<char> },
    Disconnect,
    ChatMessage { message: Seq<char> },
    PlayerUpdate { x: i32, y: i32, horizontal: i32, vertical: i32 },
}

/// What a `ServerMessage` means, with each text seen as its characters and a
/// roster seen as its mapping.
pub ghost enum ServerMessageModel {
    ClientConnected { client_id: u64, username: Seq<char> },
    ClientDisconnected { client_id: u64 },
    ChatMessage { client_id: u64, message: Seq<char> },
    InitClient { client_id: u64, usernames: Map<u64, Seq<char>> },
    PlayerUpdate { client_id: u64, x: i32, y: i32, horizontal: i32, vertical: i32 },
}

impl View for ClientMessage {
    type V = ClientMessageModel;

    open spec fn view(&self) -> ClientMessageModel {
        match self {
            ClientMessage::Join { name } => ClientMessageModel::Join { name: name@ },
            ClientMessage::Disconnect {  } => ClientMessageModel::Disconnect,
            ClientMessage::ChatMessage { message } => ClientMessageModel::ChatMessage {
                message: message@,
            },
            ClientMessage::PlayerUpdate { x, y, horizontal, vertical } =>
                ClientMessageModel::PlayerUpdate {
                x: *x,
                y: *y,
                horizontal: *horizontal,
                vertical: *vertical,
            },
        }
    }
}

impl View for ServerMessage {
    type V = ServerMessageModel;

    open spec fn view(&self) -> ServerMessageModel {
        match self {
            ServerMessage::ClientConnected { client_id, username } =>
                ServerMessageModel::ClientConnected { client_id: *client_id, username: username@ },
            ServerMessage::ClientDisconnected { client_id } =>
                ServerMessageModel::ClientDisconnected { client_id: *client_id },
            ServerMessage::ChatMessage { client_id, message } => ServerMessageModel::ChatMessage {
                client_id: *client_id,
                message: message@,
            },
            ServerMessage::InitClient { client_id, usernames } => ServerMessageModel::InitClient {
                client_id: *client_id,
                usernames: usernames@,
            },
            ServerMessage::PlayerUpdate { client_id, x, y, horizontal, vertical } =>
                ServerMessageModel::PlayerUpdate {
                client_id: *client_id,
                x: *x,
                y: *y,
                horizontal: *horizontal,
                vertical: *vertical,
            },
        }
    }
}

} // verus!
