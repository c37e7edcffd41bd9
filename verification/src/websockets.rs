//! The stream client's decisions. The client is a machine of two states,
//! disconnected and connected; whoever owns the socket tells it how each
//! connection attempt and each read ended, and it answers with what to do
//! next.

use vstd::prelude::*;

verus! {

/// How long to wait before connecting again, in milliseconds.
pub const RECONNECT_DELAY_MS: u64 = 5000;

/// Whether the client holds a connection.
#[derive(Debug, Clone, Copy, PartialEq, Eq, Structural)]
pub enum ConnectionState {
    Disconnected,
    Connected,
}

/// What the owner of the socket is to do next.
#[derive(Debug)]
pub enum StreamAction {
    /// Tell the handler that the connection stands, then receive.
    Announce,
    /// Hand the text to the handler, then receive.
    Deliver(String),
    /// Receive the next message.
    Receive,
    /// Attempt a connection.
    Connect,
    /// Tell the handler of the error, wait, then attempt a connection.
    Reconnect { error: String, delay_ms: u64 },
}

/// An action as the rules state it.
pub enum ActionModel {
    Announce,
    Deliver(Seq<char>),
    Receive,
    Connect,
    Reconnect { error: Seq<char>, delay_ms: nat },
}

impl View for StreamAction {
    type V = ActionModel;

    open spec fn view(&self) -> ActionModel {
        match self {
            StreamAction::Announce => ActionModel::Announce,
            StreamAction::Deliver(text) => ActionModel::Deliver(text@),
            StreamAction::Receive => ActionModel::Receive,
            StreamAction::Connect => ActionModel::Connect,
            StreamAction::Reconnect { error, delay_ms } => ActionModel::Reconnect {
                error: error@,
                delay_ms: *delay_ms as nat,
            },
        }
    }
}

/// How a connection attempt ended, as the rules see it: accepted, or refused
/// with a reason.
pub open spec fn handshake_of(handshake: Result<(), String>) -> Option<Seq<char>> {
    match handshake {
        Ok(_) => None,
        Err(reason) => Some(reason@),
    }
}

/// The state after a connection attempt: connected exactly where the
/// handshake was accepted.
pub open spec fn state_after_connect(refusal: Option<Seq<char>>) -> ConnectionState {
    match refusal {
        None => ConnectionState::Connected,
        Some(_) => ConnectionState::Disconnected,
    }
}

/// What follows a connection attempt: the announcement, or a new attempt
/// after the delay.
pub open spec fn action_after_connect(refusal: Option<Seq<char>>) -> ActionModel {
    match refusal {
        None => ActionModel::Announce,
        Some(reason) => ActionModel::Reconnect {
            error: "Error during handshake "@ + reason,
            delay_ms: 5000,
        },
    }
}

/// How a read ended, as the rules see it.
pub enum ReadModel {
    /// A text message.
    Text(Seq<char>),
    /// A message of another kind.
    Other,
    /// The read failed or the connection dropped.
    Failed(Seq<char>),
}

/// The model of the outcome of a read.
pub open spec fn read_of(read: Result<Option<String>, String>) -> ReadModel {
    match read {
        Ok(Some(text)) => ReadModel::Text(text@),
        Ok(None) => ReadModel::Other,
        Err(reason) => ReadModel::Failed(reason@),
    }
}

/// The state after a read: a failed read disconnects, nothing else changes
/// the state.
pub open spec fn state_after_read(state: ConnectionState, read: ReadModel) -> ConnectionState {
    match read {
        ReadModel::Failed(_) => ConnectionState::Disconnected,
        _ => state,
    }
}

/// What follows a read. A client that is not connected has nothing to read
/// and is to connect. A connected client delivers a text, passes over any
/// other message, and on a failure connects again after the delay.
pub open spec fn action_after_read(state: ConnectionState, read: ReadModel) -> ActionModel {
    match state {
        ConnectionState::Disconnected => match read {
            ReadModel::Failed(reason) => ActionModel::Reconnect { error: reason, delay_ms: 5000 },
            _ => ActionModel::Connect,
        },
        ConnectionState::Connected => match read {
            ReadModel::Text(text) => ActionModel::Deliver(text),
            ReadModel::Other => ActionModel::Receive,
            ReadModel::Failed(reason) => ActionModel::Reconnect { error: reason, delay_ms: 5000 },
        },
    }
}

/// The stream client.
#[derive(Debug)]
pub struct WebSockets {
    state: ConnectionState,
}

impl WebSockets {
    /// The client's state.
    pub closed spec fn state(&self) -> ConnectionState {
        self.state
    }

    /// A client that is not connected yet.
    pub fn new() -> (client: WebSockets)
        ensures
            client.state() == ConnectionState::Disconnected,
    {
        WebSockets { state: ConnectionState::Disconnected }
    }

    /// Whether the client holds a connection.
    pub fn is_connected(&self) -> (connected: bool)
        ensures
            connected == (self.state() == ConnectionState::Connected),
    {
        match self.state {
            ConnectionState::Connected => true,
            ConnectionState::Disconnected => false,
        }
    }

    /// Takes the outcome of a connection attempt.
    pub fn connect(&mut self, handshake: Result<(), String>) -> (action: StreamAction)
        ensures
            final(self).state() == state_after_connect(handshake_of(handshake)),
            action@ == action_after_connect(handshake_of(handshake)),
    {
        match handshake {
            Ok(_) => {
                self.state = ConnectionState::Connected;
                StreamAction::Announce
            },
            Err(reason) => {
                self.state = ConnectionState::Disconnected;
                let mut error = "Error during handshake ".to_owned();
                error.append(reason.as_str());
                StreamAction::Reconnect { error, delay_ms: RECONNECT_DELAY_MS }
            },
        }
    }

    /// Takes the outcome of one read of the receive loop.
    pub fn event_loop(&mut self, read: Result<Option<String>, String>) -> (action: StreamAction)
        ensures
            final(self).state() == state_after_read(old(self).state(), read_of(read)),
            action@ == action_after_read(old(self).state(), read_of(read)),
    {
        match read {
            Err(reason) => {
                self.state = ConnectionState::Disconnected;
                StreamAction::Reconnect { error: reason, delay_ms: RECONNECT_DELAY_MS }
            },
            Ok(message) => match self.state {
                ConnectionState::Disconnected => StreamAction::Connect,
                ConnectionState::Connected => match message {
                    Some(text) => StreamAction::Deliver(text),
                    None => StreamAction::Receive,
                },
            },
        }
    }
}

} // verus!
