//! Networking decisions: whether the game is a server, a client or
//! disconnected, how a client's connection status moves, where a message
//! goes and on which channel, and the events of the current frame.
//!
//! The sockets, the transport and the encoding of messages are driven by
//! the caller, which hands this module what they report.

use vstd::prelude::*;

verus! {

broadcast use vstd::string::to_string_from_display_ensures_for_str;

/// How a message is delivered.
#[derive(Clone, Copy, PartialEq, Eq, Structural, Debug)]
pub enum MessageReliability {
    Reliable,
    Unreliable,
}

/// Who receives a message sent by the server.
#[derive(Clone, Copy, PartialEq, Eq, Structural, Debug)]
pub enum MessageReceiver {
    Everybody,
    EverybodyExcept(u64),
    OneClient(u64),
}

/// How far a client has come in connecting to its server.
#[derive(Clone, Copy, PartialEq, Eq, Structural, Debug)]
pub enum ClientStatus {
    Connecting,
    Connected,
}

/// The transport channel that a message travels on.
#[derive(Clone, Copy, PartialEq, Eq, Structural, Debug)]
pub enum MessageChannel {
    ReliableOrdered,
    Unreliable,
}

/// What the game is on the network. A disconnection may carry the reason
/// that the transport gave for it.
#[derive(Debug)]
pub enum NetworkingMode {
    Server,
    Client(ClientStatus),
    Disconnected(Option<String>),
}

/// Why a networking request was refused.
#[derive(Debug)]
pub enum NetworkError {
    /// The message could not be encoded; the encoder's words.
    MessageSerializeErr(String),
    /// A server or a client runs already.
    NotDisconnected,
    /// There is no server or client to send with.
    IsDisconnected,
    /// The client has not finished connecting.
    WrongClientStatus,
}

/// Something that happened on the network during the current frame.
#[derive(Debug)]
pub enum NetworkEvent {
    ClientConnected(u64),
    ClientDisconnected(u64, String),
    ConnectedSuccessfully,
    Disconnected(Option<String>),
}

/// To whom an outgoing message is handed.
#[derive(Clone, Copy, PartialEq, Eq, Structural, Debug)]
pub enum Delivery {
    /// From the server to every client.
    Broadcast,
    /// From the server to every client but the one given.
    BroadcastExcept(u64),
    /// From the server to one client.
    ToClient(u64),
    /// From a client to its server.
    ToServer,
}

/// A message ready to be handed to the transport.
pub struct Outgoing {
    pub delivery: Delivery,
    pub channel: MessageChannel,
    pub bytes: Vec<u8>,
}

/// The networking state of the game and the events of the current frame.
pub struct NetworkState {
    mode: NetworkingMode,
    events: Vec<NetworkEvent>,
}

/// The channel that a reliability asks for.
pub open spec fn spec_channel(r: MessageReliability) -> MessageChannel {
    match r {
        MessageReliability::Reliable => MessageChannel::ReliableOrdered,
        MessageReliability::Unreliable => MessageChannel::Unreliable,
    }
}

/// Where a message from the server to `receiver` goes.
pub open spec fn server_delivery(receiver: MessageReceiver) -> Delivery {
    match receiver {
        MessageReceiver::Everybody => Delivery::Broadcast,
        MessageReceiver::EverybodyExcept(id) => Delivery::BroadcastExcept(id),
        MessageReceiver::OneClient(id) => Delivery::ToClient(id),
    }
}

/// A connection can be opened only while disconnected.
pub open spec fn may_connect(mode: NetworkingMode) -> bool {
    mode is Disconnected
}

/// What a client's status becomes after the transport reports whether it
/// is connected, whether it is still connecting, the reason it was
/// disconnected for, if any, and whether the client is disconnected; and
/// whether a successful connection is to be announced.
pub open spec fn client_status_step(
    status: ClientStatus,
    connected: bool,
    connecting: bool,
    reason: Option<Seq<char>>,
    disconnected: bool,
) -> (Option<Result<ClientStatus, Option<Seq<char>>>>, bool) {
    if connected {
        (Some(Ok(ClientStatus::Connected)), status is Connecting)
    } else if connecting {
        (Some(Ok(ClientStatus::Connecting)), false)
    } else if reason is Some {
        (Some(Err(reason)), false)
    } else if disconnected {
        (Some(Err(None)), false)
    } else {
        (None, false)
    }
}

/// The view of an optional reason.
pub open spec fn reason_view(r: Option<String>) -> Option<Seq<char>> {
    match r {
        Some(s) => Some(s@),
        None => None,
    }
}

/// The channel that a reliability asks for.
pub fn channel_for(reliability: MessageReliability) -> (r: MessageChannel)
    ensures
        r == spec_channel(reliability),
{
    match reliability {
        MessageReliability::Reliable => MessageChannel::ReliableOrdered,
        MessageReliability::Unreliable => MessageChannel::Unreliable,
    }
}

/// The receiver that a script names, and whether it names one: the names
/// are `Everybody`, `OneClient` and `EverybodyExcept`, the last two with
/// the client id that comes with them. A missing id or another name gives
/// client 0 alone and `false`.
pub open spec fn script_receiver(name: Seq<char>, client_id: Option<u64>) -> (MessageReceiver, bool) {
    if name == "Everybody"@ {
        (MessageReceiver::Everybody, true)
    } else if name == "OneClient"@ {
        match client_id {
            Some(id) => (MessageReceiver::OneClient(id), true),
            None => (MessageReceiver::OneClient(0), false),
        }
    } else if name == "EverybodyExcept"@ {
        match client_id {
            Some(id) => (MessageReceiver::EverybodyExcept(id), true),
            None => (MessageReceiver::OneClient(0), false),
        }
    } else {
        (MessageReceiver::OneClient(0), false)
    }
}

/// The receiver that a script names; see [script_receiver].
pub fn message_receiver_from_script(receiver: &str, client_id: Option<u64>) -> (r: (
    MessageReceiver,
    bool,
))
    ensures
        r == script_receiver(receiver@, client_id),
{
    let name = receiver.to_string();
    if name == "Everybody".to_string() {
        (MessageReceiver::Everybody, true)
    } else if name == "OneClient".to_string() {
        match client_id {
            Some(id) => (MessageReceiver::OneClient(id), true),
            None => (MessageReceiver::OneClient(0), false),
        }
    } else if name == "EverybodyExcept".to_string() {
        match client_id {
            Some(id) => (MessageReceiver::EverybodyExcept(id), true),
            None => (MessageReceiver::OneClient(0), false),
        }
    } else {
        (MessageReceiver::OneClient(0), false)
    }
}

/// How a script's message travels: reliably where it asks for it.
pub fn reliability_from_flag(is_reliable: bool) -> (r: MessageReliability)
    ensures
        r == if is_reliable {
            MessageReliability::Reliable
        } else {
            MessageReliability::Unreliable
        },
{
    if is_reliable {
        MessageReliability::Reliable
    } else {
        MessageReliability::Unreliable
    }
}

/// Whether the game runs a server.
pub fn is_server(state: &NetworkState) -> (r: bool)
    ensures
        r == state.mode() is Server,
{
    match &state.mode {
        NetworkingMode::Server => true,
        NetworkingMode::Client(_) => false,
        NetworkingMode::Disconnected(_) => false,
    }
}

/// Whether the game runs a client.
pub fn is_client(state: &NetworkState) -> (r: bool)
    ensures
        r == state.mode() is Client,
{
    match &state.mode {
        NetworkingMode::Server => false,
        NetworkingMode::Client(_) => true,
        NetworkingMode::Disconnected(_) => false,
    }
}

impl NetworkState {
    /// The current mode.
    pub closed spec fn mode(&self) -> NetworkingMode {
        self.mode
    }

    /// The events of the current frame, oldest first.
    pub closed spec fn events(&self) -> Seq<NetworkEvent> {
        self.events@
    }

    /// Disconnected, for no reason, with no events.
    pub fn new() -> (r: Self)
        ensures
            r.mode() matches NetworkingMode::Disconnected(None),
            r.events().len() == 0,
    {
        NetworkState { mode: NetworkingMode::Disconnected(None), events: Vec::new() }
    }

    /// The current mode.
    pub fn current_mode(&self) -> (r: &NetworkingMode)
        ensures
            *r == self.mode(),
    {
        &self.mode
    }

    /// Becomes a server; refused unless disconnected. The caller opens the
    /// server's socket once this succeeds.
    pub fn new_server(&mut self) -> (r: Result<(), NetworkError>)
        ensures
            may_connect(old(self).mode()) ==> r is Ok && final(self).mode() is Server,
            !may_connect(old(self).mode()) ==> (r matches Err(NetworkError::NotDisconnected))
                && final(self).mode() == old(self).mode(),
            final(self).events() == old(self).events(),
    {
        match &self.mode {
            NetworkingMode::Disconnected(_) => {},
            _ => return Err(NetworkError::NotDisconnected),
        }
        self.mode = NetworkingMode::Server;
        Ok(())
    }

    /// Becomes a client that starts connecting; refused unless
    /// disconnected. The caller opens the client's socket once this
    /// succeeds.
    pub fn new_client(&mut self) -> (r: Result<(), NetworkError>)
        ensures
            may_connect(old(self).mode()) ==> r is Ok && final(self).mode() == NetworkingMode::Client(
                ClientStatus::Connecting,
            ),
            !may_connect(old(self).mode()) ==> (r matches Err(NetworkError::NotDisconnected))
                && final(self).mode() == old(self).mode(),
            final(self).events() == old(self).events(),
    {
        match &self.mode {
            NetworkingMode::Disconnected(_) => {},
            _ => return Err(NetworkError::NotDisconnected),
        }
        self.mode = NetworkingMode::Client(ClientStatus::Connecting);
        Ok(())
    }

    /// Starts a frame: the events of the last frame are dropped.
    pub fn update(&mut self)
        ensures
            final(self).mode() == old(self).mode(),
            final(self).events().len() == 0,
    {
        self.events = Vec::new();
    }

    /// Records an event of the current frame.
    pub fn set_network_event(&mut self, event: NetworkEvent)
        ensures
            final(self).mode() == old(self).mode(),
            final(self).events() == old(self).events().push(event),
    {
        self.events.push(event);
    }

    /// The events of the current frame, oldest first.
    pub fn get_network_events(&self) -> (r: &Vec<NetworkEvent>)
        ensures
            r@ == self.events(),
    {
        &self.events
    }

    /// Takes in what the client's transport reports: whether it is
    /// connected, whether it is connecting, why the client was
    /// disconnected, if it was, and whether the client is disconnected. A
    /// client that becomes connected announces it once; one that lost its
    /// connection leaves client mode.
    pub fn set_client_status(
        &mut self,
        connected: bool,
        connecting: bool,
        disconnect_reason: Option<String>,
        disconnected: bool,
    )
        requires
            old(self).mode() is Client,
        ensures
            ({
                let status = match old(self).mode() {
                    NetworkingMode::Client(st) => st,
                    _ => ClientStatus::Connecting,
                };
                let (next, announce) = client_status_step(
                    status,
                    connected,
                    connecting,
                    reason_view(disconnect_reason),
                    disconnected,
                );
                &&& match next {
                    None => final(self).mode() == old(self).mode(),
                    Some(Ok(s)) => final(self).mode() == NetworkingMode::Client(s),
                    Some(Err(reason)) => match final(self).mode() {
                        NetworkingMode::Disconnected(r) => reason_view(r) == reason,
                        _ => false,
                    },
                }
                &&& final(self).events() == if announce {
                    old(self).events().push(NetworkEvent::ConnectedSuccessfully)
                } else {
                    old(self).events()
                }
            }),
    {
        if connected {
            if let NetworkingMode::Client(ClientStatus::Connecting) = &self.mode {
                self.events.push(NetworkEvent::ConnectedSuccessfully);
            }
            self.mode = NetworkingMode::Client(ClientStatus::Connected);
        } else if connecting {
            self.mode = NetworkingMode::Client(ClientStatus::Connecting);
        } else if let Some(reason) = disconnect_reason {
            self.mode = NetworkingMode::Disconnected(Some(reason));
        } else if disconnected {
            self.mode = NetworkingMode::Disconnected(None);
        }
    }

    /// Decides where a message goes: `encoded` is what encoding it gave. A
    /// server sends to the clients that `receiver` names, a connected client
    /// to its server; a connecting client and a disconnected game refuse.
    pub fn send_message(
        &self,
        reliability: MessageReliability,
        receiver: MessageReceiver,
        encoded: Result<Vec<u8>, String>,
    ) -> (r: Result<Outgoing, NetworkError>)
        ensures
            self.mode() is Disconnected ==> r matches Err(NetworkError::IsDisconnected),
            self.mode() == NetworkingMode::Client(ClientStatus::Connecting) ==> r matches Err(
                NetworkError::WrongClientStatus,
            ),
            self.mode() is Server || self.mode() == NetworkingMode::Client(ClientStatus::Connected)
                ==> match encoded {
                Err(e) => r matches Err(NetworkError::MessageSerializeErr(m)) && m@ == e@,
                Ok(b) => r matches Ok(out) && out.delivery == (if self.mode() is Server {
                    server_delivery(receiver)
                } else {
                    Delivery::ToServer
                }) && out.channel == spec_channel(reliability) && out.bytes@ == b@,
            },
    {
        let delivery = match &self.mode {
            NetworkingMode::Disconnected(_) => return Err(NetworkError::IsDisconnected),
            NetworkingMode::Client(ClientStatus::Connecting) => return Err(
                NetworkError::WrongClientStatus,
            ),
            NetworkingMode::Client(ClientStatus::Connected) => Delivery::ToServer,
            NetworkingMode::Server => match receiver {
                MessageReceiver::Everybody => Delivery::Broadcast,
                MessageReceiver::EverybodyExcept(id) => Delivery::BroadcastExcept(id),
                MessageReceiver::OneClient(id) => Delivery::ToClient(id),
            },
        };
        let channel = channel_for(reliability);
        match encoded {
            Err(e) => Err(NetworkError::MessageSerializeErr(e)),
            Ok(bytes) => Ok(Outgoing { delivery, channel, bytes }),
        }
    }

    /// Whether disconnecting closes a client's connection: a server and a
    /// disconnected game refuse to disconnect.
    pub fn disconnect(&self) -> (r: bool)
        ensures
            r == self.mode() is Client,
    {
        match &self.mode {
            NetworkingMode::Client(_) => true,
            _ => false,
        }
    }
}

/// Only one connection runs at a time: once a server or a client runs, a
/// further server or client is refused.
pub proof fn lemma_one_connection(status: ClientStatus)
    ensures
        !may_connect(NetworkingMode::Server),
        !may_connect(NetworkingMode::Client(status)),
        may_connect(NetworkingMode::Disconnected(None)),
{
}

/// A client that connects announces it once: the report that makes it
/// connected announces it, and later reports of the connection do not.
pub proof fn lemma_connection_announced_once(
    connecting: bool,
    reason: Option<Seq<char>>,
    disconnected: bool,
)
    ensures
        client_status_step(ClientStatus::Connecting, true, connecting, reason, disconnected) == (
            Some(Ok::<ClientStatus, Option<Seq<char>>>(ClientStatus::Connected)),
            true,
        ),
        client_status_step(ClientStatus::Connected, true, connecting, reason, disconnected) == (
            Some(Ok::<ClientStatus, Option<Seq<char>>>(ClientStatus::Connected)),
            false,
        ),
{
}

} // verus!
