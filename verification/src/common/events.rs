use vstd::prelude::*;

verus! {

/// What a message to a client asks it to do.
#[derive(Debug, Clone, Copy, PartialEq, Eq, Structural)]
pub enum Action {
    SyncEntity,
    SyncId,
    Disconnect,
    SyncChunk,
}

impl Action {
    /// The action's code, the first character of every message.
    pub open spec fn code(self) -> Seq<char> {
        match self {
            Action::SyncEntity => seq!['0'],
            Action::SyncId => seq!['1'],
            Action::Disconnect => seq!['2'],
            Action::SyncChunk => seq!['3'],
        }
    }

    pub fn to_string(&self) -> (s: String)
        ensures
            s@ == self.code(),
    {
        proof {
            reveal_strlit("0");
            reveal_strlit("1");
            reveal_strlit("2");
            reveal_strlit("3");
        }
        match self {
            Action::SyncEntity => String::from_str("0"),
            Action::SyncId => String::from_str("1"),
            Action::Disconnect => String::from_str("2"),
            Action::SyncChunk => String::from_str("3"),
        }
    }
}

/// Distinct actions have distinct codes, each one character long.
pub proof fn lemma_action_codes_distinct(a: Action, b: Action)
    ensures
        a.code().len() == 1,
        a.code() == b.code() <==> a == b,
{
    if a != b {
        assert(a.code()[0] != b.code()[0]);
    }
}

/// A message to a client: an action and its argument.
#[derive(Debug, Clone)]
pub struct ActionMessage {
    pub action: Action,
    pub arg: String,
}

impl ActionMessage {
    /// The message's text: the action's code followed by the argument.
    pub open spec fn text(self) -> Seq<char> {
        self.action.code() + self.arg@
    }

    pub fn to_string(&self) -> (s: String)
        ensures
            s@ == self.text(),
    {
        let code = self.action.to_string();
        code.concat(self.arg.as_str())
    }
}

/// A message's text gives back its action and its argument: the first character is the
/// action's code, the rest is the argument.
pub proof fn lemma_message_text_decodes(m1: ActionMessage, m2: ActionMessage)
    ensures
        m1.text() == m2.text() <==> (m1.action == m2.action && m1.arg@ == m2.arg@),
{
    lemma_action_codes_distinct(m1.action, m2.action);
    if m1.text() == m2.text() {
        assert(m1.text()[0] == m1.action.code()[0]);
        assert(m2.text()[0] == m2.action.code()[0]);
        assert(m1.action.code() =~= seq![m1.action.code()[0]]);
        assert(m2.action.code() =~= seq![m2.action.code()[0]]);
        assert(m1.arg@ =~= m1.text().skip(1));
        assert(m2.arg@ =~= m2.text().skip(1));
    }
}

/// A line of text a peer sent.
#[derive(Debug, Clone)]
pub struct PeerInput {
    pub peer_socket: String,
    pub input: String,
}

/// A peer that opened a connection.
#[derive(Debug, Clone)]
pub struct PeerConnected {
    pub peer_socket: String,
}

/// A peer whose connection ended.
#[derive(Debug, Clone)]
pub struct PeerDisconnected {
    pub peer_socket: String,
}

impl PeerInput {
    pub fn new(peer_socket: String, input: String) -> (e: Self)
        ensures
            e.peer_socket == peer_socket,
            e.input == input,
    {
        Self { peer_socket, input }
    }
}

impl PeerConnected {
    pub fn new(peer_socket: String) -> (e: Self)
        ensures
            e.peer_socket == peer_socket,
    {
        Self { peer_socket }
    }
}

impl PeerDisconnected {
    pub fn new(peer_socket: String) -> (e: Self)
        ensures
            e.peer_socket == peer_socket,
    {
        Self { peer_socket }
    }
}

/// What the networking side reports about a peer.
#[derive(Debug, Clone)]
pub enum PeerEvent {
    Input(PeerInput),
    Connected(PeerConnected),
    Disconnected(PeerDisconnected),
}

/// Who a server message is for.
#[derive(Debug, Clone)]
pub enum PeerType {
    Ip(String),
    Ips(Vec<String>),
    Global,
}

/// A message the server sends, with its recipients.
#[derive(Debug, Clone)]
pub struct ServerOutputEvent {
    pub peer_ip: PeerType,
    pub message: ActionMessage,
}

/// What the output side does with a server message.
#[derive(Debug, Clone)]
pub enum Delivery {
    /// Forget the peer at this address, and stop handling messages until the next round.
    Drop(String),
    /// Send the message to each of these addresses that has a connection.
    Send(Vec<String>),
}

/// The texts of a list of strings.
pub open spec fn texts(v: Seq<String>) -> Seq<Seq<char>> {
    v.map_values(|s: String| s@)
}

pub fn clone_strings(v: &Vec<String>) -> (r: Vec<String>)
    ensures
        r@ == v@,
{
    let mut r: Vec<String> = Vec::new();
    let mut i: usize = 0;
    while i < v.len()
        invariant
            0 <= i <= v@.len(),
            r@ == v@.take(i as int),
        decreases v@.len() - i,
    {
        r.push(v[i].clone());
        assert(r@ =~= v@.take(i + 1));
        i = i + 1;
    }
    assert(r@ =~= v@);
    r
}

impl ServerOutputEvent {
    /// Whether `d` is how this message is delivered when `peers` are connected.
    pub open spec fn delivers(self, peers: Seq<String>, d: Delivery) -> bool {
        match self.peer_ip {
            PeerType::Ip(ip) => if self.message.action == Action::Disconnect {
                d matches Delivery::Drop(a) && a@ == ip@
            } else {
                d matches Delivery::Send(to) && texts(to@) == seq![ip@]
            },
            PeerType::Ips(ips) => d matches Delivery::Send(to) && to@ == ips@,
            PeerType::Global => d matches Delivery::Send(to) && to@ == peers,
        }
    }

    /// How a message is delivered, given the addresses of the connected peers: a disconnect
    /// addressed to one peer drops that peer; otherwise the message goes to its one peer,
    /// to its list of peers, or to every connected peer.
    pub fn delivery(&self, peers: &Vec<String>) -> (d: Delivery)
        ensures
            self.delivers(peers@, d),
            self.peer_ip is Ips ==> (d matches Delivery::Send(to) && to@ == self.peer_ip->Ips_0@),
            self.peer_ip is Global ==> (d matches Delivery::Send(to) && to@ == peers@),
            self.peer_ip is Ip ==> (d is Drop <==> self.message.action == Action::Disconnect),
    {
        match &self.peer_ip {
            PeerType::Ip(ip) => {
                let code = self.message.action.to_string();
                let disconnect = Action::Disconnect.to_string();
                proof {
                    lemma_action_codes_distinct(self.message.action, Action::Disconnect);
                }
                if code == disconnect {
                    Delivery::Drop(ip.clone())
                } else {
                    let mut to: Vec<String> = Vec::new();
                    to.push(ip.clone());
                    assert(texts(to@) =~= seq![ip@]);
                    Delivery::Send(to)
                }
            },
            PeerType::Ips(ips) => Delivery::Send(clone_strings(ips)),
            PeerType::Global => Delivery::Send(clone_strings(peers)),
        }
    }
}

/// The notice sent when a peer disconnects: a disconnect addressed to that peer, carrying
/// its address.
pub open spec fn disconnect_notice(peer: String) -> ServerOutputEvent {
    ServerOutputEvent {
        peer_ip: PeerType::Ip(peer),
        message: ActionMessage { action: Action::Disconnect, arg: peer },
    }
}

/// Delivering the notice of a disconnect drops the peer that disconnected, whoever else is
/// connected.
pub proof fn lemma_disconnect_notice_drops_peer(peer: String, peers: Seq<String>, d: Delivery)
    requires
        disconnect_notice(peer).delivers(peers, d),
    ensures
        d matches Delivery::Drop(a) && a@ == peer@,
{
}

/// A message addressed to a list of peers is sent to exactly that list, in its order,
/// whatever its action and whoever is connected; a broadcast goes to exactly the connected
/// peers.
pub proof fn lemma_lists_delivered_whole(e: ServerOutputEvent, peers: Seq<String>, d: Delivery)
    requires
        e.delivers(peers, d),
    ensures
        e.peer_ip is Ips ==> (d matches Delivery::Send(to) && to@ == e.peer_ip->Ips_0@),
        e.peer_ip is Global ==> (d matches Delivery::Send(to) && to@ == peers),
        e.peer_ip is Ip ==> (d is Drop <==> e.message.action == Action::Disconnect),
{
}

/// Any other message for one peer is sent to that peer alone.
pub proof fn lemma_single_peer_send(e: ServerOutputEvent, peers: Seq<String>, d: Delivery)
    requires
        e.peer_ip is Ip,
        e.message.action != Action::Disconnect,
        e.delivers(peers, d),
    ensures
        d matches Delivery::Send(to) && to@.len() == 1 && to@[0]@ == e.peer_ip->Ip_0@,
{
    if let Delivery::Send(to) = d {
        let ip = e.peer_ip->Ip_0;
        assert(texts(to@) == seq![ip@]);
        assert(texts(to@).len() == 1);
        assert(to@.len() == 1);
        assert(texts(to@)[0] == to@[0]@);
    }
}

} // verus!
