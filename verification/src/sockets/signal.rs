//! What peers say to each other while a connection is set up, and where they look for a path.

use vstd::prelude::*;

verus! {

/// Signal data exchanged between peers via the signalling server.
///
/// A second `Offer` on a connection that exists is a renegotiation — always an ICE restart — and
/// is answered like the first. Nothing new on the wire for that: an offer is an offer, and the SDP
/// inside it is what says the ICE credentials changed.
#[derive(Debug, PartialEq, Eq)]
pub enum PeerSignal {
    Offer(String),
    Answer(String),
    IceCandidate(String),
}

/// Outbound signal destined for a remote peer (must be relayed via the signalling server).
#[derive(Debug, PartialEq, Eq)]
pub struct OutgoingSignal {
    pub peer: u128,
    pub signal: PeerSignal,
}

/// One ICE server a peer connection may gather candidates from.
///
/// `username` and `credential` are only read for TURN; leave them empty for STUN.
#[derive(Debug, PartialEq, Eq)]
pub struct IceServer {
    pub urls: Vec<String>,
    pub username: String,
    pub credential: String,
}

/// The mathematical content of an [`IceServer`].
pub struct IceServerView {
    pub urls: Seq<Seq<char>>,
    pub username: Seq<char>,
    pub credential: Seq<char>,
}

/// The views of strings, in order.
pub open spec fn text_views(texts: Seq<String>) -> Seq<Seq<char>> {
    Seq::new(texts.len(), |i: int| texts[i]@)
}

impl View for IceServer {
    type V = IceServerView;

    open spec fn view(&self) -> IceServerView {
        IceServerView {
            urls: text_views(self.urls@),
            username: self.username@,
            credential: self.credential@,
        }
    }
}

impl IceServer {
    /// A credential-less server, which is every STUN server.
    pub fn stun(url: &str) -> (server: Self)
        ensures
            server@.urls == seq![url@],
            server@.username == Seq::<char>::empty(),
            server@.credential == Seq::<char>::empty(),
    {
        let mut urls: Vec<String> = Vec::new();
        urls.push(url.to_owned());
        let server = IceServer { urls, username: String::new(), credential: String::new() };
        assert(server@.urls =~= seq![url@]);
        server
    }
}

/// The ICE servers peer connections gather candidates from.
///
/// The default is a pair of public STUN servers. That is right for two peers on different networks
/// and pure cost for two on the same machine: gathering waits on servers whose answer is not
/// needed.
#[derive(Debug, PartialEq, Eq)]
pub struct IceServers(pub Vec<IceServer>);

impl Default for IceServers {
    fn default() -> (servers: Self)
        ensures
            servers.0@.len() == 1,
            servers.0@[0]@.urls == seq![
                "stun:stun.l.google.com:19302"@,
                "stun:stun1.l.google.com:19302"@,
            ],
            servers.0@[0]@.username == Seq::<char>::empty(),
            servers.0@[0]@.credential == Seq::<char>::empty(),
    {
        let mut urls: Vec<String> = Vec::new();
        urls.push("stun:stun.l.google.com:19302".to_owned());
        urls.push("stun:stun1.l.google.com:19302".to_owned());
        let server = IceServer { urls, username: String::new(), credential: String::new() };
        assert(server@.urls =~= seq![
            "stun:stun.l.google.com:19302"@,
            "stun:stun1.l.google.com:19302"@,
        ]);
        let mut servers: Vec<IceServer> = Vec::new();
        servers.push(server);
        IceServers(servers)
    }
}

impl IceServers {
    /// Gather host candidates only. Correct for loopback and a LAN, and for tests.
    pub fn none() -> (servers: Self)
        ensures
            servers.0@.len() == 0,
    {
        IceServers(Vec::new())
    }
}

} // verus!
