//! A relay, for the players who cannot reach each other directly: who may use it, and whether its
//! configuration describes one that works.
//!
//! Two peers connect directly whenever their networks allow it. When they do not, a relay is the
//! only remaining route, and a deployment without one simply cannot serve those players.

use vstd::prelude::*;

use crate::text;
use crate::text::decimal;

verus! {

/// The port a relay listens on when nothing says otherwise. 3478 is TURN's registered port.
pub const DEFAULT_LISTEN_PORT: u16 = 3478;

/// The range allocations are drawn from when nothing says otherwise.
///
/// Bounded on purpose. A hundred ports is one narrow firewall rule, far more than a lobby-sized
/// game produces — and, usefully, a hard ceiling on concurrent allocations, which is the only
/// quota this relay has.
pub const DEFAULT_RELAY_PORTS: (u16, u16) = (49160, 49260);

/// One application that shares the relay.
#[derive(Debug, PartialEq, Eq)]
pub struct RelayUser {
    pub username: String,
    pub password: String,
}

/// How the relay decides a credential is good.
///
/// TURN has no anonymous mode worth using: a relay that accepts anyone is an open relay, and open
/// relays are found by scanners within hours of coming up. Every variant is real authentication;
/// they differ in who holds what.
#[derive(Debug, PartialEq, Eq)]
pub enum RelayCredentials {
    /// One fixed pair, shared by every player.
    ///
    /// The simplest thing that works, and the right choice when the client is a bundle whose
    /// configuration is baked in at compile time. The cost is that the pair is public, and
    /// rotating it means republishing the client. The bounded relay port range is what keeps that
    /// survivable.
    Static { username: String, password: String },
    /// Derived rather than stored: the username is an expiry and the password is an HMAC of it
    /// under this secret.
    ///
    /// The secret never leaves the server. Credentials are minted per session and expire on their
    /// own — but something has to *deliver* them to each client.
    Secret(String),
    /// A pair for each of the applications that share the relay. Rotating or revoking one leaves
    /// the others connected.
    Users(Vec<RelayUser>),
}

/// An internet address.
#[derive(Debug, Clone, Copy, PartialEq, Eq)]
pub enum IpAddress {
    V4(u32),
    V6(u128),
}

/// Everything a relay needs that nobody can reasonably guess.
#[derive(Debug, PartialEq, Eq)]
pub struct RelayConfig {
    /// The address handed to players in an allocation.
    ///
    /// **Must be the public one.** It is advertised, not bound, and on a host behind NAT the
    /// interface address is private — a relay advertising `10.x.x.x` hands every player somewhere
    /// unreachable while looking perfectly healthy in its own logs.
    pub public_ip: IpAddress,
    /// Where the relay listens for allocation requests.
    pub listen_port: u16,
    /// Inclusive range allocations are drawn from. Both ends must be open on the firewall.
    pub relay_ports: (u16, u16),
    /// Hashed into the credential key. Any stable string does; changing it invalidates every
    /// credential minted under the old one.
    pub realm: String,
    pub credentials: RelayCredentials,
}

/// Why a configuration cannot describe a working relay.
#[derive(Debug, Clone, Copy, PartialEq, Eq, Structural)]
pub enum RelayConfigError {
    /// The relay ports are not a range.
    NotARange { min_port: u16, max_port: u16 },
    /// An allocation advertises a single address, which must be IPv4.
    NotIpv4,
}

/// What is said about a configuration that describes no relay.
pub open spec fn config_fault_text(fault: RelayConfigError) -> Seq<char> {
    match fault {
        RelayConfigError::NotARange { min_port, max_port } => "relay port range "@
            + text::decimal_digits(min_port as nat) + "-"@ + text::decimal_digits(max_port as nat)
            + " is not a range"@,
        RelayConfigError::NotIpv4 => {
            "public_ip must be IPv4: an allocation advertises a single address"@
        },
    }
}

impl RelayConfigError {
    /// What is said about this.
    pub fn reason(&self) -> (reason: String)
        ensures
            reason@ == config_fault_text(*self),
    {
        match self {
            RelayConfigError::NotARange { min_port, max_port } => {
                let mut reason = "relay port range ".to_owned();
                reason.append(decimal(*min_port as u128).as_str());
                reason.append("-");
                reason.append(decimal(*max_port as u128).as_str());
                reason.append(" is not a range");
                reason
            },
            RelayConfigError::NotIpv4 => {
                "public_ip must be IPv4: an allocation advertises a single address".to_owned()
            },
        }
    }
}

/// Why a relay would not start.
#[derive(Debug, PartialEq, Eq)]
pub enum RelayError {
    /// The listener could not be bound — the port is taken, or in use by another process — and
    /// this is what the system says about it.
    Bind { port: u16, source: String },
    /// The configuration cannot describe a working relay.
    Config(RelayConfigError),
    /// The TURN server itself refused the configuration, and this is what it says about it.
    Turn(String),
}

/// What is said about a relay that would not start.
pub open spec fn relay_error_text(error: RelayError) -> Seq<char> {
    match error {
        RelayError::Bind { port, source } => "could not bind udp/"@ + text::decimal_digits(
            port as nat,
        ) + " for the relay: "@ + source@,
        RelayError::Config(fault) => config_fault_text(fault),
        RelayError::Turn(error) => "the relay would not start: "@ + error@,
    }
}

impl RelayError {
    /// What is said about this.
    pub fn reason(&self) -> (reason: String)
        ensures
            reason@ == relay_error_text(*self),
    {
        match self {
            RelayError::Bind { port, source } => {
                let mut reason = "could not bind udp/".to_owned();
                reason.append(decimal(*port as u128).as_str());
                reason.append(" for the relay: ");
                reason.append(source.as_str());
                reason
            },
            RelayError::Config(fault) => fault.reason(),
            RelayError::Turn(error) => {
                let mut reason = "the relay would not start: ".to_owned();
                reason.append(error.as_str());
                reason
            },
        }
    }
}

impl RelayConfig {
    /// The two things with no sensible default, with defaults for everything else.
    pub fn new(public_ip: IpAddress, credentials: RelayCredentials) -> (config: Self)
        ensures
            config.public_ip == public_ip,
            config.listen_port == DEFAULT_LISTEN_PORT,
            config.relay_ports == DEFAULT_RELAY_PORTS,
            config.realm@ == "bevy_ensemble"@,
            config.credentials == credentials,
    {
        RelayConfig {
            public_ip,
            listen_port: DEFAULT_LISTEN_PORT,
            relay_ports: DEFAULT_RELAY_PORTS,
            realm: "bevy_ensemble".to_owned(),
            credentials,
        }
    }

    /// What is wrong with the configuration, if anything is.
    pub open spec fn fault(self) -> Option<RelayConfigError> {
        let (min_port, max_port) = self.relay_ports;
        if min_port == 0 || max_port < min_port {
            Some(RelayConfigError::NotARange { min_port, max_port })
        } else if !(self.public_ip is V4) {
            Some(RelayConfigError::NotIpv4)
        } else {
            None
        }
    }

    /// Whether a relay can be started with this configuration.
    pub fn validate(&self) -> (result: Result<(), RelayConfigError>)
        ensures
            match self.fault() {
                Some(fault) => result == Err::<(), RelayConfigError>(fault),
                None => result is Ok,
            },
    {
        let (min_port, max_port) = self.relay_ports;
        if min_port == 0 || max_port < min_port {
            return Err(RelayConfigError::NotARange { min_port, max_port });
        }
        match self.public_ip {
            IpAddress::V4(_) => Ok(()),
            IpAddress::V6(_) => Err(RelayConfigError::NotIpv4),
        }
    }

    /// The port to bind for a relay that starts: none is bound where the configuration describes no
    /// relay that works.
    pub fn port_to_bind(&self) -> (result: Result<u16, RelayError>)
        ensures
            result == match self.fault() {
                Some(fault) => Err::<u16, RelayError>(RelayError::Config(fault)),
                None => Ok::<u16, RelayError>(self.listen_port),
            },
    {
        match self.validate() {
            Ok(()) => Ok(self.listen_port),
            Err(fault) => Err(RelayError::Config(fault)),
        }
    }

    /// Why a relay would not start whose port could not be bound.
    pub fn bind_failed(&self, source: String) -> (error: RelayError)
        ensures
            error == (RelayError::Bind { port: self.listen_port, source }),
    {
        RelayError::Bind { port: self.listen_port, source }
    }
}

/// The key that TURN derives from a username, a realm and a password.
pub uninterp spec fn auth_key(
    username: Seq<char>,
    realm: Seq<char>,
    password: Seq<char>,
) -> Seq<u8>;

/// `turn::auth::generate_auth_key`: the key for these three, which depends on nothing else.
#[verifier::external_body]
fn generate_auth_key(username: &str, realm: &str, password: &str) -> (key: Vec<u8>)
    ensures
        key@ == auth_key(username@, realm@, password@),
{
    turn::auth::generate_auth_key(username, realm, password)
}

/// Why a credential is not accepted.
#[derive(Debug, Clone, Copy, PartialEq, Eq, Structural)]
pub enum AuthError {
    NoSuchUser,
}

/// Accepts a fixed set of credentials.
#[derive(Debug)]
pub struct StaticAuth {
    pub users: Vec<RelayUser>,
}

/// The password that goes with `username`: that of the last user of that name.
pub open spec fn password_of(users: Seq<RelayUser>, username: Seq<char>) -> Option<Seq<char>>
    decreases users.len(),
{
    if users.len() == 0 {
        None
    } else if users.last().username@ == username {
        Some(users.last().password@)
    } else {
        password_of(users.drop_last(), username)
    }
}

/// The place of the last user of that name.
fn find_user(users: &Vec<RelayUser>, username: &String) -> (found: Option<usize>)
    ensures
        found is Some <==> password_of(users@, username@) is Some,
        found matches Some(i) ==> {
            &&& i < users.len()
            &&& users[i as int].username@ == username@
            &&& password_of(users@, username@) == Some(users[i as int].password@)
        },
{
    let mut i: usize = users.len();
    assert(users@.take(i as int) =~= users@);
    while i > 0
        invariant
            i <= users.len(),
            password_of(users@.take(i as int), username@) == password_of(users@, username@),
        decreases i,
    {
        assert(users@.take(i as int).drop_last() =~= users@.take(i - 1));
        if users[i - 1].username == *username {
            return Some(i - 1);
        }
        i -= 1;
    }
    None
}

impl StaticAuth {
    /// The key of a client that presents `username`, if there is such a user.
    pub fn auth_handle(&self, username: &str, realm: &str) -> (result: Result<Vec<u8>, AuthError>)
        ensures
            match password_of(self.users@, username@) {
                Some(password) => result matches Ok(key) && key@ == auth_key(
                    username@,
                    realm@,
                    password,
                ),
                None => result == Err::<Vec<u8>, AuthError>(AuthError::NoSuchUser),
            },
    {
        match find_user(&self.users, &username.to_owned()) {
            Some(i) => Ok(generate_auth_key(username, realm, self.users[i].password.as_str())),
            None => Err(AuthError::NoSuchUser),
        }
    }
}

impl RelayCredentials {
    /// The fixed credentials, if that is what these are; credentials derived from a secret are
    /// checked against the clock instead.
    pub fn into_static(self) -> (result: Result<StaticAuth, String>)
        ensures
            match self {
                RelayCredentials::Static { username, password } => {
                    &&& result is Ok
                    &&& result->Ok_0.users@.len() == 1
                    &&& result->Ok_0.users@[0] == (RelayUser { username, password })
                },
                RelayCredentials::Users(users) => result == Ok::<StaticAuth, String>(
                    StaticAuth { users },
                ),
                RelayCredentials::Secret(secret) => result == Err::<StaticAuth, String>(secret),
            },
    {
        match self {
            RelayCredentials::Static { username, password } => {
                let mut users: Vec<RelayUser> = Vec::new();
                users.push(RelayUser { username, password });
                Ok(StaticAuth { users })
            },
            RelayCredentials::Users(users) => Ok(StaticAuth { users }),
            RelayCredentials::Secret(secret) => Err(secret),
        }
    }
}

/// A relay works exactly when it hands out an IPv4 address, and its ports are a range that starts
/// above zero and has one port at least. A range that is none is what is said first.
pub proof fn law_a_working_relay_has_a_range_and_an_address(config: RelayConfig)
    ensures
        ({
            let (min_port, max_port) = config.relay_ports;
            let range = 0 < min_port && min_port <= max_port;
            &&& config.fault() is None <==> range && config.public_ip is V4
            &&& !range ==> config.fault() == Some(
                RelayConfigError::NotARange { min_port, max_port },
            )
            &&& range && config.public_ip is V6 ==> config.fault() == Some(
                RelayConfigError::NotIpv4,
            )
        }),
{
}

/// A user's password is the one that stands last beside the name; a name that does not stand there
/// has none.
pub proof fn law_the_last_password_counts(users: Seq<RelayUser>, username: Seq<char>, i: int)
    ensures
        0 <= i < users.len() && users[i].username@ == username && (forall|j: int|
            i < j < users.len() ==> (#[trigger] users[j]).username@ != username) ==> password_of(
            users,
            username,
        ) == Some(users[i].password@),
        (forall|j: int| 0 <= j < users.len() ==> (#[trigger] users[j]).username@ != username)
            ==> password_of(users, username) is None,
    decreases users.len(),
{
    if users.len() > 0 {
        let earlier = users.drop_last();
        assert(users[users.len() - 1] == users.last());
        assert(forall|j: int| 0 <= j < earlier.len() ==> #[trigger] earlier[j] == users[j]);
        law_the_last_password_counts(earlier, username, i);
    }
}

/// What is said of ports that are no range names both of them.
pub proof fn law_a_faulty_range_is_named(min_port: u16, max_port: u16)
    ensures
        config_fault_text(RelayConfigError::NotARange { min_port, max_port })
            == "relay port range "@ + text::decimal_digits(min_port as nat) + seq!['-']
            + text::decimal_digits(max_port as nat) + " is not a range"@,
{
    reveal_strlit("-");
    assert("-"@ =~= seq!['-']);
}

} // verus!
