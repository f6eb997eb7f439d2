//! The relay's settings, as a deployment writes them down.

use vstd::prelude::*;

use super::relay::{IpAddress, RelayConfig, RelayCredentials, RelayUser, DEFAULT_RELAY_PORTS};
use crate::text;

verus! {

/// What a deployment says of its relay. `None` is a variable that is not set.
#[derive(Debug)]
pub struct RelaySettings {
    /// `user:password` pairs, comma separated — one per application sharing this relay.
    pub users: Option<String>,
    /// Shorthand for a single pair, merged with `users` if both are set.
    pub user: Option<String>,
    pub password: Option<String>,
    pub public_ip: PublicIp,
    pub realm: Option<String>,
    /// The relay's listener.
    pub port: Option<String>,
    /// The range allocations are drawn from, `MIN-MAX`.
    pub relay_ports: Option<String>,
}

/// The address handed to players, as the deployment gives it.
#[derive(Debug, Clone, Copy, PartialEq, Eq)]
pub enum PublicIp {
    Unset,
    /// Something is there, and it is not an address.
    Unreadable,
    Address(IpAddress),
}

/// What is wrong with the settings.
#[derive(Debug, PartialEq, Eq)]
pub enum SettingsError {
    /// The range is not two ports with a dash between them.
    NotMinMax { raw: String },
    /// One end of the range is not a port.
    NotARelayPort { raw: String },
    /// The listener's port is not a port.
    NotAPort { raw: String },
    /// An entry of the users has no colon.
    NotAPair { entry: String },
    /// An entry of the users has an empty half.
    EmptyHalf { entry: String },
    /// The shorthand has a user and no password.
    PasswordMissing,
    /// The shorthand has a password and no user.
    UserMissing,
    /// There are credentials, and no address to hand out.
    PublicIpMissing,
    /// The address is not one.
    PublicIpUnreadable,
}

/// The mathematical content of a [`SettingsError`].
pub enum SettingsFault {
    NotMinMax { raw: Seq<char> },
    NotARelayPort { raw: Seq<char> },
    NotAPort { raw: Seq<char> },
    NotAPair { entry: Seq<char> },
    EmptyHalf { entry: Seq<char> },
    PasswordMissing,
    UserMissing,
    PublicIpMissing,
    PublicIpUnreadable,
}

impl View for SettingsError {
    type V = SettingsFault;

    open spec fn view(&self) -> SettingsFault {
        match *self {
            SettingsError::NotMinMax { raw } => SettingsFault::NotMinMax { raw: raw@ },
            SettingsError::NotARelayPort { raw } => SettingsFault::NotARelayPort { raw: raw@ },
            SettingsError::NotAPort { raw } => SettingsFault::NotAPort { raw: raw@ },
            SettingsError::NotAPair { entry } => SettingsFault::NotAPair { entry: entry@ },
            SettingsError::EmptyHalf { entry } => SettingsFault::EmptyHalf { entry: entry@ },
            SettingsError::PasswordMissing => SettingsFault::PasswordMissing,
            SettingsError::UserMissing => SettingsFault::UserMissing,
            SettingsError::PublicIpMissing => SettingsFault::PublicIpMissing,
            SettingsError::PublicIpUnreadable => SettingsFault::PublicIpUnreadable,
        }
    }
}

/// What is said about settings that are wrong.
pub open spec fn fault_text(fault: SettingsFault) -> Seq<char> {
    match fault {
        SettingsFault::NotMinMax { raw } => "TURN_RELAY_PORTS wants MIN-MAX, got "@ + raw,
        SettingsFault::NotARelayPort { raw } => "TURN_RELAY_PORTS: "@ + raw + " is not a port"@,
        SettingsFault::NotAPort { raw } => "TURN_PORT is not a port: "@ + raw,
        SettingsFault::NotAPair { entry } => "TURN_USERS wants `user:password`, got `"@ + entry
            + "`"@,
        SettingsFault::EmptyHalf { entry } => "TURN_USERS entry `"@ + entry
            + "` has an empty half"@,
        SettingsFault::PasswordMissing => "TURN_USER is set but TURN_PASSWORD is not"@,
        SettingsFault::UserMissing => "TURN_PASSWORD is set but TURN_USER is not"@,
        SettingsFault::PublicIpMissing => {
            "relay credentials are set, so TURN_PUBLIC_IP must be too"@
        },
        SettingsFault::PublicIpUnreadable => "TURN_PUBLIC_IP is not an IP address"@,
    }
}

/// `quoted` between `before` and `after`.
fn around(before: &str, quoted: &String, after: &str) -> (text: String)
    ensures
        text@ == before@ + quoted@ + after@,
{
    let mut text = before.to_owned();
    text.append(quoted.as_str());
    text.append(after);
    text
}

impl SettingsError {
    /// What is said about this.
    pub fn reason(&self) -> (reason: String)
        ensures
            reason@ == fault_text(self@),
    {
        match self {
            SettingsError::NotMinMax { raw } => {
                let mut reason = "TURN_RELAY_PORTS wants MIN-MAX, got ".to_owned();
                reason.append(raw.as_str());
                reason
            },
            SettingsError::NotARelayPort { raw } => {
                around("TURN_RELAY_PORTS: ", raw, " is not a port")
            },
            SettingsError::NotAPort { raw } => {
                let mut reason = "TURN_PORT is not a port: ".to_owned();
                reason.append(raw.as_str());
                reason
            },
            SettingsError::NotAPair { entry } => {
                around("TURN_USERS wants `user:password`, got `", entry, "`")
            },
            SettingsError::EmptyHalf { entry } => {
                around("TURN_USERS entry `", entry, "` has an empty half")
            },
            SettingsError::PasswordMissing => {
                "TURN_USER is set but TURN_PASSWORD is not".to_owned()
            },
            SettingsError::UserMissing => "TURN_PASSWORD is set but TURN_USER is not".to_owned(),
            SettingsError::PublicIpMissing => {
                "relay credentials are set, so TURN_PUBLIC_IP must be too".to_owned()
            },
            SettingsError::PublicIpUnreadable => "TURN_PUBLIC_IP is not an IP address".to_owned(),
        }
    }
}

/// The view of a setting.
pub open spec fn setting_view(setting: Option<String>) -> Option<Seq<char>> {
    match setting {
        Some(text) => Some(text@),
        None => None,
    }
}

/// What comes before the first `separator`.
pub open spec fn before(raw: Seq<char>, separator: char) -> Seq<char> {
    raw.take(text::position(raw, separator))
}

/// What comes after the first `separator`.
pub open spec fn after(raw: Seq<char>, separator: char) -> Seq<char> {
    raw.skip(text::position(raw, separator) + 1)
}

/// Whether `separator` stands in `raw` at all.
pub open spec fn is_split(raw: Seq<char>, separator: char) -> bool {
    text::position(raw, separator) < raw.len()
}

/// The range a deployment asks for: `MIN-MAX`, or the default.
pub open spec fn read_range(setting: Option<Seq<char>>) -> Result<(u16, u16), SettingsFault> {
    match setting {
        None => Ok(DEFAULT_RELAY_PORTS),
        Some(raw) => {
            let min = before(raw, '-');
            let max = after(raw, '-');
            if !is_split(raw, '-') {
                Err(SettingsFault::NotMinMax { raw })
            } else if text::port_value(text::trimmed(min)) is None {
                Err(SettingsFault::NotARelayPort { raw: min })
            } else if text::port_value(text::trimmed(max)) is None {
                Err(SettingsFault::NotARelayPort { raw: max })
            } else {
                Ok(
                    (
                        text::port_value(text::trimmed(min))->0,
                        text::port_value(text::trimmed(max))->0,
                    ),
                )
            }
        },
    }
}

/// `MIN-MAX`, or the default range.
pub fn relay_ports(setting: &Option<String>) -> (result: Result<(u16, u16), SettingsError>)
    ensures
        match read_range(setting_view(*setting)) {
            Ok(range) => result matches Ok(ports) && ports == range,
            Err(fault) => result matches Err(error) && error@ == fault,
        },
{
    let raw: &str = match setting {
        Some(raw) => raw.as_str(),
        None => {
            return Ok(DEFAULT_RELAY_PORTS);
        },
    };
    let length = raw.unicode_len();
    let at = text::find(raw, '-');
    if at == length {
        return Err(SettingsError::NotMinMax { raw: raw.to_owned() });
    }
    let min = raw.substring_char(0, at);
    let max = raw.substring_char(at + 1, length);
    assert(min@ =~= before(raw@, '-'));
    assert(max@ =~= after(raw@, '-'));
    let min_port = match text::parse_port(text::trim(min)) {
        Some(port) => port,
        None => {
            return Err(SettingsError::NotARelayPort { raw: min.to_owned() });
        },
    };
    let max_port = match text::parse_port(text::trim(max)) {
        Some(port) => port,
        None => {
            return Err(SettingsError::NotARelayPort { raw: max.to_owned() });
        },
    };
    Ok((min_port, max_port))
}

/// The pairs that the first of `entries` name: a later one of the same user replaces an earlier
/// one, and the first that is not a pair is what is wrong.
pub open spec fn read_users(entries: Seq<Seq<char>>) -> Result<
    Map<Seq<char>, Seq<char>>,
    SettingsFault,
>
    decreases entries.len(),
{
    if entries.len() == 0 {
        Ok(Map::empty())
    } else {
        match read_users(entries.drop_last()) {
            Err(fault) => Err(fault),
            Ok(users) => {
                let entry = text::trimmed(entries.last());
                let user = before(entry, ':');
                let password = after(entry, ':');
                if entry.len() == 0 {
                    Ok(users)
                } else if !is_split(entry, ':') {
                    Err(SettingsFault::NotAPair { entry })
                } else if user.len() == 0 || password.len() == 0 {
                    Err(SettingsFault::EmptyHalf { entry })
                } else {
                    Ok(users.insert(user, password))
                }
            },
        }
    }
}

/// Every credential the relay accepts, from the list and the single-pair shorthand.
///
/// Half of the shorthand is a mistake worth naming: ignoring it silently would leave one
/// application unable to allocate, and only that application's players would ever see it.
pub open spec fn all_users(
    list: Option<Seq<char>>,
    user: Option<Seq<char>>,
    password: Option<Seq<char>>,
) -> Result<Map<Seq<char>, Seq<char>>, SettingsFault> {
    let listed = match list {
        Some(raw) => read_users(text::fields(raw, ',')),
        None => Ok(Map::empty()),
    };
    match listed {
        Err(fault) => Err(fault),
        Ok(users) => match (user, password) {
            (Some(user), Some(password)) => if user.len() > 0 && password.len() > 0 {
                Ok(users.insert(user, password))
            } else {
                Ok(users)
            },
            (Some(_), None) => Err(SettingsFault::PasswordMissing),
            (None, Some(_)) => Err(SettingsFault::UserMissing),
            (None, None) => Ok(users),
        },
    }
}

/// What a list of users says: who there is, and with which password. No name occurs twice.
pub open spec fn lists_users(users: Seq<RelayUser>, named: Map<Seq<char>, Seq<char>>) -> bool {
    &&& forall|i: int, j: int|
        0 <= i < j < users.len() ==> #[trigger] users[i].username@ != #[trigger] users[j].username@
    &&& forall|i: int|
        0 <= i < users.len() ==> {
            &&& named.dom().contains((#[trigger] users[i]).username@)
            &&& named[users[i].username@] == users[i].password@
        }
    &&& forall|name: Seq<char>| #[trigger]
        named.dom().contains(name) ==> exists|i: int|
            0 <= i < users.len() && (#[trigger] users[i]).username@ == name
}

/// `username` has `password` from here on.
fn put_user(users: &mut Vec<RelayUser>, username: String, password: String, Ghost(named): Ghost<
    Map<Seq<char>, Seq<char>>,
>)
    requires
        lists_users(old(users)@, named),
    ensures
        lists_users(final(users)@, named.insert(username@, password@)),
{
    let mut i: usize = 0;
    while i < users.len()
        invariant
            i <= users.len(),
            users@ == old(users)@,
            lists_users(users@, named),
            forall|j: int| 0 <= j < i ==> (#[trigger] users@[j]).username@ != username@,
        decreases users.len() - i,
    {
        if users[i].username == username {
            let ghost name = username@;
            let ghost word = password@;
            users.set(i, RelayUser { username, password });
            proof {
                let now = named.insert(name, word);
                assert forall|other: Seq<char>| #[trigger] now.dom().contains(other) implies exists|
                    k: int,
                |
                    0 <= k < users@.len() && (#[trigger] users@[k]).username@ == other by {
                    if other == name {
                        assert(users@[i as int].username@ == name);
                    } else {
                        let k = choose|k: int|
                            0 <= k < old(users)@.len() && (#[trigger] old(users)@[k]).username@
                                == other;
                        assert(users@[k].username@ == other);
                    }
                }
            }
            return;
        }
        i += 1;
    }
    let ghost name = username@;
    let ghost word = password@;
    users.push(RelayUser { username, password });
    proof {
        let now = named.insert(name, word);
        assert forall|other: Seq<char>| #[trigger] now.dom().contains(other) implies exists|k: int|
            0 <= k < users@.len() && (#[trigger] users@[k]).username@ == other by {
            if other == name {
                assert(users@[users@.len() - 1].username@ == name);
            } else {
                let k = choose|k: int|
                    0 <= k < old(users)@.len() && (#[trigger] old(users)@[k]).username@ == other;
                assert(users@[k].username@ == other);
            }
        }
    }
}

/// Take one entry of the list in.
fn read_entry(
    users: &mut Vec<RelayUser>,
    field: &str,
    Ghost(done): Ghost<Seq<Seq<char>>>,
) -> (result: Result<(), SettingsError>)
    requires
        read_users(done) is Ok,
        lists_users(old(users)@, read_users(done)->Ok_0),
    ensures
        match read_users(done.push(field@)) {
            Ok(named) => result is Ok && lists_users(final(users)@, named),
            Err(fault) => result matches Err(error) && error@ == fault,
        },
{
    assert(done.push(field@).drop_last() =~= done);
    let entry = text::trim(field);
    let length = entry.unicode_len();
    if length == 0 {
        return Ok(());
    }
    let at = text::find(entry, ':');
    if at == length {
        return Err(SettingsError::NotAPair { entry: entry.to_owned() });
    }
    let user = entry.substring_char(0, at);
    let password = entry.substring_char(at + 1, length);
    assert(user@ =~= before(entry@, ':'));
    assert(password@ =~= after(entry@, ':'));
    if at == 0 || at + 1 == length {
        return Err(SettingsError::EmptyHalf { entry: entry.to_owned() });
    }
    put_user(users, user.to_owned(), password.to_owned(), Ghost(read_users(done)->Ok_0));
    Ok(())
}

/// Whatever follows, an entry that is wrong is what is wrong with the list.
proof fn lemma_first_fault_stays(entries: Seq<Seq<char>>, n: int)
    requires
        0 <= n <= entries.len(),
        read_users(entries.take(n)) is Err,
    ensures
        read_users(entries) == read_users(entries.take(n)),
    decreases entries.len(),
{
    if n == entries.len() {
        assert(entries.take(n) =~= entries);
    } else {
        assert(entries.drop_last().take(n) =~= entries.take(n));
        lemma_first_fault_stays(entries.drop_last(), n);
    }
}

/// The pairs that the list names.
fn listed_users(raw: &str) -> (result: Result<Vec<RelayUser>, SettingsError>)
    ensures
        match read_users(text::fields(raw@, ',')) {
            Ok(named) => result matches Ok(users) && lists_users(users@, named),
            Err(fault) => result matches Err(error) && error@ == fault,
        },
{
    let length = raw.unicode_len();
    let mut users: Vec<RelayUser> = Vec::new();
    let mut from: usize = 0;
    let ghost mut done: Seq<Seq<char>> = Seq::empty();
    let ghost all = text::fields(raw@, ',');
    assert(raw@.skip(0) =~= raw@);
    assert(all =~= done + text::fields(raw@.skip(0), ','));
    loop
        invariant
            from <= length,
            length == raw@.len(),
            all == text::fields(raw@, ','),
            all == done + text::fields(raw@.skip(from as int), ','),
            read_users(done) is Ok,
            lists_users(users@, read_users(done)->Ok_0),
        decreases length - from,
    {
        let rest = raw.substring_char(from, length);
        assert(rest@ =~= raw@.skip(from as int));
        let at = text::find(rest, ',');
        let field = rest.substring_char(0, at);
        let last = at == length - from;
        proof {
            if last {
                assert(field@ =~= rest@);
                assert(all =~= done.push(field@));
            } else {
                assert(field@ =~= rest@.take(at as int));
                assert(rest@.skip(at + 1) =~= raw@.skip(from + at + 1));
                assert(all =~= done.push(field@) + text::fields(raw@.skip(from + at + 1), ','));
            }
            assert(all.take(done.len() as int + 1) =~= done.push(field@));
        }
        match read_entry(&mut users, field, Ghost(done)) {
            Ok(()) => {},
            Err(error) => {
                proof {
                    lemma_first_fault_stays(all, done.len() as int + 1);
                }
                return Err(error);
            },
        }
        proof {
            done = done.push(field@);
        }
        if last {
            return Ok(users);
        }
        from = from + at + 1;
    }
}

/// Every credential this relay accepts, from the list and the single-pair shorthand.
pub fn users(
    list: &Option<String>,
    user: &Option<String>,
    password: &Option<String>,
) -> (result: Result<Vec<RelayUser>, SettingsError>)
    ensures
        match all_users(setting_view(*list), setting_view(*user), setting_view(*password)) {
            Ok(named) => result matches Ok(users) && lists_users(users@, named),
            Err(fault) => result matches Err(error) && error@ == fault,
        },
{
    let mut users: Vec<RelayUser> = Vec::new();
    let ghost mut named: Map<Seq<char>, Seq<char>> = Map::empty();
    if let Some(raw) = list {
        users = match listed_users(raw.as_str()) {
            Ok(users) => users,
            Err(error) => {
                return Err(error);
            },
        };
        proof {
            named = read_users(text::fields(raw@, ','))->Ok_0;
        }
    }
    match (user, password) {
        (Some(user), Some(password)) => {
            if !user.as_str().is_empty() && !password.as_str().is_empty() {
                put_user(&mut users, user.clone(), password.clone(), Ghost(named));
            }
        },
        (Some(_), None) => {
            return Err(SettingsError::PasswordMissing);
        },
        (None, Some(_)) => {
            return Err(SettingsError::UserMissing);
        },
        (None, None) => {},
    }
    Ok(users)
}

/// The view of a relay's configuration, with its users by name.
pub struct RelayPlan {
    pub public_ip: IpAddress,
    pub listen_port: u16,
    pub relay_ports: (u16, u16),
    pub realm: Seq<char>,
    pub users: Map<Seq<char>, Seq<char>>,
}

/// The relay that the settings ask for: `None` when there are no credentials at all.
pub open spec fn planned(settings: RelaySettings) -> Result<Option<RelayPlan>, SettingsFault> {
    match all_users(
        setting_view(settings.users),
        setting_view(settings.user),
        setting_view(settings.password),
    ) {
        Err(fault) => Err(fault),
        Ok(users) => if users.dom() == Set::<Seq<char>>::empty() {
            Ok(None)
        } else {
            match settings.public_ip {
                PublicIp::Unset => Err(SettingsFault::PublicIpMissing),
                PublicIp::Unreadable => Err(SettingsFault::PublicIpUnreadable),
                PublicIp::Address(public_ip) => match read_range(
                    setting_view(settings.relay_ports),
                ) {
                    Err(fault) => Err(fault),
                    Ok(relay_ports) => match settings.port {
                        Some(raw) if text::port_value(raw@) is None => Err(
                            SettingsFault::NotAPort { raw: raw@ },
                        ),
                        _ => Ok(
                            Some(
                                RelayPlan {
                                    public_ip,
                                    listen_port: match settings.port {
                                        Some(raw) => text::port_value(raw@)->0,
                                        None => super::relay::DEFAULT_LISTEN_PORT,
                                    },
                                    relay_ports,
                                    realm: match settings.realm {
                                        Some(realm) => realm@,
                                        None => "bevy_ensemble"@,
                                    },
                                    users,
                                },
                            ),
                        ),
                    },
                },
            }
        },
    }
}

/// Whether `config` is what was planned.
pub open spec fn carries_out(config: RelayConfig, plan: RelayPlan) -> bool {
    &&& config.public_ip == plan.public_ip
    &&& config.listen_port == plan.listen_port
    &&& config.relay_ports == plan.relay_ports
    &&& config.realm@ == plan.realm
    &&& config.credentials matches RelayCredentials::Users(users) && lists_users(
        users@,
        plan.users,
    )
}

/// The relay's configuration, or `None` when this deployment has no relay.
pub fn relay_config(settings: RelaySettings) -> (result: Result<Option<RelayConfig>, SettingsError>)
    ensures
        match planned(settings) {
            Err(fault) => result matches Err(error) && error@ == fault,
            Ok(None) => result matches Ok(config) && config is None,
            Ok(Some(plan)) => result matches Ok(Some(config)) && carries_out(config, plan),
        },
{
    let users = match users(&settings.users, &settings.user, &settings.password) {
        Ok(users) => users,
        Err(error) => {
            return Err(error);
        },
    };
    let ghost named = all_users(
        setting_view(settings.users),
        setting_view(settings.user),
        setting_view(settings.password),
    )->Ok_0;
    if users.len() == 0 {
        assert(named.dom() =~= Set::<Seq<char>>::empty());
        return Ok(None);
    }
    assert(named.dom().contains(users@[0].username@));
    let public_ip = match settings.public_ip {
        PublicIp::Unset => {
            return Err(SettingsError::PublicIpMissing);
        },
        PublicIp::Unreadable => {
            return Err(SettingsError::PublicIpUnreadable);
        },
        PublicIp::Address(public_ip) => public_ip,
    };
    let mut config = RelayConfig::new(public_ip, RelayCredentials::Users(users));
    if let Some(realm) = settings.realm {
        config.realm = realm;
    }
    config.relay_ports = match relay_ports(&settings.relay_ports) {
        Ok(ports) => ports,
        Err(error) => {
            return Err(error);
        },
    };
    if let Some(raw) = settings.port {
        config.listen_port = match text::parse_port(raw.as_str()) {
            Some(port) => port,
            None => {
                return Err(SettingsError::NotAPort { raw });
            },
        };
    }
    Ok(Some(config))
}

/// `one`, then `separator`, then `other`.
pub open spec fn pair(one: Seq<char>, separator: char, other: Seq<char>) -> Seq<char> {
    one.push(separator) + other
}

proof fn lemma_pair(one: Seq<char>, separator: char, other: Seq<char>)
    requires
        !one.contains(separator),
    ensures
        is_split(pair(one, separator, other), separator),
        before(pair(one, separator, other), separator) == one,
        after(pair(one, separator, other), separator) == other,
{
    let raw = pair(one, separator, other);
    assert forall|i: int| 0 <= i < one.len() implies raw[i] != separator by {
        assert(raw[i] == one[i]);
        assert(one.contains(one[i]));
    }
    text::law_the_first_place_is_found(raw, separator, one.len() as int);
    assert(before(raw, separator) =~= one);
    assert(after(raw, separator) =~= other);
}

proof fn lemma_unsplit(raw: Seq<char>, separator: char)
    requires
        !raw.contains(separator),
    ensures
        !is_split(raw, separator),
{
    assert forall|i: int| 0 <= i < raw.len() implies raw[i] != separator by {
        assert(raw.contains(raw[i]));
    }
    text::law_the_first_place_is_found(raw, separator, raw.len() as int);
}

/// A range is what stands around the first dash, each end read as a port without the blanks around
/// it. What has no dash is no range, and an end that is no port is what is wrong, the first one
/// first. Without a setting there are a hundred and one ports, from 49160 to 49260.
pub proof fn law_a_range_is_two_ports(raw: Seq<char>, min: Seq<char>, max: Seq<char>)
    requires
        !raw.contains('-'),
        !min.contains('-'),
    ensures
        read_range(None) == Ok::<(u16, u16), SettingsFault>((49_160, 49_260)),
        read_range(Some(raw)) == Err::<(u16, u16), SettingsFault>(SettingsFault::NotMinMax { raw }),
        ({
            let low = text::port_value(text::trimmed(min));
            let high = text::port_value(text::trimmed(max));
            read_range(Some(pair(min, '-', max))) == match (low, high) {
                (Some(low), Some(high)) => Ok::<(u16, u16), SettingsFault>((low, high)),
                (None, _) => Err(SettingsFault::NotARelayPort { raw: min }),
                (_, None) => Err(SettingsFault::NotARelayPort { raw: max }),
            }
        }),
{
    lemma_pair(min, '-', max);
    lemma_unsplit(raw, '-');
}

/// Two ports that are written down with a dash between them are read as that range.
pub proof fn law_a_range_reads_back(low: u16, high: u16)
    ensures
        read_range(
            Some(pair(text::decimal_digits(low as nat), '-', text::decimal_digits(high as nat))),
        ) == Ok::<(u16, u16), SettingsFault>((low, high)),
{
    let min = text::decimal_digits(low as nat);
    let max = text::decimal_digits(high as nat);
    text::law_decimal_reads_back(low as nat);
    text::law_decimal_reads_back(high as nat);
    text::law_what_is_white();
    text::law_a_port_reads_back(low as nat);
    text::law_a_port_reads_back(high as nat);
    assert('0' <= min[0] <= '9' && '0' <= min[min.len() - 1] <= '9');
    assert('0' <= max[0] <= '9' && '0' <= max[max.len() - 1] <= '9');
    text::law_trimming_leaves_what_is_trimmed(min);
    text::law_trimming_leaves_what_is_trimmed(max);
    if min.contains('-') {
        let i = choose|i: int| 0 <= i < min.len() && min[i] == '-';
        assert('0' <= min[i] <= '9');
    }
    lemma_pair(min, '-', max);
}

/// An entry of the list names a user and, after the first colon, a password, which it has from then
/// on. A blank entry names nobody; one without a colon, or with nothing on one side of it, is what
/// is wrong. After something wrong nothing more is read.
pub proof fn law_an_entry_names_a_user(
    entries: Seq<Seq<char>>,
    field: Seq<char>,
    user: Seq<char>,
    password: Seq<char>,
)
    requires
        !user.contains(':'),
    ensures
        ({
            let so_far = read_users(entries);
            let read = read_users(entries.push(field));
            let entry = text::trimmed(field);
            &&& so_far is Err ==> read == so_far
            &&& so_far is Ok && entry.len() == 0 ==> read == so_far
            &&& so_far is Ok && entry.len() > 0 && !entry.contains(':') ==> read == Err::<
                Map<Seq<char>, Seq<char>>,
                SettingsFault,
            >(SettingsFault::NotAPair { entry })
            &&& so_far is Ok && entry == pair(user, ':', password) ==> if user.len() > 0
                && password.len() > 0 {
                read == Ok::<Map<Seq<char>, Seq<char>>, SettingsFault>(
                    so_far->Ok_0.insert(user, password),
                )
            } else {
                read == Err::<Map<Seq<char>, Seq<char>>, SettingsFault>(
                    SettingsFault::EmptyHalf { entry },
                )
            }
            &&& read_users(Seq::empty()) == Ok::<Map<Seq<char>, Seq<char>>, SettingsFault>(
                Map::empty(),
            )
        }),
{
    assert(entries.push(field).drop_last() =~= entries);
    lemma_pair(user, ':', password);
    let entry = text::trimmed(field);
    if !entry.contains(':') {
        lemma_unsplit(entry, ':');
    }
}

/// The shorthand adds its user to those of the list, or changes the password of one. One half of it
/// without the other is wrong; two halves of which one is empty add nobody. What is wrong with the
/// list is said first.
pub proof fn law_the_shorthand_adds_a_user(
    list: Option<Seq<char>>,
    user: Seq<char>,
    password: Seq<char>,
)
    ensures
        ({
            let listed = all_users(list, None, None);
            let both = all_users(list, Some(user), Some(password));
            &&& list is None ==> listed == Ok::<Map<Seq<char>, Seq<char>>, SettingsFault>(
                Map::empty(),
            )
            &&& list is Some ==> listed == read_users(text::fields(list->0, ','))
            &&& listed is Err ==> both == listed && all_users(list, Some(user), None) == listed
                && all_users(list, None, Some(password)) == listed
            &&& listed is Ok ==> {
                &&& all_users(list, Some(user), None) == Err::<
                    Map<Seq<char>, Seq<char>>,
                    SettingsFault,
                >(SettingsFault::PasswordMissing)
                &&& all_users(list, None, Some(password)) == Err::<
                    Map<Seq<char>, Seq<char>>,
                    SettingsFault,
                >(SettingsFault::UserMissing)
                &&& both is Ok
                &&& user.len() > 0 && password.len() > 0 ==> both->Ok_0 == listed->Ok_0.insert(
                    user,
                    password,
                )
                &&& user.len() == 0 || password.len() == 0 ==> both == listed
            }
        }),
{
}

/// A relay is planned exactly for settings that name a user: without one there is none, whatever
/// else is set. With one there must be an address to hand out, and the ports must be ports; what is
/// set is taken, and what is not is TURN's own port and the name of this project.
pub proof fn law_a_relay_is_planned_for_users(settings: RelaySettings)
    ensures
        ({
            let users = all_users(
                setting_view(settings.users),
                setting_view(settings.user),
                setting_view(settings.password),
            );
            let ports = read_range(setting_view(settings.relay_ports));
            let plan = planned(settings);
            let nobody = users is Ok && forall|name: Seq<char>|
                !(#[trigger] users->Ok_0.dom().contains(name));
            let somebody = users is Ok && !nobody;
            let bad_port = settings.port is Some && text::port_value((settings.port->0)@) is None;
            &&& users is Err ==> plan == Err::<Option<RelayPlan>, SettingsFault>(users->Err_0)
            &&& nobody ==> plan == Ok::<Option<RelayPlan>, SettingsFault>(None)
            &&& somebody && settings.public_ip is Unset ==> plan == Err::<
                Option<RelayPlan>,
                SettingsFault,
            >(SettingsFault::PublicIpMissing)
            &&& somebody && settings.public_ip is Unreadable ==> plan == Err::<
                Option<RelayPlan>,
                SettingsFault,
            >(SettingsFault::PublicIpUnreadable)
            &&& somebody && settings.public_ip is Address && ports is Err ==> plan == Err::<
                Option<RelayPlan>,
                SettingsFault,
            >(ports->Err_0)
            &&& somebody && settings.public_ip is Address && ports is Ok && bad_port ==> plan
                == Err::<Option<RelayPlan>, SettingsFault>(
                SettingsFault::NotAPort { raw: (settings.port->0)@ },
            )
            &&& somebody && settings.public_ip is Address && ports is Ok && !bad_port ==> {
                &&& plan is Ok && plan->Ok_0 is Some
                &&& plan->Ok_0->0.public_ip == settings.public_ip->Address_0
                &&& plan->Ok_0->0.relay_ports == ports->Ok_0
                &&& plan->Ok_0->0.users == users->Ok_0
                &&& settings.port is None ==> plan->Ok_0->0.listen_port == 3478
                &&& settings.port is Some ==> Some(plan->Ok_0->0.listen_port)
                    == text::port_value((settings.port->0)@)
                &&& settings.realm is None ==> plan->Ok_0->0.realm == "bevy_ensemble"@
                &&& settings.realm is Some ==> plan->Ok_0->0.realm == (settings.realm->0)@
            }
        }),
{
    let users = all_users(
        setting_view(settings.users),
        setting_view(settings.user),
        setting_view(settings.password),
    );
    if users is Ok {
        let named = users->Ok_0;
        if forall|name: Seq<char>| !(#[trigger] named.dom().contains(name)) {
            assert(named.dom() =~= Set::<Seq<char>>::empty());
        } else {
            let name = choose|name: Seq<char>| #[trigger] named.dom().contains(name);
            assert(named.dom() != Set::<Seq<char>>::empty());
        }
    }
}

} // verus!
