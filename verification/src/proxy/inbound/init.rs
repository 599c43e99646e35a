//! Setting servers up: which kind a server is, who may use it, and who has to be told.

use crate::config::{texts, user_views, AuthUser, AuthUserView};
use crate::proxy::connections::{exactly, lemma_pick, lemma_picked, picked_so_far};
use crate::proxy::credentials::{credential_hash, credential_of};
use crate::proxy::inbound::anytls::AnytlsInbound;
use crate::proxy::inbound::live::connected_as;
use crate::proxy::inbound::shadowquic::ShadowQuicInbound;
use crate::proxy::inbound::users::{find_user, unique_users, user_index, with_user, without_user};
use crate::proxy::inbound::vmess::VmessInbound;
use crate::proxy::observe::{known_or_new, registered, Observer, ObserverView};
use crate::text::{ascii_small, copy_text, push_text, str_eq};
use crate::time::Duration;
use crate::utils::table::{lemma_names, Table};
use vstd::prelude::*;

verus! {

/// A text in small letters, as `str::to_lowercase` has it.
pub uninterp spec fn lower_case(text: Seq<char>) -> Seq<char>;

/// Calls `str::to_lowercase`: ASCII capitals become small letters, other ASCII characters stay; what
/// becomes of characters beyond ASCII is left to the named result.
#[verifier::external_body]
fn lower_text(text: &str) -> (out: String)
    ensures
        out@ == lower_case(text@),
        (forall|i: int| 0 <= i < text@.len() ==> (#[trigger] text@[i]) as u32 <= 127) ==> out@
            == text@.map_values(|c: char| ascii_small(c)),
{
    text.to_lowercase()
}

/// The kinds of servers.
#[derive(Debug, Clone, Copy, PartialEq, Eq, Structural)]
pub enum InboundKind {
    ShadowQuic,
    Socks5,
    Http,
    Mix,
    Trojan,
    Anytls,
    Vmess,
}

/// The kind of server that a protocol in small letters names, or the complaint about it.
pub open spec fn kind_named(protocol: Seq<char>) -> Result<InboundKind, Seq<char>> {
    if protocol == "shadowquic"@ {
        Ok(InboundKind::ShadowQuic)
    } else if protocol == "socks5"@ {
        Ok(InboundKind::Socks5)
    } else if protocol == "http"@ {
        Ok(InboundKind::Http)
    } else if protocol == "mix"@ {
        Ok(InboundKind::Mix)
    } else if protocol == "trojan"@ {
        Ok(InboundKind::Trojan)
    } else if protocol == "anytls"@ {
        Ok(InboundKind::Anytls)
    } else if protocol == "vmess"@ {
        Ok(InboundKind::Vmess)
    } else if protocol == "tun"@ {
        Err("TUN support is not compiled in. Enable the 'premium' feature to use TUN."@)
    } else {
        Err("Unknown inbound type: "@ + protocol)
    }
}

/// Finds out which kind of server a protocol in small letters names.
pub fn inbound_kind(protocol: &str) -> (r: Result<InboundKind, String>)
    ensures
        match r {
            Ok(kind) => kind_named(protocol@) == Ok::<InboundKind, Seq<char>>(kind),
            Err(e) => kind_named(protocol@) == Err::<InboundKind, Seq<char>>(e@),
        },
{
    if str_eq(protocol, "shadowquic") {
        Ok(InboundKind::ShadowQuic)
    } else if str_eq(protocol, "socks5") {
        Ok(InboundKind::Socks5)
    } else if str_eq(protocol, "http") {
        Ok(InboundKind::Http)
    } else if str_eq(protocol, "mix") {
        Ok(InboundKind::Mix)
    } else if str_eq(protocol, "trojan") {
        Ok(InboundKind::Trojan)
    } else if str_eq(protocol, "anytls") {
        Ok(InboundKind::Anytls)
    } else if str_eq(protocol, "vmess") {
        Ok(InboundKind::Vmess)
    } else if str_eq(protocol, "tun") {
        Err(copy_text("TUN support is not compiled in. Enable the 'premium' feature to use TUN."))
    } else {
        let mut e = copy_text("Unknown inbound type: ");
        push_text(&mut e, protocol);
        Err(e)
    }
}

/// The users of a server with those of earlier runs: a listed one stays as configured, and one who has
/// no credential for the protocol is left out.
pub open spec fn with_persisted(
    users: Seq<AuthUserView>,
    persisted: Seq<AuthUserView>,
    protocol: Seq<char>,
) -> Seq<AuthUserView>
    decreases persisted.len(),
{
    if persisted.len() == 0 {
        users
    } else {
        let before = with_persisted(users, persisted.drop_last(), protocol);
        let user = persisted.last();
        if user_index(before, 0, user.username) is None && credential_of(
            protocol,
            user.username,
            user.password,
        ) is Ok {
            before.push(user)
        } else {
            before
        }
    }
}

/// Adds the users of earlier runs to those of a server.
pub fn merge_users(users: Vec<AuthUser>, persisted: &Vec<AuthUser>, protocol: &str) -> (merged: Vec<
    AuthUser,
>)
    ensures
        user_views(merged@) == with_persisted(user_views(users@), user_views(persisted@), protocol@),
{
    let ghost start = user_views(users@);
    let ghost all = user_views(persisted@);
    let mut merged: Vec<AuthUser> = users;
    let mut i: usize = 0;
    assert(all.take(0) =~= Seq::<AuthUserView>::empty());
    while i < persisted.len()
        invariant
            i <= persisted@.len(),
            all == user_views(persisted@),
            user_views(merged@) == with_persisted(start, all.take(i as int), protocol@),
        decreases persisted@.len() - i,
    {
        let user = &persisted[i];
        let ghost before = user_views(merged@);
        proof {
            assert(all.take(i + 1).drop_last() =~= all.take(i as int));
            assert(all.take(i + 1).last() == user@);
        }
        if find_user(&merged, user.username.as_str()).is_none() {
            if credential_hash(protocol, user.username.as_str(), user.password.as_str()).is_ok() {
                merged.push(user.copy());
                assert(user_views(merged@) =~= before.push(user@));
            }
        }
        i += 1;
    }
    assert(all.take(i as int) =~= all);
    merged
}

/// Nobody who is configured loses their place or password to a user of an earlier run.
pub proof fn law_configured_users_stay(
    users: Seq<AuthUserView>,
    persisted: Seq<AuthUserView>,
    protocol: Seq<char>,
)
    ensures
        with_persisted(users, persisted, protocol).len() >= users.len(),
        with_persisted(users, persisted, protocol).take(users.len() as int) == users,
    decreases persisted.len(),
{
    if persisted.len() > 0 {
        law_configured_users_stay(users, persisted.drop_last(), protocol);
        let before = with_persisted(users, persisted.drop_last(), protocol);
        assert(with_persisted(users, persisted, protocol).take(users.len() as int) =~= before.take(
            users.len() as int,
        ));
    } else {
        assert(users.take(users.len() as int) =~= users);
    }
}

/// What is needed to set a server up.
#[derive(Debug)]
pub struct PreparedInbound {
    pub kind: InboundKind,
    pub protocol: String,
    pub users: Vec<AuthUser>,
}

/// Prepares the setting up of a server: its kind, and its users together with those of earlier runs.
pub fn init_inbounds(protocol_type: &str, users: Vec<AuthUser>, persisted: &Vec<AuthUser>) -> (r: Result<
    PreparedInbound,
    String,
>)
    ensures
        match r {
            Ok(p) => {
                &&& p.protocol@ == lower_case(protocol_type@)
                &&& kind_named(p.protocol@) == Ok::<InboundKind, Seq<char>>(p.kind)
                &&& user_views(p.users@) == with_persisted(
                    user_views(users@),
                    user_views(persisted@),
                    p.protocol@,
                )
            },
            Err(e) => kind_named(lower_case(protocol_type@)) == Err::<InboundKind, Seq<char>>(e@),
        },
{
    let protocol = lower_text(protocol_type);
    prepare_inbound(protocol, users, persisted)
}

/// Prepares the setting up of a server whose protocol is given in small letters.
pub fn prepare_inbound(protocol: String, users: Vec<AuthUser>, persisted: &Vec<AuthUser>) -> (r: Result<
    PreparedInbound,
    String,
>)
    ensures
        match r {
            Ok(p) => {
                &&& p.protocol@ == protocol@
                &&& kind_named(protocol@) == Ok::<InboundKind, Seq<char>>(p.kind)
                &&& user_views(p.users@) == with_persisted(
                    user_views(users@),
                    user_views(persisted@),
                    protocol@,
                )
            },
            Err(e) => kind_named(protocol@) == Err::<InboundKind, Seq<char>>(e@),
        },
{
    let merged = merge_users(users, persisted, protocol.as_str());
    match inbound_kind(protocol.as_str()) {
        Ok(kind) => Ok(PreparedInbound { kind, protocol, users: merged }),
        Err(e) => Err(e),
    }
}

/// The observer after a user of a server was entered.
pub open spec fn entered(
    o: ObserverView,
    tag: Seq<char>,
    protocol: Seq<char>,
    user: AuthUserView,
) -> ObserverView {
    ObserverView {
        users: o.users.insert(user.username, known_or_new(o.users, user.username)),
        passwords: o.passwords.insert(user.username, user.password),
        creds: match credential_of(protocol, user.username, user.password) {
            Ok(c) => o.creds.insert((tag, user.username), c),
            Err(_) => o.creds,
        },
        ..o
    }
}

/// The observer after several users of a server were entered.
pub open spec fn entered_all(
    o: ObserverView,
    tag: Seq<char>,
    protocol: Seq<char>,
    users: Seq<AuthUserView>,
) -> ObserverView
    decreases users.len(),
{
    if users.len() == 0 {
        o
    } else {
        entered(entered_all(o, tag, protocol, users.drop_last()), tag, protocol, users.last())
    }
}

/// The observer after a server was entered with its users, if it has any.
pub open spec fn enrolled(
    o: ObserverView,
    tag: Seq<char>,
    protocol: Seq<char>,
    supports_users: bool,
    users: Seq<AuthUserView>,
) -> ObserverView {
    let there = ObserverView { inbounds: registered(o.inbounds, tag, protocol), ..o };
    if supports_users {
        entered_all(there, tag, protocol, users)
    } else {
        there
    }
}

/// Tells the observer of a server and its users.
pub fn enroll_inbound(
    observer: &mut Observer,
    tag: &str,
    protocol: &str,
    supports_users: bool,
    users: &Vec<AuthUser>,
)
    requires
        old(observer).wf(),
    ensures
        final(observer).wf(),
        final(observer)@ == enrolled(
            old(observer)@,
            tag@,
            protocol@,
            supports_users,
            user_views(users@),
        ),
{
    observer.register_inbound(tag, protocol);
    if !supports_users {
        return;
    }
    let ghost there = observer@;
    let ghost all = user_views(users@);
    let mut i: usize = 0;
    assert(all.take(0) =~= Seq::<AuthUserView>::empty());
    while i < users.len()
        invariant
            i <= users@.len(),
            all == user_views(users@),
            observer.wf(),
            observer@ == entered_all(there, tag@, protocol@, all.take(i as int)),
        decreases users@.len() - i,
    {
        let user = &users[i];
        let ghost before = observer@;
        let _ = observer.upsert_user(user.username.as_str());
        observer.set_user_password(user.username.as_str(), user.password.as_str());
        match credential_hash(protocol, user.username.as_str(), user.password.as_str()) {
            Ok(credential) => {
                observer.set_user_credential(tag, user.username.as_str(), credential);
            },
            Err(_) => {},
        }
        proof {
            assert(all.take(i + 1).drop_last() =~= all.take(i as int));
            assert(all.take(i + 1).last() == user@);
            assert(observer@ =~= entered(before, tag@, protocol@, user@));
        }
        i += 1;
    }
    assert(all.take(i as int) =~= all);
}

/// Every user of a server that was entered can show their credential there, and is counted.
pub proof fn law_enrolled_users_are_let_in(
    o: ObserverView,
    tag: Seq<char>,
    protocol: Seq<char>,
    users: Seq<AuthUserView>,
    i: int,
)
    requires
        unique_users(users),
        0 <= i < users.len(),
    ensures
        ({
            let after = entered_all(o, tag, protocol, users);
            let user = users[i];
            &&& after.users.contains_key(user.username)
            &&& after.passwords.contains_key(user.username)
            &&& after.passwords[user.username] == user.password
            &&& credential_of(protocol, user.username, user.password) matches Ok(c) ==> (
            after.creds.contains_key((tag, user.username)) && after.creds[(tag, user.username)] == c)
        }),
    decreases users.len(),
{
    let rest = users.drop_last();
    let last = users.last();
    if i < users.len() - 1 {
        assert(unique_users(rest)) by {
            assert forall|a: int, b: int| 0 <= a < b < rest.len() implies (
            #[trigger] rest[a]).username != (#[trigger] rest[b]).username by {
                assert(users[a].username != users[b].username);
            }
        }
        law_enrolled_users_are_let_in(o, tag, protocol, rest, i);
        assert(rest[i] == users[i]);
        assert(users[i].username != users[users.len() - 1].username);
    }
}

/// A server, as the rest of the program sees it.
pub trait AnyInbound {
    /// The name of its protocol.
    spec fn protocol_name(&self) -> Seq<char>;

    /// How long its sessions may idle.
    spec fn idle_time(&self) -> Duration;

    /// Its users, if it keeps a list of its own.
    spec fn user_list(&self) -> Option<Seq<AuthUserView>>;

    /// What it has against that user, if it does not take them.
    spec fn complaint(&self, user: AuthUserView) -> Option<Seq<char>>;

    /// Whether its tables are in order.
    spec fn in_order(&self) -> bool;

    /// Whether a peer is connected as that user, where that is kept.
    spec fn serves(&self, peer: Seq<char>, user: Seq<char>) -> bool;

    /// The name of its protocol.
    fn protocol(&self) -> (name: &'static str)
        ensures
            name@ == self.protocol_name(),
    ;

    /// How long its sessions may idle.
    fn idle_timeout(&self) -> (d: Duration)
        ensures
            d == self.idle_time(),
    ;

    /// Whether it keeps a list of users that has to be told of changes.
    fn supports_users(&self) -> (r: bool)
        ensures
            r == (self.user_list() is Some),
    ;

    /// Adds a user or updates the password of a listed one.
    fn add_user(&mut self, user: &AuthUser) -> (r: Result<(), String>)
        ensures
            match r {
                Ok(()) => old(self).complaint(user@) is None,
                Err(e) => old(self).complaint(user@) == Some(e@),
            },
            final(self).user_list() == match old(self).user_list() {
                Some(list) => if r is Ok {
                    Some(with_user(list, user@))
                } else {
                    Some(list)
                },
                None => None,
            },
            old(self).in_order() ==> final(self).in_order(),
            final(self).protocol_name() == old(self).protocol_name(),
            final(self).idle_time() == old(self).idle_time(),
            forall|peer: Seq<char>, name: Seq<char>| #[trigger]
                final(self).serves(peer, name) == old(self).serves(peer, name),
    ;

    /// Removes a user. The peers that are connected as the user, and have to be disconnected, are
    /// listed.
    fn remove_user(&mut self, username: &str) -> (stale: Vec<String>)
        requires
            old(self).in_order(),
        ensures
            final(self).in_order(),
            exactly(texts(stale@), |peer: Seq<char>| old(self).serves(peer, username@)),
            forall|peer: Seq<char>| !#[trigger] final(self).serves(peer, username@),
            forall|peer: Seq<char>, name: Seq<char>|
                name != username@ ==> #[trigger] final(self).serves(peer, name) == old(self).serves(
                    peer,
                    name,
                ),
            final(self).protocol_name() == old(self).protocol_name(),
            final(self).idle_time() == old(self).idle_time(),
            final(self).user_list() == match old(self).user_list() {
                Some(list) => Some(without_user(list, username@)),
                None => None,
            },
    ;
}

impl AnyInbound for ShadowQuicInbound {
    open spec fn protocol_name(&self) -> Seq<char> {
        "shadowquic"@
    }

    open spec fn idle_time(&self) -> Duration {
        self.idle_timeout
    }

    open spec fn user_list(&self) -> Option<Seq<AuthUserView>> {
        Some(user_views(self.users@))
    }

    open spec fn complaint(&self, user: AuthUserView) -> Option<Seq<char>> {
        None
    }

    open spec fn in_order(&self) -> bool {
        self.conns.wf()
    }

    open spec fn serves(&self, peer: Seq<char>, user: Seq<char>) -> bool {
        connected_as(self.conns@, peer, user)
    }

    fn protocol(&self) -> (name: &'static str) {
        "shadowquic"
    }

    fn idle_timeout(&self) -> (d: Duration) {
        self.idle_timeout
    }

    fn supports_users(&self) -> (r: bool) {
        true
    }

    fn add_user(&mut self, user: &AuthUser) -> (r: Result<(), String>) {
        ShadowQuicInbound::add_user(self, user);
        Ok(())
    }

    fn remove_user(&mut self, username: &str) -> (stale: Vec<String>) {
        let stale = ShadowQuicInbound::remove_user(self, username);
        assert(exactly(texts(stale@), |peer: Seq<char>| old(self).serves(peer, username@))) by {
            let p = |peer: Seq<char>| connected_as(old(self).conns@, peer, username@);
            assert forall|peer: Seq<char>| #[trigger] texts(stale@).contains(peer) <==> old(
                self,
            ).serves(peer, username@) by {
                assert(texts(stale@).contains(peer) <==> p(peer));
            }
        }
        stale
    }
}

impl AnyInbound for VmessInbound {
    open spec fn protocol_name(&self) -> Seq<char> {
        "vmess"@
    }

    open spec fn idle_time(&self) -> Duration {
        self.idle_timeout
    }

    open spec fn user_list(&self) -> Option<Seq<AuthUserView>> {
        Some(user_views(self.users@))
    }

    open spec fn complaint(&self, user: AuthUserView) -> Option<Seq<char>> {
        if crate::crypto::uuid_of(user.username) is Some {
            None
        } else {
            Some("vmess user must be a valid uuid: '"@ + user.username + "'"@)
        }
    }

    open spec fn in_order(&self) -> bool {
        true
    }

    open spec fn serves(&self, peer: Seq<char>, user: Seq<char>) -> bool {
        false
    }

    fn protocol(&self) -> (name: &'static str) {
        "vmess"
    }

    fn idle_timeout(&self) -> (d: Duration) {
        self.idle_timeout
    }

    fn supports_users(&self) -> (r: bool) {
        true
    }

    fn add_user(&mut self, user: &AuthUser) -> (r: Result<(), String>) {
        VmessInbound::add_user(self, user)
    }

    fn remove_user(&mut self, username: &str) -> (stale: Vec<String>) {
        VmessInbound::remove_user(self, username);
        Vec::new()
    }
}

impl AnyInbound for AnytlsInbound {
    open spec fn protocol_name(&self) -> Seq<char> {
        "anytls"@
    }

    open spec fn idle_time(&self) -> Duration {
        self.idle_timeout
    }

    open spec fn user_list(&self) -> Option<Seq<AuthUserView>> {
        None
    }

    open spec fn complaint(&self, user: AuthUserView) -> Option<Seq<char>> {
        None
    }

    open spec fn in_order(&self) -> bool {
        true
    }

    open spec fn serves(&self, peer: Seq<char>, user: Seq<char>) -> bool {
        false
    }

    fn protocol(&self) -> (name: &'static str) {
        "anytls"
    }

    fn idle_timeout(&self) -> (d: Duration) {
        self.idle_timeout
    }

    fn supports_users(&self) -> (r: bool) {
        false
    }

    fn add_user(&mut self, _user: &AuthUser) -> (r: Result<(), String>) {
        Ok(())
    }

    fn remove_user(&mut self, _username: &str) -> (stale: Vec<String>) {
        Vec::new()
    }
}

/// What is remembered of a server that was set up.
#[derive(Debug)]
pub struct InboundEntry {
    pub protocol: String,
    pub supports_users: bool,
}

/// The servers that were set up, by their tags.
pub type InboundRegistry = Table<InboundEntry>;

/// Remembers a server.
pub fn register_inbound(registry: &mut InboundRegistry, tag: &str, inbound: InboundEntry)
    requires
        old(registry).wf(),
    ensures
        final(registry).wf(),
        final(registry)@ == old(registry)@.insert(tag@, inbound),
{
    registry.insert(tag, inbound);
}

/// Forgets all servers.
pub fn shutdown_inbounds(registry: &mut InboundRegistry)
    ensures
        final(registry).wf(),
        final(registry)@ == Map::<Seq<char>, InboundEntry>::empty(),
{
    *registry = Table::new();
}

/// Whether a server of that tag has to be told of changes to its users.
pub open spec fn has_users(registry: Map<Seq<char>, InboundEntry>, tag: Seq<char>) -> bool {
    registry.contains_key(tag) && registry[tag].supports_users
}

/// Lists the servers that have to be told of a change to a user.
pub fn apply_user_change(registry: &InboundRegistry) -> (tags: Vec<String>)
    requires
        registry.wf(),
    ensures
        exactly(texts(tags@), |tag: Seq<char>| has_users(registry@, tag)),
{
    let ghost all = registry.names();
    let ghost p = |tag: Seq<char>| has_users(registry@, tag);
    let mut tags: Vec<String> = Vec::new();
    let mut i: usize = 0;
    proof {
        lemma_names(*registry);
    }
    while i < registry.len()
        invariant
            registry.wf(),
            all == registry.names(),
            all.no_duplicates(),
            i <= all.len(),
            p == (|tag: Seq<char>| has_users(registry@, tag)),
            picked_so_far(texts(tags@), all, i as int, p),
        decreases all.len() - i,
    {
        let (tag, entry) = registry.row(i);
        let ghost before = texts(tags@);
        if entry.supports_users {
            tags.push(copy_text(tag));
            assert(texts(tags@) =~= before.push(tag@));
        }
        proof {
            lemma_pick(before, all, i as int, p);
        }
        i += 1;
    }
    proof {
        lemma_picked(texts(tags@), *registry, p);
    }
    tags
}

/// The complaint about a server that did not take a change.
pub fn change_failed(tag: &str, error: &str) -> (e: String)
    ensures
        e@ == "apply user to inbound '"@ + tag@ + "' failed: "@ + error@,
{
    let mut e = copy_text("apply user to inbound '");
    push_text(&mut e, tag);
    push_text(&mut e, "' failed: ");
    push_text(&mut e, error);
    e
}

/// Seven protocols let traffic in, each under its name. The one that needs a build of its own
/// says so, and every other name is unknown.
pub proof fn law_inbounds_by_name(protocol: Seq<char>)
    ensures
        kind_named("shadowquic"@) == Ok::<InboundKind, Seq<char>>(InboundKind::ShadowQuic),
        kind_named("socks5"@) == Ok::<InboundKind, Seq<char>>(InboundKind::Socks5),
        kind_named("http"@) == Ok::<InboundKind, Seq<char>>(InboundKind::Http),
        kind_named("mix"@) == Ok::<InboundKind, Seq<char>>(InboundKind::Mix),
        kind_named("trojan"@) == Ok::<InboundKind, Seq<char>>(InboundKind::Trojan),
        kind_named("anytls"@) == Ok::<InboundKind, Seq<char>>(InboundKind::Anytls),
        kind_named("vmess"@) == Ok::<InboundKind, Seq<char>>(InboundKind::Vmess),
        kind_named("tun"@) is Err,
        kind_named(protocol) is Ok ==> protocol == "shadowquic"@ || protocol == "socks5"@ || protocol
            == "http"@ || protocol == "mix"@ || protocol == "trojan"@ || protocol == "anytls"@
            || protocol == "vmess"@,
        kind_named(protocol) is Err && protocol != "tun"@ ==> kind_named(protocol)->Err_0
            == "Unknown inbound type: "@ + protocol,
{
    reveal_strlit("shadowquic");
    reveal_strlit("socks5");
    reveal_strlit("http");
    reveal_strlit("mix");
    reveal_strlit("trojan");
    reveal_strlit("anytls");
    reveal_strlit("vmess");
    reveal_strlit("tun");
    assert("shadowquic"@.len() == 10 && "socks5"@.len() == 6 && "http"@.len() == 4);
    assert("mix"@.len() == 3 && "trojan"@.len() == 6 && "anytls"@.len() == 6);
    assert("vmess"@.len() == 5 && "tun"@.len() == 3);
    assert("socks5"@[0] == 's' && "trojan"@[0] == 't' && "anytls"@[0] == 'a');
    assert("mix"@[0] == 'm' && "tun"@[0] == 't');
}

/// A stored user whom the protocol takes is among the users in the end, under that name. Who is
/// added was stored, is taken by the protocol, and has a name that nobody before has.
pub proof fn law_which_stored_users_are_added(
    users: Seq<AuthUserView>,
    persisted: Seq<AuthUserView>,
    protocol: Seq<char>,
)
    ensures
        ({
            let after = with_persisted(users, persisted, protocol);
            &&& forall|i: int|
                0 <= i < persisted.len() && credential_of(
                    protocol,
                    (#[trigger] persisted[i]).username,
                    persisted[i].password,
                ) is Ok ==> named_in(after, persisted[i].username)
            &&& forall|k: int|
                users.len() <= k < after.len() ==> {
                    &&& persisted.contains(#[trigger] after[k])
                    &&& credential_of(protocol, after[k].username, after[k].password) is Ok
                    &&& !named_in(after.take(k), after[k].username)
                }
        }),
    decreases persisted.len(),
{
    let after = with_persisted(users, persisted, protocol);
    if persisted.len() > 0 {
        let rest = persisted.drop_last();
        let before = with_persisted(users, rest, protocol);
        let user = persisted.last();
        law_which_stored_users_are_added(users, rest, protocol);
        law_configured_users_stay(users, rest, protocol);
        lemma_named(before, 0, user.username);
        let added = user_index(before, 0, user.username) is None && credential_of(
            protocol,
            user.username,
            user.password,
        ) is Ok;
        assert forall|i: int|
            0 <= i < persisted.len() && credential_of(
                protocol,
                (#[trigger] persisted[i]).username,
                persisted[i].password,
            ) is Ok implies named_in(after, persisted[i].username) by {
            if i < rest.len() {
                assert(rest[i] == persisted[i]);
                assert(named_in(before, persisted[i].username));
                let k = choose|k: int|
                    0 <= k < before.len() && (#[trigger] before[k]).username == persisted[i].username;
                assert(after[k].username == persisted[i].username);
            } else if added {
                assert(after[before.len() as int].username == user.username);
            } else {
                assert(named_in(before, user.username));
            }
        }
        assert forall|k: int| users.len() <= k < after.len() implies {
            &&& persisted.contains(#[trigger] after[k])
            &&& credential_of(protocol, after[k].username, after[k].password) is Ok
            &&& !named_in(after.take(k), after[k].username)
        } by {
            if k < before.len() {
                assert(after[k] == before[k]);
                assert(rest.contains(before[k]));
                let j = choose|j: int| 0 <= j < rest.len() && rest[j] == before[k];
                assert(persisted[j] == after[k]);
                assert(after.take(k) =~= before.take(k));
            } else {
                assert(persisted[persisted.len() - 1] == after[k]);
                assert(after.take(k) =~= before);
            }
        }
    }
}

/// Whether one of the users has that name.
pub open spec fn named_in(users: Seq<AuthUserView>, name: Seq<char>) -> bool {
    exists|k: int| 0 <= k < users.len() && (#[trigger] users[k]).username == name
}

proof fn lemma_named(users: Seq<AuthUserView>, from: int, name: Seq<char>)
    requires
        0 <= from,
    ensures
        user_index(users, from, name) is Some <==> exists|k: int|
            from <= k < users.len() && (#[trigger] users[k]).username == name,
    decreases users.len() - from,
{
    if from < users.len() {
        lemma_named(users, from + 1, name);
        if users[from].username == name {
            assert(user_index(users, from, name) is Some);
        }
    }
}

/// Entering the users of an inbound changes nothing of other users and other inbounds, and
/// nothing at all but the list of inbounds where the inbound keeps no users.
pub proof fn law_enrolling_changes_no_other(
    o: ObserverView,
    tag: Seq<char>,
    protocol: Seq<char>,
    users: Seq<AuthUserView>,
    place: Seq<char>,
    name: Seq<char>,
)
    requires
        !named_in(users, name),
    ensures
        ({
            let after = enrolled(o, tag, protocol, true, users);
            &&& after.inbounds.contains_key(tag)
            &&& after.outbounds == o.outbounds && after.book == o.book && after.global == o.global
                && after.memory == o.memory
            &&& after.users.contains_key(name) == o.users.contains_key(name)
            &&& o.users.contains_key(name) ==> after.users[name] == o.users[name]
            &&& after.passwords.contains_key(name) == o.passwords.contains_key(name)
            &&& o.passwords.contains_key(name) ==> after.passwords[name] == o.passwords[name]
            &&& after.creds.contains_key((tag, name)) == o.creds.contains_key((tag, name))
            &&& o.creds.contains_key((tag, name)) ==> after.creds[(tag, name)] == o.creds[(
                tag,
                name,
            )]
        }),
        ({
            let after = enrolled(o, tag, protocol, false, users);
            &&& after.inbounds.contains_key(tag)
            &&& after == (ObserverView { inbounds: after.inbounds, ..o })
        }),
        place != tag ==> forall|key: (Seq<char>, Seq<char>)|
            key.0 == place ==> #[trigger] enrolled(o, tag, protocol, true, users).creds.contains_key(
                key,
            ) == o.creds.contains_key(key) && (o.creds.contains_key(key) ==> enrolled(
                o,
                tag,
                protocol,
                true,
                users,
            ).creds[key] == o.creds[key]),
{
    let there = ObserverView { inbounds: registered(o.inbounds, tag, protocol), ..o };
    lemma_entered_others(there, tag, protocol, users, place, name);
}

proof fn lemma_entered_others(
    o: ObserverView,
    tag: Seq<char>,
    protocol: Seq<char>,
    users: Seq<AuthUserView>,
    place: Seq<char>,
    name: Seq<char>,
)
    requires
        !named_in(users, name),
    ensures
        ({
            let after = entered_all(o, tag, protocol, users);
            &&& after.inbounds == o.inbounds && after.outbounds == o.outbounds && after.book == o.book
                && after.global == o.global && after.memory == o.memory
            &&& after.users.contains_key(name) == o.users.contains_key(name)
            &&& o.users.contains_key(name) ==> after.users[name] == o.users[name]
            &&& after.passwords.contains_key(name) == o.passwords.contains_key(name)
            &&& o.passwords.contains_key(name) ==> after.passwords[name] == o.passwords[name]
            &&& after.creds.contains_key((tag, name)) == o.creds.contains_key((tag, name))
            &&& o.creds.contains_key((tag, name)) ==> after.creds[(tag, name)] == o.creds[(
                tag,
                name,
            )]
            &&& place != tag ==> forall|key: (Seq<char>, Seq<char>)|
                key.0 == place ==> #[trigger] after.creds.contains_key(key) == o.creds.contains_key(
                    key,
                ) && (o.creds.contains_key(key) ==> after.creds[key] == o.creds[key])
        }),
    decreases users.len(),
{
    if users.len() > 0 {
        let rest = users.drop_last();
        assert(users[users.len() - 1].username != name);
        assert(!named_in(rest, name)) by {
            if named_in(rest, name) {
                let k = choose|k: int| 0 <= k < rest.len() && (#[trigger] rest[k]).username == name;
                assert(users[k].username == name);
            }
        }
        lemma_entered_others(o, tag, protocol, rest, place, name);
    }
}

} // verus!
