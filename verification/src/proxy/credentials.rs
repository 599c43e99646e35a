//! Users' credentials as they appear on the wire, per server.

use crate::config::texts;
use crate::crypto::{
    hex_encode, hex_encoded, parse_uuid, sha224, sha224_of, sha256, sha256_of, uuid_of,
};
use crate::proxy::inbound::vmess::{cmd_key, new_id};
use crate::proxy::shadowquic_udp::{gen_sunny_auth_hash, sunny_hash};
use crate::text::{copy_text, str_eq};
use crate::utils::table::{lemma_names, Table};
use crate::wire::{bytes_eq, copy_range};
use vstd::prelude::*;
use vstd::utf8::encode_utf8;

verus! {

/// Why there are no credentials for a user.
#[derive(Clone, Copy, Debug, PartialEq, Eq, Structural)]
pub enum CredentialError {
    /// The user name is no UUID.
    InvalidUuid,
    /// The protocol has no users.
    NoUsers,
}

/// The bytes that a user shows to a server of that protocol. `uuid` is the number that the user
/// name stands for, if it is a UUID.
pub open spec fn credential_with(
    protocol: Seq<char>,
    username: Seq<char>,
    password: Seq<char>,
    uuid: Option<u128>,
) -> Result<Seq<u8>, CredentialError> {
    if protocol == "trojan"@ {
        Ok(encode_utf8(hex_encoded(sha224_of(encode_utf8(password)))))
    } else if protocol == "anytls"@ {
        Ok(sha256_of(encode_utf8(password)))
    } else if protocol == "shadowquic"@ {
        Ok(sunny_hash(username, password))
    } else if protocol == "vmess"@ {
        match uuid {
            Some(id) => Ok(cmd_key(id)),
            None => Err(CredentialError::InvalidUuid),
        }
    } else {
        Err(CredentialError::NoUsers)
    }
}

/// The bytes that a user shows to a server of that protocol.
pub open spec fn credential_of(
    protocol: Seq<char>,
    username: Seq<char>,
    password: Seq<char>,
) -> Result<Seq<u8>, CredentialError> {
    credential_with(protocol, username, password, uuid_of(username))
}

/// How many bytes a user shows to a server of a protocol that has users.
pub open spec fn credential_len(protocol: Seq<char>) -> int {
    if protocol == "trojan"@ {
        56
    } else if protocol == "anytls"@ {
        32
    } else if protocol == "shadowquic"@ {
        64
    } else {
        16
    }
}

/// Computes the bytes that a user shows to a server of that protocol, given the number that the user
/// name stands for.
pub fn credential_for(
    protocol: &str,
    username: &str,
    password: &str,
    uuid: Option<u128>,
) -> (r: Result<Vec<u8>, CredentialError>)
    ensures
        match r {
            Ok(c) => credential_with(protocol@, username@, password@, uuid) == Ok::<
                Seq<u8>,
                CredentialError,
            >(c@),
            Err(e) => credential_with(protocol@, username@, password@, uuid) == Err::<
                Seq<u8>,
                CredentialError,
            >(e),
        },
        r matches Ok(c) ==> c@.len() == credential_len(protocol@),
{
    if str_eq(protocol, "trojan") {
        let digest = sha224(password.as_bytes());
        let text = hex_encode(digest.as_slice());
        let bytes = text.as_str().as_bytes();
        proof {
            lemma_hex_len(digest@);
        }
        let out = copy_range(bytes, 0, bytes.len());
        assert(out@ =~= bytes@);
        Ok(out)
    } else if str_eq(protocol, "anytls") {
        Ok(sha256(password.as_bytes()))
    } else if str_eq(protocol, "shadowquic") {
        Ok(gen_sunny_auth_hash(username, password))
    } else if str_eq(protocol, "vmess") {
        match uuid {
            Some(id) => Ok(new_id(id)),
            None => Err(CredentialError::InvalidUuid),
        }
    } else {
        Err(CredentialError::NoUsers)
    }
}

proof fn lemma_hex_len(data: Seq<u8>)
    ensures
        encode_utf8(hex_encoded(data)).len() == 2 * data.len(),
{
    assert(vstd::utf8::is_ascii_chars(hex_encoded(data)));
    vstd::utf8::is_ascii_chars_encode_utf8(hex_encoded(data));
}

/// Computes the bytes that a user shows to a server of that protocol: for Trojan the hexadecimal
/// SHA-224 of the password, for AnyTLS its SHA-256, for ShadowQUIC the digest of both names padded to
/// 64 bytes, for VMess the key of the UUID.
pub fn credential_hash(protocol: &str, username: &str, password: &str) -> (r: Result<
    Vec<u8>,
    CredentialError,
>)
    ensures
        match r {
            Ok(c) => credential_of(protocol@, username@, password@) == Ok::<
                Seq<u8>,
                CredentialError,
            >(c@),
            Err(e) => credential_of(protocol@, username@, password@) == Err::<
                Seq<u8>,
                CredentialError,
            >(e),
        },
        r matches Ok(c) ==> c@.len() == credential_len(protocol@),
{
    credential_for(protocol, username, password, parse_uuid(username))
}

/// The credentials of all users: for each server, by the name of the user.
pub struct CredentialStore {
    by_server: Table<Table<Vec<u8>>>,
}

impl View for CredentialStore {
    type V = Map<(Seq<char>, Seq<char>), Seq<u8>>;

    closed spec fn view(&self) -> Map<(Seq<char>, Seq<char>), Seq<u8>> {
        Map::new(
            |k: (Seq<char>, Seq<char>)|
                self.by_server@.contains_key(k.0) && self.by_server@[k.0]@.contains_key(k.1),
            |k: (Seq<char>, Seq<char>)| self.by_server@[k.0]@[k.1]@,
        )
    }
}

/// The credentials without those of one user.
pub open spec fn without_user(
    creds: Map<(Seq<char>, Seq<char>), Seq<u8>>,
    username: Seq<char>,
) -> Map<(Seq<char>, Seq<char>), Seq<u8>> {
    Map::new(
        |k: (Seq<char>, Seq<char>)| creds.contains_key(k) && k.1 != username,
        |k: (Seq<char>, Seq<char>)| creds[k],
    )
}

/// Whether a user's credential at a server is `credential`.
pub open spec fn shows(
    creds: Map<(Seq<char>, Seq<char>), Seq<u8>>,
    tag: Seq<char>,
    username: Seq<char>,
    credential: Seq<u8>,
) -> bool {
    creds.contains_key((tag, username)) && creds[(tag, username)] == credential
}

impl CredentialStore {
    /// The tables are in order.
    pub closed spec fn wf(self) -> bool {
        self.by_server.wf() && forall|tag: Seq<char>| #[trigger]
            self.by_server@.contains_key(tag) ==> self.by_server@[tag].wf()
    }

    /// No credentials.
    pub fn new() -> (s: CredentialStore)
        ensures
            s.wf(),
            s@ == Map::<(Seq<char>, Seq<char>), Seq<u8>>::empty(),
    {
        let s = CredentialStore { by_server: Table::new() };
        assert(s@ =~= Map::<(Seq<char>, Seq<char>), Seq<u8>>::empty());
        s
    }

    /// Sets a user's credential at a server.
    pub fn set_user_credential(&mut self, tag: &str, username: &str, credential: Vec<u8>)
        requires
            old(self).wf(),
        ensures
            final(self).wf(),
            final(self)@ == old(self)@.insert((tag@, username@), credential@),
    {
        let ghost cv = credential@;
        let mut users = match self.by_server.remove(tag) {
            Some(users) => users,
            None => Table::new(),
        };
        users.insert(username, credential);
        self.by_server.insert(tag, users);
        assert(self@ =~= old(self)@.insert((tag@, username@), cv));
    }

    /// The user who shows that credential to a server.
    pub fn find(&self, tag: &str, credential: &[u8]) -> (r: Option<String>)
        requires
            self.wf(),
        ensures
            match r {
                Some(user) => shows(self@, tag@, user@, credential@),
                None => forall|user: Seq<char>| !#[trigger] shows(self@, tag@, user, credential@),
            },
    {
        let users = match self.by_server.get(tag) {
            Some(users) => users,
            None => {
                return None;
            },
        };
        let mut i: usize = 0;
        while i < users.len()
            invariant
                self.wf(),
                self.by_server@.contains_key(tag@),
                *users == self.by_server@[tag@],
                i <= users.names().len(),
                forall|k: int|
                    0 <= k < i ==> !shows(
                        self@,
                        tag@,
                        #[trigger] users.names()[k],
                        credential@,
                    ),
            decreases users.names().len() - i,
        {
            let (user, known) = users.row(i);
            if bytes_eq(known.as_slice(), credential) {
                return Some(copy_text(user));
            }
            i += 1;
        }
        proof {
            lemma_names(*users);
            assert forall|user: Seq<char>| !#[trigger] shows(self@, tag@, user, credential@) by {
                if users@.contains_key(user) {
                    assert(users.names().contains(user));
                    let k = choose|k: int| 0 <= k < users.names().len() && users.names()[k] == user;
                    assert(!shows(self@, tag@, users.names()[k], credential@));
                }
            }
        }
        None
    }

    /// Removes every credential of a user.
    pub fn remove_user(&mut self, username: &str)
        requires
            old(self).wf(),
        ensures
            final(self).wf(),
            final(self)@ == without_user(old(self)@, username@),
    {
        let ghost all = self.by_server.names();
        let ghost was = self.by_server@;
        let mut tags: Vec<String> = Vec::new();
        let mut i: usize = 0;
        assert(texts(tags@) =~= all.take(0));
        while i < self.by_server.len()
            invariant
                self.wf(),
                *self == *old(self),
                all == self.by_server.names(),
                i <= all.len(),
                texts(tags@) == all.take(i as int),
            decreases all.len() - i,
        {
            let (tag, _) = self.by_server.row(i);
            let ghost before = texts(tags@);
            tags.push(copy_text(tag));
            i += 1;
            assert(texts(tags@) =~= before.push(tag@));
            assert(all.take(i as int) =~= all.take(i - 1).push(all[i - 1]));
        }
        proof {
            assert(all.take(i as int) =~= all);
            lemma_names(self.by_server);
        }
        let mut k: usize = 0;
        while k < tags.len()
            invariant
                k <= tags@.len(),
                all == texts(tags@),
                all.no_duplicates(),
                self.wf(),
                forall|tag: Seq<char>| #[trigger] was.contains_key(tag) <==> all.contains(tag),
                self.by_server@.dom() == was.dom(),
                forall|j: int|
                    #![trigger all[j]]
                    0 <= j < all.len() ==> self.by_server@[all[j]]@ == if j < k {
                        was[all[j]]@.remove(username@)
                    } else {
                        was[all[j]]@
                    },
            decreases tags@.len() - k,
        {
            let ghost tag = all[k as int];
            let ghost before = self.by_server@;
            assert(all.contains(tag));
            assert(was.contains_key(tag));
            assert(before.contains_key(tag));
            if let Some(mut users) = self.by_server.remove(tags[k].as_str()) {
                users.remove(username);
                self.by_server.insert(tags[k].as_str(), users);
            }
            proof {
                assert(self.by_server@.dom() =~= was.dom());
                assert forall|j: int|
                    #![trigger all[j]]
                    0 <= j < all.len() implies self.by_server@[all[j]]@ == if j < k + 1 {
                    was[all[j]]@.remove(username@)
                } else {
                    was[all[j]]@
                } by {
                    if j != k {
                        assert(all[j] != tag);
                    }
                }
            }
            k += 1;
        }
        proof {
            assert(self@ =~= without_user(old(self)@, username@)) by {
                assert forall|key: (Seq<char>, Seq<char>)| #[trigger]
                    self@.contains_key(key) <==> without_user(old(self)@, username@).contains_key(
                    key,
                ) by {
                    if was.contains_key(key.0) {
                        let j = choose|j: int| 0 <= j < all.len() && all[j] == key.0;
                        assert(all[j] == key.0);
                    }
                    assert(self.by_server@.contains_key(key.0) == was.contains_key(key.0));
                }
                assert forall|key: (Seq<char>, Seq<char>)| #[trigger]
                    self@.contains_key(key) implies self@[key] == without_user(
                    old(self)@,
                    username@,
                )[key] by {
                    assert(was.contains_key(key.0));
                    let j = choose|j: int| 0 <= j < all.len() && all[j] == key.0;
                    assert(all[j] == key.0);
                }
            }
        }
    }
}

/// A removed user is not let in anywhere, and nobody else is shut out.
pub proof fn law_removed_user_is_shut_out(
    creds: Map<(Seq<char>, Seq<char>), Seq<u8>>,
    tag: Seq<char>,
    username: Seq<char>,
    other: Seq<char>,
    credential: Seq<u8>,
)
    ensures
        !shows(without_user(creds, username), tag, username, credential),
        other != username ==> shows(without_user(creds, username), tag, other, credential) == shows(
            creds,
            tag,
            other,
            credential,
        ),
{
}

/// What a user shows to a server, by protocol: for Trojan the SHA-224 of the password in hexadecimal, for
/// AnyTLS its SHA-256, for ShadowQUIC the digest of both names and a row of zeros, for VMess the key of the
/// UUID that the name is. Other protocols have no users.
pub proof fn law_credentials_by_protocol(
    protocol: Seq<char>,
    username: Seq<char>,
    password: Seq<char>,
)
    ensures
        credential_of("trojan"@, username, password) == Ok::<Seq<u8>, CredentialError>(
            encode_utf8(hex_encoded(sha224_of(encode_utf8(password)))),
        ),
        credential_of("anytls"@, username, password) == Ok::<Seq<u8>, CredentialError>(
            sha256_of(encode_utf8(password)),
        ),
        credential_of("shadowquic"@, username, password) == Ok::<Seq<u8>, CredentialError>(
            sha256_of(encode_utf8(username + seq![':'] + password)) + Seq::new(32, |i: int| 0u8),
        ),
        uuid_of(username) matches Some(uuid) ==> credential_of("vmess"@, username, password) == Ok::<
            Seq<u8>,
            CredentialError,
        >(cmd_key(uuid)),
        uuid_of(username) is None ==> credential_of("vmess"@, username, password) == Err::<
            Seq<u8>,
            CredentialError,
        >(CredentialError::InvalidUuid),
        protocol != "trojan"@ && protocol != "anytls"@ && protocol != "shadowquic"@ && protocol
            != "vmess"@ ==> credential_of(protocol, username, password) == Err::<
            Seq<u8>,
            CredentialError,
        >(CredentialError::NoUsers),
{
    reveal_strlit("trojan");
    reveal_strlit("anytls");
    reveal_strlit("shadowquic");
    reveal_strlit("vmess");
    assert("trojan"@[0] == 't' && "anytls"@[0] == 'a' && "shadowquic"@[0] == 's' && "vmess"@[0] == 'v');
    assert(sunny_hash(username, password) =~= sha256_of(
        encode_utf8(username + seq![':'] + password),
    ) + Seq::new(32, |i: int| 0u8));
}

/// A user is let in by the credential that was entered last for the server and the name, and by no other.
pub proof fn law_only_the_entered_credential_counts(
    creds: Map<(Seq<char>, Seq<char>), Seq<u8>>,
    tag: Seq<char>,
    username: Seq<char>,
    credential: Seq<u8>,
    other: Seq<u8>,
)
    ensures
        shows(creds.insert((tag, username), credential), tag, username, other) <==> other == credential,
        !creds.contains_key((tag, username)) ==> !shows(creds, tag, username, other),
{
}

} // verus!
