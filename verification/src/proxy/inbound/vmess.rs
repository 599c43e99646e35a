//! The server side of VMess: authentication, the request header and the chunked body streams.

use crate::config::{opt_text, secs_or, user_views, AuthUser, AuthUserView, InboundConfig};
use crate::crypto::{
    aes_gcm_open, aes_gcm_opened, aes_gcm_seal, aes_gcm_sealed, byte_lists, chacha_open,
    chacha_opened, chacha_seal, chacha_sealed, derive_key, md5, md5_of, parse_uuid, sha256, sha256_of,
    uuid_of, vmess_kdf,
};
use crate::ip::socket_addr_of;
use crate::proxy::addr::{
    host_port_text, wire_safe, IpAddr, SocketAddr, TargetAddr, TargetView,
};
use crate::proxy::credentials::shows;
use crate::proxy::inbound::users::{with_user, without_user};
use crate::proxy::observe::Observer;
use crate::text::{copy_text, lossy_utf8, push_text, utf8_text_lossy};
use crate::time::{secs, Duration};
use crate::wire::{
    be16, be16_bytes, be2, be2_bytes, be4, be4_bytes, copy_range, get_u128, get_u16, get_u32,
    law_be16_round_trip, law_be2_round_trip, law_be4_round_trip, law_big_endian, number, put_slice,
    put_u128, put_u16,
};
use vstd::prelude::*;
use vstd::utf8::{encode_utf8, encode_utf8_decode_utf8, encode_utf8_valid_utf8};

verus! {

/// The protocol version in request headers.
pub const VERSION: u8 = 1;

/// The option that says that bodies come in chunks.
pub const OPTION_CHUNK_STREAM: u8 = 1;

/// The command that opens a UDP session.
pub const COMMAND_UDP: u8 = 2;

/// The body cipher AES-128-GCM.
pub const SECURITY_AES_128_GCM: u8 = 3;

/// The body cipher ChaCha20-Poly1305.
pub const SECURITY_CHACHA20_POLY1305: u8 = 4;

/// The longest chunk that is written, without its length field.
pub const CHUNK_SIZE: usize = 16384;

/// The longest chunk that is accepted, without its length field.
pub const MAX_CHUNK_SIZE: usize = 17408;

/// Why the address in a request could not be read.
#[derive(Debug, Clone, Copy, PartialEq, Eq, Structural)]
pub enum RequestError {
    HeaderTooShort,
    UnsupportedVersion(u8),
    AddrTooShort,
    ShortIpv4,
    ShortDomain,
    ShortDomainBytes,
    ShortIpv6,
    UnsupportedType(u8),
}

/// What [`read_vmess_addr`] returns: the port comes first, then the type byte and the host.
pub open spec fn vmess_addr(buf: Seq<u8>) -> Result<TargetView, RequestError> {
    if buf.len() < 3 {
        Err(RequestError::AddrTooShort)
    } else {
        let port = be2(buf) as u16;
        let rest = buf.skip(3);
        if buf[2] == 1 {
            if rest.len() < 4 {
                Err(RequestError::ShortIpv4)
            } else {
                Ok(
                    TargetView::Ip(
                        SocketAddr { ip: IpAddr::V4(be4(rest) as u32), port, scope_id: 0 },
                    ),
                )
            }
        } else if buf[2] == 2 {
            if rest.len() == 0 {
                Err(RequestError::ShortDomain)
            } else if rest.len() < 1 + rest[0] {
                Err(RequestError::ShortDomainBytes)
            } else {
                Ok(TargetView::Domain(lossy_utf8(rest.subrange(1, 1 + rest[0])), port))
            }
        } else if buf[2] == 3 {
            if rest.len() < 16 {
                Err(RequestError::ShortIpv6)
            } else {
                Ok(
                    TargetView::Ip(
                        SocketAddr { ip: IpAddr::V6(be16(rest) as u128), port, scope_id: 0 },
                    ),
                )
            }
        } else {
            Err(RequestError::UnsupportedType(buf[2]))
        }
    }
}

/// Reads the destination of a request.
pub fn read_vmess_addr(buf: &[u8]) -> (r: Result<TargetAddr, RequestError>)
    ensures
        match r {
            Ok(t) => vmess_addr(buf@) == Ok::<TargetView, RequestError>(t@),
            Err(e) => vmess_addr(buf@) == Err::<TargetView, RequestError>(e),
        },
{
    if buf.len() < 3 {
        return Err(RequestError::AddrTooShort);
    }
    assert(buf@.skip(0) =~= buf@);
    let port: u16 = get_u16(buf, 0);
    let ip = match buf[2] {
        1 => {
            if buf.len() < 7 {
                return Err(RequestError::ShortIpv4);
            }
            IpAddr::V4(get_u32(buf, 3))
        },
        2 => {
            if buf.len() == 3 {
                return Err(RequestError::ShortDomain);
            }
            let len: usize = buf[3] as usize;
            if buf.len() < 4 + len {
                return Err(RequestError::ShortDomainBytes);
            }
            let bytes = vstd::slice::slice_subrange(buf, 4, 4 + len);
            assert(bytes@ =~= buf@.skip(3).subrange(1, 1 + len));
            return Ok(TargetAddr::Domain(utf8_text_lossy(bytes), port));
        },
        3 => {
            if buf.len() < 19 {
                return Err(RequestError::ShortIpv6);
            }
            IpAddr::V6(get_u128(buf, 3))
        },
        other => {
            return Err(RequestError::UnsupportedType(other));
        },
    };
    Ok(TargetAddr::Ip(SocketAddr { ip, port, scope_id: 0 }))
}

/// A decoded request header.
#[derive(Debug)]
pub struct VmessRequest {
    pub dst: TargetAddr,
    pub security: u8,
    pub is_udp: bool,
    pub req_body_iv: Vec<u8>,
    pub req_body_key: Vec<u8>,
    pub resp_v: u8,
}

/// The mathematical value of a [`VmessRequest`].
pub struct RequestView {
    pub dst: TargetView,
    pub security: u8,
    pub is_udp: bool,
    pub req_body_iv: Seq<u8>,
    pub req_body_key: Seq<u8>,
    pub resp_v: u8,
}

impl View for VmessRequest {
    type V = RequestView;

    open spec fn view(&self) -> RequestView {
        RequestView {
            dst: self.dst@,
            security: self.security,
            is_udp: self.is_udp,
            req_body_iv: self.req_body_iv@,
            req_body_key: self.req_body_key@,
            resp_v: self.resp_v,
        }
    }
}

/// The part of a request header that holds the destination: what is left after the fixed fields,
/// the padding and the checksum.
pub open spec fn addr_part(header: Seq<u8>) -> Seq<u8> {
    let rest = header.skip(38);
    let cut = 4 + header[35] / 16;
    if rest.len() < cut {
        rest.take(0)
    } else {
        rest.take(rest.len() - cut)
    }
}

/// What [`parse_request`] returns.
pub open spec fn request_of(header: Seq<u8>) -> Result<RequestView, RequestError> {
    if header.len() < 41 {
        Err(RequestError::HeaderTooShort)
    } else if header[0] != VERSION {
        Err(RequestError::UnsupportedVersion(header[0]))
    } else {
        match vmess_addr(addr_part(header)) {
            Err(e) => Err(e),
            Ok(dst) => Ok(
                RequestView {
                    dst,
                    security: header[35] % 16,
                    is_udp: header[37] == COMMAND_UDP,
                    req_body_iv: header.subrange(1, 17),
                    req_body_key: header.subrange(17, 33),
                    resp_v: header[33],
                },
            ),
        }
    }
}

/// Decodes a request header.
pub fn parse_request(header: &[u8]) -> (r: Result<VmessRequest, RequestError>)
    ensures
        match r {
            Ok(q) => request_of(header@) == Ok::<RequestView, RequestError>(q@),
            Err(e) => request_of(header@) == Err::<RequestView, RequestError>(e),
        },
{
    if header.len() < 41 {
        return Err(RequestError::HeaderTooShort);
    }
    if header[0] != VERSION {
        return Err(RequestError::UnsupportedVersion(header[0]));
    }
    let cut: usize = 4 + (header[35] / 16) as usize;
    let end: usize = if header.len() - 38 < cut {
        38
    } else {
        header.len() - cut
    };
    let part = vstd::slice::slice_subrange(header, 38, end);
    assert(part@ =~= addr_part(header@));
    match read_vmess_addr(part) {
        Err(e) => Err(e),
        Ok(dst) => Ok(
            VmessRequest {
                dst,
                security: header[35] % 16,
                is_udp: header[37] == COMMAND_UDP,
                req_body_iv: copy_range(header, 1, 17),
                req_body_key: copy_range(header, 17, 33),
                resp_v: header[33],
            },
        ),
    }
}

/// The key that stands for a user: the digest of the user's UUID and a fixed suffix.
pub open spec fn cmd_key(uuid: u128) -> Seq<u8> {
    md5_of(be16_bytes(uuid as int) + encode_utf8("c48619fe-8f02-49e0-b9e9-edf763e17e21"@))
}

/// Computes the key that stands for a user.
pub fn new_id(uuid: u128) -> (key: Vec<u8>)
    ensures
        key@ == cmd_key(uuid),
        key@.len() == 16,
{
    let mut data: Vec<u8> = Vec::new();
    put_u128(&mut data, uuid);
    put_slice(&mut data, "c48619fe-8f02-49e0-b9e9-edf763e17e21".as_bytes());
    assert(data@ =~= be16_bytes(uuid as int) + encode_utf8(
        "c48619fe-8f02-49e0-b9e9-edf763e17e21"@,
    ));
    md5(data.as_slice())
}

/// A key that is derived for one connection: from a label, the authentication id and the nonce.
pub open spec fn header_key(cmd_key: Seq<u8>, label: Seq<char>, prefix: Seq<u8>) -> Seq<u8> {
    vmess_kdf(cmd_key, seq![encode_utf8(label), prefix.take(16), prefix.subrange(34, 42)])
}

fn header_key_of(cmd_key: &[u8], label: &str, prefix: &[u8]) -> (key: Vec<u8>)
    requires
        prefix@.len() == 42,
    ensures
        key@ == header_key(cmd_key@, label@, prefix@),
        key@.len() == 32,
{
    let mut path: Vec<Vec<u8>> = Vec::new();
    let text = label.as_bytes();
    path.push(copy_range(text, 0, text.len()));
    path.push(copy_range(prefix, 0, 16));
    path.push(copy_range(prefix, 34, 42));
    assert(text@.subrange(0, text@.len() as int) =~= text@);
    assert(prefix@.subrange(0, 16) =~= prefix@.take(16));
    assert(byte_lists(path@) =~= seq![
        encode_utf8(label@),
        prefix@.take(16),
        prefix@.subrange(34, 42),
    ]);
    derive_key(cmd_key, path)
}

/// Decrypts with a derived key and nonce, bound to the authentication id.
pub open spec fn header_opened(
    cmd_key: Seq<u8>,
    key_label: Seq<char>,
    iv_label: Seq<char>,
    prefix: Seq<u8>,
    sealed: Seq<u8>,
) -> Option<Seq<u8>> {
    aes_gcm_opened(
        header_key(cmd_key, key_label, prefix).take(16),
        header_key(cmd_key, iv_label, prefix).take(12),
        sealed,
        prefix.take(16),
    )
}

fn open_header(cmd_key: &[u8], key_label: &str, iv_label: &str, prefix: &[u8], sealed: &[u8]) -> (plain: Option<
    Vec<u8>,
>)
    requires
        prefix@.len() == 42,
    ensures
        match plain {
            Some(p) => header_opened(cmd_key@, key_label@, iv_label@, prefix@, sealed@) == Some(
                p@,
            ) && p@.len() + 16 == sealed@.len(),
            None => header_opened(cmd_key@, key_label@, iv_label@, prefix@, sealed@) is None,
        },
{
    let key = header_key_of(cmd_key, key_label, prefix);
    let iv = header_key_of(cmd_key, iv_label, prefix);
    let key16 = vstd::slice::slice_subrange(key.as_slice(), 0, 16);
    let iv12 = vstd::slice::slice_subrange(iv.as_slice(), 0, 12);
    let auth_id = vstd::slice::slice_subrange(prefix, 0, 16);
    assert(key16@ =~= key@.take(16));
    assert(iv12@ =~= iv@.take(12));
    assert(auth_id@ =~= prefix@.take(16));
    aes_gcm_open(key16, iv12, sealed, auth_id)
}

/// The header length that a user's key opens in a connection's first 42 bytes.
pub open spec fn length_for(username: Seq<char>, prefix: Seq<u8>) -> Option<u16> {
    match uuid_of(username) {
        None => None,
        Some(uuid) => match header_opened(
            cmd_key(uuid),
            "VMess Header AEAD Key_Length"@,
            "VMess Header AEAD Nonce_Length"@,
            prefix,
            prefix.subrange(16, 34),
        ) {
            None => None,
            Some(plain) => Some(be2(plain) as u16),
        },
    }
}

/// The first user from the `i`-th on whose key opens the connection's prefix.
pub open spec fn user_for(users: Seq<AuthUserView>, i: int, prefix: Seq<u8>) -> Option<int>
    decreases users.len() - i,
{
    if i < 0 || i >= users.len() {
        None
    } else if length_for(users[i].username, prefix) is Some {
        Some(i)
    } else {
        user_for(users, i + 1, prefix)
    }
}

/// Finds the user that a connection's first 42 bytes (authentication id, sealed header length,
/// nonce) belong to. Returns the user's key and the header length.
pub fn authenticate(prefix: &[u8], users: &Vec<AuthUser>) -> (r: Option<(Vec<u8>, u16)>)
    requires
        prefix@.len() == 42,
    ensures
        match r {
            None => user_for(user_views(users@), 0, prefix@) is None,
            Some((key, len)) => {
                &&& user_for(user_views(users@), 0, prefix@) matches Some(i)
                &&& uuid_of(users@[i].username@) matches Some(uuid)
                &&& key@ == cmd_key(uuid)
                &&& length_for(users@[i].username@, prefix@) == Some(len)
            },
        },
{
    let sealed = vstd::slice::slice_subrange(prefix, 16, 34);
    let mut i: usize = 0;
    while i < users.len()
        invariant
            prefix@.len() == 42,
            i <= users@.len(),
            sealed@ == prefix@.subrange(16, 34),
            user_for(user_views(users@), 0, prefix@) == user_for(
                user_views(users@),
                i as int,
                prefix@,
            ),
        decreases users@.len() - i,
    {
        assert(user_views(users@)[i as int] == users@[i as int]@);
        if let Some(uuid) = parse_uuid(users[i].username.as_str()) {
            let key = new_id(uuid);
            let plain = open_header(
                key.as_slice(),
                "VMess Header AEAD Key_Length",
                "VMess Header AEAD Nonce_Length",
                prefix,
                sealed,
            );
            if let Some(plain) = plain {
                assert(plain@.skip(0) =~= plain@);
                let len: u16 = get_u16(plain.as_slice(), 0);
                return Some((key, len));
            }
        }
        i += 1;
    }
    None
}

/// Why a connection was refused.
#[derive(Debug, Clone, Copy, PartialEq, Eq, Structural)]
pub enum AcceptError {
    /// The header does not decrypt.
    HeaderDecrypt,
    /// The header is broken.
    Request(RequestError),
}

/// Decrypts and decodes the request header of an authenticated connection.
pub fn accept_header(prefix: &[u8], key: &[u8], sealed: &[u8]) -> (r: Result<VmessRequest, AcceptError>)
    requires
        prefix@.len() == 42,
    ensures
        ({
            let plain = header_opened(
                key@,
                "VMess Header AEAD Key"@,
                "VMess Header AEAD Nonce"@,
                prefix@,
                sealed@,
            );
            match r {
                Ok(q) => plain is Some && request_of(plain->0) == Ok::<RequestView, RequestError>(
                    q@,
                ),
                Err(AcceptError::Request(e)) => plain is Some && request_of(plain->0) == Err::<
                    RequestView,
                    RequestError,
                >(e),
                Err(AcceptError::HeaderDecrypt) => plain is None,
            }
        }),
{
    match open_header(key, "VMess Header AEAD Key", "VMess Header AEAD Nonce", prefix, sealed) {
        None => Err(AcceptError::HeaderDecrypt),
        Some(plain) => match parse_request(plain.as_slice()) {
            Ok(q) => Ok(q),
            Err(e) => Err(AcceptError::Request(e)),
        },
    }
}

/// A connection is only ever authenticated as a listed user.
pub proof fn law_only_listed_users(users: Seq<AuthUserView>, i: int, prefix: Seq<u8>)
    requires
        0 <= i <= users.len(),
    ensures
        user_for(users, i, prefix) matches Some(k) ==> i <= k < users.len() && length_for(
            users[k].username,
            prefix,
        ) is Some && forall|j: int|
            i <= j < k ==> length_for(#[trigger] users[j].username, prefix) is None,
        user_for(users, i, prefix) is None ==> forall|j: int|
            i <= j < users.len() ==> length_for(#[trigger] users[j].username, prefix) is None,
    decreases users.len() - i,
{
    if i < users.len() && length_for(users[i].username, prefix) is None {
        law_only_listed_users(users, i + 1, prefix);
    }
}

/// The key that ChaCha20-Poly1305 gets out of a 16-byte key: two chained digests.
pub open spec fn chacha_key_of(key16: Seq<u8>) -> Seq<u8> {
    md5_of(key16) + md5_of(md5_of(key16))
}

/// Stretches a 16-byte key to 32 bytes.
pub fn chacha_key(key16: &[u8]) -> (key: Vec<u8>)
    ensures
        key@ == chacha_key_of(key16@),
        key@.len() == 32,
{
    let mut key = md5(key16);
    let second = md5(key.as_slice());
    put_slice(&mut key, second.as_slice());
    key
}

/// How a body is encrypted.
#[derive(Debug, Clone, Copy, PartialEq, Eq, Structural)]
pub enum BodySecurity {
    Plain,
    Aes128Gcm,
    ChaCha20Poly1305,
}

/// One direction's body cipher: every chunk is sealed under the next nonce.
#[derive(Debug)]
pub struct BodyCipher {
    pub security: BodySecurity,
    pub key: Vec<u8>,
    pub iv: Vec<u8>,
    pub count: u16,
}

impl BodyCipher {
    /// Keys and nonces have the lengths that the cipher takes.
    pub open spec fn wf(self) -> bool {
        &&& self.iv@.len() == 16
        &&& self.security == BodySecurity::Aes128Gcm ==> self.key@.len() == 16
        &&& self.security == BodySecurity::ChaCha20Poly1305 ==> self.key@.len() == 32
    }

    /// How many bytes longer a sealed chunk is than its payload.
    pub open spec fn overhead(self) -> int {
        if self.security == BodySecurity::Plain {
            0
        } else {
            16
        }
    }

    /// The nonce of the next chunk.
    pub open spec fn nonce(self) -> Seq<u8> {
        be2_bytes(self.count as int) + self.iv@.subrange(2, 12)
    }

    /// The next chunk's payload.
    pub open spec fn opened(self, sealed: Seq<u8>) -> Option<Seq<u8>> {
        match self.security {
            BodySecurity::Plain => Some(sealed),
            BodySecurity::Aes128Gcm => aes_gcm_opened(
                self.key@,
                self.nonce(),
                sealed,
                Seq::empty(),
            ),
            BodySecurity::ChaCha20Poly1305 => chacha_opened(self.key@, self.nonce(), sealed),
        }
    }

    /// The next chunk's sealed form.
    pub open spec fn sealed(self, plain: Seq<u8>) -> Seq<u8> {
        match self.security {
            BodySecurity::Plain => plain,
            BodySecurity::Aes128Gcm => aes_gcm_sealed(
                self.key@,
                self.nonce(),
                plain,
                Seq::empty(),
            ),
            BodySecurity::ChaCha20Poly1305 => chacha_sealed(self.key@, self.nonce(), plain),
        }
    }

    /// The same cipher one chunk further. Plain bodies do not count.
    pub open spec fn advanced(self, next: BodyCipher) -> bool {
        &&& next.security == self.security
        &&& next.key@ == self.key@
        &&& next.iv@ == self.iv@
        &&& next.count == if self.security == BodySecurity::Plain {
            self.count as int
        } else {
            (self.count + 1) % 0x1_0000
        }
    }

    fn nonce_of(&self) -> (n: Vec<u8>)
        requires
            self.wf(),
        ensures
            n@ == self.nonce(),
            n@.len() == 12,
    {
        let mut n: Vec<u8> = Vec::new();
        put_u16(&mut n, self.count);
        put_slice(&mut n, vstd::slice::slice_subrange(self.iv.as_slice(), 2, 12));
        assert(n@ =~= self.nonce());
        n
    }

    fn step(&mut self)
        ensures
            old(self).advanced(*final(self)),
    {
        if self.security != BodySecurity::Plain {
            self.count = if self.count == 0xffff {
                0
            } else {
                self.count + 1
            };
        }
    }

    /// Opens the next chunk.
    pub fn open(&mut self, sealed: &[u8]) -> (plain: Option<Vec<u8>>)
        requires
            old(self).wf(),
        ensures
            final(self).wf(),
            old(self).advanced(*final(self)),
            match plain {
                Some(p) => old(self).opened(sealed@) == Some(p@) && p@.len() + old(self).overhead()
                    == sealed@.len(),
                None => old(self).opened(sealed@) is None,
            },
    {
        let nonce = self.nonce_of();
        let empty: Vec<u8> = Vec::new();
        assert(empty@ =~= Seq::empty());
        let plain = match self.security {
            BodySecurity::Plain => {
                let copy = copy_range(sealed, 0, sealed.len());
                assert(copy@ =~= sealed@);
                Some(copy)
            },
            BodySecurity::Aes128Gcm => aes_gcm_open(
                self.key.as_slice(),
                nonce.as_slice(),
                sealed,
                empty.as_slice(),
            ),
            BodySecurity::ChaCha20Poly1305 => chacha_open(
                self.key.as_slice(),
                nonce.as_slice(),
                sealed,
            ),
        };
        self.step();
        plain
    }

    /// Seals the next chunk. What is sealed opens again, with a cipher in the same state, to what
    /// it was.
    pub fn seal(&mut self, plain: &[u8]) -> (sealed: Option<Vec<u8>>)
        requires
            old(self).wf(),
        ensures
            final(self).wf(),
            old(self).advanced(*final(self)),
            plain@.len() <= 0x1_0000 ==> sealed is Some,
            sealed matches Some(s) ==> s@ == old(self).sealed(plain@) && s@.len() == plain@.len()
                + old(self).overhead() && old(self).opened(s@) == Some(plain@),
    {
        let nonce = self.nonce_of();
        let empty: Vec<u8> = Vec::new();
        assert(empty@ =~= Seq::empty());
        let sealed = match self.security {
            BodySecurity::Plain => {
                let copy = copy_range(plain, 0, plain.len());
                assert(copy@ =~= plain@);
                Some(copy)
            },
            BodySecurity::Aes128Gcm => aes_gcm_seal(
                self.key.as_slice(),
                nonce.as_slice(),
                plain,
                empty.as_slice(),
            ),
            BodySecurity::ChaCha20Poly1305 => chacha_seal(
                self.key.as_slice(),
                nonce.as_slice(),
                plain,
            ),
        };
        self.step();
        sealed
    }
}

/// The body cipher that a security byte selects. Unknown bytes leave the body unencrypted.
pub fn body_cipher(security: u8, key: &[u8], iv: &[u8]) -> (c: BodyCipher)
    requires
        key@.len() == 16,
        iv@.len() == 16,
    ensures
        c.wf(),
        c.count == 0,
        c.iv@ == iv@,
        c.security == if security == SECURITY_AES_128_GCM {
            BodySecurity::Aes128Gcm
        } else if security == SECURITY_CHACHA20_POLY1305 {
            BodySecurity::ChaCha20Poly1305
        } else {
            BodySecurity::Plain
        },
        c.security == BodySecurity::Aes128Gcm ==> c.key@ == key@,
        c.security == BodySecurity::ChaCha20Poly1305 ==> c.key@ == chacha_key_of(key@),
{
    let iv_copy = copy_range(iv, 0, 16);
    assert(iv_copy@ =~= iv@);
    if security == SECURITY_AES_128_GCM {
        let key_copy = copy_range(key, 0, 16);
        assert(key_copy@ =~= key@);
        BodyCipher { security: BodySecurity::Aes128Gcm, key: key_copy, iv: iv_copy, count: 0 }
    } else if security == SECURITY_CHACHA20_POLY1305 {
        BodyCipher {
            security: BodySecurity::ChaCha20Poly1305,
            key: chacha_key(key),
            iv: iv_copy,
            count: 0,
        }
    } else {
        BodyCipher { security: BodySecurity::Plain, key: Vec::new(), iv: iv_copy, count: 0 }
    }
}

/// The keys that the response runs under.
#[derive(Debug)]
pub struct ResponseKeys {
    pub key: Vec<u8>,
    pub iv: Vec<u8>,
}

/// Derives the response's key and nonce base from the request's.
pub fn response_keys(request: &VmessRequest) -> (r: ResponseKeys)
    ensures
        r.key@ == sha256_of(request.req_body_key@).take(16),
        r.iv@ == sha256_of(request.req_body_iv@).take(16),
        r.key@.len() == 16,
        r.iv@.len() == 16,
{
    let key = sha256(request.req_body_key.as_slice());
    let iv = sha256(request.req_body_iv.as_slice());
    let r = ResponseKeys {
        key: copy_range(key.as_slice(), 0, 16),
        iv: copy_range(iv.as_slice(), 0, 16),
    };
    assert(key@.subrange(0, 16) =~= key@.take(16));
    assert(iv@.subrange(0, 16) =~= iv@.take(16));
    r
}

/// A key that is derived for the response header.
pub open spec fn response_key(base: Seq<u8>, label: Seq<char>) -> Seq<u8> {
    vmess_kdf(base, seq![encode_utf8(label)])
}

fn response_key_of(base: &[u8], label: &str) -> (key: Vec<u8>)
    ensures
        key@ == response_key(base@, label@),
        key@.len() == 32,
{
    let mut path: Vec<Vec<u8>> = Vec::new();
    let text = label.as_bytes();
    path.push(copy_range(text, 0, text.len()));
    assert(text@.subrange(0, text@.len() as int) =~= text@);
    assert(byte_lists(path@) =~= seq![encode_utf8(label@)]);
    derive_key(base, path)
}

/// The response header: its sealed length, then the sealed fields.
pub open spec fn response_header(key: Seq<u8>, iv: Seq<u8>, resp_v: u8) -> Seq<u8> {
    aes_gcm_sealed(
        response_key(key, "AEAD Resp Header Len Key"@).take(16),
        response_key(iv, "AEAD Resp Header Len IV"@).take(12),
        be2_bytes(4),
        Seq::empty(),
    ) + aes_gcm_sealed(
        response_key(key, "AEAD Resp Header Key"@).take(16),
        response_key(iv, "AEAD Resp Header IV"@).take(12),
        seq![resp_v, OPTION_CHUNK_STREAM, 0u8, 0u8],
        Seq::empty(),
    )
}

fn seal_under(key_base: &[u8], key_label: &str, iv_base: &[u8], iv_label: &str, plain: &[u8]) -> (sealed: Vec<
    u8,
>)
    requires
        plain@.len() <= 0x1_0000,
    ensures
        sealed@ == aes_gcm_sealed(
            response_key(key_base@, key_label@).take(16),
            response_key(iv_base@, iv_label@).take(12),
            plain@,
            Seq::empty(),
        ),
{
    let key = response_key_of(key_base, key_label);
    let iv = response_key_of(iv_base, iv_label);
    let key16 = vstd::slice::slice_subrange(key.as_slice(), 0, 16);
    let iv12 = vstd::slice::slice_subrange(iv.as_slice(), 0, 12);
    let empty: Vec<u8> = Vec::new();
    assert(empty@ =~= Seq::empty());
    assert(key16@ =~= key@.take(16));
    assert(iv12@ =~= iv@.take(12));
    match aes_gcm_seal(key16, iv12, plain, empty.as_slice()) {
        Some(s) => s,
        None => Vec::new(),
    }
}

/// Builds the response header.
pub fn send_response_header(keys: &ResponseKeys, resp_v: u8) -> (out: Vec<u8>)
    ensures
        out@ == response_header(keys.key@, keys.iv@, resp_v),
{
    let mut len: Vec<u8> = Vec::new();
    put_u16(&mut len, 4);
    assert(len@ =~= be2_bytes(4));
    let mut fields: Vec<u8> = Vec::new();
    fields.push(resp_v);
    fields.push(OPTION_CHUNK_STREAM);
    fields.push(0);
    fields.push(0);
    assert(fields@ =~= seq![resp_v, OPTION_CHUNK_STREAM, 0u8, 0u8]);
    let mut out = seal_under(
        keys.key.as_slice(),
        "AEAD Resp Header Len Key",
        keys.iv.as_slice(),
        "AEAD Resp Header Len IV",
        len.as_slice(),
    );
    let second = seal_under(
        keys.key.as_slice(),
        "AEAD Resp Header Key",
        keys.iv.as_slice(),
        "AEAD Resp Header IV",
        fields.as_slice(),
    );
    put_slice(&mut out, second.as_slice());
    out
}

/// Where the reader of a body stands.
#[derive(Debug, Clone, Copy, PartialEq, Eq, Structural)]
pub enum ReadState {
    WaitingLength,
    WaitingData(usize),
    FlushingData(usize),
    Closed,
}

/// What a read came to.
#[derive(Debug, Clone, Copy, PartialEq, Eq, Structural)]
pub enum ReadPoll {
    /// The buffer has to hold this many bytes before the read can go on.
    Need(usize),
    /// The read is done; what it delivered may be empty.
    Ready,
    /// A chunk announces more than the longest accepted length.
    ChunkTooLarge,
    /// A chunk is too short to hold a tag.
    ChunkShorterThanTag,
    /// A chunk does not decrypt.
    DecryptFailed,
    /// The peer closed the connection inside a chunk.
    UnexpectedEof,
}

/// The receiving half of a body stream.
#[derive(Debug)]
pub struct VmessReader {
    pub state: ReadState,
    pub buf: Vec<u8>,
    pub cipher: BodyCipher,
}

impl VmessReader {
    /// The buffer never holds more than the current step takes.
    pub open spec fn wf(self) -> bool {
        &&& self.cipher.wf()
        &&& match self.state {
            ReadState::WaitingLength => self.buf@.len() <= 2,
            ReadState::WaitingData(n) => self.buf@.len() <= n && n <= MAX_CHUNK_SIZE,
            ReadState::FlushingData(n) => self.buf@.len() == n,
            ReadState::Closed => true,
        }
    }

    /// How many bytes the current step needs in the buffer.
    pub open spec fn need(self) -> int {
        match self.state {
            ReadState::WaitingLength => 2,
            ReadState::WaitingData(n) => n as int,
            _ => self.buf@.len() as int,
        }
    }

    /// A reader at the start of a body.
    pub fn new(cipher: BodyCipher) -> (r: VmessReader)
        requires
            cipher.wf(),
        ensures
            r.wf(),
            r.state == ReadState::WaitingLength,
            r.buf@.len() == 0,
            r.cipher == cipher,
    {
        VmessReader { state: ReadState::WaitingLength, buf: Vec::new(), cipher }
    }

    /// Takes over what the connection delivered, which must not be more than the current step
    /// needs.
    pub fn feed(&mut self, data: &[u8])
        requires
            old(self).wf(),
            old(self).buf@.len() + data@.len() <= old(self).need(),
        ensures
            final(self).wf(),
            final(self).buf@ == old(self).buf@ + data@,
            final(self).state == old(self).state,
            final(self).cipher == old(self).cipher,
    {
        put_slice(&mut self.buf, data);
    }

    /// The peer closed the connection: fine between two chunks, an error inside one.
    pub fn on_eof(&mut self) -> (r: ReadPoll)
        requires
            old(self).wf(),
        ensures
            final(self).wf(),
            final(self).buf@ == old(self).buf@,
            final(self).cipher == old(self).cipher,
            if old(self).state == ReadState::WaitingLength && old(self).buf@.len() == 0 {
                r == ReadPoll::Ready && final(self).state == ReadState::Closed
            } else {
                r == ReadPoll::UnexpectedEof && final(self).state == old(self).state
            },
    {
        if self.state == ReadState::WaitingLength && self.buf.len() == 0 {
            self.state = ReadState::Closed;
            ReadPoll::Ready
        } else {
            ReadPoll::UnexpectedEof
        }
    }

    /// Hands out up to `room` bytes of the current chunk.
    fn flush(&mut self, out: &mut Vec<u8>, room: usize) -> (r: ReadPoll)
        requires
            old(self).wf(),
            old(self).state matches ReadState::FlushingData(n),
        ensures
            final(self).wf(),
            r == ReadPoll::Ready,
            flushed(*old(self), room as int, *final(self), old(out)@, final(out)@),
    {
        let n: usize = self.buf.len();
        let k: usize = if room < n {
            room
        } else {
            n
        };
        let tail = self.buf.split_off(k);
        put_slice(out, self.buf.as_slice());
        self.buf = tail;
        self.state = if k < n {
            ReadState::FlushingData(n - k)
        } else {
            ReadState::WaitingLength
        };
        ReadPoll::Ready
    }

    /// Opens the chunk in the buffer and hands out what fits.
    fn decrypt(&mut self, out: &mut Vec<u8>, room: usize) -> (r: ReadPoll)
        requires
            old(self).wf(),
            old(self).state matches ReadState::WaitingData(n) && old(self).buf@.len() == n,
        ensures
            final(self).wf(),
            decrypted(*old(self), room as int, *final(self), old(out)@, final(out)@, r),
    {
        if self.cipher.security != BodySecurity::Plain && self.buf.len() < 16 {
            return ReadPoll::ChunkShorterThanTag;
        }
        match self.cipher.open(self.buf.as_slice()) {
            None => ReadPoll::DecryptFailed,
            Some(plain) => {
                self.state = ReadState::FlushingData(plain.len());
                self.buf = plain;
                let ghost mid = *self;
                let r = self.flush(out, room);
                assert(flushed(mid, room as int, *self, old(out)@, out@));
                r
            },
        }
    }

    /// Reads up to `room` bytes of the body to the end of `out`.
    pub fn poll_read(&mut self, out: &mut Vec<u8>, room: usize) -> (r: ReadPoll)
        requires
            old(self).wf(),
        ensures
            final(self).wf(),
            read_polled(*old(self), room as int, *final(self), old(out)@, final(out)@, r),
    {
        match self.state {
            ReadState::Closed => ReadPoll::Ready,
            ReadState::FlushingData(_) => self.flush(out, room),
            ReadState::WaitingData(n) => {
                if self.buf.len() < n {
                    return ReadPoll::Need(n);
                }
                self.decrypt(out, room)
            },
            ReadState::WaitingLength => {
                if self.buf.len() < 2 {
                    return ReadPoll::Need(2);
                }
                assert(self.buf@.skip(0) =~= self.buf@);
                let n: usize = get_u16(self.buf.as_slice(), 0) as usize;
                self.buf = Vec::new();
                if n > MAX_CHUNK_SIZE {
                    return ReadPoll::ChunkTooLarge;
                }
                self.state = ReadState::WaitingData(n);
                if n > 0 {
                    return ReadPoll::Need(n);
                }
                let ghost mid = *self;
                let r = self.decrypt(out, room);
                assert(decrypted(mid, room as int, *self, old(out)@, out@, r));
                r
            },
        }
    }
}

/// Up to `room` bytes of the current chunk were handed out; an emptied chunk makes room for the
/// next one.
pub open spec fn flushed(
    before: VmessReader,
    room: int,
    after: VmessReader,
    out_before: Seq<u8>,
    out_after: Seq<u8>,
) -> bool {
    let n = before.buf@.len() as int;
    let k = if room < n {
        room
    } else {
        n
    };
    &&& out_after == out_before + before.buf@.take(k)
    &&& after.buf@ == before.buf@.skip(k)
    &&& after.state == (if k < n {
        ReadState::FlushingData((n - k) as usize)
    } else {
        ReadState::WaitingLength
    })
    &&& after.cipher == before.cipher
}

/// The chunk in the buffer was opened and as much of it as fits handed out, or it is broken.
pub open spec fn decrypted(
    before: VmessReader,
    room: int,
    after: VmessReader,
    out_before: Seq<u8>,
    out_after: Seq<u8>,
    r: ReadPoll,
) -> bool {
    if before.cipher.overhead() > 0 && before.buf@.len() < 16 {
        &&& r == ReadPoll::ChunkShorterThanTag
        &&& after == before
        &&& out_after == out_before
    } else {
        match before.cipher.opened(before.buf@) {
            None => {
                &&& r == ReadPoll::DecryptFailed
                &&& out_after == out_before
                &&& after.state == before.state
                &&& after.buf@ == before.buf@
                &&& before.cipher.advanced(after.cipher)
            },
            Some(plain) => {
                &&& r == ReadPoll::Ready
                &&& before.cipher.advanced(after.cipher)
                &&& exists|mid: VmessReader|
                    {
                        &&& mid.buf@ == plain
                        &&& #[trigger] flushed(mid, room, after, out_before, out_after)
                    }
            },
        }
    }
}

/// What one read does.
pub open spec fn read_polled(
    before: VmessReader,
    room: int,
    after: VmessReader,
    out_before: Seq<u8>,
    out_after: Seq<u8>,
    r: ReadPoll,
) -> bool {
    match before.state {
        ReadState::Closed => r == ReadPoll::Ready && after == before && out_after == out_before,
        ReadState::FlushingData(_) => r == ReadPoll::Ready && flushed(
            before,
            room,
            after,
            out_before,
            out_after,
        ),
        ReadState::WaitingData(n) => if before.buf@.len() < n {
            r == ReadPoll::Need(n) && after == before && out_after == out_before
        } else {
            decrypted(before, room, after, out_before, out_after, r)
        },
        ReadState::WaitingLength => if before.buf@.len() < 2 {
            r == ReadPoll::Need(2) && after == before && out_after == out_before
        } else {
            let n = be2(before.buf@);
            if n > MAX_CHUNK_SIZE {
                &&& r == ReadPoll::ChunkTooLarge
                &&& out_after == out_before
                &&& after.state == ReadState::WaitingLength
                &&& after.buf@.len() == 0
                &&& after.cipher == before.cipher
            } else if n > 0 {
                &&& r == ReadPoll::Need(n as usize)
                &&& out_after == out_before
                &&& after.state == ReadState::WaitingData(n as usize)
                &&& after.buf@.len() == 0
                &&& after.cipher == before.cipher
            } else {
                exists|mid: VmessReader|
                    {
                        &&& mid.state == ReadState::WaitingData(0)
                        &&& mid.buf@.len() == 0
                        &&& mid.cipher == before.cipher
                        &&& #[trigger] decrypted(mid, room, after, out_before, out_after, r)
                    }
            }
        },
    }
}

/// What a write came to.
#[derive(Debug, Clone, Copy, PartialEq, Eq, Structural)]
pub enum WriteStep {
    /// The connection took nothing.
    WriteZero,
    /// More of the chunk has to be written.
    Pending,
    /// The chunk is out; this many bytes of the payload were in it.
    Done(usize),
}

/// The sending half of a body stream. `chunk` is what is being written, `written` how much of it
/// is out, `consumed` how much payload is in it.
#[derive(Debug)]
pub struct VmessWriter {
    pub cipher: BodyCipher,
    pub chunk: Vec<u8>,
    pub written: usize,
    pub consumed: usize,
}

/// A chunk on the wire: the sealed payload behind its length.
pub open spec fn chunk_bytes(cipher: BodyCipher, payload: Seq<u8>) -> Seq<u8> {
    be2_bytes(payload.len() + cipher.overhead()) + cipher.sealed(payload)
}

/// How much of a payload goes into the next chunk.
pub open spec fn chunk_payload_len(cipher: BodyCipher, len: int) -> int {
    if len < CHUNK_SIZE - cipher.overhead() {
        len
    } else {
        CHUNK_SIZE - cipher.overhead()
    }
}

impl VmessWriter {
    /// At most the whole chunk is out.
    pub open spec fn wf(self) -> bool {
        &&& self.cipher.wf()
        &&& self.written <= self.chunk@.len()
    }

    /// Whether a chunk is being written.
    pub open spec fn busy(self) -> bool {
        self.chunk@.len() > 0
    }

    /// A writer at the start of a body.
    pub fn new(cipher: BodyCipher) -> (w: VmessWriter)
        requires
            cipher.wf(),
        ensures
            w.wf(),
            !w.busy(),
            w.cipher == cipher,
    {
        VmessWriter { cipher, chunk: Vec::new(), written: 0, consumed: 0 }
    }

    /// Puts the start of `buf` into a chunk, unless a chunk is still being written. The chunk
    /// opens, with a cipher in the same state, to the bytes that went into it.
    pub fn build(&mut self, buf: &[u8])
        requires
            old(self).wf(),
        ensures
            final(self).wf(),
            final(self).busy(),
            old(self).busy() ==> *final(self) == *old(self),
            !old(self).busy() ==> {
                let n = chunk_payload_len(old(self).cipher, buf@.len() as int);
                &&& final(self).chunk@ == chunk_bytes(old(self).cipher, buf@.take(n))
                &&& final(self).consumed == n
                &&& final(self).written == 0
                &&& old(self).cipher.advanced(final(self).cipher)
                &&& be2(final(self).chunk@) == n + old(self).cipher.overhead()
                &&& be2(final(self).chunk@) <= CHUNK_SIZE
                &&& old(self).cipher.opened(final(self).chunk@.skip(2)) == Some(buf@.take(n))
            },
    {
        if self.chunk.len() > 0 {
            return;
        }
        let overhead: usize = if self.cipher.security == BodySecurity::Plain {
            0
        } else {
            16
        };
        let n: usize = if buf.len() < CHUNK_SIZE - overhead {
            buf.len()
        } else {
            CHUNK_SIZE - overhead
        };
        let piece = vstd::slice::slice_subrange(buf, 0, n);
        assert(piece@ =~= buf@.take(n as int));
        let mut chunk: Vec<u8> = Vec::new();
        put_u16(&mut chunk, (n + overhead) as u16);
        let sealed = self.cipher.seal(piece);
        if let Some(sealed) = sealed {
            put_slice(&mut chunk, sealed.as_slice());
            proof {
                law_be2_round_trip(n + overhead, sealed@);
                assert(chunk@ =~= chunk_bytes(old(self).cipher, buf@.take(n as int)));
                assert(chunk@ =~= be2_bytes(n + overhead) + sealed@);
                assert(chunk@.skip(2) =~= sealed@);
            }
        }
        self.chunk = chunk;
        self.written = 0;
        self.consumed = n;
    }

    /// What is left to write of the chunk.
    pub fn unwritten(&self) -> (out: Vec<u8>)
        requires
            self.wf(),
        ensures
            out@ == self.chunk@.skip(self.written as int),
    {
        let out = copy_range(self.chunk.as_slice(), self.written, self.chunk.len());
        assert(out@ =~= self.chunk@.skip(self.written as int));
        out
    }

    /// The connection took `n` bytes of what was left to write.
    pub fn advance(&mut self, n: usize) -> (r: WriteStep)
        requires
            old(self).wf(),
            n <= old(self).chunk@.len() - old(self).written,
        ensures
            final(self).wf(),
            final(self).cipher == old(self).cipher,
            if n == 0 {
                r == WriteStep::WriteZero && *final(self) == *old(self)
            } else if old(self).written + n < old(self).chunk@.len() {
                &&& r == WriteStep::Pending
                &&& final(self).chunk@ == old(self).chunk@
                &&& final(self).written == old(self).written + n
                &&& final(self).consumed == old(self).consumed
            } else {
                r == WriteStep::Done(old(self).consumed) && !final(self).busy()
            },
    {
        if n == 0 {
            return WriteStep::WriteZero;
        }
        if n < self.chunk.len() - self.written {
            self.written = self.written + n;
            return WriteStep::Pending;
        }
        self.chunk = Vec::new();
        self.written = 0;
        WriteStep::Done(self.consumed)
    }
}

/// A chunk that was written is read back: once its bytes have arrived, a reader whose cipher is where
/// the writer's was delivers the payload and waits for the next chunk, with its cipher again where the
/// writer's is.
pub proof fn law_chunk_is_read_back(
    written_before: BodyCipher,
    written_after: BodyCipher,
    chunk: Seq<u8>,
    payload: Seq<u8>,
    room: int,
    start: VmessReader,
    with_length: VmessReader,
    with_chunk: VmessReader,
    end: VmessReader,
    out: Seq<u8>,
    out_mid: Seq<u8>,
    out_end: Seq<u8>,
    first: ReadPoll,
    second: ReadPoll,
)
    requires
        written_before.advanced(written_after),
        chunk.len() > 2,
        be2(chunk) == chunk.len() - 2,
        be2(chunk) <= CHUNK_SIZE,
        payload.len() + written_before.overhead() == chunk.len() - 2,
        written_before.opened(chunk.skip(2)) == Some(payload),
        payload.len() <= room,
        start.state == ReadState::WaitingLength,
        start.buf@ == chunk.take(2),
        start.cipher == written_before,
        read_polled(start, room, with_length, out, out_mid, first),
        with_chunk.state == with_length.state,
        with_chunk.cipher == with_length.cipher,
        with_chunk.buf@ == with_length.buf@ + chunk.skip(2),
        read_polled(with_chunk, room, end, out_mid, out_end, second),
    ensures
        first == ReadPoll::Need((chunk.len() - 2) as usize),
        second == ReadPoll::Ready,
        out_end == out + payload,
        end.state == ReadState::WaitingLength,
        end.buf@.len() == 0,
        end.cipher.security == written_after.security,
        end.cipher.key@ == written_after.key@,
        end.cipher.iv@ == written_after.iv@,
        end.cipher.count == written_after.count,
{
    assert(start.buf@ =~= chunk.take(2));
    assert(be2(chunk.take(2)) == be2(chunk));
    assert(with_chunk.buf@ =~= chunk.skip(2));
    let mid = choose|mid: VmessReader|
        mid.buf@ == payload && #[trigger] flushed(mid, room, end, out_mid, out_end);
    assert(mid.buf@.take(payload.len() as int) =~= payload);
    assert(out_end =~= out + payload);
}

/// A connection whose request was accepted: where it goes, and both halves of its body.
#[derive(Debug)]
pub struct VmessServerStream {
    pub dst: TargetAddr,
    pub is_udp: bool,
    pub resp_v: u8,
    pub keys: ResponseKeys,
    pub reader: VmessReader,
    pub writer: VmessWriter,
}

/// Whether a cipher is at the start of a body that a security byte, a key and a nonce base select.
pub open spec fn starts_body(c: BodyCipher, security: u8, key: Seq<u8>, iv: Seq<u8>) -> bool {
    &&& c.wf()
    &&& c.count == 0
    &&& c.iv@ == iv
    &&& c.security == (if security == SECURITY_AES_128_GCM {
        BodySecurity::Aes128Gcm
    } else if security == SECURITY_CHACHA20_POLY1305 {
        BodySecurity::ChaCha20Poly1305
    } else {
        BodySecurity::Plain
    })
    &&& c.security == BodySecurity::Aes128Gcm ==> c.key@ == key
    &&& c.security == BodySecurity::ChaCha20Poly1305 ==> c.key@ == chacha_key_of(key)
}

/// The key or nonce base of a response, out of that of the request.
pub open spec fn response_base(base: Seq<u8>) -> Seq<u8> {
    sha256_of(base).take(16)
}

/// Whether a stream serves a request: the peer's body runs under the request's keys, the answer's
/// under keys that are derived from them.
pub open spec fn serves_request(s: VmessServerStream, q: RequestView) -> bool {
    &&& s.dst@ == q.dst
    &&& s.is_udp == q.is_udp
    &&& s.resp_v == q.resp_v
    &&& s.keys.key@ == response_base(q.req_body_key)
    &&& s.keys.iv@ == response_base(q.req_body_iv)
    &&& s.reader.wf()
    &&& s.reader.state == ReadState::WaitingLength
    &&& s.reader.buf@.len() == 0
    &&& starts_body(s.reader.cipher, q.security, q.req_body_key, q.req_body_iv)
    &&& s.writer.wf()
    &&& !s.writer.busy()
    &&& starts_body(
        s.writer.cipher,
        q.security,
        response_base(q.req_body_key),
        response_base(q.req_body_iv),
    )
}

impl VmessServerStream {
    /// Sets the two halves of a request's body up.
    pub fn new(request: VmessRequest) -> (s: VmessServerStream)
        requires
            request.req_body_key@.len() == 16,
            request.req_body_iv@.len() == 16,
        ensures
            serves_request(s, request@),
    {
        let keys = response_keys(&request);
        let read_cipher = body_cipher(
            request.security,
            request.req_body_key.as_slice(),
            request.req_body_iv.as_slice(),
        );
        let write_cipher = body_cipher(
            request.security,
            keys.key.as_slice(),
            keys.iv.as_slice(),
        );
        VmessServerStream {
            dst: request.dst,
            is_udp: request.is_udp,
            resp_v: request.resp_v,
            keys,
            reader: VmessReader::new(read_cipher),
            writer: VmessWriter::new(write_cipher),
        }
    }
}

/// What accepting a connection asks for next, given the bytes read so far.
#[derive(Debug)]
pub enum AcceptStep {
    /// The opening is not complete before this many bytes have been read in all.
    More(usize),
    /// No listed user opened the connection.
    AuthenticationFailed,
    /// The request header is broken.
    Refused(AcceptError),
    /// The connection is served. The bytes answer the request; the opening took that many bytes.
    Accepted { key: Vec<u8>, stream: VmessServerStream, response: Vec<u8>, used: usize },
}

/// The user whose connection it is: the key and the length of the request header.
pub open spec fn opener(users: Seq<AuthUserView>, prefix: Seq<u8>) -> Option<(Seq<u8>, u16)> {
    match user_for(users, 0, prefix) {
        None => None,
        Some(i) => match (uuid_of(users[i].username), length_for(users[i].username, prefix)) {
            (Some(uuid), Some(len)) => Some((cmd_key(uuid), len)),
            _ => None,
        },
    }
}

/// What the header of a connection asks for, decrypted with a user's key.
pub open spec fn header_request(prefix: Seq<u8>, key: Seq<u8>, sealed: Seq<u8>) -> Result<
    RequestView,
    AcceptError,
> {
    match header_opened(key, "VMess Header AEAD Key"@, "VMess Header AEAD Nonce"@, prefix, sealed) {
        None => Err(AcceptError::HeaderDecrypt),
        Some(plain) => match request_of(plain) {
            Err(e) => Err(AcceptError::Request(e)),
            Ok(q) => Ok(q),
        },
    }
}

/// Whether a step is the right one after `data` has arrived: the opening is a prefix of 42 bytes, which
/// shows the user and the length of the header, and the sealed header.
pub open spec fn accepts(users: Seq<AuthUserView>, data: Seq<u8>, step: AcceptStep) -> bool {
    if data.len() < 42 {
        step == AcceptStep::More(42)
    } else {
        match opener(users, data.take(42)) {
            None => step == AcceptStep::AuthenticationFailed,
            Some((key, len)) => {
                let end = 42 + len + 16;
                if data.len() < end {
                    step == AcceptStep::More(end as usize)
                } else {
                    match header_request(data.take(42), key, data.subrange(42, end)) {
                        Err(e) => step == AcceptStep::Refused(e),
                        Ok(q) => {
                            &&& step matches AcceptStep::Accepted { key: k, stream, response, used }
                            &&& k@ == key
                            &&& serves_request(stream, q)
                            &&& response@ == response_header(
                                response_base(q.req_body_key),
                                response_base(q.req_body_iv),
                                q.resp_v,
                            )
                            &&& used == end
                        },
                    }
                }
            },
        }
    }
}

/// Accepts a connection, given the bytes that it has delivered so far.
pub fn accept(data: &[u8], users: &Vec<AuthUser>) -> (step: AcceptStep)
    ensures
        accepts(user_views(users@), data@, step),
{
    if data.len() < 42 {
        return AcceptStep::More(42);
    }
    let prefix = vstd::slice::slice_subrange(data, 0, 42);
    assert(prefix@ =~= data@.take(42));
    let (key, len): (Vec<u8>, u16) = match authenticate(prefix, users) {
        None => {
            return AcceptStep::AuthenticationFailed;
        },
        Some((key, len)) => {
            proof {
                law_only_listed_users(user_views(users@), 0, prefix@);
                let i = user_for(user_views(users@), 0, prefix@)->0;
                assert(user_views(users@)[i] == users@[i]@);
            }
            (key, len)
        },
    };
    let end: usize = 42 + len as usize + 16;
    if data.len() < end {
        return AcceptStep::More(end);
    }
    let sealed = vstd::slice::slice_subrange(data, 42, end);
    assert(sealed@ =~= data@.subrange(42, end as int));
    match accept_header(prefix, key.as_slice(), sealed) {
        Err(e) => AcceptStep::Refused(e),
        Ok(request) => {
            let stream = VmessServerStream::new(request);
            let response = send_response_header(&stream.keys, stream.resp_v);
            AcceptStep::Accepted { key, stream, response, used: end }
        },
    }
}

/// How a client is served.
#[derive(Debug)]
pub enum ClientSession {
    /// Packets for the target, as the user's.
    Packets(TargetAddr, Option<String>),
    /// A stream to the target, as the user's.
    Stream(TargetAddr, Option<String>),
}

/// Decides how an accepted client is served, and as whom it is counted.
pub fn handle_client(stream: &VmessServerStream, key: &[u8], tag: &str, observer: Option<&Observer>) -> (session:
    ClientSession)
    requires
        observer matches Some(o) ==> o.wf(),
    ensures
        match session {
            ClientSession::Packets(target, user) => stream.is_udp && target@ == stream.dst@
                && counted_as(observer, tag@, key@, opt_text(user)),
            ClientSession::Stream(target, user) => !stream.is_udp && target@ == stream.dst@
                && counted_as(observer, tag@, key@, opt_text(user)),
        },
{
    let user: Option<String> = match observer {
        None => None,
        Some(o) => match o.authenticate(tag, key) {
            None => None,
            Some((user, _)) => Some(user),
        },
    };
    if stream.is_udp {
        ClientSession::Packets(stream.dst.copy(), user)
    } else {
        ClientSession::Stream(stream.dst.copy(), user)
    }
}

/// Whether a client that shows a key is counted as that user: one that the observer knows by the key
/// and has counters for, or nobody where there is none such.
pub open spec fn counted_as(
    observer: Option<&Observer>,
    tag: Seq<char>,
    key: Seq<u8>,
    user: Option<Seq<char>>,
) -> bool {
    match (observer, user) {
        (None, _) => user is None,
        (Some(o), Some(name)) => shows(o@.creds, tag, name, key) && o@.users.contains_key(name),
        (Some(o), None) => {
            ||| forall|name: Seq<char>| !#[trigger] shows(o@.creds, tag, name, key)
            ||| exists|name: Seq<char>| #[trigger] shows(o@.creds, tag, name, key)
                && !o@.users.contains_key(name)
        },
    }
}

/// Accepting goes by the opening alone: what the connection delivers after it changes nothing.
pub proof fn law_opening_is_self_contained(
    users: Seq<AuthUserView>,
    data: Seq<u8>,
    more: Seq<u8>,
    step: AcceptStep,
)
    requires
        accepts(users, data, step),
        step !is More,
    ensures
        accepts(users, data + more, step),
{
    assert((data + more).take(42) =~= data.take(42));
    match opener(users, data.take(42)) {
        None => {},
        Some((_, len)) => {
            let end = 42 + len + 16;
            assert((data + more).subrange(42, end) =~= data.subrange(42, end));
        },
    }
}

/// Settings and users of a VMess server.
#[derive(Debug)]
pub struct VmessInbound {
    pub tag: String,
    pub address: SocketAddr,
    pub idle_timeout: Duration,
    pub users: Vec<AuthUser>,
}

/// Why a VMess server cannot be set up.
#[derive(Debug)]
pub enum VmessConfigError {
    NoUsers(String),
    /// A user's name is no UUID.
    InvalidUser(String),
    Address(String),
}

/// The complaint about a server without users.
pub open spec fn no_vmess_users(tag: Seq<char>) -> Seq<char> {
    "vmess inbound '"@ + tag + "' requires at least one uuid"@
}

/// The complaint about a user whose name is no UUID.
pub open spec fn bad_vmess_user(tag: Seq<char>, username: Seq<char>) -> Seq<char> {
    "vmess inbound '"@ + tag + "' user '"@ + username + "' is not a valid uuid"@
}

/// The first user from the `i`-th on whose name is no UUID.
pub open spec fn first_bad_user(users: Seq<AuthUserView>, i: int) -> Option<int>
    decreases users.len() - i,
{
    if i < 0 || i >= users.len() {
        None
    } else if uuid_of(users[i].username) is None {
        Some(i)
    } else {
        first_bad_user(users, i + 1)
    }
}

impl VmessInbound {
    /// Sets a server up: each user is known by a UUID, and there has to be one.
    pub fn new(tag: String, cfg: &InboundConfig, users: Vec<AuthUser>) -> (r: Result<
        VmessInbound,
        VmessConfigError,
    >)
        ensures
            match r {
                Ok(s) => {
                    &&& users@.len() > 0
                    &&& first_bad_user(user_views(users@), 0) is None
                    &&& cfg.address is Some && cfg.port is Some && socket_addr_of(
                        host_port_text(cfg.address->0@, cfg.port->0),
                    ) == Some(s.address)
                    &&& s.tag@ == tag@
                    &&& s.idle_timeout == secs_or(cfg.idle_timeout, secs(30))
                    &&& s.users == users
                },
                Err(VmessConfigError::NoUsers(e)) => users@.len() == 0 && e@ == no_vmess_users(tag@),
                Err(VmessConfigError::InvalidUser(e)) => {
                    &&& first_bad_user(user_views(users@), 0) matches Some(i)
                    &&& 0 <= i < users@.len()
                    &&& e@ == bad_vmess_user(tag@, users@[i].username@)
                },
                Err(VmessConfigError::Address(e)) => {
                    &&& users@.len() > 0
                    &&& first_bad_user(user_views(users@), 0) is None
                    &&& {
                        ||| cfg.address is None && e@ == crate::config::missing_text(
                            cfg.name(tag@),
                            "address"@,
                        )
                        ||| cfg.address is Some && cfg.port is None && e@
                            == crate::config::missing_text(cfg.name(tag@), "port"@)
                        ||| cfg.address is Some && cfg.port is Some && socket_addr_of(
                            host_port_text(cfg.address->0@, cfg.port->0),
                        ) is None && e@ == cfg.name(tag@) + " has an invalid socket address"@
                    }
                },
            },
    {
        if users.len() == 0 {
            let mut e = copy_text("vmess inbound '");
            push_text(&mut e, tag.as_str());
            push_text(&mut e, "' requires at least one uuid");
            return Err(VmessConfigError::NoUsers(e));
        }
        let mut i: usize = 0;
        while i < users.len()
            invariant
                i <= users@.len(),
                first_bad_user(user_views(users@), 0) == first_bad_user(
                    user_views(users@),
                    i as int,
                ),
            decreases users@.len() - i,
        {
            assert(user_views(users@)[i as int] == users@[i as int]@);
            if parse_uuid(users[i].username.as_str()).is_none() {
                let mut e = copy_text("vmess inbound '");
                push_text(&mut e, tag.as_str());
                push_text(&mut e, "' user '");
                push_text(&mut e, users[i].username.as_str());
                push_text(&mut e, "' is not a valid uuid");
                return Err(VmessConfigError::InvalidUser(e));
            }
            i += 1;
        }
        match cfg.socket_addr(tag.as_str()) {
            Ok(address) => Ok(
                VmessInbound { tag, address, idle_timeout: cfg.idle_timeout(), users },
            ),
            Err(e) => Err(VmessConfigError::Address(e)),
        }
    }

    /// Adds a user or updates the password of a listed one. The user's name has to be a UUID.
    pub fn add_user(&mut self, user: &AuthUser) -> (r: Result<(), String>)
        ensures
            final(self).tag == old(self).tag,
            final(self).address == old(self).address,
            final(self).idle_timeout == old(self).idle_timeout,
            match r {
                Ok(()) => uuid_of(user@.username) is Some && user_views(final(self).users@)
                    == with_user(user_views(old(self).users@), user@),
                Err(e) => uuid_of(user@.username) is None && e@
                    == "vmess user must be a valid uuid: '"@ + user@.username + "'"@
                    && final(self).users == old(self).users,
            },
    {
        if parse_uuid(user.username.as_str()).is_none() {
            let mut e = copy_text("vmess user must be a valid uuid: '");
            push_text(&mut e, user.username.as_str());
            push_text(&mut e, "'");
            return Err(e);
        }
        crate::proxy::inbound::users::add_user(&mut self.users, user);
        Ok(())
    }

    /// Removes a user.
    pub fn remove_user(&mut self, username: &str)
        ensures
            final(self).tag == old(self).tag,
            final(self).address == old(self).address,
            final(self).idle_timeout == old(self).idle_timeout,
            user_views(final(self).users@) == without_user(
                user_views(old(self).users@),
                username@,
            ),
    {
        crate::proxy::inbound::users::remove_user(&mut self.users, username);
    }
}

/// The destination of a request as a client writes it: the port, the type, and the host.
pub open spec fn vmess_addr_bytes(target: TargetView) -> Seq<u8> {
    match target {
        TargetView::Ip(addr) => match addr.ip {
            IpAddr::V4(ip) => be2_bytes(addr.port as int) + seq![1u8] + be4_bytes(ip as int),
            IpAddr::V6(ip) => be2_bytes(addr.port as int) + seq![3u8] + be16_bytes(ip as int),
        },
        TargetView::Domain(domain, port) => be2_bytes(port as int) + seq![
            2u8,
            encode_utf8(domain).len() as u8,
        ] + encode_utf8(domain),
    }
}

/// The server reads the destination that the client wrote, whatever follows it.
pub proof fn law_vmess_addr_round_trip(target: TargetView, tail: Seq<u8>)
    requires
        wire_safe(target),
    ensures
        vmess_addr(vmess_addr_bytes(target) + tail) == Ok::<TargetView, RequestError>(target),
{
    let data = vmess_addr_bytes(target) + tail;
    match target {
        TargetView::Ip(addr) => {
            law_be2_round_trip(addr.port as int, data.skip(2));
            assert(data =~= be2_bytes(addr.port as int) + data.skip(2));
            match addr.ip {
                IpAddr::V4(ip) => {
                    law_be4_round_trip(ip as int, tail);
                    assert(data.skip(3) =~= be4_bytes(ip as int) + tail);
                },
                IpAddr::V6(ip) => {
                    law_be16_round_trip(ip as int, tail);
                    assert(data.skip(3) =~= be16_bytes(ip as int) + tail);
                },
            }
        },
        TargetView::Domain(domain, port) => {
            let text = encode_utf8(domain);
            law_be2_round_trip(port as int, data.skip(2));
            assert(data =~= be2_bytes(port as int) + data.skip(2));
            let rest = data.skip(3);
            assert(rest[0] == text.len());
            assert(rest.subrange(1, 1 + rest[0]) =~= text);
            encode_utf8_valid_utf8(domain);
            encode_utf8_decode_utf8(domain);
        },
    }
}

/// A destination that is cut off is refused, and so is one of a type that the protocol does not have.
pub proof fn law_cut_destination_is_refused(target: TargetView, got: int, data: Seq<u8>)
    requires
        wire_safe(target),
        0 <= got < vmess_addr_bytes(target).len(),
    ensures
        vmess_addr(vmess_addr_bytes(target).take(got)) is Err,
        data.len() >= 3 && !(1 <= data[2] <= 3) ==> vmess_addr(data) == Err::<
            TargetView,
            RequestError,
        >(RequestError::UnsupportedType(data[2])),
{
    let all = vmess_addr_bytes(target);
    let part = all.take(got);
    if got >= 3 {
        assert(part[2] == all[2]);
        if let TargetView::Ip(addr) = target {
            if let IpAddr::V6(ip) = addr.ip {
                law_be16_round_trip(ip as int, Seq::empty());
            }
        } else if got >= 4 {
            assert(part.skip(3)[0] == all[3]);
        }
    }
}

/// A request header as a client writes it.
pub open spec fn request_header_bytes(
    iv: Seq<u8>,
    key: Seq<u8>,
    resp_v: u8,
    option: u8,
    security: u8,
    reserved: u8,
    command: u8,
    target: TargetView,
    padding: Seq<u8>,
    checksum: Seq<u8>,
) -> Seq<u8> {
    seq![1u8] + iv + key + seq![
        resp_v,
        option,
        (padding.len() * 16 + security) as u8,
        reserved,
        command,
    ] + vmess_addr_bytes(target) + padding + checksum
}

/// The server understands the request header that a client wrote: keys, response byte, cipher, command
/// and destination are those of the client, whatever the padding, the checksum and the fields that the
/// server does not look at hold.
pub proof fn law_request_is_understood(
    iv: Seq<u8>,
    key: Seq<u8>,
    resp_v: u8,
    option: u8,
    security: u8,
    reserved: u8,
    command: u8,
    target: TargetView,
    padding: Seq<u8>,
    checksum: Seq<u8>,
)
    requires
        iv.len() == 16,
        key.len() == 16,
        security < 16,
        padding.len() < 16,
        checksum.len() == 4,
        wire_safe(target),
    ensures
        request_of(
            request_header_bytes(
                iv,
                key,
                resp_v,
                option,
                security,
                reserved,
                command,
                target,
                padding,
                checksum,
            ),
        ) == Ok::<RequestView, RequestError>(
            RequestView {
                dst: target,
                security,
                is_udp: command == 2,
                req_body_iv: iv,
                req_body_key: key,
                resp_v,
            },
        ),
{
    let header = request_header_bytes(
        iv,
        key,
        resp_v,
        option,
        security,
        reserved,
        command,
        target,
        padding,
        checksum,
    );
    let addr = vmess_addr_bytes(target);
    law_vmess_addr_round_trip(target, Seq::empty());
    if let TargetView::Ip(a) = target {
        if let IpAddr::V6(ip) = a.ip {
            law_be16_round_trip(ip as int, Seq::empty());
        }
    }
    assert(addr.len() >= 4);
    assert(header[0] == 1);
    assert(header.subrange(1, 17) =~= iv);
    assert(header.subrange(17, 33) =~= key);
    assert(header[33] == resp_v);
    assert(header[35] == padding.len() * 16 + security);
    assert(header[37] == command);
    assert(header[35] / 16 == padding.len());
    assert(header[35] % 16 == security);
    assert(addr_part(header) =~= addr);
    assert(addr + Seq::<u8>::empty() =~= addr);
}

/// A client that seals its request with the key of a listed user is served: the request is the one that
/// it sealed, for the first user whose key opens it, and exactly the opening is taken off the stream.
pub proof fn law_client_is_served(
    users: Seq<AuthUserView>,
    i: int,
    uuid: u128,
    auth_id: Seq<u8>,
    sealed_len: Seq<u8>,
    nonce: Seq<u8>,
    sealed: Seq<u8>,
    tail: Seq<u8>,
    header: Seq<u8>,
    q: RequestView,
    step: AcceptStep,
)
    requires
        0 <= i < users.len(),
        uuid_of(users[i].username) == Some(uuid),
        auth_id.len() == 16,
        sealed_len.len() == 18,
        nonce.len() == 8,
        16 <= sealed.len() < 0x1_0000 + 16,
        opens_for(cmd_key(uuid), "VMess Header AEAD Key_Length"@, "VMess Header AEAD Nonce_Length"@,
            auth_id, nonce, sealed_len) == Some(be2_bytes(sealed.len() - 16)),
        opens_for(cmd_key(uuid), "VMess Header AEAD Key"@, "VMess Header AEAD Nonce"@,
            auth_id, nonce, sealed) == Some(header),
        forall|j: int, other: u128|
            0 <= j < i && uuid_of(#[trigger] users[j].username) == Some(other)
                ==> (#[trigger] opens_for(cmd_key(other), "VMess Header AEAD Key_Length"@,
                "VMess Header AEAD Nonce_Length"@, auth_id, nonce, sealed_len)) is None,
        request_of(header) == Ok::<RequestView, RequestError>(q),
        accepts(users, auth_id + sealed_len + nonce + sealed + tail, step),
    ensures
        step matches AcceptStep::Accepted { key, stream, response, used } && key@ == cmd_key(uuid)
            && stream.dst@ == q.dst && stream.is_udp == q.is_udp && stream.resp_v == q.resp_v
            && stream.keys.key@ == sha256_of(q.req_body_key).take(16) && stream.keys.iv@ == sha256_of(
            q.req_body_iv,
        ).take(16) && stream.reader.cipher.iv@ == q.req_body_iv && stream.writer.cipher.iv@
            == sha256_of(q.req_body_iv).take(16) && used == 42 + sealed.len(),
{
    let prefix = auth_id + sealed_len + nonce;
    let data = prefix + sealed + tail;
    assert(data.take(42) =~= prefix);
    assert(prefix.take(16) =~= auth_id);
    assert(prefix.subrange(16, 34) =~= sealed_len);
    assert(prefix.subrange(34, 42) =~= nonce);
    law_be2_round_trip(sealed.len() - 16, Seq::empty());
    assert(be2_bytes(sealed.len() - 16) + Seq::<u8>::empty() =~= be2_bytes(sealed.len() - 16));
    assert(length_for(users[i].username, prefix) == Some((sealed.len() - 16) as u16));
    law_only_listed_users(users, 0, prefix);
    assert forall|j: int| 0 <= j < i implies length_for(#[trigger] users[j].username, prefix) is None by {
        if let Some(other) = uuid_of(users[j].username) {
            assert(opens_for(cmd_key(other), "VMess Header AEAD Key_Length"@,
                "VMess Header AEAD Nonce_Length"@, auth_id, nonce, sealed_len) is None);
        }
    }
    assert(user_for(users, 0, prefix) == Some(i));
    assert(data.subrange(42, 42int + sealed.len()) =~= sealed);
}

/// What a box holds that was sealed with a user's key for one connection: key and nonce are derived from
/// labels, the authentication id and the connection's nonce, and the authentication id is bound to it.
pub open spec fn opens_for(
    key: Seq<u8>,
    key_label: Seq<char>,
    iv_label: Seq<char>,
    auth_id: Seq<u8>,
    nonce: Seq<u8>,
    sealed: Seq<u8>,
) -> Option<Seq<u8>> {
    aes_gcm_opened(
        vmess_kdf(key, seq![encode_utf8(key_label), auth_id, nonce]).take(16),
        vmess_kdf(key, seq![encode_utf8(iv_label), auth_id, nonce]).take(12),
        sealed,
        auth_id,
    )
}

/// A connection that no listed user's key opens is turned away, and one of which less has come than the
/// fixed part is waited for.
pub proof fn law_strangers_are_turned_away(users: Seq<AuthUserView>, data: Seq<u8>, step: AcceptStep)
    requires
        accepts(users, data, step),
        forall|j: int|
            0 <= j < users.len() ==> length_for((#[trigger] users[j]).username, data.take(42)) is None,
    ensures
        data.len() >= 42 ==> step == AcceptStep::AuthenticationFailed,
        data.len() < 42 ==> step == AcceptStep::More(42),
{
    law_only_listed_users(users, 0, data.take(42));
    if let Some(k) = user_for(users, 0, data.take(42)) {
        assert(length_for(users[k].username, data.take(42)) is None);
    }
}

/// The response header tells the client the byte that it chose: two sealed boxes, the first with the
/// length of what the second holds.
pub proof fn law_response_answers_the_request(key: Seq<u8>, iv: Seq<u8>, resp_v: u8)
    ensures
        response_header(key, iv, resp_v) == aes_gcm_sealed(
            vmess_kdf(key, seq![encode_utf8("AEAD Resp Header Len Key"@)]).take(16),
            vmess_kdf(iv, seq![encode_utf8("AEAD Resp Header Len IV"@)]).take(12),
            seq![0u8, 4u8],
            Seq::empty(),
        ) + aes_gcm_sealed(
            vmess_kdf(key, seq![encode_utf8("AEAD Resp Header Key"@)]).take(16),
            vmess_kdf(iv, seq![encode_utf8("AEAD Resp Header IV"@)]).take(12),
            seq![resp_v, 1u8, 0u8, 0u8],
            Seq::empty(),
        ),
{
    assert(be2_bytes(4) =~= seq![0u8, 4u8]);
}

/// What has been decrypted is handed out in order and without loss, as much as there is room for at a
/// time; the next chunk is turned to once nothing is left.
pub proof fn law_reading_loses_nothing(
    before: VmessReader,
    room: int,
    after: VmessReader,
    out_before: Seq<u8>,
    out_after: Seq<u8>,
    r: ReadPoll,
)
    requires
        before.state is FlushingData,
        0 <= room,
        read_polled(before, room, after, out_before, out_after, r),
    ensures
        r == ReadPoll::Ready,
        out_after + after.buf@ == out_before + before.buf@,
        out_after.len() - out_before.len() == if room < before.buf@.len() {
            room
        } else {
            before.buf@.len() as int
        },
        after.state == ReadState::WaitingLength <==> after.buf@.len() == 0,
        after.state != ReadState::WaitingLength ==> after.state == ReadState::FlushingData(
            after.buf@.len() as usize,
        ),
        after.cipher == before.cipher,
{
    let k = out_after.len() - out_before.len();
    assert(before.buf@.take(k) + before.buf@.skip(k) =~= before.buf@);
    assert(out_after + after.buf@ =~= out_before + before.buf@);
}

/// A chunk that cannot be right is refused and nothing of it is handed out: one that is announced as too
/// long, one that is shorter than its tag, and one that does not decrypt.
pub proof fn law_bad_chunks_are_refused(
    before: VmessReader,
    room: int,
    after: VmessReader,
    out_before: Seq<u8>,
    out_after: Seq<u8>,
    r: ReadPoll,
)
    requires
        read_polled(before, room, after, out_before, out_after, r),
    ensures
        before.state == ReadState::WaitingLength && before.buf@.len() == 2 && before.buf@[0] * 256
            + before.buf@[1] > 17408 ==> r == ReadPoll::ChunkTooLarge && out_after == out_before,
        before.state matches ReadState::WaitingData(n) && before.buf@.len() == n
            && before.cipher.security != BodySecurity::Plain && n < 16 ==> r
            == ReadPoll::ChunkShorterThanTag && out_after == out_before,
        before.state matches ReadState::WaitingData(n) && before.buf@.len() == n && n >= 16
            && before.cipher.opened(before.buf@) is None ==> r == ReadPoll::DecryptFailed && out_after
            == out_before,
        before.state matches ReadState::WaitingData(n) ==> (before.buf@.len() < n ==> r
            == ReadPoll::Need(n) && out_after == out_before && after == before),
{
}

/// The chunk sizes: a write goes into one chunk as far as that takes at most 16384 bytes with its tag.
pub proof fn law_chunk_size(cipher: BodyCipher, payload: Seq<u8>)
    ensures
        ({
            let tag: int = if cipher.security == BodySecurity::Plain {
                0
            } else {
                16
            };
            let n = chunk_payload_len(cipher, payload.len() as int);
            &&& payload.len() + tag <= 16384 ==> n == payload.len()
            &&& payload.len() + tag > 16384 ==> n + tag == 16384
        }),
{
}

/// Each chunk has a nonce of its own: two chunks less than 65536 apart are sealed under different nonces.
pub proof fn law_nonces_differ(a: BodyCipher, b: BodyCipher)
    requires
        a.iv@ == b.iv@,
        a.count != b.count,
    ensures
        a.nonce() != b.nonce(),
        a.iv@.len() == 16 ==> a.nonce().len() == 12 && a.nonce().skip(2) == a.iv@.subrange(2, 12),
{
    law_be2_round_trip(a.count as int, a.iv@.subrange(2, 12));
    law_be2_round_trip(b.count as int, b.iv@.subrange(2, 12));
    if a.iv@.len() == 16 {
        assert(a.nonce().skip(2) =~= a.iv@.subrange(2, 12));
    }
}

/// A server is set up only with users that have a UUID: the first one without is complained about.
pub proof fn law_every_user_needs_a_uuid(users: Seq<AuthUserView>, i: int)
    requires
        0 <= i <= users.len(),
    ensures
        first_bad_user(users, i) is None <==> forall|k: int|
            i <= k < users.len() ==> uuid_of((#[trigger] users[k]).username) is Some,
        first_bad_user(users, i) matches Some(b) ==> i <= b < users.len() && uuid_of(
            users[b].username,
        ) is None && forall|k: int| i <= k < b ==> uuid_of((#[trigger] users[k]).username) is Some,
    decreases users.len() - i,
{
    if i < users.len() {
        law_every_user_needs_a_uuid(users, i + 1);
    }
}

/// A chunk is the length of what follows in two bytes, and the payload, which is sealed unless
/// the body is plain: under the number of the chunk and ten bytes of the initial vector. The
/// number goes up by one with every sealed chunk.
pub proof fn law_chunk_form(cipher: BodyCipher, next: BodyCipher, payload: Seq<u8>)
    requires
        payload.len() <= 16384,
        cipher.iv@.len() == 16,
    ensures
        ({
            let chunk = chunk_bytes(cipher, payload);
            let nonce = cipher.nonce();
            &&& number(chunk.take(2)) == payload.len() + (if cipher.security == BodySecurity::Plain {
                0int
            } else {
                16
            })
            &&& number(nonce.take(2)) == cipher.count
            &&& nonce.skip(2) == cipher.iv@.subrange(2, 12)
            &&& cipher.security == BodySecurity::Plain ==> chunk.skip(2) == payload
            &&& cipher.security == BodySecurity::Aes128Gcm ==> chunk.skip(2) == aes_gcm_sealed(
                cipher.key@,
                nonce,
                payload,
                Seq::empty(),
            )
            &&& cipher.security == BodySecurity::ChaCha20Poly1305 ==> chunk.skip(2)
                == chacha_sealed(cipher.key@, nonce, payload)
        }),
        cipher.advanced(next) ==> next.security == cipher.security && next.key@ == cipher.key@
            && next.iv@ == cipher.iv@,
        cipher.advanced(next) && cipher.security != BodySecurity::Plain && cipher.count < 65535
            ==> next.count == cipher.count + 1,
        cipher.advanced(next) && cipher.security != BodySecurity::Plain && cipher.count == 65535
            ==> next.count == 0,
        cipher.advanced(next) && cipher.security == BodySecurity::Plain ==> next.count
            == cipher.count,
        BodySecurity::Plain == cipher.security ==> cipher.opened(payload) == Some(payload),
{
    let chunk = chunk_bytes(cipher, payload);
    law_big_endian(payload.len() + cipher.overhead(), Seq::empty());
    law_big_endian(cipher.count as int, Seq::empty());
    law_be2_round_trip(payload.len() + cipher.overhead(), Seq::empty());
    law_be2_round_trip(cipher.count as int, Seq::empty());
    assert(chunk.take(2) =~= be2_bytes(payload.len() + cipher.overhead()));
    assert(chunk.skip(2) =~= cipher.sealed(payload));
    assert(cipher.nonce().take(2) =~= be2_bytes(cipher.count as int));
    assert(cipher.nonce().skip(2) =~= cipher.iv@.subrange(2, 12));
}

/// A chunk that opens is handed out, as far as there is room for it, and the rest waits. Its
/// length is read first, and that many bytes are waited for.
pub proof fn law_good_chunks_are_handed_out(
    before: VmessReader,
    room: int,
    after: VmessReader,
    out_before: Seq<u8>,
    out_after: Seq<u8>,
    r: ReadPoll,
    plain: Seq<u8>,
)
    requires
        0 <= room,
        read_polled(before, room, after, out_before, out_after, r),
    ensures
        before.state == ReadState::WaitingLength && before.buf@.len() == 2 && 0 < before.buf@[0] * 256
            + before.buf@[1] <= 17408 ==> ({
            let n = (before.buf@[0] * 256 + before.buf@[1]) as usize;
            r == ReadPoll::Need(n) && after.state == ReadState::WaitingData(n) && after.buf@.len() == 0
                && out_after == out_before && after.cipher == before.cipher
        }),
        before.state == ReadState::WaitingLength && before.buf@.len() < 2 ==> r == ReadPoll::Need(2)
            && after == before && out_after == out_before,
        before.state matches ReadState::WaitingData(n) ==> (before.buf@.len() == n && (n >= 16
            || before.cipher.security == BodySecurity::Plain) && before.cipher.opened(before.buf@)
            == Some(plain) ==> r == ReadPoll::Ready && out_after + after.buf@ == out_before + plain
            && (room >= plain.len() ==> out_after == out_before + plain && after.state
            == ReadState::WaitingLength) && (room < plain.len() ==> out_after == out_before
            + plain.take(room)) && before.cipher.advanced(after.cipher)),
        before.state == ReadState::Closed ==> r == ReadPoll::Ready && out_after == out_before,
{
    if let ReadState::WaitingData(n) = before.state {
        if before.buf@.len() == n && (n >= 16 || before.cipher.security == BodySecurity::Plain)
            && before.cipher.opened(before.buf@) == Some(plain) {
            assert(decrypted(before, room, after, out_before, out_after, r));
            let mid = choose|mid: VmessReader|
                mid.buf@ == plain && #[trigger] flushed(mid, room, after, out_before, out_after);
            if room < plain.len() {
                assert(out_after + after.buf@ =~= out_before + plain);
            } else {
                assert(plain.take(plain.len() as int) =~= plain);
                assert(out_after + after.buf@ =~= out_before + plain);
            }
        }
    }
}

} // verus!
