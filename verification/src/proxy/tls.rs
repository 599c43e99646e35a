//! TLS settings of servers and clients, and the JLS handshake camouflage on top of them.

use crate::config::{
    copy_list, copy_opt, opt_text, texts, InboundConfig, InboundTlsConfig, OutboundConfig,
    OutboundTlsConfig,
};
use vstd::prelude::*;

verus! {

/// Effective TLS settings.
#[derive(Clone, Debug)]
pub struct TlsConfig {
    pub enable: bool,
    pub insecure: bool,
    pub zero_rtt: bool,
    pub sni: Option<String>,
    pub cert: Option<String>,
    pub key: Option<String>,
    pub alpns: Option<Vec<String>>,
    pub enable_jls: bool,
    pub jls_username: String,
    pub jls_password: String,
}

impl Default for TlsConfig {
    fn default() -> (c: TlsConfig)
        ensures
            !c.enable,
            !c.insecure,
            !c.zero_rtt,
            c.sni is None,
            c.cert is None,
            c.key is None,
            c.alpns is None,
            !c.enable_jls,
            c.jls_username@.len() == 0,
            c.jls_password@.len() == 0,
    {
        TlsConfig {
            enable: false,
            insecure: false,
            zero_rtt: false,
            sni: None,
            cert: None,
            key: None,
            alpns: None,
            enable_jls: false,
            jls_username: String::new(),
            jls_password: String::new(),
        }
    }
}

/// JLS is on without both a user name and a password.
#[derive(Debug, Clone, Copy, PartialEq, Eq, Structural)]
pub struct IncompleteJls;

/// JLS needs both a user name and a password.
pub fn validate_jls(enable: bool, username: &str, password: &str) -> (r: Result<(), IncompleteJls>)
    ensures
        r is Err <==> enable && (username@.len() == 0 || password@.len() == 0),
{
    if enable && (username.is_empty() || password.is_empty()) {
        return Err(IncompleteJls);
    }
    Ok(())
}

/// The texts of an optional list.
pub open spec fn opt_texts(v: Option<Vec<String>>) -> Option<Seq<Seq<char>>> {
    match v {
        Some(list) => Some(texts(list@)),
        None => None,
    }
}

fn copy_opt_list(v: &Option<Vec<String>>) -> (out: Option<Vec<String>>)
    ensures
        opt_texts(out) == opt_texts(*v),
{
    match v {
        Some(list) => Some(copy_list(list)),
        None => None,
    }
}

/// An optional text, or the empty one.
pub open spec fn text_or_empty(s: Option<String>) -> Seq<char> {
    match s {
        Some(t) => t@,
        None => Seq::empty(),
    }
}

fn copy_or_empty(s: &Option<String>) -> (out: String)
    ensures
        out@ == text_or_empty(*s),
{
    match s {
        Some(t) => t.clone(),
        None => {
            let out = String::new();
            assert(out@ =~= Seq::empty());
            out
        },
    }
}

/// Whether a server's TLS section asks for JLS without full credentials.
pub open spec fn inbound_jls_incomplete(tls: Option<InboundTlsConfig>) -> bool {
    tls matches Some(t) && t.enable_jls && (text_or_empty(t.jls_username).len() == 0
        || text_or_empty(t.jls_password).len() == 0)
}

/// Whether a client's TLS section asks for JLS without full credentials.
pub open spec fn outbound_jls_incomplete(tls: Option<OutboundTlsConfig>) -> bool {
    tls matches Some(t) && t.enable_jls && (text_or_empty(t.jls_username).len() == 0
        || text_or_empty(t.jls_password).len() == 0)
}

/// Whether `c` is what a server's TLS section sets up. Without a section TLS is on, with nothing else
/// set.
pub open spec fn serves_tls(tls: Option<InboundTlsConfig>, c: TlsConfig) -> bool {
    &&& !c.insecure
    &&& !c.zero_rtt
    &&& match tls {
        Some(t) => {
            &&& c.enable == t.enable
            &&& opt_text(c.sni) == opt_text(t.server_name)
            &&& opt_text(c.cert) == opt_text(t.cert)
            &&& opt_text(c.key) == opt_text(t.key)
            &&& opt_texts(c.alpns) == opt_texts(t.alpn)
            &&& c.enable_jls == t.enable_jls
            &&& c.jls_username@ == text_or_empty(t.jls_username)
            &&& c.jls_password@ == text_or_empty(t.jls_password)
        },
        None => {
            &&& c.enable
            &&& c.sni is None && c.cert is None && c.key is None && c.alpns is None
            &&& !c.enable_jls
            &&& c.jls_username@.len() == 0 && c.jls_password@.len() == 0
        },
    }
}

/// Whether `c` is what a client's TLS section sets up. Without a section TLS is on, with nothing else
/// set.
pub open spec fn uses_tls(tls: Option<OutboundTlsConfig>, c: TlsConfig) -> bool {
    &&& !c.zero_rtt
    &&& c.key is None
    &&& match tls {
        Some(t) => {
            &&& c.enable == t.enable
            &&& c.insecure == (t.insecure == Some(true))
            &&& opt_text(c.sni) == opt_text(t.server_name)
            &&& opt_text(c.cert) == opt_text(t.ca)
            &&& opt_texts(c.alpns) == opt_texts(t.alpn)
            &&& c.enable_jls == t.enable_jls
            &&& c.jls_username@ == text_or_empty(t.jls_username)
            &&& c.jls_password@ == text_or_empty(t.jls_password)
        },
        None => {
            &&& c.enable && !c.insecure
            &&& c.sni is None && c.cert is None && c.alpns is None
            &&& !c.enable_jls
            &&& c.jls_username@.len() == 0 && c.jls_password@.len() == 0
        },
    }
}

impl TlsConfig {
    /// The TLS settings of a server. Without a TLS section TLS is on, with nothing else set.
    pub fn from_inbound(config: &InboundConfig) -> (r: Result<TlsConfig, IncompleteJls>)
        ensures
            r is Err <==> inbound_jls_incomplete(config.tls),
            r matches Ok(c) ==> serves_tls(config.tls, c),
    {
        match &config.tls {
            Some(t) => {
                let jls_username = copy_or_empty(&t.jls_username);
                let jls_password = copy_or_empty(&t.jls_password);
                match validate_jls(t.enable_jls, jls_username.as_str(), jls_password.as_str()) {
                    Err(e) => Err(e),
                    Ok(_) => Ok(
                        TlsConfig {
                            enable: t.enable,
                            insecure: false,
                            zero_rtt: false,
                            sni: copy_opt(&t.server_name),
                            cert: copy_opt(&t.cert),
                            key: copy_opt(&t.key),
                            alpns: copy_opt_list(&t.alpn),
                            enable_jls: t.enable_jls,
                            jls_username,
                            jls_password,
                        },
                    ),
                }
            },
            None => {
                let mut c = TlsConfig::default();
                c.enable = true;
                Ok(c)
            },
        }
    }

    /// The TLS settings of a client. Without a TLS section TLS is on, with nothing else set.
    pub fn from_outbound(config: &OutboundConfig) -> (r: Result<TlsConfig, IncompleteJls>)
        ensures
            r is Err <==> outbound_jls_incomplete(config.tls),
            r matches Ok(c) ==> uses_tls(config.tls, c),
    {
        match &config.tls {
            Some(t) => {
                let jls_username = copy_or_empty(&t.jls_username);
                let jls_password = copy_or_empty(&t.jls_password);
                match validate_jls(t.enable_jls, jls_username.as_str(), jls_password.as_str()) {
                    Err(e) => Err(e),
                    Ok(_) => Ok(
                        TlsConfig {
                            enable: t.enable,
                            insecure: match t.insecure {
                                Some(b) => b,
                                None => false,
                            },
                            zero_rtt: false,
                            sni: copy_opt(&t.server_name),
                            cert: copy_opt(&t.ca),
                            key: None,
                            alpns: copy_opt_list(&t.alpn),
                            enable_jls: t.enable_jls,
                            jls_username,
                            jls_password,
                        },
                    ),
                }
            },
            None => {
                let mut c = TlsConfig::default();
                c.enable = true;
                Ok(c)
            },
        }
    }
}

/// How the JLS handshake of a TLS connection ended.
#[derive(Debug, Clone, Copy, PartialEq, Eq, Structural)]
pub enum JlsState {
    NotAuthed,
    AuthSuccess,
}

/// A connection that was to authenticate as JLS did not.
#[derive(Debug, Clone, Copy, PartialEq, Eq, Structural)]
pub struct JlsAuthFailed;

/// Refuses a connection that is configured for JLS but did not authenticate as JLS.
pub fn verify_jls_connection(tls: &TlsConfig, state: JlsState) -> (r: Result<(), JlsAuthFailed>)
    ensures
        r is Err <==> tls.enable_jls && state != JlsState::AuthSuccess,
{
    if tls.enable_jls && state != JlsState::AuthSuccess {
        return Err(JlsAuthFailed);
    }
    Ok(())
}

/// The JLS account that a server or client is set up with.
#[derive(Debug)]
pub struct JlsAccount {
    pub username: String,
    pub password: String,
    pub server_name: Option<String>,
}

/// The JLS account of a client, if JLS is on. Clients name no server.
pub fn configure_jls_client(tls: &TlsConfig) -> (r: Option<JlsAccount>)
    ensures
        match r {
            Some(a) => tls.enable_jls && a.username@ == tls.jls_username@ && a.password@
                == tls.jls_password@ && a.server_name is None,
            None => !tls.enable_jls,
        },
{
    if !tls.enable_jls {
        return None;
    }
    Some(
        JlsAccount {
            username: tls.jls_username.clone(),
            password: tls.jls_password.clone(),
            server_name: None,
        },
    )
}

/// The JLS account of a server, if JLS is on, with the server name if there is one.
pub fn configure_jls_server(tls: &TlsConfig) -> (r: Option<JlsAccount>)
    ensures
        match r {
            Some(a) => tls.enable_jls && a.username@ == tls.jls_username@ && a.password@
                == tls.jls_password@ && opt_text(a.server_name) == opt_text(tls.sni),
            None => !tls.enable_jls,
        },
{
    if !tls.enable_jls {
        return None;
    }
    Some(
        JlsAccount {
            username: tls.jls_username.clone(),
            password: tls.jls_password.clone(),
            server_name: copy_opt(&tls.sni),
        },
    )
}

/// Settings that were accepted never run JLS without full credentials.
pub proof fn law_accepted_jls_is_complete(config: InboundConfig, other: OutboundConfig)
    ensures
        !inbound_jls_incomplete(config.tls) && config.tls is Some && config.tls->0.enable_jls
            ==> text_or_empty(config.tls->0.jls_username).len() > 0 && text_or_empty(
            config.tls->0.jls_password,
        ).len() > 0,
        !outbound_jls_incomplete(other.tls) && other.tls is Some && other.tls->0.enable_jls
            ==> text_or_empty(other.tls->0.jls_username).len() > 0 && text_or_empty(
            other.tls->0.jls_password,
        ).len() > 0,
{
}

/// A server's TLS settings are those of its configuration; without one TLS is on and nothing is set.
pub proof fn law_server_tls_follows_its_configuration(tls: Option<InboundTlsConfig>, c: TlsConfig)
    requires
        serves_tls(tls, c),
    ensures
        tls is None ==> c.enable && !c.enable_jls && c.sni is None && c.cert is None && c.key is None
            && c.alpns is None,
        tls matches Some(t) ==> {
            &&& c.enable == t.enable
            &&& c.enable_jls == t.enable_jls
            &&& c.sni is Some == t.server_name is Some
            &&& c.sni is Some ==> c.sni->0@ == t.server_name->0@
            &&& c.cert is Some == t.cert is Some
            &&& c.cert is Some ==> c.cert->0@ == t.cert->0@
            &&& c.key is Some == t.key is Some
            &&& c.key is Some ==> c.key->0@ == t.key->0@
            &&& c.alpns is Some == t.alpn is Some
            &&& c.alpns is Some ==> texts(c.alpns->0@) == texts(t.alpn->0@)
            &&& t.jls_username is Some ==> c.jls_username@ == t.jls_username->0@
            &&& t.jls_password is Some ==> c.jls_password@ == t.jls_password->0@
        },
        !c.insecure && !c.zero_rtt,
{
}

/// A client's TLS settings are those of its configuration: it trusts anybody only if told so.
pub proof fn law_client_tls_follows_its_configuration(tls: Option<OutboundTlsConfig>, c: TlsConfig)
    requires
        uses_tls(tls, c),
    ensures
        tls is None ==> c.enable && !c.insecure && !c.enable_jls && c.sni is None && c.cert is None
            && c.alpns is None,
        tls matches Some(t) ==> {
            &&& c.enable == t.enable
            &&& c.enable_jls == t.enable_jls
            &&& t.insecure == Some(true) ==> c.insecure
            &&& t.insecure != Some(true) ==> !c.insecure
            &&& c.sni is Some == t.server_name is Some
            &&& c.sni is Some ==> c.sni->0@ == t.server_name->0@
            &&& c.cert is Some == t.ca is Some
            &&& c.cert is Some ==> c.cert->0@ == t.ca->0@
            &&& c.alpns is Some == t.alpn is Some
            &&& c.alpns is Some ==> texts(c.alpns->0@) == texts(t.alpn->0@)
            &&& t.jls_username is Some ==> c.jls_username@ == t.jls_username->0@
            &&& t.jls_password is Some ==> c.jls_password@ == t.jls_password->0@
        },
        c.key is None && !c.zero_rtt,
{
}

/// JLS needs both names: it is incomplete exactly if it is on and one of them is missing or empty.
pub proof fn law_jls_needs_both_names(tls: InboundTlsConfig, other: OutboundTlsConfig)
    ensures
        inbound_jls_incomplete(Some(tls)) <==> tls.enable_jls && !(tls.jls_username is Some
            && tls.jls_username->0@.len() > 0 && tls.jls_password is Some
            && tls.jls_password->0@.len() > 0),
        outbound_jls_incomplete(Some(other)) <==> other.enable_jls && !(other.jls_username is Some
            && other.jls_username->0@.len() > 0 && other.jls_password is Some
            && other.jls_password->0@.len() > 0),
        !inbound_jls_incomplete(None),
        !outbound_jls_incomplete(None),
{
}

} // verus!
