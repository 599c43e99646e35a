//! What all interfaces have in common: who may use them, and from where.

use crate::text::{copy_text, push_text, str_eq};
use vstd::prelude::*;

verus! {

/// The request was served.
pub const STATUS_OK: u16 = 200;

/// The request was served, and there is nothing to say.
pub const STATUS_NO_CONTENT: u16 = 204;

/// The request makes no sense.
pub const STATUS_BAD_REQUEST: u16 = 400;

/// The request lacks the password.
pub const STATUS_UNAUTHORIZED: u16 = 401;

/// What the request is about does not exist.
pub const STATUS_NOT_FOUND: u16 = 404;

/// The answer would be too long.
pub const STATUS_PAYLOAD_TOO_LARGE: u16 = 413;

/// Something went wrong on this side.
pub const STATUS_INTERNAL_SERVER_ERROR: u16 = 500;

/// Something went wrong on the way out.
pub const STATUS_BAD_GATEWAY: u16 = 502;

/// The way out took too long.
pub const STATUS_GATEWAY_TIMEOUT: u16 = 504;

/// Whether a byte may stand in a header that is read as text.
pub open spec fn is_visible_ascii(b: u8) -> bool {
    (32 <= b && b < 127) || b == 9
}

/// The text of a header, if it is one.
pub open spec fn header_chars(bytes: Seq<u8>) -> Option<Seq<char>> {
    if forall|i: int| 0 <= i < bytes.len() ==> is_visible_ascii(#[trigger] bytes[i]) {
        Some(Seq::new(bytes.len(), |i: int| bytes[i] as char))
    } else {
        None
    }
}

/// Reads a header as text: visible ASCII and tabs only.
pub fn header_text(bytes: &[u8]) -> (r: Option<String>)
    ensures
        crate::config::opt_text(r) == header_chars(bytes@),
{
    let mut out = copy_text("");
    let mut i: usize = 0;
    proof {
        reveal_strlit("");
        assert(out@ =~= Seq::<char>::empty());
    }
    while i < bytes.len()
        invariant
            i <= bytes@.len(),
            out@.len() == i,
            forall|k: int| 0 <= k < i ==> is_visible_ascii(#[trigger] bytes@[k]),
            forall|k: int| 0 <= k < i ==> #[trigger] out@[k] == bytes@[k] as char,
        decreases bytes@.len() - i,
    {
        let b: u8 = bytes[i];
        if !((32 <= b && b < 127) || b == 9) {
            assert(!is_visible_ascii(bytes@[i as int]));
            return None;
        }
        out.push(b as char);
        i += 1;
    }
    assert(out@ =~= Seq::new(bytes@.len(), |k: int| bytes@[k] as char));
    Some(out)
}

/// Whether a request with that header may pass: no password is set, or the header is the password, on
/// its own or as a bearer token.
pub open spec fn is_authorized(header: Option<Seq<u8>>, pwd: Seq<char>) -> bool {
    pwd.len() == 0 || (header matches Some(h) && (header_chars(h) == Some(pwd) || header_chars(h)
        == Some("Bearer "@ + pwd)))
}

/// The bytes of a header, where there is one.
pub open spec fn opt_slice(header: Option<&[u8]>) -> Option<Seq<u8>> {
    match header {
        Some(h) => Some(h@),
        None => None,
    }
}

/// Checks the `Authorization` header of a request against the password. A refusal is the status to
/// answer with.
pub fn check_auth(header: Option<&[u8]>, pwd: &str) -> (r: Result<(), u16>)
    ensures
        r == if is_authorized(opt_slice(header), pwd@) {
            Ok::<(), u16>(())
        } else {
            Err(STATUS_UNAUTHORIZED)
        },
{
    if pwd.is_empty() {
        return Ok(());
    }
    if let Some(bytes) = header {
        if let Some(text) = header_text(bytes) {
            if str_eq(text.as_str(), pwd) {
                return Ok(());
            }
            let mut bearer = copy_text("Bearer ");
            push_text(&mut bearer, pwd);
            if str_eq(text.as_str(), bearer.as_str()) {
                return Ok(());
            }
        }
    }
    Err(STATUS_UNAUTHORIZED)
}

/// Without the header, or with one that is neither the password nor the bearer form of it, a request
/// is refused wherever a password is set; where none is set all requests pass.
pub proof fn law_only_the_password_opens(header: Option<Seq<u8>>, pwd: Seq<char>)
    ensures
        pwd.len() == 0 ==> is_authorized(header, pwd),
        pwd.len() > 0 && header is None ==> !is_authorized(header, pwd),
        pwd.len() > 0 && is_authorized(header, pwd) ==> header_chars(header->0) == Some(pwd)
            || header_chars(header->0) == Some("Bearer "@ + pwd),
{
}

/// How long a browser may remember the answer to a preflight request, in seconds.
pub open spec fn max_age() -> Seq<char> {
    "86400"@
}

/// What becomes of a request from a page of another origin.
#[derive(Debug, Clone, Copy, PartialEq, Eq, Structural)]
pub enum CorsStep {
    /// It is a preflight request: it is answered at once with this status, and may be remembered.
    Answer(u16),
    /// It is handed on, and the headers are added to the answer.
    HandOn,
}

/// Decides what becomes of a request by its method.
pub fn cors_step(is_options: bool) -> (step: CorsStep)
    ensures
        step == if is_options {
            CorsStep::Answer(STATUS_NO_CONTENT)
        } else {
            CorsStep::HandOn
        },
{
    if is_options {
        CorsStep::Answer(STATUS_NO_CONTENT)
    } else {
        CorsStep::HandOn
    }
}

/// The headers that every answer carries, and one more for preflight requests.
pub open spec fn cors_list(preflight: bool) -> Seq<(Seq<char>, Seq<char>)> {
    let all = seq![
        ("access-control-allow-origin"@, "*"@),
        ("access-control-allow-methods"@, "GET, PUT, DELETE, POST, OPTIONS"@),
        ("access-control-allow-headers"@, "Content-Type, Authorization"@),
    ];
    if preflight {
        all.push(("access-control-max-age"@, max_age()))
    } else {
        all
    }
}

/// Lists the headers that an answer carries.
pub fn cors_headers(preflight: bool) -> (list: Vec<(&'static str, &'static str)>)
    ensures
        list@.map_values(|h: (&'static str, &'static str)| (h.0@, h.1@)) == cors_list(preflight),
{
    let mut list: Vec<(&'static str, &'static str)> = vec![
        ("access-control-allow-origin", "*"),
        ("access-control-allow-methods", "GET, PUT, DELETE, POST, OPTIONS"),
        ("access-control-allow-headers", "Content-Type, Authorization"),
    ];
    if preflight {
        list.push(("access-control-max-age", "86400"));
    }
    assert(list@.map_values(|h: (&'static str, &'static str)| (h.0@, h.1@)) =~= cors_list(
        preflight,
    ));
    list
}

/// A request is let in with the password alone, or behind the word `Bearer`, in its header.
/// Any other header, or none, is turned away, unless no password is set.
pub proof fn law_who_is_let_in(header: Seq<u8>, pwd: Seq<char>)
    ensures
        is_authorized(None, pwd) <==> pwd.len() == 0,
        pwd.len() > 0 && header.map_values(|b: u8| b as char) != pwd && header.map_values(
            |b: u8| b as char,
        ) != "Bearer "@ + pwd ==> !is_authorized(Some(header), pwd),
        (forall|i: int| 0 <= i < pwd.len() ==> ' ' <= #[trigger] pwd[i] <= '~')
            && (header.map_values(|b: u8| b as char) == pwd || header.map_values(|b: u8| b as char)
            == "Bearer "@ + pwd) ==> is_authorized(Some(header), pwd),
{
    reveal_strlit("Bearer ");
    let read = header.map_values(|b: u8| b as char);
    assert(Seq::new(header.len(), |i: int| header[i] as char) =~= read);
    if (forall|i: int| 0 <= i < pwd.len() ==> ' ' <= #[trigger] pwd[i] <= '~') {
        if read == pwd {
            assert forall|i: int| 0 <= i < header.len() implies is_visible_ascii(
                #[trigger] header[i],
            ) by {
                assert(read[i] == pwd[i]);
            }
        }
        if read == "Bearer "@ + pwd {
            assert forall|i: int| 0 <= i < header.len() implies is_visible_ascii(
                #[trigger] header[i],
            ) by {
                assert(read[i] == ("Bearer "@ + pwd)[i]);
                if i >= 7 {
                    assert(read[i] == pwd[i - 7]);
                }
            }
        }
    }
}

/// A header with a control character in it, but for the tab, cannot be read.
pub proof fn law_unreadable_headers(bytes: Seq<u8>, i: int)
    requires
        0 <= i < bytes.len(),
        (bytes[i] < 32 && bytes[i] != 9) || bytes[i] >= 127,
    ensures
        header_chars(bytes) is None,
{
    assert(!is_visible_ascii(bytes[i]));
}

/// Every answer may be read from every origin, and the answer to a preflight may be kept for a
/// day.
pub proof fn law_answers_are_for_every_origin(preflight: bool)
    ensures
        cors_list(preflight).contains(("access-control-allow-origin"@, "*"@)),
        cors_list(preflight).contains(
            ("access-control-allow-methods"@, "GET, PUT, DELETE, POST, OPTIONS"@),
        ),
        cors_list(preflight).contains(
            ("access-control-allow-headers"@, "Content-Type, Authorization"@),
        ),
        preflight ==> cors_list(preflight).contains(("access-control-max-age"@, "86400"@)),
        cors_list(true).drop_last() == cors_list(false),
        cors_list(false).len() == 3,
{
    let list = cors_list(preflight);
    assert(list[0] == ("access-control-allow-origin"@, "*"@));
    assert(list[1] == ("access-control-allow-methods"@, "GET, PUT, DELETE, POST, OPTIONS"@));
    assert(list[2] == ("access-control-allow-headers"@, "Content-Type, Authorization"@));
    if preflight {
        assert(list[3] == ("access-control-max-age"@, "86400"@));
    }
    assert(cors_list(true).drop_last() =~= cors_list(false));
}

} // verus!
