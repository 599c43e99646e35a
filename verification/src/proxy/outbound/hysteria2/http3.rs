//! The little of HTTP/3 that the Hysteria2 handshake needs: an empty SETTINGS frame on the control
//! stream, one HEADERS frame with the auth request, and the HEADERS frame of the answer.

use crate::proxy::outbound::hysteria2::qpack::{
    decode_field_section, encode_field_section, field_views, fields_fit, law_field_section_round_trip,
    section_bytes, section_parse, str_fields, FieldView, QpackError,
};
use crate::proxy::outbound::hysteria2::varint::{
    append_varint, law_varint_prefix, law_varint_round_trip, parse_varint, varint_bytes, varint_parse,
    varint_size, varint_width, width_of, VarintError, MAX_VARINT,
};
use crate::random::{is_lower_word, random_word};
use crate::text::{eq_ignore_ascii_case, parse_decimal, parse_uint, same_ascii, str_eq};
use crate::wire::{copy_range, put_slice};
use vstd::prelude::*;
use vstd::utf8::encode_utf8;

verus! {

/// The HTTP/3 status code that a server answers on success.
pub const STATUS_AUTH_OK: u16 = 233;

/// The stream type of the HTTP/3 control stream.
pub const STREAM_TYPE_CONTROL: u8 = 0x00;

/// The HTTP/3 frame type for SETTINGS.
pub const FRAME_SETTINGS: u64 = 0x04;

/// The HTTP/3 frame type for HEADERS.
pub const FRAME_HEADERS: u64 = 0x01;

/// How many bytes of an answer are read at most.
pub const MAX_AUTH_RESPONSE_BYTES: usize = 65536;

/// What a server answered to the auth request.
#[derive(Clone, Copy, Debug, PartialEq, Eq, Structural)]
pub struct AuthResult {
    pub status: u16,
    pub udp_enabled: bool,
}

/// Why an answer is no auth answer.
#[derive(Clone, Copy, Debug, PartialEq, Eq, Structural)]
pub enum AuthError {
    /// The frame does not fit into what is read of an answer.
    FrameTooLarge,
    /// The header fields cannot be decoded.
    Headers(QpackError),
    /// The `:status` field is no status code.
    InvalidStatus,
    /// The first frame brings no status: the server plays an ordinary web site.
    Masqueraded,
}

/// What to do with the answer read so far.
#[derive(Clone, Copy, Debug, PartialEq, Eq, Structural)]
pub enum AuthStep {
    /// Read on until there are that many bytes in all.
    More(usize),
    Done(AuthResult),
    Failed(AuthError),
}

/// What the client sends on its control stream: the stream type and an empty SETTINGS frame.
pub fn control_stream_bytes() -> (out: Vec<u8>)
    ensures
        out@ == seq![STREAM_TYPE_CONTROL, FRAME_SETTINGS as u8, 0u8],
{
    let mut out: Vec<u8> = Vec::new();
    out.push(STREAM_TYPE_CONTROL);
    out.push(FRAME_SETTINGS as u8);
    out.push(0);
    assert(out@ =~= seq![STREAM_TYPE_CONTROL, FRAME_SETTINGS as u8, 0u8]);
    out
}

/// The header fields of the auth request.
pub open spec fn auth_request_fields(password: Seq<char>, padding: Seq<char>) -> Seq<FieldView> {
    seq![
        (":method"@, "POST"@),
        (":scheme"@, "https"@),
        (":path"@, "/auth"@),
        (":authority"@, "hysteria"@),
        ("hysteria-auth"@, password),
        ("hysteria-cc-rx"@, "0"@),
        ("hysteria-padding"@, padding),
    ]
}

/// A HEADERS frame around a field section.
pub open spec fn headers_frame(payload: Seq<u8>) -> Seq<u8> {
    varint_bytes(FRAME_HEADERS) + varint_bytes(payload.len() as u64) + payload
}

/// Builds the auth request: one HEADERS frame.
pub fn build_auth_request(password: &str, padding: &str) -> (out: Vec<u8>)
    ensures
        out@ == headers_frame(section_bytes(auth_request_fields(password@, padding@))),
{
    let fields: [(&str, &str); 7] = [
        (":method", "POST"),
        (":scheme", "https"),
        (":path", "/auth"),
        (":authority", "hysteria"),
        ("hysteria-auth", password),
        ("hysteria-cc-rx", "0"),
        ("hysteria-padding", padding),
    ];
    assert(str_fields(fields@) =~= auth_request_fields(password@, padding@));
    let payload = encode_field_section(&fields);
    let mut frame: Vec<u8> = Vec::new();
    append_varint(&mut frame, FRAME_HEADERS);
    append_varint(&mut frame, payload.len() as u64);
    put_slice(&mut frame, payload.as_slice());
    frame
}

/// A short unpredictable word for the padding field.
pub fn random_padding() -> (padding: String)
    ensures
        is_lower_word(padding@, 16),
{
    random_word(16)
}

/// What the fields of an answer say: the last status, and whether the last `hysteria-udp` field
/// reads `true`. `None` where a status is no number.
pub open spec fn auth_fields(fields: Seq<FieldView>) -> Option<(Option<u16>, bool)>
    decreases fields.len(),
{
    if fields.len() == 0 {
        Some((None, false))
    } else {
        match auth_fields(fields.drop_last()) {
            None => None,
            Some((status, udp)) => {
                let (name, value) = fields.last();
                if name == ":status"@ {
                    match parse_uint(value, u16::MAX as nat) {
                        None => None,
                        Some(n) => Some((Some(n as u16), udp)),
                    }
                } else if same_ascii(name, "hysteria-udp"@) {
                    Some((status, value == "true"@))
                } else {
                    Some((status, udp))
                }
            },
        }
    }
}

proof fn lemma_auth_fields_prefix(fields: Seq<FieldView>, n: int)
    requires
        0 <= n <= fields.len(),
        auth_fields(fields.take(n)) is None,
    ensures
        auth_fields(fields) is None,
    decreases fields.len() - n,
{
    if n < fields.len() {
        assert(fields.take(n + 1).drop_last() =~= fields.take(n));
        lemma_auth_fields_prefix(fields, n + 1);
    } else {
        assert(fields.take(n) =~= fields);
    }
}

/// Reads the status and the UDP flag out of an answer's fields.
pub fn read_auth_fields(fields: &Vec<(String, String)>) -> (r: Option<(Option<u16>, bool)>)
    ensures
        r == auth_fields(field_views(fields@)),
{
    let mut status: Option<u16> = None;
    let mut udp: bool = false;
    let ghost all = field_views(fields@);
    let mut i: usize = 0;
    assert(all.take(0) =~= Seq::<FieldView>::empty());
    while i < fields.len()
        invariant
            i <= fields@.len(),
            all == field_views(fields@),
            auth_fields(all.take(i as int)) == Some((status, udp)),
        decreases fields@.len() - i,
    {
        let name = fields[i].0.as_str();
        let value = fields[i].1.as_str();
        proof {
            assert(all.take(i + 1).drop_last() =~= all.take(i as int));
            assert(all.take(i + 1).last() == (name@, value@));
        }
        if str_eq(name, ":status") {
            match parse_decimal(value, u16::MAX as u64) {
                None => {
                    proof {
                        lemma_auth_fields_prefix(all, i + 1);
                    }
                    return None;
                },
                Some(n) => {
                    status = Some(n as u16);
                },
            }
        } else if eq_ignore_ascii_case(name, "hysteria-udp") {
            udp = str_eq(value, "true");
        }
        i += 1;
    }
    assert(all.take(i as int) =~= all);
    Some((status, udp))
}

/// What the header block of an answer says.
pub open spec fn auth_headers(payload: Seq<u8>) -> AuthStep {
    match section_parse(payload) {
        Err(e) => AuthStep::Failed(AuthError::Headers(e)),
        Ok(fields) => match auth_fields(fields) {
            None => AuthStep::Failed(AuthError::InvalidStatus),
            Some((None, _)) => AuthStep::Failed(AuthError::Masqueraded),
            Some((Some(status), udp_enabled)) => AuthStep::Done(AuthResult { status, udp_enabled }),
        },
    }
}

/// What the answer read so far comes to: its first frame must be a HEADERS frame with a status.
pub open spec fn auth_step(data: Seq<u8>) -> AuthStep {
    match varint_parse(data) {
        Err(VarintError::Empty) => AuthStep::More(1),
        Err(VarintError::Truncated) => AuthStep::More(varint_width(data[0]) as usize),
        Ok((frame_type, a)) => match varint_parse(data.skip(a)) {
            Err(VarintError::Empty) => AuthStep::More((a + 1) as usize),
            Err(VarintError::Truncated) => AuthStep::More((a + varint_width(data[a])) as usize),
            Ok((frame_len, b)) => if frame_len > MAX_AUTH_RESPONSE_BYTES - a - b {
                AuthStep::Failed(AuthError::FrameTooLarge)
            } else if data.len() < a + b + frame_len {
                AuthStep::More((a + b + frame_len) as usize)
            } else if frame_type != FRAME_HEADERS {
                AuthStep::Failed(AuthError::Masqueraded)
            } else {
                auth_headers(data.subrange(a + b, a + b + frame_len))
            },
        },
    }
}

/// Reads the answer to the auth request. `data` is what has been read of it so far.
pub fn authenticate(data: &[u8]) -> (step: AuthStep)
    ensures
        step == auth_step(data@),
        step matches AuthStep::More(n) ==> n > data@.len(),
{
    let (frame_type, a): (u64, usize) = match parse_varint(data) {
        Err(VarintError::Empty) => {
            return AuthStep::More(1);
        },
        Err(VarintError::Truncated) => {
            return AuthStep::More(width_of(data[0]));
        },
        Ok(p) => p,
    };
    let rest = vstd::slice::slice_subrange(data, a, data.len());
    assert(rest@ =~= data@.skip(a as int));
    let (frame_len, b): (u64, usize) = match parse_varint(rest) {
        Err(VarintError::Empty) => {
            return AuthStep::More(a + 1);
        },
        Err(VarintError::Truncated) => {
            return AuthStep::More(a + width_of(rest[0]));
        },
        Ok(p) => p,
    };
    if frame_len > (MAX_AUTH_RESPONSE_BYTES - a - b) as u64 {
        return AuthStep::Failed(AuthError::FrameTooLarge);
    }
    let end: usize = a + b + frame_len as usize;
    if data.len() < end {
        return AuthStep::More(end);
    }
    if frame_type != FRAME_HEADERS {
        return AuthStep::Failed(AuthError::Masqueraded);
    }
    let payload = copy_range(data, a + b, end);
    match decode_field_section(payload.as_slice()) {
        Err(e) => AuthStep::Failed(AuthError::Headers(e)),
        Ok(fields) => match read_auth_fields(&fields) {
            None => AuthStep::Failed(AuthError::InvalidStatus),
            Some((None, _)) => AuthStep::Failed(AuthError::Masqueraded),
            Some((Some(status), udp_enabled)) => AuthStep::Done(
                AuthResult { status, udp_enabled },
            ),
        },
    }
}

/// The auth request is one HEADERS frame, and its field section decodes to the request's fields.
pub proof fn law_auth_request_is_decodable(password: Seq<char>, padding: Seq<char>)
    requires
        section_bytes(auth_request_fields(password, padding)).len() <= MAX_VARINT,
        encode_utf8(password).len() <= u64::MAX,
        encode_utf8(padding).len() <= u64::MAX,
    ensures
        ({
            let fields = auth_request_fields(password, padding);
            let payload = section_bytes(fields);
            let request = headers_frame(payload);
            let n = varint_size(payload.len() as u64);
            &&& varint_parse(request) == Ok::<(u64, int), VarintError>((FRAME_HEADERS, 1))
            &&& varint_parse(request.skip(1)) == Ok::<(u64, int), VarintError>(
                (payload.len() as u64, n),
            )
            &&& request.skip(1 + n) == payload
            &&& section_parse(payload) == Ok::<Seq<FieldView>, QpackError>(fields)
        }),
{
    let fields = auth_request_fields(password, padding);
    let payload = section_bytes(fields);
    let request = headers_frame(payload);
    let len = payload.len() as u64;
    law_varint_round_trip(FRAME_HEADERS, varint_bytes(len) + payload);
    law_varint_round_trip(len, payload);
    assert(request =~= varint_bytes(FRAME_HEADERS) + (varint_bytes(len) + payload));
    assert(request.skip(1) =~= varint_bytes(len) + payload);
    assert(request.skip(1 + varint_size(len)) =~= payload);
    reveal_strlit(":method");
    reveal_strlit("POST");
    reveal_strlit(":scheme");
    reveal_strlit("https");
    reveal_strlit(":path");
    reveal_strlit("/auth");
    reveal_strlit(":authority");
    reveal_strlit("hysteria");
    reveal_strlit("hysteria-auth");
    reveal_strlit("hysteria-cc-rx");
    reveal_strlit("0");
    reveal_strlit("hysteria-padding");
    lemma_short(":method"@);
    lemma_short("POST"@);
    lemma_short(":scheme"@);
    lemma_short("https"@);
    lemma_short(":path"@);
    lemma_short("/auth"@);
    lemma_short(":authority"@);
    lemma_short("hysteria"@);
    lemma_short("hysteria-auth"@);
    lemma_short("hysteria-cc-rx"@);
    lemma_short("0"@);
    lemma_short("hysteria-padding"@);
    assert(fields_fit(fields));
    law_field_section_round_trip(fields);
}

proof fn lemma_short(s: Seq<char>)
    ensures
        encode_utf8(s).len() <= 4 * s.len(),
    decreases s.len(),
{
    reveal_with_fuel(encode_utf8, 2);
    if s.len() > 0 {
        lemma_short(s.drop_first());
    }
}

/// A server that answers the auth status and nothing else is understood: the client learns that it
/// is in, and whether UDP may be used.
pub proof fn law_auth_answer(status: nat, udp: bool)
    requires
        100 <= status <= 999,
    ensures
        auth_fields(
            seq![
                (":status"@, crate::text::dec_text(status)),
                ("Hysteria-UDP"@, if udp { "true"@ } else { "false"@ }),
            ],
        ) == Some((Some(status as u16), udp)),
{
    crate::text::law_decimal_round_trip(status, u16::MAX as nat);
    reveal_with_fuel(auth_fields, 3);
    reveal_strlit(":status");
    reveal_strlit("Hysteria-UDP");
    reveal_strlit("hysteria-udp");
    reveal_strlit("true");
    reveal_strlit("false");
    let fields = seq![
        (":status"@, crate::text::dec_text(status)),
        ("Hysteria-UDP"@, if udp { "true"@ } else { "false"@ }),
    ];
    assert(fields.drop_last() =~= seq![(":status"@, crate::text::dec_text(status))]);
    assert(fields.drop_last().drop_last() =~= Seq::<FieldView>::empty());
    assert("true"@.len() == 4);
    assert("false"@.len() == 5);
}

proof fn lemma_fields_after(a: Seq<FieldView>, b: Seq<FieldView>, after: Seq<FieldView>)
    requires
        auth_fields(a) == auth_fields(b),
    ensures
        auth_fields(a + after) == auth_fields(b + after),
    decreases after.len(),
{
    if after.len() == 0 {
        assert(a + after =~= a);
        assert(b + after =~= b);
    } else {
        lemma_fields_after(a, b, after.drop_last());
        assert((a + after).drop_last() =~= a + after.drop_last());
        assert((b + after).drop_last() =~= b + after.drop_last());
        assert((a + after).last() == after.last());
        assert((b + after).last() == after.last());
    }
}

/// A field that is neither the status nor the UDP flag says nothing, wherever it stands: an answer
/// with it comes to the same as the answer without it.
pub proof fn law_other_fields_say_nothing(
    before: Seq<FieldView>,
    name: Seq<char>,
    value: Seq<char>,
    after: Seq<FieldView>,
)
    requires
        name != ":status"@,
        !same_ascii(name, "hysteria-udp"@),
    ensures
        auth_fields(before.push((name, value)) + after) == auth_fields(before + after),
        auth_fields(before.push((name, value))) == auth_fields(before),
{
    let with = before.push((name, value));
    assert(with.drop_last() =~= before);
    assert(with.last() == (name, value));
    lemma_fields_after(with, before, after);
}

proof fn lemma_status_is_no_flag()
    ensures
        !same_ascii(":status"@, "hysteria-udp"@),
{
    reveal_strlit(":status");
    reveal_strlit("hysteria-udp");
}

/// UDP may be used exactly if the last UDP flag of an answer reads `true`; without such a flag it may
/// not.
pub proof fn law_last_flag_decides(fields: Seq<FieldView>, i: int)
    requires
        auth_fields(fields) is Some,
        -1 <= i < fields.len(),
        i >= 0 ==> same_ascii(fields[i].0, "hysteria-udp"@),
        forall|k: int| i < k < fields.len() ==> !same_ascii((#[trigger] fields[k]).0, "hysteria-udp"@),
    ensures
        auth_fields(fields) matches Some((_, udp)) && udp == (i >= 0 && fields[i].1 == "true"@),
    decreases fields.len(),
{
    lemma_status_is_no_flag();
    if fields.len() > 0 {
        let rest = fields.drop_last();
        assert(fields.last() == fields[fields.len() - 1]);
        if i < rest.len() {
            assert(!same_ascii(fields[fields.len() - 1].0, "hysteria-udp"@));
            assert forall|k: int| i < k < rest.len() implies !same_ascii(
                (#[trigger] rest[k]).0,
                "hysteria-udp"@,
            ) by {
                assert(rest[k] == fields[k]);
            }
            law_last_flag_decides(rest, i);
        }
    }
}

/// The status of an answer is the number that its last status field holds; without such a field there
/// is none.
pub proof fn law_last_status_counts(fields: Seq<FieldView>, i: int, status: nat)
    requires
        auth_fields(fields) is Some,
        -1 <= i < fields.len(),
        status <= u16::MAX,
        i >= 0 ==> fields[i] == (":status"@, crate::text::dec_text(status)),
        forall|k: int| i < k < fields.len() ==> (#[trigger] fields[k]).0 != ":status"@,
    ensures
        auth_fields(fields) matches Some((found, _)) && found == if i >= 0 {
            Some(status as u16)
        } else {
            None
        },
    decreases fields.len(),
{
    crate::text::law_decimal_round_trip(status, u16::MAX as nat);
    if fields.len() > 0 {
        let rest = fields.drop_last();
        assert(fields.last() == fields[fields.len() - 1]);
        if i < rest.len() {
            assert(fields[fields.len() - 1].0 != ":status"@);
            assert forall|k: int| i < k < rest.len() implies (#[trigger] rest[k]).0 != ":status"@ by {
                assert(rest[k] == fields[k]);
            }
            law_last_status_counts(rest, i, status);
        }
    }
}

/// An answer is refused exactly if one of its status fields holds no status code: no decimal number, or
/// one that takes more than 16 bits.
pub proof fn law_only_bad_statuses_are_refused(fields: Seq<FieldView>)
    ensures
        auth_fields(fields) is None <==> exists|k: int|
            0 <= k < fields.len() && (#[trigger] fields[k]).0 == ":status"@ && parse_uint(
                fields[k].1,
                65535,
            ) is None,
    decreases fields.len(),
{
    if fields.len() > 0 {
        let rest = fields.drop_last();
        law_only_bad_statuses_are_refused(rest);
        assert(fields.last() == fields[fields.len() - 1]);
        if auth_fields(rest) is None {
            let k = choose|k: int|
                0 <= k < rest.len() && (#[trigger] rest[k]).0 == ":status"@ && parse_uint(
                    rest[k].1,
                    65535,
                ) is None;
            assert(fields[k] == rest[k]);
        } else {
            assert forall|k: int|
                0 <= k < fields.len() && (#[trigger] fields[k]).0 == ":status"@ && parse_uint(
                    fields[k].1,
                    65535,
                ) is None implies k == fields.len() - 1 by {
                if k < rest.len() {
                    assert(rest[k] == fields[k]);
                }
            }
        }
    }
}

/// A server's answer is understood however many fields it has: sent as one HEADERS frame, with whatever
/// follows, it brings the status of its last status field and the UDP flag of its last flag field. A
/// part of the frame is not enough, and what is asked for then is no more than the frame.
pub proof fn law_answer_is_understood(
    fields: Seq<FieldView>,
    tail: Seq<u8>,
    status_at: int,
    status: nat,
    flag_at: int,
    got: int,
)
    requires
        fields_fit(fields),
        auth_fields(fields) is Some,
        0 <= status_at < fields.len(),
        status <= u16::MAX,
        fields[status_at] == (":status"@, crate::text::dec_text(status)),
        forall|k: int| status_at < k < fields.len() ==> (#[trigger] fields[k]).0 != ":status"@,
        -1 <= flag_at < fields.len(),
        flag_at >= 0 ==> same_ascii(fields[flag_at].0, "hysteria-udp"@),
        forall|k: int|
            flag_at < k < fields.len() ==> !same_ascii((#[trigger] fields[k]).0, "hysteria-udp"@),
        headers_frame(section_bytes(fields)).len() <= 65536,
        0 <= got < headers_frame(section_bytes(fields)).len(),
    ensures
        auth_step(headers_frame(section_bytes(fields)) + tail) == AuthStep::Done(
            AuthResult {
                status: status as u16,
                udp_enabled: flag_at >= 0 && fields[flag_at].1 == "true"@,
            },
        ),
        auth_step(headers_frame(section_bytes(fields)).take(got)) matches AuthStep::More(n) && got < n
            <= headers_frame(section_bytes(fields)).len(),
{
    let payload = section_bytes(fields);
    law_last_flag_decides(fields, flag_at);
    law_last_status_counts(fields, status_at, status);
    law_field_section_round_trip(fields);
    lemma_whole_frame(1, payload, tail);
    lemma_part_of_frame(1, payload, got);
}

/// A frame of any type, as it is sent.
pub open spec fn frame_of(frame_type: u64, payload: Seq<u8>) -> Seq<u8> {
    varint_bytes(frame_type) + varint_bytes(payload.len() as u64) + payload
}

proof fn lemma_step_with_header(data: Seq<u8>, frame_type: u64, a: int, len: u64, b: int)
    requires
        varint_parse(data) == Ok::<(u64, int), VarintError>((frame_type, a)),
        varint_parse(data.skip(a)) == Ok::<(u64, int), VarintError>((len, b)),
    ensures
        auth_step(data) == if len > 65536 - a - b {
            AuthStep::Failed(AuthError::FrameTooLarge)
        } else if data.len() < a + b + len {
            AuthStep::More((a + b + len) as usize)
        } else if frame_type != 1 {
            AuthStep::Failed(AuthError::Masqueraded)
        } else {
            auth_headers(data.subrange(a + b, a + b + len))
        },
{
}

proof fn lemma_frame_parses(frame_type: u64, len: u64, rest: Seq<u8>)
    requires
        frame_type <= MAX_VARINT,
        len <= MAX_VARINT,
    ensures
        ({
            let data = varint_bytes(frame_type) + varint_bytes(len) + rest;
            let a = varint_size(frame_type);
            &&& varint_bytes(frame_type).len() == a
            &&& varint_bytes(len).len() == varint_size(len)
            &&& varint_parse(data) == Ok::<(u64, int), VarintError>((frame_type, a))
            &&& varint_parse(data.skip(a)) == Ok::<(u64, int), VarintError>((len, varint_size(len)))
        }),
{
    let data = varint_bytes(frame_type) + varint_bytes(len) + rest;
    law_varint_round_trip(frame_type, varint_bytes(len) + rest);
    law_varint_round_trip(len, rest);
    assert(data =~= varint_bytes(frame_type) + (varint_bytes(len) + rest));
    assert(data.skip(varint_size(frame_type)) =~= varint_bytes(len) + rest);
}

proof fn lemma_whole_frame(frame_type: u64, payload: Seq<u8>, tail: Seq<u8>)
    requires
        frame_type <= MAX_VARINT,
        frame_of(frame_type, payload).len() <= 65536,
    ensures
        auth_step(frame_of(frame_type, payload) + tail) == if frame_type == 1 {
            auth_headers(payload)
        } else {
            AuthStep::Failed(AuthError::Masqueraded)
        },
{
    let len = payload.len() as u64;
    let a = varint_size(frame_type);
    let b = varint_size(len);
    let data = frame_of(frame_type, payload) + tail;
    lemma_frame_parses(frame_type, len, payload + tail);
    assert(data =~= varint_bytes(frame_type) + varint_bytes(len) + (payload + tail));
    lemma_step_with_header(data, frame_type, a, len, b);
    assert(data.subrange(a + b, a + b + len) =~= payload);
}

#[verifier::rlimit(40)]
proof fn lemma_part_of_frame(frame_type: u64, payload: Seq<u8>, got: int)
    requires
        frame_type <= MAX_VARINT,
        frame_of(frame_type, payload).len() <= 65536,
        0 <= got < frame_of(frame_type, payload).len(),
    ensures
        auth_step(frame_of(frame_type, payload).take(got)) matches AuthStep::More(n) && got < n
            <= frame_of(frame_type, payload).len(),
{
    let len = payload.len() as u64;
    let a = varint_size(frame_type);
    let b = varint_size(len);
    let frame = frame_of(frame_type, payload);
    let part = frame.take(got);
    lemma_frame_parses(frame_type, len, payload);
    if got < a {
        law_varint_prefix(frame_type, got, part);
        assert(got > 0 ==> auth_step(part) == AuthStep::More(varint_width(part[0]) as usize));
    } else if got < a + b {
        law_varint_round_trip(frame_type, part.skip(a));
        assert(part =~= varint_bytes(frame_type) + part.skip(a));
        law_varint_prefix(len, got - a, part.skip(a));
        if got > a {
            assert(part.skip(a)[0] == part[a]);
            assert(auth_step(part) == AuthStep::More((a + varint_width(part[a])) as usize));
        } else {
            assert(auth_step(part) == AuthStep::More((a + 1) as usize));
        }
    } else {
        lemma_frame_parses(frame_type, len, payload.take(got - a - b));
        assert(part =~= varint_bytes(frame_type) + varint_bytes(len) + payload.take(got - a - b));
        lemma_step_with_header(part, frame_type, a, len, b);
    }
}

/// A server whose first frame is of another type than HEADERS is taken for an ordinary web site, and a
/// frame that is announced as larger than what is read of an answer is refused at once.
pub proof fn law_other_frames_are_refused(frame_type: u64, payload: Seq<u8>, len: u64, tail: Seq<u8>)
    requires
        frame_type <= MAX_VARINT,
        frame_type != 1,
        frame_of(frame_type, payload).len() <= 65536,
        65536 < len <= MAX_VARINT,
    ensures
        auth_step(frame_of(frame_type, payload) + tail) == AuthStep::Failed(AuthError::Masqueraded),
        auth_step(varint_bytes(frame_type) + varint_bytes(len) + tail) == AuthStep::Failed(
            AuthError::FrameTooLarge,
        ),
{
    lemma_whole_frame(frame_type, payload, tail);
    lemma_frame_parses(frame_type, len, tail);
    lemma_step_with_header(
        varint_bytes(frame_type) + varint_bytes(len) + tail,
        frame_type,
        varint_size(frame_type),
        len,
        varint_size(len),
    );
}

} // verus!
