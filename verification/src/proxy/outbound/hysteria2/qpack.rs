//! The subset of QPACK (RFC 9204) that the Hysteria2 authentication needs, with the Huffman
//! decoding of RFC 7541 Appendix B.
//!
//! Sections are encoded with literal names and values only. Decoding understands references into
//! the static table and literals, Huffman-coded or not; the dynamic table is never used.

use crate::text::{copy_text, lossy_utf8, utf8_text_lossy};
use crate::wire::{copy_range, put_slice};
use vstd::prelude::*;
use vstd::utf8::{encode_utf8, encode_utf8_decode_utf8, encode_utf8_valid_utf8};

verus! {

/// The Huffman code of RFC 7541 Appendix B: code and bit length for each symbol. Row 256 is the
/// end-of-string symbol.
pub const HPACK_HUFFMAN: [(u32, u8); 257] = [
    (0x00001ff8, 13),
    (0x007fffd8, 23),
    (0x0fffffe2, 28),
    (0x0fffffe3, 28),
    (0x0fffffe4, 28),
    (0x0fffffe5, 28),
    (0x0fffffe6, 28),
    (0x0fffffe7, 28),
    (0x0fffffe8, 28),
    (0x00ffffea, 24),
    (0x3ffffffc, 30),
    (0x0fffffe9, 28),
    (0x0fffffea, 28),
    (0x3ffffffd, 30),
    (0x0fffffeb, 28),
    (0x0fffffec, 28),
    (0x0fffffed, 28),
    (0x0fffffee, 28),
    (0x0fffffef, 28),
    (0x0ffffff0, 28),
    (0x0ffffff1, 28),
    (0x0ffffff2, 28),
    (0x3ffffffe, 30),
    (0x0ffffff3, 28),
    (0x0ffffff4, 28),
    (0x0ffffff5, 28),
    (0x0ffffff6, 28),
    (0x0ffffff7, 28),
    (0x0ffffff8, 28),
    (0x0ffffff9, 28),
    (0x0ffffffa, 28),
    (0x0ffffffb, 28),
    (0x00000014, 6),
    (0x000003f8, 10),
    (0x000003f9, 10),
    (0x00000ffa, 12),
    (0x00001ff9, 13),
    (0x00000015, 6),
    (0x000000f8, 8),
    (0x000007fa, 11),
    (0x000003fa, 10),
    (0x000003fb, 10),
    (0x000000f9, 8),
    (0x000007fb, 11),
    (0x000000fa, 8),
    (0x00000016, 6),
    (0x00000017, 6),
    (0x00000018, 6),
    (0x00000000, 5),
    (0x00000001, 5),
    (0x00000002, 5),
    (0x00000019, 6),
    (0x0000001a, 6),
    (0x0000001b, 6),
    (0x0000001c, 6),
    (0x0000001d, 6),
    (0x0000001e, 6),
    (0x0000001f, 6),
    (0x0000005c, 7),
    (0x000000fb, 8),
    (0x00007ffc, 15),
    (0x00000020, 6),
    (0x00000ffb, 12),
    (0x000003fc, 10),
    (0x00001ffa, 13),
    (0x00000021, 6),
    (0x0000005d, 7),
    (0x0000005e, 7),
    (0x0000005f, 7),
    (0x00000060, 7),
    (0x00000061, 7),
    (0x00000062, 7),
    (0x00000063, 7),
    (0x00000064, 7),
    (0x00000065, 7),
    (0x00000066, 7),
    (0x00000067, 7),
    (0x00000068, 7),
    (0x00000069, 7),
    (0x0000006a, 7),
    (0x0000006b, 7),
    (0x0000006c, 7),
    (0x0000006d, 7),
    (0x0000006e, 7),
    (0x0000006f, 7),
    (0x00000070, 7),
    (0x00000071, 7),
    (0x00000072, 7),
    (0x000000fc, 8),
    (0x00000073, 7),
    (0x000000fd, 8),
    (0x00001ffb, 13),
    (0x0007fff0, 19),
    (0x00001ffc, 13),
    (0x00003ffc, 14),
    (0x00000022, 6),
    (0x00007ffd, 15),
    (0x00000003, 5),
    (0x00000023, 6),
    (0x00000004, 5),
    (0x00000024, 6),
    (0x00000005, 5),
    (0x00000025, 6),
    (0x00000026, 6),
    (0x00000027, 6),
    (0x00000006, 5),
    (0x00000074, 7),
    (0x00000075, 7),
    (0x00000028, 6),
    (0x00000029, 6),
    (0x0000002a, 6),
    (0x00000007, 5),
    (0x0000002b, 6),
    (0x00000076, 7),
    (0x0000002c, 6),
    (0x00000008, 5),
    (0x00000009, 5),
    (0x0000002d, 6),
    (0x00000077, 7),
    (0x00000078, 7),
    (0x00000079, 7),
    (0x0000007a, 7),
    (0x0000007b, 7),
    (0x00007ffe, 15),
    (0x000007fc, 11),
    (0x00003ffd, 14),
    (0x00001ffd, 13),
    (0x0ffffffc, 28),
    (0x000fffe6, 20),
    (0x003fffd2, 22),
    (0x000fffe7, 20),
    (0x000fffe8, 20),
    (0x003fffd3, 22),
    (0x003fffd4, 22),
    (0x003fffd5, 22),
    (0x007fffd9, 23),
    (0x003fffd6, 22),
    (0x007fffda, 23),
    (0x007fffdb, 23),
    (0x007fffdc, 23),
    (0x007fffdd, 23),
    (0x007fffde, 23),
    (0x00ffffeb, 24),
    (0x007fffdf, 23),
    (0x00ffffec, 24),
    (0x00ffffed, 24),
    (0x003fffd7, 22),
    (0x007fffe0, 23),
    (0x00ffffee, 24),
    (0x007fffe1, 23),
    (0x007fffe2, 23),
    (0x007fffe3, 23),
    (0x007fffe4, 23),
    (0x001fffdc, 21),
    (0x003fffd8, 22),
    (0x007fffe5, 23),
    (0x003fffd9, 22),
    (0x007fffe6, 23),
    (0x007fffe7, 23),
    (0x00ffffef, 24),
    (0x003fffda, 22),
    (0x001fffdd, 21),
    (0x000fffe9, 20),
    (0x003fffdb, 22),
    (0x003fffdc, 22),
    (0x007fffe8, 23),
    (0x007fffe9, 23),
    (0x001fffde, 21),
    (0x007fffea, 23),
    (0x003fffdd, 22),
    (0x003fffde, 22),
    (0x00fffff0, 24),
    (0x001fffdf, 21),
    (0x003fffdf, 22),
    (0x007fffeb, 23),
    (0x007fffec, 23),
    (0x001fffe0, 21),
    (0x001fffe1, 21),
    (0x003fffe0, 22),
    (0x001fffe2, 21),
    (0x007fffed, 23),
    (0x003fffe1, 22),
    (0x007fffee, 23),
    (0x007fffef, 23),
    (0x000fffea, 20),
    (0x003fffe2, 22),
    (0x003fffe3, 22),
    (0x003fffe4, 22),
    (0x007ffff0, 23),
    (0x003fffe5, 22),
    (0x003fffe6, 22),
    (0x007ffff1, 23),
    (0x03ffffe0, 26),
    (0x03ffffe1, 26),
    (0x000fffeb, 20),
    (0x0007fff1, 19),
    (0x003fffe7, 22),
    (0x007ffff2, 23),
    (0x003fffe8, 22),
    (0x01ffffec, 25),
    (0x03ffffe2, 26),
    (0x03ffffe3, 26),
    (0x03ffffe4, 26),
    (0x07ffffde, 27),
    (0x07ffffdf, 27),
    (0x03ffffe5, 26),
    (0x00fffff1, 24),
    (0x01ffffed, 25),
    (0x0007fff2, 19),
    (0x001fffe3, 21),
    (0x03ffffe6, 26),
    (0x07ffffe0, 27),
    (0x07ffffe1, 27),
    (0x03ffffe7, 26),
    (0x07ffffe2, 27),
    (0x00fffff2, 24),
    (0x001fffe4, 21),
    (0x001fffe5, 21),
    (0x03ffffe8, 26),
    (0x03ffffe9, 26),
    (0x0ffffffd, 28),
    (0x07ffffe3, 27),
    (0x07ffffe4, 27),
    (0x07ffffe5, 27),
    (0x000fffec, 20),
    (0x00fffff3, 24),
    (0x000fffed, 20),
    (0x001fffe6, 21),
    (0x003fffe9, 22),
    (0x001fffe7, 21),
    (0x001fffe8, 21),
    (0x007ffff3, 23),
    (0x003fffea, 22),
    (0x003fffeb, 22),
    (0x01ffffee, 25),
    (0x01ffffef, 25),
    (0x00fffff4, 24),
    (0x00fffff5, 24),
    (0x03ffffea, 26),
    (0x007ffff4, 23),
    (0x03ffffeb, 26),
    (0x07ffffe6, 27),
    (0x03ffffec, 26),
    (0x03ffffed, 26),
    (0x07ffffe7, 27),
    (0x07ffffe8, 27),
    (0x07ffffe9, 27),
    (0x07ffffea, 27),
    (0x07ffffeb, 27),
    (0x0ffffffe, 28),
    (0x07ffffec, 27),
    (0x07ffffed, 27),
    (0x07ffffee, 27),
    (0x07ffffef, 27),
    (0x07fffff0, 27),
    (0x03ffffee, 26),
    (0x3fffffff, 30),
];

/// Why a field section could not be decoded.
#[derive(Debug, Clone, Copy, PartialEq, Eq, Structural)]
pub enum QpackError {
    /// The section ends inside a field line.
    Truncated,
    /// An integer does not fit into 64 bits.
    IntegerOverflow,
    /// The section ends inside a string.
    TruncatedString,
    /// The end-of-string symbol occurs in a string.
    HuffmanEos,
    /// Thirty bits are the code of no symbol.
    HuffmanInvalid,
    /// The bits behind the last symbol are no prefix of the end-of-string symbol.
    HuffmanPadding,
    /// The section counts on the dynamic table.
    DynamicTable,
    /// The section has a base other than zero.
    NonzeroBase,
    /// A field line, or its name, refers to the dynamic table.
    DynamicReference,
    /// A field line refers behind the static table.
    StaticIndex(u64),
    /// A field name refers behind the static table.
    StaticName(u64),
    /// The type of a field line is unknown.
    UnsupportedLine(u8),
}

/// The entry of the static table (RFC 9204 Appendix A) with an index below 99.
pub open spec fn static_field(index: u64) -> (Seq<char>, Seq<char>) {
    match index {
        0 => (":authority"@, ""@),
        1 => (":path"@, "/"@),
        2 => ("age"@, "0"@),
        3 => ("content-disposition"@, ""@),
        4 => ("content-length"@, "0"@),
        5 => ("cookie"@, ""@),
        6 => ("date"@, ""@),
        7 => ("etag"@, ""@),
        8 => ("if-modified-since"@, ""@),
        9 => ("if-none-match"@, ""@),
        10 => ("last-modified"@, ""@),
        11 => ("link"@, ""@),
        12 => ("location"@, ""@),
        13 => ("referer"@, ""@),
        14 => ("set-cookie"@, ""@),
        15 => (":method"@, "CONNECT"@),
        16 => (":method"@, "DELETE"@),
        17 => (":method"@, "GET"@),
        18 => (":method"@, "HEAD"@),
        19 => (":method"@, "OPTIONS"@),
        20 => (":method"@, "POST"@),
        21 => (":method"@, "PUT"@),
        22 => (":scheme"@, "http"@),
        23 => (":scheme"@, "https"@),
        24 => (":status"@, "103"@),
        25 => (":status"@, "200"@),
        26 => (":status"@, "304"@),
        27 => (":status"@, "404"@),
        28 => (":status"@, "503"@),
        29 => ("accept"@, "*/*"@),
        30 => ("accept"@, "application/dns-message"@),
        31 => ("accept-encoding"@, "gzip, deflate, br"@),
        32 => ("accept-ranges"@, "bytes"@),
        33 => ("access-control-allow-headers"@, "cache-control"@),
        34 => ("access-control-allow-headers"@, "content-type"@),
        35 => ("access-control-allow-origin"@, "*"@),
        36 => ("cache-control"@, "max-age=0"@),
        37 => ("cache-control"@, "max-age=2592000"@),
        38 => ("cache-control"@, "max-age=604800"@),
        39 => ("cache-control"@, "no-cache"@),
        40 => ("cache-control"@, "no-store"@),
        41 => ("cache-control"@, "public, max-age=31536000"@),
        42 => ("content-encoding"@, "br"@),
        43 => ("content-encoding"@, "gzip"@),
        44 => ("content-type"@, "application/dns-message"@),
        45 => ("content-type"@, "application/javascript"@),
        46 => ("content-type"@, "application/json"@),
        47 => ("content-type"@, "application/x-www-form-urlencoded"@),
        48 => ("content-type"@, "image/gif"@),
        49 => ("content-type"@, "image/jpeg"@),
        50 => ("content-type"@, "image/png"@),
        51 => ("content-type"@, "text/css"@),
        52 => ("content-type"@, "text/html; charset=utf-8"@),
        53 => ("content-type"@, "text/plain"@),
        54 => ("content-type"@, "text/plain;charset=utf-8"@),
        55 => ("range"@, "bytes=0-"@),
        56 => ("strict-transport-security"@, "max-age=31536000"@),
        57 => ("strict-transport-security"@, "max-age=31536000; includesubdomains"@),
        58 => ("strict-transport-security"@, "max-age=31536000; includesubdomains; preload"@),
        59 => ("vary"@, "accept-encoding"@),
        60 => ("vary"@, "origin"@),
        61 => ("x-content-type-options"@, "nosniff"@),
        62 => ("x-xss-protection"@, "1; mode=block"@),
        63 => (":status"@, "100"@),
        64 => (":status"@, "204"@),
        65 => (":status"@, "206"@),
        66 => (":status"@, "302"@),
        67 => (":status"@, "400"@),
        68 => (":status"@, "403"@),
        69 => (":status"@, "421"@),
        70 => (":status"@, "425"@),
        71 => (":status"@, "500"@),
        72 => ("accept-language"@, ""@),
        73 => ("access-control-allow-credentials"@, "FALSE"@),
        74 => ("access-control-allow-credentials"@, "TRUE"@),
        75 => ("access-control-allow-headers"@, "*"@),
        76 => ("access-control-allow-methods"@, "get"@),
        77 => ("access-control-allow-methods"@, "get, post, options"@),
        78 => ("access-control-allow-methods"@, "options"@),
        79 => ("access-control-expose-headers"@, "content-length"@),
        80 => ("access-control-request-headers"@, "content-type"@),
        81 => ("access-control-request-method"@, "get"@),
        82 => ("access-control-request-method"@, "post"@),
        83 => ("alt-svc"@, "clear"@),
        84 => ("authorization"@, ""@),
        85 => ("content-security-policy"@, "script-src 'none'; object-src 'none'; base-uri 'none'"@),
        86 => ("early-data"@, "1"@),
        87 => ("expect-ct"@, ""@),
        88 => ("forwarded"@, ""@),
        89 => ("if-range"@, ""@),
        90 => ("origin"@, ""@),
        91 => ("purpose"@, "prefetch"@),
        92 => ("server"@, ""@),
        93 => ("timing-allow-origin"@, "*"@),
        94 => ("upgrade-insecure-requests"@, "1"@),
        95 => ("user-agent"@, ""@),
        96 => ("x-forwarded-for"@, ""@),
        97 => ("x-frame-options"@, "deny"@),
        _ => ("x-frame-options"@, "sameorigin"@),
    }
}

fn static_entry(index: u64) -> (e: (&'static str, &'static str))
    requires
        index < 99,
    ensures
        (e.0@, e.1@) == static_field(index),
{
    match index {
        0 => (":authority", ""),
        1 => (":path", "/"),
        2 => ("age", "0"),
        3 => ("content-disposition", ""),
        4 => ("content-length", "0"),
        5 => ("cookie", ""),
        6 => ("date", ""),
        7 => ("etag", ""),
        8 => ("if-modified-since", ""),
        9 => ("if-none-match", ""),
        10 => ("last-modified", ""),
        11 => ("link", ""),
        12 => ("location", ""),
        13 => ("referer", ""),
        14 => ("set-cookie", ""),
        15 => (":method", "CONNECT"),
        16 => (":method", "DELETE"),
        17 => (":method", "GET"),
        18 => (":method", "HEAD"),
        19 => (":method", "OPTIONS"),
        20 => (":method", "POST"),
        21 => (":method", "PUT"),
        22 => (":scheme", "http"),
        23 => (":scheme", "https"),
        24 => (":status", "103"),
        25 => (":status", "200"),
        26 => (":status", "304"),
        27 => (":status", "404"),
        28 => (":status", "503"),
        29 => ("accept", "*/*"),
        30 => ("accept", "application/dns-message"),
        31 => ("accept-encoding", "gzip, deflate, br"),
        32 => ("accept-ranges", "bytes"),
        33 => ("access-control-allow-headers", "cache-control"),
        34 => ("access-control-allow-headers", "content-type"),
        35 => ("access-control-allow-origin", "*"),
        36 => ("cache-control", "max-age=0"),
        37 => ("cache-control", "max-age=2592000"),
        38 => ("cache-control", "max-age=604800"),
        39 => ("cache-control", "no-cache"),
        40 => ("cache-control", "no-store"),
        41 => ("cache-control", "public, max-age=31536000"),
        42 => ("content-encoding", "br"),
        43 => ("content-encoding", "gzip"),
        44 => ("content-type", "application/dns-message"),
        45 => ("content-type", "application/javascript"),
        46 => ("content-type", "application/json"),
        47 => ("content-type", "application/x-www-form-urlencoded"),
        48 => ("content-type", "image/gif"),
        49 => ("content-type", "image/jpeg"),
        50 => ("content-type", "image/png"),
        51 => ("content-type", "text/css"),
        52 => ("content-type", "text/html; charset=utf-8"),
        53 => ("content-type", "text/plain"),
        54 => ("content-type", "text/plain;charset=utf-8"),
        55 => ("range", "bytes=0-"),
        56 => ("strict-transport-security", "max-age=31536000"),
        57 => ("strict-transport-security", "max-age=31536000; includesubdomains"),
        58 => ("strict-transport-security", "max-age=31536000; includesubdomains; preload"),
        59 => ("vary", "accept-encoding"),
        60 => ("vary", "origin"),
        61 => ("x-content-type-options", "nosniff"),
        62 => ("x-xss-protection", "1; mode=block"),
        63 => (":status", "100"),
        64 => (":status", "204"),
        65 => (":status", "206"),
        66 => (":status", "302"),
        67 => (":status", "400"),
        68 => (":status", "403"),
        69 => (":status", "421"),
        70 => (":status", "425"),
        71 => (":status", "500"),
        72 => ("accept-language", ""),
        73 => ("access-control-allow-credentials", "FALSE"),
        74 => ("access-control-allow-credentials", "TRUE"),
        75 => ("access-control-allow-headers", "*"),
        76 => ("access-control-allow-methods", "get"),
        77 => ("access-control-allow-methods", "get, post, options"),
        78 => ("access-control-allow-methods", "options"),
        79 => ("access-control-expose-headers", "content-length"),
        80 => ("access-control-request-headers", "content-type"),
        81 => ("access-control-request-method", "get"),
        82 => ("access-control-request-method", "post"),
        83 => ("alt-svc", "clear"),
        84 => ("authorization", ""),
        85 => ("content-security-policy", "script-src 'none'; object-src 'none'; base-uri 'none'"),
        86 => ("early-data", "1"),
        87 => ("expect-ct", ""),
        88 => ("forwarded", ""),
        89 => ("if-range", ""),
        90 => ("origin", ""),
        91 => ("purpose", "prefetch"),
        92 => ("server", ""),
        93 => ("timing-allow-origin", "*"),
        94 => ("upgrade-insecure-requests", "1"),
        95 => ("user-agent", ""),
        96 => ("x-forwarded-for", ""),
        97 => ("x-frame-options", "deny"),
        _ => ("x-frame-options", "sameorigin"),
    }
}

/// The largest number that fits into a prefix of 1 to 8 bits.
pub open spec fn prefix_max(prefix: u8) -> int {
    match prefix {
        1 => 1,
        2 => 3,
        3 => 7,
        4 => 15,
        5 => 31,
        6 => 63,
        7 => 127,
        _ => 255,
    }
}

fn max_of(prefix: u8) -> (m: u64)
    requires
        1 <= prefix <= 8,
    ensures
        m == prefix_max(prefix),
{
    match prefix {
        1 => 1,
        2 => 3,
        3 => 7,
        4 => 15,
        5 => 31,
        6 => 63,
        7 => 127,
        _ => 255,
    }
}

/// The number in the low `prefix` bits of a byte.
pub open spec fn low_bits(b: u8, prefix: u8) -> u8 {
    match prefix {
        1 => b % 2,
        2 => b % 4,
        3 => b % 8,
        4 => b % 16,
        5 => b % 32,
        6 => b % 64,
        7 => b % 128,
        _ => b,
    }
}

fn low_bits_of(b: u8, prefix: u8) -> (v: u8)
    requires
        1 <= prefix <= 8,
    ensures
        v == low_bits(b, prefix),
        v <= prefix_max(prefix),
{
    match prefix {
        1 => b % 2,
        2 => b % 4,
        3 => b % 8,
        4 => b % 16,
        5 => b % 32,
        6 => b % 64,
        7 => b % 128,
        _ => b,
    }
}

/// A number in groups of seven bits, the lowest first; all groups but the last are marked.
pub open spec fn int_tail(rest: int) -> Seq<u8>
    decreases rest,
{
    if rest < 128 {
        seq![rest as u8]
    } else {
        seq![(rest % 128 + 128) as u8] + int_tail(rest / 128)
    }
}

/// A prefixed integer (RFC 9204 section 4.1.1): `flags` are the bits above the prefix.
pub open spec fn int_bytes(prefix: u8, value: int, flags: u8) -> Seq<u8> {
    let max = prefix_max(prefix);
    if value < max {
        seq![flags | (value as u8)]
    } else {
        seq![flags | (max as u8)] + int_tail(value - max)
    }
}

/// Appends a prefixed integer.
pub fn append_int(out: &mut Vec<u8>, prefix: u8, value: u64, flags: u8)
    requires
        1 <= prefix <= 8,
    ensures
        final(out)@ == old(out)@ + int_bytes(prefix, value as int, flags),
{
    let max: u64 = max_of(prefix);
    if value < max {
        out.push(flags | value as u8);
        assert(out@ =~= old(out)@ + int_bytes(prefix, value as int, flags));
        return;
    }
    out.push(flags | max as u8);
    let mut rest: u64 = value - max;
    let ghost all = int_bytes(prefix, value as int, flags);
    assert(old(out)@ + all =~= out@ + int_tail(rest as int));
    while rest >= 128
        invariant
            old(out)@ + all == out@ + int_tail(rest as int),
        decreases rest,
    {
        let ghost before = out@;
        out.push((rest % 128) as u8 + 128);
        assert(before + int_tail(rest as int) =~= out@ + int_tail(rest as int / 128));
        rest = rest / 128;
    }
    out.push(rest as u8);
    assert(out@ =~= old(out)@ + all);
}

/// The number in groups of seven bits at the start of `s`, and how many bytes it takes. `depth`
/// counts the groups before; the tenth group contributes one bit and has to be the last.
pub open spec fn tail_parse(s: Seq<u8>, depth: int) -> Result<(int, int), QpackError>
    decreases 10 - depth,
{
    if s.len() == 0 {
        Err(QpackError::Truncated)
    } else {
        let low = if depth >= 9 {
            s[0] as int % 2
        } else {
            s[0] as int % 128
        };
        if s[0] < 128 {
            Ok((low, 1))
        } else if depth >= 9 {
            Err(QpackError::IntegerOverflow)
        } else {
            match tail_parse(s.skip(1), depth + 1) {
                Ok((high, n)) => Ok((low + 128 * high, n + 1)),
                Err(e) => Err(e),
            }
        }
    }
}

/// The prefixed integer at the start of `s`, and how many bytes it takes.
pub open spec fn int_parse(s: Seq<u8>, prefix: u8) -> Result<(int, int), QpackError> {
    if s.len() == 0 {
        Err(QpackError::Truncated)
    } else {
        let max = prefix_max(prefix);
        let first = low_bits(s[0], prefix) as int;
        if first < max {
            Ok((first, 1))
        } else {
            match tail_parse(s.skip(1), 0) {
                Err(e) => Err(e),
                Ok((v, n)) => if max + v > u64::MAX {
                    Err(QpackError::IntegerOverflow)
                } else {
                    Ok((max + v, n + 1))
                },
            }
        }
    }
}

/// A cursor over a field section.
pub struct Reader<'a> {
    buf: &'a [u8],
    pos: usize,
}

impl<'a> Reader<'a> {
    /// The cursor stays inside the section.
    pub closed spec fn wf(self) -> bool {
        self.pos <= self.buf@.len()
    }

    /// What has not been read yet.
    pub closed spec fn rest(self) -> Seq<u8> {
        self.buf@.skip(self.pos as int)
    }

    /// A cursor at the start of a section.
    pub fn new(buf: &'a [u8]) -> (r: Reader<'a>)
        ensures
            r.wf(),
            r.rest() == buf@,
    {
        let r = Reader { buf, pos: 0 };
        assert(r.rest() =~= buf@);
        r
    }

    /// How many bytes have not been read yet.
    pub fn remaining(&self) -> (n: usize)
        requires
            self.wf(),
        ensures
            n == self.rest().len(),
    {
        self.buf.len() - self.pos
    }

    /// Reads a byte.
    pub fn read_byte(&mut self) -> (r: Result<u8, QpackError>)
        requires
            old(self).wf(),
        ensures
            final(self).wf(),
            match r {
                Ok(b) => old(self).rest().len() > 0 && b == old(self).rest()[0]
                    && final(self).rest() == old(self).rest().skip(1),
                Err(e) => old(self).rest().len() == 0 && e == QpackError::Truncated
                    && final(self).rest() == old(self).rest(),
            },
    {
        if self.pos >= self.buf.len() {
            return Err(QpackError::Truncated);
        }
        let b: u8 = self.buf[self.pos];
        self.pos = self.pos + 1;
        assert(self.rest() =~= old(self).rest().skip(1));
        Ok(b)
    }

    fn read_tail(&mut self, depth: u32) -> (r: Result<u128, QpackError>)
        requires
            old(self).wf(),
            depth <= 9,
        ensures
            final(self).wf(),
            match r {
                Ok(v) => {
                    &&& tail_parse(old(self).rest(), depth as int) matches Ok((w, n)) && w == v
                        && final(self).rest() == old(self).rest().skip(n) && 0 < n
                        <= old(self).rest().len()
                    &&& v < (if depth == 9 {
                        2
                    } else if depth == 8 {
                        0x100
                    } else if depth == 7 {
                        0x8000
                    } else if depth == 6 {
                        0x40_0000
                    } else if depth == 5 {
                        0x2000_0000
                    } else if depth == 4 {
                        0x10_0000_0000
                    } else if depth == 3 {
                        0x800_0000_0000
                    } else if depth == 2 {
                        0x4_0000_0000_0000
                    } else if depth == 1 {
                        0x200_0000_0000_0000
                    } else {
                        0x1_0000_0000_0000_0000int
                    })
                },
                Err(e) => tail_parse(old(self).rest(), depth as int) == Err::<
                    (int, int),
                    QpackError,
                >(e),
            },
        decreases 9 - depth,
    {
        let byte: u8 = match self.read_byte() {
            Ok(b) => b,
            Err(e) => {
                return Err(e);
            },
        };
        let low: u128 = if depth >= 9 {
            (byte % 2) as u128
        } else {
            (byte % 128) as u128
        };
        if byte < 128 {
            return Ok(low);
        }
        if depth >= 9 {
            return Err(QpackError::IntegerOverflow);
        }
        let ghost mid = self.rest();
        match self.read_tail(depth + 1) {
            Ok(high) => {
                proof {
                    let n = tail_parse(mid, depth + 1)->Ok_0.1;
                    assert(mid.skip(n) =~= old(self).rest().skip(n + 1));
                }
                Ok(low + 128 * high)
            },
            Err(e) => Err(e),
        }
    }

    /// Reads a prefixed integer.
    pub fn read_int(&mut self, prefix: u8) -> (r: Result<u64, QpackError>)
        requires
            old(self).wf(),
            1 <= prefix <= 8,
        ensures
            final(self).wf(),
            match r {
                Ok(v) => int_parse(old(self).rest(), prefix) matches Ok((w, n)) && w == v
                    && final(self).rest() == old(self).rest().skip(n) && 0 < n
                    <= old(self).rest().len(),
                Err(e) => int_parse(old(self).rest(), prefix) == Err::<(int, int), QpackError>(e),
            },
    {
        let max: u64 = max_of(prefix);
        let first: u64 = match self.read_byte() {
            Ok(b) => low_bits_of(b, prefix) as u64,
            Err(e) => {
                return Err(e);
            },
        };
        if first < max {
            return Ok(first);
        }
        let ghost mid = self.rest();
        match self.read_tail(0) {
            Err(e) => Err(e),
            Ok(v) => {
                proof {
                    let n = tail_parse(mid, 0)->Ok_0.1;
                    assert(mid.skip(n) =~= old(self).rest().skip(n + 1));
                }
                if max as u128 + v > u64::MAX as u128 {
                    return Err(QpackError::IntegerOverflow);
                }
                Ok((max as u128 + v) as u64)
            },
        }
    }

    /// Reads a string literal. `prefix_width` is the width of its prefix with the Huffman flag:
    /// 8 for a string that starts on a byte boundary, 4 for a name inside a field line.
    pub fn read_string(&mut self, prefix_width: u8) -> (r: Result<Vec<u8>, QpackError>)
        requires
            old(self).wf(),
            prefix_width == 4 || prefix_width == 8,
        ensures
            final(self).wf(),
            match r {
                Ok(v) => string_parse(old(self).rest(), prefix_width) matches Ok((w, n)) && w == v@
                    && final(self).rest() == old(self).rest().skip(n) && 0 < n
                    <= old(self).rest().len(),
                Err(e) => string_parse(old(self).rest(), prefix_width) == Err::<
                    (Seq<u8>, int),
                    QpackError,
                >(e),
            },
    {
        if self.pos >= self.buf.len() {
            return Err(QpackError::Truncated);
        }
        let first: u8 = self.buf[self.pos];
        assert(first == self.rest()[0]);
        let huffman = if prefix_width == 4 {
            (first / 8) % 2 == 1
        } else {
            first >= 128
        };
        let length: u64 = match self.read_int(prefix_width - 1) {
            Ok(n) => n,
            Err(e) => {
                return Err(e);
            },
        };
        assert(self.rest().len() == self.buf@.len() - self.pos);
        if length > (self.buf.len() - self.pos) as u64 {
            return Err(QpackError::TruncatedString);
        }
        let len: usize = length as usize;
        let ghost mid = self.rest();
        let raw = vstd::slice::slice_subrange(self.buf, self.pos, self.pos + len);
        assert(raw@ =~= mid.take(len as int));
        self.pos = self.pos + len;
        proof {
            let n = int_parse(old(self).rest(), (prefix_width - 1) as u8)->Ok_0.1;
            assert(self.rest() =~= mid.skip(len as int));
            assert(self.rest() =~= old(self).rest().skip(n + len));
            assert(mid.take(len as int) =~= old(self).rest().subrange(n, n + len));
        }
        if huffman {
            huffman_decode(raw)
        } else {
            let copy = copy_range(raw, 0, raw.len());
            assert(copy@ =~= raw@);
            Ok(copy)
        }
    }
}

/// The bit at position `i` of a byte string, the most significant of each byte first.
pub open spec fn bit_at(input: Seq<u8>, i: int) -> int {
    ((input[i / 8] >> ((7 - i % 8) as u8)) & 1u8) as int
}

/// The first symbol from the `i`-th on that has the given code.
pub open spec fn symbol_of(i: int, code: int, len: int) -> Option<int>
    decreases 257 - i,
{
    if i < 0 || i >= 257 {
        None
    } else if HPACK_HUFFMAN@[i].0 == code && HPACK_HUFFMAN@[i].1 == len {
        Some(i)
    } else {
        symbol_of(i + 1, code, len)
    }
}

/// The number of `n` one bits.
pub open spec fn ones(n: int) -> int
    decreases n,
{
    if n <= 0 {
        0
    } else {
        ones(n - 1) * 2 + 1
    }
}

/// Decoding from bit `pos` on: `code` is the value of the `len` bits that belong to no symbol yet,
/// `out` holds the symbols so far.
pub open spec fn huffman_from(
    input: Seq<u8>,
    pos: int,
    code: int,
    len: int,
    out: Seq<u8>,
) -> Result<Seq<u8>, QpackError>
    decreases 8 * input.len() - pos,
{
    if pos >= 8 * input.len() {
        if code == ones(len) {
            Ok(out)
        } else {
            Err(QpackError::HuffmanPadding)
        }
    } else {
        let c = code * 2 + bit_at(input, pos);
        match symbol_of(0, c, len + 1) {
            Some(s) => if s == 256 {
                Err(QpackError::HuffmanEos)
            } else {
                huffman_from(input, pos + 1, 0, 0, out.push(s as u8))
            },
            None => if len + 1 == 30 {
                Err(QpackError::HuffmanInvalid)
            } else {
                huffman_from(input, pos + 1, c, len + 1, out)
            },
        }
    }
}

/// The text of a Huffman-coded string. What is left behind the last symbol has to be a prefix of
/// the end-of-string symbol: nothing but ones.
pub open spec fn huffman_text(input: Seq<u8>) -> Result<Seq<u8>, QpackError> {
    huffman_from(input, 0, 0, 0, Seq::empty())
}

proof fn lemma_symbol_of(i: int, code: int, len: int)
    requires
        0 <= i <= 257,
    ensures
        symbol_of(i, code, len) matches Some(s) ==> i <= s < 257 && HPACK_HUFFMAN@[s].0 == code
            && HPACK_HUFFMAN@[s].1 == len,
    decreases 257 - i,
{
    if i < 257 && !(HPACK_HUFFMAN@[i].0 == code && HPACK_HUFFMAN@[i].1 == len) {
        lemma_symbol_of(i + 1, code, len);
    }
}

fn find_symbol(code: u32, len: u8) -> (r: Option<usize>)
    ensures
        match r {
            Some(s) => symbol_of(0, code as int, len as int) == Some(s as int) && s < 257,
            None => symbol_of(0, code as int, len as int) is None,
        },
{
    let mut i: usize = 0;
    while i < 257
        invariant
            i <= 257,
            symbol_of(0, code as int, len as int) == symbol_of(i as int, code as int, len as int),
        decreases 257 - i,
    {
        let row = HPACK_HUFFMAN[i];
        if row.0 == code && row.1 == len {
            return Some(i);
        }
        i += 1;
    }
    None
}

/// Decodes a Huffman-coded string.
pub fn huffman_decode(input: &[u8]) -> (r: Result<Vec<u8>, QpackError>)
    ensures
        match r {
            Ok(out) => huffman_text(input@) == Ok::<Seq<u8>, QpackError>(out@),
            Err(e) => huffman_text(input@) == Err::<Seq<u8>, QpackError>(e),
        },
{
    let mut out: Vec<u8> = Vec::new();
    let mut code: u32 = 0;
    let mut full: u32 = 0;
    let mut len: u8 = 0;
    let mut byte: usize = 0;
    while byte < input.len()
        invariant
            byte <= input@.len(),
            len < 30,
            code <= full,
            full == ones(len as int),
            full < 0x2000_0000,
            huffman_text(input@) == huffman_from(
                input@,
                8 * byte,
                code as int,
                len as int,
                out@,
            ),
        decreases input@.len() - byte,
    {
        let mut bit: u8 = 0;
        while bit < 8
            invariant
                byte < input@.len(),
                bit <= 8,
                len < 30,
                code <= full,
                full == ones(len as int),
                full < 0x2000_0000,
                huffman_text(input@) == huffman_from(
                    input@,
                    8 * byte + bit,
                    code as int,
                    len as int,
                    out@,
                ),
            decreases 8 - bit,
        {
            let b: u8 = (input[byte] >> (7 - bit)) & 1;
            assert(b == bit_at(input@, 8 * byte + bit)) by {
                assert((8 * byte + bit) / 8 == byte);
                assert((8 * byte + bit) % 8 == bit);
            }
            let x: u8 = input[byte] >> (7 - bit);
            assert(x & 1 <= 1) by (bit_vector);
            code = code * 2 + b as u32;
            proof {
                lemma_ones_bound(len as int);
                lemma_ones_bound(len + 1);
            }
            full = full * 2 + 1;
            len = len + 1;
            match find_symbol(code, len) {
                Some(s) => {
                    if s == 256 {
                        return Err(QpackError::HuffmanEos);
                    }
                    out.push(s as u8);
                    code = 0;
                    full = 0;
                    len = 0;
                },
                None => {
                    if len == 30 {
                        return Err(QpackError::HuffmanInvalid);
                    }
                },
            }
            bit += 1;
        }
        byte += 1;
    }
    if code != full {
        return Err(QpackError::HuffmanPadding);
    }
    Ok(out)
}

proof fn lemma_ones_bound(n: int)
    requires
        0 <= n <= 30,
    ensures
        0 <= ones(n),
        n < 30 ==> ones(n) < 0x2000_0000,
        ones(n) < 0x4000_0000,
{
    reveal_with_fuel(ones, 31);
}

/// The string literal at the start of `s`, and how many bytes it takes.
pub open spec fn string_parse(s: Seq<u8>, prefix_width: u8) -> Result<(Seq<u8>, int), QpackError> {
    if s.len() == 0 {
        Err(QpackError::Truncated)
    } else {
        let huffman = if prefix_width == 4 {
            (s[0] / 8) % 2 == 1
        } else {
            s[0] >= 128
        };
        match int_parse(s, (prefix_width - 1) as u8) {
            Err(e) => Err(e),
            Ok((len, n)) => if s.len() < n + len {
                Err(QpackError::TruncatedString)
            } else {
                let raw = s.subrange(n, n + len);
                if huffman {
                    match huffman_text(raw) {
                        Ok(text) => Ok((text, n + len)),
                        Err(e) => Err(e),
                    }
                } else {
                    Ok((raw, n + len))
                }
            },
        }
    }
}

/// A field: its name and value.
pub type FieldView = (Seq<char>, Seq<char>);

/// The field line at the start of `s`, and how many bytes it takes.
pub open spec fn line_parse(s: Seq<u8>) -> Result<(FieldView, int), QpackError> {
    let first = s[0];
    if first >= 128 {
        if (first / 64) % 2 == 0 {
            Err(QpackError::DynamicReference)
        } else {
            match int_parse(s, 6) {
                Err(e) => Err(e),
                Ok((index, n)) => if index >= 99 {
                    Err(QpackError::StaticIndex(index as u64))
                } else {
                    Ok((static_field(index as u64), n))
                },
            }
        }
    } else if first >= 64 {
        if (first / 16) % 2 == 0 {
            Err(QpackError::DynamicReference)
        } else {
            match int_parse(s, 4) {
                Err(e) => Err(e),
                Ok((index, n)) => if index >= 99 {
                    Err(QpackError::StaticName(index as u64))
                } else {
                    match string_parse(s.skip(n), 8) {
                        Err(e) => Err(e),
                        Ok((value, m)) => Ok(
                            ((static_field(index as u64).0, lossy_utf8(value)), n + m),
                        ),
                    }
                },
            }
        }
    } else if first >= 32 {
        match string_parse(s, 4) {
            Err(e) => Err(e),
            Ok((name, n)) => match string_parse(s.skip(n), 8) {
                Err(e) => Err(e),
                Ok((value, m)) => Ok(((lossy_utf8(name), lossy_utf8(value)), n + m)),
            },
        }
    } else {
        Err(QpackError::UnsupportedLine(first))
    }
}

/// The field lines that `s` consists of.
pub open spec fn lines_parse(s: Seq<u8>) -> Result<Seq<FieldView>, QpackError>
    decreases s.len(),
{
    if s.len() == 0 {
        Ok(Seq::empty())
    } else {
        match line_parse(s) {
            Err(e) => Err(e),
            Ok((field, n)) => if n <= 0 || n > s.len() {
                Ok(seq![field])
            } else {
                match lines_parse(s.skip(n)) {
                    Err(e) => Err(e),
                    Ok(rest) => Ok(seq![field] + rest),
                }
            },
        }
    }
}

/// What [`decode_field_section`] returns.
pub open spec fn section_parse(s: Seq<u8>) -> Result<Seq<FieldView>, QpackError> {
    match int_parse(s, 8) {
        Err(e) => Err(e),
        Ok((count, n)) => if count != 0 {
            Err(QpackError::DynamicTable)
        } else {
            match int_parse(s.skip(n), 7) {
                Err(e) => Err(e),
                Ok((base, m)) => if base != 0 {
                    Err(QpackError::NonzeroBase)
                } else {
                    lines_parse(s.skip(n).skip(m))
                },
            }
        },
    }
}

/// The values of a list of fields.
pub open spec fn field_views(fields: Seq<(String, String)>) -> Seq<FieldView> {
    fields.map_values(|f: (String, String)| (f.0@, f.1@))
}

fn read_line(rd: &mut Reader) -> (r: Result<(String, String), QpackError>)
    requires
        old(rd).wf(),
        old(rd).rest().len() > 0,
    ensures
        final(rd).wf(),
        match r {
            Ok(f) => line_parse(old(rd).rest()) matches Ok((w, n)) && w == (f.0@, f.1@)
                && final(rd).rest() == old(rd).rest().skip(n) && 0 < n <= old(rd).rest().len(),
            Err(e) => line_parse(old(rd).rest()) == Err::<(FieldView, int), QpackError>(e),
        },
{
    let first: u8 = rd.buf[rd.pos];
    assert(first == rd.rest()[0]);
    if first >= 128 {
        if (first / 64) % 2 == 0 {
            return Err(QpackError::DynamicReference);
        }
        match rd.read_int(6) {
            Err(e) => Err(e),
            Ok(index) => {
                if index >= 99 {
                    return Err(QpackError::StaticIndex(index));
                }
                let e = static_entry(index);
                Ok((copy_text(e.0), copy_text(e.1)))
            },
        }
    } else if first >= 64 {
        if (first / 16) % 2 == 0 {
            return Err(QpackError::DynamicReference);
        }
        match rd.read_int(4) {
            Err(e) => Err(e),
            Ok(index) => {
                if index >= 99 {
                    return Err(QpackError::StaticName(index));
                }
                let e = static_entry(index);
                let ghost mid = rd.rest();
                match rd.read_string(8) {
                    Err(e) => Err(e),
                    Ok(value) => {
                        proof {
                            let n = int_parse(old(rd).rest(), 4)->Ok_0.1;
                            let m = string_parse(mid, 8)->Ok_0.1;
                            assert(mid.skip(m) =~= old(rd).rest().skip(n + m));
                        }
                        Ok((copy_text(e.0), utf8_text_lossy(value.as_slice())))
                    },
                }
            },
        }
    } else if first >= 32 {
        match rd.read_string(4) {
            Err(e) => Err(e),
            Ok(name) => {
                let ghost mid = rd.rest();
                match rd.read_string(8) {
                    Err(e) => Err(e),
                    Ok(value) => {
                        proof {
                            let n = string_parse(old(rd).rest(), 4)->Ok_0.1;
                            let m = string_parse(mid, 8)->Ok_0.1;
                            assert(mid.skip(m) =~= old(rd).rest().skip(n + m));
                        }
                        Ok((utf8_text_lossy(name.as_slice()), utf8_text_lossy(value.as_slice())))
                    },
                }
            },
        }
    } else {
        Err(QpackError::UnsupportedLine(first))
    }
}

/// Decodes a field section into its fields.
pub fn decode_field_section(block: &[u8]) -> (r: Result<Vec<(String, String)>, QpackError>)
    ensures
        match r {
            Ok(fields) => section_parse(block@) == Ok::<Seq<FieldView>, QpackError>(
                field_views(fields@),
            ),
            Err(e) => section_parse(block@) == Err::<Seq<FieldView>, QpackError>(e),
        },
{
    let mut rd = Reader::new(block);
    match rd.read_int(8) {
        Err(e) => {
            return Err(e);
        },
        Ok(count) => {
            if count != 0 {
                return Err(QpackError::DynamicTable);
            }
        },
    }
    match rd.read_int(7) {
        Err(e) => {
            return Err(e);
        },
        Ok(base) => {
            if base != 0 {
                return Err(QpackError::NonzeroBase);
            }
        },
    }
    let ghost lines = rd.rest();
    let mut fields: Vec<(String, String)> = Vec::new();
    assert(section_parse(block@) == lines_parse(lines));
    assert(field_views(fields@) =~= Seq::empty());
    while rd.remaining() > 0
        invariant
            rd.wf(),
            section_parse(block@) == lines_parse(lines),
            lines_parse(rd.rest()) matches Err(e) ==> lines_parse(lines) == Err::<
                Seq<FieldView>,
                QpackError,
            >(e),
            lines_parse(rd.rest()) matches Ok(more) ==> lines_parse(lines) == Ok::<
                Seq<FieldView>,
                QpackError,
            >(field_views(fields@) + more),
        decreases rd.rest().len(),
    {
        let ghost before = rd.rest();
        let ghost so_far = field_views(fields@);
        match read_line(&mut rd) {
            Err(e) => {
                return Err(e);
            },
            Ok(f) => {
                let ghost fv = (f.0@, f.1@);
                fields.push(f);
                proof {
                    assert(field_views(fields@) =~= so_far.push(fv));
                    if let Ok(more) = lines_parse(rd.rest()) {
                        assert(so_far + (seq![fv] + more) =~= field_views(fields@) + more);
                    }
                }
            },
        }
    }
    assert(rd.rest() =~= Seq::empty());
    assert(field_views(fields@) + Seq::<FieldView>::empty() =~= field_views(fields@));
    Ok(fields)
}

/// A field line with literal name and value, neither Huffman-coded.
pub open spec fn line_bytes(name: Seq<char>, value: Seq<char>) -> Seq<u8> {
    int_bytes(3, encode_utf8(name).len() as int, 0x20) + encode_utf8(name) + int_bytes(
        7,
        encode_utf8(value).len() as int,
        0,
    ) + encode_utf8(value)
}

/// Field lines one after the other.
pub open spec fn lines_bytes(fields: Seq<FieldView>) -> Seq<u8>
    decreases fields.len(),
{
    if fields.len() == 0 {
        Seq::empty()
    } else {
        lines_bytes(fields.drop_last()) + line_bytes(fields.last().0, fields.last().1)
    }
}

/// A field section: no dynamic table, base zero, then the field lines.
pub open spec fn section_bytes(fields: Seq<FieldView>) -> Seq<u8> {
    seq![0u8, 0u8] + lines_bytes(fields)
}

/// The values of a list of borrowed fields.
pub open spec fn str_fields(fields: Seq<(&str, &str)>) -> Seq<FieldView> {
    fields.map_values(|f: (&str, &str)| (f.0@, f.1@))
}

/// Encodes a field section.
pub fn encode_field_section(fields: &[(&str, &str)]) -> (out: Vec<u8>)
    ensures
        out@ == section_bytes(str_fields(fields@)),
{
    let mut out: Vec<u8> = Vec::new();
    out.push(0);
    out.push(0);
    let ghost all = str_fields(fields@);
    let mut i: usize = 0;
    assert(out@ =~= seq![0u8, 0u8] + lines_bytes(all.take(0)));
    while i < fields.len()
        invariant
            i <= fields@.len(),
            all == str_fields(fields@),
            out@ == seq![0u8, 0u8] + lines_bytes(all.take(i as int)),
        decreases fields@.len() - i,
    {
        let name = fields[i].0.as_bytes();
        let value = fields[i].1.as_bytes();
        let ghost before = out@;
        append_int(&mut out, 3, name.len() as u64, 0x20);
        put_slice(&mut out, name);
        append_int(&mut out, 7, value.len() as u64, 0);
        put_slice(&mut out, value);
        proof {
            assert(all.take(i + 1).drop_last() =~= all.take(i as int));
            assert(all.take(i + 1).last() == (fields@[i as int].0@, fields@[i as int].1@));
            assert(out@ =~= before + line_bytes(fields@[i as int].0@, fields@[i as int].1@));
            assert(out@ =~= seq![0u8, 0u8] + lines_bytes(all.take(i + 1)));
        }
        i += 1;
    }
    assert(all.take(all.len() as int) =~= all);
    out
}

/// How large a number can be whose lower groups, `depth` of them, have been read already.
pub open spec fn tail_bound(depth: int) -> int {
    if depth >= 9 {
        2
    } else if depth == 8 {
        0x100
    } else if depth == 7 {
        0x8000
    } else if depth == 6 {
        0x40_0000
    } else if depth == 5 {
        0x2000_0000
    } else if depth == 4 {
        0x10_0000_0000
    } else if depth == 3 {
        0x800_0000_0000
    } else if depth == 2 {
        0x4_0000_0000_0000
    } else if depth == 1 {
        0x200_0000_0000_0000
    } else {
        0x1_0000_0000_0000_0000
    }
}

proof fn lemma_tail_round_trip(rest: int, depth: int, tail: Seq<u8>)
    requires
        0 <= depth <= 9,
        0 <= rest < tail_bound(depth),
    ensures
        tail_parse(int_tail(rest) + tail, depth) == Ok::<(int, int), QpackError>(
            (rest, int_tail(rest).len() as int),
        ),
    decreases 9 - depth,
{
    let s = int_tail(rest) + tail;
    if rest >= 128 {
        lemma_tail_round_trip(rest / 128, depth + 1, tail);
        assert(s.skip(1) =~= int_tail(rest / 128) + tail);
        assert(s[0] == rest % 128 + 128);
        assert(int_tail(rest).len() == 1 + int_tail(rest / 128).len());
    } else {
        assert(s[0] == rest);
    }
}

proof fn lemma_flags(flags: u8, v: u8, prefix: u8)
    requires
        1 <= prefix <= 8,
        low_bits(flags, prefix) == 0,
        v <= prefix_max(prefix),
    ensures
        low_bits(flags | v, prefix) == v,
        (flags | v) == flags + v,
{
    if prefix == 1 {
        assert(flags % 2 == 0 && v <= 1 ==> (flags | v) % 2 == v && (flags | v) == flags + v)
            by (bit_vector);
    } else if prefix == 2 {
        assert(flags % 4 == 0 && v <= 3 ==> (flags | v) % 4 == v && (flags | v) == flags + v)
            by (bit_vector);
    } else if prefix == 3 {
        assert(flags % 8 == 0 && v <= 7 ==> (flags | v) % 8 == v && (flags | v) == flags + v)
            by (bit_vector);
    } else if prefix == 4 {
        assert(flags % 16 == 0 && v <= 15 ==> (flags | v) % 16 == v && (flags | v) == flags + v)
            by (bit_vector);
    } else if prefix == 5 {
        assert(flags % 32 == 0 && v <= 31 ==> (flags | v) % 32 == v && (flags | v) == flags + v)
            by (bit_vector);
    } else if prefix == 6 {
        assert(flags % 64 == 0 && v <= 63 ==> (flags | v) % 64 == v && (flags | v) == flags + v)
            by (bit_vector);
    } else if prefix == 7 {
        assert(flags % 128 == 0 && v <= 127 ==> (flags | v) % 128 == v && (flags | v) == flags + v)
            by (bit_vector);
    } else {
        assert(0u8 | v == v) by (bit_vector);
    }
}

/// Every 64-bit number survives a trip through its prefixed form, whatever prefix it has, whatever
/// flags stand above it and whatever follows it.
pub proof fn law_int_round_trip(prefix: u8, value: u64, flags: u8, tail: Seq<u8>)
    requires
        1 <= prefix <= 8,
        low_bits(flags, prefix) == 0,
    ensures
        int_parse(int_bytes(prefix, value as int, flags) + tail, prefix) == Ok::<
            (int, int),
            QpackError,
        >((value as int, int_bytes(prefix, value as int, flags).len() as int)),
{
    let max = prefix_max(prefix);
    let s = int_bytes(prefix, value as int, flags) + tail;
    if value < max {
        lemma_flags(flags, value as u8, prefix);
        assert(s[0] == flags | (value as u8));
    } else {
        lemma_flags(flags, max as u8, prefix);
        assert(s[0] == flags | (max as u8));
        lemma_tail_round_trip(value - max, 0, tail);
        assert(s.skip(1) =~= int_tail(value - max) + tail);
    }
}

/// The flags above a prefixed integer stay what they are.
pub proof fn law_int_keeps_flags(prefix: u8, value: u64, flags: u8)
    requires
        1 <= prefix <= 8,
        low_bits(flags, prefix) == 0,
    ensures
        int_bytes(prefix, value as int, flags).len() > 0,
        ({
            let first = int_bytes(prefix, value as int, flags)[0];
            first - low_bits(first, prefix) == flags
        }),
{
    let max = prefix_max(prefix);
    if value < max {
        lemma_flags(flags, value as u8, prefix);
    } else {
        lemma_flags(flags, max as u8, prefix);
    }
}

proof fn lemma_string_round_trip(prefix_width: u8, flags: u8, raw: Seq<u8>, tail: Seq<u8>)
    requires
        prefix_width == 4 && flags == 0x20 || prefix_width == 8 && flags == 0,
        raw.len() <= u64::MAX,
    ensures
        ({
            let head = int_bytes((prefix_width - 1) as u8, raw.len() as int, flags);
            &&& string_parse(head + raw + tail, prefix_width) == Ok::<(Seq<u8>, int), QpackError>(
                (raw, (head.len() + raw.len()) as int),
            )
            &&& head.len() > 0
            &&& prefix_width == 4 ==> 32 <= head[0] < 64
        }),
{
    let p = (prefix_width - 1) as u8;
    let value = raw.len() as u64;
    let head = int_bytes(p, raw.len() as int, flags);
    let s = head + raw + tail;
    law_int_round_trip(p, value, flags, raw + tail);
    law_int_keeps_flags(p, value, flags);
    assert(s =~= head + (raw + tail));
    assert(s.subrange(head.len() as int, (head.len() + raw.len()) as int) =~= raw);
    assert(s[0] == head[0]);
}

proof fn lemma_line_round_trip(name: Seq<char>, value: Seq<char>, tail: Seq<u8>)
    requires
        encode_utf8(name).len() <= u64::MAX,
        encode_utf8(value).len() <= u64::MAX,
    ensures
        line_parse(line_bytes(name, value) + tail) == Ok::<(FieldView, int), QpackError>(
            ((name, value), line_bytes(name, value).len() as int),
        ),
        line_bytes(name, value).len() > 0,
{
    let nb = encode_utf8(name);
    let vb = encode_utf8(value);
    let nh = int_bytes(3, nb.len() as int, 0x20);
    let vh = int_bytes(7, vb.len() as int, 0);
    let s = line_bytes(name, value) + tail;
    lemma_string_round_trip(4, 0x20, nb, vh + vb + tail);
    lemma_string_round_trip(8, 0, vb, tail);
    assert(s =~= nh + nb + (vh + vb + tail));
    assert(s.skip((nh.len() + nb.len()) as int) =~= vh + vb + tail);
    assert(s[0] == nh[0]);
    encode_utf8_valid_utf8(name);
    encode_utf8_valid_utf8(value);
    encode_utf8_decode_utf8(name);
    encode_utf8_decode_utf8(value);
}

proof fn lemma_lines_front(fields: Seq<FieldView>)
    requires
        fields.len() > 0,
    ensures
        lines_bytes(fields) == line_bytes(fields[0].0, fields[0].1) + lines_bytes(fields.skip(1)),
    decreases fields.len(),
{
    if fields.len() == 1 {
        assert(fields.drop_last() =~= Seq::empty());
        assert(fields.skip(1) =~= Seq::empty());
        assert(lines_bytes(fields) =~= line_bytes(fields[0].0, fields[0].1) + lines_bytes(
            fields.skip(1),
        ));
    } else {
        lemma_lines_front(fields.drop_last());
        assert(fields.skip(1).drop_last() =~= fields.drop_last().skip(1));
        assert(lines_bytes(fields) =~= line_bytes(fields[0].0, fields[0].1) + lines_bytes(
            fields.skip(1),
        ));
    }
}

/// Fields whose texts have lengths that an integer can hold.
pub open spec fn fields_fit(fields: Seq<FieldView>) -> bool {
    forall|i: int|
        0 <= i < fields.len() ==> encode_utf8((#[trigger] fields[i]).0).len() <= u64::MAX
            && encode_utf8(fields[i].1).len() <= u64::MAX
}

proof fn lemma_lines_round_trip(fields: Seq<FieldView>)
    requires
        fields_fit(fields),
    ensures
        lines_parse(lines_bytes(fields)) == Ok::<Seq<FieldView>, QpackError>(fields),
    decreases fields.len(),
{
    if fields.len() == 0 {
        assert(fields =~= Seq::empty());
    } else {
        let rest = fields.skip(1);
        let line = line_bytes(fields[0].0, fields[0].1);
        lemma_lines_front(fields);
        assert(fields_fit(rest)) by {
            assert forall|i: int| 0 <= i < rest.len() implies encode_utf8(
                (#[trigger] rest[i]).0,
            ).len() <= u64::MAX && encode_utf8(rest[i].1).len() <= u64::MAX by {
                assert(rest[i] == fields[i + 1]);
            }
        }
        lemma_lines_round_trip(rest);
        lemma_line_round_trip(fields[0].0, fields[0].1, lines_bytes(rest));
        let s = lines_bytes(fields);
        assert(s.skip(line.len() as int) =~= lines_bytes(rest));
        assert(seq![fields[0]] + rest =~= fields);
    }
}

/// A field section decodes to the fields that it was made of.
pub proof fn law_field_section_round_trip(fields: Seq<FieldView>)
    requires
        fields_fit(fields),
    ensures
        section_parse(section_bytes(fields)) == Ok::<Seq<FieldView>, QpackError>(fields),
{
    let s = section_bytes(fields);
    lemma_lines_round_trip(fields);
    assert(s[0] == 0);
    assert(s.skip(1)[0] == 0);
    assert(s.skip(1).skip(1) =~= lines_bytes(fields));
}

/// The `len` low bits of a number, the most significant first.
pub open spec fn bits_of(code: int, len: int) -> Seq<int>
    decreases len,
{
    if len <= 0 {
        Seq::empty()
    } else {
        bits_of(code / 2, len - 1).push(code % 2)
    }
}

/// A row of one bits.
pub open spec fn one_bits(n: int) -> Seq<int> {
    Seq::new(n as nat, |i: int| 1int)
}

/// The bits of the codes of a row of symbols.
pub open spec fn coded(symbols: Seq<u8>) -> Seq<int>
    decreases symbols.len(),
{
    if symbols.len() == 0 {
        Seq::empty()
    } else {
        let row = HPACK_HUFFMAN@[symbols.last() as int];
        coded(symbols.drop_last()) + bits_of(row.0 as int, row.1 as int)
    }
}

/// The first `n` bits of a byte string.
pub open spec fn input_bits(input: Seq<u8>, n: int) -> Seq<int> {
    Seq::new(n as nat, |i: int| bit_at(input, i))
}

proof fn lemma_bit_range(input: Seq<u8>, i: int)
    ensures
        0 <= bit_at(input, i) <= 1,
{
    let x = input[i / 8] >> ((7 - i % 8) as u8);
    assert(x & 1u8 <= 1u8) by (bit_vector);
}

proof fn lemma_ones_bits(n: int)
    requires
        0 <= n,
    ensures
        bits_of(ones(n), n) == one_bits(n),
    decreases n,
{
    if n > 0 {
        lemma_ones_bits(n - 1);
        assert(ones(n) / 2 == ones(n - 1));
        assert(bits_of(ones(n), n) =~= one_bits(n));
    } else {
        assert(bits_of(ones(n), n) =~= one_bits(n));
    }
}

proof fn lemma_huffman_sound(input: Seq<u8>, pos: int, code: int, len: int, out: Seq<u8>)
    requires
        0 <= pos <= 8 * input.len(),
        0 <= len < 30,
        0 <= code,
        input_bits(input, pos) == coded(out) + bits_of(code, len),
        huffman_from(input, pos, code, len, out) is Ok,
    ensures
        exists|p: int|
            0 <= p < 30 && input_bits(input, 8 * input.len() as int) == coded(
                huffman_from(input, pos, code, len, out)->Ok_0,
            ) + #[trigger] one_bits(p),
    decreases 8 * input.len() - pos,
{
    if pos >= 8 * input.len() {
        lemma_ones_bits(len);
        assert(input_bits(input, 8 * input.len() as int) == coded(out) + one_bits(len));
    } else {
        let c = code * 2 + bit_at(input, pos);
        lemma_bit_range(input, pos);
        assert(c / 2 == code && c % 2 == bit_at(input, pos));
        assert(bits_of(c, len + 1) == bits_of(code, len).push(bit_at(input, pos)));
        assert(input_bits(input, pos + 1) =~= input_bits(input, pos).push(bit_at(input, pos)));
        assert(input_bits(input, pos + 1) =~= coded(out) + bits_of(c, len + 1));
        match symbol_of(0, c, len + 1) {
            Some(s) => {
                lemma_symbol_of(0, c, len + 1);
                let next = out.push(s as u8);
                assert(next.drop_last() =~= out);
                assert(bits_of(0, 0) =~= Seq::empty());
                assert(input_bits(input, pos + 1) =~= coded(next) + bits_of(0, 0));
                lemma_huffman_sound(input, pos + 1, 0, 0, next);
            },
            None => {
                lemma_huffman_sound(input, pos + 1, c, len + 1, out);
            },
        }
    }
}

/// A string that decodes consists of the codes of the decoded symbols, one after the other, and
/// fewer than thirty ones.
pub proof fn law_huffman_text_is_coded(input: Seq<u8>)
    requires
        huffman_text(input) is Ok,
    ensures
        exists|p: int|
            0 <= p < 30 && input_bits(input, 8 * input.len() as int) == coded(
                huffman_text(input)->Ok_0,
            ) + #[trigger] one_bits(p),
{
    assert(input_bits(input, 0) =~= coded(Seq::empty()) + bits_of(0, 0));
    lemma_huffman_sound(input, 0, 0, 0, Seq::empty());
}

/// A line that refers to the static table stands for the field at that place; there are 99.
pub proof fn law_static_line(index: u64, tail: Seq<u8>)
    ensures
        index < 99 ==> line_parse(int_bytes(6, index as int, 0xc0) + tail) == Ok::<
            (FieldView, int),
            QpackError,
        >((static_field(index), int_bytes(6, index as int, 0xc0).len() as int)),
        index >= 99 ==> line_parse(int_bytes(6, index as int, 0xc0) + tail) == Err::<
            (FieldView, int),
            QpackError,
        >(QpackError::StaticIndex(index)),
{
    let s = int_bytes(6, index as int, 0xc0) + tail;
    law_int_round_trip(6, index, 0xc0, tail);
    law_int_keeps_flags(6, index, 0xc0);
    assert(s[0] == int_bytes(6, index as int, 0xc0)[0]);
}

/// A line with a name from the static table and a value of its own, plain or Huffman-coded, stands for
/// that name and value.
pub proof fn law_static_name_line(index: u64, raw: Seq<u8>, huffman: bool, tail: Seq<u8>)
    requires
        raw.len() <= u64::MAX,
    ensures
        ({
            let head = int_bytes(4, index as int, 0x50);
            let line = head + string_bytes(raw, huffman);
            let text = if huffman {
                huffman_text(raw)
            } else {
                Ok(raw)
            };
            &&& index < 99 && text is Ok ==> line_parse(line + tail) == Ok::<
                (FieldView, int),
                QpackError,
            >(((static_field(index).0, lossy_utf8(text->Ok_0)), line.len() as int))
            &&& index < 99 && text is Err ==> line_parse(line + tail) == Err::<
                (FieldView, int),
                QpackError,
            >(text->Err_0)
            &&& index >= 99 ==> line_parse(line + tail) == Err::<(FieldView, int), QpackError>(
                QpackError::StaticName(index),
            )
        }),
{
    let head = int_bytes(4, index as int, 0x50);
    let value = string_bytes(raw, huffman);
    let s = head + value + tail;
    law_int_round_trip(4, index, 0x50, value + tail);
    law_int_keeps_flags(4, index, 0x50);
    assert(s =~= head + (value + tail));
    assert(s[0] == head[0]);
    assert(s.skip(head.len() as int) =~= value + tail);
    lemma_string_is_read(raw, huffman, tail);
}

/// A text on the wire: the length with the flag that it is Huffman-coded, and the bytes.
pub open spec fn string_bytes(raw: Seq<u8>, huffman: bool) -> Seq<u8> {
    int_bytes(
        7,
        raw.len() as int,
        if huffman {
            0x80
        } else {
            0
        },
    ) + raw
}

proof fn lemma_string_is_read(raw: Seq<u8>, huffman: bool, tail: Seq<u8>)
    requires
        raw.len() <= u64::MAX,
    ensures
        ({
            let s = string_bytes(raw, huffman);
            string_parse(s + tail, 8) == if huffman {
                match huffman_text(raw) {
                    Ok(text) => Ok((text, s.len() as int)),
                    Err(e) => Err(e),
                }
            } else {
                Ok::<(Seq<u8>, int), QpackError>((raw, s.len() as int))
            }
        }),
{
    let flags: u8 = if huffman {
        0x80
    } else {
        0
    };
    let head = int_bytes(7, raw.len() as int, flags);
    let s = string_bytes(raw, huffman) + tail;
    law_int_round_trip(7, raw.len() as u64, flags, raw + tail);
    law_int_keeps_flags(7, raw.len() as u64, flags);
    assert(s =~= head + (raw + tail));
    assert(s[0] == head[0]);
    assert(s.subrange(head.len() as int, (head.len() + raw.len()) as int) =~= raw);
}

/// The lines of a section are read one after the other: the first one, then those behind it.
pub proof fn law_lines_one_after_the_other(line: Seq<u8>, field: FieldView, rest: Seq<u8>)
    requires
        line.len() > 0,
        line_parse(line + rest) == Ok::<(FieldView, int), QpackError>((field, line.len() as int)),
    ensures
        lines_parse(rest) matches Ok(fields) ==> lines_parse(line + rest) == Ok::<
            Seq<FieldView>,
            QpackError,
        >(seq![field] + fields),
        lines_parse(rest) matches Err(e) ==> lines_parse(line + rest) == Err::<
            Seq<FieldView>,
            QpackError,
        >(e),
        section_parse(seq![0u8, 0u8] + line + rest) == lines_parse(line + rest),
{
    assert((line + rest).skip(line.len() as int) =~= rest);
    let s = seq![0u8, 0u8] + line + rest;
    assert(s[0] == 0);
    assert(s.skip(1)[0] == 0);
    assert(s.skip(1).skip(1) =~= line + rest);
}

/// The places of the status codes in the static table.
pub proof fn law_static_statuses()
    ensures
        static_field(24) == (":status"@, "103"@),
        static_field(25) == (":status"@, "200"@),
        static_field(26) == (":status"@, "304"@),
        static_field(27) == (":status"@, "404"@),
        static_field(28) == (":status"@, "503"@),
        static_field(63) == (":status"@, "100"@),
        static_field(64) == (":status"@, "204"@),
        static_field(65) == (":status"@, "206"@),
        static_field(66) == (":status"@, "302"@),
        static_field(67) == (":status"@, "400"@),
        static_field(68) == (":status"@, "403"@),
        static_field(69) == (":status"@, "421"@),
        static_field(70) == (":status"@, "425"@),
        static_field(71) == (":status"@, "500"@),
{
}

/// What refers to the dynamic table, and lines of a form that does not exist, are refused.
pub proof fn law_dynamic_references_are_refused(s: Seq<u8>, count: u64, base: u64, flags: u8)
    requires
        flags == 0 || flags == 0x80,
    ensures
        s.len() > 0 && 128 <= s[0] < 192 ==> line_parse(s) == Err::<(FieldView, int), QpackError>(
            QpackError::DynamicReference,
        ),
        s.len() > 0 && (64 <= s[0] < 80 || 96 <= s[0] < 112) ==> line_parse(s) == Err::<
            (FieldView, int),
            QpackError,
        >(QpackError::DynamicReference),
        s.len() > 0 && s[0] < 32 ==> line_parse(s) == Err::<(FieldView, int), QpackError>(
            QpackError::UnsupportedLine(s[0]),
        ),
        count > 0 ==> section_parse(int_bytes(8, count as int, 0) + s) == Err::<
            Seq<FieldView>,
            QpackError,
        >(QpackError::DynamicTable),
        base > 0 ==> section_parse(seq![0u8] + int_bytes(7, base as int, flags) + s) == Err::<
            Seq<FieldView>,
            QpackError,
        >(QpackError::NonzeroBase),
{
    law_int_round_trip(8, count, 0, s);
    law_int_round_trip(7, base, flags, s);
    let t = seq![0u8] + int_bytes(7, base as int, flags) + s;
    assert(t[0] == 0);
    assert(t.skip(1) =~= int_bytes(7, base as int, flags) + s);
}

/// The form of an integer: one that fits below the largest value of its bits stands in the first byte;
/// a larger one fills these bits and follows in groups of seven, the least significant first.
pub proof fn law_int_form(value: u64, rest: int)
    requires
        0 <= rest,
    ensures
        prefix_max(3) == 7,
        prefix_max(4) == 15,
        prefix_max(6) == 63,
        prefix_max(7) == 127,
        prefix_max(8) == 255,
        forall|b: u8, p: u8| 1 <= p <= 8 ==> #[trigger] low_bits(b, p) == b as int % (prefix_max(p) + 1),
        rest < 128 ==> int_tail(rest).len() == 1 && int_tail(rest)[0] == rest,
        rest >= 128 ==> int_tail(rest)[0] == 128 + rest % 128 && int_tail(rest).skip(1) == int_tail(
            rest / 128,
        ),
        int_bytes(8, value as int, 0)[0] == if value < 255 {
            value as int
        } else {
            255
        },
        value >= 255 ==> int_bytes(8, value as int, 0).skip(1) == int_tail(value - 255),
{
    if rest >= 128 {
        assert(int_tail(rest).skip(1) =~= int_tail(rest / 128));
    }
    assert forall|b: u8, p: u8| 1 <= p <= 8 implies #[trigger] low_bits(b, p) == b as int % (prefix_max(
        p,
    ) + 1) by {
        assert(p == 1 || p == 2 || p == 3 || p == 4 || p == 5 || p == 6 || p == 7 || p == 8);
        assert(p == 1 ==> prefix_max(p) + 1 == 2 && low_bits(b, p) == b % 2);
        assert(p == 2 ==> prefix_max(p) + 1 == 4 && low_bits(b, p) == b % 4);
        assert(p == 3 ==> prefix_max(p) + 1 == 8 && low_bits(b, p) == b % 8);
        assert(p == 4 ==> prefix_max(p) + 1 == 16 && low_bits(b, p) == b % 16);
        assert(p == 5 ==> prefix_max(p) + 1 == 32 && low_bits(b, p) == b % 32);
        assert(p == 6 ==> prefix_max(p) + 1 == 64 && low_bits(b, p) == b % 64);
        assert(p == 7 ==> prefix_max(p) + 1 == 128 && low_bits(b, p) == b % 128);
        assert(p == 8 ==> prefix_max(p) + 1 == 256 && low_bits(b, p) == b);
    }
    let v = value as u8;
    assert(0u8 | v == v) by (bit_vector);
    assert(0u8 | 255u8 == 255u8) by (bit_vector);
    if value >= 255 {
        assert(int_bytes(8, value as int, 0).skip(1) =~= int_tail(value - 255));
    }
}

/// The bits up to a place are the codes of some symbols and these bits.
pub open spec fn bits_end_in(input: Seq<u8>, symbols: Seq<u8>, n: int, bits: Seq<int>) -> bool {
    0 <= n <= 8 * input.len() && input_bits(input, n) == coded(symbols) + bits
}

/// A Huffman-coded text is refused only for a reason: it holds the code of the end mark; thirty bits in a
/// row that are no symbol's code; or bits at its end that are no symbol's code and not all ones.
pub proof fn law_huffman_text_is_refused_for_a_reason(input: Seq<u8>)
    requires
        huffman_text(input) is Err,
    ensures
        match huffman_text(input)->Err_0 {
            QpackError::HuffmanEos => exists|symbols: Seq<u8>, n: int| #[trigger]
                bits_end_in(
                    input,
                    symbols,
                    n,
                    bits_of(HPACK_HUFFMAN@[256].0 as int, HPACK_HUFFMAN@[256].1 as int),
                ),
            QpackError::HuffmanInvalid => exists|symbols: Seq<u8>, n: int, code: int|
                #[trigger] bits_end_in(input, symbols, n, bits_of(code, 30)) && no_symbol(code, 30),
            QpackError::HuffmanPadding => exists|symbols: Seq<u8>, code: int, len: int|
                #[trigger] bits_end_in(input, symbols, 8 * input.len() as int, bits_of(code, len))
                    && 0 <= len < 30 && code != ones(len),
            _ => false,
        },
{
    assert(input_bits(input, 0) =~= coded(Seq::empty()) + bits_of(0, 0));
    lemma_huffman_refusal(input, 0, 0, 0, Seq::empty());
}

/// Whether no symbol has a code.
pub open spec fn no_symbol(code: int, len: int) -> bool {
    forall|i: int|
        0 <= i < 257 ==> !((#[trigger] HPACK_HUFFMAN@[i]).0 == code && HPACK_HUFFMAN@[i].1 == len)
}

proof fn lemma_no_symbol(i: int, code: int, len: int)
    requires
        0 <= i,
        symbol_of(i, code, len) is None,
    ensures
        forall|k: int|
            i <= k < 257 ==> !((#[trigger] HPACK_HUFFMAN@[k]).0 == code && HPACK_HUFFMAN@[k].1 == len),
    decreases 257 - i,
{
    if i < 257 {
        lemma_no_symbol(i + 1, code, len);
    }
}

proof fn lemma_huffman_refusal(input: Seq<u8>, pos: int, code: int, len: int, out: Seq<u8>)
    requires
        0 <= pos <= 8 * input.len(),
        0 <= len < 30,
        0 <= code,
        input_bits(input, pos) == coded(out) + bits_of(code, len),
        huffman_from(input, pos, code, len, out) is Err,
    ensures
        match huffman_from(input, pos, code, len, out)->Err_0 {
            QpackError::HuffmanEos => exists|symbols: Seq<u8>, n: int| #[trigger]
                bits_end_in(
                    input,
                    symbols,
                    n,
                    bits_of(HPACK_HUFFMAN@[256].0 as int, HPACK_HUFFMAN@[256].1 as int),
                ),
            QpackError::HuffmanInvalid => exists|symbols: Seq<u8>, n: int, c: int| #[trigger]
                bits_end_in(input, symbols, n, bits_of(c, 30)) && no_symbol(c, 30),
            QpackError::HuffmanPadding => exists|symbols: Seq<u8>, c: int, l: int| #[trigger]
                bits_end_in(input, symbols, 8 * input.len() as int, bits_of(c, l)) && 0 <= l < 30 && c
                    != ones(l),
            _ => false,
        },
    decreases 8 * input.len() - pos,
{
    if pos >= 8 * input.len() {
        assert(bits_end_in(input, out, 8 * input.len() as int, bits_of(code, len)));
    } else {
        let c = code * 2 + bit_at(input, pos);
        lemma_bit_range(input, pos);
        assert(c / 2 == code && c % 2 == bit_at(input, pos));
        assert(bits_of(c, len + 1) == bits_of(code, len).push(bit_at(input, pos)));
        assert(input_bits(input, pos + 1) =~= input_bits(input, pos).push(bit_at(input, pos)));
        assert(input_bits(input, pos + 1) =~= coded(out) + bits_of(c, len + 1));
        match symbol_of(0, c, len + 1) {
            Some(s) => {
                lemma_symbol_of(0, c, len + 1);
                if s == 256 {
                    assert(bits_end_in(
                        input,
                        out,
                        pos + 1,
                        bits_of(HPACK_HUFFMAN@[256].0 as int, HPACK_HUFFMAN@[256].1 as int),
                    ));
                } else {
                    let next = out.push(s as u8);
                    assert(next.drop_last() =~= out);
                    assert(bits_of(0, 0) =~= Seq::empty());
                    assert(input_bits(input, pos + 1) =~= coded(next) + bits_of(0, 0));
                    lemma_huffman_refusal(input, pos + 1, 0, 0, next);
                }
            },
            None => {
                if len + 1 == 30 {
                    lemma_no_symbol(0, c, 30);
                    assert(bits_end_in(input, out, pos + 1, bits_of(c, 30)));
                    assert(no_symbol(c, 30));
                } else {
                    lemma_huffman_refusal(input, pos + 1, c, len + 1, out);
                }
            },
        }
    }
}

} // verus!
