//! Pritunl: profiles of the Pritunl client, and requests to its local service.
use vstd::prelude::*;

use crate::json::{json_parse, parse_json, JsonValue};
use crate::provider::{lemma_text_map_insert, opt_text, text_map, ConnectOptions, ProviderConfig, VpnError, VpnStatus};
use crate::strmap::StrMap;
use crate::text::{append_str, chars_of, decimal, find_text, find_text_from, is_whitespace, is_ws, line_spans, lines, nth_token, owned, parse_u16, parse_u16_range, push_decimal, str_eq, string_from_utf8, string_from_utf8_lossy, string_of, sub_chars, tokens, trim, trim_bounds, utf8_error_text, utf8_lossy};

verus! {

broadcast use vstd::string::group_string_axioms;

/// The value of a base64 digit byte; `'='` counts as zero.
pub open spec fn b64_value(c: u8) -> Option<u8> {
    if 65 <= c && c <= 90 {
        Some((c - 65) as u8)
    } else if 97 <= c && c <= 122 {
        Some((c - 97 + 26) as u8)
    } else if 48 <= c && c <= 57 {
        Some((c - 48 + 52) as u8)
    } else if c == 43 {
        Some(62u8)
    } else if c == 47 {
        Some(63u8)
    } else if c == 61 {
        Some(0u8)
    } else {
        None
    }
}

/// The bytes one group of two to four base64 bytes stands for. The third and
/// fourth bytes count only when present and not `'='`.
pub open spec fn b64_group(g: Seq<u8>) -> Option<Seq<u8>> {
    match (b64_value(g[0]), b64_value(g[1])) {
        (Some(a), Some(b)) => {
            let one = seq![((a << 2u8) | (b >> 4u8)) as u8];
            if g.len() > 2 && g[2] != 61 {
                match b64_value(g[2]) {
                    Some(c) => {
                        let two = one.push(((b << 4u8) | (c >> 2u8)) as u8);
                        if g.len() > 3 && g[3] != 61 {
                            match b64_value(g[3]) {
                                Some(d) => Some(two.push(((c << 6u8) | d) as u8)),
                                None => None,
                            }
                        } else {
                            Some(two)
                        }
                    },
                    None => None,
                }
            } else {
                Some(one)
            }
        },
        _ => None,
    }
}

/// The bytes base64 text stands for, read in groups of four; a final single
/// byte is ignored. `None` when a byte that is read is not a base64 digit.
pub open spec fn b64_bytes(bytes: Seq<u8>) -> Option<Seq<u8>>
    decreases bytes.len(),
{
    if bytes.len() < 2 {
        Some(seq![])
    } else {
        let n: int = if bytes.len() >= 4 {
            4
        } else {
            bytes.len() as int
        };
        match b64_group(bytes.subrange(0, n)) {
            Some(out) => match b64_bytes(bytes.subrange(n, bytes.len() as int)) {
                Some(rest) => Some(out + rest),
                None => None,
            },
            None => None,
        }
    }
}

/// The text without its whitespace characters.
pub open spec fn without_ws(s: Seq<char>) -> Seq<char>
    decreases s.len(),
{
    if s.len() == 0 {
        seq![]
    } else if is_ws(s.last()) {
        without_ws(s.drop_last())
    } else {
        without_ws(s.drop_last()).push(s.last())
    }
}

fn b64_digit(c: u8) -> (r: Option<u8>)
    ensures
        r == b64_value(c),
        r matches Some(v) ==> v < 64,
{
    if c >= 65 && c <= 90 {
        Some(c - 65)
    } else if c >= 97 && c <= 122 {
        Some(c - 97 + 26)
    } else if c >= 48 && c <= 57 {
        Some(c - 48 + 52)
    } else if c == 43 {
        Some(62)
    } else if c == 47 {
        Some(63)
    } else if c == 61 {
        Some(0)
    } else {
        None
    }
}

/// Decodes one group `bytes[i..i + n]` onto `out`.
fn decode_group(bytes: &[u8], i: usize, n: usize, out: &mut Vec<u8>) -> (ok: bool)
    requires
        2 <= n <= 4,
        i + n <= bytes@.len(),
    ensures
        ok == b64_group(bytes@.subrange(i as int, i + n)) is Some,
        ok ==> final(out)@ == old(out)@ + b64_group(bytes@.subrange(i as int, i + n))->0,
{
    let ghost g = bytes@.subrange(i as int, i + n);
    assert(g[0] == bytes@[i as int] && g[1] == bytes@[i + 1]);
    let a = match b64_digit(bytes[i]) {
        Some(a) => a,
        None => return false,
    };
    let b = match b64_digit(bytes[i + 1]) {
        Some(b) => b,
        None => return false,
    };
    out.push((a << 2) | (b >> 4));
    if n > 2 && bytes[i + 2] != 61 {
        assert(g[2] == bytes@[i + 2]);
        let c = match b64_digit(bytes[i + 2]) {
            Some(c) => c,
            None => return false,
        };
        out.push((b << 4) | (c >> 2));
        if n > 3 && bytes[i + 3] != 61 {
            assert(g[3] == bytes@[i + 3]);
            let d = match b64_digit(bytes[i + 3]) {
                Some(d) => d,
                None => return false,
            };
            out.push((c << 6) | d);
            assert(final(out)@ =~= old(out)@ + b64_group(g)->0);
        } else {
            assert(final(out)@ =~= old(out)@ + b64_group(g)->0);
        }
    } else {
        assert(final(out)@ =~= old(out)@ + b64_group(g)->0);
    }
    true
}

pub proof fn lemma_b64_bytes_step(bytes: Seq<u8>, i: int)
    requires
        0 <= i,
        i + 2 <= bytes.len(),
    ensures
        ({
            let n: int = if bytes.len() - i >= 4 { 4 } else { bytes.len() - i };
            &&& bytes.subrange(i, bytes.len() as int).subrange(0, n) == bytes.subrange(i, i + n)
            &&& bytes.subrange(i, bytes.len() as int).subrange(n, bytes.len() - i) == bytes.subrange(i + n, bytes.len() as int)
        }),
{
    let n: int = if bytes.len() - i >= 4 { 4 } else { bytes.len() - i };
    assert(bytes.subrange(i, bytes.len() as int).subrange(0, n) =~= bytes.subrange(i, i + n));
    assert(bytes.subrange(i, bytes.len() as int).subrange(n, bytes.len() - i) =~= bytes.subrange(i + n, bytes.len() as int));
}

/// Decodes base64 text: whitespace is ignored, the remaining characters are
/// read as UTF-8 bytes in groups of four, and the decoded bytes must be UTF-8.
/// Any byte that is read and is not a base64 digit makes it `Invalid base64`.
pub fn base64_decode(input: &str) -> (r: Result<String, VpnError>)
    ensures
        match b64_bytes(vstd::utf8::encode_utf8(without_ws(input@))) {
            None => r matches Err(VpnError::ParseError(m)) && m@ == "Invalid base64"@,
            Some(out) => if vstd::utf8::valid_utf8(out) {
                r matches Ok(s) && s@ == vstd::utf8::decode_utf8(out)
            } else {
                r matches Err(VpnError::ParseError(m)) && m@ == utf8_error_text(out)
            },
        },
{
    let chars = chars_of(input);
    let mut clean = String::new();
    let mut k: usize = 0;
    while k < chars.len()
        invariant
            chars@ == input@,
            k <= chars@.len(),
            clean@ == without_ws(chars@.take(k as int)),
        decreases chars@.len() - k,
    {
        proof {
            assert(chars@.take(k + 1).drop_last() =~= chars@.take(k as int));
            assert(chars@.take(k + 1).last() == chars@[k as int]);
        }
        if !is_whitespace(chars[k]) {
            clean.push(chars[k]);
        }
        k = k + 1;
    }
    proof {
        assert(chars@.take(chars@.len() as int) =~= chars@);
    }
    let bytes = clean.as_str().as_bytes();
    let ghost all = bytes@;
    let mut out: Vec<u8> = Vec::new();
    let mut i: usize = 0;
    proof {
        assert(all.subrange(0, all.len() as int) =~= all);
    }
    while bytes.len() - i >= 2
        invariant
            all == bytes@,
            all == vstd::utf8::encode_utf8(without_ws(input@)),
            i <= all.len(),
            b64_bytes(all) matches Some(total) ==> (b64_bytes(all.subrange(i as int, all.len() as int)) matches Some(rest)
                && total == out@ + rest),
            b64_bytes(all) is None <==> b64_bytes(all.subrange(i as int, all.len() as int)) is None,
        decreases all.len() - i,
    {
        let n: usize = if bytes.len() - i >= 4 { 4 } else { bytes.len() - i };
        proof {
            lemma_b64_bytes_step(all, i as int);
        }
        let ghost before = out@;
        if !decode_group(bytes, i, n, &mut out) {
            return Err(VpnError::ParseError(owned("Invalid base64")));
        }
        proof {
            let g = b64_group(all.subrange(i as int, i + n))->0;
            assert(out@ == before + g);
            if let Some(total) = b64_bytes(all) {
                let rest = b64_bytes(all.subrange(i as int, all.len() as int))->0;
                let rest2 = b64_bytes(all.subrange(i + n, all.len() as int))->0;
                assert(rest == g + rest2);
                assert(total =~= out@ + rest2);
            }
        }
        i = i + n;
    }
    proof {
        assert(b64_bytes(all.subrange(i as int, all.len() as int)) == Some(Seq::<u8>::empty()));
        if let Some(total) = b64_bytes(all) {
            assert(total =~= out@);
        }
    }
    match string_from_utf8(out) {
        Ok(s) => Ok(s),
        Err(m) => Err(VpnError::ParseError(m)),
    }
}


/// The base64 digit (as an ASCII byte) for a six-bit value: `A`-`Z`, `a`-`z`,
/// `0`-`9`, `+`, `/`.
pub open spec fn b64_char(v: u8) -> u8 {
    if v < 26 {
        (v + 65) as u8
    } else if v < 52 {
        (v - 26 + 97) as u8
    } else if v < 62 {
        (v - 52 + 48) as u8
    } else if v == 62 {
        43u8
    } else {
        47u8
    }
}

/// The four base64 digits of the three bytes `x`, `y`, `z`.
pub open spec fn b64_quad(x: u8, y: u8, z: u8) -> Seq<u8> {
    seq![
        b64_char(x >> 2u8),
        b64_char(((x & 3u8) << 4u8) | (y >> 4u8)),
        b64_char(((y & 15u8) << 2u8) | (z >> 6u8)),
        b64_char(z & 63u8),
    ]
}

/// The standard base64 encoding of `data` (RFC 4648 alphabet), as ASCII bytes:
/// three bytes become four digits; a final one or two bytes become two or three
/// digits, followed by `=` up to four when `padded`.
pub open spec fn b64_encode(data: Seq<u8>, padded: bool) -> Seq<u8>
    decreases data.len(),
{
    if data.len() >= 3 {
        b64_quad(data[0], data[1], data[2]) + b64_encode(data.subrange(3, data.len() as int), padded)
    } else if data.len() == 2 {
        let q = b64_quad(data[0], data[1], 0u8).take(3);
        if padded {
            q.push(61u8)
        } else {
            q
        }
    } else if data.len() == 1 {
        let q = b64_quad(data[0], 0u8, 0u8).take(2);
        if padded {
            q + seq![61u8, 61u8]
        } else {
            q
        }
    } else {
        seq![]
    }
}

proof fn lemma_b64_char(v: u8)
    requires
        v < 64,
    ensures
        b64_value(b64_char(v)) == Some(v),
        b64_char(v) != 61,
{
}

proof fn lemma_sextets(x: u8, y: u8, z: u8)
    by (bit_vector)
    ensures
        x >> 2u8 < 64,
        ((x & 3u8) << 4u8) | (y >> 4u8) < 64,
        ((y & 15u8) << 2u8) | (z >> 6u8) < 64,
        z & 63u8 < 64,
        ((x >> 2u8) << 2u8) | ((((x & 3u8) << 4u8) | (y >> 4u8)) >> 4u8) == x,
        ((((x & 3u8) << 4u8) | (y >> 4u8)) << 4u8) | ((((y & 15u8) << 2u8) | (z >> 6u8)) >> 2u8) == y,
        ((((y & 15u8) << 2u8) | (z >> 6u8)) << 6u8) | (z & 63u8) == z,
{
}

/// The digits of three bytes decode to those bytes; their first three or two
/// digits, ended by `=` or by the end of the group, to the first two or one.
proof fn lemma_b64_quad(x: u8, y: u8, z: u8)
    ensures
        b64_group(b64_quad(x, y, z)) == Some(seq![x, y, z]),
        b64_group(b64_quad(x, y, 0u8).take(3)) == Some(seq![x, y]),
        b64_group(b64_quad(x, y, 0u8).take(3).push(61u8)) == Some(seq![x, y]),
        b64_group(b64_quad(x, 0u8, 0u8).take(2)) == Some(seq![x]),
        b64_group(b64_quad(x, 0u8, 0u8).take(2) + seq![61u8, 61u8]) == Some(seq![x]),
{
    lemma_sextets(x, y, z);
    lemma_sextets(x, y, 0u8);
    lemma_sextets(x, 0u8, 0u8);
    lemma_b64_char(x >> 2u8);
    lemma_b64_char(((x & 3u8) << 4u8) | (y >> 4u8));
    lemma_b64_char(((y & 15u8) << 2u8) | (z >> 6u8));
    lemma_b64_char(z & 63u8);
    lemma_b64_char(((y & 15u8) << 2u8) | (0u8 >> 6u8));
    lemma_b64_char(((x & 3u8) << 4u8) | (0u8 >> 4u8));
    assert(b64_group(b64_quad(x, y, z)).unwrap() =~= seq![x, y, z]);
    assert(b64_group(b64_quad(x, y, 0u8).take(3)).unwrap() =~= seq![x, y]);
    assert(b64_group(b64_quad(x, y, 0u8).take(3).push(61u8)).unwrap() =~= seq![x, y]);
    assert(b64_group(b64_quad(x, 0u8, 0u8).take(2)).unwrap() =~= seq![x]);
    assert(b64_group(b64_quad(x, 0u8, 0u8).take(2) + seq![61u8, 61u8]).unwrap() =~= seq![x]);
}

/// Reading base64 digits undoes the encoding.
pub proof fn lemma_b64_bytes_encode(data: Seq<u8>, padded: bool)
    ensures
        b64_bytes(b64_encode(data, padded)) == Some(data),
    decreases data.len(),
{
    let enc = b64_encode(data, padded);
    if data.len() >= 3 {
        let rest = data.subrange(3, data.len() as int);
        let q = b64_quad(data[0], data[1], data[2]);
        lemma_b64_quad(data[0], data[1], data[2]);
        lemma_b64_bytes_encode(rest, padded);
        assert(enc.subrange(0, 4) =~= q);
        assert(enc.subrange(4, enc.len() as int) =~= b64_encode(rest, padded));
        assert(seq![data[0], data[1], data[2]] + rest =~= data);
        assert(enc.len() >= 4);
        assert(b64_bytes(enc) == Some(seq![data[0], data[1], data[2]] + rest));
    } else if data.len() == 2 {
        lemma_b64_quad(data[0], data[1], 0u8);
        assert(enc.subrange(0, enc.len() as int) =~= enc);
        assert(enc.subrange(enc.len() as int, enc.len() as int) =~= Seq::<u8>::empty());
        assert(b64_bytes(Seq::<u8>::empty()) == Some(Seq::<u8>::empty()));
        assert(seq![data[0], data[1]] + Seq::<u8>::empty() =~= data);
    } else if data.len() == 1 {
        lemma_b64_quad(data[0], 0u8, 0u8);
        assert(enc.subrange(0, enc.len() as int) =~= enc);
        assert(enc.subrange(enc.len() as int, enc.len() as int) =~= Seq::<u8>::empty());
        assert(b64_bytes(Seq::<u8>::empty()) == Some(Seq::<u8>::empty()));
        assert(seq![data[0]] + Seq::<u8>::empty() =~= data);
    } else {
        assert(data =~= Seq::<u8>::empty());
    }
}

/// Decoding undoes standard base64: when the UTF-8 bytes of `encoded`, its
/// whitespace removed wherever it stands, are the base64 encoding of the UTF-8
/// bytes of `text`, with or without `=` padding, then the bytes `base64_decode`
/// reads are exactly those of `text`, they are valid UTF-8, and they decode to
/// `text`: `base64_decode` returns `Ok` with `text`.
pub proof fn law_base64_round_trip(text: Seq<char>, encoded: Seq<char>, padded: bool)
    requires
        vstd::utf8::encode_utf8(without_ws(encoded)) == b64_encode(vstd::utf8::encode_utf8(text), padded),
    ensures
        b64_bytes(vstd::utf8::encode_utf8(without_ws(encoded))) == Some(vstd::utf8::encode_utf8(text)),
        vstd::utf8::valid_utf8(vstd::utf8::encode_utf8(text)),
        vstd::utf8::decode_utf8(vstd::utf8::encode_utf8(text)) == text,
{
    lemma_b64_bytes_encode(vstd::utf8::encode_utf8(text), padded);
    vstd::utf8::encode_utf8_valid_utf8(text);
    vstd::utf8::encode_utf8_decode_utf8(text);
}

/// The service's auth key as its file holds it: the content, trimmed.
pub fn auth_key_of(content: &str) -> (key: String)
    ensures
        key@ == trim(content@),
{
    let chars = chars_of(content);
    let (a, b) = trim_bounds(&chars, 0, chars.len());
    proof {
        assert(chars@.subrange(0, chars@.len() as int) =~= chars@);
    }
    string_of(&chars, a, b)
}

/// Where the Pritunl service listens.
pub const SOCKET_PATH: &'static str = "/var/run/pritunl.sock";

/// The file that holds the key the service expects in `Auth-Key`.
pub const AUTH_PATH: &'static str = "/var/run/pritunl.auth";

/// The client CLI bundled with the Pritunl app.
pub const APP_CLI: &'static str = "/Applications/Pritunl.app/Contents/Resources/pritunl-client";

/// A profile of the Pritunl client.
#[derive(Debug, Clone)]
pub struct PritunlProfile {
    pub id: String,
    pub name: String,
    pub server: String,
    pub organization: String,
    pub user: String,
    pub password_mode: Option<String>,
}

/// A text, or the empty text.
pub open spec fn text_or_empty(o: Option<Seq<char>>) -> Seq<char> {
    match o {
        Some(s) => s,
        None => Seq::empty(),
    }
}

/// `p` is the profile with file stem `id` that the `.conf` document `v` describes:
/// its server, organization, user and password mode, named after its server,
/// or after its id when the server is empty.
pub open spec fn profile_of(id: Seq<char>, v: JsonValue, p: PritunlProfile) -> bool {
    &&& p.id@ == id
    &&& p.server@ == text_or_empty(v.at("server"@).str_of())
    &&& p.organization@ == text_or_empty(v.at("organization"@).str_of())
    &&& p.user@ == text_or_empty(v.at("user"@).str_of())
    &&& opt_text(p.password_mode) == v.at("password_mode"@).str_of()
    &&& p.name@ == (if p.server@.len() > 0 { p.server@ } else { id })
}

fn text_member(v: &JsonValue, key: &str) -> (s: String)
    ensures
        s@ == text_or_empty(v.at(key@).str_of()),
{
    match v.get_str(key) {
        Some(t) => t.clone(),
        None => String::new(),
    }
}

impl PritunlProfile {
    /// The profile with file stem `id` that the `.conf` document `v` describes.
    pub fn from_json(id: String, v: &JsonValue) -> (p: Self)
        ensures
            profile_of(id@, *v, p),
    {
        let server = text_member(v, "server");
        let organization = text_member(v, "organization");
        let user = text_member(v, "user");
        let password_mode = match v.get_str("password_mode") {
            Some(m) => Some(m.clone()),
            None => None,
        };
        let name = if !server.as_str().is_empty() {
            server.clone()
        } else {
            id.clone()
        };
        PritunlProfile { id, name, server, organization, user, password_mode }
    }

    /// The profile in a `.conf` file with stem `id`, or `None` when the file is
    /// not JSON.
    pub fn from_conf(id: String, content: &str) -> (r: Option<Self>)
        ensures
            match json_parse(content@) {
                Ok(v) => r matches Some(p) && profile_of(id@, v, p),
                Err(_) => r is None,
            },
    {
        match parse_json(content) {
            Ok(v) => Some(Self::from_json(id, &v)),
            Err(_) => None,
        }
    }
}

/// The lexicographic order of texts by character code, which is the byte order
/// of their UTF-8 encodings (the order of `String`).
pub open spec fn text_le(a: Seq<char>, b: Seq<char>) -> bool
    decreases a.len(),
{
    if a.len() == 0 {
        true
    } else if b.len() == 0 {
        false
    } else if a[0] != b[0] {
        (a[0] as int) < (b[0] as int)
    } else {
        text_le(a.drop_first(), b.drop_first())
    }
}

/// The order of names is the lexicographic order of `String`: `a` comes no
/// later than `b` exactly when `a` is a prefix of `b`, or at the first position
/// where they differ the character of `a` is the smaller.
pub proof fn law_text_le_lexicographic(a: Seq<char>, b: Seq<char>)
    ensures
        text_le(a, b) <==> ((a.len() <= b.len() && a == b.take(a.len() as int)) || exists|k: int|
            0 <= k < a.len() && k < b.len() && a.take(k) == b.take(k) && (a[k] as int) < (b[k] as int)),
    decreases a.len(),
{
    if a.len() == 0 {
        assert(a =~= b.take(0));
    } else if b.len() == 0 {
    } else if a[0] != b[0] {
        if (a[0] as int) < (b[0] as int) {
            assert(a.take(0) =~= b.take(0));
        }
        if a.len() <= b.len() && a == b.take(a.len() as int) {
            assert(a[0] == b.take(a.len() as int)[0]);
        }
        if exists|k: int| 0 <= k < a.len() && k < b.len() && a.take(k) == b.take(k) && (a[k] as int) < (b[k] as int) {
            let k = choose|k: int| 0 <= k < a.len() && k < b.len() && a.take(k) == b.take(k) && (a[k] as int) < (b[k] as int);
            if k > 0 {
                assert(a.take(k)[0] == b.take(k)[0]);
            }
        }
    } else {
        let a1 = a.drop_first();
        let b1 = b.drop_first();
        law_text_le_lexicographic(a1, b1);
        if a1.len() <= b1.len() && a1 == b1.take(a1.len() as int) {
            let tb = b.take(a.len() as int);
            assert forall|j: int| 0 <= j < a.len() implies #[trigger] a[j] == tb[j] by {
                if j > 0 {
                    assert(a[j] == a1[j - 1]);
                    assert(b1.take(a1.len() as int)[j - 1] == b1[j - 1]);
                }
            }
            assert(a =~= tb);
        }
        if a.len() <= b.len() && a == b.take(a.len() as int) {
            assert(a1 =~= b1.take(a1.len() as int));
        }
        if exists|k: int| 0 <= k < a1.len() && k < b1.len() && a1.take(k) == b1.take(k) && (a1[k] as int) < (b1[k] as int) {
            let k = choose|k: int| 0 <= k < a1.len() && k < b1.len() && a1.take(k) == b1.take(k) && (a1[k] as int) < (b1[k] as int);
            let m = k + 1;
            let ta = a.take(m);
            let tb = b.take(m);
            assert(ta =~= tb) by {
                assert forall|j: int| 0 <= j < m implies #[trigger] ta[j] == tb[j] by {
                    if j > 0 {
                        assert(a1.take(k)[j - 1] == b1.take(k)[j - 1]);
                    }
                }
            }
            assert(a[m] == a1[k] && b[m] == b1[k]);
        }
        if exists|k: int| 0 <= k < a.len() && k < b.len() && a.take(k) == b.take(k) && (a[k] as int) < (b[k] as int) {
            let k = choose|k: int| 0 <= k < a.len() && k < b.len() && a.take(k) == b.take(k) && (a[k] as int) < (b[k] as int);
            assert(k > 0);
            let m = k - 1;
            let ta = a1.take(m);
            let tb = b1.take(m);
            assert(ta =~= tb) by {
                assert forall|j: int| 0 <= j < m implies #[trigger] ta[j] == tb[j] by {
                    assert(a.take(k)[j + 1] == b.take(k)[j + 1]);
                }
            }
            assert(a1[k - 1] == a[k] && b1[k - 1] == b[k]);
        }
    }
}

/// A common prefix does not decide the order: the rest of the names does.
pub proof fn law_text_le_common_prefix(p: Seq<char>, a: Seq<char>, b: Seq<char>)
    ensures
        text_le(p + a, p + b) == text_le(a, b),
    decreases p.len(),
{
    if p.len() > 0 {
        assert((p + a)[0] == p[0] && (p + b)[0] == p[0]);
        assert((p + a).drop_first() =~= p.drop_first() + a);
        assert((p + b).drop_first() =~= p.drop_first() + b);
        law_text_le_common_prefix(p.drop_first(), a, b);
    } else {
        assert(p + a =~= a);
        assert(p + b =~= b);
    }
}

pub proof fn lemma_text_le_total(a: Seq<char>, b: Seq<char>)
    ensures
        text_le(a, b) || text_le(b, a),
    decreases a.len(),
{
    if a.len() > 0 && b.len() > 0 {
        if a[0] == b[0] {
            lemma_text_le_total(a.drop_first(), b.drop_first());
        } else {
            assert((a[0] as int) != (b[0] as int));
        }
    }
}

pub proof fn lemma_text_le_trans(a: Seq<char>, b: Seq<char>, c: Seq<char>)
    requires
        text_le(a, b),
        text_le(b, c),
    ensures
        text_le(a, c),
    decreases a.len(),
{
    if a.len() > 0 && b.len() > 0 && c.len() > 0 && a[0] == b[0] && b[0] == c[0] {
        lemma_text_le_trans(a.drop_first(), b.drop_first(), c.drop_first());
    }
}

/// Whether `a` comes before or with `b` in the order of strings.
pub fn str_le(a: &str, b: &str) -> (r: bool)
    ensures
        r == text_le(a@, b@),
{
    let x = chars_of(a);
    let y = chars_of(b);
    let mut i: usize = 0;
    proof {
        assert(x@.subrange(0, x@.len() as int) =~= x@);
        assert(y@.subrange(0, y@.len() as int) =~= y@);
    }
    while i < x.len() && i < y.len() && x[i] == y[i]
        invariant
            i <= x@.len(),
            i <= y@.len(),
            text_le(x@, y@) == text_le(x@.subrange(i as int, x@.len() as int), y@.subrange(i as int, y@.len() as int)),
        decreases x@.len() - i,
    {
        proof {
            assert(x@.subrange(i as int, x@.len() as int).drop_first() =~= x@.subrange(i + 1, x@.len() as int));
            assert(y@.subrange(i as int, y@.len() as int).drop_first() =~= y@.subrange(i + 1, y@.len() as int));
        }
        i = i + 1;
    }
    if i == x.len() {
        true
    } else if i == y.len() {
        false
    } else {
        x[i] < y[i]
    }
}

/// `s` with `x` placed after every profile whose name comes before or with its
/// own, and before the rest: one step of a stable sort by name.
pub open spec fn insert_by_name(s: Seq<PritunlProfile>, x: PritunlProfile) -> Seq<PritunlProfile>
    decreases s.len(),
{
    if s.len() == 0 {
        seq![x]
    } else if text_le(s.last().name@, x.name@) {
        s.push(x)
    } else {
        insert_by_name(s.drop_last(), x).push(s.last())
    }
}

/// The profiles sorted by name, profiles with equal names kept in their order
/// (what the stable `sort_by` on names gives).
pub open spec fn sort_by_name(s: Seq<PritunlProfile>) -> Seq<PritunlProfile>
    decreases s.len(),
{
    if s.len() == 0 {
        seq![]
    } else {
        insert_by_name(sort_by_name(s.drop_last()), s.last())
    }
}

/// Profiles in order of name.
pub open spec fn sorted_by_name(s: Seq<PritunlProfile>) -> bool {
    forall|i: int, j: int| 0 <= i < j < s.len() ==> text_le((#[trigger] s[i]).name@, (#[trigger] s[j]).name@)
}

pub proof fn lemma_insert_by_name(s: Seq<PritunlProfile>, x: PritunlProfile)
    requires
        sorted_by_name(s),
    ensures
        sorted_by_name(insert_by_name(s, x)),
        insert_by_name(s, x).to_multiset() == s.to_multiset().insert(x),
        insert_by_name(s, x).len() == s.len() + 1,
        forall|i: int| 0 <= i < insert_by_name(s, x).len() ==> (#[trigger] insert_by_name(s, x)[i] == x
            || s.contains(insert_by_name(s, x)[i])),
    decreases s.len(),
{
    broadcast use vstd::seq_lib::group_to_multiset_ensures;
    let r = insert_by_name(s, x);
    if s.len() == 0 {
        assert(r =~= seq![x]);
        assert(seq![x].to_multiset() =~= vstd::multiset::Multiset::<PritunlProfile>::empty().insert(x)) by {
            assert(seq![x] =~= Seq::<PritunlProfile>::empty().push(x));
        }
    } else if text_le(s.last().name@, x.name@) {
        assert forall|i: int, j: int| 0 <= i < j < r.len() implies text_le((#[trigger] r[i]).name@, (#[trigger] r[j]).name@) by {
            if j == s.len() {
                if i < s.len() - 1 {
                    lemma_text_le_trans(s[i].name@, s.last().name@, x.name@);
                }
            }
        }
        assert forall|i: int| 0 <= i < r.len() implies (#[trigger] r[i] == x || s.contains(r[i])) by {
            if i < s.len() {
                assert(r[i] == s[i]);
            }
        }
    } else {
        let init = s.drop_last();
        assert(sorted_by_name(init)) by {
            assert forall|i: int, j: int| 0 <= i < j < init.len() implies text_le((#[trigger] init[i]).name@, (#[trigger] init[j]).name@) by {
                assert(init[i] == s[i] && init[j] == s[j]);
            }
        }
        lemma_insert_by_name(init, x);
        let t = insert_by_name(init, x);
        lemma_text_le_total(s.last().name@, x.name@);
        assert forall|i: int| 0 <= i < t.len() implies text_le((#[trigger] t[i]).name@, s.last().name@) by {
            if t[i] == x {
            } else {
                assert(init.contains(t[i]));
                let k = choose|k: int| 0 <= k < init.len() && init[k] == t[i];
                assert(s[k] == init[k]);
                assert(s[s.len() - 1] == s.last());
            }
        }
        assert forall|i: int, j: int| 0 <= i < j < r.len() implies text_le((#[trigger] r[i]).name@, (#[trigger] r[j]).name@) by {
            if j == r.len() - 1 {
                assert(r[i] == t[i]);
            } else {
                assert(r[i] == t[i] && r[j] == t[j]);
            }
        }
        assert forall|i: int| 0 <= i < r.len() implies (#[trigger] r[i] == x || s.contains(r[i])) by {
            if i == r.len() - 1 {
                assert(s[s.len() - 1] == r[i]);
            } else {
                assert(r[i] == t[i]);
                if t[i] != x {
                    let k = choose|k: int| 0 <= k < init.len() && init[k] == t[i];
                    assert(s[k] == init[k]);
                }
            }
        }
        assert(s =~= init.push(s.last()));
    }
}

/// Sorting by name yields the same profiles, in order of name.
pub proof fn lemma_sort_by_name(s: Seq<PritunlProfile>)
    ensures
        sorted_by_name(sort_by_name(s)),
        sort_by_name(s).to_multiset() == s.to_multiset(),
        sort_by_name(s).len() == s.len(),
    decreases s.len(),
{
    broadcast use vstd::seq_lib::group_to_multiset_ensures;
    if s.len() > 0 {
        lemma_sort_by_name(s.drop_last());
        lemma_insert_by_name(sort_by_name(s.drop_last()), s.last());
        assert(s =~= s.drop_last().push(s.last()));
    }
}

/// Places `x` into `r` as `insert_by_name` does.
fn insert_sorted(r: &mut Vec<PritunlProfile>, x: PritunlProfile)
    ensures
        final(r)@ == insert_by_name(old(r)@, x),
{
    let ghost s = r@;
    let mut p = r.len();
    proof {
        assert(s.subrange(0, s.len() as int) =~= s);
        assert(s.subrange(s.len() as int, s.len() as int) =~= Seq::<PritunlProfile>::empty());
        assert(insert_by_name(s, x) =~= insert_by_name(s.subrange(0, s.len() as int), x) + s.subrange(s.len() as int, s.len() as int));
    }
    while p > 0 && !str_le(r[p - 1].name.as_str(), x.name.as_str())
        invariant
            r@ == s,
            p <= s.len(),
            insert_by_name(s, x) == insert_by_name(s.subrange(0, p as int), x) + s.subrange(p as int, s.len() as int),
        decreases p,
    {
        proof {
            let pre = s.subrange(0, p as int);
            assert(pre.drop_last() =~= s.subrange(0, p - 1));
            assert(pre.last() == s[p - 1]);
            assert(insert_by_name(pre, x) == insert_by_name(s.subrange(0, p - 1), x).push(s[p - 1]));
            assert(insert_by_name(s.subrange(0, p - 1), x).push(s[p - 1]) + s.subrange(p as int, s.len() as int)
                =~= insert_by_name(s.subrange(0, p - 1), x) + s.subrange(p - 1, s.len() as int));
        }
        p = p - 1;
    }
    proof {
        let pre = s.subrange(0, p as int);
        if p == 0 {
            assert(pre =~= Seq::<PritunlProfile>::empty());
            assert(insert_by_name(pre, x) =~= seq![x]);
        } else {
            assert(pre.last() == s[p - 1]);
            assert(insert_by_name(pre, x) == pre.push(x));
        }
        assert(s.insert(p as int, x) =~= insert_by_name(pre, x) + s.subrange(p as int, s.len() as int));
    }
    r.insert(p, x);
}

/// Sorts profiles by name, keeping profiles with equal names in their order.
pub fn sort_profiles(profiles: Vec<PritunlProfile>) -> (r: Vec<PritunlProfile>)
    ensures
        r@ == sort_by_name(profiles@),
        sorted_by_name(r@),
        r@.to_multiset() == profiles@.to_multiset(),
{
    let ghost all = profiles@;
    let n = profiles.len();
    let mut rest = profiles;
    let mut reversed: Vec<PritunlProfile> = Vec::new();
    proof {
        assert(all =~= rest@ + reversed@.reverse());
    }
    while rest.len() > 0
        invariant
            all == rest@ + reversed@.reverse(),
        decreases rest@.len(),
    {
        let ghost before = rest@;
        let ghost rev_before = reversed@;
        let x = rest.pop().unwrap();
        reversed.push(x);
        proof {
            assert(before =~= rest@.push(x));
            assert(reversed@.reverse() =~= seq![x] + rev_before.reverse());
            assert(all =~= rest@ + reversed@.reverse());
        }
    }
    let mut r: Vec<PritunlProfile> = Vec::new();
    let mut done: usize = 0;
    proof {
        assert(all =~= reversed@.reverse());
        assert(all.subrange(0, 0) =~= Seq::<PritunlProfile>::empty());
        assert(all.subrange(0, all.len() as int) =~= all);
    }
    while reversed.len() > 0
        invariant
            reversed@.reverse() == all.subrange(done as int, all.len() as int),
            done + reversed@.len() == all.len(),
            all.len() == n,
            r@ == sort_by_name(all.subrange(0, done as int)),
        decreases reversed@.len(),
    {
        let ghost rev_before = reversed@;
        let x = reversed.pop().unwrap();
        proof {
            assert(rev_before.reverse()[0] == x);
            assert(all[done as int] == x) by {
                assert(all.subrange(done as int, all.len() as int)[0] == all[done as int]);
            }
            assert(reversed@.reverse() =~= rev_before.reverse().drop_first());
            assert(all.subrange(done + 1, all.len() as int) =~= all.subrange(done as int, all.len() as int).drop_first());
            assert(all.subrange(0, done + 1).drop_last() =~= all.subrange(0, done as int));
            assert(all.subrange(0, done + 1).last() == x);
        }
        insert_sorted(&mut r, x);
        done = done + 1;
    }
    proof {
        assert(all.subrange(0, done as int) =~= all);
        lemma_sort_by_name(all);
    }
    r
}

/// The Pritunl client, with the profile it connects.
#[derive(Debug, Clone)]
pub struct PritunlProvider {
    pub profile_id: String,
}

/// The first profile with id `id`.
pub open spec fn profile_with_id(profiles: Seq<PritunlProfile>, id: Seq<char>) -> Option<PritunlProfile>
    decreases profiles.len(),
{
    if profiles.len() == 0 {
        None
    } else if profiles[0].id@ == id {
        Some(profiles[0])
    } else {
        profile_with_id(profiles.drop_first(), id)
    }
}

/// The extra fields of a Pritunl status before the service is asked: the
/// selected profile, and for a known profile its server name, its user (when
/// not empty) and its password mode. Nothing when no profile is selected.
pub open spec fn pritunl_extra(id: Seq<char>, profiles: Seq<PritunlProfile>) -> Map<Seq<char>, Seq<char>> {
    if id.len() == 0 {
        Map::empty()
    } else {
        let m = Map::<Seq<char>, Seq<char>>::empty().insert("profile"@, id);
        match profile_with_id(profiles, id) {
            Some(p) => {
                let m1 = m.insert("server"@, p.name@);
                let m2 = if p.user@.len() > 0 {
                    m1.insert("user"@, p.user@)
                } else {
                    m1
                };
                match p.password_mode {
                    Some(mode) => m2.insert("password_mode"@, mode@),
                    None => m2,
                }
            },
            None => m,
        }
    }
}

/// The first connection in the service's answer that counts for profile `id`
/// (every one counts when `id` is empty) and whose status is `connected`.
pub open spec fn first_connected(entries: Seq<(String, JsonValue)>, id: Seq<char>) -> Option<JsonValue>
    decreases entries.len(),
{
    if entries.len() == 0 {
        None
    } else if (entries[0].0@ == id || id.len() == 0) && entries[0].1.at("status"@).str_of() == Some("connected"@) {
        Some(entries[0].1)
    } else {
        first_connected(entries.drop_first(), id)
    }
}

/// The connection of profile `id` in the service's answer `v`, if it is up.
pub open spec fn active_connection(v: JsonValue, id: Seq<char>) -> Option<JsonValue> {
    match v.members_of() {
        Some(entries) => first_connected(entries, id),
        None => None,
    }
}

/// A text that is present and not empty.
pub open spec fn nonempty_text(o: Option<Seq<char>>) -> Option<Seq<char>> {
    match o {
        Some(t) => if t.len() > 0 {
            Some(t)
        } else {
            None
        },
        None => None,
    }
}

/// The status a Pritunl answer `v` gives for profile `id`, starting from the
/// extra fields `extra`: connected when a connection is up, with its client
/// address and server address when they are not empty.
pub open spec fn pritunl_status_of(v: JsonValue, id: Seq<char>, extra: Map<Seq<char>, Seq<char>>, st: VpnStatus) -> bool {
    &&& st.provider@ == "Pritunl"@
    &&& st.since is None
    &&& st.latency_ms is None
    &&& match active_connection(v, id) {
        Some(c) => {
            &&& st.connected
            &&& opt_text(st.ip) == nonempty_text(c.at("client_address"@).str_of())
            &&& text_map(st.extra@) == match nonempty_text(c.at("server_address"@).str_of()) {
                Some(a) => extra.insert("server_address"@, a),
                None => extra,
            }
        },
        None => !st.connected && st.ip is None && text_map(st.extra@) == extra,
    }
}

/// A disconnected Pritunl status with the given extra fields.
pub open spec fn pritunl_down(extra: Map<Seq<char>, Seq<char>>, st: VpnStatus) -> bool {
    &&& st.provider@ == "Pritunl"@
    &&& !st.connected
    &&& st.ip is None
    &&& st.since is None
    &&& st.latency_ms is None
    &&& text_map(st.extra@) == extra
}

/// A copy of a text member when it is present and not empty.
fn nonempty_member(v: &JsonValue, key: &str) -> (r: Option<String>)
    ensures
        opt_text(r) == nonempty_text(v.at(key@).str_of()),
{
    match v.get_str(key) {
        Some(t) => if !t.as_str().is_empty() {
            Some(t.clone())
        } else {
            None
        },
        None => None,
    }
}

/// The text of a `Pritunl <action> failed (<status>): <body>` error.
pub open spec fn failure_text(action: Seq<char>, status: u16, body: Seq<char>) -> Seq<char> {
    "Pritunl "@ + action + " failed ("@ + decimal(status as nat) + "): "@ + body
}

/// How the service's answer to a connect or disconnect request settles it:
/// status 200 is success, any other status an error that quotes the answer.
pub fn service_outcome(action: &str, status: u16, body: &str) -> (r: Result<(), VpnError>)
    ensures
        status == 200 ==> r is Ok,
        status != 200 ==> (r matches Err(VpnError::CliError(m)) && m@ == failure_text(action@, status, body@)),
{
    if status != 200 {
        let mut m = owned("Pritunl ");
        append_str(&mut m, action);
        append_str(&mut m, " failed (");
        push_decimal(&mut m, status as u64);
        append_str(&mut m, "): ");
        append_str(&mut m, body);
        proof {
            assert(m@ =~= failure_text(action@, status, body@));
        }
        return Err(VpnError::CliError(m));
    }
    Ok(())
}

/// The password a connect request carries: the one in a Pritunl configuration.
pub fn connect_password(opts: &ConnectOptions) -> (r: Option<String>)
    ensures
        match opts.provider_config {
            Some(ProviderConfig::Pritunl { password, .. }) => r == password,
            _ => r is None,
        },
{
    match &opts.provider_config {
        Some(ProviderConfig::Pritunl { password, .. }) => match password {
            Some(p) => Some(p.clone()),
            None => None,
        },
        _ => None,
    }
}

/// Index of the connection `first_connected` picks.
fn find_connected(entries: &Vec<(String, JsonValue)>, id: &str) -> (r: Option<usize>)
    ensures
        match r {
            Some(i) => i < entries@.len() && first_connected(entries@, id@) == Some(entries@[i as int].1),
            None => first_connected(entries@, id@) is None,
        },
{
    let any = id.is_empty();
    let mut i: usize = 0;
    proof {
        assert(entries@.subrange(0, entries@.len() as int) =~= entries@);
    }
    while i < entries.len()
        invariant
            i <= entries@.len(),
            any == (id@.len() == 0),
            first_connected(entries@, id@) == first_connected(entries@.subrange(i as int, entries@.len() as int), id@),
        decreases entries@.len() - i,
    {
        proof {
            let rest = entries@.subrange(i as int, entries@.len() as int);
            assert(rest[0] == entries@[i as int]);
            assert(rest.drop_first() =~= entries@.subrange(i + 1, entries@.len() as int));
        }
        let up = match entries[i].1.get_str("status") {
            Some(s) => str_eq(s.as_str(), "connected"),
            None => false,
        };
        if (any || str_eq(entries[i].0.as_str(), id)) && up {
            return Some(i);
        }
        i = i + 1;
    }
    proof {
        assert(entries@.subrange(i as int, entries@.len() as int) =~= Seq::<(String, JsonValue)>::empty());
    }
    None
}

impl PritunlProvider {
    /// The provider with no profile selected.
    pub fn new() -> (p: Self)
        ensures
            p.profile_id@.len() == 0,
    {
        PritunlProvider { profile_id: String::new() }
    }

    /// The provider that connects `profile_id`.
    pub fn with_profile(profile_id: &str) -> (p: Self)
        ensures
            p.profile_id@ == profile_id@,
    {
        PritunlProvider { profile_id: owned(profile_id) }
    }

    /// The provider's name.
    pub fn name(&self) -> (s: &'static str)
        ensures
            s@ == "Pritunl"@,
    {
        "Pritunl"
    }

    /// The settings reported: the selected profile, no password.
    pub fn get_config(&self) -> (c: ProviderConfig)
        ensures
            c matches ProviderConfig::Pritunl { profile_id, password } && profile_id == self.profile_id && password is None,
    {
        ProviderConfig::Pritunl { profile_id: self.profile_id.clone(), password: None }
    }

    /// Whether a profile is selected.
    pub fn has_profile(&self) -> (b: bool)
        ensures
            b == (self.profile_id@.len() > 0),
    {
        !self.profile_id.as_str().is_empty()
    }

    /// A connect request needs a selected profile.
    pub fn check_profile(&self) -> (r: Result<(), VpnError>)
        ensures
            self.profile_id@.len() > 0 ==> r is Ok,
            self.profile_id@.len() == 0 ==> (r matches Err(VpnError::CliError(m)) && m@ == "No Pritunl profile selected"@),
    {
        if self.profile_id.as_str().is_empty() {
            return Err(VpnError::CliError(owned("No Pritunl profile selected")));
        }
        Ok(())
    }

    /// The extra fields of the status, from the known profiles: see
    /// `pritunl_extra`.
    pub fn status_extra(&self, profiles: &Vec<PritunlProfile>) -> (m: StrMap<String>)
        ensures
            text_map(m@) == pritunl_extra(self.profile_id@, profiles@),
    {
        let mut extra: StrMap<String> = StrMap::new();
        proof {
            crate::provider::lemma_text_map_empty();
        }
        if self.profile_id.as_str().is_empty() {
            return extra;
        }
        let pid = self.profile_id.clone();
        proof {
            lemma_text_map_insert(extra@, "profile"@, pid);
        }
        extra.insert(owned("profile"), pid);
        let mut i: usize = 0;
        proof {
            assert(profiles@.subrange(0, profiles@.len() as int) =~= profiles@);
        }
        while i < profiles.len()
            invariant
                i <= profiles@.len(),
                self.profile_id@.len() > 0,
                text_map(extra@) == Map::<Seq<char>, Seq<char>>::empty().insert("profile"@, self.profile_id@),
                profile_with_id(profiles@, self.profile_id@) == profile_with_id(profiles@.subrange(i as int, profiles@.len() as int), self.profile_id@),
            decreases profiles@.len() - i,
        {
            proof {
                let rest = profiles@.subrange(i as int, profiles@.len() as int);
                assert(rest[0] == profiles@[i as int]);
                assert(rest.drop_first() =~= profiles@.subrange(i + 1, profiles@.len() as int));
            }
            if str_eq(profiles[i].id.as_str(), self.profile_id.as_str()) {
                let p = &profiles[i];
                let server = p.name.clone();
                proof {
                    lemma_text_map_insert(extra@, "server"@, server);
                }
                extra.insert(owned("server"), server);
                if !p.user.as_str().is_empty() {
                    let user = p.user.clone();
                    proof {
                        lemma_text_map_insert(extra@, "user"@, user);
                    }
                    extra.insert(owned("user"), user);
                }
                match &p.password_mode {
                    Some(mode) => {
                        let mode = mode.clone();
                        proof {
                            lemma_text_map_insert(extra@, "password_mode"@, mode);
                        }
                        extra.insert(owned("password_mode"), mode);
                    },
                    None => {},
                }
                return extra;
            }
            i = i + 1;
        }
        proof {
            assert(profiles@.subrange(i as int, profiles@.len() as int) =~= Seq::<PritunlProfile>::empty());
        }
        extra
    }

    /// The status the service's answer gives: disconnected when the service
    /// could not be asked or did not answer 200; otherwise read from the JSON
    /// answer (an answer that is not JSON reads as no connection).
    pub fn status_from_response(&self, extra: StrMap<String>, response: Option<(u16, String)>) -> (st: VpnStatus)
        ensures
            match response {
                Some((code, body)) => if code == 200 {
                    match json_parse(body@) {
                        Ok(v) => pritunl_status_of(v, self.profile_id@, text_map(extra@), st),
                        Err(_) => pritunl_down(text_map(extra@), st),
                    }
                } else {
                    pritunl_down(text_map(extra@), st)
                },
                None => pritunl_down(text_map(extra@), st),
            },
    {
        let down = match &response {
            Some((code, _)) => *code != 200,
            None => true,
        };
        if down {
            return VpnStatus { provider: owned("Pritunl"), connected: false, ip: None, since: None, latency_ms: None, extra };
        }
        let body = match response {
            Some((_, body)) => body,
            None => String::new(),
        };
        match parse_json(body.as_str()) {
            Ok(v) => self.status_from_answer(&v, extra),
            Err(_) => VpnStatus { provider: owned("Pritunl"), connected: false, ip: None, since: None, latency_ms: None, extra },
        }
    }

    /// The status a JSON answer of the service gives, as `pritunl_status_of`
    /// states it.
    pub fn status_from_answer(&self, v: &JsonValue, extra: StrMap<String>) -> (st: VpnStatus)
        ensures
            pritunl_status_of(*v, self.profile_id@, text_map(extra@), st),
    {
        let mut extra = extra;
        let ghost base = text_map(extra@);
        let entries = match v {
            JsonValue::Object(entries) => entries,
            _ => {
                return VpnStatus { provider: owned("Pritunl"), connected: false, ip: None, since: None, latency_ms: None, extra };
            },
        };
        match find_connected(entries, self.profile_id.as_str()) {
            Some(i) => {
                let data = &entries[i].1;
                let ip = nonempty_member(data, "client_address");
                match nonempty_member(data, "server_address") {
                    Some(a) => {
                        proof {
                            lemma_text_map_insert(extra@, "server_address"@, a);
                        }
                        extra.insert(owned("server_address"), a);
                    },
                    None => {},
                }
                VpnStatus { provider: owned("Pritunl"), connected: true, ip, since: None, latency_ms: None, extra }
            },
            None => VpnStatus { provider: owned("Pritunl"), connected: false, ip: None, since: None, latency_ms: None, extra },
        }
    }
}

/// The texts among `items`, in order.
pub open spec fn texts_of(items: Seq<JsonValue>) -> Seq<Seq<char>>
    decreases items.len(),
{
    if items.len() == 0 {
        seq![]
    } else {
        match items.last().str_of() {
            Some(t) => texts_of(items.drop_last()).push(t),
            None => texts_of(items.drop_last()),
        }
    }
}

/// The texts joined with `sep` between them (`[&str]::join`).
pub open spec fn join_with(ts: Seq<Seq<char>>, sep: Seq<char>) -> Seq<char>
    decreases ts.len(),
{
    if ts.len() == 0 {
        seq![]
    } else if ts.len() == 1 {
        ts[0]
    } else {
        join_with(ts.drop_last(), sep) + sep + ts.last()
    }
}

/// The text items of an array joined with newlines.
fn join_lines(items: &Vec<JsonValue>) -> (s: String)
    ensures
        s@ == join_with(texts_of(items@), "\n"@),
{
    let mut s = String::new();
    let mut count: usize = 0;
    let mut i: usize = 0;
    proof {
        assert(items@.take(0) =~= Seq::<JsonValue>::empty());
    }
    while i < items.len()
        invariant
            i <= items@.len(),
            count <= i,
            count == texts_of(items@.take(i as int)).len(),
            s@ == join_with(texts_of(items@.take(i as int)), "\n"@),
        decreases items@.len() - i,
    {
        proof {
            assert(items@.take(i + 1).drop_last() =~= items@.take(i as int));
            assert(items@.take(i + 1).last() == items@[i as int]);
        }
        match &items[i] {
            JsonValue::Str(t) => {
                if count > 0 {
                    s.push('\n');
                }
                append_str(&mut s, t.as_str());
                proof {
                    reveal_strlit("\n");
                    let ts = texts_of(items@.take(i + 1));
                    assert(ts.drop_last() == texts_of(items@.take(i as int)));
                    if count > 0 {
                        assert(s@ =~= join_with(ts.drop_last(), "\n"@) + "\n"@ + ts.last());
                    } else {
                        assert(s@ =~= ts[0]);
                    }
                }
                count = count + 1;
            },
            _ => {},
        }
        i = i + 1;
    }
    proof {
        assert(items@.take(items@.len() as int) =~= items@);
    }
    s
}

/// The JSON integer `serde_json` makes of an `i64`.
pub open spec fn json_int(n: i64) -> JsonValue {
    if n < 0 {
        JsonValue::Number(crate::json::JsonNumber::NegInt(n))
    } else {
        JsonValue::Number(crate::json::JsonNumber::PosInt(n as u64))
    }
}

/// The boolean member `k` of `conf`, `false` when it is not a boolean.
pub open spec fn flag(conf: JsonValue, k: Seq<char>) -> bool {
    conf.at(k).bool_of() == Some(true)
}

/// `body` is the connect request for profile `id` with the given password, built
/// from the profile's `.conf` document `conf` and its OpenVPN data `ovpn`.
pub open spec fn connect_body_of(body: JsonValue, id: Seq<char>, password: Option<Seq<char>>, conf: JsonValue, ovpn: Seq<char>) -> bool {
    &&& body matches JsonValue::Object(es) && {
        let e = es@;
        &&& e.len() == 19
        &&& e[0].0@ == "id"@ && e[0].1.str_of() == Some(id)
        &&& e[1].0@ == "mode"@ && e[1].1.str_of() == Some(if flag(conf, "wg"@) { "wg"@ } else { "ovpn"@ })
        &&& e[2].0@ == "org_id"@ && e[2].1.str_of() == Some(text_or_empty(conf.at("organization_id"@).str_of()))
        &&& e[3].0@ == "user_id"@ && e[3].1.str_of() == Some(text_or_empty(conf.at("user_id"@).str_of()))
        &&& e[4].0@ == "server_id"@ && e[4].1.str_of() == Some(text_or_empty(conf.at("server_id"@).str_of()))
        &&& e[5].0@ == "sync_hosts"@ && e[5].1 == conf.at("sync_hosts"@)
        &&& e[6].0@ == "sync_token"@ && e[6].1.str_of() == Some(text_or_empty(conf.at("sync_token"@).str_of()))
        &&& e[7].0@ == "sync_secret"@ && e[7].1.str_of() == Some(text_or_empty(conf.at("sync_secret"@).str_of()))
        &&& e[8].0@ == "username"@ && e[8].1.str_of() == Some("pritunl"@)
        &&& e[9].0@ == "password"@ && e[9].1.str_of() == Some(text_or_empty(password))
        &&& e[10].0@ == "dynamic_firewall"@ && e[10].1 == JsonValue::Bool(flag(conf, "dynamic_firewall"@))
        &&& e[11].0@ == "device_auth"@ && e[11].1 == JsonValue::Bool(flag(conf, "device_auth"@))
        &&& e[12].0@ == "sso_auth"@ && e[12].1 == JsonValue::Bool(flag(conf, "sso_auth"@))
        &&& e[13].0@ == "server_public_key"@ && match conf.at("server_public_key"@).items_of() {
            Some(items) => e[13].1.str_of() == Some(join_with(texts_of(items), "\n"@)),
            None => e[13].1 == JsonValue::Null,
        }
        &&& e[14].0@ == "server_box_public_key"@ && e[14].1 == conf.at("server_box_public_key"@)
        &&& e[15].0@ == "token_ttl"@ && e[15].1 == json_int(match conf.at("token_ttl"@).i64_of() {
            Some(n) => n,
            None => 2592000i64,
        })
        &&& e[16].0@ == "reconnect"@ && e[16].1 == JsonValue::Bool(!flag(conf, "disable_reconnect"@))
        &&& e[17].0@ == "timeout"@ && e[17].1 == JsonValue::Bool(false)
        &&& e[18].0@ == "data"@ && e[18].1.str_of() == Some(ovpn)
    }
}

fn text_entry(key: &str, value: String) -> (e: (String, JsonValue))
    ensures
        e.0@ == key@,
        e.1.str_of() == Some(value@),
{
    (owned(key), JsonValue::Str(value))
}

fn flag_member(v: &JsonValue, key: &str) -> (b: bool)
    ensures
        b == flag(*v, key@),
{
    match v.get_bool(key) {
        Some(b) => b,
        None => false,
    }
}

/// Reads a profile's `.conf` file as JSON; a parse error names the file's role.
pub fn parse_profile_conf(content: &str) -> (r: Result<JsonValue, VpnError>)
    ensures
        match json_parse(content@) {
            Ok(v) => r == Ok::<JsonValue, VpnError>(v),
            Err(e) => r matches Err(VpnError::ParseError(m)) && m@ == "Failed to parse profile conf: "@ + e,
        },
{
    match parse_json(content) {
        Ok(v) => Ok(v),
        Err(e) => {
            let mut m = owned("Failed to parse profile conf: ");
            append_str(&mut m, e.as_str());
            Err(VpnError::ParseError(m))
        },
    }
}

impl PritunlProvider {
    /// The body of the request that connects the selected profile, as
    /// `connect_body_of` lays it out.
    pub fn connect_body(&self, password: Option<&str>, conf: JsonValue, ovpn_data: String) -> (body: JsonValue)
        ensures
            connect_body_of(body, self.profile_id@, match password {
                Some(p) => Some(p@),
                None => None,
            }, conf, ovpn_data@),
    {
        let mut conf = conf;
        let wg = flag_member(&conf, "wg");
        let org_id = text_member(&conf, "organization_id");
        let user_id = text_member(&conf, "user_id");
        let server_id = text_member(&conf, "server_id");
        let sync_token = text_member(&conf, "sync_token");
        let sync_secret = text_member(&conf, "sync_secret");
        let dynamic_firewall = flag_member(&conf, "dynamic_firewall");
        let device_auth = flag_member(&conf, "device_auth");
        let sso_auth = flag_member(&conf, "sso_auth");
        let server_public_key = match conf.get("server_public_key") {
            Some(JsonValue::Array(items)) => JsonValue::Str(join_lines(items)),
            _ => JsonValue::Null,
        };
        let token_ttl = match conf.get_i64("token_ttl") {
            Some(n) => n,
            None => 2592000i64,
        };
        let disable_reconnect = flag_member(&conf, "disable_reconnect");
        let sync_hosts = conf.take_member("sync_hosts");
        let server_box_public_key = conf.take_member("server_box_public_key");
        proof {
            assert("server_box_public_key"@ != "sync_hosts"@) by {
                reveal_strlit("server_box_public_key");
                reveal_strlit("sync_hosts");
                assert("server_box_public_key"@.len() != "sync_hosts"@.len());
            }
        }
        let password_text = match password {
            Some(p) => owned(p),
            None => String::new(),
        };
        let ttl = if token_ttl < 0 {
            JsonValue::Number(crate::json::JsonNumber::NegInt(token_ttl))
        } else {
            JsonValue::Number(crate::json::JsonNumber::PosInt(token_ttl as u64))
        };
        let mut e: Vec<(String, JsonValue)> = Vec::new();
        e.push(text_entry("id", self.profile_id.clone()));
        e.push(text_entry("mode", owned(if wg { "wg" } else { "ovpn" })));
        e.push(text_entry("org_id", org_id));
        e.push(text_entry("user_id", user_id));
        e.push(text_entry("server_id", server_id));
        e.push((owned("sync_hosts"), sync_hosts));
        e.push(text_entry("sync_token", sync_token));
        e.push(text_entry("sync_secret", sync_secret));
        e.push(text_entry("username", owned("pritunl")));
        e.push(text_entry("password", password_text));
        e.push((owned("dynamic_firewall"), JsonValue::Bool(dynamic_firewall)));
        e.push((owned("device_auth"), JsonValue::Bool(device_auth)));
        e.push((owned("sso_auth"), JsonValue::Bool(sso_auth)));
        e.push((owned("server_public_key"), server_public_key));
        e.push((owned("server_box_public_key"), server_box_public_key));
        e.push((owned("token_ttl"), ttl));
        e.push((owned("reconnect"), JsonValue::Bool(!disable_reconnect)));
        e.push((owned("timeout"), JsonValue::Bool(false)));
        e.push(text_entry("data", ovpn_data));
        JsonValue::Object(e)
    }

    /// The body of the request that disconnects the selected profile,
    /// `{"id": <profile>}`; none when no profile is selected (nothing to ask).
    pub fn disconnect_body(&self) -> (r: Option<JsonValue>)
        ensures
            self.profile_id@.len() == 0 ==> r is None,
            self.profile_id@.len() > 0 ==> (r matches Some(JsonValue::Object(es)) && es@.len() == 1
                && es@[0].0@ == "id"@ && es@[0].1.str_of() == Some(self.profile_id@)),
    {
        if self.profile_id.as_str().is_empty() {
            return None;
        }
        let mut e: Vec<(String, JsonValue)> = Vec::new();
        e.push(text_entry("id", self.profile_id.clone()));
        Some(JsonValue::Object(e))
    }
}

/// The HTTP request text sent to the service: the request line, the headers
/// (with the byte length of the body as `Content-Length`), a blank line, the body.
pub open spec fn request_text(method: Seq<char>, path: Seq<char>, auth_key: Seq<char>, body: Seq<char>) -> Seq<char> {
    method + " "@ + path + " HTTP/1.1\r\nHost: unix\r\nAuth-Key: "@ + auth_key
        + "\r\nUser-Agent: pritunl\r\nContent-Type: application/json\r\nContent-Length: "@
        + decimal(vstd::utf8::encode_utf8(body).len()) + "\r\nConnection: close\r\n\r\n"@ + body
}

/// The request text for `method` on `path`, authorized by `auth_key`, with an
/// optional body (an absent body is empty).
pub fn service_request_text(method: &str, path: &str, auth_key: &str, body: Option<&str>) -> (s: String)
    ensures
        s@ == request_text(method@, path@, auth_key@, match body {
            Some(b) => b@,
            None => ""@,
        }),
{
    let body_text = match body {
        Some(b) => b,
        None => "",
    };
    let mut s = owned(method);
    append_str(&mut s, " ");
    append_str(&mut s, path);
    assert(s@ == method@ + " "@ + path@);
    append_str(&mut s, " HTTP/1.1\r\nHost: unix\r\nAuth-Key: ");
    append_str(&mut s, auth_key);
    append_str(&mut s, "\r\nUser-Agent: pritunl\r\nContent-Type: application/json\r\nContent-Length: ");
    let n = body_text.as_bytes().len();
    push_decimal(&mut s, n as u64);
    append_str(&mut s, "\r\nConnection: close\r\n\r\n");
    append_str(&mut s, body_text);
    proof {
        assert(s@ =~= request_text(method@, path@, auth_key@, body_text@));
    }
    s
}

/// The head of an HTTP response: the text before the first blank line.
pub open spec fn response_head(s: Seq<char>) -> Seq<char> {
    match find_text_from(s, "\r\n\r\n"@, 0) {
        Some(i) => s.subrange(0, i),
        None => s,
    }
}

/// The body of an HTTP response: the text after the first blank line, empty
/// when there is none.
pub open spec fn response_body(s: Seq<char>) -> Seq<char> {
    match find_text_from(s, "\r\n\r\n"@, 0) {
        Some(i) => s.subrange(i + 4, s.len() as int),
        None => Seq::empty(),
    }
}

/// The status code of a response head: the second word of its first line, `0`
/// when that is missing or not a number.
pub open spec fn status_code_of(head: Seq<char>) -> u16 {
    let ls = lines(head);
    if ls.len() == 0 {
        0
    } else {
        let ts = tokens(ls[0]);
        if ts.len() < 2 {
            0
        } else {
            match parse_u16(ts[1]) {
                Some(c) => c,
                None => 0,
            }
        }
    }
}

/// Splits the service's raw answer (decoded lossily as UTF-8) into its status
/// code and its body.
pub fn parse_service_response(response: &[u8]) -> (r: (u16, String))
    ensures
        r.0 == status_code_of(response_head(utf8_lossy(response@))),
        r.1@ == response_body(utf8_lossy(response@)),
{
    let text = string_from_utf8_lossy(response);
    let chars = chars_of(text.as_str());
    let blank = chars_of("\r\n\r\n");
    proof {
        reveal_strlit("\r\n\r\n");
        assert(blank@.len() == 4);
    }
    let total = chars.len();
    let found = find_text(&chars, &blank);
    let (head_end, body) = match found {
        Some(i) => {
            assert(i + 4 <= total);
            (i, string_of(&chars, i + 4, total))
        },
        None => (chars.len(), String::new()),
    };
    let head = sub_chars(&chars, 0, head_end);
    proof {
        if find_text_from(chars@, blank@, 0) is None {
            assert(chars@.subrange(0, chars@.len() as int) =~= chars@);
        }
        assert(head@ == response_head(chars@));
        assert(body@ == response_body(chars@));
    }
    let spans = line_spans(&head);
    if spans.len() == 0 {
        return (0, body);
    }
    let (a, b) = spans[0];
    let code = match nth_token(&head, a, b, 1) {
        Some((ta, tb)) => match parse_u16_range(&head, ta, tb) {
            Some(c) => c,
            None => 0,
        },
        None => 0,
    };
    (code, body)
}

/// The OpenVPN data of a profile with the key data from the keychain added: the
/// keychain's answer counts when the lookup succeeded and, trimmed, is
/// non-empty base64 of UTF-8 text; that text is appended.
pub open spec fn with_keychain_text(data: Seq<char>, success: bool, stdout: Seq<u8>) -> Seq<char> {
    let encoded = trim(utf8_lossy(stdout));
    if !success || encoded.len() == 0 {
        data
    } else {
        match b64_bytes(vstd::utf8::encode_utf8(without_ws(encoded))) {
            Some(out) => if vstd::utf8::valid_utf8(out) {
                data + vstd::utf8::decode_utf8(out)
            } else {
                data
            },
            None => data,
        }
    }
}

/// Adds the key data of the keychain lookup (`success`, `stdout`) to the
/// profile's OpenVPN data.
pub fn with_keychain_data(data: String, success: bool, stdout: &[u8]) -> (r: String)
    ensures
        r@ == with_keychain_text(data@, success, stdout@),
{
    if !success {
        return data;
    }
    let text = string_from_utf8_lossy(stdout);
    let chars = chars_of(text.as_str());
    let (a, b) = trim_bounds(&chars, 0, chars.len());
    proof {
        assert(chars@.subrange(0, chars@.len() as int) =~= chars@);
    }
    if a == b {
        return data;
    }
    let encoded = string_of(&chars, a, b);
    let mut data = data;
    match base64_decode(encoded.as_str()) {
        Ok(decoded) => {
            append_str(&mut data, decoded.as_str());
            data
        },
        Err(_) => data,
    }
}

} // verus!
