//! What an instance's configuration is made of: colors, authentication and the
//! shape of the provider's answer.
use crate::text::{chars_of, clone_opt, matches_at, replaced, stands_at};
use vstd::prelude::*;
use vstd::utf8::encode_utf8;

verus! {

// ---------------------------------------------------------------------------
// Ring colors
// ---------------------------------------------------------------------------

/// Default color of the outer ring.
pub const DEFAULT_OUTER_COLOR: &'static str = "#3584e4";

/// Default User-Agent prefix.
pub const DEFAULT_USER_AGENT: &'static str = "llm-quota-tray";

/// Colors of the center dot, one per state.
#[derive(Debug)]
pub struct BucketColors {
    pub normal: String,
    pub warning: String,
    pub throttled: String,
}

impl Clone for BucketColors {
    fn clone(&self) -> (r: BucketColors)
        ensures
            r == *self,
    {
        BucketColors {
            normal: self.normal.clone(),
            warning: self.warning.clone(),
            throttled: self.throttled.clone(),
        }
    }
}

/// Colors of the tray icon: the center dot carries the state, the outer ring
/// the remaining quota.
#[derive(Debug)]
pub struct RingColors {
    pub inner: BucketColors,
    pub outer: String,
    /// Hash of the four colors, part of every cached icon's file name.
    pub cached_hash: u64,
}

impl Clone for RingColors {
    fn clone(&self) -> (r: RingColors)
        ensures
            r == *self,
    {
        RingColors {
            inner: self.inner.clone(),
            outer: self.outer.clone(),
            cached_hash: self.cached_hash,
        }
    }
}

/// One step of FNV-1a: mix a byte in, then multiply by the prime.
pub open spec fn fnv_step(h: u64, byte: u8) -> u64 {
    (((h ^ (byte as u64)) * 0x100000001b3) % 0x1_0000_0000_0000_0000) as u64
}

/// The 64-bit FNV-1a hash of a byte sequence.
pub open spec fn fnv1a(bytes: Seq<u8>) -> u64
    decreases bytes.len(),
{
    if bytes.len() == 0 {
        0xcbf29ce484222325
    } else {
        fnv_step(fnv1a(bytes.drop_last()), bytes.last())
    }
}

/// The bytes that a palette's hash is taken over: the four colors, with a zero
/// byte between one and the next.
pub open spec fn hash_input(inner: BucketColors, outer: Seq<char>) -> Seq<u8> {
    encode_utf8(inner.normal@) + seq![0u8] + encode_utf8(inner.warning@) + seq![0u8] + encode_utf8(
        inner.throttled@,
    ) + seq![0u8] + encode_utf8(outer)
}

fn fnv_extend(h: u64, bytes: &[u8], Ghost(done): Ghost<Seq<u8>>) -> (r: u64)
    requires
        h == fnv1a(done),
    ensures
        r == fnv1a(done + bytes@),
{
    let mut r: u64 = h;
    let mut i: usize = 0;
    assert(done + bytes@.take(0) =~= done);
    while i < bytes.len()
        invariant
            i <= bytes.len(),
            r == fnv1a(done + bytes@.take(i as int)),
        decreases bytes.len() - i,
    {
        proof {
            let next = done + bytes@.take(i + 1);
            assert(next.drop_last() =~= done + bytes@.take(i as int));
            assert(next.last() == bytes@[i as int]);
        }
        r = (r ^ (bytes[i] as u64)).wrapping_mul(0x100000001b3);
        i += 1;
    }
    assert(bytes@.take(bytes.len() as int) =~= bytes@);
    r
}

/// The hash of a palette.
pub fn hash_colors(inner: &BucketColors, outer: &str) -> (r: u64)
    ensures
        r == fnv1a(hash_input(*inner, outer@)),
{
    let zero: [u8; 1] = [0];
    let sep: &[u8] = &zero;
    assert(sep@ =~= seq![0u8]);
    let ghost g0 = Seq::<u8>::empty();
    let h: u64 = 0xcbf29ce484222325;
    let h: u64 = fnv_extend(h, inner.normal.as_str().as_bytes(), Ghost(g0));
    let ghost g1 = g0 + encode_utf8(inner.normal@);
    let h: u64 = fnv_extend(h, sep, Ghost(g1));
    let ghost g2 = g1 + seq![0u8];
    let h: u64 = fnv_extend(h, inner.warning.as_str().as_bytes(), Ghost(g2));
    let ghost g3 = g2 + encode_utf8(inner.warning@);
    let h: u64 = fnv_extend(h, sep, Ghost(g3));
    let ghost g4 = g3 + seq![0u8];
    let h: u64 = fnv_extend(h, inner.throttled.as_str().as_bytes(), Ghost(g4));
    let ghost g5 = g4 + encode_utf8(inner.throttled@);
    let h: u64 = fnv_extend(h, sep, Ghost(g5));
    let ghost g6 = g5 + seq![0u8];
    let h: u64 = fnv_extend(h, outer.as_bytes(), Ghost(g6));
    assert(g6 + encode_utf8(outer@) =~= hash_input(*inner, outer@));
    h
}

/// Whether a palette carries its own hash.
pub open spec fn hashed(c: RingColors) -> bool {
    c.cached_hash == fnv1a(hash_input(c.inner, c.outer@))
}

/// Default colors of the center dot: green, yellow, red.
pub fn default_inner_colors() -> (r: BucketColors)
    ensures
        r.normal@ == "#3a9d4d"@,
        r.warning@ == "#f6d32d"@,
        r.throttled@ == "#e01b24"@,
{
    BucketColors {
        normal: "#3a9d4d".to_owned(),
        warning: "#f6d32d".to_owned(),
        throttled: "#e01b24".to_owned(),
    }
}

/// A palette with its hash.
pub fn with_hash(inner: BucketColors, outer: String) -> (r: RingColors)
    ensures
        r.inner == inner,
        r.outer == outer,
        hashed(r),
{
    let cached_hash: u64 = hash_colors(&inner, outer.as_str());
    RingColors { inner, outer, cached_hash }
}

/// The default palette.
pub fn default_ring_colors() -> (r: RingColors)
    ensures
        r.inner.normal@ == "#3a9d4d"@,
        r.inner.warning@ == "#f6d32d"@,
        r.inner.throttled@ == "#e01b24"@,
        r.outer@ == DEFAULT_OUTER_COLOR@,
        hashed(r),
{
    with_hash(default_inner_colors(), DEFAULT_OUTER_COLOR.to_owned())
}

impl Default for RingColors {
    fn default() -> (r: RingColors)
        ensures
            r.inner.normal@ == "#3a9d4d"@,
            r.inner.warning@ == "#f6d32d"@,
            r.inner.throttled@ == "#e01b24"@,
            r.outer@ == DEFAULT_OUTER_COLOR@,
            hashed(r),
    {
        default_ring_colors()
    }
}

/// A palette as a config file may write it: `inner` and `outer`, or the flat
/// `normal`, `warning`, `throttled`, or nothing.
#[derive(Debug)]
pub struct RingColorsRepr {
    pub inner: Option<BucketColors>,
    pub outer: Option<String>,
    pub normal: Option<String>,
    pub warning: Option<String>,
    pub throttled: Option<String>,
}

/// The text of an optional color, empty where it is missing.
pub open spec fn or_empty(s: Option<String>) -> Seq<char> {
    match s {
        Some(t) => t@,
        None => Seq::empty(),
    }
}

fn unwrap_or_empty(s: Option<String>) -> (r: String)
    ensures
        r@ == or_empty(s),
{
    match s {
        Some(t) => t,
        None => String::new(),
    }
}

impl RingColorsRepr {
    /// The palette that a config file's entry stands for. `inner` wins over the
    /// flat colors, which win over the defaults.
    pub fn into_colors(self) -> (r: RingColors)
        ensures
            hashed(r),
            r.outer@ == (match self.outer {
                Some(o) => o@,
                None => DEFAULT_OUTER_COLOR@,
            }),
            match self.inner {
                Some(i) => r.inner == i,
                None => if self.normal is Some || self.warning is Some || self.throttled is Some {
                    &&& r.inner.normal@ == or_empty(self.normal)
                    &&& r.inner.warning@ == or_empty(self.warning)
                    &&& r.inner.throttled@ == or_empty(self.throttled)
                } else {
                    &&& r.inner.normal@ == "#3a9d4d"@
                    &&& r.inner.warning@ == "#f6d32d"@
                    &&& r.inner.throttled@ == "#e01b24"@
                },
            },
    {
        let outer = match self.outer {
            Some(o) => o,
            None => DEFAULT_OUTER_COLOR.to_owned(),
        };
        let inner = match self.inner {
            Some(i) => i,
            None => {
                if self.normal.is_some() || self.warning.is_some() || self.throttled.is_some() {
                    BucketColors {
                        normal: unwrap_or_empty(self.normal),
                        warning: unwrap_or_empty(self.warning),
                        throttled: unwrap_or_empty(self.throttled),
                    }
                } else {
                    default_inner_colors()
                }
            },
        };
        with_hash(inner, outer)
    }
}

proof fn lemma_multiply_injective(a: u64, b: u64)
    requires
        (a * 0x100000001b3) % 0x1_0000_0000_0000_0000 == (b * 0x100000001b3)
            % 0x1_0000_0000_0000_0000,
    ensures
        a == b,
{
    let m: int = 0x1_0000_0000_0000_0000;
    let p: int = 0x100000001b3;
    let inv: int = 0xce965057aff6957b;
    assert(p * inv == 1 + 887285111055 * m) by (nonlinear_arith)
        requires
            m == 0x1_0000_0000_0000_0000,
            p == 0x100000001b3,
            inv == 0xce965057aff6957b,
    ;
    lemma_inverse(a as int, p, inv, 887285111055, m);
    lemma_inverse(b as int, p, inv, 887285111055, m);
}

proof fn lemma_inverse(a: int, p: int, inv: int, k: int, m: int)
    requires
        m > 0,
        0 <= a < m,
        p * inv == 1 + k * m,
    ensures
        (((a * p) % m) * inv) % m == a,
{
    vstd::arithmetic::div_mod::lemma_mul_mod_noop_left(a * p, inv, m);
    assert((a * p) * inv == m * (a * k) + a) by (nonlinear_arith)
        requires
            p * inv == 1 + k * m,
    ;
    vstd::arithmetic::div_mod::lemma_mod_multiples_vanish(a * k, a, m);
    vstd::arithmetic::div_mod::lemma_small_mod(a as nat, m as nat);
}

proof fn lemma_step_injective(h1: u64, b1: u8, h2: u64, b2: u8)
    requires
        fnv_step(h1, b1) == fnv_step(h2, b2),
    ensures
        b1 == b2 ==> h1 == h2,
        h1 == h2 ==> b1 == b2,
{
    let x = h1 ^ (b1 as u64);
    let y = h2 ^ (b2 as u64);
    lemma_multiply_injective(x, y);
    assert(b1 == b2 && (h1 ^ (b1 as u64)) == (h2 ^ (b2 as u64)) ==> h1 == h2) by (bit_vector);
    assert(h1 == h2 && (h1 ^ (b1 as u64)) == (h2 ^ (b2 as u64)) ==> b1 == b2) by (bit_vector);
}

/// Changing one byte of what is hashed always changes the hash: an edited
/// color never finds the icon that was cached for the old one.
pub proof fn law_one_byte_change_changes_hash(a: Seq<u8>, b: Seq<u8>, at: int)
    requires
        a.len() == b.len(),
        0 <= at < a.len(),
        a[at] != b[at],
        forall|i: int| 0 <= i < a.len() && i != at ==> a[i] == b[i],
    ensures
        fnv1a(a) != fnv1a(b),
    decreases a.len(),
{
    let n = a.len() - 1;
    let pa = a.drop_last();
    let pb = b.drop_last();
    if fnv1a(a) == fnv1a(b) {
        lemma_step_injective(fnv1a(pa), a.last(), fnv1a(pb), b.last());
        if at == n {
            assert(pa =~= pb);
        } else {
            assert(a.last() == b.last());
            law_one_byte_change_changes_hash(pa, pb, at);
        }
    }
}

// ---------------------------------------------------------------------------
// Authentication
// ---------------------------------------------------------------------------

/// How the API key is sent.
#[derive(Debug)]
pub enum AuthConfig {
    /// `Authorization: Bearer <key>`.
    Bearer,
    /// `<name>: <key>`.
    Header { name: String },
    /// `<name>: <format>`, with `{key}` replaced by the key.
    Custom { name: String, format: String },
    /// `?<name>=<key>` behind the endpoint, no header.
    QueryParam { name: String },
}

impl Clone for AuthConfig {
    fn clone(&self) -> (r: AuthConfig)
        ensures
            r == *self,
    {
        match self {
            AuthConfig::Bearer => AuthConfig::Bearer,
            AuthConfig::Header { name } => AuthConfig::Header { name: name.clone() },
            AuthConfig::Custom { name, format } => AuthConfig::Custom {
                name: name.clone(),
                format: format.clone(),
            },
            AuthConfig::QueryParam { name } => AuthConfig::QueryParam { name: name.clone() },
        }
    }
}

impl Default for AuthConfig {
    fn default() -> (r: AuthConfig)
        ensures
            r == AuthConfig::Bearer,
    {
        AuthConfig::Bearer
    }
}

/// `s` with every `{key}` replaced by `key`.
fn replace_key(s: &str, key: &str) -> (r: String)
    ensures
        r@ == replaced(s@, "{key}"@, key@),
{
    let chars = chars_of(s);
    let pattern = chars_of("{key}");
    let n: usize = chars.len();
    proof {
        reveal_strlit("{key}");
    }
    let mut out = String::new();
    let mut i: usize = 0;
    assert(chars@.skip(0) =~= s@);
    while i < n
        invariant
            n == chars.len(),
            pattern@ == "{key}"@,
            pattern@.len() == 5,
            i <= n,
            replaced(s@, pattern@, key@) == out@ + replaced(chars@.skip(i as int), pattern@, key@),
        decreases n - i,
    {
        let ghost rest = chars@.skip(i as int);
        let hit: bool = matches_at(&chars, &pattern, i);
        proof {
            assert(i + 5 <= n ==> chars@.subrange(i as int, i + 5) =~= rest.subrange(0, 5));
            assert(hit == stands_at(rest, pattern@, 0));
        }
        if hit {
            let ghost before = out@;
            out.append(key);
            assert(rest.skip(5) =~= chars@.skip(i + 5));
            assert(out@ + replaced(chars@.skip(i + 5), pattern@, key@) =~= before + (key@
                + replaced(chars@.skip(i + 5), pattern@, key@)));
            i += pattern.len();
        } else {
            let ghost before = out@;
            out.push(chars[i]);
            assert(rest.skip(1) =~= chars@.skip(i + 1));
            assert(out@ + replaced(chars@.skip(i + 1), pattern@, key@) =~= before + (
            seq![chars@[i as int]] + replaced(chars@.skip(i + 1), pattern@, key@)));
            i += 1;
        }
    }
    assert(chars@.skip(n as int) =~= Seq::<char>::empty());
    assert(out@ + Seq::<char>::empty() =~= out@);
    out
}

/// The header that carries a key; both parts empty where the key goes into the URL.
pub open spec fn auth_header(auth: AuthConfig, key: Seq<char>) -> (Seq<char>, Seq<char>) {
    match auth {
        AuthConfig::Bearer => ("Authorization"@, "Bearer "@ + key),
        AuthConfig::Header { name } => (name@, key),
        AuthConfig::Custom { name, format } => (name@, replaced(format@, "{key}"@, key)),
        AuthConfig::QueryParam { name } => (Seq::empty(), Seq::empty()),
    }
}

/// The URL of a request: the endpoint, with the key appended where it goes into the URL.
pub open spec fn auth_url(auth: AuthConfig, endpoint: Seq<char>, key: Seq<char>) -> Seq<char> {
    match auth {
        AuthConfig::QueryParam { name } => endpoint + (if endpoint.contains('?') {
            "&"@
        } else {
            "?"@
        }) + name@ + "="@ + percent_encoded(encode_utf8(key)),
        _ => endpoint,
    }
}

fn has_query(endpoint: &str) -> (r: bool)
    ensures
        r == endpoint@.contains('?'),
{
    let chars = chars_of(endpoint);
    let mut i: usize = 0;
    while i < chars.len()
        invariant
            chars@ == endpoint@,
            i <= chars.len(),
            forall|j: int| 0 <= j < i ==> chars@[j] != '?',
        decreases chars.len() - i,
    {
        if chars[i] == '?' {
            assert(endpoint@[i as int] == '?');
            return true;
        }
        i += 1;
    }
    false
}

impl AuthConfig {
    /// Name and value of the header that carries `api_key`.
    pub fn build(&self, api_key: &str) -> (r: (String, String))
        ensures
            (r.0@, r.1@) == auth_header(*self, api_key@),
    {
        match self {
            AuthConfig::Bearer => (
                "Authorization".to_owned(),
                "Bearer ".to_owned().concat(api_key),
            ),
            AuthConfig::Header { name } => (name.clone(), api_key.to_owned()),
            AuthConfig::Custom { name, format } => (
                name.clone(),
                replace_key(format.as_str(), api_key),
            ),
            AuthConfig::QueryParam { name: _ } => (String::new(), String::new()),
        }
    }

    /// The URL to request: `endpoint`, with `api_key` appended where it goes into the URL.
    pub fn apply_to_endpoint(&self, endpoint: &str, api_key: &str) -> (r: String)
        ensures
            r@ == auth_url(*self, endpoint@, api_key@),
    {
        match self {
            AuthConfig::QueryParam { name } => {
                let mut out = endpoint.to_owned();
                if has_query(endpoint) {
                    out.append("&");
                } else {
                    out.append("?");
                }
                out.append(name.as_str());
                out.append("=");
                out.append(percent_encode_query_value(api_key).as_str());
                out
            },
            _ => endpoint.to_owned(),
        }
    }
}

// ---------------------------------------------------------------------------
// Percent encoding
// ---------------------------------------------------------------------------

/// Whether a byte stands for itself in a query value.
pub open spec fn is_unreserved(b: u8) -> bool {
    ||| 48 <= b <= 57
    ||| 65 <= b <= 90
    ||| 97 <= b <= 122
    ||| b == 45
    ||| b == 95
    ||| b == 46
    ||| b == 126
}

/// The upper-case hexadecimal digit of a number below 16.
pub open spec fn hex_digit(d: u8) -> char {
    if d < 10 {
        (48 + d) as char
    } else {
        (55 + d) as char
    }
}

/// One byte of a query value: itself, or a percent sign and two digits.
pub open spec fn encoded_byte(b: u8) -> Seq<char> {
    if is_unreserved(b) {
        seq![b as char]
    } else {
        seq!['%', hex_digit(b / 16), hex_digit(b % 16)]
    }
}

/// The percent encoding of a byte sequence.
pub open spec fn percent_encoded(bytes: Seq<u8>) -> Seq<char>
    decreases bytes.len(),
{
    if bytes.len() == 0 {
        Seq::empty()
    } else {
        percent_encoded(bytes.drop_last()) + encoded_byte(bytes.last())
    }
}

fn push_hex(out: &mut String, d: u8)
    requires
        d < 16,
    ensures
        final(out)@ == old(out)@.push(hex_digit(d)),
{
    if d < 10 {
        out.push((48 + d) as char);
    } else {
        out.push((55 + d) as char);
    }
}

/// The percent encoding of a query value: letters, digits and `-_.~` stand for
/// themselves, every other byte of its UTF-8 form is written `%XX`.
pub fn percent_encode_query_value(s: &str) -> (r: String)
    ensures
        r@ == percent_encoded(encode_utf8(s@)),
{
    let bytes = s.as_bytes();
    let mut out = String::new();
    let mut i: usize = 0;
    assert(bytes@.take(0) =~= Seq::<u8>::empty());
    while i < bytes.len()
        invariant
            i <= bytes.len(),
            out@ == percent_encoded(bytes@.take(i as int)),
        decreases bytes.len() - i,
    {
        let b: u8 = bytes[i];
        let ghost before = out@;
        proof {
            assert(bytes@.take(i + 1).drop_last() =~= bytes@.take(i as int));
        }
        if (48 <= b && b <= 57) || (65 <= b && b <= 90) || (97 <= b && b <= 122) || b == 45 || b
            == 95 || b == 46 || b == 126 {
            out.push(b as char);
        } else {
            out.push('%');
            push_hex(&mut out, b / 16);
            push_hex(&mut out, b % 16);
        }
        assert(out@ =~= before + encoded_byte(b));
        i += 1;
    }
    assert(bytes@.take(bytes.len() as int) =~= bytes@);
    out
}

/// The value of an upper-case hexadecimal digit.
pub open spec fn hex_value(c: char) -> int {
    if c <= '9' {
        c as int - 48
    } else {
        c as int - 55
    }
}

/// What a percent-encoded text stands for.
pub open spec fn percent_decoded(s: Seq<char>) -> Seq<u8>
    decreases s.len(),
{
    if s.len() == 0 {
        Seq::empty()
    } else if s[0] == '%' && s.len() >= 3 {
        seq![(16 * hex_value(s[1]) + hex_value(s[2])) as u8] + percent_decoded(s.skip(3))
    } else {
        seq![s[0] as u8] + percent_decoded(s.skip(1))
    }
}

proof fn lemma_encoded_front(bytes: Seq<u8>)
    requires
        bytes.len() > 0,
    ensures
        percent_encoded(bytes) == encoded_byte(bytes[0]) + percent_encoded(bytes.drop_first()),
    decreases bytes.len(),
{
    if bytes.len() == 1 {
        assert(bytes.drop_last() =~= Seq::<u8>::empty());
        assert(bytes.drop_first() =~= Seq::<u8>::empty());
        assert(percent_encoded(bytes) =~= encoded_byte(bytes[0]) + percent_encoded(
            bytes.drop_first(),
        ));
    } else {
        lemma_encoded_front(bytes.drop_last());
        assert(bytes.drop_last().drop_first() =~= bytes.drop_first().drop_last());
        assert(percent_encoded(bytes) =~= encoded_byte(bytes[0]) + percent_encoded(
            bytes.drop_first(),
        ));
    }
}

/// A key survives the URL: decoding what was encoded gives the same bytes back.
pub proof fn law_percent_encoding_round_trips(bytes: Seq<u8>)
    ensures
        percent_decoded(percent_encoded(bytes)) == bytes,
    decreases bytes.len(),
{
    if bytes.len() > 0 {
        let b = bytes[0];
        let rest = bytes.drop_first();
        lemma_encoded_front(bytes);
        law_percent_encoding_round_trips(rest);
        let e = percent_encoded(bytes);
        let tail = percent_encoded(rest);
        if is_unreserved(b) {
            assert(e.skip(1) =~= tail);
            assert(e[0] == b as char);
        } else {
            assert(e.skip(3) =~= tail);
            assert(e[0] == '%' && e[1] == hex_digit(b / 16) && e[2] == hex_digit(b % 16));
            assert(hex_value(hex_digit(b / 16)) == b / 16);
            assert(hex_value(hex_digit(b % 16)) == b % 16);
        }
        assert(percent_decoded(e) =~= seq![b] + rest);
        assert(seq![b] + rest =~= bytes);
    } else {
        assert(bytes =~= Seq::<u8>::empty());
    }
}

/// Texts are encoded byte by byte: the encoding of two pieces is that of the one
/// followed by that of the other.
pub proof fn law_encoding_goes_piece_by_piece(a: Seq<u8>, b: Seq<u8>)
    ensures
        percent_encoded(a + b) == percent_encoded(a) + percent_encoded(b),
    decreases b.len(),
{
    if b.len() == 0 {
        assert(a + b =~= a);
        assert(percent_encoded(a) + percent_encoded(b) =~= percent_encoded(a));
    } else {
        law_encoding_goes_piece_by_piece(a, b.drop_last());
        assert((a + b).drop_last() =~= a + b.drop_last());
        assert(percent_encoded(a + b) =~= percent_encoded(a) + percent_encoded(b));
    }
}

/// Whether a character is an upper-case hexadecimal digit.
pub open spec fn is_upper_hex(c: char) -> bool {
    ('0' <= c && c <= '9') || ('A' <= c && c <= 'F')
}

/// Every percent sign of an encoded text is followed by two hexadecimal digits.
pub proof fn law_percent_signs_start_triplets(bytes: Seq<u8>)
    ensures
        forall|i: int|
            0 <= i < percent_encoded(bytes).len() && #[trigger] percent_encoded(bytes)[i] == '%'
                ==> i + 2 < percent_encoded(bytes).len() && is_upper_hex(
                percent_encoded(bytes)[i + 1],
            ) && is_upper_hex(percent_encoded(bytes)[i + 2]),
    decreases bytes.len(),
{
    if bytes.len() > 0 {
        law_percent_signs_start_triplets(bytes.drop_last());
        let head = percent_encoded(bytes.drop_last());
        let b = bytes.last();
        let e = encoded_byte(b);
        let all = percent_encoded(bytes);
        assert forall|i: int| 0 <= i < all.len() && #[trigger] all[i] == '%' implies i + 2
            < all.len() && is_upper_hex(all[i + 1]) && is_upper_hex(all[i + 2]) by {
            if i < head.len() {
                assert(all[i] == head[i]);
                assert(all[i + 1] == head[i + 1] && all[i + 2] == head[i + 2]);
            } else {
                let k = i - head.len();
                assert(all[i] == e[k]);
                if is_unreserved(b) {
                    assert(e[k] == b as char);
                } else {
                    assert(e[1] == hex_digit(b / 16) && e[2] == hex_digit(b % 16));
                    assert(k == 0);
                    assert(all[i + 1] == e[1] && all[i + 2] == e[2]);
                }
            }
        }
    }
}

/// Whether a character may stand in an encoded query value.
pub open spec fn is_query_safe(c: char) -> bool {
    c == '%' || (c as int <= 127 && is_unreserved(c as u8))
}

/// An encoded key holds no character that means something in a URL's query.
pub proof fn law_encoded_value_is_query_safe(bytes: Seq<u8>)
    ensures
        forall|i: int|
            0 <= i < percent_encoded(bytes).len() ==> is_query_safe(
                #[trigger] percent_encoded(bytes)[i],
            ),
    decreases bytes.len(),
{
    if bytes.len() > 0 {
        law_encoded_value_is_query_safe(bytes.drop_last());
        let head = percent_encoded(bytes.drop_last());
        let e = encoded_byte(bytes.last());
        assert forall|i: int| 0 <= i < percent_encoded(bytes).len() implies is_query_safe(
            #[trigger] percent_encoded(bytes)[i],
        ) by {
            if i < head.len() {
                assert(percent_encoded(bytes)[i] == head[i]);
            } else {
                assert(percent_encoded(bytes)[i] == e[i - head.len()]);
            }
        }
    }
}

// ---------------------------------------------------------------------------
// Shape of the answer
// ---------------------------------------------------------------------------

/// How one quota window is read from an entry of the answer.
#[derive(Debug)]
pub struct WindowShape {
    pub id: String,
    pub field_prefix: String,
    /// Field that holds the window's start, where it is not `start_time`.
    pub start_field: Option<String>,
    /// Field that holds the reset, where it is not `remains_time`.
    pub reset_field: Option<String>,
    /// Milliseconds per unit of the start field.
    pub start_unit_ms: i64,
    /// Milliseconds per unit of the reset field.
    pub reset_unit_ms: i64,
    /// Whether the reset field is a point in time, not a time left.
    pub reset_is_absolute_epoch: bool,
    /// What the counts count: tokens where it is missing.
    pub count_unit: Option<String>,
    /// Currency of counts that are money.
    pub currency: Option<String>,
    /// JSON pointer to the model that an entry is about.
    pub pricing_model_path: Option<String>,
}

impl Clone for WindowShape {
    fn clone(&self) -> (r: WindowShape)
        ensures
            r == *self,
    {
        WindowShape {
            id: self.id.clone(),
            field_prefix: self.field_prefix.clone(),
            start_field: clone_opt(&self.start_field),
            reset_field: clone_opt(&self.reset_field),
            start_unit_ms: self.start_unit_ms,
            reset_unit_ms: self.reset_unit_ms,
            reset_is_absolute_epoch: self.reset_is_absolute_epoch,
            count_unit: clone_opt(&self.count_unit),
            currency: clone_opt(&self.currency),
            pricing_model_path: clone_opt(&self.pricing_model_path),
        }
    }
}

/// Errors that a provider reports inside a successful answer.
#[derive(Debug, Clone)]
pub struct ErrorEnvelope {
    pub code_path: String,
    pub message_path: String,
    pub success_codes: Vec<i64>,
}

/// Where the entries stand in the answer and which windows an entry holds.
#[derive(Debug, Clone)]
pub struct PlanShape {
    pub entries_path: String,
    pub windows: Vec<WindowShape>,
    pub error_envelope: Option<ErrorEnvelope>,
}

/// Whether a shape is the neutral one: one window named `primary`, its start in
/// seconds and its time left in milliseconds, under the root.
pub open spec fn is_default_shape(s: PlanShape) -> bool {
    &&& s.entries_path@ == "/"@
    &&& s.error_envelope is None
    &&& s.windows@.len() == 1
    &&& s.windows@[0].id@ == "primary"@
    &&& s.windows@[0].field_prefix@ == "primary"@
    &&& s.windows@[0].start_field is None
    &&& s.windows@[0].reset_field is None
    &&& s.windows@[0].start_unit_ms == 1000
    &&& s.windows@[0].reset_unit_ms == 1
    &&& !s.windows@[0].reset_is_absolute_epoch
    &&& s.windows@[0].count_unit is None
    &&& s.windows@[0].currency is None
    &&& s.windows@[0].pricing_model_path is None
}

/// The shape of an instance that configures none.
pub fn default_shape() -> (r: PlanShape)
    ensures
        is_default_shape(r),
{
    let mut windows: Vec<WindowShape> = Vec::new();
    windows.push(
        WindowShape {
            id: "primary".to_owned(),
            field_prefix: "primary".to_owned(),
            start_field: None,
            reset_field: None,
            start_unit_ms: 1000,
            reset_unit_ms: 1,
            reset_is_absolute_epoch: false,
            count_unit: None,
            currency: None,
            pricing_model_path: None,
        },
    );
    PlanShape { entries_path: "/".to_owned(), windows, error_envelope: None }
}

impl Default for PlanShape {
    fn default() -> (r: PlanShape)
        ensures
            is_default_shape(r),
    {
        default_shape()
    }
}

// ---------------------------------------------------------------------------
// Laws
// ---------------------------------------------------------------------------

/// The hash is FNV-1a: it starts from the offset basis, and every byte is mixed in and
/// multiplied by the prime.
pub proof fn law_hash_goes_byte_by_byte(bytes: Seq<u8>, b: u8)
    ensures
        fnv1a(Seq::<u8>::empty()) == 0xcbf2_9ce4_8422_2325,
        fnv1a(bytes.push(b)) as int == ((fnv1a(bytes) ^ (b as u64)) * 0x0100_0000_01b3)
            % 0x1_0000_0000_0000_0000,
{
    assert(bytes.push(b).drop_last() =~= bytes);
}

/// Every color counts: palettes that differ in one of the four are hashed from
/// different bytes.
pub proof fn law_every_color_is_hashed(a: BucketColors, b: BucketColors, x: Seq<char>, y: Seq<char>)
    requires
        hash_input(a, x) == hash_input(b, y),
    ensures
        a.normal@ == b.normal@ && a.warning@ == b.warning@ && a.throttled@ == b.throttled@ ==> x
            == y,
        a.warning@ == b.warning@ && a.throttled@ == b.throttled@ && x == y ==> a.normal@
            == b.normal@,
        a.normal@ == b.normal@ && a.throttled@ == b.throttled@ && x == y ==> a.warning@
            == b.warning@,
        a.normal@ == b.normal@ && a.warning@ == b.warning@ && x == y ==> a.throttled@
            == b.throttled@,
{
    let z = seq![0u8];
    let e = Seq::<u8>::empty();
    if a.normal@ == b.normal@ && a.warning@ == b.warning@ && a.throttled@ == b.throttled@ {
        let head = encode_utf8(a.normal@) + z + encode_utf8(a.warning@) + z + encode_utf8(
            a.throttled@,
        ) + z;
        assert(hash_input(a, x) =~= head + encode_utf8(x) + e);
        assert(hash_input(b, y) =~= head + encode_utf8(y) + e);
        lemma_middle(head, x, y, e);
    }
    if a.warning@ == b.warning@ && a.throttled@ == b.throttled@ && x == y {
        let tail = z + encode_utf8(a.warning@) + z + encode_utf8(a.throttled@) + z + encode_utf8(x);
        assert(hash_input(a, x) =~= e + encode_utf8(a.normal@) + tail);
        assert(hash_input(b, y) =~= e + encode_utf8(b.normal@) + tail);
        lemma_middle(e, a.normal@, b.normal@, tail);
    }
    if a.normal@ == b.normal@ && a.throttled@ == b.throttled@ && x == y {
        let head = encode_utf8(a.normal@) + z;
        let tail = z + encode_utf8(a.throttled@) + z + encode_utf8(x);
        assert(hash_input(a, x) =~= head + encode_utf8(a.warning@) + tail);
        assert(hash_input(b, y) =~= head + encode_utf8(b.warning@) + tail);
        lemma_middle(head, a.warning@, b.warning@, tail);
    }
    if a.normal@ == b.normal@ && a.warning@ == b.warning@ && x == y {
        let head = encode_utf8(a.normal@) + z + encode_utf8(a.warning@) + z;
        let tail = z + encode_utf8(x);
        assert(hash_input(a, x) =~= head + encode_utf8(a.throttled@) + tail);
        assert(hash_input(b, y) =~= head + encode_utf8(b.throttled@) + tail);
        lemma_middle(head, a.throttled@, b.throttled@, tail);
    }
}

proof fn lemma_middle(head: Seq<u8>, x: Seq<char>, y: Seq<char>, tail: Seq<u8>)
    requires
        head + encode_utf8(x) + tail == head + encode_utf8(y) + tail,
    ensures
        x == y,
{
    let p = encode_utf8(x);
    let q = encode_utf8(y);
    let s = head + p + tail;
    let t = head + q + tail;
    let n = head.len() as int;
    assert(s.len() == n + p.len() + tail.len());
    assert(t.len() == n + q.len() + tail.len());
    assert(s.subrange(n, n + p.len()) =~= p);
    assert(t.subrange(n, n + q.len()) =~= q);
    vstd::utf8::encode_utf8_decode_utf8(x);
    vstd::utf8::encode_utf8_decode_utf8(y);
}

/// The key travels in one place alone: in the header that the configuration names, or
/// in the URL's query and then in no header.
pub proof fn law_key_travels_in_one_place(
    name: String,
    format: String,
    endpoint: Seq<char>,
    key: Seq<char>,
)
    ensures
        auth_header(AuthConfig::Bearer, key) == ("Authorization"@, "Bearer "@ + key),
        auth_url(AuthConfig::Bearer, endpoint, key) == endpoint,
        auth_header(AuthConfig::Header { name }, key) == (name@, key),
        auth_url(AuthConfig::Header { name }, endpoint, key) == endpoint,
        auth_header(AuthConfig::Custom { name, format }, key).0 == name@,
        auth_url(AuthConfig::Custom { name, format }, endpoint, key) == endpoint,
        auth_header(AuthConfig::QueryParam { name }, key).0.len() == 0,
        auth_header(AuthConfig::QueryParam { name }, key).1.len() == 0,
        !endpoint.contains('?') ==> auth_url(AuthConfig::QueryParam { name }, endpoint, key)
            == endpoint + "?"@ + name@ + "="@ + percent_encoded(encode_utf8(key)),
        endpoint.contains('?') ==> auth_url(AuthConfig::QueryParam { name }, endpoint, key)
            == endpoint + "&"@ + name@ + "="@ + percent_encoded(encode_utf8(key)),
{
}

/// A custom header's value is its format with the key in the place of `{key}`.
pub proof fn law_custom_header_holds_the_key(
    name: String,
    format: String,
    a: Seq<char>,
    b: Seq<char>,
    key: Seq<char>,
)
    requires
        format@ == a + "{key}"@ + b,
        !a.contains('{'),
        !b.contains('{'),
    ensures
        auth_header(AuthConfig::Custom { name, format }, key).1 == a + key + b,
{
    reveal_strlit("{key}");
    let p = "{key}"@;
    assert(p.len() == 5 && p[0] == '{');
    lemma_replaced_behind(a, p, b, key);
    if crate::text::occurs(b, p) {
        let at = choose|at: int| stands_at(b, p, at);
        assert(b.subrange(at, at + 5)[0] == b[at]);
    }
    crate::text::law_replacing_changes_the_pattern_alone(b, p, key);
    assert(a + p + b =~= a + (p + b));
    assert(a + (key + b) =~= a + key + b);
}

proof fn lemma_replaced_behind(a: Seq<char>, p: Seq<char>, b: Seq<char>, key: Seq<char>)
    requires
        p.len() > 0,
        !a.contains(p[0]),
    ensures
        replaced(a + (p + b), p, key) == a + replaced(p + b, p, key),
    decreases a.len(),
{
    if a.len() == 0 {
        assert(a + (p + b) =~= p + b);
        assert(a + replaced(p + b, p, key) =~= replaced(p + b, p, key));
    } else {
        let s = a + (p + b);
        let t = a.skip(1);
        assert(a[0] != p[0]) by {
            assert(a.contains(a[0]));
        }
        assert(!t.contains(p[0])) by {
            if t.contains(p[0]) {
                let i = choose|i: int| 0 <= i < t.len() && t[i] == p[0];
                assert(a[i + 1] == p[0]);
            }
        }
        if stands_at(s, p, 0) {
            assert(s.subrange(0, p.len() as int)[0] == s[0]);
        }
        assert(s.skip(1) =~= t + (p + b));
        lemma_replaced_behind(t, p, b, key);
        assert(seq![s[0]] + (t + replaced(p + b, p, key)) =~= a + replaced(p + b, p, key));
    }
}

/// Letters, digits and `-_.~` stand for themselves in a query; every other byte is a
/// percent sign and its two hexadecimal digits, capitals where they are letters.
pub proof fn law_query_bytes_are_kept_or_escaped(b: u8)
    ensures
        ({
            let c = b as int;
            let plain = 48 <= c <= 57 || 65 <= c <= 90 || 97 <= c <= 122 || c == 45 || c == 95 || c
                == 46 || c == 126;
            let e = percent_encoded(seq![b]);
            &&& plain ==> e == seq![b as char]
            &&& !plain ==> e.len() == 3 && e[0] == '%' && c == 16 * (if e[1] as int <= 57 {
                e[1] as int - 48
            } else {
                e[1] as int - 55
            }) + (if e[2] as int <= 57 {
                e[2] as int - 48
            } else {
                e[2] as int - 55
            }) && is_upper_hex(e[1]) && is_upper_hex(e[2])
        }),
{
    let s = seq![b];
    assert(s.drop_last() =~= Seq::<u8>::empty());
    reveal_with_fuel(percent_encoded, 2);
    assert(percent_encoded(s) =~= encoded_byte(b));
}

/// The neutral shape reads one window named `primary` from the answer itself: its
/// start in seconds, its reset as milliseconds left.
pub proof fn law_the_neutral_shape(s: PlanShape)
    requires
        is_default_shape(s),
    ensures
        s.entries_path@ == "/"@,
        s.windows@.len() == 1,
        s.windows@[0].id@ == "primary"@,
        s.windows@[0].field_prefix@ == "primary"@,
        s.windows@[0].start_field is None,
        s.windows@[0].reset_field is None,
        s.windows@[0].start_unit_ms == 1000,
        s.windows@[0].reset_unit_ms == 1,
        !s.windows@[0].reset_is_absolute_epoch,
        s.windows@[0].count_unit is None,
        s.windows@[0].currency is None,
        s.windows@[0].pricing_model_path is None,
        s.error_envelope is None,
{
}

/// A color that is missing beside others is empty, and one that is there is kept.
pub proof fn law_missing_colors_are_empty(color: String)
    ensures
        or_empty(Some(color)) == color@,
        or_empty(None).len() == 0,
{
}

} // verus!
