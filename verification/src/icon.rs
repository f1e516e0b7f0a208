//! The tray icon: its state, its files and its pixels.
//!
//! The icon is a faded full circle, a progress arc whose length is the
//! remaining quota, and a center dot in the color of the state. Hosts that
//! render SVG get a file; the others get pixels.
use crate::burn::BurnResult;
use crate::instance::{join_path, joined};
use crate::natural::Natural;
use crate::provider::RingColors;
use crate::text::{chars_of, digit, numeral, push_u64};
use crate::util::{clamp_pct, padded, push_padded};
use vstd::prelude::*;

verus! {

/// Color of the dot while the network is down.
pub const OFFLINE_COLOR: &'static str = "#9a9996";

/// Width and height of the icon.
pub const ICON_SIZE: u32 = 22;

/// State of a window, in order of significance.
#[derive(Debug, Clone, Copy, PartialEq, Eq, Structural, PartialOrd, Ord)]
pub enum Bucket {
    /// Plenty left.
    Normal,
    /// Much used, or about to run out before the reset.
    Warning,
    /// Nothing left.
    Throttled,
}

/// The state of a window: throttled where nothing is left, a warning where the
/// yellow threshold is reached or the projection runs out early.
pub open spec fn bucket(
    remaining_pct: int,
    throttled: bool,
    yellow: int,
    runs_out: bool,
) -> Bucket {
    if throttled || remaining_pct <= 0 {
        Bucket::Throttled
    } else if 100 - remaining_pct >= yellow || runs_out {
        Bucket::Warning
    } else {
        Bucket::Normal
    }
}

/// Whether an optional projection runs out before the reset.
pub open spec fn runs_out(burn: Option<&BurnResult>) -> bool {
    burn is Some && burn->0.exhaust_before_reset
}

/// The state of a window.
pub fn bucket_for(
    remaining_pct: i64,
    throttled: bool,
    yellow: i64,
    burn: Option<&BurnResult>,
) -> (r: Bucket)
    ensures
        r == bucket(remaining_pct as int, throttled, yellow as int, runs_out(burn)),
{
    if throttled || remaining_pct <= 0 {
        return Bucket::Throttled;
    }
    if 100 - remaining_pct >= yellow {
        return Bucket::Warning;
    }
    match burn {
        Some(b) => if b.exhaust_before_reset {
            Bucket::Warning
        } else {
            Bucket::Normal
        },
        None => Bucket::Normal,
    }
}

/// The dot's color in a state.
pub open spec fn dot_color(b: Bucket, colors: RingColors) -> Seq<char> {
    match b {
        Bucket::Normal => colors.inner.normal@,
        Bucket::Warning => colors.inner.warning@,
        Bucket::Throttled => colors.inner.throttled@,
    }
}

/// The dot's color in a state.
pub fn inner_color_for<'a>(b: Bucket, colors: &'a RingColors) -> (r: &'a str)
    ensures
        r@ == dot_color(b, *colors),
{
    match b {
        Bucket::Normal => colors.inner.normal.as_str(),
        Bucket::Warning => colors.inner.warning.as_str(),
        Bucket::Throttled => colors.inner.throttled.as_str(),
    }
}

/// The ring's color, the same in every state.
pub fn outer_color(colors: &RingColors) -> (r: &str)
    ensures
        r@ == colors.outer@,
{
    colors.outer.as_str()
}

/// The name of a state.
pub fn bucket_name(b: Bucket) -> (r: &'static str)
    ensures
        r@ == (match b {
            Bucket::Normal => "normal"@,
            Bucket::Warning => "warning"@,
            Bucket::Throttled => "throttled"@,
        }),
{
    match b {
        Bucket::Normal => "normal",
        Bucket::Warning => "warning",
        Bucket::Throttled => "throttled",
    }
}

/// The hash of a palette, computed when it was read.
pub fn colors_hash(colors: &RingColors) -> (r: u64)
    ensures
        r == colors.cached_hash,
{
    colors.cached_hash
}

// ---------------------------------------------------------------------------
// Files
// ---------------------------------------------------------------------------

/// The lower-case hexadecimal digit of a number below 16.
pub open spec fn lower_hex(d: int) -> char {
    if d < 10 {
        (48 + d) as char
    } else {
        (87 + d) as char
    }
}

/// The last `places` hexadecimal digits of `n`, leading zeros kept.
pub open spec fn hex_text(n: nat, places: nat) -> Seq<char>
    decreases places,
{
    if places == 0 {
        Seq::empty()
    } else {
        hex_text(n / 16, (places - 1) as nat).push(lower_hex((n % 16) as int))
    }
}

fn push_hex_text(out: &mut String, n: u64, places: u32)
    ensures
        final(out)@ == old(out)@ + hex_text(n as nat, places as nat),
    decreases places,
{
    if places > 0 {
        push_hex_text(out, n / 16, places - 1);
        let d: u8 = (n % 16) as u8;
        if d < 10 {
            out.push((48 + d) as char);
        } else {
            out.push((87 + d) as char);
        }
    }
    assert(out@ =~= old(out)@ + hex_text(n as nat, places as nat));
}

/// The file name of a ring at a percentage.
pub open spec fn ring_file(pct: int, hash: u64) -> Seq<char> {
    "llm-quota-ring-"@ + numeral(clamp_pct(pct) as nat) + "-"@ + hex_text(hash as nat, 16)
        + ".svg"@
}

/// The file of the ring at `pct`, below the directory `dir`. The palette's hash
/// is part of the name, so that an edited palette gets files of its own.
pub fn ring_svg_path(dir: &str, pct: i64, colors: &RingColors) -> (r: String)
    ensures
        r@ == joined(dir@, ring_file(pct as int, colors.cached_hash)),
{
    let clamped: u64 = if pct < 0 {
        0
    } else if pct > 100 {
        100
    } else {
        pct as u64
    };
    let mut out = String::new();
    out.append("llm-quota-ring-");
    push_u64(&mut out, clamped);
    out.append("-");
    push_hex_text(&mut out, colors_hash(colors), 16);
    out.append(".svg");
    assert(out@ =~= ring_file(pct as int, colors.cached_hash));
    join_path(dir, out.as_str())
}

/// The file name of a static icon.
pub open spec fn static_file(name: Seq<char>, hash: u64) -> Seq<char> {
    "llm-quota-"@ + name + "-"@ + hex_text(hash as nat, 16) + ".svg"@
}

/// The file of the static icon `name`, below the directory `dir`.
pub fn static_svg_path(dir: &str, name: &str, colors: &RingColors) -> (r: String)
    ensures
        r@ == joined(dir@, static_file(name@, colors.cached_hash)),
{
    let mut out = String::new();
    out.append("llm-quota-");
    out.append(name);
    out.append("-");
    push_hex_text(&mut out, colors_hash(colors), 16);
    out.append(".svg");
    assert(out@ =~= static_file(name@, colors.cached_hash));
    join_path(dir, out.as_str())
}

proof fn lemma_hex_text(a: nat, b: nat, places: nat)
    requires
        hex_text(a, places) == hex_text(b, places),
    ensures
        a % sixteen_to(places) == b % sixteen_to(places),
    decreases places,
{
    if places > 0 {
        let k = (places - 1) as nat;
        let x = hex_text(a, places);
        let y = hex_text(b, places);
        assert(x.drop_last() =~= hex_text(a / 16, k));
        assert(y.drop_last() =~= hex_text(b / 16, k));
        assert(x.last() == lower_hex((a % 16) as int));
        assert(y.last() == lower_hex((b % 16) as int));
        lemma_hex_text(a / 16, b / 16, k);
        lemma_sixteen_to_positive(k);
        vstd::arithmetic::div_mod::lemma_breakdown(a as int, 16, sixteen_to(k) as int);
        vstd::arithmetic::div_mod::lemma_breakdown(b as int, 16, sixteen_to(k) as int);
    }
}

spec fn sixteen_to(k: nat) -> nat
    decreases k,
{
    if k == 0 {
        1
    } else {
        16 * sixteen_to((k - 1) as nat)
    }
}

proof fn lemma_sixteen_to_positive(k: nat)
    ensures
        sixteen_to(k) > 0,
    decreases k,
{
    if k > 0 {
        lemma_sixteen_to_positive((k - 1) as nat);
    }
}

proof fn lemma_hex_length(n: nat, places: nat)
    ensures
        hex_text(n, places).len() == places,
    decreases places,
{
    if places > 0 {
        lemma_hex_length(n / 16, (places - 1) as nat);
    }
}

proof fn lemma_numeral_length(n: nat)
    ensures
        numeral(n).len() >= 1,
        n >= 10 ==> numeral(n).len() >= 2,
    decreases n,
{
    if n >= 10 {
        lemma_numeral_length(n / 10);
    }
}

proof fn lemma_numeral_is_injective(a: nat, b: nat)
    requires
        numeral(a) == numeral(b),
    ensures
        a == b,
    decreases a,
{
    lemma_numeral_length(a);
    lemma_numeral_length(b);
    assert(numeral(a).last() == digit((a % 10) as int));
    assert(numeral(b).last() == digit((b % 10) as int));
    if a >= 10 {
        assert(numeral(a).drop_last() =~= numeral(a / 10));
        assert(numeral(b).drop_last() =~= numeral(b / 10));
        lemma_numeral_is_injective(a / 10, b / 10);
    }
}

/// A file name is told by what stands before the hash, and by the hash.
proof fn lemma_hashed_name(x: Seq<char>, y: Seq<char>, a: u64, b: u64)
    requires
        x + hex_text(a as nat, 16) + ".svg"@ == y + hex_text(b as nat, 16) + ".svg"@,
    ensures
        x == y,
        a == b,
{
    let ha = hex_text(a as nat, 16);
    let hb = hex_text(b as nat, 16);
    let s = x + ha + ".svg"@;
    let t = y + hb + ".svg"@;
    lemma_hex_length(a as nat, 16);
    lemma_hex_length(b as nat, 16);
    let n = x.len() as int;
    assert(s.len() == n + 16 + ".svg"@.len());
    assert(t.len() == y.len() + 16 + ".svg"@.len());
    assert(s.subrange(n, n + 16) =~= ha);
    assert(t.subrange(n, n + 16) =~= hb);
    assert(s.take(n) =~= x);
    assert(t.take(n) =~= y);
    lemma_hex_text(a as nat, b as nat, 16);
    reveal_with_fuel(sixteen_to, 17);
    assert(sixteen_to(16) == 0x1_0000_0000_0000_0000);
    vstd::arithmetic::div_mod::lemma_small_mod(a as nat, sixteen_to(16));
    vstd::arithmetic::div_mod::lemma_small_mod(b as nat, sixteen_to(16));
}

/// Two rings share a file exactly where they show the same percentage, within
/// 0 to 100, in palettes with the same hash.
pub proof fn law_ring_files_tell_rings_apart(p: int, q: int, a: u64, b: u64)
    ensures
        ring_file(p, a) == ring_file(q, b) <==> clamp_pct(p) == clamp_pct(q) && a == b,
{
    if ring_file(p, a) == ring_file(q, b) {
        let head = "llm-quota-ring-"@;
        let x = head + numeral(clamp_pct(p) as nat) + "-"@;
        let y = head + numeral(clamp_pct(q) as nat) + "-"@;
        lemma_hashed_name(x, y, a, b);
        reveal_strlit("-");
        let from = head.len() as int;
        let to = x.len() - 1;
        assert(x.subrange(from, to) =~= numeral(clamp_pct(p) as nat));
        assert(y.subrange(from, to) =~= numeral(clamp_pct(q) as nat));
        lemma_numeral_is_injective(clamp_pct(p) as nat, clamp_pct(q) as nat);
    }
}

/// Two static icons share a file exactly where they have the same name, in palettes
/// with the same hash.
pub proof fn law_static_files_tell_icons_apart(n: Seq<char>, m: Seq<char>, a: u64, b: u64)
    ensures
        static_file(n, a) == static_file(m, b) <==> n == m && a == b,
{
    if static_file(n, a) == static_file(m, b) {
        let head = "llm-quota-"@;
        let x = head + n + "-"@;
        let y = head + m + "-"@;
        lemma_hashed_name(x, y, a, b);
        reveal_strlit("-");
        let from = head.len() as int;
        let to = x.len() - 1;
        assert(x.subrange(from, to) =~= n);
        assert(y.subrange(from, to) =~= m);
    }
}

// ---------------------------------------------------------------------------
// SVG
// ---------------------------------------------------------------------------

/// The SVG of a solid dot.
pub open spec fn dot_svg(color: Seq<char>) -> Seq<char> {
    "<svg xmlns=\"http://www.w3.org/2000/svg\" viewBox=\"0 0 22 22\" width=\"22\" height=\"22\"><circle cx=\"11\" cy=\"11\" r=\"9\" fill=\""@
        + color + "\"/></svg>"@
}

/// The SVG of a static icon: one solid dot.
pub fn svg_static(color: &str) -> (r: String)
    ensures
        r@ == dot_svg(color@),
{
    let mut out = String::new();
    out.append(
        "<svg xmlns=\"http://www.w3.org/2000/svg\" viewBox=\"0 0 22 22\" width=\"22\" height=\"22\"><circle cx=\"11\" cy=\"11\" r=\"9\" fill=\"",
    );
    out.append(color);
    out.append("\"/></svg>");
    assert(out@ =~= dot_svg(color@));
    out
}

/// The static icons: their names and colors. An error looks like exhaustion.
pub fn static_icons(colors: &RingColors) -> (r: Vec<(&'static str, String)>)
    ensures
        r@.len() == 5,
        r@[0].0@ == "normal"@ && r@[0].1@ == colors.inner.normal@,
        r@[1].0@ == "warning"@ && r@[1].1@ == colors.inner.warning@,
        r@[2].0@ == "throttled"@ && r@[2].1@ == colors.inner.throttled@,
        r@[3].0@ == "error"@ && r@[3].1@ == colors.inner.throttled@,
        r@[4].0@ == "offline"@ && r@[4].1@ == OFFLINE_COLOR@,
{
    let mut v: Vec<(&'static str, String)> = Vec::new();
    v.push(("normal", colors.inner.normal.clone()));
    v.push(("warning", colors.inner.warning.clone()));
    v.push(("throttled", colors.inner.throttled.clone()));
    v.push(("error", colors.inner.throttled.clone()));
    v.push(("offline", OFFLINE_COLOR.to_owned()));
    v
}

/// A file to write: its path and its text.
#[derive(Debug)]
pub struct SvgFile {
    pub path: String,
    pub svg: String,
}

/// The files of the static icons below `dir`.
pub fn write_static_svgs(dir: &str, colors: &RingColors) -> (r: Vec<SvgFile>)
    ensures
        r@.len() == 5,
        r@[0].path@ == joined(dir@, static_file("normal"@, colors.cached_hash)),
        r@[0].svg@ == dot_svg(colors.inner.normal@),
        r@[1].path@ == joined(dir@, static_file("warning"@, colors.cached_hash)),
        r@[1].svg@ == dot_svg(colors.inner.warning@),
        r@[2].path@ == joined(dir@, static_file("throttled"@, colors.cached_hash)),
        r@[2].svg@ == dot_svg(colors.inner.throttled@),
        r@[3].path@ == joined(dir@, static_file("error"@, colors.cached_hash)),
        r@[3].svg@ == dot_svg(colors.inner.throttled@),
        r@[4].path@ == joined(dir@, static_file("offline"@, colors.cached_hash)),
        r@[4].svg@ == dot_svg(OFFLINE_COLOR@),
{
    let icons = static_icons(colors);
    let mut v: Vec<SvgFile> = Vec::new();
    let mut i: usize = 0;
    while i < icons.len()
        invariant
            i <= icons.len(),
            v@.len() == i,
            forall|j: int|
                0 <= j < i ==> (#[trigger] v@[j]).path@ == joined(
                    dir@,
                    static_file(icons@[j].0@, colors.cached_hash),
                ) && v@[j].svg@ == dot_svg(icons@[j].1@),
        decreases icons.len() - i,
    {
        v.push(
            SvgFile {
                path: static_svg_path(dir, icons[i].0, colors),
                svg: svg_static(icons[i].1.as_str()),
            },
        );
        i += 1;
    }
    v
}

/// The circumference of the ring, whose radius is 9, in millionths and to within
/// two of them.
pub const CIRCUMFERENCE: u64 = 56_548_666;

/// The progress arc at a percentage, in hundred-millionths: its share of the
/// circumference less the round cap of half a stroke.
pub open spec fn arc_length(pct: int) -> int {
    let arc = clamp_pct(pct) * CIRCUMFERENCE - 125_000_000;
    if arc < 0 {
        0
    } else {
        arc
    }
}

/// A length in hundred-millionths, to the nearest thousandth.
pub open spec fn length_text(n: int) -> Seq<char> {
    let m = ((n + 50_000) / 100_000) as nat;
    numeral(m / 1000) + "."@ + padded(m, 3)
}

/// The SVG of the ring.
pub open spec fn ring_svg(pct: int, inner: Seq<char>, outer: Seq<char>) -> Seq<char> {
    "<svg xmlns=\"http://www.w3.org/2000/svg\" viewBox=\"0 0 22 22\" width=\"22\" height=\"22\">\n  <circle cx=\"11\" cy=\"11\" r=\"9\" fill=\"none\" stroke=\""@
        + outer
        + "\" stroke-width=\"2.5\" stroke-opacity=\"0.25\"/>\n  <circle cx=\"11\" cy=\"11\" r=\"9\" fill=\"none\" stroke=\""@
        + outer
        + "\" stroke-width=\"2.5\" stroke-linecap=\"round\"\n          stroke-dasharray=\""@
        + length_text(arc_length(pct)) + " "@ + length_text(100 * CIRCUMFERENCE - arc_length(pct))
        + "\" transform=\"rotate(-90 11 11)\"/>\n  <circle cx=\"11\" cy=\"11\" r=\"3.5\" fill=\""@
        + inner + "\"/>\n</svg>"@
}

fn push_length(out: &mut String, n: u64)
    requires
        n <= 10_000_000_000,
    ensures
        final(out)@ == old(out)@ + length_text(n as int),
{
    let m: u64 = (n + 50_000) / 100_000;
    push_u64(out, m / 1000);
    out.append(".");
    push_padded(out, &Natural::from_u64(m), 3);
    assert(out@ =~= old(out)@ + length_text(n as int));
}

/// The SVG of the ring at a percentage: faded track and progress arc in the
/// outer color, center dot in the inner one.
pub fn svg_for(pct: i64, inner_color: &str, outer_color: &str) -> (r: String)
    ensures
        r@ == ring_svg(pct as int, inner_color@, outer_color@),
{
    let clamped: u64 = if pct < 0 {
        0
    } else if pct > 100 {
        100
    } else {
        pct as u64
    };
    let full: u64 = clamped * CIRCUMFERENCE;
    let arc: u64 = if full < 125_000_000 {
        0
    } else {
        full - 125_000_000
    };
    let mut out = String::new();
    out.append(
        "<svg xmlns=\"http://www.w3.org/2000/svg\" viewBox=\"0 0 22 22\" width=\"22\" height=\"22\">\n  <circle cx=\"11\" cy=\"11\" r=\"9\" fill=\"none\" stroke=\"",
    );
    out.append(outer_color);
    out.append(
        "\" stroke-width=\"2.5\" stroke-opacity=\"0.25\"/>\n  <circle cx=\"11\" cy=\"11\" r=\"9\" fill=\"none\" stroke=\"",
    );
    out.append(outer_color);
    out.append(
        "\" stroke-width=\"2.5\" stroke-linecap=\"round\"\n          stroke-dasharray=\"",
    );
    push_length(&mut out, arc);
    out.append(" ");
    push_length(&mut out, 100 * CIRCUMFERENCE - arc);
    out.append(
        "\" transform=\"rotate(-90 11 11)\"/>\n  <circle cx=\"11\" cy=\"11\" r=\"3.5\" fill=\"",
    );
    out.append(inner_color);
    out.append("\"/>\n</svg>");
    assert(out@ =~= ring_svg(pct as int, inner_color@, outer_color@));
    out
}

/// The file of the ring at `pct` in the state `bucket`, below `dir`.
pub fn write_ring_svg(dir: &str, pct: i64, bucket: Bucket, colors: &RingColors) -> (r: SvgFile)
    ensures
        r.path@ == joined(dir@, ring_file(pct as int, colors.cached_hash)),
        r.svg@ == ring_svg(pct as int, dot_color(bucket, *colors), colors.outer@),
{
    SvgFile {
        path: ring_svg_path(dir, pct, colors),
        svg: svg_for(pct, inner_color_for(bucket, colors), outer_color(colors)),
    }
}

/// The two parts of the ring make up the whole circumference at every
/// percentage, and more quota never draws a shorter arc.
pub proof fn law_arc_grows_with_quota(a: int, b: int)
    requires
        a <= b,
    ensures
        0 <= arc_length(a) <= arc_length(b) <= 100 * CIRCUMFERENCE,
{
}

// ---------------------------------------------------------------------------
// Pixels
// ---------------------------------------------------------------------------

/// The value of a hexadecimal digit of either case.
pub open spec fn hex_digit_value(c: char) -> Option<int> {
    if '0' <= c <= '9' {
        Some(c as int - 48)
    } else if 'a' <= c <= 'f' {
        Some(c as int - 87)
    } else if 'A' <= c <= 'F' {
        Some(c as int - 55)
    } else {
        None
    }
}

/// Whether a text is `#` and six hexadecimal digits.
pub open spec fn is_hex_color(s: Seq<char>) -> bool {
    &&& s.len() == 7
    &&& s[0] == '#'
    &&& forall|i: int| 1 <= i < 7 ==> hex_digit_value(#[trigger] s[i]) is Some
}

/// The component of a color whose digits stand at `i` and `i + 1`.
pub open spec fn color_component(s: Seq<char>, i: int) -> int {
    16 * hex_digit_value(s[i])->0 + hex_digit_value(s[i + 1])->0
}

fn digit_of(c: char) -> (r: Option<u8>)
    ensures
        match r {
            Some(d) => hex_digit_value(c) == Some(d as int) && d < 16,
            None => hex_digit_value(c) is None,
        },
{
    let u: u32 = c as u32;
    if 48 <= u && u <= 57 {
        Some((u - 48) as u8)
    } else if 97 <= u && u <= 102 {
        Some((u - 87) as u8)
    } else if 65 <= u && u <= 70 {
        Some((u - 55) as u8)
    } else {
        None
    }
}

/// Red, green and blue of a `#rrggbb` color.
pub fn parse_hex_rgb(s: &str) -> (r: Option<(u8, u8, u8)>)
    ensures
        match r {
            Some(c) => is_hex_color(s@) && c.0 == color_component(s@, 1) && c.1 == color_component(
                s@,
                3,
            ) && c.2 == color_component(s@, 5),
            None => !is_hex_color(s@),
        },
{
    let chars = chars_of(s);
    if chars.len() != 7 || chars[0] != '#' {
        return None;
    }
    let mut digits: Vec<u8> = Vec::new();
    let mut i: usize = 1;
    while i < 7
        invariant
            chars@ == s@,
            chars.len() == 7,
            1 <= i <= 7,
            digits@.len() == i - 1,
            forall|j: int|
                1 <= j < i ==> hex_digit_value(#[trigger] s@[j]) == Some(digits@[j - 1] as int)
                    && digits@[j - 1] < 16,
        decreases 7 - i,
    {
        match digit_of(chars[i]) {
            Some(d) => digits.push(d),
            None => {
                assert(hex_digit_value(s@[i as int]) is None);
                return None;
            },
        }
        i += 1;
    }
    assert(hex_digit_value(s@[1]) is Some && hex_digit_value(s@[2]) is Some && hex_digit_value(
        s@[3],
    ) is Some && hex_digit_value(s@[4]) is Some && hex_digit_value(s@[5]) is Some
        && hex_digit_value(s@[6]) is Some);
    Some(
        (
            16 * digits[0] + digits[1],
            16 * digits[2] + digits[3],
            16 * digits[4] + digits[5],
        ),
    )
}

/// The track's alpha: a quarter of full opacity.
pub fn track_alpha() -> (r: u8)
    ensures
        r == 64,
{
    64
}

/// A color with its alpha.
#[derive(Debug, Clone, Copy, PartialEq, Eq, Structural)]
pub struct Rgba {
    pub r: u8,
    pub g: u8,
    pub b: u8,
    pub a: u8,
}

/// What is drawn, back to front: track, progress arc, center dot.
#[derive(Debug, Clone, Copy, PartialEq, Eq, Structural)]
pub struct RingPaint {
    pub track: Rgba,
    pub arc: Rgba,
    pub dot: Rgba,
    /// Percentage that the arc covers.
    pub pct: i64,
}

/// Whether `c` is the color that a text spells, with the given alpha.
pub open spec fn is_color(c: Rgba, s: Seq<char>, alpha: int) -> bool {
    &&& c.r == color_component(s, 1)
    &&& c.g == color_component(s, 3)
    &&& c.b == color_component(s, 5)
    &&& c.a == alpha
}

/// What to draw for a percentage and a state; nothing where a color cannot be read.
pub fn ring_paint(pct: i64, bucket: Bucket, colors: &RingColors) -> (r: Option<RingPaint>)
    ensures
        match r {
            Some(p) => {
                &&& is_hex_color(colors.outer@)
                &&& is_hex_color(dot_color(bucket, *colors))
                &&& is_color(p.track, colors.outer@, 64)
                &&& is_color(p.arc, colors.outer@, 255)
                &&& is_color(p.dot, dot_color(bucket, *colors), 255)
                &&& p.pct == clamp_pct(pct as int)
            },
            None => !is_hex_color(colors.outer@) || !is_hex_color(dot_color(bucket, *colors)),
        },
{
    let (or, og, ob) = match parse_hex_rgb(outer_color(colors)) {
        Some(c) => c,
        None => return None,
    };
    let (ir, ig, ib) = match parse_hex_rgb(inner_color_for(bucket, colors)) {
        Some(c) => c,
        None => return None,
    };
    Some(
        RingPaint {
            track: Rgba { r: or, g: og, b: ob, a: track_alpha() },
            arc: Rgba { r: or, g: og, b: ob, a: 255 },
            dot: Rgba { r: ir, g: ig, b: ib, a: 255 },
            pct: if pct < 0 {
                0
            } else if pct > 100 {
                100
            } else {
                pct
            },
        },
    )
}

/// Pixels with red and blue exchanged; bytes past the last whole pixel are dropped.
pub open spec fn swapped(data: Seq<u8>) -> Seq<u8> {
    Seq::new(
        (data.len() / 4 * 4) as nat,
        |i: int|
            if i % 4 == 0 {
                data[i + 2]
            } else if i % 4 == 2 {
                data[i - 2]
            } else {
                data[i]
            },
    )
}

/// RGBA pixels in the byte order that tray hosts read: blue, green, red, alpha.
pub fn pixmap_to_bgra(data: &[u8]) -> (r: Vec<u8>)
    ensures
        r@ == swapped(data@),
{
    let n: usize = data.len() / 4;
    let mut out: Vec<u8> = Vec::new();
    let mut i: usize = 0;
    while i < n
        invariant
            n == data.len() / 4,
            i <= n,
            out@.len() == 4 * i,
            forall|j: int| 0 <= j < 4 * i ==> out@[j] == swapped(data@)[j],
        decreases n - i,
    {
        out.push(data[4 * i + 2]);
        out.push(data[4 * i + 1]);
        out.push(data[4 * i]);
        out.push(data[4 * i + 3]);
        i += 1;
    }
    assert(out@ =~= swapped(data@));
    out
}

/// Exchanging red and blue twice gives the pixels back.
pub proof fn law_swap_is_an_involution(data: Seq<u8>)
    requires
        data.len() % 4 == 0,
    ensures
        swapped(swapped(data)) == data,
{
    assert(swapped(swapped(data)) =~= data);
}

/// A percentage brought into 0 to 100 and down to an even number.
pub fn cache_step(pct: i64) -> (r: i64)
    ensures
        r == clamp_pct(pct as int) / 2 * 2,
{
    let clamped: i64 = if pct < 0 {
        0
    } else if pct > 100 {
        100
    } else {
        pct
    };
    clamped / 2 * 2
}

/// The arc is as long as the remaining quota: with the round cap of 1.25 added, one
/// percent of the circumference per percent, wherever that is longer than the cap,
/// and nothing where it is not. Percentages outside 0 to 100 count as the nearer end.
pub proof fn law_arc_is_proportional(pct: int)
    ensures
        0 <= pct <= 100 && pct * CIRCUMFERENCE >= 125_000_000 ==> arc_length(pct) + 125_000_000
            == pct * CIRCUMFERENCE,
        0 <= pct <= 100 && pct * CIRCUMFERENCE < 125_000_000 ==> arc_length(pct) == 0,
        pct < 0 ==> arc_length(pct) == arc_length(0),
        pct > 100 ==> arc_length(pct) == arc_length(100),
        3 <= pct < 100 ==> arc_length(pct + 1) - arc_length(pct) == CIRCUMFERENCE,
        18 * 3_141_592 < CIRCUMFERENCE < 18 * 3_141_593,
{
}

/// A length is written to the nearest thousandth, with three decimals.
pub proof fn law_lengths_are_written_to_a_thousandth(n: int, whole: nat, thousandths: nat)
    requires
        0 <= n,
        thousandths < 1000,
        -50_000 < 100_000 * (1000 * whole + thousandths) - n <= 50_000,
    ensures
        length_text(n) == numeral(whole) + "."@ + seq![
            digit((thousandths / 100) as int),
            digit((thousandths / 10 % 10) as int),
            digit((thousandths % 10) as int),
        ],
{
    let m = (1000 * whole + thousandths) as nat;
    assert((n + 50_000) / 100_000 == m);
    assert(m / 1000 == whole);
    lemma_three_places(whole, thousandths);
}

proof fn lemma_three_places(whole: nat, thousandths: nat)
    requires
        thousandths < 1000,
    ensures
        padded((1000 * whole + thousandths) as nat, 3) == seq![
            digit((thousandths / 100) as int),
            digit((thousandths / 10 % 10) as int),
            digit((thousandths % 10) as int),
        ],
{
    let m = (1000 * whole + thousandths) as nat;
    let a = m / 10;
    let b = a / 10;
    assert(m % 10 == thousandths % 10);
    assert(a == 100 * whole + thousandths / 10);
    assert(a % 10 == thousandths / 10 % 10);
    assert(b == 10 * whole + thousandths / 100);
    assert(b % 10 == thousandths / 100);
    assert(padded(b / 10, 0) =~= Seq::<char>::empty());
    assert(padded(b, 1) =~= seq![digit((b % 10) as int)]);
    assert(padded(a, 2) =~= seq![digit((b % 10) as int), digit((a % 10) as int)]);
    assert(padded(m, 3) =~= seq![
        digit((b % 10) as int),
        digit((a % 10) as int),
        digit((m % 10) as int),
    ]);
}

/// The ring's SVG is the same for every percentage but for the lengths of the arc and of
/// what is left of the circle; and the same for every palette but for the outer color,
/// which stands twice before them, and the inner one, which stands behind them.
pub proof fn law_ring_svg_shows_arc_and_colors(
    p: int,
    q: int,
    inner: Seq<char>,
    outer: Seq<char>,
    other_inner: Seq<char>,
    other_outer: Seq<char>,
) -> (parts: (Seq<char>, Seq<char>, Seq<char>, Seq<char>, Seq<char>))
    ensures
        ({
            let (a, b, c, d, e) = parts;
            let whole = 100 * CIRCUMFERENCE;
            &&& ring_svg(p, inner, outer) == a + outer + b + outer + c + length_text(arc_length(p))
                + " "@ + length_text(whole - arc_length(p)) + d + inner + e
            &&& ring_svg(q, other_inner, other_outer) == a + other_outer + b + other_outer + c
                + length_text(arc_length(q)) + " "@ + length_text(whole - arc_length(q)) + d
                + other_inner + e
        }),
{
    (
        "<svg xmlns=\"http://www.w3.org/2000/svg\" viewBox=\"0 0 22 22\" width=\"22\" height=\"22\">\n  <circle cx=\"11\" cy=\"11\" r=\"9\" fill=\"none\" stroke=\""@,
        "\" stroke-width=\"2.5\" stroke-opacity=\"0.25\"/>\n  <circle cx=\"11\" cy=\"11\" r=\"9\" fill=\"none\" stroke=\""@,
        "\" stroke-width=\"2.5\" stroke-linecap=\"round\"\n          stroke-dasharray=\""@,
        "\" transform=\"rotate(-90 11 11)\"/>\n  <circle cx=\"11\" cy=\"11\" r=\"3.5\" fill=\""@,
        "\"/>\n</svg>"@,
    )
}

/// Two percentages from 3 to 100 never draw the same ring.
pub proof fn law_rings_show_their_percentage(p: int, q: int, inner: Seq<char>, outer: Seq<char>)
    requires
        3 <= p < q <= 100,
    ensures
        length_text(arc_length(p)) != length_text(arc_length(q)),
        ring_svg(p, inner, outer) != ring_svg(q, inner, outer),
{
    let x = arc_length(p);
    let y = arc_length(q);
    let m = ((x + 50_000) / 100_000) as nat;
    let n = ((y + 50_000) / 100_000) as nat;
    assert(m < n);
    let s = length_text(x);
    let t = length_text(y);
    lemma_padded_length(m, 3);
    lemma_padded_length(n, 3);
    reveal_strlit(".");
    if s == t {
        lemma_length_text(m, n);
    }
    let (a, b, c, d, e) = law_ring_svg_shows_arc_and_colors(p, q, inner, outer, inner, outer);
    let head = a + outer + b + outer + c;
    let u = length_text(100 * CIRCUMFERENCE - x);
    let v = length_text(100 * CIRCUMFERENCE - y);
    reveal_strlit(" ");
    if ring_svg(p, inner, outer) == ring_svg(q, inner, outer) {
        let r = ring_svg(p, inner, outer);
        let k = head.len() as int;
        assert(r =~= head + (s + (" "@ + u + d + inner + e)));
        assert(r =~= head + (t + (" "@ + v + d + inner + e)));
        let f = r.skip(k);
        assert(f =~= s + (" "@ + u + d + inner + e));
        assert(f =~= t + (" "@ + v + d + inner + e));
        lemma_no_blank(m);
        lemma_no_blank(n);
        assert(f[s.len() as int] == ' ');
        assert(f[t.len() as int] == ' ');
        if s.len() < t.len() {
            assert(t[s.len() as int] == f[s.len() as int]);
        } else if t.len() < s.len() {
            assert(s[t.len() as int] == f[t.len() as int]);
        }
        assert(f.take(s.len() as int) =~= s);
        assert(f.take(t.len() as int) =~= t);
    }
}

proof fn lemma_padded_length(n: nat, places: nat)
    ensures
        padded(n, places).len() == places,
        forall|i: int| 0 <= i < places ==> 48 <= (#[trigger] padded(n, places)[i]) as int <= 57,
    decreases places,
{
    if places > 0 {
        lemma_padded_length(n / 10, (places - 1) as nat);
    }
}

proof fn lemma_numeral_digits(n: nat)
    ensures
        forall|i: int| 0 <= i < numeral(n).len() ==> 48 <= (#[trigger] numeral(n)[i]) as int <= 57,
    decreases n,
{
    if n >= 10 {
        lemma_numeral_digits(n / 10);
        let s = numeral(n);
        let t = numeral(n / 10);
        assert(s == t.push(digit((n % 10) as int)));
        assert forall|i: int| 0 <= i < s.len() implies 48 <= (#[trigger] s[i]) as int <= 57 by {
            if i < t.len() {
                assert(s[i] == t[i]);
            }
        }
    }
}

/// A length holds no blank.
proof fn lemma_no_blank(m: nat)
    ensures
        forall|i: int|
            0 <= i < (numeral(m / 1000) + "."@ + padded(m, 3)).len() ==> (#[trigger] (numeral(m
                / 1000) + "."@ + padded(m, 3))[i]) != ' ',
{
    lemma_numeral_digits(m / 1000);
    lemma_padded_length(m, 3);
    reveal_strlit(".");
    let s = numeral(m / 1000) + "."@ + padded(m, 3);
    let k = numeral(m / 1000).len() as int;
    assert forall|i: int| 0 <= i < s.len() implies (#[trigger] s[i]) != ' ' by {
        if i < k {
            assert(s[i] == numeral(m / 1000)[i]);
        } else if i > k {
            assert(s[i] == padded(m, 3)[i - k - 1]);
        }
    }
}

/// Lengths that read alike are alike, to the thousandth.
proof fn lemma_length_text(m: nat, n: nat)
    requires
        numeral(m / 1000) + "."@ + padded(m, 3) == numeral(n / 1000) + "."@ + padded(n, 3),
    ensures
        m == n,
{
    lemma_padded_length(m, 3);
    lemma_padded_length(n, 3);
    reveal_strlit(".");
    let s = numeral(m / 1000) + "."@ + padded(m, 3);
    let t = numeral(n / 1000) + "."@ + padded(n, 3);
    let k = s.len() - 4;
    assert(s.take(k) =~= numeral(m / 1000));
    assert(t.take(k) =~= numeral(n / 1000));
    assert(s.skip(k + 1) =~= padded(m, 3));
    assert(t.skip(k + 1) =~= padded(n, 3));
    lemma_numeral_is_injective(m / 1000, n / 1000);
    reveal_with_fuel(padded, 4);
    assert(padded(m, 3)[0] == digit((m / 10 / 10 % 10) as int));
    assert(padded(m, 3)[1] == digit((m / 10 % 10) as int));
    assert(padded(m, 3)[2] == digit((m % 10) as int));
    assert(padded(n, 3)[0] == digit((n / 10 / 10 % 10) as int));
    assert(padded(n, 3)[1] == digit((n / 10 % 10) as int));
    assert(padded(n, 3)[2] == digit((n % 10) as int));
}

/// A window is throttled where nothing is left or it is said to be, in the warning state
/// where the yellow threshold is reached or it runs out early, and normal otherwise; and
/// each state has its own color.
pub proof fn law_states_follow_quota_and_projection(
    pct: int,
    throttled: bool,
    yellow: int,
    early: bool,
    colors: RingColors,
)
    ensures
        ({
            let b = bucket(pct, throttled, yellow, early);
            let empty = throttled || pct <= 0;
            let low = 100 - pct >= yellow || early;
            &&& b == Bucket::Throttled <==> empty
            &&& b == Bucket::Warning <==> !empty && low
            &&& b == Bucket::Normal <==> !empty && !low
        }),
        dot_color(Bucket::Normal, colors) == colors.inner.normal@,
        dot_color(Bucket::Warning, colors) == colors.inner.warning@,
        dot_color(Bucket::Throttled, colors) == colors.inner.throttled@,
{
}

/// A color is six hexadecimal digits of either case behind a `#`; two of them make one
/// component.
pub proof fn law_colors_are_read_by_pairs(s: Seq<char>, d: int, i: int)
    requires
        0 <= d < 16,
    ensures
        d < 10 ==> hex_digit_value((48 + d) as char) == Some(d),
        d >= 10 ==> hex_digit_value((87 + d) as char) == Some(d) && hex_digit_value(
            (55 + d) as char,
        ) == Some(d),
        is_hex_color(s) ==> s.len() == 7 && s[0] == '#',
        is_hex_color(s) && (i == 1 || i == 3 || i == 5) ==> 0 <= color_component(s, i) <= 255
            && color_component(s, i) / 16 == hex_digit_value(s[i])->0 && color_component(s, i) % 16
            == hex_digit_value(s[i + 1])->0,
{
    if is_hex_color(s) && (i == 1 || i == 3 || i == 5) {
        assert(hex_digit_value(s[i]) is Some);
        assert(hex_digit_value(s[i + 1]) is Some);
    }
}

/// Red and blue change places in every whole pixel, green and alpha stay.
pub proof fn law_red_and_blue_change_places(data: Seq<u8>, k: int)
    requires
        0 <= k < data.len() / 4,
    ensures
        swapped(data).len() == data.len() / 4 * 4,
        swapped(data)[4 * k] == data[4 * k + 2],
        swapped(data)[4 * k + 1] == data[4 * k + 1],
        swapped(data)[4 * k + 2] == data[4 * k],
        swapped(data)[4 * k + 3] == data[4 * k + 3],
{
}

/// Everything that is `#` and six hexadecimal digits of either case is a color.
pub proof fn law_six_digits_make_a_color(s: Seq<char>)
    ensures
        is_hex_color(s) <==> s.len() == 7 && s[0] == '#' && (forall|i: int|
            1 <= i < 7 ==> 48 <= (#[trigger] s[i]) as int <= 57 || 65 <= s[i] as int <= 70 || 97
                <= s[i] as int <= 102),
{
    if s.len() == 7 && s[0] == '#' {
        assert forall|i: int| 1 <= i < 7 implies (hex_digit_value(#[trigger] s[i]) is Some <==> (48
            <= s[i] as int <= 57 || 65 <= s[i] as int <= 70 || 97 <= s[i] as int <= 102)) by {}
    }
}

/// The files of rings and static icons are named by what they show and by the palette's
/// hash, as sixteen hexadecimal digits.
pub proof fn law_icon_files_are_named_by_content(pct: int, name: Seq<char>, hash: u64, n: nat, d: int)
    requires
        0 <= d < 16,
    ensures
        0 <= pct <= 100 ==> ring_file(pct, hash) == "llm-quota-ring-"@ + numeral(pct as nat) + "-"@
            + hex_text(hash as nat, 16) + ".svg"@,
        static_file(name, hash) == "llm-quota-"@ + name + "-"@ + hex_text(hash as nat, 16)
            + ".svg"@,
        hex_text(hash as nat, 16).len() == 16,
        d < 10 ==> hex_text((16 * n + d) as nat, 16) == hex_text(n, 15).push((48 + d) as char),
        d >= 10 ==> hex_text((16 * n + d) as nat, 16) == hex_text(n, 15).push((87 + d) as char),
{
    lemma_hex_length(hash as nat, 16);
    assert((16 * n + d) / 16 == n && (16 * n + d) % 16 == d);
}

/// The digits of a color are those of base sixteen, small or capital, and no others.
pub proof fn law_only_hex_digits_have_a_value(c: char)
    ensures
        hex_digit_value(c) is Some <==> 48 <= c as int <= 57 || 65 <= c as int <= 70 || 97 <= c as int
            <= 102,
{
}

/// A static icon is a filled circle in its color on a canvas of 22 by 22. A ring is a
/// faded circle below an arc of the same color, both 2.5 wide and without filling, that
/// starts at the top, with a dot in the middle.
pub proof fn law_icons_are_drawn_on_one_canvas(pct: int, inner: Seq<char>, outer: Seq<char>)
    ensures
        dot_svg(inner)
            == "<svg xmlns=\"http://www.w3.org/2000/svg\" viewBox=\"0 0 22 22\" width=\"22\" height=\"22\"><circle cx=\"11\" cy=\"11\" r=\"9\" fill=\""@
            + inner + "\"/></svg>"@,
        ring_svg(pct, inner, outer)
            == "<svg xmlns=\"http://www.w3.org/2000/svg\" viewBox=\"0 0 22 22\" width=\"22\" height=\"22\">\n  <circle cx=\"11\" cy=\"11\" r=\"9\" fill=\"none\" stroke=\""@
            + outer
            + "\" stroke-width=\"2.5\" stroke-opacity=\"0.25\"/>\n  <circle cx=\"11\" cy=\"11\" r=\"9\" fill=\"none\" stroke=\""@
            + outer
            + "\" stroke-width=\"2.5\" stroke-linecap=\"round\"\n          stroke-dasharray=\""@
            + length_text(arc_length(pct)) + " "@ + length_text(
            5_654_866_600 - arc_length(pct),
        )
            + "\" transform=\"rotate(-90 11 11)\"/>\n  <circle cx=\"11\" cy=\"11\" r=\"3.5\" fill=\""@
            + inner + "\"/>\n</svg>"@,
{
}

} // verus!
