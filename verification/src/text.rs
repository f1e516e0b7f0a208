//! Text building blocks: decimal numerals, trimming, searching, comparing.
//!
//! A piece of text is modelled by its sequence of characters (`s@`), so every
//! contract in the crate that speaks of text is an equation between sequences.
use crate::natural::Natural;
use vstd::prelude::*;

verus! {

/// `String::push` appends one character.
pub assume_specification[ String::push ](s: &mut String, ch: char)
    ensures
        final(s)@ == old(s)@.push(ch),
;

// ---------------------------------------------------------------------------
// Decimal numerals
// ---------------------------------------------------------------------------

/// The character of a decimal digit.
pub open spec fn digit(d: int) -> char {
    (48 + d) as char
}

/// The decimal numeral of a natural number, without leading zeros.
pub open spec fn numeral(n: nat) -> Seq<char>
    decreases n,
{
    if n < 10 {
        seq![digit(n as int)]
    } else {
        numeral(n / 10).push(digit((n % 10) as int))
    }
}

/// The decimal numeral of an integer, with a leading `-` where it is negative.
pub open spec fn decimal(i: int) -> Seq<char> {
    if i < 0 {
        seq!['-'] + numeral((-i) as nat)
    } else {
        numeral(i as nat)
    }
}

/// Appends the decimal numeral of `n`.
pub fn push_u64(out: &mut String, n: u64)
    ensures
        final(out)@ == old(out)@ + numeral(n as nat),
    decreases n,
{
    if n >= 10 {
        push_u64(out, n / 10);
    }
    let d: u8 = (n % 10) as u8;
    out.push((48 + d) as char);
    assert(out@ =~= old(out)@ + numeral(n as nat));
}

/// Appends the decimal numeral of `i`.
pub fn push_i64(out: &mut String, i: i64)
    ensures
        final(out)@ == old(out)@ + decimal(i as int),
{
    if i < 0 {
        out.push('-');
        push_u64(out, (-(i as i128)) as u64);
        assert(out@ =~= old(out)@ + decimal(i as int));
    } else {
        push_u64(out, i as u64);
    }
}

/// Appends the decimal numeral of a number of any size.
pub fn push_natural(out: &mut String, n: &Natural)
    ensures
        final(out)@ == old(out)@ + numeral(n@),
    decreases n@,
{
    let (rest, d) = n.tenth();
    if Natural::from_u64(10).at_most(n) {
        push_natural(out, &rest);
    }
    out.push((48 + d) as char);
    assert(out@ =~= old(out)@ + numeral(n@));
}

// ---------------------------------------------------------------------------
// Characters and comparison
// ---------------------------------------------------------------------------

/// The characters of `s`, in order.
pub fn chars_of(s: &str) -> (r: Vec<char>)
    ensures
        r@ == s@,
{
    let mut out: Vec<char> = Vec::new();
    for c in it: s.chars()
        invariant
            it.seq() == s@,
            out@ =~= s@.take(it.index() as int),
    {
        out.push(c);
    }
    out
}

/// The text made of `chars[from..to]`.
pub fn text_range(chars: &Vec<char>, from: usize, to: usize) -> (r: String)
    requires
        from <= to <= chars.len(),
    ensures
        r@ == chars@.subrange(from as int, to as int),
{
    let mut out = String::new();
    let mut i: usize = from;
    while i < to
        invariant
            from <= i <= to <= chars.len(),
            out@ =~= chars@.subrange(from as int, i as int),
        decreases to - i,
    {
        out.push(chars[i]);
        i += 1;
    }
    out
}

/// Whether two texts hold the same characters.
pub fn same(a: &str, b: &str) -> (r: bool)
    ensures
        r == (a@ == b@),
{
    a.to_owned() == b.to_owned()
}

/// Whether an optional text is present and equals `b`.
pub fn is_some_text(a: Option<&str>, b: &str) -> (r: bool)
    ensures
        r == (a is Some && a->0@ == b@),
{
    match a {
        Some(t) => same(t, b),
        None => false,
    }
}

/// A copy of an optional text.
pub fn clone_opt(a: &Option<String>) -> (r: Option<String>)
    ensures
        r == *a,
{
    match a {
        Some(t) => Some(t.clone()),
        None => None,
    }
}

/// The view of an optional text.
pub open spec fn opt_view(a: Option<String>) -> Option<Seq<char>> {
    match a {
        Some(t) => Some(t@),
        None => None,
    }
}

/// The view of an optional borrowed text.
pub open spec fn opt_str_view(a: Option<&str>) -> Option<Seq<char>> {
    match a {
        Some(t) => Some(t@),
        None => None,
    }
}

/// An optional text, borrowed.
pub fn opt_str(a: &Option<String>) -> (r: Option<&str>)
    ensures
        opt_str_view(r) == opt_view(*a),
{
    match a {
        Some(s) => Some(s.as_str()),
        None => None,
    }
}

/// `n` copies of one character.
pub open spec fn repeated(c: char, n: nat) -> Seq<char> {
    Seq::new(n, |i: int| c)
}

/// Appends `n` copies of `c`.
pub fn push_repeated(out: &mut String, c: char, n: usize)
    ensures
        final(out)@ == old(out)@ + repeated(c, n as nat),
{
    let mut i: usize = 0;
    while i < n
        invariant
            i <= n,
            out@ =~= old(out)@ + repeated(c, i as nat),
        decreases n - i,
    {
        out.push(c);
        i += 1;
    }
}

// ---------------------------------------------------------------------------
// Trimming
// ---------------------------------------------------------------------------

/// The characters with the Unicode `White_Space` property.
pub open spec fn is_white(c: char) -> bool {
    let u = c as u32;
    ||| 0x9 <= u <= 0xd
    ||| u == 0x20
    ||| u == 0x85
    ||| u == 0xa0
    ||| u == 0x1680
    ||| 0x2000 <= u <= 0x200a
    ||| u == 0x2028
    ||| u == 0x2029
    ||| u == 0x202f
    ||| u == 0x205f
    ||| u == 0x3000
}

/// Whether `c` is white space.
pub fn char_is_white(c: char) -> (r: bool)
    ensures
        r == is_white(c),
{
    let u: u32 = c as u32;
    (0x9 <= u && u <= 0xd) || u == 0x20 || u == 0x85 || u == 0xa0 || u == 0x1680 || (0x2000 <= u
        && u <= 0x200a) || u == 0x2028 || u == 0x2029 || u == 0x202f || u == 0x205f || u == 0x3000
}

/// `s` without the white space it starts with.
pub open spec fn trim_start(s: Seq<char>) -> Seq<char>
    decreases s.len(),
{
    if s.len() > 0 && is_white(s[0]) {
        trim_start(s.drop_first())
    } else {
        s
    }
}

/// `s` without the white space it ends with.
pub open spec fn trim_end(s: Seq<char>) -> Seq<char>
    decreases s.len(),
{
    if s.len() > 0 && is_white(s.last()) {
        trim_end(s.drop_last())
    } else {
        s
    }
}

/// `s` without the white space around it.
pub open spec fn trimmed(s: Seq<char>) -> Seq<char> {
    trim_end(trim_start(s))
}

/// `s` without the white space around it.
pub fn trim(s: &str) -> (r: String)
    ensures
        r@ == trimmed(s@),
{
    let chars = chars_of(s);
    let n: usize = chars.len();
    let mut from: usize = 0;
    assert(chars@.subrange(0, n as int) =~= s@);
    while from < n && char_is_white(chars[from])
        invariant
            n == chars.len(),
            from <= n,
            trim_start(s@) == trim_start(chars@.subrange(from as int, n as int)),
            chars@ == s@,
        decreases n - from,
    {
        assert(chars@.subrange(from as int, n as int).drop_first() =~= chars@.subrange(
            from + 1,
            n as int,
        ));
        from += 1;
    }
    assert(trim_start(s@) == chars@.subrange(from as int, n as int));
    let mut to: usize = n;
    while to > from && char_is_white(chars[to - 1])
        invariant
            n == chars.len(),
            from <= to <= n,
            trimmed(s@) == trim_end(chars@.subrange(from as int, to as int)),
            chars@ == s@,
        decreases to,
    {
        assert(chars@.subrange(from as int, to as int).drop_last() =~= chars@.subrange(
            from as int,
            to - 1,
        ));
        to -= 1;
    }
    text_range(&chars, from, to)
}

/// Cutting white space off the end keeps the start.
proof fn lemma_trim_end_is_prefix(s: Seq<char>)
    ensures
        trim_end(s).len() <= s.len(),
        trim_end(s) == s.take(trim_end(s).len() as int),
        trim_end(s).len() > 0 ==> !is_white(trim_end(s).last()),
    decreases s.len(),
{
    if s.len() > 0 && is_white(s.last()) {
        lemma_trim_end_is_prefix(s.drop_last());
        assert(s.drop_last().take(trim_end(s).len() as int) =~= s.take(trim_end(s).len() as int));
    } else {
        assert(s.take(s.len() as int) =~= s);
    }
}

/// After cutting white space off the start, none stands there.
proof fn lemma_trim_start(s: Seq<char>)
    ensures
        trim_start(s).len() > 0 ==> !is_white(trim_start(s)[0]),
    decreases s.len(),
{
    if s.len() > 0 && is_white(s[0]) {
        lemma_trim_start(s.drop_first());
    }
}

/// A trimmed text neither starts nor ends with white space.
pub proof fn lemma_trimmed_ends(s: Seq<char>)
    ensures
        trimmed(s).len() > 0 ==> !is_white(trimmed(s)[0]) && !is_white(trimmed(s).last()),
{
    lemma_trim_start(s);
    lemma_trim_end_is_prefix(trim_start(s));
}

// ---------------------------------------------------------------------------
// Case
// ---------------------------------------------------------------------------

/// A character with an ASCII capital turned into its small letter.
pub open spec fn lower_char(c: char) -> char {
    if 'A' <= c && c <= 'Z' {
        ((c as int) + 32) as char
    } else {
        c
    }
}

/// A text with its ASCII capitals turned into small letters.
pub open spec fn lowered(s: Seq<char>) -> Seq<char> {
    Seq::new(s.len(), |i: int| lower_char(s[i]))
}

/// A character with an ASCII capital turned into its small letter.
pub fn to_lower(c: char) -> (r: char)
    ensures
        r == lower_char(c),
{
    if 'A' <= c && c <= 'Z' {
        ((c as u8) + 32) as char
    } else {
        c
    }
}

/// `s` with its ASCII capitals turned into small letters.
pub fn lower(s: &str) -> (r: String)
    ensures
        r@ == lowered(s@),
{
    let chars = chars_of(s);
    let mut out = String::new();
    let mut i: usize = 0;
    while i < chars.len()
        invariant
            i <= chars.len(),
            out@.len() == i,
            forall|j: int| 0 <= j < i ==> out@[j] == lower_char(chars@[j]),
        decreases chars.len() - i,
    {
        out.push(to_lower(chars[i]));
        i += 1;
    }
    assert(out@ =~= lowered(s@));
    out
}

// ---------------------------------------------------------------------------
// Searching
// ---------------------------------------------------------------------------

/// Whether `needle` stands in `hay` at position `at`.
pub open spec fn stands_at(hay: Seq<char>, needle: Seq<char>, at: int) -> bool {
    0 <= at && at + needle.len() <= hay.len() && hay.subrange(at, at + needle.len()) == needle
}

/// Whether `needle` stands somewhere in `hay`.
pub open spec fn occurs(hay: Seq<char>, needle: Seq<char>) -> bool {
    exists|at: int| stands_at(hay, needle, at)
}

/// `s` with every occurrence of `pattern` replaced, from left to right.
pub open spec fn replaced(s: Seq<char>, pattern: Seq<char>, with: Seq<char>) -> Seq<char>
    decreases s.len(),
{
    if s.len() == 0 || pattern.len() == 0 {
        s
    } else if stands_at(s, pattern, 0) {
        with + replaced(s.skip(pattern.len() as int), pattern, with)
    } else {
        seq![s[0]] + replaced(s.skip(1), pattern, with)
    }
}

/// Whether `needle` stands in `hay` at position `at`.
pub fn matches_at(hay: &Vec<char>, needle: &Vec<char>, at: usize) -> (r: bool)
    requires
        at <= hay.len(),
    ensures
        r == stands_at(hay@, needle@, at as int),
{
    let n: usize = needle.len();
    if n > hay.len() - at {
        return false;
    }
    let mut i: usize = 0;
    while i < n
        invariant
            n == needle.len(),
            at + n <= hay.len(),
            i <= n,
            forall|j: int| 0 <= j < i ==> hay@[at + j] == needle@[j],
        decreases n - i,
    {
        if hay[at + i] != needle[i] {
            assert(hay@.subrange(at as int, at + n)[i as int] != needle@[i as int]);
            return false;
        }
        i += 1;
    }
    assert(hay@.subrange(at as int, at + n) =~= needle@);
    true
}

/// Whether `needle` stands somewhere in `hay`.
pub fn contains(hay: &Vec<char>, needle: &Vec<char>) -> (r: bool)
    ensures
        r == occurs(hay@, needle@),
{
    let mut at: usize = 0;
    let n: usize = hay.len();
    while at < n
        invariant
            n == hay.len(),
            at <= n,
            forall|j: int| 0 <= j < at ==> !stands_at(hay@, needle@, j),
        decreases n - at,
    {
        if matches_at(hay, needle, at) {
            return true;
        }
        at += 1;
    }
    matches_at(hay, needle, n)
}

/// Whether `s` starts with `prefix`.
pub open spec fn has_prefix(s: Seq<char>, prefix: Seq<char>) -> bool {
    stands_at(s, prefix, 0)
}

/// What follows `prefix` in `s`, where `s` starts with it.
pub fn strip_prefix(s: &str, prefix: &str) -> (r: Option<String>)
    ensures
        match r {
            Some(rest) => has_prefix(s@, prefix@) && s@ == prefix@ + rest@,
            None => !has_prefix(s@, prefix@),
        },
{
    let chars = chars_of(s);
    let head = chars_of(prefix);
    if matches_at(&chars, &head, 0) {
        let r = text_range(&chars, head.len(), chars.len());
        assert(s@ =~= prefix@ + r@);
        Some(r)
    } else {
        None
    }
}

// ---------------------------------------------------------------------------
// Laws
// ---------------------------------------------------------------------------

/// Numerals count in tens: a digit is its own numeral, and ten times a number and a
/// digit is the number's numeral with the digit behind it. A minus sign stands before
/// that of a negative number.
pub proof fn law_numerals_count_in_tens(n: nat, d: int)
    requires
        0 <= d < 10,
    ensures
        numeral(d as nat) == seq![(48 + d) as char],
        n > 0 ==> numeral((10 * n + d) as nat) == numeral(n).push((48 + d) as char),
        decimal(n as int) == numeral(n),
        n > 0 ==> decimal(-n) == seq!['-'] + numeral(n),
{
    if n > 0 {
        assert((10 * n + d) / 10 == n);
        assert((10 * n + d) % 10 == d);
    }
}

/// Trimming takes white space off both ends and nothing else: what is left stands in
/// the text as it was, only white space stands around it, and none at its ends.
pub proof fn law_trimming_takes_only_the_ends(s: Seq<char>) -> (r: (int, int))
    ensures
        0 <= r.0 <= r.1 <= s.len(),
        trimmed(s) == s.subrange(r.0, r.1),
        forall|k: int| 0 <= k < r.0 || r.1 <= k < s.len() ==> is_white(#[trigger] s[k]),
        r.0 < r.1 ==> !is_white(s[r.0]) && !is_white(s[r.1 - 1]),
{
    let from = lemma_trim_start_cut(s);
    let mid = trim_start(s);
    let n = lemma_trim_end_cut(mid);
    lemma_trimmed_ends(s);
    let to = from + n;
    assert(trimmed(s) =~= s.subrange(from, to));
    assert forall|k: int| 0 <= k < from || to <= k < s.len() implies is_white(#[trigger] s[k]) by {
        if k >= to {
            assert(mid[k - from] == s[k]);
        }
    }
    if from < to {
        assert(trimmed(s)[0] == s[from]);
        assert(trimmed(s).last() == s[to - 1]);
    }
    (from, to)
}

proof fn lemma_trim_start_cut(s: Seq<char>) -> (from: int)
    ensures
        0 <= from <= s.len(),
        trim_start(s) == s.skip(from),
        forall|k: int| 0 <= k < from ==> is_white(#[trigger] s[k]),
    decreases s.len(),
{
    if s.len() > 0 && is_white(s[0]) {
        let t = s.drop_first();
        let n = lemma_trim_start_cut(t);
        assert(t.skip(n) =~= s.skip(n + 1));
        assert forall|k: int| 0 <= k < n + 1 implies is_white(#[trigger] s[k]) by {
            if k > 0 {
                assert(t[k - 1] == s[k]);
            }
        }
        n + 1
    } else {
        assert(s.skip(0) =~= s);
        0
    }
}

proof fn lemma_trim_end_cut(s: Seq<char>) -> (to: int)
    ensures
        0 <= to <= s.len(),
        trim_end(s) == s.take(to),
        forall|k: int| to <= k < s.len() ==> is_white(#[trigger] s[k]),
    decreases s.len(),
{
    if s.len() > 0 && is_white(s.last()) {
        let t = s.drop_last();
        let n = lemma_trim_end_cut(t);
        assert(t.take(n) =~= s.take(n));
        assert forall|k: int| n <= k < s.len() implies is_white(#[trigger] s[k]) by {
            if k < t.len() {
                assert(t[k] == s[k]);
            }
        }
        n
    } else {
        assert(s.take(s.len() as int) =~= s);
        s.len() as int
    }
}

/// White space is the blank, the tabulator, the line ends and their kin in Unicode; no
/// printing ASCII character is, nor any other.
pub proof fn law_printing_characters_are_not_white(c: char)
    ensures
        c == ' ' || c == '\t' || c == '\n' || c == '\r' || c == '\u{a0}' ==> is_white(c),
        0x21 <= c as u32 <= 0x7e ==> !is_white(c),
        (c as u32) < 9 || 0x0e <= (c as u32) <= 0x1f ==> !is_white(c),
        c == '\u{0b}' || c == '\u{0c}' || c == '\u{85}' || c == '\u{1680}' || c == '\u{2028}' || c
            == '\u{2029}' || c == '\u{202f}' || c == '\u{205f}' || c == '\u{3000}' ==> is_white(c),
        is_white(c) && c as u32 > 0x3000 ==> false,
        is_white(c) && 0x80 <= (c as u32) < 0x2000 ==> c == '\u{85}' || c == '\u{a0}' || c
            == '\u{1680}',
        0x2000 <= (c as u32) <= 0x3000 ==> (is_white(c) <==> (c as u32) < 0x200b || c == '\u{2028}'
            || c == '\u{2029}' || c == '\u{202f}' || c == '\u{205f}' || c == '\u{3000}'),
{
}

/// Turning a text to small letters changes the ASCII capitals alone, each to its own
/// letter, and doing it twice changes nothing more.
pub proof fn law_only_capitals_are_lowered(s: Seq<char>, i: int)
    requires
        0 <= i < s.len(),
    ensures
        lowered(s).len() == s.len(),
        65 <= s[i] as int <= 90 ==> lowered(s)[i] as int == s[i] as int + 32,
        !(65 <= s[i] as int <= 90) ==> lowered(s)[i] == s[i],
        lowered(lowered(s)) == lowered(s),
{
    assert(lowered(lowered(s)) =~= lowered(s));
}

/// Replacing puts the new text where the pattern stands and leaves the rest: a text
/// without the pattern stays as it is, and one that the pattern begins goes on behind
/// it.
pub proof fn law_replacing_changes_the_pattern_alone(
    s: Seq<char>,
    pattern: Seq<char>,
    with: Seq<char>,
)
    requires
        pattern.len() > 0,
    ensures
        !occurs(s, pattern) ==> replaced(s, pattern, with) == s,
        replaced(pattern + s, pattern, with) == with + replaced(s, pattern, with),
    decreases s.len(),
{
    if !occurs(s, pattern) && s.len() > 0 {
        let t = s.skip(1);
        assert(!stands_at(s, pattern, 0));
        if occurs(t, pattern) {
            let at = choose|at: int| stands_at(t, pattern, at);
            assert(t.subrange(at, at + pattern.len()) =~= s.subrange(at + 1, at + 1 + pattern.len()));
            assert(stands_at(s, pattern, at + 1));
        }
        law_replacing_changes_the_pattern_alone(t, pattern, with);
        assert(seq![s[0]] + t =~= s);
    }
    let all = pattern + s;
    let n = pattern.len() as int;
    assert(all.subrange(0, n) =~= pattern);
    assert(stands_at(all, pattern, 0));
    assert(all.skip(n) =~= s);
}

/// A text stands in another where the other can be cut into what is before it, itself
/// and what is behind it, and the position is that of the cut.
pub proof fn law_standing_is_cutting(a: Seq<char>, needle: Seq<char>, b: Seq<char>, at: int)
    ensures
        stands_at(a + needle + b, needle, a.len() as int),
        stands_at(a, needle, at) ==> a == a.take(at) + needle + a.skip(at + needle.len()),
        occurs(a + needle + b, needle),
        occurs(a, needle) <==> exists|i: int| stands_at(a, needle, i),
{
    let s = a + needle + b;
    let n = a.len() as int;
    assert(s.subrange(n, n + needle.len()) =~= needle);
    assert(stands_at(s, needle, n));
    if stands_at(a, needle, at) {
        assert forall|i: int| 0 <= i < needle.len() implies needle[i] == a[at + i] by {
            assert(a.subrange(at, at + needle.len())[i] == a[at + i]);
        }
        assert(a =~= a.take(at) + needle + a.skip(at + needle.len()));
    }
}

} // verus!
