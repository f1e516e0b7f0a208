//! Asking the provider: what goes into a request, and what its reply means.
//!
//! The request itself is made elsewhere; here stand its URL and header, and the
//! way from the raw reply to quota windows or an error fit for the menu.
use crate::burn::Window;
use crate::json::{
    as_integer, as_text, at_pointer, decode, json_at, json_decoded, json_integer, json_of,
    json_text, Json,
};
use crate::parse::{entry_of, is_parsed_plan, parse_plan};
use crate::provider::{auth_header, auth_url, AuthConfig, ErrorEnvelope, PlanShape};
use crate::text::{
    chars_of, contains, decimal, lower_char, lowered, occurs, opt_view, push_i64, stands_at,
    text_range, to_lower,
};
use serde_json::Value;
use vstd::prelude::*;

verus! {

// ---------------------------------------------------------------------------
// The request
// ---------------------------------------------------------------------------

/// Seconds that a request may take.
pub const REQUEST_TIMEOUT_SECONDS: u64 = 15;

/// Seconds that connecting may take.
pub const CONNECT_TIMEOUT_SECONDS: u64 = 10;

/// The User-Agent of every request.
pub fn user_agent(prefix: &str, version: &str) -> (r: String)
    ensures
        r@ == prefix@ + "/"@ + version@,
{
    prefix.to_owned().concat("/").concat(version)
}

/// What a request for the quota consists of.
#[derive(Debug)]
pub struct Request {
    pub url: String,
    /// Name and value of the header that carries the key, where one does.
    pub header: Option<(String, String)>,
}

/// The request for the quota: the key goes into a header or into the URL.
pub fn prepare_request(endpoint: &str, api_key: &str, auth: &AuthConfig) -> (r: Request)
    ensures
        r.url@ == auth_url(*auth, endpoint@, api_key@),
        match r.header {
            Some((name, value)) => name@.len() > 0 && (name@, value@) == auth_header(
                *auth,
                api_key@,
            ),
            None => auth_header(*auth, api_key@).0.len() == 0,
        },
{
    let url = auth.apply_to_endpoint(endpoint, api_key);
    let (name, value) = auth.build(api_key);
    if chars_of(name.as_str()).len() == 0 {
        Request { url, header: None }
    } else {
        Request { url, header: Some((name, value)) }
    }
}

// ---------------------------------------------------------------------------
// Redaction
// ---------------------------------------------------------------------------

/// Characters of an error body that are kept.
pub const SNIPPET_CHARS: usize = 80;

/// What stands in place of a line that may hold a credential.
pub const REDACTED_LINE: &'static str = "[redacted line]";

/// Whether a line holds a word that goes with credentials, in any case.
pub open spec fn is_sensitive(line: Seq<char>) -> bool {
    ||| occurs(lowered(line), "bearer"@)
    ||| occurs(lowered(line), "authorization"@)
    ||| occurs(lowered(line), "api-key"@)
    ||| occurs(lowered(line), "api_key"@)
    ||| occurs(lowered(line), "token"@)
}

/// A line as it may be shown.
pub open spec fn shown_line(line: Seq<char>) -> Seq<char> {
    if is_sensitive(line) {
        "[redacted line]"@
    } else {
        line
    }
}

/// Where the first line of a text ends.
pub open spec fn line_end(s: Seq<char>) -> int
    decreases s.len(),
{
    if s.len() == 0 || s[0] == '\n' {
        0
    } else {
        1 + line_end(s.skip(1))
    }
}

/// The lines of a text, without their line ends.
pub open spec fn lines(s: Seq<char>) -> Seq<Seq<char>>
    decreases s.len(),
{
    let n = line_end(s);
    if 0 <= n < s.len() {
        seq![s.take(n)] + lines(s.skip(n + 1))
    } else {
        seq![s]
    }
}

/// A text with every sensitive line replaced.
pub open spec fn redacted(s: Seq<char>) -> Seq<char>
    decreases s.len(),
{
    let n = line_end(s);
    if 0 <= n < s.len() {
        shown_line(s.take(n)) + seq!['\n'] + redacted(s.skip(n + 1))
    } else {
        shown_line(s)
    }
}

/// The part of an error body that is shown.
pub open spec fn sanitized(raw: Seq<char>) -> Seq<char> {
    redacted(
        if raw.len() > 80 {
            raw.take(80)
        } else {
            raw
        },
    )
}

/// The first line ends at the first line end.
proof fn lemma_line_end(s: Seq<char>, n: int)
    requires
        0 <= n <= s.len(),
        forall|i: int| 0 <= i < n ==> s[i] != '\n',
        n < s.len() ==> s[n] == '\n',
    ensures
        line_end(s) == n,
    decreases n,
{
    if n > 0 {
        let t = s.skip(1);
        assert forall|i: int| 0 <= i < n - 1 implies t[i] != '\n' by {
            assert(t[i] == s[i + 1]);
        }
        lemma_line_end(t, n - 1);
    }
}

/// What stands before the first line end holds none.
proof fn lemma_line_end_bounds(s: Seq<char>)
    ensures
        0 <= line_end(s) <= s.len(),
        forall|i: int| 0 <= i < line_end(s) ==> s[i] != '\n',
        line_end(s) < s.len() ==> s[line_end(s)] == '\n',
    decreases s.len(),
{
    if s.len() > 0 && s[0] != '\n' {
        let t = s.skip(1);
        lemma_line_end_bounds(t);
        assert forall|i: int| 0 <= i < line_end(s) implies s[i] != '\n' by {
            if i > 0 {
                assert(t[i - 1] == s[i]);
            }
        }
    }
}

/// Whether a line holds a word that goes with credentials.
fn sensitive(line: &Vec<char>) -> (r: bool)
    ensures
        r == is_sensitive(line@),
{
    let mut low: Vec<char> = Vec::new();
    let mut i: usize = 0;
    while i < line.len()
        invariant
            i <= line.len(),
            low@.len() == i,
            forall|j: int| 0 <= j < i ==> low@[j] == lower_char(line@[j]),
        decreases line.len() - i,
    {
        low.push(to_lower(line[i]));
        i += 1;
    }
    assert(low@ =~= lowered(line@));
    contains(&low, &chars_of("bearer")) || contains(&low, &chars_of("authorization")) || contains(
        &low,
        &chars_of("api-key"),
    ) || contains(&low, &chars_of("api_key")) || contains(&low, &chars_of("token"))
}

/// Appends a line as it may be shown.
fn flush_line(out: &mut String, line: &str)
    ensures
        final(out)@ == old(out)@ + shown_line(line@),
{
    if sensitive(&chars_of(line)) {
        out.append(REDACTED_LINE);
    } else {
        out.append(line);
    }
}

/// Replaces every sensitive line of a text.
fn redact_credential_lines(chars: &Vec<char>) -> (r: String)
    ensures
        r@ == redacted(chars@),
{
    let mut out = String::new();
    let mut start: usize = 0;
    let mut i: usize = 0;
    assert(chars@.skip(0) =~= chars@);
    while i < chars.len()
        invariant
            start <= i <= chars.len(),
            forall|j: int| start <= j < i ==> chars@[j] != '\n',
            out@ + redacted(chars@.skip(start as int)) =~= redacted(chars@),
        decreases chars.len() - i,
    {
        if chars[i] == '\n' {
            let ghost rest = chars@.skip(start as int);
            let ghost before = out@;
            let line = text_range(chars, start, i);
            proof {
                lemma_line_end(rest, i - start);
                assert(rest.take(i - start) =~= line@);
                assert(rest.skip(i - start + 1) =~= chars@.skip(i + 1));
            }
            flush_line(&mut out, line.as_str());
            out.push('\n');
            assert(out@ + redacted(chars@.skip(i + 1)) =~= before + redacted(rest));
            start = i + 1;
        }
        i += 1;
    }
    let ghost rest = chars@.skip(start as int);
    let line = text_range(chars, start, chars.len());
    proof {
        lemma_line_end(rest, rest.len() as int);
        assert(rest =~= line@);
    }
    flush_line(&mut out, line.as_str());
    out
}

/// The part of an error body that is shown: its first 80 characters, with every
/// line replaced that may hold a credential.
pub fn sanitize_error_snippet(raw: &str) -> (r: String)
    ensures
        r@ == sanitized(raw@),
{
    let chars = chars_of(raw);
    if chars.len() > SNIPPET_CHARS {
        let head = text_range(&chars, 0, SNIPPET_CHARS);
        assert(head@ =~= raw@.take(80));
        redact_credential_lines(&chars_of(head.as_str()))
    } else {
        redact_credential_lines(&chars)
    }
}

/// The replacement is not itself sensitive.
proof fn lemma_replacement_is_harmless()
    ensures
        !is_sensitive("[redacted line]"@),
        forall|i: int| 0 <= i < "[redacted line]"@.len() ==> "[redacted line]"@[i] != '\n',
{
    reveal_strlit("[redacted line]");
    reveal_strlit("bearer");
    reveal_strlit("authorization");
    reveal_strlit("api-key");
    reveal_strlit("api_key");
    reveal_strlit("token");
    let s = lowered("[redacted line]"@);
    assert(s.len() == 15);
    assert forall|at: int| !stands_at(s, "bearer"@, at) by {
        if stands_at(s, "bearer"@, at) {
            assert(s.subrange(at, at + 6)[0] == 'b');
            assert(s[at] == 'b');
        }
    }
    assert forall|at: int| !stands_at(s, "authorization"@, at) by {
        if stands_at(s, "authorization"@, at) {
            assert(s.subrange(at, at + 13)[1] == 'u');
            assert(s[at + 1] == 'u');
        }
    }
    assert forall|at: int| !stands_at(s, "api-key"@, at) by {
        if stands_at(s, "api-key"@, at) {
            assert(s.subrange(at, at + 7)[1] == 'p');
            assert(s[at + 1] == 'p');
        }
    }
    assert forall|at: int| !stands_at(s, "api_key"@, at) by {
        if stands_at(s, "api_key"@, at) {
            assert(s.subrange(at, at + 7)[1] == 'p');
            assert(s[at + 1] == 'p');
        }
    }
    assert forall|at: int| !stands_at(s, "token"@, at) by {
        if stands_at(s, "token"@, at) {
            assert(s.subrange(at, at + 5)[1] == 'o');
            assert(s[at + 1] == 'o');
        }
    }
}

/// Redaction works line by line: sensitive lines are replaced as a whole, all
/// others stay as they are, and no line of the result is sensitive.
pub proof fn law_redaction_is_line_by_line(s: Seq<char>)
    ensures
        lines(redacted(s)).len() == lines(s).len(),
        forall|i: int|
            0 <= i < lines(s).len() ==> lines(redacted(s))[i] == shown_line(#[trigger] lines(s)[i]),
        forall|i: int|
            0 <= i < lines(redacted(s)).len() ==> !is_sensitive(#[trigger] lines(redacted(s))[i]),
    decreases s.len(),
{
    lemma_replacement_is_harmless();
    lemma_line_end_bounds(s);
    let n = line_end(s);
    if n < s.len() {
        let head = s.take(n);
        let tail = s.skip(n + 1);
        let r = redacted(s);
        let shown = shown_line(head);
        law_redaction_is_line_by_line(tail);
        assert forall|i: int| 0 <= i < shown.len() implies r[i] != '\n' by {
            assert(r[i] == shown[i]);
            if !is_sensitive(head) {
                assert(shown[i] == s[i]);
            }
        }
        assert(r[shown.len() as int] == '\n');
        lemma_line_end(r, shown.len() as int);
        assert(r.take(shown.len() as int) =~= shown);
        assert(r.skip(shown.len() as int + 1) =~= redacted(tail));
        assert(lines(r) == seq![shown] + lines(redacted(tail)));
        assert(lines(s) == seq![head] + lines(tail));
        assert forall|i: int| 0 <= i < lines(s).len() implies lines(r)[i] == shown_line(
            #[trigger] lines(s)[i],
        ) by {
            if i > 0 {
                assert(lines(s)[i] == lines(tail)[i - 1]);
                assert(lines(r)[i] == lines(redacted(tail))[i - 1]);
            }
        }
        assert forall|i: int| 0 <= i < lines(r).len() implies !is_sensitive(
            #[trigger] lines(r)[i],
        ) by {
            if i > 0 {
                assert(lines(r)[i] == lines(redacted(tail))[i - 1]);
            }
        }
    } else {
        let r = shown_line(s);
        lemma_line_end(r, r.len() as int);
    }
}

/// A word without line ends that stands in a text stands in one of its lines.
proof fn lemma_words_stand_in_lines(s: Seq<char>, word: Seq<char>)
    requires
        occurs(lowered(s), word),
        word.len() > 0,
        forall|i: int| 0 <= i < word.len() ==> word[i] != '\n',
    ensures
        exists|i: int|
            0 <= i < lines(s).len() && occurs(lowered(#[trigger] lines(s)[i]), word),
    decreases s.len(),
{
    lemma_line_end_bounds(s);
    let n = line_end(s);
    if n < s.len() {
        let head = s.take(n);
        let tail = s.skip(n + 1);
        let at = choose|at: int| stands_at(lowered(s), word, at);
        let end = at + word.len();
        assert(lines(s) == seq![head] + lines(tail));
        if end <= n {
            assert(lowered(head).subrange(at, end) =~= lowered(s).subrange(at, end));
            assert(stands_at(lowered(head), word, at));
            assert(lines(s)[0] == head);
        } else if at > n {
            let k = at - (n + 1);
            assert(lowered(tail).subrange(k, k + word.len()) =~= lowered(s).subrange(at, end));
            assert(stands_at(lowered(tail), word, k));
            lemma_words_stand_in_lines(tail, word);
            let j = choose|j: int|
                0 <= j < lines(tail).len() && occurs(lowered(#[trigger] lines(tail)[j]), word);
            assert(lines(s)[j + 1] == lines(tail)[j]);
        } else {
            assert(lowered(s).subrange(at, end)[n - at] == lowered(s)[n]);
            assert(lowered(s)[n] == '\n');
            assert(word[n - at] == '\n');
        }
    } else {
        assert(lines(s)[0] == s);
    }
}

/// Nothing that goes with a credential is shown: no line of what is shown of a
/// body, nor all of it together, holds one of the words, in any case.
pub proof fn law_no_credential_word_survives(raw: Seq<char>)
    ensures
        !is_sensitive(sanitized(raw)),
        forall|i: int|
            0 <= i < lines(sanitized(raw)).len() ==> !is_sensitive(
                #[trigger] lines(sanitized(raw))[i],
            ),
{
    let shown = if raw.len() > 80 {
        raw.take(80)
    } else {
        raw
    };
    law_redaction_is_line_by_line(shown);
    let r = sanitized(raw);
    reveal_strlit("bearer");
    reveal_strlit("authorization");
    reveal_strlit("api-key");
    reveal_strlit("api_key");
    reveal_strlit("token");
    if occurs(lowered(r), "bearer"@) {
        lemma_words_stand_in_lines(r, "bearer"@);
    }
    if occurs(lowered(r), "authorization"@) {
        lemma_words_stand_in_lines(r, "authorization"@);
    }
    if occurs(lowered(r), "api-key"@) {
        lemma_words_stand_in_lines(r, "api-key"@);
    }
    if occurs(lowered(r), "api_key"@) {
        lemma_words_stand_in_lines(r, "api_key"@);
    }
    if occurs(lowered(r), "token"@) {
        lemma_words_stand_in_lines(r, "token"@);
    }
}

/// A body without sensitive words is shown as it is, up to its length.
pub proof fn law_harmless_text_is_kept(s: Seq<char>)
    requires
        forall|i: int| 0 <= i < lines(s).len() ==> !is_sensitive(#[trigger] lines(s)[i]),
    ensures
        redacted(s) == s,
    decreases s.len(),
{
    lemma_line_end_bounds(s);
    let n = line_end(s);
    if n < s.len() {
        let tail = s.skip(n + 1);
        assert(lines(s)[0] == s.take(n));
        assert forall|i: int| 0 <= i < lines(tail).len() implies !is_sensitive(
            #[trigger] lines(tail)[i],
        ) by {
            assert(lines(s)[i + 1] == lines(tail)[i]);
        }
        law_harmless_text_is_kept(tail);
        assert(redacted(s) =~= s);
    } else {
        assert(lines(s)[0] == s);
    }
}

// ---------------------------------------------------------------------------
// The reply
// ---------------------------------------------------------------------------

/// What came back from a request.
#[derive(Debug)]
pub enum Reply {
    /// No reply at all.
    Unreachable,
    /// A status other than success, with the body as text.
    Refused { status: String, body: String },
    /// Success, but the body could not be received.
    Incomplete,
    /// Success, with the raw body.
    Answered { bytes: Vec<u8> },
}

/// Why there are no windows.
#[derive(Debug)]
pub enum FetchError {
    Unreachable,
    Status { status: String, snippet: String },
    Decoding,
    Provider { message: String },
    Parsing { path: String },
}

impl FetchError {
    /// The error as it is shown.
    pub open spec fn text(&self) -> Seq<char> {
        match *self {
            FetchError::Unreachable => "HTTP request"@,
            FetchError::Status { status, snippet } => "HTTP "@ + status@ + ": "@ + snippet@,
            FetchError::Decoding => "decoding JSON body"@,
            FetchError::Provider { message } => message@,
            FetchError::Parsing { path } => "parsing payload"@,
        }
    }

    /// The error as it is shown.
    pub fn message(&self) -> (r: String)
        ensures
            r@ == self.text(),
    {
        match self {
            FetchError::Unreachable => "HTTP request".to_owned(),
            FetchError::Status { status, snippet } => "HTTP ".to_owned().concat(
                status.as_str(),
            ).concat(": ").concat(snippet.as_str()),
            FetchError::Decoding => "decoding JSON body".to_owned(),
            FetchError::Provider { message } => message.clone(),
            FetchError::Parsing { path } => "parsing payload".to_owned(),
        }
    }
}

/// The error that a status code and its message make; none where the code means
/// success.
pub open spec fn envelope_text(
    code: int,
    message: Option<Seq<char>>,
    success_codes: Seq<i64>,
) -> Option<Seq<char>> {
    if success_codes.contains(code as i64) {
        None
    } else {
        Some(
            "API error "@ + decimal(code) + ": "@ + (match message {
                Some(m) => m,
                None => "unknown error"@,
            }),
        )
    }
}

/// The error that a status code and its message make.
pub fn envelope_message(code: i64, message: Option<&str>, success_codes: &Vec<i64>) -> (r: Option<
    String,
>)
    ensures
        opt_view(r) == envelope_text(
            code as int,
            crate::text::opt_str_view(message),
            success_codes@,
        ),
{
    let mut i: usize = 0;
    while i < success_codes.len()
        invariant
            i <= success_codes.len(),
            forall|j: int| 0 <= j < i ==> success_codes@[j] != code,
        decreases success_codes.len() - i,
    {
        if success_codes[i] == code {
            assert(success_codes@.contains(code));
            return None;
        }
        i += 1;
    }
    let mut out = "API error ".to_owned();
    push_i64(&mut out, code);
    out.append(": ");
    match message {
        Some(m) => out.append(m),
        None => out.append("unknown error"),
    }
    Some(out)
}

/// The error that a reply carries in its body, where the provider reports errors
/// there.
pub open spec fn envelope_of(body: Json, envelope: Option<ErrorEnvelope>) -> Option<Seq<char>> {
    match envelope {
        Some(env) => match json_at(body, env.code_path@) {
            Some(c) => match json_integer(c) {
                Some(code) => envelope_text(
                    code as int,
                    match json_at(body, env.message_path@) {
                        Some(m) => json_text(m),
                        None => None,
                    },
                    env.success_codes@,
                ),
                None => None,
            },
            None => None,
        },
        None => None,
    }
}

/// An optional reference as an optional value.
pub open spec fn envelope_value(envelope: Option<&ErrorEnvelope>) -> Option<ErrorEnvelope> {
    match envelope {
        Some(e) => Some(*e),
        None => None,
    }
}

/// The error that a reply carries in its body.
pub fn envelope_error(body: &Value, envelope: Option<&ErrorEnvelope>) -> (r: Option<String>)
    ensures
        opt_view(r) == envelope_of(json_of(*body), envelope_value(envelope)),
{
    let env = match envelope {
        Some(e) => e,
        None => return None,
    };
    let code: i64 = match at_pointer(body, env.code_path.as_str()) {
        Some(c) => match as_integer(c) {
            Some(i) => i,
            None => return None,
        },
        None => return None,
    };
    let message = match at_pointer(body, env.message_path.as_str()) {
        Some(m) => as_text(m),
        None => None,
    };
    envelope_message(code, message, &env.success_codes)
}

/// Whether `r` is what a decoded body means: the provider's own error first, then
/// the windows, where there is an entry to read them from.
pub open spec fn reads_body(
    r: Result<Vec<Window>, FetchError>,
    body: Json,
    shape: PlanShape,
    now: int,
) -> bool {
    match envelope_of(body, shape.error_envelope) {
        Some(text) => match r {
            Err(FetchError::Provider { message }) => message@ == text,
            _ => false,
        },
        None => match entry_of(body, shape.entries_path@) {
            Some(entry) => match r {
                Ok(windows) => is_parsed_plan(windows@, entry, shape.windows@, now),
                _ => false,
            },
            None => match r {
                Err(FetchError::Parsing { path }) => path@ == shape.entries_path@,
                _ => false,
            },
        },
    }
}

/// The windows in a decoded body, or why there are none.
pub fn read_body(body: &Value, shape: &PlanShape, now_ms: i64) -> (r: Result<
    Vec<Window>,
    FetchError,
>)
    ensures
        reads_body(r, json_of(*body), *shape, now_ms as int),
{
    match envelope_error(body, shape.error_envelope.as_ref()) {
        Some(message) => Err(FetchError::Provider { message }),
        None => match parse_plan(body, shape, now_ms) {
            Ok(windows) => Ok(windows),
            Err(crate::parse::ParseError::MissingEntry { path }) => Err(
                FetchError::Parsing { path },
            ),
        },
    }
}

/// Whether `r` is what a reply means.
pub open spec fn reads_reply(
    r: Result<Vec<Window>, FetchError>,
    reply: Reply,
    shape: PlanShape,
    now: int,
) -> bool {
    match reply {
        Reply::Unreachable => r matches Err(FetchError::Unreachable),
        Reply::Refused { status, body } => match r {
            Err(FetchError::Status { status: s, snippet }) => s@ == status@ && snippet@
                == sanitized(body@),
            _ => false,
        },
        Reply::Incomplete => r matches Err(FetchError::Decoding),
        Reply::Answered { bytes } => match json_decoded(bytes@) {
            Some(v) => reads_body(r, v, shape, now),
            None => r matches Err(FetchError::Decoding),
        },
    }
}

/// The windows in a reply, or why there are none.
pub fn read_reply(reply: &Reply, shape: &PlanShape, now_ms: i64) -> (r: Result<
    Vec<Window>,
    FetchError,
>)
    ensures
        reads_reply(r, *reply, *shape, now_ms as int),
{
    match reply {
        Reply::Unreachable => Err(FetchError::Unreachable),
        Reply::Refused { status, body } => Err(
            FetchError::Status {
                status: status.clone(),
                snippet: sanitize_error_snippet(body.as_str()),
            },
        ),
        Reply::Incomplete => Err(FetchError::Decoding),
        Reply::Answered { bytes } => match decode(bytes.as_slice()) {
            Some(v) => read_body(&v, shape, now_ms),
            None => Err(FetchError::Decoding),
        },
    }
}

/// A body in which the provider reports an error never yields windows, whatever
/// else it holds.
pub proof fn law_reported_errors_win(
    r: Result<Vec<Window>, FetchError>,
    body: Json,
    shape: PlanShape,
    now: int,
)
    requires
        reads_body(r, body, shape, now),
        envelope_of(body, shape.error_envelope) is Some,
    ensures
        r is Err,
{
}

/// None of the words that go with credentials is shown, in any case.
pub proof fn law_credential_words_are_not_shown(raw: Seq<char>)
    ensures
        !occurs(lowered(sanitized(raw)), "bearer"@),
        !occurs(lowered(sanitized(raw)), "authorization"@),
        !occurs(lowered(sanitized(raw)), "api-key"@),
        !occurs(lowered(sanitized(raw)), "api_key"@),
        !occurs(lowered(sanitized(raw)), "token"@),
{
    law_no_credential_word_survives(raw);
}

/// A body of one line is shown as it is up to 80 characters, unless one of the words
/// stands in those: then nothing of it is.
pub proof fn law_a_line_is_shown_or_replaced(raw: Seq<char>)
    requires
        !raw.contains('\n'),
    ensures
        ({
            let head = if raw.len() > 80 {
                raw.take(80)
            } else {
                raw
            };
            let low = lowered(head);
            let sensitive = occurs(low, "bearer"@) || occurs(low, "authorization"@) || occurs(
                low,
                "api-key"@,
            ) || occurs(low, "api_key"@) || occurs(low, "token"@);
            &&& !sensitive ==> sanitized(raw) == head
            &&& sensitive ==> sanitized(raw) == "[redacted line]"@
        }),
{
    let head = if raw.len() > 80 {
        raw.take(80)
    } else {
        raw
    };
    assert forall|i: int| 0 <= i < head.len() implies head[i] != '\n' by {
        assert(raw.contains(raw[i]));
    }
    lemma_line_end(head, head.len() as int);
}

/// Lines are redacted one by one: what stands before a line end does not change what is
/// shown behind it.
pub proof fn law_lines_are_redacted_apart(line: Seq<char>, rest: Seq<char>)
    requires
        !line.contains('\n'),
    ensures
        redacted(line + seq!['\n'] + rest) == redacted(line) + seq!['\n'] + redacted(rest),
{
    let s = line + seq!['\n'] + rest;
    let n = line.len() as int;
    assert forall|i: int| 0 <= i < n implies s[i] != '\n' by {
        assert(s[i] == line[i]);
        assert(line.contains(line[i]));
    }
    assert(s[n] == '\n');
    lemma_line_end(s, n);
    assert forall|i: int| 0 <= i < n implies line[i] != '\n' by {
        assert(line.contains(line[i]));
    }
    lemma_line_end(line, n);
    assert(s.take(n) =~= line);
    assert(s.skip(n + 1) =~= rest);
}

/// A code that means success is no error, whatever the message; any other is one, with
/// the code and the message in it.
pub proof fn law_codes_other_than_success_are_errors(
    code: i64,
    message: Seq<char>,
    codes: Seq<i64>,
)
    ensures
        codes.contains(code) ==> envelope_text(code as int, Some(message), codes) is None
            && envelope_text(code as int, None, codes) is None,
        !codes.contains(code) ==> envelope_text(code as int, Some(message), codes) == Some(
            "API error "@ + decimal(code as int) + ": "@ + message,
        ) && envelope_text(code as int, None, codes) == Some(
            "API error "@ + decimal(code as int) + ": "@ + "unknown error"@,
        ),
{
}

/// A provider that reports its errors in the body does so by an integer under the
/// configured path; without that path or integer there is no error.
pub proof fn law_errors_are_read_from_their_path(body: Json, env: ErrorEnvelope)
    ensures
        envelope_of(body, None) is None,
        json_at(body, env.code_path@) is None ==> envelope_of(body, Some(env)) is None,
        json_at(body, env.code_path@) matches Some(c) ==> (json_integer(c) is None ==> envelope_of(
            body,
            Some(env),
        ) is None),
        json_at(body, env.code_path@) matches Some(c) ==> (json_integer(c) matches Some(code) ==> {
            let text = match json_at(body, env.message_path@) {
                Some(m) => json_text(m),
                None => None,
            };
            envelope_of(body, Some(env)) == envelope_text(code as int, text, env.success_codes@)
        }),
{
}

/// Each kind of reply has its own outcome: no reply, a refusal with its status and what
/// may be shown of its body, a body that is no JSON, and one that is, read as such.
pub proof fn law_replies_are_told_apart(
    r: Result<Vec<Window>, FetchError>,
    reply: Reply,
    shape: PlanShape,
    now: int,
)
    requires
        reads_reply(r, reply, shape, now),
    ensures
        reply is Unreachable ==> (r matches Err(e) && e.text() == "HTTP request"@),
        reply matches Reply::Refused { status, body } ==> (r matches Err(e) && e.text() == "HTTP "@
            + status@ + ": "@ + sanitized(body@)),
        reply is Incomplete ==> (r matches Err(e) && e.text() == "decoding JSON body"@),
        reply matches Reply::Answered { bytes } ==> (json_decoded(bytes@) is None ==> (
        r matches Err(e) && e.text() == "decoding JSON body"@)),
        reply matches Reply::Answered { bytes } ==> (json_decoded(bytes@) matches Some(v) ==> {
            &&& envelope_of(v, shape.error_envelope) matches Some(text) ==> (r matches Err(e)
                && e.text() == text)
            &&& envelope_of(v, shape.error_envelope) is None && entry_of(v, shape.entries_path@) is None
                ==> (r matches Err(e) && e.text() == "parsing payload"@)
            &&& envelope_of(v, shape.error_envelope) is None && entry_of(v, shape.entries_path@) is Some
                ==> (r matches Ok(windows) && windows@.len() == shape.windows@.len())
        }),
        r is Ok ==> reply is Answered,
{
}

} // verus!
