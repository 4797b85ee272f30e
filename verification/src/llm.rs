//! LLM refinement over any OpenAI-compatible chat endpoint: the decisions
//! around one chat completion. Which URL is called, with which credentials
//! and timeout, which error the user reads for each way the exchange can
//! fail, and how the reply text is cleaned. The HTTP exchange itself is the
//! caller's; it hands back what came over the wire.
use vstd::prelude::*;
use vstd::string::StringExecFns;
use vstd::utf8::{encode_utf8, encode_scalar, has_width_1_encoding, has_width_2_encoding, has_width_3_encoding};
use crate::profiles::{LlmProfile, LlmProviderKind};
use crate::strs::{
    find_first, find_first_exec, find_last, find_last_exec, lemma_find_from_some, occurs_at,
    lemma_find_last_from_some, from_chars, slice_to_vec, starts_with,
    to_chars, trim, trim_bounds, trim_class, trim_end_class, trim_str, CharClass,
};

verus! {

/// Shortest request timeout, in seconds, whatever the profile says.
pub const MIN_TIMEOUT_SECS: u64 = 5;

/// Bytes of a raw error body quoted in a message.
pub const ERROR_BODY_QUOTE_BYTES: usize = 200;

/// System prompt of the connectivity check.
pub const PING_SYSTEM: &'static str = "You are a connectivity check. Reply with exactly: OK";

/// User message of the connectivity check.
pub const PING_USER: &'static str = "ping";

/// Outcome of a connectivity check, shown in settings.
#[derive(Debug, Clone, PartialEq, Eq)]
pub struct LlmTestResult {
    pub ok: bool,
    pub message: String,
}

// ---------------------------------------------------------------------------
// Endpoint URLs.
// ---------------------------------------------------------------------------

/// The endpoint root as entered: trimmed, without trailing slashes.
pub open spec fn endpoint_base(base_url: Seq<char>) -> Seq<char> {
    trim_end_class(trim(base_url), CharClass::Slash)
}

/// The base names a path: after its `://` there is another `/`.
pub open spec fn has_path(base: Seq<char>) -> bool {
    match find_first(base, "://"@) {
        Some(k) => base.skip(k + 3).contains('/'),
        None => false,
    }
}

pub open spec fn chat_completions_url_spec(base_url: Seq<char>) -> Seq<char> {
    let base = endpoint_base(base_url);
    if has_path(base) {
        base + "/chat/completions"@
    } else {
        base + "/v1/chat/completions"@
    }
}

fn endpoint_base_exec(base_url: &str) -> (r: Vec<char>)
    ensures
        r@ == endpoint_base(base_url@),
{
    let t = trim_str(base_url);
    let v = to_chars(t.as_str());
    let (_lo, hi) = trim_bounds(v.as_slice(), CharClass::Slash);
    let b = slice_to_vec(v.as_slice(), 0, hi);
    assert(b@ =~= trim_end_class(t@, CharClass::Slash));
    b
}

/// Joins the user's endpoint root with `/chat/completions`. A bare origin
/// gets the conventional `/v1` inserted (`http://host:11434` becomes
/// `http://host:11434/v1/chat/completions`); any explicit path is kept as it
/// is, since version segments differ per provider.
pub fn chat_completions_url(base_url: &str) -> (r: String)
    ensures
        r@ == chat_completions_url_spec(base_url@),
{
    let mut base = endpoint_base_exec(base_url);
    let sep: Vec<char> = vec![':', '/', '/'];
    proof {
        reveal_strlit("://");
        assert(sep@ =~= "://"@);
    }
    let mut path = false;
    let blen = base.len();
    let found = find_first_exec(base.as_slice(), sep.as_slice());
    proof {
        lemma_find_from_some(base@, sep@, 0);
    }
    match found {
        Some(k) => {
            proof {
                let kk = find_first(base@, sep@)->0;
                assert(occurs_at(base@, sep@, kk));
                assert(kk == k as int);
            }
            assert(sep@.len() == 3);
            let mut j = k + 3;
            let ghost rest = base@.skip(k + 3);
            while j < base.len()
                invariant
                    k + 3 <= j <= base@.len(),
                    rest == base@.skip(k + 3),
                    path ==> rest.contains('/'),
                    !path ==> forall|m: int| k + 3 <= m < j ==> base@[m] != '/',
                decreases base@.len() - j,
            {
                if base[j] == '/' {
                    assert(rest[j - k - 3] == '/');
                    path = true;
                }
                j = j + 1;
            }
            proof {
                if !path {
                    assert forall|m: int| 0 <= m < rest.len() implies rest[m] != '/' by {
                        assert(rest[m] == base@[m + k + 3]);
                    }
                }
            }
        },
        None => {},
    }
    assert(path == has_path(base@));
    let ghost b = base@;
    let tail = if path {
        "/chat/completions"
    } else {
        "/v1/chat/completions"
    };
    let tv = to_chars(tail);
    let mut i: usize = 0;
    while i < tv.len()
        invariant
            i <= tv@.len(),
            base@ == b + tv@.take(i as int),
        decreases tv@.len() - i,
    {
        base.push(tv[i]);
        i = i + 1;
        assert(base@ =~= b + tv@.take(i as int));
    }
    assert(tv@.take(i as int) =~= tv@);
    from_chars(base.as_slice())
}

/// `GET /api/tags` on an Ollama server: the endpoint root, trimmed and
/// without trailing slashes, followed by `/api/tags`.
pub fn ollama_tags_url(base_url: &str) -> (r: String)
    ensures
        r@ == endpoint_base(base_url@) + "/api/tags"@,
{
    let base = endpoint_base_exec(base_url);
    let mut s = from_chars(base.as_slice());
    s.append("/api/tags");
    s
}

// ---------------------------------------------------------------------------
// Planning one chat completion.
// ---------------------------------------------------------------------------

/// What to send for one chat completion. The request body is the model, a
/// system and a user message, a low fixed temperature and `stream: false`.
#[derive(Debug, Clone, PartialEq, Eq)]
pub struct ChatPlan {
    pub url: String,
    pub model: String,
    /// Bearer token, where the profile has a key.
    pub bearer: Option<String>,
    pub timeout_secs: u64,
    pub system: String,
    pub user: String,
}

/// Why a chat completion failed before a reply arrived, as the caller
/// observed it.
#[derive(Debug, Clone, PartialEq, Eq)]
pub enum ChatFailure {
    /// The request did not complete within the timeout.
    Timeout,
    /// No connection to the endpoint.
    Connect,
    /// Another transport error, by its message.
    Request(String),
    /// The body could not be read, by its message.
    Body(String),
    /// A non-success status: the status line, the `error.message` of a JSON
    /// error body where there was one, and the raw body.
    Status { status: String, api_message: Option<String>, raw: String },
    /// A success body that is not a chat completion, by the parser's message.
    Shape(String),
}

pub open spec fn plan_ok(cfg: LlmProfile, system: Seq<char>, user: Seq<char>, p: ChatPlan) -> bool {
    &&& p.url@ == chat_completions_url_spec(cfg.base_url@)
    &&& p.model@ == cfg.model@
    &&& (trim(cfg.api_key@).len() == 0 <==> p.bearer is None)
    &&& (p.bearer matches Some(k) ==> k@ == trim(cfg.api_key@))
    &&& p.timeout_secs == (if cfg.timeout_secs < MIN_TIMEOUT_SECS {
        MIN_TIMEOUT_SECS
    } else {
        cfg.timeout_secs
    })
    &&& p.system@ == system
    &&& p.user@ == user
}

/// Plans one chat completion for a profile: refused with "no model
/// configured" when the model is blank; otherwise the completions URL, the
/// model as entered, the trimmed API key as bearer token where there is one,
/// and the profile's timeout but never under five seconds.
pub fn plan_chat(cfg: &LlmProfile, system: &str, user: &str) -> (r: Result<ChatPlan, String>)
    ensures
        trim(cfg.model@).len() == 0 <==> r is Err,
        r matches Err(e) ==> e@ == "no model configured"@,
        r matches Ok(p) ==> plan_ok(*cfg, system@, user@, p),
{
    let m = trim_str(cfg.model.as_str());
    if m.as_str().is_empty() {
        return Err(String::from_str("no model configured"));
    }
    let key = trim_str(cfg.api_key.as_str());
    let bearer = if key.as_str().is_empty() {
        None
    } else {
        Some(key)
    };
    let timeout_secs = if cfg.timeout_secs < MIN_TIMEOUT_SECS {
        MIN_TIMEOUT_SECS
    } else {
        cfg.timeout_secs
    };
    Ok(
        ChatPlan {
            url: chat_completions_url(cfg.base_url.as_str()),
            model: cfg.model.clone(),
            bearer,
            timeout_secs,
            system: String::from_str(system),
            user: String::from_str(user),
        },
    )
}

// ---------------------------------------------------------------------------
// Failure messages.
// ---------------------------------------------------------------------------

/// `s` with every character after the first `max` UTF-8 bytes cut off, never
/// inside a character: how many leading characters fit in `budget` bytes.
pub open spec fn chars_within(s: Seq<char>, budget: int) -> nat
    decreases s.len(),
{
    if s.len() == 0 {
        0
    } else if encode_scalar(s[0] as u32).len() <= budget {
        1 + chars_within(s.drop_first(), budget - encode_scalar(s[0] as u32).len())
    } else {
        0
    }
}

/// At most `max` bytes of `s`, cut at a character boundary, with an
/// ellipsis where anything was cut.
pub open spec fn truncate_spec(s: Seq<char>, max: nat) -> Seq<char> {
    if encode_utf8(s).len() <= max {
        s
    } else {
        s.take(chars_within(s, max as int) as int) + "…"@
    }
}

fn utf8_width(c: char) -> (w: usize)
    ensures
        w == encode_scalar(c as u32).len(),
{
    let v = c as u32;
    if v <= 0x7F {
        proof {
            assert(has_width_1_encoding(v));
        }
        1
    } else if v <= 0x7FF {
        proof {
            assert(has_width_2_encoding(v));
        }
        2
    } else if v <= 0xFFFF {
        proof {
            assert(has_width_3_encoding(v));
        }
        3
    } else {
        4
    }
}

proof fn lemma_chars_within(s: Seq<char>, budget: int)
    requires
        budget >= 0,
    ensures
        chars_within(s, budget) <= s.len(),
        encode_utf8(s).len() <= budget ==> chars_within(s, budget) == s.len(),
    decreases s.len(),
{
    if s.len() > 0 {
        let w = encode_scalar(s[0] as u32).len();
        assert(encode_utf8(s) == encode_scalar(s[0] as u32) + encode_utf8(s.drop_first()));
        if w <= budget {
            lemma_chars_within(s.drop_first(), budget - w);
        }
    }
}

/// A quote of an error body: at most `max` bytes, cut at a character
/// boundary, with an ellipsis where anything was cut.
pub fn truncate(s: &str, max: usize) -> (r: String)
    ensures
        r@ == truncate_spec(s@, max as nat),
{
    let v = to_chars(s);
    let mut budget: usize = max;
    let mut total_fits = true;
    let mut k: usize = 0;
    let mut cut: usize = 0;
    let mut stopped = false;
    // `cut` counts the characters that fit; `stopped` marks the first that did not.
    assert(v@.skip(0) =~= v@);
    while k < v.len()
        invariant
            k <= v@.len(),
            cut <= k,
            budget <= max,
            !stopped ==> cut == k,
            !stopped ==> chars_within(v@, max as int) == cut + chars_within(
                v@.skip(k as int),
                budget as int,
            ),
            stopped ==> chars_within(v@, max as int) == cut,
            !stopped ==> (encode_utf8(v@).len() <= max <==> encode_utf8(v@.skip(k as int)).len()
                <= budget),
            stopped ==> encode_utf8(v@).len() > max,
        decreases v@.len() - k,
    {
        let w = utf8_width(v[k]);
        let ghost t = v@.skip(k as int);
        proof {
            assert(t[0] == v@[k as int]);
            assert(t.drop_first() =~= v@.skip(k + 1));
            assert(encode_utf8(t) == encode_scalar(t[0] as u32) + encode_utf8(t.drop_first()));
        }
        if !stopped {
            if w <= budget {
                budget = budget - w;
                cut = cut + 1;
            } else {
                stopped = true;
            }
        }
        k = k + 1;
    }
    proof {
        if !stopped {
            assert(v@.skip(k as int) =~= Seq::<char>::empty());
            assert(encode_utf8(v@.skip(k as int)) =~= Seq::<u8>::empty());
        }
        lemma_chars_within(v@, max as int);
    }
    if !stopped {
        assert(v@.take(cut as int) =~= v@);
        return from_chars(v.as_slice());
    }
    let mut out = slice_to_vec(v.as_slice(), 0, cut);
    out.push('…');
    proof {
        reveal_strlit("…");
        assert(out@ =~= v@.take(cut as int) + "…"@);
    }
    from_chars(out.as_slice())
}

pub open spec fn connect_hint_spec(cfg: LlmProfile) -> Seq<char> {
    match cfg.provider {
        LlmProviderKind::Ollama => "could not connect to Ollama at "@ + cfg.base_url@
            + " — is `ollama serve` running?"@,
        _ => "could not connect to "@ + cfg.base_url@,
    }
}

/// The message a failed chat completion reports to the user.
pub open spec fn failure_message_spec(cfg: LlmProfile, f: ChatFailure) -> Seq<char> {
    match f {
        ChatFailure::Timeout => "provider timed out after "@ + decimal(cfg.timeout_secs as nat)
            + "s"@,
        ChatFailure::Connect => connect_hint_spec(cfg),
        ChatFailure::Request(e) => "request failed: "@ + e@,
        ChatFailure::Body(e) => "invalid response: "@ + e@,
        ChatFailure::Status { status, api_message, raw } => "provider returned "@ + status@
            + ": "@ + match api_message {
            Some(m) => m@,
            None => truncate_spec(raw@, ERROR_BODY_QUOTE_BYTES as nat),
        },
        ChatFailure::Shape(e) => "unexpected response shape: "@ + e@,
    }
}

/// The decimal digits of `n`.
pub open spec fn decimal(n: nat) -> Seq<char>
    decreases n,
{
    if n < 10 {
        seq![digit_char(n)]
    } else {
        decimal(n / 10).push(digit_char(n % 10))
    }
}

pub open spec fn digit_char(d: nat) -> char {
    if d == 0 {
        '0'
    } else if d == 1 {
        '1'
    } else if d == 2 {
        '2'
    } else if d == 3 {
        '3'
    } else if d == 4 {
        '4'
    } else if d == 5 {
        '5'
    } else if d == 6 {
        '6'
    } else if d == 7 {
        '7'
    } else if d == 8 {
        '8'
    } else {
        '9'
    }
}

fn digit_exec(d: u64) -> (c: char)
    requires
        d < 10,
    ensures
        c == digit_char(d as nat),
{
    if d == 0 {
        '0'
    } else if d == 1 {
        '1'
    } else if d == 2 {
        '2'
    } else if d == 3 {
        '3'
    } else if d == 4 {
        '4'
    } else if d == 5 {
        '5'
    } else if d == 6 {
        '6'
    } else if d == 7 {
        '7'
    } else if d == 8 {
        '8'
    } else {
        '9'
    }
}

/// `n` in decimal.
pub fn decimal_string(n: u64) -> (r: String)
    ensures
        r@ == decimal(n as nat),
    decreases n,
{
    if n < 10 {
        let v = vec![digit_exec(n)];
        assert(v@ =~= seq![digit_char(n as nat)]);
        from_chars(v.as_slice())
    } else {
        let head = decimal_string(n / 10);
        let mut v = to_chars(head.as_str());
        v.push(digit_exec(n % 10));
        from_chars(v.as_slice())
    }
}

/// The message the user reads for a failed chat completion: timeouts name
/// the profile's timeout, refused connections point at the server (for
/// Ollama, at `ollama serve`), error statuses quote the provider's own error
/// message or else the start of the body.
pub fn failure_message(cfg: &LlmProfile, failure: &ChatFailure) -> (r: String)
    ensures
        r@ == failure_message_spec(*cfg, *failure),
{
    match failure {
        ChatFailure::Timeout => {
            let mut s = String::from_str("provider timed out after ");
            let d = decimal_string(cfg.timeout_secs);
            s.append(d.as_str());
            s.append("s");
            s
        },
        ChatFailure::Connect => {
            match cfg.provider {
                LlmProviderKind::Ollama => {
                    let mut s = String::from_str("could not connect to Ollama at ");
                    s.append(cfg.base_url.as_str());
                    s.append(" — is `ollama serve` running?");
                    s
                },
                _ => {
                    let mut s = String::from_str("could not connect to ");
                    s.append(cfg.base_url.as_str());
                    s
                },
            }
        },
        ChatFailure::Request(e) => {
            let mut s = String::from_str("request failed: ");
            s.append(e.as_str());
            s
        },
        ChatFailure::Body(e) => {
            let mut s = String::from_str("invalid response: ");
            s.append(e.as_str());
            s
        },
        ChatFailure::Status { status, api_message, raw } => {
            let mut s = String::from_str("provider returned ");
            s.append(status.as_str());
            s.append(": ");
            match api_message {
                Some(m) => s.append(m.as_str()),
                None => {
                    let q = truncate(raw.as_str(), ERROR_BODY_QUOTE_BYTES);
                    s.append(q.as_str());
                },
            }
            s
        },
        ChatFailure::Shape(e) => {
            let mut s = String::from_str("unexpected response shape: ");
            s.append(e.as_str());
            s
        },
    }
}

// ---------------------------------------------------------------------------
// The reply.
// ---------------------------------------------------------------------------

/// Small models sometimes wrap their answer in a markdown code fence: the
/// trimmed text, or, where it opens with three backticks and closes with
/// three more, what lies between them without the first line (an optional
/// language tag), trimmed.
pub open spec fn strip_code_fence_spec(text: Seq<char>) -> Seq<char> {
    let t = trim(text);
    let fence = "```"@;
    if t.len() >= 3 && t.take(3) == fence {
        let inner = t.skip(3);
        match find_last(inner, fence) {
            Some(end) => {
                let body = inner.take(end);
                match find_first(body, seq!['\n']) {
                    Some(nl) => trim(body.skip(nl + 1)),
                    None => trim(body),
                }
            },
            None => t,
        }
    } else {
        t
    }
}

pub fn strip_code_fence(text: &str) -> (r: String)
    ensures
        r@ == strip_code_fence_spec(text@),
{
    let t = trim_str(text);
    let tv = to_chars(t.as_str());
    let fence: Vec<char> = vec!['`', '`', '`'];
    proof {
        reveal_strlit("```");
        assert(fence@ =~= "```"@);
    }
    if tv.len() >= 3 && tv[0] == '`' && tv[1] == '`' && tv[2] == '`' {
        assert(tv@.take(3) =~= "```"@);
        let inner = slice_to_vec(tv.as_slice(), 3, tv.len());
        assert(inner@ =~= t@.skip(3));
        let last = find_last_exec(inner.as_slice(), fence.as_slice());
        proof {
            lemma_find_last_from_some(inner@, fence@, inner@.len() - fence@.len());
        }
        match last {
            Some(end) => {
                let body = slice_to_vec(inner.as_slice(), 0, end);
                assert(body@ =~= inner@.take(end as int));
                let nl: Vec<char> = vec!['\n'];
                assert(nl@ =~= seq!['\n']);
                let first = find_first_exec(body.as_slice(), nl.as_slice());
                proof {
                    lemma_find_from_some(body@, nl@, 0);
                }
                let rest = match first {
                    Some(k) => {
                        let r = slice_to_vec(body.as_slice(), k + 1, body.len());
                        assert(r@ =~= body@.skip(k + 1));
                        r
                    },
                    None => body,
                };
                let (lo, hi) = trim_bounds(rest.as_slice(), CharClass::Whitespace);
                let out = slice_to_vec(rest.as_slice(), lo, hi);
                return from_chars(out.as_slice());
            },
            None => {},
        }
    } else {
        proof {
            if t@.len() >= 3 && t@.take(3) == "```"@ {
                assert(t@.take(3)[0] == tv@[0]);
                assert(t@.take(3)[1] == tv@[1]);
                assert(t@.take(3)[2] == tv@[2]);
            }
        }
    }
    t
}

/// The reply of a chat completion: the first choice's content (none counts
/// as empty), trimmed and without a code fence; an empty result is refused.
pub open spec fn finish_reply_spec(content: Option<Seq<char>>) -> Result<Seq<char>, Seq<char>> {
    let c = match content {
        Some(s) => s,
        None => Seq::empty(),
    };
    let cleaned = strip_code_fence_spec(trim(c));
    if cleaned.len() == 0 {
        Err("provider returned an empty response"@)
    } else {
        Ok(cleaned)
    }
}

/// Cleans the content of the first choice of a reply.
pub fn finish_reply(content: Option<String>) -> (r: Result<String, String>)
    ensures
        match (r, finish_reply_spec(
            match content {
                Some(s) => Some(s@),
                None => None,
            },
        )) {
            (Ok(a), Ok(b)) => a@ == b,
            (Err(a), Err(b)) => a@ == b,
            _ => false,
        },
{
    let c = match content {
        Some(s) => s,
        None => String::new(),
    };
    let t = trim_str(c.as_str());
    let cleaned = strip_code_fence(t.as_str());
    if cleaned.as_str().is_empty() {
        Err(String::from_str("provider returned an empty response"))
    } else {
        Ok(cleaned)
    }
}

/// The connectivity check's report: success names the model that answered;
/// a failure shows the error as the rest of the app displays it.
pub open spec fn test_result_spec(model: Seq<char>, outcome: Result<Seq<char>, Seq<char>>) -> (
    bool,
    Seq<char>,
) {
    match outcome {
        Ok(_) => (true, "Connected — "@ + model + " responded."@),
        Err(e) => (false, "AI provider error: "@ + e),
    }
}

pub fn test_result(model: &str, outcome: &Result<String, String>) -> (r: LlmTestResult)
    ensures
        (r.ok, r.message@) == test_result_spec(
            model@,
            match outcome {
                Ok(s) => Ok(s@),
                Err(e) => Err(e@),
            },
        ),
{
    match outcome {
        Ok(_) => {
            let mut s = String::from_str("Connected — ");
            s.append(model);
            s.append(" responded.");
            LlmTestResult { ok: true, message: s }
        },
        Err(e) => {
            let mut s = String::from_str("AI provider error: ");
            s.append(e.as_str());
            LlmTestResult { ok: false, message: s }
        },
    }
}

} // verus!
