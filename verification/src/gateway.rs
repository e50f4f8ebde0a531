//! The gateway's decisions: which requests are accepted, who may
//! reconfigure it, which algorithm a configuration builds, which algorithm
//! serves a request, and what its errors answer.

use vstd::prelude::*;
use crate::client::LmClientSettings;
use crate::errors::{error_message, error_prefix, ErrorView, LmClientError};
use crate::json::{jview, jview_members, JsonValue, JsonView};
use crate::text::{decimal, seq_starts_with};
use crate::voting::opt_view;

verus! {

/// An error answered by the gateway.
#[derive(Debug)]
pub enum AppError {
    ModelNotFound(String),
    NotConfigured,
    BadRequest(String),
    Unauthorized(String),
    StreamingNotSupported,
    Algorithm(String),
    Upstream(LmClientError),
    Internal(String),
}

/// The mathematical value of an [`AppError`].
pub enum AppErrorView {
    ModelNotFound(Seq<char>),
    NotConfigured,
    BadRequest(Seq<char>),
    Unauthorized(Seq<char>),
    StreamingNotSupported,
    Algorithm(Seq<char>),
    Upstream(ErrorView),
    Internal(Seq<char>),
}

impl View for AppError {
    type V = AppErrorView;

    open spec fn view(&self) -> AppErrorView {
        match self {
            AppError::ModelNotFound(m) => AppErrorView::ModelNotFound(m@),
            AppError::NotConfigured => AppErrorView::NotConfigured,
            AppError::BadRequest(m) => AppErrorView::BadRequest(m@),
            AppError::Unauthorized(m) => AppErrorView::Unauthorized(m@),
            AppError::StreamingNotSupported => AppErrorView::StreamingNotSupported,
            AppError::Algorithm(m) => AppErrorView::Algorithm(m@),
            AppError::Upstream(e) => AppErrorView::Upstream(e@),
            AppError::Internal(m) => AppErrorView::Internal(m@),
        }
    }
}

/// The HTTP status of an error.
pub open spec fn status_of(e: AppErrorView) -> u16 {
    match e {
        AppErrorView::ModelNotFound(_) => 404,
        AppErrorView::NotConfigured => 503,
        AppErrorView::BadRequest(_) => 400,
        AppErrorView::Unauthorized(_) => 401,
        AppErrorView::StreamingNotSupported => 501,
        AppErrorView::Algorithm(_) => 500,
        AppErrorView::Upstream(_) => 502,
        AppErrorView::Internal(_) => 500,
    }
}

/// The description of an error.
pub open spec fn description_of(e: AppErrorView) -> Seq<char> {
    match e {
        AppErrorView::ModelNotFound(m) => "model not found: "@ + m,
        AppErrorView::NotConfigured => "service not configured"@,
        AppErrorView::BadRequest(m) => "invalid request: "@ + m,
        AppErrorView::Unauthorized(m) => "unauthorized: "@ + m,
        AppErrorView::StreamingNotSupported => "streaming not supported"@,
        AppErrorView::Algorithm(m) => "algorithm error: "@ + m,
        AppErrorView::Upstream(u) => "upstream error: "@ + error_prefix(u) + error_message(u),
        AppErrorView::Internal(m) => "internal error: "@ + m,
    }
}

/// The message answered for an error: the bare message for the errors that
/// carry one for the client, the description otherwise.
pub open spec fn answer_message(e: AppErrorView) -> Seq<char> {
    match e {
        AppErrorView::ModelNotFound(m) => m,
        AppErrorView::BadRequest(m) => m,
        AppErrorView::Unauthorized(m) => m,
        AppErrorView::Algorithm(m) => m,
        _ => description_of(e),
    }
}

fn cat(a: &str, b: &str) -> (r: String)
    ensures
        r@ == a@ + b@,
{
    let mut r = crate::text::owned(a);
    r.append(b);
    r
}

impl AppError {
    /// The HTTP status the error is answered with.
    pub fn status_code(&self) -> (r: u16)
        ensures
            r == status_of(self@),
    {
        match self {
            AppError::ModelNotFound(_) => 404,
            AppError::NotConfigured => 503,
            AppError::BadRequest(_) => 400,
            AppError::Unauthorized(_) => 401,
            AppError::StreamingNotSupported => 501,
            AppError::Algorithm(_) => 500,
            AppError::Upstream(_) => 502,
            AppError::Internal(_) => 500,
        }
    }

    /// The error's description (see [`description_of`]).
    pub fn describe(&self) -> (r: String)
        ensures
            r@ == description_of(self@),
    {
        match self {
            AppError::ModelNotFound(m) => cat("model not found: ", m.as_str()),
            AppError::NotConfigured => crate::text::owned("service not configured"),
            AppError::BadRequest(m) => cat("invalid request: ", m.as_str()),
            AppError::Unauthorized(m) => cat("unauthorized: ", m.as_str()),
            AppError::StreamingNotSupported => crate::text::owned("streaming not supported"),
            AppError::Algorithm(m) => cat("algorithm error: ", m.as_str()),
            AppError::Upstream(e) => {
                let d = e.describe();
                cat("upstream error: ", d.as_str())
            },
            AppError::Internal(m) => cat("internal error: ", m.as_str()),
        }
    }

    /// The message the error is answered with (see [`answer_message`]).
    pub fn answer(&self) -> (r: String)
        ensures
            r@ == answer_message(self@),
    {
        match self {
            AppError::ModelNotFound(m) => m.clone(),
            AppError::BadRequest(m) => m.clone(),
            AppError::Unauthorized(m) => m.clone(),
            AppError::Algorithm(m) => m.clone(),
            _ => self.describe(),
        }
    }

    /// The JSON body answered: `{"error": {"message": ..., "type": "server_error"}}`.
    pub fn body(&self) -> (r: JsonValue)
        ensures
            jview(r) == JsonView::Object(seq![
                ("error"@, JsonView::Object(seq![
                    ("message"@, JsonView::Str(answer_message(self@))),
                    ("type"@, JsonView::Str("server_error"@)),
                ])),
            ]),
    {
        let mut inner: Vec<(String, JsonValue)> = Vec::new();
        crate::client::push_member(&mut inner, "message", JsonValue::Str(self.answer()));
        crate::client::push_member(&mut inner, "type", JsonValue::Str(crate::text::owned("server_error")));
        let mut outer: Vec<(String, JsonValue)> = Vec::new();
        let ghost iv = jview_members(inner@);
        assert(iv =~= seq![
            ("message"@, JsonView::Str(answer_message(self@))),
            ("type"@, JsonView::Str("server_error"@)),
        ]);
        crate::client::push_member(&mut outer, "error", JsonValue::Object(inner));
        assert(jview_members(outer@) =~= seq![("error"@, JsonView::Object(iv))]);
        JsonValue::Object(outer)
    }
}

/// A request header's value: text, or bytes that are not visible ASCII.
#[derive(Debug, Clone)]
pub enum HeaderText {
    Text(String),
    Invalid,
}

/// The value of a decimal digit character.
pub open spec fn digit_value(c: char) -> int {
    (c as int) - ('0' as int)
}

/// Every character is an ASCII digit.
pub open spec fn all_digits(s: Seq<char>) -> bool {
    forall|i: int| 0 <= i < s.len() ==> '0' <= #[trigger] s[i] && s[i] <= '9'
}

/// The number the digits spell.
pub open spec fn digits_value(s: Seq<char>) -> int
    decreases s.len(),
{
    if s.len() == 0 {
        0
    } else {
        digits_value(s.drop_last()) * 10 + digit_value(s.last())
    }
}

/// What `str::parse::<u32>` gives: an optional `+`, then one or more
/// digits whose value fits in 32 bits.
pub open spec fn parsed_u32(s: Seq<char>) -> Option<u32> {
    let d = if s.len() > 0 && s[0] == '+' {
        s.skip(1)
    } else {
        s
    };
    if d.len() > 0 && all_digits(d) && digits_value(d) <= u32::MAX {
        Some(digits_value(d) as u32)
    } else {
        None
    }
}

/// The value of a digit string is at least that of each of its prefixes.
pub proof fn lemma_digits_grow(s: Seq<char>, n: int)
    requires
        0 <= n <= s.len(),
        all_digits(s),
    ensures
        digits_value(s.take(n)) <= digits_value(s),
        digits_value(s.take(n)) >= 0,
    decreases s.len() - n,
{
    if n < s.len() {
        lemma_digits_grow(s, n + 1);
        assert(s.take(n + 1).drop_last() =~= s.take(n));
        lemma_digits_nonneg(s.take(n));
    } else {
        assert(s.take(n) =~= s);
        lemma_digits_nonneg(s);
    }
}

pub proof fn lemma_digits_nonneg(s: Seq<char>)
    requires
        all_digits(s),
    ensures
        digits_value(s) >= 0,
    decreases s.len(),
{
    if s.len() > 0 {
        lemma_digits_nonneg(s.drop_last());
    }
}

/// `s` parsed as a 32-bit unsigned number (see [`parsed_u32`]).
pub fn parse_u32(s: &str) -> (r: Option<u32>)
    ensures
        r == parsed_u32(s@),
{
    let cs = crate::text::chars_of(s);
    let start: usize = if cs.len() > 0 && cs[0] == '+' { 1 } else { 0 };
    let ghost d = if s@.len() > 0 && s@[0] == '+' {
        s@.skip(1)
    } else {
        s@
    };
    assert(d =~= s@.skip(start as int));
    if cs.len() <= start {
        return None;
    }
    let mut value: u64 = 0;
    let mut i: usize = start;
    while i < cs.len()
        invariant
            start <= i <= cs@.len(),
            cs@ == s@,
            d == s@.skip(start as int),
            d == (if s@.len() > 0 && s@[0] == '+' {
                s@.skip(1)
            } else {
                s@
            }),
            d.len() == cs@.len() - start,
            all_digits(d.take(i - start)),
            value as int == digits_value(d.take(i - start)),
            value <= u32::MAX,
        decreases cs@.len() - i,
    {
        let c = cs[i];
        assert(d.take(i + 1 - start).drop_last() =~= d.take(i - start));
        assert(d.take(i + 1 - start).last() == c);
        if c < '0' || c > '9' {
            assert(!all_digits(d)) by {
                assert(d[i - start] == c);
            }
            return None;
        }
        let dv: u64 = (c as u64) - ('0' as u64);
        assert(all_digits(d.take(i + 1 - start)));
        assert(digits_value(d.take(i + 1 - start)) == value * 10 + dv);
        if value > (4294967295u64 - dv) / 10 {
            proof {
                assert(value * 10 + dv > u32::MAX) by (nonlinear_arith)
                    requires
                        value > (4294967295 - dv) / 10,
                        dv <= 9,
                ;
                if all_digits(d) {
                    lemma_digits_grow(d, i + 1 - start);
                }
            }
            return None;
        }
        assert(value * 10 + dv <= u32::MAX) by (nonlinear_arith)
            requires
                value <= (4294967295 - dv) / 10,
                dv <= 9,
        ;
        value = value * 10 + dv;
        i = i + 1;
    }
    assert(d.take(d.len() as int) =~= d);
    Some(value as u32)
}

/// How a request's temperature compares with the accepted range, and how
/// it reads in a message.
#[derive(Debug, Clone)]
pub struct TemperatureCheck {
    pub in_range: bool,
    pub shown: String,
}

/// The verdict on a chat completion request: the budget to use, or why it
/// is refused. Checked in order: streaming, no messages, temperature out of
/// range, zero max_tokens, an unreadable budget header, a budget outside
/// 1 to 1000 (the header's budget replaces the body's).
pub open spec fn request_verdict(
    stream: Option<bool>,
    message_count: nat,
    temperature: Option<(bool, Seq<char>)>,
    max_tokens: Option<u32>,
    budget_header: Option<Option<Seq<char>>>,
    body_budget: u32,
) -> Result<u32, AppErrorView> {
    if stream == Some(true) {
        Err(AppErrorView::StreamingNotSupported)
    } else if message_count == 0 {
        Err(AppErrorView::BadRequest("messages must not be empty"@))
    } else if (match temperature {
        Some((in_range, _)) => !in_range,
        None => false,
    }) {
        Err(AppErrorView::BadRequest(temperature_range_message() + match temperature {
            Some((_, shown)) => shown,
            None => Seq::empty(),
        }))
    } else if max_tokens == Some(0u32) {
        Err(AppErrorView::BadRequest("max_tokens must be greater than 0"@))
    } else if budget_header == Some(None::<Seq<char>>) {
        Err(AppErrorView::BadRequest("x-its-budget header contains invalid characters"@))
    } else if budget_header is Some && parsed_u32(budget_header->0->0) is None {
        Err(AppErrorView::BadRequest("x-its-budget header must be a valid integer, got '"@ + budget_header->0->0 + "'"@))
    } else {
        let budget = if budget_header is Some {
            parsed_u32(budget_header->0->0)->0
        } else {
            body_budget
        };
        if 1 <= budget <= 1000 {
            Ok(budget)
        } else {
            Err(AppErrorView::BadRequest("budget must be between 1 and 1000, got "@ + decimal(budget as nat)))
        }
    }
}

/// The start of the message refusing a temperature: `temperature must be
/// between 0.0 and 2.0, got `, written in pieces.
pub open spec fn temperature_range_message() -> Seq<char> {
    "temperature must be between 0"@ + "."@ + "0 and 2"@ + "."@ + "0, got "@
}

fn temperature_range_text() -> (r: String)
    ensures
        r@ == temperature_range_message(),
{
    let mut r = crate::text::owned("temperature must be between 0");
    r.append(".");
    r.append("0 and 2");
    r.append(".");
    r.append("0, got ");
    r
}

/// The view of an optional header value.
pub open spec fn header_view(h: Option<HeaderText>) -> Option<Option<Seq<char>>> {
    match h {
        Some(HeaderText::Text(t)) => Some(Some(t@)),
        Some(HeaderText::Invalid) => Some(None),
        None => None,
    }
}

/// The view of an optional temperature check.
pub open spec fn temperature_view(t: Option<TemperatureCheck>) -> Option<(bool, Seq<char>)> {
    match t {
        Some(c) => Some((c.in_range, c.shown@)),
        None => None,
    }
}

/// The view of a result of the request check.
pub open spec fn verdict_view(r: Result<u32, AppError>) -> Result<u32, AppErrorView> {
    match r {
        Ok(b) => Ok(b),
        Err(e) => Err(e@),
    }
}

/// The budget a chat completion request runs with, or why it is refused
/// (see [`request_verdict`]).
pub fn validate_request(
    stream: Option<bool>,
    message_count: usize,
    temperature: Option<TemperatureCheck>,
    max_tokens: Option<u32>,
    budget_header: Option<HeaderText>,
    body_budget: u32,
) -> (r: Result<u32, AppError>)
    ensures
        verdict_view(r) == request_verdict(
            stream,
            message_count as nat,
            temperature_view(temperature),
            max_tokens,
            header_view(budget_header),
            body_budget,
        ),
{
    if stream == Some(true) {
        return Err(AppError::StreamingNotSupported);
    }
    if message_count == 0 {
        return Err(AppError::BadRequest(crate::text::owned("messages must not be empty")));
    }
    match &temperature {
        Some(t) => {
            if !t.in_range {
                let mut m = temperature_range_text();
                m.append(t.shown.as_str());
                return Err(AppError::BadRequest(m));
            }
        },
        None => {},
    }
    if max_tokens == Some(0u32) {
        return Err(AppError::BadRequest(crate::text::owned("max_tokens must be greater than 0")));
    }
    let budget = match &budget_header {
        Some(HeaderText::Invalid) => {
            return Err(AppError::BadRequest(crate::text::owned("x-its-budget header contains invalid characters")));
        },
        Some(HeaderText::Text(t)) => match parse_u32(t.as_str()) {
            Some(b) => b,
            None => {
                let mut m = cat("x-its-budget header must be a valid integer, got '", t.as_str());
                m.append("'");
                return Err(AppError::BadRequest(m));
            },
        },
        None => body_budget,
    };
    if 1 <= budget && budget <= 1000 {
        Ok(budget)
    } else {
        let shown = crate::text::decimal_text(budget as u64);
        Err(AppError::BadRequest(cat("budget must be between 1 and 1000, got ", shown.as_str())))
    }
}

/// Whether a reconfiguration is allowed: always without an admin token (or
/// with an empty one); otherwise only when the authorization header is
/// `Bearer ` followed by exactly the token.
pub open spec fn admin_allows(expected: Option<Seq<char>>, authorization: Option<Option<Seq<char>>>) -> bool {
    match expected {
        None => true,
        Some(t) => t.len() == 0 || {
            let provided = match authorization {
                Some(Some(h)) => if seq_starts_with(h, "Bearer "@) {
                    h.skip(7)
                } else {
                    Seq::empty()
                },
                _ => Seq::empty(),
            };
            provided == t
        },
    }
}

/// Whether a reconfiguration is allowed (see [`admin_allows`]).
pub fn admin_authorized(expected: Option<&str>, authorization: &Option<HeaderText>) -> (r: bool)
    ensures
        r == admin_allows(crate::client::str_opt_view(expected), header_view(*authorization)),
{
    proof {
        reveal_strlit("Bearer ");
    }
    match expected {
        None => true,
        Some(t) => {
            if t.is_empty() {
                return true;
            }
            let provided: Vec<char> = match authorization {
                Some(HeaderText::Text(h)) => {
                    let hc = crate::text::chars_of(h.as_str());
                    let bc = crate::text::chars_of("Bearer ");
                    if hc.len() >= bc.len() && crate::text::chars_start_with(&hc, &bc) {
                        let mut rest: Vec<char> = Vec::new();
                        let mut i: usize = 7;
                        while i < hc.len()
                            invariant
                                7 <= i <= hc@.len(),
                                rest@ == hc@.subrange(7, i as int),
                            decreases hc@.len() - i,
                        {
                            rest.push(hc[i]);
                            i = i + 1;
                            assert(rest@ =~= hc@.subrange(7, i as int));
                        }
                        assert(rest@ =~= h@.skip(7));
                        rest
                    } else {
                        Vec::new()
                    }
                },
                _ => Vec::new(),
            };
            let tc = crate::text::chars_of(t);
            let same = crate::text::chars_equal(&provided, &tc);
            same
        },
    }
}

/// Which algorithm serves a request.
#[derive(Debug, Clone, Copy, PartialEq, Eq, Structural)]
pub enum AlgorithmChoice {
    /// The configured algorithm.
    Configured,
    /// A self-consistency vote with default settings.
    DefaultSelfConsistency,
}

/// Which algorithm serves a request, and its name: an override naming the
/// configured algorithm, or no override, keeps it; an override to
/// `self-consistency` runs a default vote; any other override is ignored.
pub open spec fn algorithm_choice(configured: Seq<char>, requested: Option<Seq<char>>) -> (AlgorithmChoice, Seq<char>) {
    match requested {
        Some(o) => if o == configured {
            (AlgorithmChoice::Configured, configured)
        } else if o == "self-consistency"@ {
            (AlgorithmChoice::DefaultSelfConsistency, o)
        } else {
            (AlgorithmChoice::Configured, configured)
        },
        None => (AlgorithmChoice::Configured, configured),
    }
}

/// Which algorithm serves a request (see [`algorithm_choice`]).
pub fn resolve_algorithm(configured: &String, requested: &Option<String>) -> (r: (AlgorithmChoice, String))
    ensures
        (r.0, r.1@) == algorithm_choice(configured@, opt_view(*requested)),
{
    match requested {
        Some(o) => {
            if *o == *configured {
                (AlgorithmChoice::Configured, configured.clone())
            } else if crate::messages::eq_lit(o, "self-consistency") {
                (AlgorithmChoice::DefaultSelfConsistency, o.clone())
            } else {
                (AlgorithmChoice::Configured, configured.clone())
            }
        },
        None => (AlgorithmChoice::Configured, configured.clone()),
    }
}

/// Where a chat request is served once the cache did not answer it:
/// refused when no algorithm is configured, then when the model has no
/// client; otherwise by the algorithm [`algorithm_choice`] picks.
pub fn route_request(
    configured: &Option<String>,
    model_known: bool,
    model: &String,
    requested: &Option<String>,
) -> (r: Result<(AlgorithmChoice, String), AppError>)
    ensures
        match configured {
            None => r is Err && r->Err_0@ == AppErrorView::NotConfigured,
            Some(name) => if !model_known {
                r is Err && r->Err_0@ == AppErrorView::ModelNotFound(model@)
            } else {
                r is Ok && (r->Ok_0.0, r->Ok_0.1@) == algorithm_choice(name@, opt_view(*requested))
            },
        },
{
    match configured {
        None => Err(AppError::NotConfigured),
        Some(name) => {
            if !model_known {
                Err(AppError::ModelNotFound(model.clone()))
            } else {
                Ok(resolve_algorithm(name, requested))
            }
        },
    }
}

/// The algorithm named on an answer from the cache: the requested one, else
/// the configured one, else nothing.
pub fn cached_algorithm_name(requested: &Option<String>, configured: &Option<String>) -> (r: String)
    ensures
        r@ == match requested {
            Some(a) => a@,
            None => match configured {
                Some(c) => c@,
                None => Seq::empty(),
            },
        },
{
    match requested {
        Some(a) => a.clone(),
        None => match configured {
            Some(c) => c.clone(),
            None => String::new(),
        },
    }
}

/// What the chat endpoint does once the algorithm has run.
#[derive(Debug)]
pub enum ChatReply {
    /// Answer with the selected response, counted as a success of the
    /// algorithm used, and store the answer when responses are cached.
    Answer { store_in_cache: bool },
    /// Forward the request upstream unchanged and answer with that, marked
    /// as passthrough; nothing is stored.
    Passthrough,
    /// Refuse with the error, counted as a failure of the algorithm used.
    Refuse(AppError),
}

/// What the chat endpoint does once the algorithm has run: answer when it
/// succeeded (storing the answer when caching); when it failed, fall back to
/// passthrough if that is enabled, else refuse with the algorithm's error.
pub fn reply_after_run(run_error: Option<String>, passthrough_on_error: bool, caching: bool) -> (r: ChatReply)
    ensures
        match run_error {
            None => r matches ChatReply::Answer { store_in_cache } && store_in_cache == caching,
            Some(e) => if passthrough_on_error {
                r is Passthrough
            } else {
                r matches ChatReply::Refuse(err) && err@ == AppErrorView::Algorithm(e@)
            },
        },
{
    match run_error {
        None => ChatReply::Answer { store_in_cache: caching },
        Some(e) => if passthrough_on_error {
            ChatReply::Passthrough
        } else {
            ChatReply::Refuse(AppError::Algorithm(e))
        },
    }
}

/// The readiness answer: ready (200) when an algorithm is configured and a
/// model is connected; not ready (503) otherwise, with what is missing.
pub fn readiness(has_algorithm: bool, num_models: usize) -> (r: (u16, JsonValue))
    ensures
        has_algorithm && num_models > 0 ==> r.0 == 200 && jview(r.1) == JsonView::Object(
            seq![("status"@, JsonView::Str("ready"@))],
        ),
        !(has_algorithm && num_models > 0) ==> r.0 == 503 && jview(r.1) == JsonView::Object(
            seq![
                ("status"@, JsonView::Str("not_ready"@)),
                ("algorithm_configured"@, JsonView::Bool(has_algorithm)),
                ("models_connected"@, JsonView::Number(decimal(num_models as nat))),
            ],
        ),
{
    let mut ms: Vec<(String, JsonValue)> = Vec::new();
    if has_algorithm && num_models > 0 {
        crate::client::push_member(&mut ms, "status", JsonValue::Str(crate::text::owned("ready")));
        assert(jview_members(ms@) =~= seq![("status"@, JsonView::Str("ready"@))]);
        (200, JsonValue::Object(ms))
    } else {
        crate::client::push_member(&mut ms, "status", JsonValue::Str(crate::text::owned("not_ready")));
        crate::client::push_member(&mut ms, "algorithm_configured", JsonValue::Bool(has_algorithm));
        crate::client::push_member(
            &mut ms,
            "models_connected",
            JsonValue::Number(crate::text::decimal_text(num_models as u64)),
        );
        assert(jview_members(ms@) =~= seq![
            ("status"@, JsonView::Str("not_ready"@)),
            ("algorithm_configured"@, JsonView::Bool(has_algorithm)),
            ("models_connected"@, JsonView::Number(decimal(num_models as nat))),
        ]);
        (503, JsonValue::Object(ms))
    }
}

/// The health answer: status `ok`, the configured algorithm (or null) and
/// the number of models.
pub fn health_body(algorithm: &Option<String>, models: usize) -> (r: JsonValue)
    ensures
        jview(r) == JsonView::Object(
            seq![
                ("status"@, JsonView::Str("ok"@)),
                ("algorithm"@, match opt_view(*algorithm) {
                    Some(a) => JsonView::Str(a),
                    None => JsonView::Null,
                }),
                ("models"@, JsonView::Number(decimal(models as nat))),
            ],
        ),
{
    let mut ms: Vec<(String, JsonValue)> = Vec::new();
    crate::client::push_member(&mut ms, "status", JsonValue::Str(crate::text::owned("ok")));
    let a = match algorithm {
        Some(a) => JsonValue::Str(a.clone()),
        None => JsonValue::Null,
    };
    crate::client::push_member(&mut ms, "algorithm", a);
    crate::client::push_member(&mut ms, "models", JsonValue::Number(crate::text::decimal_text(models as u64)));
    proof {
        assert(jview_members(ms@) =~= seq![
            ("status"@, JsonView::Str("ok"@)),
            ("algorithm"@, match opt_view(*algorithm) {
                Some(a) => JsonView::Str(a),
                None => JsonView::Null,
            }),
            ("models"@, JsonView::Number(decimal(models as nat))),
        ]);
    }
    JsonValue::Object(ms)
}

/// The headers added to every answer of the chat endpoint: whether the
/// cache answered, which algorithm ran, and the latency in milliseconds.
pub fn response_headers(cache_hit: bool, algorithm_used: &String, latency_ms: u64) -> (r: Vec<(String, String)>)
    ensures
        crate::providers::headers_view(r@) == seq![
            ("x-its-cache-hit"@, if cache_hit {
                "true"@
            } else {
                "false"@
            }),
            ("x-its-algorithm-used"@, algorithm_used@),
            ("x-its-latency-ms"@, decimal(latency_ms as nat)),
        ],
{
    let mut r: Vec<(String, String)> = Vec::new();
    let hit = if cache_hit { crate::text::owned("true") } else { crate::text::owned("false") };
    r.push((crate::text::owned("x-its-cache-hit"), hit));
    r.push((crate::text::owned("x-its-algorithm-used"), algorithm_used.clone()));
    r.push((crate::text::owned("x-its-latency-ms"), crate::text::decimal_text(latency_ms)));
    assert(crate::providers::headers_view(r@) =~= seq![
        ("x-its-cache-hit"@, if cache_hit {
            "true"@
        } else {
            "false"@
        }),
        ("x-its-algorithm-used"@, algorithm_used@),
        ("x-its-latency-ms"@, decimal(latency_ms as nat)),
    ]);
    r
}

/// The answer to a successful reconfiguration.
pub fn configured_message(model: &str, algorithm: &str) -> (r: String)
    ensures
        r@ == "Initialized "@ + model@ + " with "@ + algorithm@ + " algorithm"@,
{
    let mut r = cat("Initialized ", model);
    r.append(" with ");
    r.append(algorithm);
    r.append(" algorithm");
    r
}

} // verus!
