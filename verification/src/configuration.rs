//! Reconfiguration: what a configuration request asks for, which algorithm
//! it builds (or why it is refused), and the settings it installs.
//!
//! Temperatures are carried as values of type `T`, the caller's
//! floating-point number.

use vstd::prelude::*;
use crate::client::{LmClientSettings, str_opt_view};
use crate::errors::{error_message, error_prefix, LmClientError};
use crate::gateway::{AppError, AppErrorView};
use crate::pattern::spec_compile_error;
use crate::self_consistency::{first_bad_pattern, SelfConsistency};
use crate::step_generation::{StepGeneration, StepMode, StepToken};
use crate::voting::{opt_view, ToolVoteStrategy};
use crate::text::strings_view;

verus! {

/// A configuration request.
#[derive(Debug, Clone)]
pub struct ConfigRequest<T> {
    pub provider: String,
    pub endpoint: String,
    pub api_key: Option<String>,
    pub model: String,
    pub alg: String,
    pub regex_patterns: Option<Vec<String>>,
    pub tool_vote: Option<String>,
    pub exclude_tool_args: Option<Vec<String>>,
    pub rm_name: Option<String>,
    pub rm_endpoint: Option<String>,
    pub system_prompt: Option<String>,
    pub temperature: Option<T>,
    pub max_tokens: Option<u32>,
    pub n: Option<u32>,
    pub stop: Option<String>,
    pub max_concurrent_requests: Option<usize>,
    pub replace_error_with_message: Option<String>,
    pub return_response_only: Option<bool>,
    pub include_stop_str_in_output: Option<bool>,
    pub step_token: Option<String>,
    pub stop_token: Option<String>,
    pub num_iterations: Option<u32>,
    pub beam_width: Option<u32>,
    pub inner_alg: Option<String>,
    pub temperature_method: Option<String>,
    pub prm_endpoint: Option<String>,
    pub passthrough_on_error: Option<bool>,
    pub cache_enabled: Option<bool>,
    pub cache_ttl_seconds: Option<u64>,
    pub cache_max_entries: Option<usize>,
    pub request_timeout_seconds: Option<u64>,
    pub judge_model: Option<String>,
    pub judge_criterion: Option<String>,
    pub judge_temperature: Option<T>,
    pub judge_max_tokens: Option<u32>,
    pub judge_base_url: Option<String>,
    pub judge_api_key: Option<String>,
}

/// The provider assumed when a configuration names none.
pub fn default_provider() -> (r: String)
    ensures
        r@ == "openai"@,
{
    crate::text::owned("openai")
}

/// How the temperature of entropic particle filtering adapts.
#[derive(Debug, Clone, Copy, PartialEq, Eq, Structural)]
pub enum TemperatureMethod {
    Ess,
    Entropy,
    Base,
}

/// How best-of-n scores responses.
#[derive(Debug)]
pub enum RewardPlan<T> {
    /// An outcome reward model served over HTTP.
    Http { endpoint: String },
    /// A language model judging the responses.
    Judge { client: LmClientSettings, criterion: String, temperature: T, max_tokens: u32 },
}

/// The algorithm wrapped by planning.
pub enum InnerPlan {
    SelfConsistency(SelfConsistency),
    BestOfN { rm_endpoint: String, replace_error_with_message: Option<String> },
}

/// The algorithm a configuration builds, with its validated parameters.
pub enum AlgorithmPlan<T> {
    SelfConsistency(SelfConsistency),
    BestOfN { reward: RewardPlan<T>, replace_error_with_message: Option<String> },
    BeamSearch { step_generation: StepGeneration<T>, prm_endpoint: String, beam_width: usize },
    ParticleFiltering { step_generation: StepGeneration<T>, prm_endpoint: String },
    ParticleGibbs { step_generation: StepGeneration<T>, prm_endpoint: String, num_iterations: usize },
    EntropicParticleFiltering {
        step_generation: StepGeneration<T>,
        prm_endpoint: String,
        temperature_method: TemperatureMethod,
    },
    PlanningWrapper { inner: InnerPlan },
}

/// The tool-vote strategy a name selects; unknown names vote on the name.
pub open spec fn strategy_named(name: Seq<char>, exclude: Seq<Seq<char>>, s: ToolVoteStrategy) -> bool {
    if name == "tool_args"@ {
        s is Args && strings_view(s->Args_exclude@) == exclude
    } else if name == "tool_hierarchical"@ {
        s is Hierarchical && strings_view(s->Hierarchical_exclude@) == exclude
    } else {
        s is Name
    }
}

/// The strategy selected by a configuration's tool-vote name (none without
/// a name), excluding the configured argument names.
pub open spec fn tool_vote_matches<T>(c: ConfigRequest<T>, s: Option<ToolVoteStrategy>) -> bool {
    let exclude = match c.exclude_tool_args {
        Some(v) => strings_view(v@),
        None => Seq::empty(),
    };
    match c.tool_vote {
        None => s is None,
        Some(name) => s is Some && strategy_named(name@, exclude, s->0),
    }
}

/// The outcome of compiling the configured patterns: the first compile
/// error, if any.
pub open spec fn pattern_error(patterns: Option<Vec<String>>) -> Option<Seq<char>> {
    match patterns {
        Some(ps) => if ps@.len() > 0 {
            match first_bad_pattern(ps@, ps@.len() as int) {
                Some(i) => spec_compile_error(ps@[i]@, true, true),
                None => None,
            }
        } else {
            None
        },
        None => None,
    }
}

/// The names of the supported algorithms, in the refusal message.
pub open spec fn unsupported_message(alg: Seq<char>) -> Seq<char> {
    "unsupported algorithm: "@ + alg
        + ". Supported: self-consistency, best-of-n, beam-search, particle-filtering, particle-gibbs, entropic-particle-filtering, planning-wrapper"@
}

/// Whether the algorithm generates step by step under a process reward model.
pub open spec fn is_step_algorithm(alg: Seq<char>) -> bool {
    alg == "beam-search"@ || alg == "particle-filtering"@ || alg == "particle-gibbs"@ || alg
        == "entropic-particle-filtering"@
}

/// Whether the algorithm is supported.
pub open spec fn is_supported(alg: Seq<char>) -> bool {
    alg == "self-consistency"@ || alg == "best-of-n"@ || is_step_algorithm(alg) || alg == "planning-wrapper"@
}

/// The step generation of the step algorithms: the step token, `n` steps at
/// most (10 by default), the stop token, the configured temperature (or the
/// default), stop strings excluded unless configured.
pub open spec fn step_generation_for<T>(c: ConfigRequest<T>, default_temperature: T, g: StepGeneration<T>) -> bool {
    &&& g.step_mode matches StepMode::StepToken(StepToken::Single(tok)) && tok@ == c.step_token->0@
    &&& g.max_steps == match c.n {
        Some(n) => n,
        None => 10u32,
    }
    &&& g.stop_token == c.stop_token
    &&& g.temperature == match c.temperature {
        Some(t) => t,
        None => default_temperature,
    }
    &&& g.include_stop_str_in_output == match c.include_stop_str_in_output {
        Some(b) => b,
        None => false,
    }
    &&& g.temperature_switch is None
}

/// The settings of the judge's client, as the judge would be configured.
pub open spec fn judge_client_ok<T>(c: ConfigRequest<T>, s: LmClientSettings) -> bool {
    let base = match c.judge_base_url {
        Some(b) => b@,
        None => c.endpoint@,
    };
    &&& s.endpoint@ == crate::client::without_trailing_slashes(base)
    &&& s.model_name@ == c.judge_model->0@
    &&& s.max_concurrency == 8
    &&& s.max_retries == 3
    &&& s.system_prompt is None
    &&& s.include_stop_str_in_output is None
    &&& s.endpoint_type == crate::client::endpoint_kind(base)
}

/// The API key of the judge: its own, else the configuration's.
pub open spec fn judge_key<T>(c: ConfigRequest<T>) -> Option<Seq<char>> {
    match c.judge_api_key {
        Some(k) => Some(k@),
        None => opt_view(c.api_key),
    }
}

/// The refusal of a configuration, where one is due whatever the outside
/// calls answer; `None` where the configuration is complete.
pub open spec fn missing_setting<T>(c: ConfigRequest<T>) -> Option<Seq<char>> {
    let alg = c.alg@;
    if !is_supported(alg) {
        Some(unsupported_message(alg))
    } else if is_step_algorithm(alg) {
        if c.step_token is None {
            Some("step_token required for "@ + alg)
        } else if c.prm_endpoint is None {
            Some("prm_endpoint required for "@ + alg)
        } else {
            None
        }
    } else if alg == "best-of-n"@ {
        let rm = match c.rm_name {
            Some(n) => n@,
            None => "http"@,
        };
        if rm == "llm-judge"@ {
            if c.judge_model is None {
                Some("judge_model required when rm_name is llm-judge"@)
            } else {
                None
            }
        } else if c.rm_endpoint is None {
            Some("rm_endpoint required for best-of-n"@)
        } else {
            None
        }
    } else if alg == "planning-wrapper"@ {
        match c.inner_alg {
            None => Some("inner_alg required for planning-wrapper"@),
            Some(inner) => if inner@ == "self-consistency"@ {
                None
            } else if inner@ == "best-of-n"@ {
                if c.rm_endpoint is None {
                    Some("rm_endpoint required for best-of-n inner algorithm"@)
                } else {
                    None
                }
            } else {
                Some("unsupported inner algorithm for planning-wrapper: "@ + inner@)
            },
        }
    } else {
        None
    }
}

/// The configuration builds a self-consistency vote (alone or inside planning).
pub open spec fn builds_vote<T>(c: ConfigRequest<T>) -> bool {
    c.alg@ == "self-consistency"@ || (c.alg@ == "planning-wrapper"@ && c.inner_alg is Some && c.inner_alg->0@
        == "self-consistency"@)
}

/// The configuration builds a judge for best-of-n.
pub open spec fn builds_judge<T>(c: ConfigRequest<T>) -> bool {
    c.alg@ == "best-of-n"@ && match c.rm_name {
        Some(n) => n@ == "llm-judge"@,
        None => false,
    }
}

fn str_is(a: &str, lit: &str) -> (r: bool)
    ensures
        r == (a@ == lit@),
{
    let x = crate::text::owned(a);
    let y = crate::text::owned(lit);
    x == y
}

fn copy_opt_strings(v: &Option<Vec<String>>) -> (r: Option<Vec<String>>)
    ensures
        r is Some <==> v is Some,
        r is Some ==> strings_view(r->0@) == strings_view(v->0@),
        r is Some ==> r->0@.len() == v->0@.len(),
        r is Some ==> forall|k: int| 0 <= k < r->0@.len() ==> (#[trigger] r->0@[k])@ == v->0@[k]@,
{
    match v {
        Some(x) => {
            let c = crate::text::copy_strings(x);
            Some(c)
        },
        None => None,
    }
}

/// The tool-vote strategy a configuration selects (see [`tool_vote_matches`]).
pub fn tool_vote_of<T>(c: &ConfigRequest<T>) -> (r: Option<ToolVoteStrategy>)
    ensures
        tool_vote_matches(*c, r),
{
    let exclude = match &c.exclude_tool_args {
        Some(v) => crate::text::copy_strings(v),
        None => Vec::new(),
    };
    proof {
        if c.exclude_tool_args is None {
            assert(strings_view(exclude@) =~= Seq::<Seq<char>>::empty());
        }
    }
    match &c.tool_vote {
        None => None,
        Some(name) => {
            if crate::messages::eq_lit(name, "tool_args") {
                Some(ToolVoteStrategy::Args { exclude })
            } else if crate::messages::eq_lit(name, "tool_hierarchical") {
                Some(ToolVoteStrategy::Hierarchical { exclude })
            } else {
                Some(ToolVoteStrategy::Name)
            }
        },
    }
}

fn bad_request(m: String) -> (r: AppError)
    ensures
        r@ == AppErrorView::BadRequest(m@),
{
    AppError::BadRequest(m)
}

fn prefixed(prefix: &str, rest: &str) -> (r: String)
    ensures
        r@ == prefix@ + rest@,
{
    let mut r = crate::text::owned(prefix);
    r.append(rest);
    r
}

fn vote_plan<T>(c: &ConfigRequest<T>) -> (r: Result<SelfConsistency, AppError>)
    ensures
        match pattern_error(c.regex_patterns) {
            Some(e) => r is Err && r->Err_0@ == AppErrorView::BadRequest("invalid regex pattern: "@ + e),
            None => r is Ok && crate::self_consistency::compiled_as(c.regex_patterns, Ok(r->Ok_0))
                && tool_vote_matches(*c, r->Ok_0.tool_vote) && r->Ok_0.replace_error_with_message
                == c.replace_error_with_message,
        },
{
    let tool_vote = tool_vote_of(c);
    let patterns = copy_opt_strings(&c.regex_patterns);
    let ghost pv = patterns;
    let replacement = match &c.replace_error_with_message {
        Some(m) => Some(m.clone()),
        None => None,
    };
    let result = SelfConsistency::with_error_replacement(patterns, tool_vote, replacement);
    proof {
        lemma_same_patterns(pv, c.regex_patterns);
    }
    match result {
        Ok(sc) => Ok(sc),
        Err(e) => Err(bad_request(prefixed("invalid regex pattern: ", e.as_str()))),
    }
}

/// Copies of a pattern list compile alike.
proof fn lemma_same_patterns(a: Option<Vec<String>>, b: Option<Vec<String>>)
    requires
        a is Some <==> b is Some,
        a is Some ==> a->0@.len() == b->0@.len(),
        a is Some ==> forall|k: int| 0 <= k < a->0@.len() ==> (#[trigger] a->0@[k])@ == b->0@[k]@,
    ensures
        pattern_error(a) == pattern_error(b),
        forall|r: Result<SelfConsistency, String>| crate::self_consistency::compiled_as(a, r) == crate::self_consistency::compiled_as(b, r),
{
    if a is Some {
        let x = a->0@;
        let y = b->0@;
        lemma_first_bad_same(x, y, x.len() as int);
        lemma_first_bad_range(x, x.len() as int);
        match first_bad_pattern(x, x.len() as int) {
            Some(i) => {
                assert(x[i]@ == y[i]@);
            },
            None => {},
        }
        assert forall|r: Result<SelfConsistency, String>| crate::self_consistency::compiled_as(a, r) == crate::self_consistency::compiled_as(b, r) by {
            match first_bad_pattern(x, x.len() as int) {
                Some(i) => {
                    assert(x[i]@ == y[i]@);
                },
                None => {},
            }
        }
    }
}

proof fn lemma_first_bad_range(x: Seq<String>, n: int)
    requires
        0 <= n <= x.len(),
    ensures
        first_bad_pattern(x, n) matches Some(i) ==> 0 <= i < n,
    decreases n,
{
    if n > 0 {
        lemma_first_bad_range(x, n - 1);
    }
}

proof fn lemma_first_bad_same(x: Seq<String>, y: Seq<String>, n: int)
    requires
        x.len() == y.len(),
        0 <= n <= x.len(),
        forall|k: int| 0 <= k < x.len() ==> (#[trigger] x[k])@ == y[k]@,
    ensures
        first_bad_pattern(x, n) == first_bad_pattern(y, n),
    decreases n,
{
    if n > 0 {
        lemma_first_bad_same(x, y, n - 1);
        assert(x[n - 1]@ == y[n - 1]@);
    }
}

fn step_generation_of<T: Copy>(c: &ConfigRequest<T>, step_token: &String, default_temperature: T) -> (r: StepGeneration<T>)
    requires
        c.step_token == Some(*step_token),
    ensures
        step_generation_for(*c, default_temperature, r),
{
    let max_steps = match c.n {
        Some(n) => n,
        None => 10,
    };
    let temperature = match c.temperature {
        Some(t) => t,
        None => default_temperature,
    };
    let keep_stop = match c.include_stop_str_in_output {
        Some(b) => b,
        None => false,
    };
    let stop = match &c.stop_token {
        Some(s) => Some(s.clone()),
        None => None,
    };
    StepGeneration::with_step_token(StepToken::Single(step_token.clone()), max_steps, stop, temperature, keep_stop, None)
}

/// The algorithm and reward model names are told apart by their lengths and
/// first characters.
proof fn lemma_names_differ()
    ensures
        "self-consistency"@.len() == 16 && "self-consistency"@[0] == 's',
        "best-of-n"@.len() == 9,
        "beam-search"@.len() == 11,
        "particle-filtering"@.len() == 18,
        "particle-gibbs"@.len() == 14,
        "entropic-particle-filtering"@.len() == 27,
        "planning-wrapper"@.len() == 16 && "planning-wrapper"@[0] == 'p',
        "llm-judge"@.len() == 9,
        "http"@.len() == 4,
{
    reveal_strlit("self-consistency");
    reveal_strlit("best-of-n");
    reveal_strlit("beam-search");
    reveal_strlit("particle-filtering");
    reveal_strlit("particle-gibbs");
    reveal_strlit("entropic-particle-filtering");
    reveal_strlit("planning-wrapper");
    reveal_strlit("llm-judge");
    reveal_strlit("http");
}

/// What building the algorithm of configuration `c` gives (see
/// [`build_algorithm`]).
pub open spec fn algorithm_built<T>(
    c: ConfigRequest<T>,
    default_step_temperature: T,
    default_judge_temperature: T,
    r: Result<AlgorithmPlan<T>, AppError>,
) -> bool {
    &&& (missing_setting(c) is Some ==> r is Err && r->Err_0@ == AppErrorView::BadRequest(missing_setting(c)->0))
    &&& (missing_setting(c) is None && builds_vote(c) ==> match pattern_error(c.regex_patterns) {
            Some(e) => r is Err && r->Err_0@ == AppErrorView::BadRequest("invalid regex pattern: "@ + e),
            None => r is Ok && match r->Ok_0 {
                AlgorithmPlan::SelfConsistency(sc) => c.alg@ == "self-consistency"@ && crate::self_consistency::compiled_as(
                    c.regex_patterns,
                    Ok(sc),
                ) && tool_vote_matches(c, sc.tool_vote) && sc.replace_error_with_message == c.replace_error_with_message,
                AlgorithmPlan::PlanningWrapper { inner: InnerPlan::SelfConsistency(sc) } => c.alg@ == "planning-wrapper"@
                    && crate::self_consistency::compiled_as(c.regex_patterns, Ok(sc)) && tool_vote_matches(c, sc.tool_vote)
                    && sc.replace_error_with_message == c.replace_error_with_message,
                _ => false,
            }
        })
    &&& (missing_setting(c) is None && builds_judge(c) ==> match r {
            Err(e) => e@ == AppErrorView::BadRequest(
                "failed to create judge client: "@ + error_prefix(
                    crate::errors::ErrorView::Connection("invalid api key header: failed to parse header value"@),
                ) + "invalid api key header: failed to parse header value"@,
            ) && !crate::providers::key_sendable(crate::providers::ProviderView::OpenAI, judge_key(c)),
            Ok(AlgorithmPlan::BestOfN { reward: RewardPlan::Judge { client, criterion, temperature, max_tokens }, replace_error_with_message }) => {
                &&& crate::providers::key_sendable(crate::providers::ProviderView::OpenAI, judge_key(c))
                &&& judge_client_ok(c, client)
                &&& opt_view(client.authorization) == match judge_key(c) {
                    Some(k) => Some(crate::client::bearer(k)),
                    None => None,
                }
                &&& criterion@ == match c.judge_criterion {
                    Some(x) => x@,
                    None => "overall_quality"@,
                }
                &&& temperature == match c.judge_temperature {
                    Some(t) => t,
                    None => default_judge_temperature,
                }
                &&& max_tokens == match c.judge_max_tokens {
                    Some(m) => m,
                    None => 4096u32,
                }
                &&& replace_error_with_message == c.replace_error_with_message
            },
            _ => false
        })
    &&& (missing_setting(c) is None && c.alg@ == "best-of-n"@ && !builds_judge(c) ==> match r {
            Ok(AlgorithmPlan::BestOfN { reward: RewardPlan::Http { endpoint }, replace_error_with_message }) => endpoint@
                == c.rm_endpoint->0@ && replace_error_with_message == c.replace_error_with_message,
            _ => false
        })
    &&& (missing_setting(c) is None && c.alg@ == "planning-wrapper"@ && c.inner_alg->0@ == "best-of-n"@ ==> match r {
            Ok(AlgorithmPlan::PlanningWrapper { inner: InnerPlan::BestOfN { rm_endpoint, replace_error_with_message } }) => rm_endpoint@
                == c.rm_endpoint->0@ && replace_error_with_message == c.replace_error_with_message,
            _ => false
        })
    &&& (missing_setting(c) is None && c.alg@ == "beam-search"@ ==> match r {
            Ok(AlgorithmPlan::BeamSearch { step_generation, prm_endpoint, beam_width }) => step_generation_for(
                c,
                default_step_temperature,
                step_generation,
            ) && prm_endpoint@ == c.prm_endpoint->0@ && beam_width == match c.beam_width {
                Some(w) => w as usize,
                None => 2usize,
            },
            _ => false
        })
    &&& (missing_setting(c) is None && c.alg@ == "particle-filtering"@ ==> match r {
            Ok(AlgorithmPlan::ParticleFiltering { step_generation, prm_endpoint }) => step_generation_for(
                c,
                default_step_temperature,
                step_generation,
            ) && prm_endpoint@ == c.prm_endpoint->0@,
            _ => false
        })
    &&& (missing_setting(c) is None && c.alg@ == "particle-gibbs"@ ==> match r {
            Ok(AlgorithmPlan::ParticleGibbs { step_generation, prm_endpoint, num_iterations }) => step_generation_for(
                c,
                default_step_temperature,
                step_generation,
            ) && prm_endpoint@ == c.prm_endpoint->0@ && num_iterations == match c.num_iterations {
                Some(k) => k as usize,
                None => 2usize,
            },
            _ => false
        })
    &&& (missing_setting(c) is None && c.alg@ == "entropic-particle-filtering"@ ==> match r {
            Ok(AlgorithmPlan::EntropicParticleFiltering { step_generation, prm_endpoint, temperature_method }) => step_generation_for(
                c,
                default_step_temperature,
                step_generation,
            ) && prm_endpoint@ == c.prm_endpoint->0@ && temperature_method == match c.temperature_method {
                Some(m) => if m@ == "entropy"@ {
                    TemperatureMethod::Entropy
                } else if m@ == "base"@ {
                    TemperatureMethod::Base
                } else {
                    TemperatureMethod::Ess
                },
                None => TemperatureMethod::Ess,
            },
            _ => false
        })
}

/// Builds the algorithm a configuration names: refused with the message of
/// [`missing_setting`] where a setting is missing; for a vote, refused with
/// the first pattern's compile error; for a judge, refused when the judge's
/// client cannot be set up. `default_step_temperature` and
/// `default_judge_temperature` stand for the temperatures used when none is
/// configured.
pub fn build_algorithm<T: Copy>(
    c: &ConfigRequest<T>,
    default_step_temperature: T,
    default_judge_temperature: T,
) -> (r: Result<AlgorithmPlan<T>, AppError>)
    ensures
        algorithm_built(*c, default_step_temperature, default_judge_temperature, r),
{
    proof {
        lemma_names_differ();
    }
    let alg = c.alg.as_str();
    if str_is(alg, "self-consistency") {
        return match vote_plan(c) {
            Ok(sc) => Ok(AlgorithmPlan::SelfConsistency(sc)),
            Err(e) => Err(e),
        };
    }
    if str_is(alg, "best-of-n") {
        let replacement = match &c.replace_error_with_message {
            Some(m) => Some(m.clone()),
            None => None,
        };
        let judge = match &c.rm_name {
            Some(n) => crate::messages::eq_lit(n, "llm-judge"),
            None => false,
        };
        if judge {
            let judge_model = match &c.judge_model {
                Some(m) => m,
                None => {
                    return Err(bad_request(crate::text::owned("judge_model required when rm_name is llm-judge")));
                },
            };
            let base = match &c.judge_base_url {
                Some(b) => b.as_str(),
                None => c.endpoint.as_str(),
            };
            let key: Option<&str> = match &c.judge_api_key {
                Some(k) => Some(k.as_str()),
                None => match &c.api_key {
                    Some(k) => Some(k.as_str()),
                    None => None,
                },
            };
            let client = match LmClientSettings::new(base, key, judge_model.as_str(), 8, 3, None, None) {
                Ok(s) => s,
                Err(e) => {
                    let d = e.describe();
                    let m = prefixed("failed to create judge client: ", d.as_str());
                    assert(m@ =~= "failed to create judge client: "@ + error_prefix(
                        crate::errors::ErrorView::Connection("invalid api key header: failed to parse header value"@),
                    ) + "invalid api key header: failed to parse header value"@);
                    return Err(bad_request(m));
                },
            };
            let criterion = match &c.judge_criterion {
                Some(x) => x.clone(),
                None => crate::text::owned("overall_quality"),
            };
            let temperature = match c.judge_temperature {
                Some(t) => t,
                None => default_judge_temperature,
            };
            let max_tokens = match c.judge_max_tokens {
                Some(m) => m,
                None => 4096,
            };
            return Ok(AlgorithmPlan::BestOfN {
                reward: RewardPlan::Judge { client, criterion, temperature, max_tokens },
                replace_error_with_message: replacement,
            });
        }
        let endpoint = match &c.rm_endpoint {
            Some(e) => e.clone(),
            None => {
                return Err(bad_request(crate::text::owned("rm_endpoint required for best-of-n")));
            },
        };
        return Ok(AlgorithmPlan::BestOfN { reward: RewardPlan::Http { endpoint }, replace_error_with_message: replacement });
    }
    if str_is(alg, "beam-search") || str_is(alg, "particle-filtering") || str_is(alg, "particle-gibbs") || str_is(
        alg,
        "entropic-particle-filtering",
    ) {
        let step_token = match &c.step_token {
            Some(t) => t,
            None => {
                return Err(bad_request(prefixed("step_token required for ", alg)));
            },
        };
        let prm_endpoint = match &c.prm_endpoint {
            Some(p) => p.clone(),
            None => {
                return Err(bad_request(prefixed("prm_endpoint required for ", alg)));
            },
        };
        let step_generation = step_generation_of(c, step_token, default_step_temperature);
        if str_is(alg, "beam-search") {
            let beam_width: usize = match c.beam_width {
                Some(w) => w as usize,
                None => 2,
            };
            return Ok(AlgorithmPlan::BeamSearch { step_generation, prm_endpoint, beam_width });
        }
        if str_is(alg, "particle-filtering") {
            return Ok(AlgorithmPlan::ParticleFiltering { step_generation, prm_endpoint });
        }
        if str_is(alg, "particle-gibbs") {
            let num_iterations: usize = match c.num_iterations {
                Some(k) => k as usize,
                None => 2,
            };
            return Ok(AlgorithmPlan::ParticleGibbs { step_generation, prm_endpoint, num_iterations });
        }
        let temperature_method = match &c.temperature_method {
            Some(m) => if crate::messages::eq_lit(m, "entropy") {
                TemperatureMethod::Entropy
            } else if crate::messages::eq_lit(m, "base") {
                TemperatureMethod::Base
            } else {
                TemperatureMethod::Ess
            },
            None => TemperatureMethod::Ess,
        };
        return Ok(AlgorithmPlan::EntropicParticleFiltering { step_generation, prm_endpoint, temperature_method });
    }
    if str_is(alg, "planning-wrapper") {
        let inner_name = match &c.inner_alg {
            Some(i) => i,
            None => {
                return Err(bad_request(crate::text::owned("inner_alg required for planning-wrapper")));
            },
        };
        if crate::messages::eq_lit(inner_name, "self-consistency") {
            return match vote_plan(c) {
                Ok(sc) => Ok(AlgorithmPlan::PlanningWrapper { inner: InnerPlan::SelfConsistency(sc) }),
                Err(e) => Err(e),
            };
        }
        if crate::messages::eq_lit(inner_name, "best-of-n") {
            let rm_endpoint = match &c.rm_endpoint {
                Some(e) => e.clone(),
                None => {
                    return Err(bad_request(crate::text::owned("rm_endpoint required for best-of-n inner algorithm")));
                },
            };
            let replacement = match &c.replace_error_with_message {
                Some(m) => Some(m.clone()),
                None => None,
            };
            return Ok(AlgorithmPlan::PlanningWrapper {
                inner: InnerPlan::BestOfN { rm_endpoint, replace_error_with_message: replacement },
            });
        }
        return Err(bad_request(prefixed("unsupported inner algorithm for planning-wrapper: ", inner_name.as_str())));
    }
    let mut m = prefixed("unsupported algorithm: ", alg);
    m.append(
        ". Supported: self-consistency, best-of-n, beam-search, particle-filtering, particle-gibbs, entropic-particle-filtering, planning-wrapper",
    );
    Err(bad_request(m))
}

/// The configured algorithm can be built: its patterns compile, and a
/// judge's key can be sent in a header.
pub open spec fn algorithm_builds<T>(c: ConfigRequest<T>) -> bool {
    &&& builds_vote(c) ==> pattern_error(c.regex_patterns) is None
    &&& builds_judge(c) ==> crate::providers::key_sendable(crate::providers::ProviderView::OpenAI, judge_key(c))
}

/// The model's key, if any, can be sent in a header.
pub open spec fn model_key_ok<T>(c: ConfigRequest<T>) -> bool {
    match c.api_key {
        Some(k) => crate::client::header_value_ok(crate::client::bearer(k@)),
        None => true,
    }
}

/// What a reconfiguration installs.
pub struct ConfigurationPlan<T> {
    pub algorithm: AlgorithmPlan<T>,
    pub algorithm_name: String,
    pub model: String,
    pub client: LmClientSettings,
    /// How long an upstream request may take, in seconds.
    pub request_timeout_seconds: u64,
    pub passthrough_on_error: Option<bool>,
    pub cache_enabled: bool,
    /// The cache's capacity and time to live in seconds, when enabled.
    pub cache: Option<(usize, u64)>,
    pub message: String,
}

/// Plans a reconfiguration: refused without the admin token when one is
/// set; refused as [`build_algorithm`] refuses; refused when the model's
/// client cannot be set up. Otherwise the client of the model (64
/// concurrent requests, 8 retries and a 30 second timeout by default),
/// whether to fall back to passthrough (unchanged when not given), and the
/// cache (off by default; 10000 entries and 300 seconds by default).
pub fn plan_configuration<T: Copy>(
    c: &ConfigRequest<T>,
    admin_token: Option<&str>,
    authorization: &Option<crate::gateway::HeaderText>,
    default_step_temperature: T,
    default_judge_temperature: T,
) -> (r: Result<ConfigurationPlan<T>, AppError>)
    ensures
        !crate::gateway::admin_allows(str_opt_view(admin_token), crate::gateway::header_view(*authorization)) ==> r is Err
            && r->Err_0@ == AppErrorView::Unauthorized("valid admin token required"@),
        crate::gateway::admin_allows(str_opt_view(admin_token), crate::gateway::header_view(*authorization))
            && missing_setting(*c) is Some ==> r is Err && r->Err_0@ == AppErrorView::BadRequest(missing_setting(*c)->0),
        crate::gateway::admin_allows(str_opt_view(admin_token), crate::gateway::header_view(*authorization))
            && missing_setting(*c) is None ==> (r is Ok <==> algorithm_builds(*c) && model_key_ok(*c)),
        crate::gateway::admin_allows(str_opt_view(admin_token), crate::gateway::header_view(*authorization))
            && missing_setting(*c) is None && builds_vote(*c) && pattern_error(c.regex_patterns) is Some ==> r is Err
            && r->Err_0@ == AppErrorView::BadRequest("invalid regex pattern: "@ + pattern_error(c.regex_patterns)->0),
        crate::gateway::admin_allows(str_opt_view(admin_token), crate::gateway::header_view(*authorization))
            && missing_setting(*c) is None && builds_judge(*c) && !algorithm_builds(*c) ==> r is Err && r->Err_0@
            == AppErrorView::BadRequest(
            "failed to create judge client: "@ + error_prefix(
                crate::errors::ErrorView::Connection("invalid api key header: failed to parse header value"@),
            ) + "invalid api key header: failed to parse header value"@,
        ),
        crate::gateway::admin_allows(str_opt_view(admin_token), crate::gateway::header_view(*authorization))
            && missing_setting(*c) is None && algorithm_builds(*c) && !model_key_ok(*c) ==> r is Err && r->Err_0@
            == AppErrorView::BadRequest(
            "failed to create LM client: "@ + error_prefix(
                crate::errors::ErrorView::Connection("invalid api key header: failed to parse header value"@),
            ) + "invalid api key header: failed to parse header value"@,
        ),
        r is Ok ==> {
            let p = r->Ok_0;
            &&& algorithm_built(*c, default_step_temperature, default_judge_temperature, Ok(p.algorithm))
            &&& p.algorithm_name@ == c.alg@
            &&& p.model@ == c.model@
            &&& p.client.endpoint@ == crate::client::without_trailing_slashes(c.endpoint@)
            &&& p.client.model_name@ == c.model@
            &&& p.client.max_concurrency == match c.max_concurrent_requests {
                Some(m) => m,
                None => 64usize,
            }
            &&& p.client.max_retries == 8
            &&& p.client.system_prompt == c.system_prompt
            &&& p.client.include_stop_str_in_output == c.include_stop_str_in_output
            &&& p.request_timeout_seconds == match c.request_timeout_seconds {
                Some(t) => t,
                None => 30u64,
            }
            &&& p.passthrough_on_error == c.passthrough_on_error
            &&& p.cache_enabled == match c.cache_enabled {
                Some(b) => b,
                None => false,
            }
            &&& p.cache == if p.cache_enabled {
                Some(
                    (
                        match c.cache_max_entries {
                            Some(m) => m,
                            None => 10000usize,
                        },
                        match c.cache_ttl_seconds {
                            Some(t) => t,
                            None => 300u64,
                        },
                    ),
                )
            } else {
                None
            }
            &&& p.message@ == "Initialized "@ + c.model@ + " with "@ + c.alg@ + " algorithm"@
        },
{
    let allowed = crate::gateway::admin_authorized(admin_token, authorization);
    if !allowed {
        return Err(AppError::Unauthorized(crate::text::owned("valid admin token required")));
    }
    let algorithm = match build_algorithm(c, default_step_temperature, default_judge_temperature) {
        Ok(a) => a,
        Err(e) => {
            return Err(e);
        },
    };
    let max_concurrency = match c.max_concurrent_requests {
        Some(m) => m,
        None => 64,
    };
    let key: Option<&str> = match &c.api_key {
        Some(k) => Some(k.as_str()),
        None => None,
    };
    let system_prompt = match &c.system_prompt {
        Some(p) => Some(p.clone()),
        None => None,
    };
    let client = match LmClientSettings::new(
        c.endpoint.as_str(),
        key,
        c.model.as_str(),
        max_concurrency,
        8,
        system_prompt,
        c.include_stop_str_in_output,
    ) {
        Ok(s) => s,
        Err(e) => {
            let d = e.describe();
            let m = prefixed("failed to create LM client: ", d.as_str());
            assert(m@ =~= "failed to create LM client: "@ + error_prefix(
                crate::errors::ErrorView::Connection("invalid api key header: failed to parse header value"@),
            ) + "invalid api key header: failed to parse header value"@);
            return Err(bad_request(m));
        },
    };
    let cache_enabled = match c.cache_enabled {
        Some(b) => b,
        None => false,
    };
    let cache = if cache_enabled {
        let max_entries = match c.cache_max_entries {
            Some(m) => m,
            None => 10000,
        };
        let ttl = match c.cache_ttl_seconds {
            Some(t) => t,
            None => 300,
        };
        Some((max_entries, ttl))
    } else {
        None
    };
    let message = crate::gateway::configured_message(c.model.as_str(), c.alg.as_str());
    Ok(ConfigurationPlan {
        algorithm,
        algorithm_name: c.alg.clone(),
        model: c.model.clone(),
        client,
        request_timeout_seconds: match c.request_timeout_seconds {
            Some(t) => t,
            None => 30,
        },
        passthrough_on_error: c.passthrough_on_error,
        cache_enabled,
        cache,
        message,
    })
}

} // verus!
