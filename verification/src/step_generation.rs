//! Step-wise generation: how generated steps are stitched back into one
//! response, which stop string is sent, which temperature applies, and
//! when a step ends the generation.
//!
//! The temperature is carried as an opaque value of type `T` (the caller's
//! floating-point number): this module only stores and selects it.

use vstd::prelude::*;
use crate::messages::{
    content_text, message_view, messages_view, user_message_view, ChatMessage, ContentView,
    MessageView,
};
use crate::text::{seq_contains, seq_ends_with, seq_join, strings_view};

verus! {

/// `s` without `suffix` when `s` ends with it; `s` otherwise.
pub open spec fn strip_suffix_spec(s: Seq<char>, suffix: Seq<char>) -> Seq<char> {
    if seq_ends_with(s, suffix) {
        s.subrange(0, s.len() - suffix.len())
    } else {
        s
    }
}

/// Stripping a suffix undoes appending it.
pub proof fn law_strip_undoes_append(s: Seq<char>, suffix: Seq<char>)
    ensures
        strip_suffix_spec(s + suffix, suffix) == s,
{
    let t = s + suffix;
    assert(t.subrange(t.len() - suffix.len(), t.len() as int) =~= suffix);
    assert(t.subrange(0, t.len() - suffix.len()) =~= s);
}

/// Strips `suffix` from the end of `s` when `s` ends with it.
pub fn rstrip_iff_entire(s: &str, suffix: &str) -> (r: String)
    ensures
        r@ == strip_suffix_spec(s@, suffix@),
{
    let cs = crate::text::chars_of(s);
    let suf = crate::text::chars_of(suffix);
    if crate::text::chars_end_with(&cs, &suf) {
        let keep = cs.len() - suf.len();
        let mut out: Vec<char> = Vec::new();
        let mut i: usize = 0;
        while i < keep
            invariant
                keep <= cs@.len(),
                i <= keep,
                out@ == cs@.subrange(0, i as int),
            decreases keep - i,
        {
            out.push(cs[i]);
            i = i + 1;
            assert(out@ =~= cs@.subrange(0, i as int));
        }
        crate::text::string_of_chars(&out)
    } else {
        crate::text::owned(s)
    }
}

/// The delimiter of steps: one string, or several strings.
#[derive(Debug, Clone, PartialEq, Eq)]
pub enum StepToken {
    Single(String),
    Multiple(Vec<String>),
}

/// How steps are delimited: by a step token, or by a fixed number of tokens.
#[derive(Debug, Clone, PartialEq, Eq)]
pub enum StepMode {
    StepToken(StepToken),
    TokensPerStep(u32),
}

/// A second temperature, used while the assistant's partial response has
/// opened `open_token` without closing it with `close_token`.
#[derive(Debug, Clone)]
pub struct TemperatureSwitch<T> {
    pub temperature: T,
    pub open_token: String,
    pub close_token: String,
}

/// The configuration of step-wise generation.
#[derive(Debug, Clone)]
pub struct StepGeneration<T> {
    pub step_mode: StepMode,
    pub max_steps: u32,
    pub stop_token: Option<String>,
    pub temperature: T,
    pub include_stop_str_in_output: bool,
    pub temperature_switch: Option<TemperatureSwitch<T>>,
}

/// The steps as the response text: when the delimiters are part of the
/// output, the steps concatenated (the stop token stripped from the last
/// step once stopped); otherwise joined by the single step token (which also
/// ends an unfinished response), or concatenated.
pub open spec fn post_processed<T>(g: StepGeneration<T>, steps: Seq<Seq<char>>, stopped: bool) -> Seq<char> {
    if g.include_stop_str_in_output {
        if stopped && g.stop_token is Some && steps.len() > 0 {
            seq_join(
                steps.update(steps.len() - 1, strip_suffix_spec(steps.last(), g.stop_token->0@)),
                Seq::empty(),
            )
        } else {
            seq_join(steps, Seq::empty())
        }
    } else {
        match g.step_mode {
            StepMode::StepToken(StepToken::Single(tok)) => {
                if stopped {
                    seq_join(steps, tok@)
                } else {
                    seq_join(steps, tok@) + tok@
                }
            },
            _ => seq_join(steps, Seq::empty()),
        }
    }
}

/// The stop string sent with each step: the single step token, the first of
/// several step tokens (falling back to the stop token when there are none),
/// or the stop token.
pub open spec fn stop_string<T>(g: StepGeneration<T>) -> Option<Seq<char>> {
    match g.step_mode {
        StepMode::StepToken(StepToken::Single(tok)) => Some(tok@),
        StepMode::StepToken(StepToken::Multiple(toks)) if toks@.len() > 0 => Some(toks@[0]@),
        _ => match g.stop_token {
            Some(s) => Some(s@),
            None => None,
        },
    }
}

/// The temperature for the next step after `msgs`: the switch temperature
/// when the last message is the assistant's and its text holds the open
/// token but not the close token; the base temperature otherwise.
pub open spec fn temperature_for<T>(g: StepGeneration<T>, msgs: Seq<MessageView>) -> T {
    match g.temperature_switch {
        Some(sw) => {
            if msgs.len() > 0 && msgs.last().role == "assistant"@ && seq_contains(
                content_text(msgs.last().content),
                sw.open_token@,
            ) && !seq_contains(content_text(msgs.last().content), sw.close_token@) {
                sw.temperature
            } else {
                g.temperature
            }
        },
        None => g.temperature,
    }
}

/// The messages sent for the next step: the prompt as a user message, then,
/// once steps exist, the unfinished response as an assistant message.
pub open spec fn step_messages<T>(g: StepGeneration<T>, prompt: Seq<char>, steps: Seq<Seq<char>>) -> Seq<MessageView> {
    if steps.len() == 0 {
        seq![user_message_view(prompt)]
    } else {
        seq![
            user_message_view(prompt),
            MessageView {
                role: "assistant"@,
                content: Some(ContentView::Text(post_processed(g, steps, false))),
                tool_calls: None,
                tool_call_id: None,
            },
        ]
    }
}

fn concat_all(parts: &Vec<String>) -> (r: String)
    ensures
        r@ == seq_join(strings_view(parts@), Seq::empty()),
{
    proof {
        reveal_strlit("");
    }
    assert(""@ =~= Seq::<char>::empty());
    crate::text::join_strings(parts, "")
}

impl<T: Copy> StepGeneration<T> {
    /// Step-wise generation delimited by `step_token`. Several step tokens
    /// are only allowed when the delimiters are kept in the output.
    pub fn with_step_token(
        step_token: StepToken,
        max_steps: u32,
        stop_token: Option<String>,
        temperature: T,
        include_stop_str_in_output: bool,
        temperature_switch: Option<TemperatureSwitch<T>>,
    ) -> (r: StepGeneration<T>)
        requires
            include_stop_str_in_output || step_token is Single,
        ensures
            r == (StepGeneration {
                step_mode: StepMode::StepToken(step_token),
                max_steps,
                stop_token,
                temperature,
                include_stop_str_in_output,
                temperature_switch,
            }),
    {
        StepGeneration {
            step_mode: StepMode::StepToken(step_token),
            max_steps,
            stop_token,
            temperature,
            include_stop_str_in_output,
            temperature_switch,
        }
    }

    /// Step-wise generation in steps of `tokens_per_step` tokens; refused
    /// when that number is zero.
    pub fn with_tokens_per_step(
        tokens_per_step: u32,
        max_steps: u32,
        stop_token: Option<String>,
        temperature: T,
        include_stop_str_in_output: bool,
        temperature_switch: Option<TemperatureSwitch<T>>,
    ) -> (r: Result<StepGeneration<T>, String>)
        ensures
            tokens_per_step == 0 <==> r is Err,
            r is Err ==> r->Err_0@ == "tokens_per_step must be a positive integer"@,
            r is Ok ==> r->Ok_0 == (StepGeneration {
                step_mode: StepMode::TokensPerStep(tokens_per_step),
                max_steps,
                stop_token,
                temperature,
                include_stop_str_in_output,
                temperature_switch,
            }),
    {
        if tokens_per_step == 0 {
            return Err(crate::text::owned("tokens_per_step must be a positive integer"));
        }
        Ok(StepGeneration {
            step_mode: StepMode::TokensPerStep(tokens_per_step),
            max_steps,
            stop_token,
            temperature,
            include_stop_str_in_output,
            temperature_switch,
        })
    }

    /// The step token, in step-token mode.
    pub fn step_token(&self) -> (r: Option<&StepToken>)
        ensures
            match self.step_mode {
                StepMode::StepToken(st) => r == Some(&st),
                StepMode::TokensPerStep(_) => r is None,
            },
    {
        match &self.step_mode {
            StepMode::StepToken(st) => Some(st),
            StepMode::TokensPerStep(_) => None,
        }
    }

    /// The number of tokens per step, in that mode.
    pub fn tokens_per_step(&self) -> (r: Option<u32>)
        ensures
            match self.step_mode {
                StepMode::TokensPerStep(n) => r == Some(n),
                StepMode::StepToken(_) => r is None,
            },
    {
        match &self.step_mode {
            StepMode::TokensPerStep(n) => Some(*n),
            StepMode::StepToken(_) => None,
        }
    }

    /// The response text made of `steps` (see [`post_processed`]).
    pub fn post_process(&self, steps: &Vec<String>, stopped: bool) -> (r: String)
        ensures
            r@ == post_processed(*self, strings_view(steps@), stopped),
    {
        let ghost sv = strings_view(steps@);
        if self.include_stop_str_in_output {
            if stopped && self.stop_token.is_some() && steps.len() > 0 {
                let stop = match &self.stop_token {
                    Some(t) => t,
                    None => {
                        assert(false);
                        return String::new();
                    },
                };
                let mut v: Vec<String> = Vec::new();
                let last = steps.len() - 1;
                let mut i: usize = 0;
                while i < last
                    invariant
                        last + 1 == steps@.len(),
                        i <= last,
                        v@.len() == i,
                        forall|j: int| 0 <= j < i ==> (#[trigger] v@[j])@ == steps@[j]@,
                    decreases last - i,
                {
                    v.push(steps[i].clone());
                    i = i + 1;
                }
                v.push(rstrip_iff_entire(steps[last].as_str(), stop.as_str()));
                assert(strings_view(v@) =~= sv.update(sv.len() - 1, strip_suffix_spec(sv.last(), stop@)));
                concat_all(&v)
            } else {
                concat_all(steps)
            }
        } else {
            match &self.step_mode {
                StepMode::StepToken(StepToken::Single(tok)) => {
                    let mut r = crate::text::join_strings(steps, tok.as_str());
                    if !stopped {
                        r.append(tok.as_str());
                    }
                    r
                },
                _ => concat_all(steps),
            }
        }
    }

    /// The temperature for the next step after `messages` (see [`temperature_for`]).
    pub fn get_temperature(&self, messages: &Vec<ChatMessage>) -> (r: T)
        ensures
            r == temperature_for(*self, messages_view(messages@)),
    {
        let ghost mv = messages_view(messages@);
        match &self.temperature_switch {
            None => self.temperature,
            Some(sw) => {
                if messages.len() > 0 {
                    let last = &messages[messages.len() - 1];
                    assert(mv.last() == message_view(*last));
                    if crate::messages::eq_lit(&last.role, "assistant") {
                        let text = last.extract_text_content();
                        if crate::text::text_contains(text.as_str(), sw.open_token.as_str())
                            && !crate::text::text_contains(text.as_str(), sw.close_token.as_str()) {
                            return sw.temperature;
                        }
                    }
                }
                self.temperature
            },
        }
    }

    /// The stop string sent with each step (see [`stop_string`]).
    pub fn build_stop_string(&self) -> (r: Option<String>)
        ensures
            crate::voting::opt_view(r) == stop_string(*self),
    {
        match &self.step_mode {
            StepMode::StepToken(StepToken::Single(tok)) => {
                return Some(tok.clone());
            },
            StepMode::StepToken(StepToken::Multiple(toks)) => {
                if toks.len() > 0 {
                    return Some(toks[0].clone());
                }
            },
            StepMode::TokensPerStep(_) => {},
        }
        match &self.stop_token {
            Some(s) => Some(s.clone()),
            None => None,
        }
    }

    /// Whether `text` holds the stop token (never, without one).
    pub fn contains_stop_token(&self, text: &str) -> (r: bool)
        ensures
            r == (self.stop_token is Some && seq_contains(text@, self.stop_token->0@)),
    {
        match &self.stop_token {
            Some(stop) => crate::text::text_contains(text, stop.as_str()),
            None => false,
        }
    }

    /// The messages sent to generate the next step after `steps_so_far`
    /// (see [`step_messages`]).
    pub fn step_request_messages(&self, prompt: &str, steps_so_far: &Vec<String>) -> (r: Vec<ChatMessage>)
        ensures
            messages_view(r@) == step_messages(*self, prompt@, strings_view(steps_so_far@)),
    {
        let mut msgs: Vec<ChatMessage> = Vec::new();
        msgs.push(ChatMessage::user(crate::text::owned(prompt)));
        if steps_so_far.len() > 0 {
            let partial = self.post_process(steps_so_far, false);
            msgs.push(ChatMessage::assistant(partial));
        }
        assert(messages_view(msgs@) =~= step_messages(*self, prompt@, strings_view(steps_so_far@)));
        msgs
    }

    /// Whether a generated step ends the generation: it is empty, it holds
    /// the stop token, or the steps before it already reached the most
    /// steps.
    pub fn step_is_final(&self, content: &str, steps_so_far: &Vec<String>) -> (r: bool)
        ensures
            r == (content@.len() == 0 || (self.stop_token is Some && seq_contains(content@, self.stop_token->0@))
                || steps_so_far@.len() >= self.max_steps),
    {
        content.is_empty() || self.contains_stop_token(content) || steps_so_far.len() >= self.max_steps as usize
    }
}

/// Why a budget cannot be split into beams.
pub open spec fn beam_budget_error(budget: u32, beam_width: usize) -> Option<Seq<char>> {
    if (budget as int) < (beam_width as int) {
        Some("budget must be greater than or equal to beam_width"@)
    } else if beam_width == 0 || (budget as int) % (beam_width as int) != 0 {
        Some("budget must be divisible by beam_width"@)
    } else {
        None
    }
}

/// The number of beams a budget pays for: the budget divided by the beam
/// width, which must divide it and not exceed it.
pub fn beam_count(budget: u32, beam_width: usize) -> (r: Result<usize, String>)
    requires
        beam_width > 0 || budget > 0,
    ensures
        match r {
            Ok(n) => beam_budget_error(budget, beam_width) is None && n == (budget as int) / (beam_width as int),
            Err(m) => beam_budget_error(budget, beam_width) == Some(m@),
        },
{
    let b = budget as usize;
    if b < beam_width {
        return Err(crate::text::owned("budget must be greater than or equal to beam_width"));
    }
    if beam_width == 0 || b % beam_width != 0 {
        return Err(crate::text::owned("budget must be divisible by beam_width"));
    }
    Ok(b / beam_width)
}

impl<T: Copy> StepGeneration<T> {
    /// Whether a path stops after taking a step: the step was final, or the
    /// path reached the most steps.
    pub fn path_stops(&self, steps_taken: usize, step_was_final: bool) -> (r: bool)
        ensures
            r == (step_was_final || steps_taken >= self.max_steps),
    {
        step_was_final || steps_taken >= self.max_steps as usize
    }
}

} // verus!
