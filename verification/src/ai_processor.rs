//! Topic extraction and summarization through an OpenAI-compatible chat API:
//! the prompt, the request messages, and the reading of the reply.
use vstd::prelude::*;

use crate::config::Config;
use crate::text::{decimal, join_url, join_url_spec, push_decimal, string_views, trim, trim_spec};

verus! {

/// Opening of the system prompt, up to the list of existing topics.
pub const PROMPT_HEAD: &'static str = r#"You are a context analyzer for a personal AI knowledge management system.
This system acts as middleware that processes raw sensor inputs (OCR, voice transcripts,
memos, etc.) and routes them into a "Hot Memory" slot system backed by Redis.
Each slot represents an ongoing context/topic in the user's life.

## Your Task

Analyze the given raw input and produce a JSON object with exactly two fields:
"topic" and "summary".

## Topic Selection Rules

Below is the list of EXISTING active topics (slots). Your job is to choose the
**best matching existing topic** if the input clearly belongs to one of them.
Only create a NEW topic if the input does NOT fit any existing topic.

Existing topics:
"#;

/// Closing of the system prompt, after the list of existing topics.
pub const PROMPT_TAIL: &'static str = r#"

When deciding:
- Same project/task with slightly different phrasing → REUSE the exact existing topic string
  (e.g., if existing is "英文読解 ソクモン 開発", and input is about ソクモン debugging,
  output exactly "英文読解 ソクモン 開発")
- Completely different context → create a new concise label (1-5 words, Japanese or English)
- Topic should capture WHAT the user is working on, not how the data was captured

## Summary Rules (CRITICAL — this data feeds a personal knowledge base)

The summary must preserve ALL information that could be valuable for future
reference. This is NOT a casual TL;DR. Extract and structure the following
with high fidelity:

1. **User identity & attributes**: name, role, affiliations, preferences, skills
   mentioned, accounts, devices used
2. **Current activity & state**: what the user is doing right now, where they are,
   what application/file they are working with, their physical/mental state
3. **Thoughts & decisions**: what the user is thinking, decisions being made,
   questions being asked, reasoning processes, opinions expressed
4. **Discoveries & learnings**: new information acquired, insights gained,
   problems solved, answers found, skills learned
5. **Concrete work content**: specific code being written, documents being edited,
   data being analyzed, URLs visited, commands run, error messages encountered,
   specific numbers/figures/metrics
6. **Action items & intentions**: things the user plans to do, deadlines,
   commitments, reminders mentioned
7. **Relationships & context**: people mentioned, how topics connect, timeline
   of events, cause and effect

Be thorough. If the input is long and rich, your summary should be proportionally
detailed. Do NOT drop specifics for the sake of brevity. A 2-page document
deserves a substantial summary. Omit only obvious noise and OCR artifacts.

## Output Format

Respond ONLY with valid JSON (no markdown fences, no extra text):
{"topic": "<chosen or new topic>", "summary": "<structured summary>"}"#;

/// Stands in the prompt for the list when there is no active topic.
pub const NO_TOPICS: &'static str = "(none — no existing topics yet)";

/// One numbered line of the topic list: `  {i+1}. "{topic}"`.
pub open spec fn topic_line(i: nat, t: Seq<char>) -> Seq<char> {
    "  "@ + decimal(i + 1) + ". \""@ + t + "\""@
}

/// Lines for the first `k` topics, joined by newlines.
pub open spec fn topic_lines(ts: Seq<Seq<char>>, k: int) -> Seq<char>
    decreases k,
{
    if k <= 0 {
        Seq::empty()
    } else if k == 1 {
        topic_line(0, ts[0])
    } else {
        topic_lines(ts, k - 1) + "\n"@ + topic_line((k - 1) as nat, ts[k - 1])
    }
}

/// The topic list as it stands in the prompt.
pub open spec fn topics_list(ts: Seq<Seq<char>>) -> Seq<char> {
    if ts.len() == 0 { NO_TOPICS@ } else { topic_lines(ts, ts.len() as int) }
}

/// The system prompt for a given list of existing topics.
pub open spec fn system_prompt_spec(ts: Seq<Seq<char>>) -> Seq<char> {
    PROMPT_HEAD@ + topics_list(ts) + PROMPT_TAIL@
}


/// The system prompt that asks the model for a topic and a summary, listing
/// the topics of the active slots so that the model can reuse one of them.
pub fn build_system_prompt(existing_topics: &[String]) -> (p: String)
    ensures
        p@ == system_prompt_spec(string_views(existing_topics@)),
{
    let ghost ts = string_views(existing_topics@);
    let mut p = String::from_str(PROMPT_HEAD);
    let n = existing_topics.len();
    if n == 0 {
        p.append(NO_TOPICS);
    } else {
        let mut i: usize = 0;
        while i < n
            invariant
                n == existing_topics@.len(),
                ts == string_views(existing_topics@),
                i <= n,
                p@ == PROMPT_HEAD@ + topic_lines(ts, i as int),
            decreases n - i,
        {
            let ghost before = p@;
            if i > 0 {
                p.append("\n");
            }
            p.append("  ");
            let number: usize = i + 1;
            push_decimal(&mut p, number as u64);
            p.append(". \"");
            p.append(existing_topics[i].as_str());
            p.append("\"");
            proof {
                assert(ts[i as int] == existing_topics@[i as int]@);
                if i == 0 {
                    assert(p@ =~= before + topic_line(0, ts[0]));
                } else {
                    assert(p@ =~= before + "\n"@ + topic_line(i as nat, ts[i as int]));
                }
            }
            i = i + 1;
        }
    }
    p.append(PROMPT_TAIL);
    p
}

/// URL of the chat completion endpoint under `base_url`.
pub fn chat_completions_url(base_url: &str) -> (u: String)
    ensures
        u@ == join_url_spec(base_url@, "/chat/completions"@),
{
    join_url(base_url, "/chat/completions")
}

/// The user message that carries a raw input to the model.
pub open spec fn user_message_spec(source: Seq<char>, raw_content: Seq<char>) -> Seq<char> {
    "Source: "@ + source + "\n\nRaw content:\n"@ + raw_content
}

pub fn build_user_message(source: &str, raw_content: &str) -> (m: String)
    ensures
        m@ == user_message_spec(source@, raw_content@),
{
    let mut m = String::from_str("Source: ");
    m.append(source);
    m.append("\n\nRaw content:\n");
    m.append(raw_content);
    m
}

/// A chat message of the request.
#[derive(Debug, Clone, PartialEq, Eq)]
pub struct ChatMessage {
    pub role: String,
    pub content: String,
}

/// The two messages of a topic request: the system prompt, then the input.
pub fn chat_messages(system_prompt: String, user_message: String) -> (m: Vec<ChatMessage>)
    ensures
        m@.len() == 2,
        m@[0].role@ == "system"@,
        m@[0].content == system_prompt,
        m@[1].role@ == "user"@,
        m@[1].content == user_message,
{
    let mut m: Vec<ChatMessage> = Vec::new();
    m.push(ChatMessage { role: String::from_str("system"), content: system_prompt });
    m.push(ChatMessage { role: String::from_str("user"), content: user_message });
    m
}

/// A chat completion request to the configured AI service (sent with a low
/// temperature and a JSON-object response format).
#[derive(Debug, Clone, PartialEq, Eq)]
pub struct ChatRequest {
    pub url: String,
    pub model: String,
    pub messages: Vec<ChatMessage>,
    /// Bearer token, when an API key is configured.
    pub bearer: Option<String>,
    /// Sampling temperature, in tenths (1 is a temperature of 0.1).
    pub temperature_tenths: u32,
    /// The `type` of the response format asked for.
    pub response_format: String,
}

/// A chat request to the configured service with these two messages.
pub fn chat_request(config: &Config, system_prompt: String, user_message: String) -> (r: ChatRequest)
    ensures
        r.url@ == join_url_spec(config.ai_base_url@, "/chat/completions"@),
        r.model == config.ai_model,
        r.bearer == config.ai_api_key,
        r.messages@.len() == 2,
        r.messages@[0].role@ == "system"@,
        r.messages@[0].content == system_prompt,
        r.messages@[1].role@ == "user"@,
        r.messages@[1].content == user_message,
        r.temperature_tenths == 1,
        r.response_format@ == "json_object"@,
{
    let bearer = match &config.ai_api_key {
        Some(k) => Some(k.clone()),
        None => None,
    };
    ChatRequest {
        url: chat_completions_url(config.ai_base_url.as_str()),
        model: config.ai_model.clone(),
        messages: chat_messages(system_prompt, user_message),
        bearer,
        temperature_tenths: 1,
        response_format: String::from_str("json_object"),
    }
}

/// The request that asks for the topic and summary of a raw input, offering
/// the topics of the active slots for reuse.
pub fn topic_request(config: &Config, source: &str, raw_content: &str, existing_topics: &[String]) -> (r: ChatRequest)
    ensures
        r.url@ == join_url_spec(config.ai_base_url@, "/chat/completions"@),
        r.model == config.ai_model,
        r.bearer == config.ai_api_key,
        r.messages@.len() == 2,
        r.messages@[0].role@ == "system"@,
        r.messages@[0].content@ == system_prompt_spec(string_views(existing_topics@)),
        r.messages@[1].role@ == "user"@,
        r.messages@[1].content@ == user_message_spec(source@, raw_content@),
        r.temperature_tenths == 1,
        r.response_format@ == "json_object"@,
{
    chat_request(config, build_system_prompt(existing_topics), build_user_message(source, raw_content))
}

/// Why a topic request failed.
#[derive(Debug, Clone, PartialEq, Eq)]
pub enum AiError {
    /// The API answered with a non-success status (its text) and this body.
    Api { status: String, body: String },
    /// The reply held no choice.
    NoChoices,
    /// The model's content is not the expected JSON object.
    InvalidJson { error: String, raw: String },
    /// The request could not be made or its reply not read.
    Transport(String),
}

pub open spec fn ai_error_message_spec(e: AiError) -> Seq<char> {
    match e {
        AiError::Api { status, body } => "AI API error ("@ + status@ + "): "@ + body@,
        AiError::NoChoices => "AI API returned no choices"@,
        AiError::InvalidJson { error, raw } =>
            "Failed to parse AI response as JSON: "@ + error@ + ". Raw: "@ + raw@,
        AiError::Transport(m) => m@,
    }
}

impl AiError {
    /// The error's message.
    pub fn message(&self) -> (m: String)
        ensures
            m@ == ai_error_message_spec(*self),
    {
        match self {
            AiError::Api { status, body } => {
                let mut m = String::from_str("AI API error (");
                m.append(status.as_str());
                m.append("): ");
                m.append(body.as_str());
                m
            },
            AiError::NoChoices => String::from_str("AI API returned no choices"),
            AiError::InvalidJson { error, raw } => {
                let mut m = String::from_str("Failed to parse AI response as JSON: ");
                m.append(error.as_str());
                m.append(". Raw: ");
                m.append(raw.as_str());
                m
            },
            AiError::Transport(t) => t.clone(),
        }
    }
}

/// The content of the first choice of a reply, trimmed; an error when there is none.
pub fn reply_content(first_choice: Option<String>) -> (r: Result<String, AiError>)
    ensures
        first_choice is None ==> r == Err::<String, AiError>(AiError::NoChoices),
        first_choice matches Some(c) ==> r matches Ok(t) && t@ == trim_spec(c@),
{
    match first_choice {
        Some(c) => Ok(trim(c.as_str())),
        None => Err(AiError::NoChoices),
    }
}

} // verus!
