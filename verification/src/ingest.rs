//! Decisions of the log ingestion endpoint: the preview written to the log,
//! and the reply sent for each outcome of the pipeline.
use vstd::prelude::*;

verus! {

/// `s` cut to its first `max_len` characters, followed by `...` when it was longer.
pub open spec fn truncate_spec(s: Seq<char>, max_len: nat) -> Seq<char> {
    if s.len() <= max_len { s } else { s.take(max_len as int) + "..."@ }
}

/// Truncates a string to at most `max_len` characters, appending "..." if truncated.
pub fn truncate_str(s: &str, max_len: usize) -> (r: String)
    ensures
        r@ == truncate_spec(s@, max_len as nat),
{
    if s.unicode_len() <= max_len {
        String::from_str(s)
    } else {
        let mut r = String::from_str(s.substring_char(0, max_len));
        r.append("...");
        assert(s@.subrange(0, max_len as int) =~= s@.take(max_len as int));
        r
    }
}

/// The preview keeps at most `max_len` characters of the text, as its prefix,
/// and marks a cut with "...": the text is unchanged exactly when it fits.
pub proof fn law_truncation_is_a_marked_prefix(s: Seq<char>, max_len: nat)
    ensures
        s.len() <= max_len ==> truncate_spec(s, max_len) == s,
        s.len() > max_len ==> {
            &&& truncate_spec(s, max_len).len() == max_len + 3
            &&& truncate_spec(s, max_len).take(max_len as int) == s.take(max_len as int)
            &&& truncate_spec(s, max_len).skip(max_len as int) == "..."@
        },
{
    reveal_strlit("...");
    if s.len() > max_len {
        let t = truncate_spec(s, max_len);
        assert(t.take(max_len as int) =~= s.take(max_len as int));
        assert(t.skip(max_len as int) =~= "..."@);
    }
}

/// The stage of the ingestion pipeline that failed.
#[derive(Debug, Clone, Copy, PartialEq, Eq)]
pub enum IngestStage {
    /// Reading the topics of the active slots.
    FetchTopics,
    /// Topic extraction and summarization by the AI service.
    AiProcessing,
    /// Placing the log into a slot.
    SlotPlacement,
}

/// The reply of the ingestion endpoint.
#[derive(Debug, Clone, PartialEq, Eq)]
pub enum IngestReply {
    /// `{"status": "success", "slot_id": ...}` with status 200.
    Success { slot_id: String },
    /// `{"status": "error", "message": ...}` with status 500.
    Failure { message: String },
}

pub open spec fn status_code_spec(r: IngestReply) -> u16 {
    match r {
        IngestReply::Success { .. } => 200,
        IngestReply::Failure { .. } => 500,
    }
}

/// The error message sent when `stage` fails with `error`: AI failures are
/// prefixed with "AI processing failed: ", the others are sent as they are.
pub open spec fn failure_message_spec(stage: IngestStage, error: Seq<char>) -> Seq<char> {
    match stage {
        IngestStage::AiProcessing => "AI processing failed: "@ + error,
        _ => error,
    }
}

impl IngestReply {
    /// The reply when the log was placed in `slot_id`.
    pub fn success(slot_id: String) -> (r: IngestReply)
        ensures
            r == (IngestReply::Success { slot_id }),
    {
        IngestReply::Success { slot_id }
    }

    /// The reply when `stage` failed with `error`.
    pub fn failure(stage: IngestStage, error: &str) -> (r: IngestReply)
        ensures
            r matches IngestReply::Failure { message } && message@ == failure_message_spec(stage, error@),
    {
        match stage {
            IngestStage::AiProcessing => {
                let mut m = String::from_str("AI processing failed: ");
                m.append(error);
                IngestReply::Failure { message: m }
            },
            _ => IngestReply::Failure { message: String::from_str(error) },
        }
    }

    /// The HTTP status of the reply: 200 on success, 500 on failure.
    pub fn status_code(&self) -> (c: u16)
        ensures
            c == status_code_spec(*self),
    {
        match self {
            IngestReply::Success { .. } => 200,
            IngestReply::Failure { .. } => 500,
        }
    }
}

} // verus!
