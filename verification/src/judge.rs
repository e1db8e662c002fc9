//! The judge boundary: why a judge could not answer, and when to ask again.

use crate::question::QuestionName;
use crate::text;
use crate::text::decimal_text;
use crate::time::{Duration, NANOS_PER_SEC};
use vstd::prelude::*;

verus! {

/// Why a judge could not produce answers.
#[derive(Debug, PartialEq, Eq)]
pub enum JudgeError {
    /// The judge could not be reached.
    Unavailable {
        /// Transport-level detail.
        reason: String,
    },
    /// The judge refused the request.
    Rejected {
        /// Protocol status code, when the transport has one.
        status: u16,
        /// The judge's message.
        message: String,
    },
    /// The judge replied, but one answer could not be decoded.
    MalformedAnswer {
        /// The question whose answer was malformed.
        question: QuestionName,
        /// What was wrong.
        detail: String,
    },
    /// The judge replied with something that was not an answer set at all.
    MalformedReply {
        /// What was wrong.
        detail: String,
    },
    /// The judge did not answer within the configured limit.
    TimedOut {
        /// The limit that elapsed.
        after: Duration,
    },
}

/// What a [`JudgeError`] stands for.
#[verifier::ext_equal]
pub enum JudgeErrorView {
    /// The judge could not be reached.
    Unavailable { reason: Seq<char> },
    /// The judge refused the request.
    Rejected { status: u16, message: Seq<char> },
    /// One answer could not be decoded.
    MalformedAnswer { question: Seq<char>, detail: Seq<char> },
    /// The reply was not an answer set at all.
    MalformedReply { detail: Seq<char> },
    /// The limit, in nanoseconds, elapsed without an answer.
    TimedOut { after: nat },
}

impl View for JudgeError {
    type V = JudgeErrorView;

    open spec fn view(&self) -> JudgeErrorView {
        match *self {
            JudgeError::Unavailable { reason } => JudgeErrorView::Unavailable { reason: reason@ },
            JudgeError::Rejected { status, message } => JudgeErrorView::Rejected {
                status,
                message: message@,
            },
            JudgeError::MalformedAnswer { question, detail } => JudgeErrorView::MalformedAnswer {
                question: question@,
                detail: detail@,
            },
            JudgeError::MalformedReply { detail } => JudgeErrorView::MalformedReply {
                detail: detail@,
            },
            JudgeError::TimedOut { after } => JudgeErrorView::TimedOut { after: after@ },
        }
    }
}

/// The status signals a temporary condition: a timeout, throttling, or any
/// error on the server's side.
pub open spec fn transient_status(status: u16) -> bool {
    status == 408 || status == 429 || 500 <= status <= 599
}

/// A later attempt may succeed without any change on our side.
pub open spec fn transient(error: JudgeErrorView) -> bool {
    match error {
        JudgeErrorView::Unavailable { .. } => true,
        JudgeErrorView::TimedOut { .. } => true,
        JudgeErrorView::Rejected { status, .. } => transient_status(status),
        JudgeErrorView::MalformedAnswer { .. } => false,
        JudgeErrorView::MalformedReply { .. } => false,
    }
}

/// How a span of `secs` seconds and `nanos` nanoseconds is shown to a developer.
pub uninterp spec fn duration_debug(secs: u64, nanos: u32) -> Seq<char>;

/// The `Debug` form of `std::time::Duration`, as `format!("{:?}", ..)` gives it
/// for the span made by `Duration::new`. Nothing is claimed of it but that the
/// span decides the text.
#[verifier::external_body]
fn debug_text(secs: u64, nanos: u32) -> (shown: String)
    requires
        nanos < NANOS_PER_SEC,
    ensures
        shown@ == duration_debug(secs, nanos),
{
    format!("{:?}", std::time::Duration::new(secs, nanos))
}

/// A judge error in words.
pub open spec fn judge_error_text(error: JudgeErrorView) -> Seq<char> {
    match error {
        JudgeErrorView::Unavailable { reason } => "judge unavailable: "@ + reason,
        JudgeErrorView::Rejected { status, message } =>
        "judge rejected the request with status "@ + text::decimal(status as nat) + ": "@ + message,
        JudgeErrorView::MalformedAnswer { question, detail } => "malformed answer to "@ + question
            + ": "@ + detail,
        JudgeErrorView::MalformedReply { detail } => "malformed reply: "@ + detail,
        JudgeErrorView::TimedOut { after } => timed_out_text(
            duration_debug(
                (after / (NANOS_PER_SEC as nat)) as u64,
                (after % (NANOS_PER_SEC as nat)) as u32,
            ),
        ),
    }
}

/// A timeout in words, for a limit shown as `limit`.
pub open spec fn timed_out_text(limit: Seq<char>) -> Seq<char> {
    "judge timed out after "@ + limit
}

/// Says that a limit shown as `limit` elapsed.
pub fn timed_out_message(limit: &str) -> (text: String)
    ensures
        text@ == timed_out_text(limit@),
{
    let mut text = "judge timed out after ".to_owned();
    text.append(limit);
    text
}

impl JudgeError {
    /// Semantic predicate: a later attempt may succeed without any change on
    /// our side. Transport failures, timeouts, throttling and server errors
    /// are transient; client errors and malformed replies are not.
    pub fn is_transient(&self) -> (retryable: bool)
        ensures
            retryable == transient(self@),
    {
        match self {
            JudgeError::Unavailable { .. } => true,
            JudgeError::TimedOut { .. } => true,
            JudgeError::Rejected { status, .. } => is_transient_status(*status),
            JudgeError::MalformedAnswer { .. } => false,
            JudgeError::MalformedReply { .. } => false,
        }
    }

    /// What went wrong, in words.
    pub fn message(&self) -> (text: String)
        ensures
            text@ == judge_error_text(self@),
    {
        match self {
            JudgeError::Unavailable { reason } => {
                let mut text = "judge unavailable: ".to_owned();
                text.append(reason.as_str());
                text
            },
            JudgeError::Rejected { status, message } => {
                let mut text = "judge rejected the request with status ".to_owned();
                text.append(decimal_text(*status as u64).as_str());
                text.append(": ");
                text.append(message.as_str());
                text
            },
            JudgeError::MalformedAnswer { question, detail } => {
                let mut text = "malformed answer to ".to_owned();
                text.append(question.as_str());
                text.append(": ");
                text.append(detail.as_str());
                text
            },
            JudgeError::MalformedReply { detail } => {
                let mut text = "malformed reply: ".to_owned();
                text.append(detail.as_str());
                text
            },
            JudgeError::TimedOut { after } => timed_out_message(
                debug_text(after.as_secs(), after.subsec_nanos()).as_str(),
            ),
        }
    }
}

impl Clone for JudgeError {
    fn clone(&self) -> (copy: JudgeError)
        ensures
            copy == *self,
    {
        match self {
            JudgeError::Unavailable { reason } => JudgeError::Unavailable {
                reason: reason.clone(),
            },
            JudgeError::Rejected { status, message } => JudgeError::Rejected {
                status: *status,
                message: message.clone(),
            },
            JudgeError::MalformedAnswer { question, detail } => JudgeError::MalformedAnswer {
                question: question.clone(),
                detail: detail.clone(),
            },
            JudgeError::MalformedReply { detail } => JudgeError::MalformedReply {
                detail: detail.clone(),
            },
            JudgeError::TimedOut { after } => JudgeError::TimedOut { after: *after },
        }
    }
}

/// Statuses that signal a temporary condition.
fn is_transient_status(status: u16) -> (temporary: bool)
    ensures
        temporary == transient_status(status),
{
    status == 408 || status == 429 || (500 <= status && status <= 599)
}

/// Law: another attempt may mend what is out of the request's hands: a judge
/// that cannot be reached or does not reply in time, a request timeout or too
/// many requests, and any server error. Nothing else is worth another attempt.
pub proof fn law_what_another_attempt_may_mend(
    status: u16,
    after: nat,
    words: Seq<char>,
    question: Seq<char>,
)
    ensures
        transient(JudgeErrorView::Unavailable { reason: words }),
        transient(JudgeErrorView::TimedOut { after }),
        transient(JudgeErrorView::Rejected { status, message: words }) <==> status == 408 || status
            == 429 || status / 100 == 5,
        !transient(JudgeErrorView::MalformedAnswer { question, detail: words }),
        !transient(JudgeErrorView::MalformedReply { detail: words }),
{
}

/// Law: a judge error says in words what went wrong, and ends with the detail
/// that it holds.
pub proof fn law_judge_errors_end_with_their_detail(
    status: u16,
    after: nat,
    words: Seq<char>,
    question: Seq<char>,
)
    ensures
        judge_error_text(JudgeErrorView::Unavailable { reason: words }) == "judge unavailable: "@
            + words,
        judge_error_text(JudgeErrorView::Rejected { status, message: words })
            == "judge rejected the request with status "@ + text::decimal(status as nat) + ": "@
            + words,
        judge_error_text(JudgeErrorView::MalformedAnswer { question, detail: words })
            == "malformed answer to "@ + question + ": "@ + words,
        judge_error_text(JudgeErrorView::MalformedReply { detail: words }) == "malformed reply: "@
            + words,
        timed_out_text(words) == "judge timed out after "@ + words,
        judge_error_text(JudgeErrorView::TimedOut { after }) == "judge timed out after "@
            + duration_debug((after / 1_000_000_000) as u64, (after % 1_000_000_000) as u32),
{
}

} // verus!
