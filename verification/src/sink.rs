//! Egress: why a destination did not take an item.

use vstd::prelude::*;

verus! {

/// Why a sink did not take an item.
#[derive(Debug, PartialEq, Eq)]
pub enum SinkError {
    /// Nobody is listening any more; the consumer has gone away for good.
    Closed,
    /// The sink could not be reached right now.
    Unavailable {
        /// Detail from the sink.
        reason: String,
    },
}

/// What a [`SinkError`] stands for.
#[verifier::ext_equal]
pub enum SinkErrorView {
    /// Nobody is listening any more.
    Closed,
    /// The sink could not be reached right now.
    Unavailable { reason: Seq<char> },
}

impl View for SinkError {
    type V = SinkErrorView;

    open spec fn view(&self) -> SinkErrorView {
        match *self {
            SinkError::Closed => SinkErrorView::Closed,
            SinkError::Unavailable { reason } => SinkErrorView::Unavailable { reason: reason@ },
        }
    }
}

/// A sink error in words.
pub open spec fn sink_error_text(error: SinkErrorView) -> Seq<char> {
    match error {
        SinkErrorView::Closed => "sink closed"@,
        SinkErrorView::Unavailable { reason } => "sink unavailable: "@ + reason,
    }
}

impl SinkError {
    /// What went wrong, in words.
    pub fn message(&self) -> (text: String)
        ensures
            text@ == sink_error_text(self@),
    {
        match self {
            SinkError::Closed => "sink closed".to_owned(),
            SinkError::Unavailable { reason } => {
                let mut text = "sink unavailable: ".to_owned();
                text.append(reason.as_str());
                text
            },
        }
    }
}

impl Clone for SinkError {
    fn clone(&self) -> (copy: SinkError)
        ensures
            copy == *self,
    {
        match self {
            SinkError::Closed => SinkError::Closed,
            SinkError::Unavailable { reason } => SinkError::Unavailable { reason: reason.clone() },
        }
    }
}

/// Law: a sink error says in words what it is and why.
pub proof fn law_sink_errors_end_with_their_reason(reason: Seq<char>)
    ensures
        sink_error_text(SinkErrorView::Closed) == "sink closed"@,
        sink_error_text(SinkErrorView::Unavailable { reason }) == "sink unavailable: "@ + reason,
{
}

} // verus!
