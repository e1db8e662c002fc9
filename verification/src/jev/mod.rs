//! Adapter: a judge over TypeSafe AI's Jev API.
//!
//! The wire format lives in [`wire`] and is converted to the crate's
//! [`crate::question`] vocabulary at this boundary; [`http`] says what an HTTP
//! exchange amounts to.

pub mod http;
pub mod wire;

use crate::event::Payload;
use crate::judge;
use crate::judge::JudgeError;
use crate::lifecycle;
use crate::question;
use crate::question::{AnswerSet, QuestionSet};
use vstd::prelude::*;

verus! {

/// Default model alias.
pub const DEFAULT_MODEL: &'static str = "jev-latest";

/// What a [`JevJudge`] stands for.
#[verifier::ext_equal]
pub struct JevJudgeView<P> {
    /// What carries requests to the model.
    pub protocol: P,
    /// The model alias.
    pub model: Seq<char>,
}

/// A judge over anything that speaks the System One protocol.
#[derive(Debug)]
pub struct JevJudge<P> {
    protocol: P,
    model: String,
}

impl<P> View for JevJudge<P> {
    type V = JevJudgeView<P>;

    closed spec fn view(&self) -> JevJudgeView<P> {
        JevJudgeView { protocol: self.protocol, model: self.model@ }
    }
}

/// What the protocol brought, by its view.
pub open spec fn response_view(reply: Result<wire::Response, JudgeError>) -> Result<
    wire::ResponseView,
    judge::JudgeErrorView,
> {
    match reply {
        Ok(response) => Ok(response@),
        Err(error) => Err(error@),
    }
}

/// The judgment that a reply amounts to.
pub open spec fn judgment(reply: Result<wire::ResponseView, judge::JudgeErrorView>) -> Result<
    Map<Seq<char>, question::AnswerView>,
    judge::JudgeErrorView,
> {
    match reply {
        Ok(response) => wire::decoded(response),
        Err(error) => Err(error),
    }
}

impl<P> JevJudge<P> {
    /// A judge over `protocol` that asks [`DEFAULT_MODEL`].
    pub fn over(protocol: P) -> (judge: JevJudge<P>)
        ensures
            judge@ == (JevJudgeView { protocol, model: DEFAULT_MODEL@ }),
    {
        JevJudge { protocol, model: DEFAULT_MODEL.to_owned() }
    }

    /// Overrides the model alias.
    pub fn with_model(self, model: &str) -> (judge: JevJudge<P>)
        ensures
            judge@ == (JevJudgeView { protocol: self@.protocol, model: model@ }),
    {
        JevJudge { protocol: self.protocol, model: model.to_owned() }
    }

    /// What carries requests to the model.
    pub fn protocol(&self) -> (protocol: &P)
        ensures
            *protocol == self@.protocol,
    {
        &self.protocol
    }

    /// The model alias.
    pub fn model(&self) -> (model: &str)
        ensures
            model@ == self@.model,
    {
        self.model.as_str()
    }

    /// The request to send for a judgment.
    pub fn request(&self, payload: &Payload, questions: &QuestionSet) -> (request: wire::Request)
        ensures
            request@ == (wire::RequestView {
                model: self@.model,
                state: payload@,
                questions: questions@,
            }),
    {
        wire::encode(self.model.as_str(), payload, questions)
    }

    /// The judgment that the protocol's reply amounts to.
    pub fn conclude(&self, reply: Result<wire::Response, JudgeError>) -> (result: Result<
        AnswerSet,
        JudgeError,
    >)
        ensures
            lifecycle::result_view(result) == judgment(response_view(reply)),
    {
        match reply {
            Ok(response) => wire::decode(response),
            Err(error) => Err(error),
        }
    }
}

impl<C> JevJudge<http::HttpSystemOne<C>> {
    /// Overrides the HTTP endpoint.
    pub fn with_endpoint(self, endpoint: &str) -> (judge: JevJudge<http::HttpSystemOne<C>>)
        ensures
            judge@.model == self@.model,
            judge@.protocol@ == (http::HttpSystemOneView {
                endpoint: endpoint@,
                ..self@.protocol@
            }),
    {
        JevJudge { protocol: self.protocol.with_endpoint(endpoint), model: self.model }
    }
}

/// Law: a judgment is what the response holds, or the error that took its place.
pub proof fn law_a_judgment_is_what_the_response_holds(
    response: wire::ResponseView,
    error: judge::JudgeErrorView,
)
    ensures
        judgment(Ok(response)) == wire::decoded(response),
        judgment(Err(error)) == Err::<Map<Seq<char>, question::AnswerView>, _>(error),
{
}

/// Law: what the service answered is taken as it is.
pub proof fn law_what_the_service_answered_is_taken_as_it_is(
    response: wire::Response,
    error: JudgeError,
)
    ensures
        response_view(Ok(response)) == Ok::<_, judge::JudgeErrorView>(response@),
        response_view(Err(error)) == Err::<wire::ResponseView, _>(error@),
{
}

} // verus!
