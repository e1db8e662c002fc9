//! The System One protocol over HTTPS: what is sent where, and what an
//! exchange amounts to.

use crate::jev::wire::Response;
use crate::judge;
use crate::judge::JudgeError;
use vstd::prelude::*;

verus! {

/// Default System One endpoint.
pub const DEFAULT_ENDPOINT: &'static str = "https://api.typesafe.ai/v1/systemone";

/// Environment variable that holds the key.
pub const KEY_ENV: &'static str = "JEV_KEY";

/// A Jev API key.
///
/// Not `Clone`: the key is a capability, and each holder is a deliberate
/// choice. Invariant: non-empty. Its view is the key text.
pub struct ApiKey {
    text: String,
}

impl ApiKey {
    #[verifier::type_invariant]
    spec fn non_empty(self) -> bool {
        self.text@.len() > 0
    }
}

impl View for ApiKey {
    type V = Seq<char>;

    closed spec fn view(&self) -> Seq<char> {
        self.text@
    }
}

/// Why a client could not be built.
#[derive(Debug, PartialEq, Eq)]
pub enum JevConfigError {
    /// The key variable is not set.
    MissingKey {
        /// The variable name.
        var: &'static str,
    },
    /// The key is empty.
    EmptyKey,
    /// The HTTP client could not be constructed.
    Client {
        /// Detail from the client library.
        reason: String,
    },
}

/// What a [`JevConfigError`] stands for.
#[verifier::ext_equal]
pub enum JevConfigErrorView {
    /// The key variable is not set.
    MissingKey { var: Seq<char> },
    /// The key is empty.
    EmptyKey,
    /// The HTTP client could not be constructed.
    Client { reason: Seq<char> },
}

impl View for JevConfigError {
    type V = JevConfigErrorView;

    open spec fn view(&self) -> JevConfigErrorView {
        match *self {
            JevConfigError::MissingKey { var } => JevConfigErrorView::MissingKey { var: var@ },
            JevConfigError::EmptyKey => JevConfigErrorView::EmptyKey,
            JevConfigError::Client { reason } => JevConfigErrorView::Client { reason: reason@ },
        }
    }
}

/// A configuration error in words.
pub open spec fn config_error_text(error: JevConfigErrorView) -> Seq<char> {
    match error {
        JevConfigErrorView::MissingKey { var } => "environment variable "@ + var + " is not set"@,
        JevConfigErrorView::EmptyKey => "api key is empty"@,
        JevConfigErrorView::Client { reason } => "http client: "@ + reason,
    }
}

impl JevConfigError {
    /// What went wrong, in words.
    pub fn message(&self) -> (text: String)
        ensures
            text@ == config_error_text(self@),
    {
        match self {
            JevConfigError::MissingKey { var } => {
                let mut text = "environment variable ".to_owned();
                text.append(var);
                text.append(" is not set");
                text
            },
            JevConfigError::EmptyKey => "api key is empty".to_owned(),
            JevConfigError::Client { reason } => {
                let mut text = "http client: ".to_owned();
                text.append(reason.as_str());
                text
            },
        }
    }
}

impl Clone for JevConfigError {
    fn clone(&self) -> (copy: JevConfigError)
        ensures
            copy == *self,
    {
        match self {
            JevConfigError::MissingKey { var } => JevConfigError::MissingKey { var },
            JevConfigError::EmptyKey => JevConfigError::EmptyKey,
            JevConfigError::Client { reason } => JevConfigError::Client {
                reason: reason.clone(),
            },
        }
    }
}

impl ApiKey {
    /// Validates that `key` is non-empty.
    pub fn new(key: &str) -> (checked: Result<ApiKey, JevConfigError>)
        ensures
            match checked {
                Ok(api_key) => key@.len() > 0 && api_key@ == key@,
                Err(error) => key@.len() == 0 && error == JevConfigError::EmptyKey,
            },
    {
        if key.is_empty() {
            Err(JevConfigError::EmptyKey)
        } else {
            Ok(ApiKey { text: key.to_owned() })
        }
    }

    /// The key that the variable [`KEY_ENV`] holds, where it is set.
    pub fn from_variable(value: Option<String>) -> (checked: Result<ApiKey, JevConfigError>)
        ensures
            match (value, checked) {
                (Some(key), Ok(api_key)) => key@.len() > 0 && api_key@ == key@,
                (Some(key), Err(error)) => key@.len() == 0 && error == JevConfigError::EmptyKey,
                (None, Err(error)) => error@ == (JevConfigErrorView::MissingKey { var: KEY_ENV@ }),
                (None, Ok(_)) => false,
            },
    {
        match value {
            Some(key) => ApiKey::new(key.as_str()),
            None => Err(JevConfigError::MissingKey { var: KEY_ENV }),
        }
    }

    /// The key text, for the request's authentication.
    pub fn expose(&self) -> (text: &str)
        ensures
            text@ == self@,
            text@.len() > 0,
    {
        proof {
            use_type_invariant(self);
        }
        self.text.as_str()
    }

    /// How the key is shown: not at all.
    pub fn redacted(&self) -> (shown: &'static str)
        ensures
            shown@ == "ApiKey(<redacted>)"@,
    {
        "ApiKey(<redacted>)"
    }
}

/// What a [`HttpSystemOne`] stands for.
#[verifier::ext_equal]
pub struct HttpSystemOneView<C> {
    /// The HTTP client.
    pub client: C,
    /// Where requests go.
    pub endpoint: Seq<char>,
    /// The key that authenticates them.
    pub key: Seq<char>,
}

/// The System One protocol over HTTPS with bearer authentication, by way of
/// the HTTP client `C`.
pub struct HttpSystemOne<C> {
    client: C,
    endpoint: String,
    key: ApiKey,
}

impl<C> View for HttpSystemOne<C> {
    type V = HttpSystemOneView<C>;

    closed spec fn view(&self) -> HttpSystemOneView<C> {
        HttpSystemOneView { client: self.client, endpoint: self.endpoint@, key: self.key@ }
    }
}

impl<C> HttpSystemOne<C> {
    /// Talks to [`DEFAULT_ENDPOINT`] with `key`.
    pub fn new(client: C, key: ApiKey) -> (system: HttpSystemOne<C>)
        ensures
            system@ == (HttpSystemOneView { client, endpoint: DEFAULT_ENDPOINT@, key: key@ }),
    {
        HttpSystemOne { client, endpoint: DEFAULT_ENDPOINT.to_owned(), key }
    }

    /// Overrides the endpoint, for a proxy or gateway that speaks the same
    /// protocol.
    pub fn with_endpoint(self, endpoint: &str) -> (system: HttpSystemOne<C>)
        ensures
            system@ == (HttpSystemOneView { endpoint: endpoint@, ..self@ }),
    {
        HttpSystemOne { client: self.client, endpoint: endpoint.to_owned(), key: self.key }
    }

    /// The endpoint in use.
    pub fn endpoint(&self) -> (endpoint: &str)
        ensures
            endpoint@ == self@.endpoint,
    {
        self.endpoint.as_str()
    }

    /// The HTTP client.
    pub fn client(&self) -> (client: &C)
        ensures
            *client == self@.client,
    {
        &self.client
    }

    /// The key.
    pub fn key(&self) -> (key: &ApiKey)
        ensures
            key@ == self@.key,
    {
        &self.key
    }
}

/// The status says that the request succeeded.
pub open spec fn success(status: u16) -> bool {
    200 <= status < 300
}

/// How the body of a reply is to be read.
#[derive(Debug, Clone, Copy, PartialEq, Eq, Structural)]
pub enum Reading {
    /// The body is a response.
    Response,
    /// The body, if it can be read, says why the request was refused.
    Refusal {
        /// The status of the reply.
        status: u16,
    },
}

/// What a sent request leads to: a reply with a status, or a reason why there
/// is none.
pub fn after_send(sent: Result<u16, String>) -> (reading: Result<Reading, JudgeError>)
    ensures
        match (sent, reading) {
            (Ok(status), Ok(Reading::Response)) => success(status),
            (Ok(status), Ok(Reading::Refusal { status: refused })) => !success(status) && refused
                == status,
            (Err(reason), Err(error)) => error@ == (judge::JudgeErrorView::Unavailable {
                reason: reason@,
            }),
            _ => false,
        },
{
    match sent {
        Ok(status) => {
            if 200 <= status && status < 300 {
                Ok(Reading::Response)
            } else {
                Ok(Reading::Refusal { status })
            }
        },
        Err(reason) => Err(JudgeError::Unavailable { reason }),
    }
}

/// The error for a refused request, whose body may have been readable.
pub fn refused(status: u16, body: Option<String>) -> (error: JudgeError)
    ensures
        error@ == (judge::JudgeErrorView::Rejected {
            status,
            message: match body {
                Some(message) => message@,
                None => Seq::empty(),
            },
        }),
{
    JudgeError::Rejected {
        status,
        message: match body {
            Some(message) => message,
            None => String::new(),
        },
    }
}

/// The reply for a body that was read as a response, or could not be.
pub fn parsed(body: Result<Response, String>) -> (reply: Result<Response, JudgeError>)
    ensures
        match (body, reply) {
            (Ok(response), Ok(passed)) => passed == response,
            (Err(detail), Err(error)) => error@ == (judge::JudgeErrorView::MalformedReply {
                detail: detail@,
            }),
            _ => false,
        },
{
    match body {
        Ok(response) => Ok(response),
        Err(detail) => Err(JudgeError::MalformedReply { detail }),
    }
}

/// Law: a status tells of success exactly where it begins with a two.
pub proof fn law_success_begins_with_a_two(status: u16)
    ensures
        success(status) <==> status / 100 == 2,
{
}

/// Law: a configuration error says in words what is wrong with which setting.
pub proof fn law_configuration_errors_name_their_subject(var: Seq<char>, reason: Seq<char>)
    ensures
        config_error_text(JevConfigErrorView::MissingKey { var }) == "environment variable "@ + var
            + " is not set"@,
        config_error_text(JevConfigErrorView::EmptyKey) == "api key is empty"@,
        config_error_text(JevConfigErrorView::Client { reason }) == "http client: "@ + reason,
{
}

} // verus!
