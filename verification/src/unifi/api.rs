//! The rules of a session with the controller: how the answer to each
//! exchange is judged, and which failure it becomes.

use vstd::prelude::*;
use vstd::string::StringExecFns;

use super::devices::{UnifiDeviceBasic, UnifiSite};

verus! {

/// The time, in seconds, after which a request to the controller is given up.
pub const REQUEST_TIMEOUT_SECS: u64 = 10;

/// How a search can fail.
#[derive(Debug)]
pub enum UnifiAPIError {
    /// The HTTP client could not be set up.
    ClientError,
    /// The controller at `url` turned the credentials down.
    LoginAuthenticationError { url: String },
    /// The request failed below HTTP: no connection, a timeout, a TLS failure.
    ReqwestError,
    /// The answer from `url` was not the envelope that was asked for.
    JsonError { url: String },
}

/// A failure as plain values.
pub enum ApiErrorView {
    ClientError,
    LoginAuthenticationError { url: Seq<char> },
    ReqwestError,
    JsonError { url: Seq<char> },
}

impl DeepView for UnifiAPIError {
    type V = ApiErrorView;

    open spec fn deep_view(&self) -> ApiErrorView {
        match self {
            UnifiAPIError::ClientError => ApiErrorView::ClientError,
            UnifiAPIError::LoginAuthenticationError { url } => {
                ApiErrorView::LoginAuthenticationError { url: url@ }
            },
            UnifiAPIError::ReqwestError => ApiErrorView::ReqwestError,
            UnifiAPIError::JsonError { url } => ApiErrorView::JsonError { url: url@ },
        }
    }
}

/// The message of a failure. It names the URL where there is one, and never
/// anything else of the request.
pub open spec fn error_text(error: ApiErrorView) -> Seq<char> {
    match error {
        ApiErrorView::ClientError => "Failed to create HTTP client"@,
        ApiErrorView::LoginAuthenticationError { url } => {
            "Login failed: invalid credentials for "@ + url
        },
        ApiErrorView::ReqwestError => "Request error"@,
        ApiErrorView::JsonError { url } => "JSON parsing failed for "@ + url,
    }
}

impl UnifiAPIError {
    /// The message to show for this failure.
    pub fn message(&self) -> (text: String)
        ensures
            text@ == error_text(self.deep_view()),
    {
        match self {
            UnifiAPIError::ClientError => "Failed to create HTTP client".to_owned(),
            UnifiAPIError::LoginAuthenticationError { url } => {
                let mut text = "Login failed: invalid credentials for ".to_owned();
                text.append(url.as_str());
                text
            },
            UnifiAPIError::ReqwestError => "Request error".to_owned(),
            UnifiAPIError::JsonError { url } => {
                let mut text = "JSON parsing failed for ".to_owned();
                text.append(url.as_str());
                text
            },
        }
    }
}

/// The status that the controller puts in every answer.
#[derive(Debug, Clone, Copy, PartialEq, Eq, Structural)]
pub enum RespResult {
    /// `"ok"`
    Success,
    /// `"error"`
    Failure,
}

/// The head of an answer: its status, and the controller's remark if any.
#[derive(Debug, Clone)]
pub struct RespMeta {
    pub result: RespResult,
    pub msg: Option<String>,
}

/// What one exchange with the controller came to, before it is judged.
#[derive(Debug)]
pub enum Exchange<T> {
    /// No answer came: the request failed below HTTP.
    Unanswered,
    /// An answer came, and its body was not an envelope of the shape asked for.
    Malformed,
    /// An answer came, with an envelope of the shape asked for.
    Envelope { meta: RespMeta, data: T },
}

/// A judged answer, with its failure as plain values.
pub open spec fn judged<T>(result: Result<T, UnifiAPIError>) -> Result<T, ApiErrorView> {
    match result {
        Ok(data) => Ok(data),
        Err(error) => Err(error.deep_view()),
    }
}

/// What the answer to an exchange with `url` that asked for data comes to:
/// the data of an envelope that reports success; a failed request where no
/// answer came; a failure to decode, which names `url`, for an answer that
/// is no envelope of the shape asked for or that reports an error.
pub open spec fn opened<T>(url: Seq<char>, exchange: Exchange<T>) -> Result<T, ApiErrorView> {
    match exchange {
        Exchange::Unanswered => Err(ApiErrorView::ReqwestError),
        Exchange::Malformed => Err(ApiErrorView::JsonError { url }),
        Exchange::Envelope { meta, data } => match meta.result {
            RespResult::Success => Ok(data),
            RespResult::Failure => Err(ApiErrorView::JsonError { url }),
        },
    }
}

/// What the answer to the login exchange with `url` comes to: success for an
/// envelope that reports it; credentials turned down, which names `url`, for
/// an envelope that reports an error; otherwise as for any exchange.
pub open spec fn logged_in(url: Seq<char>, exchange: Exchange<()>) -> Result<(), ApiErrorView> {
    match exchange {
        Exchange::Unanswered => Err(ApiErrorView::ReqwestError),
        Exchange::Malformed => Err(ApiErrorView::JsonError { url }),
        Exchange::Envelope { meta, data } => match meta.result {
            RespResult::Success => Ok(()),
            RespResult::Failure => Err(ApiErrorView::LoginAuthenticationError { url }),
        },
    }
}

/// Judges the answer to an exchange with `url` that asked for data.
pub fn open_envelope<T>(url: &str, exchange: Exchange<T>) -> (r: Result<T, UnifiAPIError>)
    ensures
        judged(r) == opened(url@, exchange),
{
    match exchange {
        Exchange::Unanswered => Err(UnifiAPIError::ReqwestError),
        Exchange::Malformed => Err(UnifiAPIError::JsonError { url: url.to_owned() }),
        Exchange::Envelope { meta, data } => match meta.result {
            RespResult::Success => Ok(data),
            RespResult::Failure => Err(UnifiAPIError::JsonError { url: url.to_owned() }),
        },
    }
}

/// A session with one controller: where it is, how it is to be reached, and
/// whether the controller has accepted a login.
#[derive(Debug)]
pub struct UnifiClient {
    server_url: String,
    accept_invalid_certs: bool,
    is_logged_in: bool,
}

/// A session as plain values.
pub struct ClientView {
    pub server_url: Seq<char>,
    pub accept_invalid_certs: bool,
    pub is_logged_in: bool,
}

impl View for UnifiClient {
    type V = ClientView;

    closed spec fn view(&self) -> ClientView {
        ClientView {
            server_url: self.server_url@,
            accept_invalid_certs: self.accept_invalid_certs,
            is_logged_in: self.is_logged_in,
        }
    }
}

impl UnifiClient {
    /// A session with the controller at `server_url`, not logged in yet.
    /// Certificates that do not validate are accepted only if
    /// `accept_invalid_certs` says so.
    pub fn new(server_url: String, accept_invalid_certs: bool) -> (client: UnifiClient)
        ensures
            client@ == (ClientView {
                server_url: server_url@,
                accept_invalid_certs,
                is_logged_in: false,
            }),
    {
        UnifiClient { server_url, accept_invalid_certs, is_logged_in: false }
    }

    /// The controller's base URL.
    pub fn server_url(&self) -> (url: &str)
        ensures
            url@ == self@.server_url,
    {
        self.server_url.as_str()
    }

    /// Whether certificates that do not validate are accepted.
    pub fn accept_invalid_certs(&self) -> (accept: bool)
        ensures
            accept == self@.accept_invalid_certs,
    {
        self.accept_invalid_certs
    }

    /// Whether the controller has accepted a login in this session.
    pub fn is_logged_in(&self) -> (logged_in: bool)
        ensures
            logged_in == self@.is_logged_in,
    {
        self.is_logged_in
    }

    /// Judges the answer to the login exchange with `url`. The session is
    /// logged in afterwards exactly if the controller reported success.
    pub fn login(&mut self, url: &str, exchange: Exchange<()>) -> (r: Result<(), UnifiAPIError>)
        ensures
            judged(r) == logged_in(url@, exchange),
            final(self)@ == (ClientView { is_logged_in: r is Ok, ..old(self)@ }),
    {
        self.is_logged_in = false;
        match exchange {
            Exchange::Unanswered => Err(UnifiAPIError::ReqwestError),
            Exchange::Malformed => Err(UnifiAPIError::JsonError { url: url.to_owned() }),
            Exchange::Envelope { meta, data } => match meta.result {
                RespResult::Success => {
                    self.is_logged_in = true;
                    Ok(())
                },
                RespResult::Failure => Err(
                    UnifiAPIError::LoginAuthenticationError { url: url.to_owned() },
                ),
            },
        }
    }

    /// Judges the answer to the exchange with `url` that asked for the
    /// sites. The session must be logged in.
    pub fn get_sites(&self, url: &str, exchange: Exchange<Vec<UnifiSite>>) -> (r: Result<
        Vec<UnifiSite>,
        UnifiAPIError,
    >)
        requires
            self@.is_logged_in,
        ensures
            judged(r) == opened(url@, exchange),
    {
        open_envelope(url, exchange)
    }

    /// Judges the answer to the exchange with `url` that asked for the
    /// devices of one site. The session must be logged in.
    pub fn get_site_devices_basic(
        &self,
        url: &str,
        exchange: Exchange<Vec<UnifiDeviceBasic>>,
    ) -> (r: Result<Vec<UnifiDeviceBasic>, UnifiAPIError>)
        requires
            self@.is_logged_in,
        ensures
            judged(r) == opened(url@, exchange),
    {
        open_envelope(url, exchange)
    }
}

} // verus!
