//! The envelope in which the catalog answers a client, and the answer that reports a
//! failure.

use vstd::prelude::*;

verus! {

/// The status of an answer that went well.
pub fn get_status_ok() -> (r: String)
    ensures
        r@ == "ok"@,
{
    "ok".to_string()
}

/// The version of the protocol that the server speaks.
pub fn get_version() -> (r: String)
    ensures
        r@ == "1.16.1"@,
{
    "1.16.1".to_string()
}

/// The name under which the server answers.
pub fn get_type() -> (r: String)
    ensures
        r@ == "soniccave"@,
{
    "soniccave".to_string()
}

/// The version of the server itself.
pub fn get_server_version() -> (r: String)
    ensures
        r@ == "0.0.1"@,
{
    "0.0.1".to_string()
}

/// The envelope of every answer.
#[derive(Clone, Debug, PartialEq, Eq)]
pub struct SubsonicResponse<T> {
    pub subsonic_response: T,
}

/// What went wrong: a code and a message.
#[derive(Clone, Debug, PartialEq, Eq)]
pub struct ErrorResponseContainer {
    pub code: i32,
    pub message: String,
}

/// The answer that reports a failure.
#[derive(Clone, Debug, PartialEq, Eq)]
pub struct ErrorResponse {
    pub status: String,
    pub version: String,
    pub server_type: String,
    pub server_version: String,
    pub error: ErrorResponseContainer,
}

/// The mathematical value of an [`ErrorResponse`].
pub struct Failure {
    pub status: Seq<char>,
    pub version: Seq<char>,
    pub server_type: Seq<char>,
    pub server_version: Seq<char>,
    pub code: i32,
    pub message: Seq<char>,
}

impl View for ErrorResponse {
    type V = Failure;

    open spec fn view(&self) -> Failure {
        Failure {
            status: self.status@,
            version: self.version@,
            server_type: self.server_type@,
            server_version: self.server_version@,
            code: self.error.code,
            message: self.error.message@,
        }
    }
}

impl SubsonicResponse<ErrorResponse> {
    /// The failure with this message and no code, under the protocol version that the
    /// server speaks.
    pub fn from_message(message: String) -> (r: Self)
        ensures
            r.subsonic_response@ == (Failure {
                status: "failed"@,
                version: "1.16.1"@,
                server_type: "soniccave"@,
                server_version: "0.0.1"@,
                code: 0,
                message: message@,
            }),
    {
        SubsonicResponse {
            subsonic_response: ErrorResponse {
                status: "failed".to_string(),
                version: get_version(),
                server_type: get_type(),
                server_version: get_server_version(),
                error: ErrorResponseContainer { code: 0, message },
            },
        }
    }

    /// The failure with this code and message, under the protocol version `1.1.16`.
    pub fn from_error_code(code: i32, message: String) -> (r: Self)
        ensures
            r.subsonic_response@ == (Failure {
                status: "failed"@,
                version: "1.1.16"@,
                server_type: "soniccave"@,
                server_version: "0.0.1"@,
                code,
                message: message@,
            }),
    {
        SubsonicResponse {
            subsonic_response: ErrorResponse {
                status: "failed".to_string(),
                version: "1.1.16".to_string(),
                server_type: "soniccave".to_string(),
                server_version: "0.0.1".to_string(),
                error: ErrorResponseContainer { code, message },
            },
        }
    }
}

} // verus!
