//! Errors that a handler answers with, and how each is shown to the client.

use vstd::prelude::*;
use vstd::string::StringExecFns;

verus! {

/// The JSON object with the one member `name`, whose value is the string
/// `value`, as compact text.
pub uninterp spec fn json_object1(name: Seq<char>, value: Seq<char>) -> Seq<char>;

/// Writes a JSON object of one member with `serde_json`: a `serde_json::Map`
/// with the string `value` under the key `name`, shown as a
/// `serde_json::Value`. Nothing is proved of this call. It is taken to give
/// the compact JSON text of that object, which depends on the name and the
/// value alone.
#[verifier::external_body]
pub(crate) fn json_member(name: &str, value: &str) -> (text: String)
    ensures
        text@ == json_object1(name@, value@),
{
    let mut object = serde_json::Map::new();
    object.insert(String::from(name), serde_json::Value::String(String::from(value)));
    serde_json::Value::Object(object).to_string()
}

/// What went wrong while a request was handled.
#[derive(Debug, PartialEq, Eq)]
pub enum AppError {
    /// The service itself failed.
    Internal(String),
    /// The mail relay refused or could not be reached.
    Resend(String),
    /// The request's fields are not acceptable.
    ValidationError(String),
}

impl AppError {
    /// The HTTP status that answers the error.
    pub open spec fn spec_status(self) -> u16 {
        match self {
            AppError::Internal(_) => 500,
            AppError::Resend(_) => 502,
            AppError::ValidationError(_) => 400,
        }
    }

    /// The message shown to the client.
    pub open spec fn spec_message(self) -> Seq<char> {
        match self {
            AppError::Internal(msg) => "Internal server error: "@ + msg@,
            AppError::Resend(msg) => "Error sending email: "@ + msg@,
            AppError::ValidationError(msg) => msg@,
        }
    }

    /// The HTTP status that answers the error: 500 for a failure of the
    /// service, 502 for one of the mail relay, 400 for a bad request.
    pub fn status(&self) -> (code: u16)
        ensures
            code == self.spec_status(),
    {
        match self {
            AppError::Internal(_) => 500,
            AppError::Resend(_) => 502,
            AppError::ValidationError(_) => 400,
        }
    }

    /// The message shown to the client, which goes under `error` in the
    /// body of the response.
    pub fn message(&self) -> (text: String)
        ensures
            text@ == self.spec_message(),
    {
        match self {
            AppError::Internal(msg) => {
                let mut text = String::from_str("Internal server error: ");
                text.append(msg.as_str());
                text
            },
            AppError::Resend(msg) => {
                let mut text = String::from_str("Error sending email: ");
                text.append(msg.as_str());
                text
            },
            AppError::ValidationError(msg) => msg.clone(),
        }
    }

    /// Status and JSON body of the response that answers the error: the
    /// message under `error`.
    pub fn into_parts(self) -> (parts: (u16, String))
        ensures
            parts.0 == self.spec_status(),
            parts.1@ == json_object1("error"@, self.spec_message()),
    {
        let code = self.status();
        let message = self.message();
        (code, json_member("error", message.as_str()))
    }
}

} // verus!
