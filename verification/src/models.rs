//! What the contact form sends, and the rules it is held to.

use crate::error::AppError;
use validator::{ValidateEmail, ValidateLength};
use vstd::prelude::*;
use vstd::string::StringExecFns;

verus! {

/// A message sent through the contact form.
#[derive(Debug)]
pub struct ContactPayload {
    pub name: String,
    pub email: String,
    pub message: String,
}

/// The fields of the contact form.
#[derive(Clone, Copy, Debug, PartialEq, Eq, Structural)]
pub enum ContactField {
    Name,
    Email,
    Message,
}

/// Whether `validator` takes `text` for an email address.
pub uninterp spec fn is_email(text: Seq<char>) -> bool;

/// Asks `validator::ValidateEmail::validate_email` whether `text` is an
/// email address. Nothing is proved of this call. It is taken to answer as a
/// function of the text alone.
#[verifier::external_body]
fn check_email(text: &str) -> (ok: bool)
    ensures
        ok == is_email(text@),
{
    text.validate_email()
}

/// Asks `validator::ValidateLength::validate_length` whether `text` has at
/// least `min` characters. Nothing is proved of this call. For a string it
/// counts characters, not bytes, and with a lower bound alone it accepts
/// exactly the counts that are not below the bound.
#[verifier::external_body]
fn check_min_length(text: &str, min: u64) -> (ok: bool)
    ensures
        ok == (text@.len() >= min),
{
    text.validate_length(Some(min), None, None)
}

impl ContactField {
    /// What the sender is told when the field breaks its rule.
    pub open spec fn spec_message(self) -> Seq<char> {
        match self {
            ContactField::Name => "Name cannot be empty"@,
            ContactField::Email => "Invalid email address"@,
            ContactField::Message => "Message must be at least 10 characters long"@,
        }
    }

    /// What the sender is told when the field breaks its rule.
    pub fn message(&self) -> (text: &'static str)
        ensures
            text@ == self.spec_message(),
    {
        match self {
            ContactField::Name => "Name cannot be empty",
            ContactField::Email => "Invalid email address",
            ContactField::Message => "Message must be at least 10 characters long",
        }
    }
}

/// The fields that break their rule, in the order of the form: the name
/// must not be empty, the email must be an address, the message must have
/// ten characters or more.
pub open spec fn broken_rules(
    name: Seq<char>,
    email_is_address: bool,
    message: Seq<char>,
) -> Seq<ContactField> {
    (if name.len() >= 1 {
        Seq::<ContactField>::empty()
    } else {
        seq![ContactField::Name]
    }) + (if email_is_address {
        Seq::<ContactField>::empty()
    } else {
        seq![ContactField::Email]
    }) + (if message.len() >= 10 {
        Seq::<ContactField>::empty()
    } else {
        seq![ContactField::Message]
    })
}

impl ContactPayload {
    /// The fields that break their rule, given whether the email is an
    /// address.
    pub fn violations_given(&self, email_is_address: bool) -> (broken: Vec<ContactField>)
        ensures
            broken@ == broken_rules(self.name@, email_is_address, self.message@),
    {
        let mut broken: Vec<ContactField> = Vec::new();
        if !check_min_length(self.name.as_str(), 1) {
            broken.push(ContactField::Name);
        }
        if !email_is_address {
            broken.push(ContactField::Email);
        }
        if !check_min_length(self.message.as_str(), 10) {
            broken.push(ContactField::Message);
        }
        proof {
            assert(broken@ =~= broken_rules(self.name@, email_is_address, self.message@));
        }
        broken
    }

    /// Accepts the form if it breaks no rule, and else refuses it with the
    /// message of the first field that breaks its rule, given whether the
    /// email is an address.
    pub fn validate_given(&self, email_is_address: bool) -> (res: Result<(), AppError>)
        ensures
            res is Ok <==> broken_rules(self.name@, email_is_address, self.message@).len() == 0,
            res matches Err(e) ==> e matches AppError::ValidationError(text) && text@
                == broken_rules(self.name@, email_is_address, self.message@)[0].spec_message(),
    {
        let broken = self.violations_given(email_is_address);
        if broken.len() == 0 {
            Ok(())
        } else {
            Err(AppError::ValidationError(String::from_str(broken[0].message())))
        }
    }

    /// Accepts the form if it breaks no rule, and else refuses it with the
    /// message of the first field that breaks its rule.
    pub fn validate(&self) -> (res: Result<(), AppError>)
        ensures
            res is Ok <==> broken_rules(self.name@, is_email(self.email@), self.message@).len()
                == 0,
            res matches Err(e) ==> e matches AppError::ValidationError(text) && text@
                == broken_rules(self.name@, is_email(self.email@), self.message@)[0].spec_message(),
    {
        let email_is_address = check_email(self.email.as_str());
        self.validate_given(email_is_address)
    }

    /// The fields that break their rule; none if the form is acceptable.
    pub fn violations(&self) -> (broken: Vec<ContactField>)
        ensures
            broken@ == broken_rules(self.name@, is_email(self.email@), self.message@),
    {
        let email_is_address = check_email(self.email.as_str());
        self.violations_given(email_is_address)
    }
}

} // verus!
