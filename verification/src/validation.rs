//! Field rules of request inputs: lengths and ranges, checked by the
//! `validator` crate, and the messages that failures display.
use vstd::prelude::*;

verus! {

/// Whether a length meets a length rule: exactly `equal` when that is given,
/// else at least `min` and at most `max` where those are given.
pub open spec fn length_ok(len: nat, min: Option<u64>, max: Option<u64>, equal: Option<u64>) -> bool {
    match equal {
        Some(e) => len == e,
        None => (match min {
            Some(m) => len >= m,
            None => true,
        }) && (match max {
            Some(m) => len <= m,
            None => true,
        }),
    }
}

/// `validator::ValidateLength::validate_length` on a string, whose length it
/// counts in characters.
#[verifier::external_body]
pub(crate) fn validate_length(s: &str, min: Option<u64>, max: Option<u64>, equal: Option<u64>) -> (r: bool)
    ensures
        r == length_ok(s@.len(), min, max, equal),
{
    validator::ValidateLength::<u64>::validate_length(s, min, max, equal)
}

/// Whether a number lies within the bounds that are given.
pub open spec fn range_ok(v: u32, min: Option<u32>, max: Option<u32>) -> bool {
    (match min {
        Some(m) => v >= m,
        None => true,
    }) && (match max {
        Some(m) => v <= m,
        None => true,
    })
}

/// `validator::ValidateRange::validate_range` on a `u32`, without exclusive
/// bounds.
#[verifier::external_body]
pub(crate) fn validate_range(v: u32, min: Option<u32>, max: Option<u32>) -> (r: bool)
    ensures
        r == range_ok(v, min, max),
{
    validator::ValidateRange::<u32>::validate_range(&v, min, max, None, None)
}

/// The text that `validator` displays for the errors of one field that
/// failed one rule carrying a message (`ValidationErrors`' `Display`): the
/// field's name, `: ` and the message.
#[verifier::external_body]
pub(crate) fn field_error_text(field: &'static str, code: &'static str, message: &str) -> (r: String)
    ensures
        r@ == field@ + ": "@ + message@,
{
    let mut errors = validator::ValidationErrors::new();
    errors.add(field, validator::ValidationError::new(code).with_message(std::borrow::Cow::Owned(message.to_string())));
    errors.to_string()
}

/// A page number of a listing.
#[derive(Debug, Clone, Copy)]
pub struct PageNumber {
    pub value: u32,
}

impl PageNumber {
    /// Checks the rule: the page is 1 or greater. The error is the text that
    /// the failed rule displays.
    pub fn validate(&self) -> (r: Result<(), String>)
        ensures
            self.value >= 1 ==> r is Ok,
            self.value < 1 ==> r is Err && r->Err_0@ == "value: Page number must be 1 or greater"@,
    {
        if validate_range(self.value, Some(1), None) {
            Ok(())
        } else {
            proof {
                reveal_strlit("value");
                reveal_strlit(": ");
                reveal_strlit("Page number must be 1 or greater");
                reveal_strlit("value: Page number must be 1 or greater");
                assert("value"@ + ": "@ + "Page number must be 1 or greater"@
                    =~= "value: Page number must be 1 or greater"@);
            }
            Err(field_error_text("value", "range", "Page number must be 1 or greater"))
        }
    }
}

/// The identifier of a user.
#[derive(Debug, Clone)]
pub struct UserId {
    pub value: String,
}

impl UserId {
    /// Checks the rule: exactly 12 characters. The error is the text that the
    /// failed rule displays.
    pub fn validate(&self) -> (r: Result<(), String>)
        ensures
            self.value@.len() == 12 ==> r is Ok,
            self.value@.len() != 12 ==> r is Err && r->Err_0@ == "value: Invalid user id length"@,
    {
        if validate_length(self.value.as_str(), None, None, Some(12)) {
            Ok(())
        } else {
            proof {
                reveal_strlit("value");
                reveal_strlit(": ");
                reveal_strlit("Invalid user id length");
                reveal_strlit("value: Invalid user id length");
                assert("value"@ + ": "@ + "Invalid user id length"@ =~= "value: Invalid user id length"@);
            }
            Err(field_error_text("value", "length", "Invalid user id length"))
        }
    }
}

} // verus!
