//! The user lookup contract.
use vstd::prelude::*;
use crate::json::{Json, JsonValue};
use crate::validation::{field_error_text, validate_length};

verus! {

/// The fields that the user lookup needs.
#[derive(Debug, Clone)]
pub struct Input {
    pub user_id: String,
}

/// The user lookup contract.
#[derive(Debug)]
pub struct DynamicGetById;

impl Input {
    /// Checks the rule: the user id has 1 to 36 characters. The error is the
    /// text that the failed rule displays.
    pub fn validate(&self) -> (r: Result<(), String>)
        ensures
            1 <= self.user_id@.len() <= 36 ==> r is Ok,
            !(1 <= self.user_id@.len() <= 36) ==> r is Err && r->Err_0@
                == "user_id: UserId must be between 1 and 36 characters"@,
    {
        if validate_length(self.user_id.as_str(), Some(1), Some(36), None) {
            Ok(())
        } else {
            proof {
                reveal_strlit("user_id");
                reveal_strlit(": ");
                reveal_strlit("UserId must be between 1 and 36 characters");
                reveal_strlit("user_id: UserId must be between 1 and 36 characters");
                assert("user_id"@ + ": "@ + "UserId must be between 1 and 36 characters"@
                    =~= "user_id: UserId must be between 1 and 36 characters"@);
            }
            Err(field_error_text("user_id", "length", "UserId must be between 1 and 36 characters"))
        }
    }
}

impl DynamicGetById {
    /// Checks the input, prefixing a failure with `Validation failed: `.
    pub fn validate_pure(&self, input: &Input) -> (r: Result<(), String>)
        ensures
            1 <= input.user_id@.len() <= 36 ==> r is Ok,
            !(1 <= input.user_id@.len() <= 36) ==> r is Err && r->Err_0@ == "Validation failed: "@
                + "user_id: UserId must be between 1 and 36 characters"@,
    {
        match input.validate() {
            Ok(()) => Ok(()),
            Err(e) => {
                let mut m = String::new();
                m.append("Validation failed: ");
                m.append(e.as_str());
                Err(m)
            },
        }
    }

    /// The record of the user: the text `user_record_for_` and the id.
    pub fn commit_pure(&self, input: Input) -> (r: Result<JsonValue, String>)
        ensures
            r is Ok && r->Ok_0.model() == Json::Str("user_record_for_"@ + input.user_id@),
    {
        let mut s = String::new();
        s.append("user_record_for_");
        s.append(input.user_id.as_str());
        Ok(JsonValue::Str(s))
    }
}

} // verus!
