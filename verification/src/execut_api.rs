//! The player server's endpoints and the list of taken nicknames it answers.
use vstd::prelude::*;

verus! {

/// Where the player server listens.
pub open spec fn server_address() -> Seq<char> {
    "http://localhost:4444/"@
}

/// The URL of `endpoint` on the player server.
pub fn get_endpoint(endpoint: &str) -> (r: String)
    ensures
        r@ == server_address() + endpoint@,
{
    let mut r = String::from_str("http://localhost:4444/");
    r.append(endpoint);
    r
}

/// The strings of `text` read as a JSON array of strings, if it is one:
/// what serde_json's `from_str::<Vec<String>>` gives back.
pub uninterp spec fn json_string_list(text: Seq<char>) -> Option<Seq<Seq<char>>>;

#[verifier::external_type_specification]
#[verifier::external_body]
pub struct ExJsonError(serde_json::Error);

/// serde_json's `from_str::<Vec<String>>`. Its result depends on `text` alone
/// and is named [`json_string_list`]; which strings a JSON text holds is not
/// written out here.
#[verifier::external_body]
fn json_to_strings(text: &str) -> (r: Result<Vec<String>, serde_json::Error>)
    ensures
        match r {
            Ok(v) => json_string_list(text@) == Some(v.deep_view()),
            Err(_) => json_string_list(text@) is None,
        },
{
    serde_json::from_str(text)
}

/// Why a list of taken nicknames could not be read.
#[derive(Debug, PartialEq, Eq, Structural)]
pub enum NicknameListError {
    /// The answer is not a JSON array of strings.
    NotAStringArray,
}

/// The taken nicknames in the server's answer `text`, a JSON array of strings.
pub fn parse_taken_nicknames(text: &str) -> (r: Result<Vec<String>, NicknameListError>)
    ensures
        match r {
            Ok(v) => json_string_list(text@) == Some(v.deep_view()),
            Err(e) => json_string_list(text@) is None && e == NicknameListError::NotAStringArray,
        },
{
    match json_to_strings(text) {
        Ok(v) => Ok(v),
        Err(_) => Err(NicknameListError::NotAStringArray),
    }
}

} // verus!
