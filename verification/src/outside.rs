//! What this crate takes from outside crates without proof: the outside types
//! that its values carry, and the one outside computation that its logic
//! calls (a regular-expression search).

use vstd::prelude::*;

verus! {

/// `i3ipc::EstablishError`: why a connection to i3 could not be opened.
/// Carried through unread.
#[verifier::external_type_specification]
#[verifier::external_body]
pub struct ExEstablishError(i3ipc::EstablishError);

/// `i3ipc::MessageError`: why a message to i3 failed. Carried through unread.
#[verifier::external_type_specification]
#[verifier::external_body]
pub struct ExMessageError(i3ipc::MessageError);

/// `config::ConfigError`: why a configuration could not be read. Carried
/// through unread.
#[verifier::external_type_specification]
#[verifier::external_body]
pub struct ExConfigError(config::ConfigError);

/// What compiling `pattern` with `regex::Regex::new` and running
/// `captures_iter` over `text` yields: `None` when the pattern does not
/// compile; otherwise, for each successive non-overlapping match in `text`,
/// the text of capture group `group`, or `None` where that group took no
/// part in the match.
pub uninterp spec fn regex_capture_group(pattern: Seq<char>, text: Seq<char>, group: usize) -> Option<Seq<Option<Seq<char>>>>;

/// The characters of each capture.
pub open spec fn captures_view(captures: Seq<Option<String>>) -> Seq<Option<Seq<char>>> {
    captures.map_values(|c: Option<String>| match c {
        Some(s) => Some(s@),
        None => None,
    })
}

/// Calls `regex::Regex::new(pattern)` and then `captures_iter(text)` on the
/// compiled expression, keeping capture group `group` of each match.
/// Claimed: the result is `regex_capture_group` of the arguments, a
/// function of them alone (`Regex::new` fails on an invalid pattern and on
/// one over the default size limit, both fixed by the pattern). Nothing is
/// claimed of what the matches are.
#[verifier::external_body]
pub(crate) fn capture_group(pattern: &str, text: &str, group: usize) -> (res: Option<Vec<Option<String>>>)
    ensures
        match res {
            Some(captures) => regex_capture_group(pattern@, text@, group) == Some(captures_view(captures@)),
            None => regex_capture_group(pattern@, text@, group) is None,
        },
{
    match regex::Regex::new(pattern) {
        Ok(re) => Some(
            re.captures_iter(text).map(|caps| caps.get(group).map(|m| m.as_str().to_string())).collect(),
        ),
        Err(_) => None,
    }
}

} // verus!
