use vstd::prelude::*;

verus! {

pub open spec fn is_id_char(c: char) -> bool {
    ('a' <= c && c <= 'z') || ('0' <= c && c <= '9')
}

pub open spec fn is_separator(c: char) -> bool {
    c == '-' || c == '_' || c == '.'
}

/// A valid account id: 2 to 64 characters, lower-case letters and digits in
/// runs separated by single `-`, `_` or `.`, starting and ending with neither.
pub open spec fn valid_account_id(s: Seq<char>) -> bool {
    &&& 2 <= s.len() <= 64
    &&& forall|i: int| 0 <= i < s.len() ==> is_id_char(#[trigger] s[i]) || is_separator(s[i])
    &&& !is_separator(s[0])
    &&& !is_separator(s[s.len() - 1])
    &&& forall|i: int| 0 <= i < s.len() - 1 ==> !(is_separator(#[trigger] s[i]) && is_separator(s[i + 1]))
}

/// Relies on `near_sdk::env::is_valid_account_id`, which checks the bytes of
/// the id one by one against the rule above; every byte it accepts is ASCII,
/// so bytes and characters agree on the ids it accepts.
#[verifier::external_body]
pub(crate) fn is_valid_account_id(s: &String) -> (r: bool)
    ensures
        r == valid_account_id(s@),
{
    near_sdk::env::is_valid_account_id(s.as_bytes())
}

} // verus!
