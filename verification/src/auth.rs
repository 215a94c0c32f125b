//! Who may use the proxy.

use vstd::prelude::*;

use crate::text::joined;
use crate::text::same_text;

verus! {

/// Whether an `Authorization` header carries one of the tokens.
pub open spec fn carries_token(header: Seq<char>, tokens: Seq<String>) -> bool {
    exists|i: int| 0 <= i < tokens.len() && header == "Bearer "@ + (#[trigger] tokens[i])@
}

/// The HTTP status of the answer to a request without a valid token.
pub const UNAUTHORIZED: u16 = 401;

/// Lets a request pass or gives the status to refuse it with. `header` is its
/// `Authorization` header, if it has one that is text; no other header counts.
pub fn authorize(header: Option<&str>, tokens: &Vec<String>) -> (r: Result<(), u16>)
    ensures
        r is Ok <==> (header matches Some(h) && carries_token(h@, tokens@)),
        r matches Err(status) ==> status == UNAUTHORIZED,
{
    match header {
        Some(h) => {
            let mut i: usize = 0;
            while i < tokens.len()
                invariant
                    i <= tokens@.len(),
                    header == Some(h),
                    forall|j: int| 0 <= j < i ==> h@ != "Bearer "@ + (#[trigger] tokens@[j])@,
                decreases tokens@.len() - i,
            {
                if same_text(h, joined("Bearer ", tokens[i].as_str()).as_str()) {
                    proof {
                        assert(h@ == "Bearer "@ + tokens@[i as int]@);
                    }
                    return Ok(());
                }
                i = i + 1;
            }
            Err(UNAUTHORIZED)
        },
        None => Err(UNAUTHORIZED),
    }
}

/// A token opens the proxy exactly if it is one of those configured: the header is the
/// word `Bearer`, a space and the whole token, and a header that is anything else opens
/// nothing.
pub proof fn exactly_the_tokens_open(header: Seq<char>, token: Seq<char>, tokens: Seq<String>)
    ensures
        carries_token("Bearer "@ + token, tokens) <==> exists|i: int|
            0 <= i < tokens.len() && (#[trigger] tokens[i])@ == token,
        carries_token(header, tokens) ==> "Bearer "@.is_prefix_of(header),
{
    if carries_token("Bearer "@ + token, tokens) {
        let i = choose|i: int|
            0 <= i < tokens.len() && "Bearer "@ + token == "Bearer "@ + (#[trigger] tokens[i])@;
        let n = "Bearer "@.len() as int;
        assert(("Bearer "@ + token).skip(n) =~= token);
        assert(("Bearer "@ + tokens[i]@).skip(n) =~= tokens[i]@);
    }
    if carries_token(header, tokens) {
        let i = choose|i: int|
            0 <= i < tokens.len() && header == "Bearer "@ + (#[trigger] tokens[i])@;
        assert(header.take("Bearer "@.len() as int) =~= "Bearer "@);
    }
}

} // verus!
