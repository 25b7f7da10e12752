//! Repositories as they are named on the command line: owner, a slash, name.

use vstd::prelude::*;
use vstd::string::StrSliceExecFns;

verus! {

/// Whether the text has its one and only slash at `i`.
pub open spec fn only_slash_at(text: Seq<char>, i: int) -> bool {
    &&& 0 <= i < text.len()
    &&& text[i] == '/'
    &&& forall|k: int| 0 <= k < text.len() && k != i ==> text[k] != '/'
}

/// Whether the text names a repository: it holds exactly one slash.
pub open spec fn names_repository(text: Seq<char>) -> bool {
    exists|i: int| only_slash_at(text, i)
}

/// Reads `owner/name` into owner and name. A text without a slash, or with
/// more than one, names no repository.
pub fn parse_repository(text: &str) -> (r: Option<(String, String)>)
    ensures
        match r {
            Some((user, name)) => exists|i: int|
                only_slash_at(text@, i) && user@ == text@.take(i) && name@ == text@.skip(i + 1),
            None => !names_repository(text@),
        },
{
    let len = text.unicode_len();
    let mut slash: Option<usize> = None;
    let mut i: usize = 0;
    while i < len
        invariant
            i <= len,
            len == text@.len(),
            match slash {
                Some(at) => at < i && text@[at as int] == '/' && forall|k: int|
                    0 <= k < i && k != at ==> text@[k] != '/',
                None => forall|k: int| 0 <= k < i ==> text@[k] != '/',
            },
        decreases len - i,
    {
        if text.get_char(i) == '/' {
            match slash {
                Some(at) => {
                    assert forall|j: int| !only_slash_at(text@, j) by {
                        if only_slash_at(text@, j) {
                            if j == at {
                                assert(text@[i as int] != '/');
                            } else {
                                assert(text@[at as int] != '/');
                            }
                        }
                    }
                    return None;
                },
                None => {
                    slash = Some(i);
                },
            }
        }
        i += 1;
    }
    match slash {
        Some(at) => {
            let user = text.substring_char(0, at).to_owned();
            let name = text.substring_char(at + 1, len).to_owned();
            proof {
                assert(only_slash_at(text@, at as int));
                assert(text@.subrange(0, at as int) =~= text@.take(at as int));
                assert(text@.subrange(at as int + 1, len as int) =~= text@.skip(at as int + 1));
            }
            Some((user, name))
        },
        None => {
            assert forall|j: int| !only_slash_at(text@, j) by {}
            None
        },
    }
}

} // verus!
