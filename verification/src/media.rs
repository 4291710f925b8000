//! Media-type strings. A `Content-Type` header is only set from a hint
//! that is a well-formed `type/subtype` media type.

use vstd::prelude::*;

verus! {

/// The character may stand in a media-type token: printable ASCII other
/// than the separators `( ) < > @ , ; : \ " / [ ] ? =` and space.
pub open spec fn is_token_char(c: char) -> bool {
    &&& 33 <= c as int <= 126
    &&& c != '(' && c != ')' && c != '<' && c != '>' && c != '@'
    &&& c != ',' && c != ';' && c != ':' && c != '\\' && c != '"'
    &&& c != '/' && c != '[' && c != ']' && c != '?' && c != '='
}

/// Every character of `s` may stand in a token.
pub open spec fn all_token_chars(s: Seq<char>) -> bool {
    forall|i: int| 0 <= i < s.len() ==> is_token_char(#[trigger] s[i])
}

/// `s` is a well-formed media type: a nonempty token, one `/`, and a
/// nonempty token.
pub open spec fn valid_media_type(s: Seq<char>) -> bool {
    exists|i: int|
        {
            &&& 0 < i < s.len() - 1
            &&& #[trigger] s[i] == '/'
            &&& all_token_chars(s.subrange(0, i))
            &&& all_token_chars(s.subrange(i + 1, s.len() as int))
        }
}

/// Decide [`valid_media_type`] for a string.
pub fn is_valid_media_type(s: &str) -> (r: bool)
    ensures
        r == valid_media_type(s@),
{
    let n = s.unicode_len();
    // Find the first '/'.
    let mut slash: usize = 0;
    let mut found: bool = false;
    while slash < n && !found
        invariant
            0 <= slash <= n == s@.len(),
            found ==> slash < n && s@[slash as int] == '/',
            forall|j: int| 0 <= j < slash ==> s@[j] != '/',
        decreases n - slash + (if found { 0int } else { 1int }),
    {
        if s.get_char(slash) == '/' {
            found = true;
        } else {
            slash = slash + 1;
        }
    }
    if !found {
        proof {
            assert forall|i: int| !(0 < i < s@.len() - 1 && #[trigger] s@[i] == '/') by {}
        }
        return false;
    }
    if slash == 0 || slash + 1 >= n {
        proof {
            if valid_media_type(s@) {
                let i = choose|i: int|
                    0 < i < s@.len() - 1 && #[trigger] s@[i] == '/' && all_token_chars(
                        s@.subrange(0, i),
                    ) && all_token_chars(s@.subrange(i + 1, s@.len() as int));
                assert(i >= slash);
                if i > slash {
                    assert(s@.subrange(0, i)[slash as int] == '/');
                    assert(!is_token_char('/'));
                }
            }
        }
        return false;
    }
    // Both sides of the first '/' must be tokens.
    let mut k: usize = 0;
    let mut ok: bool = true;
    while k < n && ok
        invariant
            0 <= k <= n == s@.len(),
            0 < slash && slash + 1 < n,
            s@[slash as int] == '/',
            forall|j: int| 0 <= j < slash ==> s@[j] != '/',
            ok ==> forall|j: int| 0 <= j < k && j != slash ==> is_token_char(#[trigger] s@[j]),
            !ok ==> exists|j: int| 0 <= j < n && j != slash && !is_token_char(#[trigger] s@[j]),
        decreases n - k + (if ok { 1int } else { 0int }),
    {
        if k != slash {
            let c = s.get_char(k);
            let u = c as u32;
            if u < 33 || u > 126 || c == '(' || c == ')' || c == '<' || c == '>' || c == '@' || c
                == ',' || c == ';' || c == ':' || c == '\\' || c == '"' || c == '/' || c == '['
                || c == ']' || c == '?' || c == '=' {
                ok = false;
            } else {
                k = k + 1;
            }
        } else {
            k = k + 1;
        }
    }
    proof {
        if ok {
            assert(all_token_chars(s@.subrange(0, slash as int)));
            assert(all_token_chars(s@.subrange(slash + 1, s@.len() as int)));
            assert(valid_media_type(s@));
        } else {
            let j = choose|j: int| 0 <= j < n && j != slash && !is_token_char(#[trigger] s@[j]);
            if valid_media_type(s@) {
                let i = choose|i: int|
                    0 < i < s@.len() - 1 && #[trigger] s@[i] == '/' && all_token_chars(
                        s@.subrange(0, i),
                    ) && all_token_chars(s@.subrange(i + 1, s@.len() as int));
                assert(i >= slash);
                if i > slash {
                    assert(s@.subrange(0, i)[slash as int] == '/');
                    assert(!is_token_char('/'));
                }
                assert(i == slash);
                if j < slash {
                    assert(s@.subrange(0, i)[j] == s@[j]);
                } else {
                    assert(s@.subrange(i + 1, s@.len() as int)[j - i - 1] == s@[j]);
                }
            }
        }
    }
    ok
}

} // verus!
