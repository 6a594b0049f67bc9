//! Validation of user-supplied request fields.

use vstd::prelude::*;
use vstd::string::StringSliceAdditionalSpecFns;

verus! {

/// Max length for user-provided name fields, in bytes.
pub fn max_name() -> (r: usize)
    ensures
        r == 256,
{
    256
}

/// Max length for URL fields, in bytes.
pub fn max_url() -> (r: usize)
    ensures
        r == 2048,
{
    2048
}

/// Max length for description fields, in bytes.
pub fn max_description() -> (r: usize)
    ensures
        r == 4096,
{
    4096
}

/// Max length for secret fields, in bytes.
pub fn max_secret() -> (r: usize)
    ensures
        r == 4096,
{
    4096
}

/// Checks that a string field does not exceed the given byte length.
/// An over-long value yields the error message; an acceptable one nothing.
pub fn validate_len(field: &str, value: &str, max: usize) -> (r: Option<String>)
    ensures
        r is Some <==> (value.spec_bytes().len() as usize) > max,
        r matches Some(m) ==> m@ == field@ + " exceeds maximum length"@,
{
    if value.len() > max {
        let mut s = String::from_str(field);
        s.append(" exceeds maximum length");
        Some(s)
    } else {
        None
    }
}

/// A character allowed in a repository name.
pub open spec fn repo_char_ok(c: char) -> bool {
    ('a' <= c && c <= 'z') || ('A' <= c && c <= 'Z') || ('0' <= c && c <= '9') || c == '-' || c
        == '_' || c == '.' || c == '/'
}

/// A valid `owner/model-name` repository reference: it holds a slash, no
/// doubled dot, and only safe characters.
pub open spec fn spec_repo_ok(s: Seq<char>) -> bool {
    &&& exists|i: int| 0 <= i < s.len() && s[i] == '/'
    &&& forall|i: int| 0 <= i && i + 1 < s.len() ==> !(#[trigger] s[i] == '.' && s[i + 1] == '.')
    &&& forall|i: int| 0 <= i < s.len() ==> repo_char_ok(#[trigger] s[i])
}

/// Checks a repository reference, refusing path traversal and unsafe
/// characters. A bad value yields the error message; a good one nothing.
pub fn validate_hf_repo(value: &str) -> (r: Option<String>)
    ensures
        r is None <==> spec_repo_ok(value@),
        r matches Some(m) ==> m@ == "repository must be in owner/model-name format"@,
{
    let n = value.unicode_len();
    let mut has_slash = false;
    let mut prev_dot = false;
    let mut i: usize = 0;
    while i < n
        invariant
            0 <= i <= n == value@.len(),
            has_slash == exists|j: int| 0 <= j < i && value@[j] == '/',
            forall|j: int| 0 <= j < i ==> repo_char_ok(#[trigger] value@[j]),
            forall|j: int| 0 <= j && j + 1 < i ==> !(#[trigger] value@[j] == '.' && value@[j + 1] == '.'),
            prev_dot == (i > 0 && value@[i - 1] == '.'),
        decreases n - i,
    {
        let c = value.get_char(i);
        let ok = ('a' <= c && c <= 'z') || ('A' <= c && c <= 'Z') || ('0' <= c && c <= '9') || c
            == '-' || c == '_' || c == '.' || c == '/';
        if !ok {
            return Some(String::from_str("repository must be in owner/model-name format"));
        }
        if prev_dot && c == '.' {
            proof {
                assert(value@[i - 1] == '.' && value@[i as int] == '.');
            }
            return Some(String::from_str("repository must be in owner/model-name format"));
        }
        if c == '/' {
            has_slash = true;
            proof {
                assert(value@[i as int] == '/');
            }
        }
        proof {
            assert(value@[i as int] == c);
            assert forall|j: int| 0 <= j && j + 1 < i + 1 implies !(#[trigger] value@[j] == '.'
                && value@[j + 1] == '.') by {
                if j + 1 < i {
                } else {
                    assert(j == i - 1);
                    assert(i > 0);
                    assert(prev_dot == (value@[i - 1] == '.'));
                    assert(value@[j] == value@[i - 1]);
                    assert(value@[j + 1] == c);
                    assert(!(prev_dot && c == '.'));
                }
            }
        }
        prev_dot = c == '.';
        i += 1;
    }
    if !has_slash {
        return Some(String::from_str("repository must be in owner/model-name format"));
    }
    None
}

} // verus!
