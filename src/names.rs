//! Which file names a request may place in its workspace.
use vstd::prelude::*;

verus! {

/// ASCII letters and the dot.
pub open spec fn is_name_char(c: char) -> bool {
    ('a' <= c && c <= 'z') || ('A' <= c && c <= 'Z') || c == '.'
}

/// A non-empty name of letters and dots that does not start with a dot.
pub open spec fn is_valid_name(s: Seq<char>) -> bool {
    &&& s.len() > 0
    &&& s[0] != '.'
    &&& forall|i: int| 0 <= i < s.len() ==> is_name_char(#[trigger] s[i])
}

/// Whether `name` may be written into a workspace.
pub fn valid_name(name: &str) -> (r: bool)
    ensures
        r == is_valid_name(name@),
{
    let n = name.unicode_len();
    if n == 0 {
        return false;
    }
    if name.get_char(0) == '.' {
        return false;
    }
    let mut i: usize = 0;
    while i < n
        invariant
            n == name@.len(),
            i <= n,
            forall|j: int| 0 <= j < i ==> is_name_char(#[trigger] name@[j]),
        decreases n - i,
    {
        let c = name.get_char(i);
        if !(('a' <= c && c <= 'z') || ('A' <= c && c <= 'Z') || c == '.') {
            return false;
        }
        i = i + 1;
    }
    true
}

/// A rejected file name, by its position in the request.
#[derive(Clone, Copy, Debug, PartialEq, Eq, Structural)]
pub struct NameError {
    pub index: usize,
}

/// Checks every name before anything is written: the first invalid one
/// rejects the whole request.
pub fn validate_names(names: &Vec<String>) -> (r: Result<(), NameError>)
    ensures
        r is Ok <==> forall|j: int| 0 <= j < names@.len() ==> is_valid_name(#[trigger] names@[j]@),
        r matches Err(e) ==> {
            &&& e.index < names@.len()
            &&& !is_valid_name(names@[e.index as int]@)
            &&& forall|j: int| 0 <= j < e.index ==> is_valid_name(#[trigger] names@[j]@)
        },
{
    let mut i: usize = 0;
    while i < names.len()
        invariant
            i <= names@.len(),
            forall|j: int| 0 <= j < i ==> is_valid_name(#[trigger] names@[j]@),
        decreases names@.len() - i,
    {
        if !valid_name(names[i].as_str()) {
            return Err(NameError { index: i });
        }
        i = i + 1;
    }
    Ok(())
}

/// A name with a slash, a digit or a leading dot is never valid, so a request
/// that holds one is rejected before any file is written.
pub proof fn lemma_unsafe_names_rejected(s: Seq<char>, names: Seq<Seq<char>>, k: int)
    requires
        0 <= k < names.len(),
        names[k] == s,
        s.contains('/') || (exists|i: int| 0 <= i < s.len() && '0' <= #[trigger] s[i] <= '9') || (
        s.len() > 0 && s[0] == '.'),
    ensures
        !is_valid_name(s),
        !(forall|j: int| 0 <= j < names.len() ==> is_valid_name(#[trigger] names[j])),
{
    if s.contains('/') {
        let i = choose|i: int| 0 <= i < s.len() && s[i] == '/';
        assert(!is_name_char(s[i]));
    } else if exists|i: int| 0 <= i < s.len() && '0' <= #[trigger] s[i] <= '9' {
        let i = choose|i: int| 0 <= i < s.len() && '0' <= #[trigger] s[i] <= '9';
        assert(!is_name_char(s[i]));
    }
    assert(!is_valid_name(names[k]));
}

} // verus!
