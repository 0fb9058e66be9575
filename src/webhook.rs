use vstd::prelude::*;

use crate::text::{chars_of, contains_text, has_sub, is_digit, text};
use crate::types::{AppError, ParsedWebhook};

verus! {

/// A JSON document. Object members are held, and searched, in the order in
/// which they are listed here.
#[derive(Debug)]
pub enum Json {
    Null,
    Bool(bool),
    Number(String),
    Str(String),
    Array(Vec<Json>),
    Object(Vec<JsonMember>),
}

/// One member of a JSON object.
#[derive(Debug)]
pub struct JsonMember {
    pub key: String,
    pub value: Json,
}

/// What a searched string must look like.
#[derive(Debug, Clone, Copy, PartialEq, Eq, Structural)]
pub enum Pattern {
    /// Exactly 40 ASCII hexadecimal digits.
    CommitHash,
    /// Holds both `ssh://` and `.git`.
    RepoUrl,
}

pub open spec fn is_hex(c: char) -> bool {
    is_digit(c) || ('a' <= c && c <= 'f') || ('A' <= c && c <= 'F')
}

pub open spec fn is_commit_hash(s: Seq<char>) -> bool {
    s.len() == 40 && forall|i: int| 0 <= i < s.len() ==> is_hex(#[trigger] s[i])
}

pub open spec fn is_repo_url(s: Seq<char>) -> bool {
    has_sub(s, "ssh://"@) && has_sub(s, ".git"@)
}

pub open spec fn pattern_holds(p: Pattern, s: Seq<char>) -> bool {
    match p {
        Pattern::CommitHash => is_commit_hash(s),
        Pattern::RepoUrl => is_repo_url(s),
    }
}

/// The first string in `j` that `p` accepts, searching depth first: the
/// values of an object and the items of an array in order.
pub open spec fn find_in(j: Json, p: Pattern) -> Option<Seq<char>>
    decreases j,
{
    match j {
        Json::Str(s) => if pattern_holds(p, s@) {
            Some(s@)
        } else {
            None
        },
        Json::Array(v) => find_in_items(v@, p),
        Json::Object(m) => find_in_members(m@, p),
        _ => None,
    }
}

/// The first string that `p` accepts in the items `v`, in order.
pub open spec fn find_in_items(v: Seq<Json>, p: Pattern) -> Option<Seq<char>>
    decreases v,
{
    if v.len() == 0 {
        None
    } else {
        match find_in(v[0], p) {
            Some(s) => Some(s),
            None => find_in_items(v.subrange(1, v.len() as int), p),
        }
    }
}

/// The first string that `p` accepts in the values of the members `m`, in order.
pub open spec fn find_in_members(m: Seq<JsonMember>, p: Pattern) -> Option<Seq<char>>
    decreases m,
{
    if m.len() == 0 {
        None
    } else {
        match find_in(m[0].value, p) {
            Some(s) => Some(s),
            None => find_in_members(m.subrange(1, m.len() as int), p),
        }
    }
}


/// Whether `s` is exactly 40 ASCII hexadecimal digits.
pub fn is_commit_hash_text(s: &str) -> (r: bool)
    ensures
        r == is_commit_hash(s@),
{
    let cs = chars_of(s);
    if cs.len() != 40 {
        return false;
    }
    let mut i: usize = 0;
    while i < cs.len()
        invariant
            cs@ == s@,
            i <= cs@.len(),
            forall|k: int| 0 <= k < i ==> is_hex(#[trigger] cs@[k]),
        decreases cs@.len() - i,
    {
        let c = cs[i];
        if !(('0' <= c && c <= '9') || ('a' <= c && c <= 'f') || ('A' <= c && c <= 'F')) {
            assert(!is_hex(s@[i as int]));
            return false;
        }
        i = i + 1;
    }
    true
}

/// Whether `s` holds both `ssh://` and `.git`.
pub fn is_repo_url_text(s: &str) -> (r: bool)
    ensures
        r == is_repo_url(s@),
{
    contains_text(s, "ssh://") && contains_text(s, ".git")
}

/// Whether `p` accepts `s`.
pub fn pattern_matches(p: Pattern, s: &str) -> (r: bool)
    ensures
        r == pattern_holds(p, s@),
{
    match p {
        Pattern::CommitHash => is_commit_hash_text(s),
        Pattern::RepoUrl => is_repo_url_text(s),
    }
}

/// The first string in `json` that `p` accepts, searching depth first: the
/// values of an object and the items of an array in order.
pub fn find_string(json: &Json, p: Pattern) -> (r: Option<String>)
    ensures
        match r {
            Some(s) => find_in(*json, p) == Some(s@),
            None => find_in(*json, p) is None,
        },
    decreases json,
{
    match json {
        Json::Str(s) => {
            if pattern_matches(p, s.as_str()) {
                Some(s.clone())
            } else {
                None
            }
        },
        Json::Array(v) => {
            let mut i: usize = 0;
            assert(v@.subrange(0, v@.len() as int) =~= v@);
            while i < v.len()
                invariant
                    *json == Json::Array(*v),
                    i <= v@.len(),
                    find_in(*json, p) == find_in_items(v@, p),
                    find_in_items(v@, p) == find_in_items(v@.subrange(i as int, v@.len() as int), p),
                decreases v@.len() - i,
            {
                let ghost rest = v@.subrange(i as int, v@.len() as int);
                assert(rest[0] == v@[i as int]);
                assert(rest.subrange(1, rest.len() as int) =~= v@.subrange(i + 1, v@.len() as int));
                proof {
                    assert(decreases_to!(v => v@));
                    assert(decreases_to!(v@ => v@[i as int]));
                }
                let found = find_string(&v[i], p);
                if found.is_some() {
                    return found;
                }
                i = i + 1;
            }
            None
        },
        Json::Object(m) => {
            let mut i: usize = 0;
            assert(m@.subrange(0, m@.len() as int) =~= m@);
            while i < m.len()
                invariant
                    *json == Json::Object(*m),
                    i <= m@.len(),
                    find_in(*json, p) == find_in_members(m@, p),
                    find_in_members(m@, p) == find_in_members(m@.subrange(i as int, m@.len() as int), p),
                decreases m@.len() - i,
            {
                let ghost rest = m@.subrange(i as int, m@.len() as int);
                assert(rest[0] == m@[i as int]);
                assert(rest.subrange(1, rest.len() as int) =~= m@.subrange(i + 1, m@.len() as int));
                proof {
                    assert(decreases_to!(m => m@));
                    assert(decreases_to!(m@ => m@[i as int]));
                    assert(decreases_to!(m@[i as int] => m@[i as int].value));
                }
                let found = find_string(&m[i].value, p);
                if found.is_some() {
                    return found;
                }
                i = i + 1;
            }
            None
        },
        _ => None,
    }
}

/// Reads the commit hash and the repository URL out of a webhook payload,
/// wherever in the document they stand.
pub fn webhook_parse(webhook: &Json) -> (r: Result<ParsedWebhook, AppError>)
    ensures
        match r {
            Ok(w) => find_in(*webhook, Pattern::CommitHash) == Some(w.hash@)
                && find_in(*webhook, Pattern::RepoUrl) == Some(w.repository@),
            Err(e) => e is ParsingModuleError && (find_in(*webhook, Pattern::CommitHash) is None
                || find_in(*webhook, Pattern::RepoUrl) is None),
        },
{
    let hash = match find_string(webhook, Pattern::CommitHash) {
        Some(h) => h,
        None => {
            return Err(AppError::ParsingModuleError(text("could not find commit hash")));
        },
    };
    let repository = match find_string(webhook, Pattern::RepoUrl) {
        Some(u) => u,
        None => {
            return Err(AppError::ParsingModuleError(text("could not find repo url")));
        },
    };
    Ok(ParsedWebhook { repository, hash })
}

} // verus!
