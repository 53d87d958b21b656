//! Reading the requests the front end sends: a JSON object of strings, or
//! one JSON string. Each request names the fields it needs; the first one
//! missing is reported with that request's own message.
use std::collections::BTreeMap;
use vstd::prelude::*;
use crate::git_manager::{parse_reset_type, reset_kind_of, ResetKind};
use crate::git_manager::plans::{diff_source, diff_source_of, DiffSource};
use crate::text::{owned, str_eq};

verus! {

/// A JSON parse error (`serde_json::Error`), carried through unchanged.
#[verifier::external_type_specification]
#[verifier::external_body]
pub struct ExJsonError(serde_json::Error);

/// The object a JSON text holds when it is an object whose values are all
/// strings, as `serde_json` reads it into a map of strings (none for any
/// other text).
pub uninterp spec fn json_string_object(json: Seq<char>) -> Option<Map<Seq<char>, Seq<char>>>;

/// The string a JSON text holds, as `serde_json` reads it into a value and
/// takes its string: outer none when the text is not JSON, inner none when
/// the JSON value is not a string.
pub uninterp spec fn json_string_value(json: Seq<char>) -> Option<Option<Seq<char>>>;

/// The map of a list of key and value pairs (a later pair wins).
pub open spec fn pairs_map(p: Seq<(Seq<char>, Seq<char>)>) -> Map<Seq<char>, Seq<char>>
    decreases p.len(),
{
    if p.len() == 0 {
        Map::empty()
    } else {
        pairs_map(p.drop_last()).insert(p.last().0, p.last().1)
    }
}

/// No key occurs twice in a list of pairs.
pub open spec fn keys_distinct(p: Seq<(Seq<char>, Seq<char>)>) -> bool {
    forall|i: int, j: int| 0 <= i < j < p.len() ==> #[trigger] p[i].0 != #[trigger] p[j].0
}

/// Reads a JSON object of strings (`serde_json::from_str` into a
/// `BTreeMap<String, String>`). Claimed: an error exactly when the text is
/// not such an object (`json_string_object` is none); otherwise the pairs,
/// whose keys are distinct, form that object.
#[verifier::external_body]
fn parse_string_object(json: &str) -> (r: Result<Vec<(String, String)>, serde_json::Error>)
    ensures
        r is Err <==> json_string_object(json@) is None,
        r matches Ok(v) ==> keys_distinct(v.deep_view()) && Some(pairs_map(v.deep_view()))
            == json_string_object(json@),
{
    match serde_json::from_str::<BTreeMap<String, String>>(json) {
        Ok(m) => Ok(m.into_iter().collect()),
        Err(e) => Err(e),
    }
}

/// Reads one JSON value (`serde_json::from_str` into a `serde_json::Value`)
/// and takes its string (`Value::as_str`). Claimed: an error exactly when
/// the text is not JSON; otherwise the string, or none when the value is
/// not a string, as `json_string_value` names it.
#[verifier::external_body]
fn parse_string_value(json: &str) -> (r: Result<Option<String>, serde_json::Error>)
    ensures
        r is Err <==> json_string_value(json@) is None,
        r matches Ok(o) ==> Some(
            match o {
                Some(s) => Some(s@),
                None => None,
            },
        ) == json_string_value(json@),
{
    match serde_json::from_str::<serde_json::Value>(json) {
        Ok(v) => Ok(v.as_str().map(|s| s.to_string())),
        Err(e) => Err(e),
    }
}

/// The text of a JSON parse error (its `Display`). Nothing is claimed of
/// the text.
#[verifier::external_body]
fn json_error_text(e: &serde_json::Error) -> String {
    e.to_string()
}

/// Why a request from the front end was refused.
pub enum RequestError {
    /// The text is not JSON of the expected shape.
    Malformed(serde_json::Error),
    /// The JSON value is not a string.
    NotAString,
    /// A field is missing; the request's message for it.
    MissingField(String),
    /// A field holds a value the request does not accept; its message.
    InvalidValue(String),
}

/// The message shown for a request error, where the library writes it.
pub open spec fn request_error_text(e: RequestError) -> Option<Seq<char>> {
    match e {
        RequestError::Malformed(_) => None,
        RequestError::NotAString => Some("Invalid JSON String!"@),
        RequestError::MissingField(m) => Some(m@),
        RequestError::InvalidValue(m) => Some(m@),
    }
}

impl RequestError {
    /// The message shown for this error: the parse error's own text for
    /// malformed JSON, else `request_error_text`.
    pub fn message(&self) -> (r: String)
        ensures
            request_error_text(*self) matches Some(t) ==> r@ == t,
    {
        match self {
            RequestError::Malformed(e) => json_error_text(e),
            RequestError::NotAString => owned("Invalid JSON String!"),
            RequestError::MissingField(m) => m.clone(),
            RequestError::InvalidValue(m) => m.clone(),
        }
    }
}

/// What reading the named fields of a request gives.
pub enum FieldsOutcome {
    /// The text is not a JSON object of strings.
    Malformed,
    /// The first missing field's message.
    Missing(Seq<char>),
    /// The values of the fields, in the order named.
    Found(Seq<Seq<char>>),
}

/// Reading `keys[i..]` from object `m`: the message of the first key
/// missing, else all their values.
pub open spec fn fields_in(m: Map<Seq<char>, Seq<char>>, keys: Seq<Seq<char>>, missing: Seq<Seq<char>>, i: int) -> FieldsOutcome
    decreases keys.len() - i,
{
    if i < 0 || i >= keys.len() {
        FieldsOutcome::Found(keys.map_values(|k: Seq<char>| m[k]))
    } else if !m.contains_key(keys[i]) {
        FieldsOutcome::Missing(missing[i])
    } else {
        fields_in(m, keys, missing, i + 1)
    }
}

/// Reading the fields `keys` of request `json`, with `missing[i]` the
/// message for a missing `keys[i]`.
pub open spec fn fields_outcome(json: Seq<char>, keys: Seq<Seq<char>>, missing: Seq<Seq<char>>) -> FieldsOutcome {
    match json_string_object(json) {
        None => FieldsOutcome::Malformed,
        Some(m) => fields_in(m, keys, missing, 0),
    }
}

/// A result agrees with an outcome: the same error, or the same values.
pub open spec fn fields_agree(r: Result<Vec<String>, RequestError>, o: FieldsOutcome) -> bool {
    match o {
        FieldsOutcome::Malformed => r matches Err(e) && e is Malformed,
        FieldsOutcome::Missing(t) => r matches Err(e) && e matches RequestError::MissingField(m) && m@ == t,
        FieldsOutcome::Found(v) => r matches Ok(f) && f.deep_view() == v,
    }
}

/// The plain texts of a list of string slices.
pub open spec fn texts(s: Seq<&str>) -> Seq<Seq<char>> {
    s.map_values(|x: &str| x@)
}

proof fn lemma_pairs_map(p: Seq<(Seq<char>, Seq<char>)>, k: Seq<char>)
    requires
        keys_distinct(p),
    ensures
        pairs_map(p).contains_key(k) <==> exists|i: int| 0 <= i < p.len() && #[trigger] p[i].0 == k,
        forall|i: int| 0 <= i < p.len() && #[trigger] p[i].0 == k ==> pairs_map(p)[k] == p[i].1,
    decreases p.len(),
{
    if p.len() > 0 {
        let q = p.drop_last();
        assert(keys_distinct(q)) by {
            assert forall|i: int, j: int| 0 <= i < j < q.len() implies #[trigger] q[i].0 != #[trigger] q[j].0 by {
                assert(q[i] == p[i] && q[j] == p[j]);
            }
        }
        lemma_pairs_map(q, k);
        if exists|i: int| 0 <= i < q.len() && #[trigger] q[i].0 == k {
            let i = choose|i: int| 0 <= i < q.len() && #[trigger] q[i].0 == k;
            assert(p[i] == q[i]);
        }
        if exists|i: int| 0 <= i < p.len() && #[trigger] p[i].0 == k {
            let i = choose|i: int| 0 <= i < p.len() && #[trigger] p[i].0 == k;
            if i < p.len() - 1 {
                assert(q[i] == p[i]);
            }
        }
        assert forall|i: int| 0 <= i < p.len() && #[trigger] p[i].0 == k implies pairs_map(p)[k] == p[i].1 by {
            if i < p.len() - 1 {
                assert(q[i] == p[i]);
                assert(p[i].0 != p[p.len() - 1].0);
            }
        }
    }
}

/// The value of `key` among distinct-keyed pairs.
fn lookup(pairs: &Vec<(String, String)>, key: &str) -> (r: Option<String>)
    requires
        keys_distinct(pairs.deep_view()),
    ensures
        match r {
            Some(v) => pairs_map(pairs.deep_view()).contains_key(key@) && v@ == pairs_map(
                pairs.deep_view(),
            )[key@],
            None => !pairs_map(pairs.deep_view()).contains_key(key@),
        },
{
    let ghost p = pairs.deep_view();
    proof {
        lemma_pairs_map(p, key@);
    }
    let mut i: usize = 0;
    assert(keys_distinct(p));
    while i < pairs.len()
        invariant
            i <= pairs@.len(),
            p == pairs.deep_view(),
            keys_distinct(p),
            forall|j: int| 0 <= j < i ==> #[trigger] p[j].0 != key@,
        decreases pairs@.len() - i,
    {
        proof {
            lemma_pairs_map(p, key@);
        }
        assert(p[i as int] == (pairs@[i as int].0@, pairs@[i as int].1@));
        if str_eq(pairs[i].0.as_str(), key) {
            assert(p[i as int].0 == key@);
            let v = pairs[i].1.clone();
            assert(v@ == p[i as int].1);
            return Some(v);
        }
        assert(p[i as int].0 == pairs@[i as int].0@);
        i = i + 1;
    }
    None
}

/// Reads the fields `keys` of a request that is a JSON object of strings,
/// in order; the first missing `keys[i]` is refused with `missing[i]`.
pub fn read_fields(json: &str, keys: Vec<&str>, missing: Vec<&str>) -> (r: Result<Vec<String>, RequestError>)
    requires
        keys.len() == missing.len(),
    ensures
        fields_agree(r, fields_outcome(json@, texts(keys@), texts(missing@))),
{
    let pairs = match parse_string_object(json) {
        Ok(p) => p,
        Err(e) => return Err(RequestError::Malformed(e)),
    };
    let ghost m = pairs_map(pairs.deep_view());
    let ghost ks = texts(keys@);
    let ghost ms = texts(missing@);
    let mut values: Vec<String> = Vec::new();
    let mut i: usize = 0;
    while i < keys.len()
        invariant
            i <= keys@.len(),
            keys@.len() == missing@.len(),
            ks == texts(keys@),
            ms == texts(missing@),
            keys_distinct(pairs.deep_view()),
            m == pairs_map(pairs.deep_view()),
            Some(m) == json_string_object(json@),
            fields_in(m, ks, ms, 0) == fields_in(m, ks, ms, i as int),
            values@.len() == i,
            forall|j: int| 0 <= j < i ==> #[trigger] values@[j]@ == m[ks[j]],
        decreases keys@.len() - i,
    {
        match lookup(&pairs, keys[i]) {
            Some(v) => {
                values.push(v);
            },
            None => {
                return Err(RequestError::MissingField(owned(missing[i])));
            },
        }
        i = i + 1;
    }
    proof {
        assert(values.deep_view() =~= ks.map_values(|k: Seq<char>| m[k]));
    }
    Ok(values)
}

/// Reads a request that is one JSON string.
pub fn read_string(json: &str) -> (r: Result<String, RequestError>)
    ensures
        match json_string_value(json@) {
            None => r matches Err(e) && e is Malformed,
            Some(None) => r matches Err(e) && e is NotAString,
            Some(Some(s)) => r matches Ok(t) && t@ == s,
        },
{
    match parse_string_value(json) {
        Ok(Some(s)) => Ok(s),
        Ok(None) => Err(RequestError::NotAString),
        Err(e) => Err(RequestError::Malformed(e)),
    }
}


proof fn lemma_fields_in_found(m: Map<Seq<char>, Seq<char>>, keys: Seq<Seq<char>>, missing: Seq<Seq<char>>, i: int)
    ensures
        fields_in(m, keys, missing, i) matches FieldsOutcome::Found(v) ==> v.len() == keys.len(),
    decreases keys.len() - i,
{
    if 0 <= i < keys.len() && m.contains_key(keys[i]) {
        lemma_fields_in_found(m, keys, missing, i + 1);
    }
}

/// Found values are one per field named.
proof fn lemma_found_len(json: Seq<char>, keys: Seq<Seq<char>>, missing: Seq<Seq<char>>)
    ensures
        fields_outcome(json, keys, missing) matches FieldsOutcome::Found(v) ==> v.len() == keys.len(),
{
    if let Some(m) = json_string_object(json) {
        lemma_fields_in_found(m, keys, missing, 0);
    }
}

/// A result refused as the outcome says, when the outcome is a refusal.
pub open spec fn refused_like<T>(r: Result<T, RequestError>, o: FieldsOutcome) -> bool {
    match o {
        FieldsOutcome::Malformed => r matches Err(e) && e is Malformed,
        FieldsOutcome::Missing(t) => r matches Err(e) && e matches RequestError::MissingField(m) && m@ == t,
        FieldsOutcome::Found(_) => true,
    }
}

/// The `clone_url` and `clone_path` of a request to clone a repository.
pub fn clone_request(json: &str) -> (r: Result<Vec<String>, RequestError>)
    ensures
        fields_agree(
            r,
            fields_outcome(
                json@,
                seq!["clone_url"@, "clone_path"@],
                seq![
                "clone_url not included in payload from the front-end"@,
                "clone_path not included in payload from the front-end"@,
                ],
            ),
        ),
{
    let keys = vec!["clone_url", "clone_path"];
    let missing = vec!["clone_url not included in payload from the front-end", "clone_path not included in payload from the front-end"];
    proof {
        assert(texts(keys@) =~= seq!["clone_url"@, "clone_path"@]);
        assert(texts(missing@) =~= seq![
                "clone_url not included in payload from the front-end"@,
                "clone_path not included in payload from the front-end"@,
                ]);
    }
    read_fields(json, keys, missing)
}

/// The `remote_name` and `remote_url` of a request to add a remote.
pub fn add_remote_request(json: &str) -> (r: Result<Vec<String>, RequestError>)
    ensures
        fields_agree(
            r,
            fields_outcome(
                json@,
                seq!["remote_name"@, "remote_url"@],
                seq![
                "remote_name not included in payload from the front-end"@,
                "remote_url not included in payload from the front-end"@,
                ],
            ),
        ),
{
    let keys = vec!["remote_name", "remote_url"];
    let missing = vec!["remote_name not included in payload from the front-end", "remote_url not included in payload from the front-end"];
    proof {
        assert(texts(keys@) =~= seq!["remote_name"@, "remote_url"@]);
        assert(texts(missing@) =~= seq![
                "remote_name not included in payload from the front-end"@,
                "remote_url not included in payload from the front-end"@,
                ]);
    }
    read_fields(json, keys, missing)
}

/// The `branch_shorthand` and `full_branch_name` of a request to check out a remote branch.
pub fn checkout_remote_request(json: &str) -> (r: Result<Vec<String>, RequestError>)
    ensures
        fields_agree(
            r,
            fields_outcome(
                json@,
                seq!["branch_shorthand"@, "full_branch_name"@],
                seq![
                "JSON Data is missing branch_shorthand attribute."@,
                "JSON Data is missing full_branch_name attribute."@,
                ],
            ),
        ),
{
    let keys = vec!["branch_shorthand", "full_branch_name"];
    let missing = vec!["JSON Data is missing branch_shorthand attribute.", "JSON Data is missing full_branch_name attribute."];
    proof {
        assert(texts(keys@) =~= seq!["branch_shorthand"@, "full_branch_name"@]);
        assert(texts(missing@) =~= seq![
                "JSON Data is missing branch_shorthand attribute."@,
                "JSON Data is missing full_branch_name attribute."@,
                ]);
    }
    read_fields(json, keys, missing)
}

/// The `summaryText` and `messageText` of a request to commit.
pub fn commit_request(json: &str) -> (r: Result<Vec<String>, RequestError>)
    ensures
        fields_agree(
            r,
            fields_outcome(
                json@,
                seq!["summaryText"@, "messageText"@],
                seq![
                "Front-end payload did not include summaryText"@,
                "Front-end payload did not include messageText"@,
                ],
            ),
        ),
{
    let keys = vec!["summaryText", "messageText"];
    let missing = vec!["Front-end payload did not include summaryText", "Front-end payload did not include messageText"];
    proof {
        assert(texts(keys@) =~= seq!["summaryText"@, "messageText"@]);
        assert(texts(missing@) =~= seq![
                "Front-end payload did not include summaryText"@,
                "Front-end payload did not include messageText"@,
                ]);
    }
    read_fields(json, keys, missing)
}

/// The `path`, `change_type` and `status` of a request to discard changes (the status as its text).
pub fn discard_request(json: &str) -> (r: Result<Vec<String>, RequestError>)
    ensures
        fields_agree(
            r,
            fields_outcome(
                json@,
                seq!["path"@, "change_type"@, "status"@],
                seq![
                "path was not included in the payload from the front-end"@,
                "change_type was not included in the payload from the front-end"@,
                "status was not included in the payload from the front-end"@,
                ],
            ),
        ),
{
    let keys = vec!["path", "change_type", "status"];
    let missing = vec!["path was not included in the payload from the front-end", "change_type was not included in the payload from the front-end", "status was not included in the payload from the front-end"];
    proof {
        assert(texts(keys@) =~= seq!["path"@, "change_type"@, "status"@]);
        assert(texts(missing@) =~= seq![
                "path was not included in the payload from the front-end"@,
                "change_type was not included in the payload from the front-end"@,
                "status was not included in the payload from the front-end"@,
                ]);
    }
    read_fields(json, keys, missing)
}

/// The `username` and `password` of a request to set HTTPS credentials.
pub fn https_credentials_request(json: &str) -> (r: Result<Vec<String>, RequestError>)
    ensures
        fields_agree(
            r,
            fields_outcome(
                json@,
                seq!["username"@, "password"@],
                seq![
                "No username supplied"@,
                "No password supplied"@,
                ],
            ),
        ),
{
    let keys = vec!["username", "password"];
    let missing = vec!["No username supplied", "No password supplied"];
    proof {
        assert(texts(keys@) =~= seq!["username"@, "password"@]);
        assert(texts(missing@) =~= seq![
                "No username supplied"@,
                "No password supplied"@,
                ]);
    }
    read_fields(json, keys, missing)
}

/// The `public_key_path`, `private_key_path` and `passphrase` of a request to set SSH credentials.
pub fn ssh_credentials_request(json: &str) -> (r: Result<Vec<String>, RequestError>)
    ensures
        fields_agree(
            r,
            fields_outcome(
                json@,
                seq!["public_key_path"@, "private_key_path"@, "passphrase"@],
                seq![
                "No public_key_path supplied from front-end."@,
                "No private_key_path supplied from front-end."@,
                "No passphrase supplied from front-end."@,
                ],
            ),
        ),
{
    let keys = vec!["public_key_path", "private_key_path", "passphrase"];
    let missing = vec!["No public_key_path supplied from front-end.", "No private_key_path supplied from front-end.", "No passphrase supplied from front-end."];
    proof {
        assert(texts(keys@) =~= seq!["public_key_path"@, "private_key_path"@, "passphrase"@]);
        assert(texts(missing@) =~= seq![
                "No public_key_path supplied from front-end."@,
                "No private_key_path supplied from front-end."@,
                "No passphrase supplied from front-end."@,
                ]);
    }
    read_fields(json, keys, missing)
}

/// The `index` of a request to apply a stash (as its text), read first.
pub fn stash_index_field(json: &str) -> (r: Result<Vec<String>, RequestError>)
    ensures
        fields_agree(
            r,
            fields_outcome(
                json@,
                seq!["index"@],
                seq![
                "index not included in payload from front-end."@,
                ],
            ),
        ),
{
    let keys = vec!["index"];
    let missing = vec!["index not included in payload from front-end."];
    proof {
        assert(texts(keys@) =~= seq!["index"@]);
        assert(texts(missing@) =~= seq![
                "index not included in payload from front-end."@,
                ]);
    }
    read_fields(json, keys, missing)
}

/// The `tag_sha` of a request to create a tag, read first.
pub fn tag_sha_field(json: &str) -> (r: Result<Vec<String>, RequestError>)
    ensures
        fields_agree(
            r,
            fields_outcome(
                json@,
                seq!["tag_sha"@],
                seq![
                "tag_sha not included in payload from front-end."@,
                ],
            ),
        ),
{
    let keys = vec!["tag_sha"];
    let missing = vec!["tag_sha not included in payload from front-end."];
    proof {
        assert(texts(keys@) =~= seq!["tag_sha"@]);
        assert(texts(missing@) =~= seq![
                "tag_sha not included in payload from front-end."@,
                ]);
    }
    read_fields(json, keys, missing)
}

/// The `sha` and whether `isCommitting` is `"true"`, of a request to cherry-pick or revert a commit.
pub fn commit_flag_request(json: &str) -> (r: Result<(String, bool), RequestError>)
    ensures
        ({
            let o = fields_outcome(json@, seq!["sha"@, "isCommitting"@], seq!["sha wasn't included in payload from the front-end."@, "isCommitting wasn't included in payload from the front-end."@]);
            &&& refused_like(r, o)
            &&& o matches FieldsOutcome::Found(v) ==> r matches Ok((f0, f1)) && f0@ == v[0] && f1 == (v[1] == "true"@)
        }),
{
    let keys = vec!["sha", "isCommitting"];
    let missing = vec!["sha wasn't included in payload from the front-end.", "isCommitting wasn't included in payload from the front-end."];
    proof {
        assert(texts(keys@) =~= seq!["sha"@, "isCommitting"@]);
        assert(texts(missing@) =~= seq!["sha wasn't included in payload from the front-end."@, "isCommitting wasn't included in payload from the front-end."@]);
    }
    let ghost kt = texts(keys@);
    let ghost mt = texts(missing@);
    proof {
        lemma_found_len(json@, kt, mt);
    }
    let v = match read_fields(json, keys, missing) {
        Ok(v) => v,
        Err(e) => return Err(e),
    };
    proof {
        assert(v@.len() == 2);
    }
    Ok((v[0].clone(), crate::git_manager::flag_is_true(v[1].as_str())))
}

/// The `branch_shorthand` and whether `delete_remote_branch` is `"true"`, of a request to delete a local branch.
pub fn delete_local_branch_request(json: &str) -> (r: Result<(String, bool), RequestError>)
    ensures
        ({
            let o = fields_outcome(json@, seq!["branch_shorthand"@, "delete_remote_branch"@], seq!["branch_shorthand not included in payload from front-end!"@, "delete_remote_branch not included in payload from front-end!"@]);
            &&& refused_like(r, o)
            &&& o matches FieldsOutcome::Found(v) ==> r matches Ok((f0, f1)) && f0@ == v[0] && f1 == (v[1] == "true"@)
        }),
{
    let keys = vec!["branch_shorthand", "delete_remote_branch"];
    let missing = vec!["branch_shorthand not included in payload from front-end!", "delete_remote_branch not included in payload from front-end!"];
    proof {
        assert(texts(keys@) =~= seq!["branch_shorthand"@, "delete_remote_branch"@]);
        assert(texts(missing@) =~= seq!["branch_shorthand not included in payload from front-end!"@, "delete_remote_branch not included in payload from front-end!"@]);
    }
    let ghost kt = texts(keys@);
    let ghost mt = texts(missing@);
    proof {
        lemma_found_len(json@, kt, mt);
    }
    let v = match read_fields(json, keys, missing) {
        Ok(v) => v,
        Err(e) => return Err(e),
    };
    proof {
        assert(v@.len() == 2);
    }
    Ok((v[0].clone(), crate::git_manager::flag_is_true(v[1].as_str())))
}

/// Whether `isForcePush` is `"true"` and the `selectedRemote`, of the options of a push.
pub fn push_request(json: &str) -> (r: Result<(bool, String), RequestError>)
    ensures
        ({
            let o = fields_outcome(json@, seq!["isForcePush"@, "selectedRemote"@], seq!["isForcePush not included in payload from front-end."@, "selectedRemote not included in payload from front-end."@]);
            &&& refused_like(r, o)
            &&& o matches FieldsOutcome::Found(v) ==> r matches Ok((f0, f1)) && f0 == (v[0] == "true"@) && f1@ == v[1]
        }),
{
    let keys = vec!["isForcePush", "selectedRemote"];
    let missing = vec!["isForcePush not included in payload from front-end.", "selectedRemote not included in payload from front-end."];
    proof {
        assert(texts(keys@) =~= seq!["isForcePush"@, "selectedRemote"@]);
        assert(texts(missing@) =~= seq!["isForcePush not included in payload from front-end."@, "selectedRemote not included in payload from front-end."@]);
    }
    let ghost kt = texts(keys@);
    let ghost mt = texts(missing@);
    proof {
        lemma_found_len(json@, kt, mt);
    }
    let v = match read_fields(json, keys, missing) {
        Ok(v) => v,
        Err(e) => return Err(e),
    };
    proof {
        assert(v@.len() == 2);
    }
    Ok((crate::git_manager::flag_is_true(v[0].as_str()), v[1].clone()))
}

/// The `tagFullName`, whether `isForcePush` is `"true"`, and the `selectedRemote`, of a request to push a tag.
pub fn push_tag_request(json: &str) -> (r: Result<(String, bool, String), RequestError>)
    ensures
        ({
            let o = fields_outcome(json@, seq!["tagFullName"@, "isForcePush"@, "selectedRemote"@], seq!["tagFullName not included in payload from front-end."@, "isForcePush not included in payload from front-end."@, "selectedRemote not included in payload from front-end."@]);
            &&& refused_like(r, o)
            &&& o matches FieldsOutcome::Found(v) ==> r matches Ok((f0, f1, f2)) && f0@ == v[0] && f1 == (v[1] == "true"@) && f2@ == v[2]
        }),
{
    let keys = vec!["tagFullName", "isForcePush", "selectedRemote"];
    let missing = vec!["tagFullName not included in payload from front-end.", "isForcePush not included in payload from front-end.", "selectedRemote not included in payload from front-end."];
    proof {
        assert(texts(keys@) =~= seq!["tagFullName"@, "isForcePush"@, "selectedRemote"@]);
        assert(texts(missing@) =~= seq!["tagFullName not included in payload from front-end."@, "isForcePush not included in payload from front-end."@, "selectedRemote not included in payload from front-end."@]);
    }
    let ghost kt = texts(keys@);
    let ghost mt = texts(missing@);
    proof {
        lemma_found_len(json@, kt, mt);
    }
    let v = match read_fields(json, keys, missing) {
        Ok(v) => v,
        Err(e) => return Err(e),
    };
    proof {
        assert(v@.len() == 3);
    }
    Ok((v[0].clone(), crate::git_manager::flag_is_true(v[1].as_str()), v[2].clone()))
}

/// The `index` (as its text) and whether `delete_stash` is `"true"`, of a request to apply a stash.
pub fn apply_stash_request(json: &str) -> (r: Result<(String, bool), RequestError>)
    ensures
        ({
            let o = fields_outcome(json@, seq!["index"@, "delete_stash"@], seq!["index not included in payload from front-end."@, "delete_stash not included in payload from front-end."@]);
            &&& refused_like(r, o)
            &&& o matches FieldsOutcome::Found(v) ==> r matches Ok((f0, f1)) && f0@ == v[0] && f1 == (v[1] == "true"@)
        }),
{
    let keys = vec!["index", "delete_stash"];
    let missing = vec!["index not included in payload from front-end.", "delete_stash not included in payload from front-end."];
    proof {
        assert(texts(keys@) =~= seq!["index"@, "delete_stash"@]);
        assert(texts(missing@) =~= seq!["index not included in payload from front-end."@, "delete_stash not included in payload from front-end."@]);
    }
    let ghost kt = texts(keys@);
    let ghost mt = texts(missing@);
    proof {
        lemma_found_len(json@, kt, mt);
    }
    let v = match read_fields(json, keys, missing) {
        Ok(v) => v,
        Err(e) => return Err(e),
    };
    proof {
        assert(v@.len() == 2);
    }
    Ok((v[0].clone(), crate::git_manager::flag_is_true(v[1].as_str())))
}

/// The `branch_name` and whether `checkout_on_create` is `"true"`, of a request to create a branch.
pub fn branch_request(json: &str) -> (r: Result<(String, bool), RequestError>)
    ensures
        ({
            let o = fields_outcome(json@, seq!["branch_name"@, "checkout_on_create"@], seq!["branch_name not included in payload from front-end."@, "checkout_on_create not included in payload from front-end."@]);
            &&& refused_like(r, o)
            &&& o matches FieldsOutcome::Found(v) ==> r matches Ok((f0, f1)) && f0@ == v[0] && f1 == (v[1] == "true"@)
        }),
{
    let keys = vec!["branch_name", "checkout_on_create"];
    let missing = vec!["branch_name not included in payload from front-end.", "checkout_on_create not included in payload from front-end."];
    proof {
        assert(texts(keys@) =~= seq!["branch_name"@, "checkout_on_create"@]);
        assert(texts(missing@) =~= seq!["branch_name not included in payload from front-end."@, "checkout_on_create not included in payload from front-end."@]);
    }
    let ghost kt = texts(keys@);
    let ghost mt = texts(missing@);
    proof {
        lemma_found_len(json@, kt, mt);
    }
    let v = match read_fields(json, keys, missing) {
        Ok(v) => v,
        Err(e) => return Err(e),
    };
    proof {
        assert(v@.len() == 2);
    }
    Ok((v[0].clone(), crate::git_manager::flag_is_true(v[1].as_str())))
}

/// The `tag_sha`, whether `is_lightweight` is `"true"`, the `name` and the `message`, of a request to create a tag.
pub fn tag_request(json: &str) -> (r: Result<(String, bool, String, String), RequestError>)
    ensures
        ({
            let o = fields_outcome(json@, seq!["tag_sha"@, "is_lightweight"@, "name"@, "message"@], seq!["tag_sha not included in payload from front-end."@, "is_lightweight not included in payload from front-end."@, "name not included in payload from front-end."@, "message not included in payload from front-end."@]);
            &&& refused_like(r, o)
            &&& o matches FieldsOutcome::Found(v) ==> r matches Ok((f0, f1, f2, f3)) && f0@ == v[0] && f1 == (v[1] == "true"@) && f2@ == v[2] && f3@ == v[3]
        }),
{
    let keys = vec!["tag_sha", "is_lightweight", "name", "message"];
    let missing = vec!["tag_sha not included in payload from front-end.", "is_lightweight not included in payload from front-end.", "name not included in payload from front-end.", "message not included in payload from front-end."];
    proof {
        assert(texts(keys@) =~= seq!["tag_sha"@, "is_lightweight"@, "name"@, "message"@]);
        assert(texts(missing@) =~= seq!["tag_sha not included in payload from front-end."@, "is_lightweight not included in payload from front-end."@, "name not included in payload from front-end."@, "message not included in payload from front-end."@]);
    }
    let ghost kt = texts(keys@);
    let ghost mt = texts(missing@);
    proof {
        lemma_found_len(json@, kt, mt);
    }
    let v = match read_fields(json, keys, missing) {
        Ok(v) => v,
        Err(e) => return Err(e),
    };
    proof {
        assert(v@.len() == 4);
    }
    Ok((v[0].clone(), crate::git_manager::flag_is_true(v[1].as_str()), v[2].clone(), v[3].clone()))
}


/// The file, the changes it is shown from and the commit, of a request for
/// a file's diff: `file_path`, `change_type` and `sha`, in that order;
/// then a `change_type` other than `"unstaged"`, `"staged"` or `"commit"`
/// is refused.
pub fn file_diff_request(json: &str) -> (r: Result<(String, DiffSource, String), RequestError>)
    ensures
        ({
            let o = fields_outcome(
                json@,
                seq!["file_path"@, "change_type"@, "sha"@],
                seq![
                    "file_path not returned from front-end payload."@,
                    "change_type not returned from front-end payload."@,
                    "sha not returned from front-end payload."@,
                ],
            );
            &&& refused_like(r, o)
            &&& o matches FieldsOutcome::Found(v) ==> match diff_source_of(v[1]) {
                Some(d) => r matches Ok((path, source, sha)) && path@ == v[0] && source == d && sha@ == v[2],
                None => r matches Err(e) && e matches RequestError::InvalidValue(m)
                    && m@ == "change_type not a valid type. Needs to be 'staged', 'unstaged', or 'commit'"@,
            }
        }),
{
    let keys = vec!["file_path", "change_type", "sha"];
    let missing = vec![
        "file_path not returned from front-end payload.",
        "change_type not returned from front-end payload.",
        "sha not returned from front-end payload.",
    ];
    proof {
        assert(texts(keys@) =~= seq!["file_path"@, "change_type"@, "sha"@]);
        assert(texts(missing@) =~= seq![
            "file_path not returned from front-end payload."@,
            "change_type not returned from front-end payload."@,
            "sha not returned from front-end payload."@,
        ]);
        lemma_found_len(json@, texts(keys@), texts(missing@));
    }
    let v = match read_fields(json, keys, missing) {
        Ok(v) => v,
        Err(e) => return Err(e),
    };
    assert(v@.len() == 3);
    match diff_source(v[1].as_str()) {
        Some(d) => Ok((v[0].clone(), d, v[2].clone())),
        None => Err(RequestError::InvalidValue(owned("change_type not a valid type. Needs to be 'staged', 'unstaged', or 'commit'"))),
    }
}

/// The commit and the kind of a request to reset: `sha` and `type`, in that
/// order; then a `type` other than `"soft"`, `"mixed"` or `"hard"` is
/// refused.
pub fn reset_request(json: &str) -> (r: Result<(String, ResetKind), RequestError>)
    ensures
        ({
            let o = fields_outcome(
                json@,
                seq!["sha"@, "type"@],
                seq![
                    "sha wasn't included in payload from the front-end."@,
                    "type wasn't included in payload from the front-end."@,
                ],
            );
            &&& refused_like(r, o)
            &&& o matches FieldsOutcome::Found(v) ==> match reset_kind_of(v[1]) {
                Some(k) => r matches Ok((sha, kind)) && sha@ == v[0] && kind == k,
                None => r matches Err(e) && e matches RequestError::InvalidValue(m)
                    && m@ == "type from front-end payload isn't a valid option. Choices are 'soft', 'mixed', or 'hard'"@,
            }
        }),
{
    let keys = vec!["sha", "type"];
    let missing = vec![
        "sha wasn't included in payload from the front-end.",
        "type wasn't included in payload from the front-end.",
    ];
    proof {
        assert(texts(keys@) =~= seq!["sha"@, "type"@]);
        assert(texts(missing@) =~= seq![
            "sha wasn't included in payload from the front-end."@,
            "type wasn't included in payload from the front-end."@,
        ]);
        lemma_found_len(json@, texts(keys@), texts(missing@));
    }
    let v = match read_fields(json, keys, missing) {
        Ok(v) => v,
        Err(e) => return Err(e),
    };
    assert(v@.len() == 2);
    match parse_reset_type(v[1].as_str()) {
        Some(k) => Ok((v[0].clone(), k)),
        None => Err(RequestError::InvalidValue(owned("type from front-end payload isn't a valid option. Choices are 'soft', 'mixed', or 'hard'"))),
    }
}

/// The options of a push: without options, not forced and no remote named;
/// with options, as `push_request` reads them.
pub fn push_options(options: Option<&str>) -> (r: Result<(bool, Option<String>), RequestError>)
    ensures
        match options {
            None => r matches Ok((force, remote)) && !force && remote is None,
            Some(json) => {
                let o = fields_outcome(
                    json@,
                    seq!["isForcePush"@, "selectedRemote"@],
                    seq![
                        "isForcePush not included in payload from front-end."@,
                        "selectedRemote not included in payload from front-end."@,
                    ],
                );
                &&& refused_like(r, o)
                &&& o matches FieldsOutcome::Found(v) ==> r matches Ok((force, remote)) && force == (v[0]
                    == "true"@) && (remote matches Some(n) && n@ == v[1])
            },
        },
{
    match options {
        None => Ok((false, None)),
        Some(json) => match push_request(json) {
            Ok((force, remote)) => Ok((force, Some(remote))),
            Err(e) => Err(e),
        },
    }
}

/// Which local branch a checkout of a remote branch switches to: the first
/// whose upstream is that remote branch; none when a new branch must be
/// made.
pub fn checkout_remote_choice(upstream_full_names: &Vec<Option<String>>, full_branch_name: &str) -> (r: Option<usize>)
    ensures
        match r {
            Some(i) => i < upstream_full_names@.len() && upstream_full_names.deep_view()[i as int] == Some(
                full_branch_name@,
            ) && forall|j: int| 0 <= j < i ==> upstream_full_names.deep_view()[j] != Some(full_branch_name@),
            None => forall|j: int|
                0 <= j < upstream_full_names@.len() ==> upstream_full_names.deep_view()[j] != Some(
                    full_branch_name@,
                ),
        },
{
    let ghost u = upstream_full_names.deep_view();
    let mut i: usize = 0;
    while i < upstream_full_names.len()
        invariant
            i <= upstream_full_names@.len(),
            u == upstream_full_names.deep_view(),
            forall|j: int| 0 <= j < i ==> u[j] != Some(full_branch_name@),
        decreases upstream_full_names@.len() - i,
    {
        match &upstream_full_names[i] {
            Some(n) => {
                if str_eq(n.as_str(), full_branch_name) {
                    assert(u[i as int] == Some(full_branch_name@));
                    return Some(i);
                }
                assert(u[i as int] == Some(n@));
            },
            None => {
                assert(u[i as int] is None);
            },
        }
        i = i + 1;
    }
    None
}


/// The position of the first pair keyed `key`.
pub open spec fn first_key(p: Seq<(Seq<char>, Seq<char>)>, key: Seq<char>, i: int) -> Option<int>
    decreases p.len() - i,
{
    if i < 0 || i >= p.len() {
        None
    } else if p[i].0 == key {
        Some(i)
    } else {
        first_key(p, key, i + 1)
    }
}

/// The `sha` of one commit operation of an interactive rebase (the first
/// pair keyed `sha`), refused when the operation has none.
pub fn commit_op_sha(op: &Vec<(String, String)>) -> (r: Result<String, RequestError>)
    ensures
        match first_key(op.deep_view(), "sha"@, 0) {
            Some(i) => r matches Ok(s) && s@ == op.deep_view()[i].1,
            None => r matches Err(e) && e matches RequestError::MissingField(m) && m@
                == "Payload from front-end is missing SHAs."@,
        },
{
    let ghost p = op.deep_view();
    let mut i: usize = 0;
    while i < op.len()
        invariant
            i <= op@.len(),
            p == op.deep_view(),
            first_key(p, "sha"@, 0) == first_key(p, "sha"@, i as int),
        decreases op@.len() - i,
    {
        assert(p[i as int] == (op@[i as int].0@, op@[i as int].1@));
        if str_eq(op[i].0.as_str(), "sha") {
            return Ok(op[i].1.clone());
        }
        i = i + 1;
    }
    Err(RequestError::MissingField(owned("Payload from front-end is missing SHAs.")))
}

} // verus!
