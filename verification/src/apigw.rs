use vstd::prelude::*;
use vstd::string::StringExecFns;

use crate::errors::Error;
use crate::errors::spec_error_message;
use crate::text::dec_digits;
use crate::text::u64_to_string;

verus! {

/// The distilled failures an HTTP-facing handler reports, one variant per
/// response class.
#[derive(Debug)]
pub enum SimpleError {
    /// A malformed or out-of-range input supplied by the caller.
    InvalidInput(String),
    /// A request body that does not match the expected schema.
    InvalidBody,
    /// The application reached a state it never should have.
    InvalidState(String),
    /// The named object does not exist.
    NotFound { object_type: String, id: String },
    /// The caller carries no valid credentials.
    Unauthorized,
    /// A failure on the server's side that the caller cannot mend.
    ServerError(String),
    /// A response with a caller-chosen status code and message.
    Custom { code: u16, message: String },
}

/// The words a [`SimpleError`] prints.
pub open spec fn spec_simple_error_message(e: SimpleError) -> Seq<char> {
    match e {
        SimpleError::InvalidInput(s) => "Invalid input: "@ + s@,
        SimpleError::InvalidBody => "Invalid body schema"@,
        SimpleError::InvalidState(s) => "Invalid application state: "@ + s@,
        SimpleError::NotFound { object_type, id } => object_type@ + " not found with ID: "@ + id@,
        SimpleError::Unauthorized => "Unauthorized"@,
        SimpleError::ServerError(s) => "Server error: "@ + s@,
        SimpleError::Custom { code, message } => "Custom error: "@ + dec_digits(code as nat) + " "@
            + message@,
    }
}

impl SimpleError {
    /// Print the error in words.
    pub fn message(&self) -> (r: String)
        ensures
            r@ == spec_simple_error_message(*self),
    {
        match self {
            SimpleError::InvalidInput(s) => {
                let mut m = "Invalid input: ".to_owned();
                m.append(s.as_str());
                m
            },
            SimpleError::InvalidBody => "Invalid body schema".to_owned(),
            SimpleError::InvalidState(s) => {
                let mut m = "Invalid application state: ".to_owned();
                m.append(s.as_str());
                m
            },
            SimpleError::NotFound { object_type, id } => {
                let mut m = object_type.as_str().to_owned();
                m.append(" not found with ID: ");
                m.append(id.as_str());
                m
            },
            SimpleError::Unauthorized => "Unauthorized".to_owned(),
            SimpleError::ServerError(s) => {
                let mut m = "Server error: ".to_owned();
                m.append(s.as_str());
                m
            },
            SimpleError::Custom { code, message } => {
                let mut m = "Custom error: ".to_owned();
                m.append(u64_to_string(*code as u64).as_str());
                m.append(" ");
                m.append(message.as_str());
                m
            },
        }
    }

    /// Classify a shed failure for the HTTP layer: a duplicated sheep is the
    /// caller's mistake, a missing sheep is a plain not-found, and a backend
    /// fault is a server error that hides its detail.
    pub fn from_shed_error(value: Error) -> (r: SimpleError)
        ensures
            match value {
                Error::SheepDuplicationError(_) => r matches SimpleError::InvalidInput(m) && m@
                    == spec_error_message(value),
                Error::SheepNotPresent(_) => r matches SimpleError::Custom { code, message }
                    && code == 404 && message@ == spec_error_message(value),
                Error::GenericError(_) => r matches SimpleError::ServerError(m) && m@
                    == "Please try again later"@,
            },
    {
        match &value {
            Error::SheepDuplicationError(_) => SimpleError::InvalidInput(value.message()),
            Error::SheepNotPresent(_) => SimpleError::Custom {
                code: 404,
                message: value.message(),
            },
            Error::GenericError(_) => SimpleError::ServerError("Please try again later".to_owned()),
        }
    }
}

/// The values a gateway's authorizer reports about the caller, as claims of
/// its token.
#[derive(Debug)]
pub struct CognitoValues {
    /// The caller's user id, the `sub` claim.
    pub user_id: String,
    /// The caller's email, if the `email` claim is present.
    pub email: Option<String>,
    /// The caller's username, if the `cognito:username` claim is present.
    pub username: Option<String>,
}

/// A request distilled to plain values: who calls, with which parameters,
/// and with what body.
#[derive(Debug)]
pub struct SimpleRequest {
    /// The caller's claims, if the request was authenticated.
    pub cognito_values: Option<CognitoValues>,
    /// Query parameters and path parameters, merged, path winning.
    pub parameters: Vec<(String, String)>,
    /// The raw body, empty when the request carries none.
    pub body: String,
}

/// A list of key-value pairs, read as text.
pub open spec fn kv_view(v: Seq<(String, String)>) -> Seq<(Seq<char>, Seq<char>)> {
    v.map_values(|p: (String, String)| (p.0@, p.1@))
}

/// The value of the last pair carrying key `k`, if any: what filling a map
/// from the pairs in order leaves under `k`.
pub open spec fn last_value(s: Seq<(Seq<char>, Seq<char>)>, k: Seq<char>) -> Option<Seq<char>>
    decreases s.len(),
{
    if s.len() == 0 {
        None
    } else if s.last().0 == k {
        Some(s.last().1)
    } else {
        last_value(s.drop_last(), k)
    }
}

/// No two pairs carry the same key.
pub open spec fn distinct_keys(s: Seq<(Seq<char>, Seq<char>)>) -> bool {
    forall|a: int, b: int| 0 <= a < b < s.len() ==> s[a].0 != s[b].0
}

/// With keys distinct, the pair at any position is the one `last_value`
/// finds for its key.
proof fn lemma_last_value_at(s: Seq<(Seq<char>, Seq<char>)>, j: int)
    requires
        distinct_keys(s),
        0 <= j < s.len(),
    ensures
        last_value(s, s[j].0) == Some(s[j].1),
    decreases s.len(),
{
    if j < s.len() - 1 {
        assert(s.drop_last()[j] == s[j]);
        lemma_last_value_at(s.drop_last(), j);
    }
}

/// A key no pair carries has no last value.
proof fn lemma_last_value_absent(s: Seq<(Seq<char>, Seq<char>)>, k: Seq<char>)
    requires
        forall|a: int| 0 <= a < s.len() ==> (#[trigger] s[a]).0 != k,
    ensures
        last_value(s, k) == None::<Seq<char>>,
    decreases s.len(),
{
    if s.len() > 0 {
        lemma_last_value_absent(s.drop_last(), k);
    }
}

/// Store `v` under `k`: replace the pair carrying `k`, or append one.
fn put_param(out: &mut Vec<(String, String)>, k: &String, v: &String)
    requires
        distinct_keys(kv_view(old(out)@)),
    ensures
        distinct_keys(kv_view(final(out)@)),
        forall|q: Seq<char>| #[trigger] last_value(kv_view(final(out)@), q) == if q == k@ {
            Some(v@)
        } else {
            last_value(kv_view(old(out)@), q)
        },
{
    let ghost old_kv = kv_view(out@);
    let mut j: usize = 0;
    while j < out.len()
        invariant
            j <= out@.len(),
            forall|a: int| 0 <= a < j ==> (#[trigger] kv_view(out@)[a]).0 != k@,
            out@ == old(out)@,
            distinct_keys(kv_view(out@)),
        decreases out@.len() - j,
    {
        let hit = out[j].0 == *k;
        if hit {
            let ghost prev = out@;
            out[j] = (k.clone(), v.clone());
            proof {
                let old_kv = kv_view(prev);
                let new_kv = kv_view(out@);
                assert(prev == old(out)@);
                assert(new_kv =~= old_kv.update(j as int, (k@, v@)));
                assert forall|a: int, b: int|
                    0 <= a < b < new_kv.len() implies new_kv[a].0 != new_kv[b].0 by {
                    assert(old_kv[j as int].0 == k@);
                    assert(new_kv[a].0 == old_kv[a].0 && new_kv[b].0 == old_kv[b].0);
                }
                assert forall|q: Seq<char>| #[trigger] last_value(new_kv, q) == if q == k@ {
                    Some(v@)
                } else {
                    last_value(old_kv, q)
                } by {
                    if q == k@ {
                        lemma_last_value_at(new_kv, j as int);
                    } else {
                        lemma_last_value_shift(old_kv, new_kv, q);
                    }
                }
            }
            return ;
        }
        j = j + 1;
    }
    out.push((k.clone(), v.clone()));
    proof {
        let new_kv = kv_view(out@);
        assert(new_kv =~= old_kv.push((k@, v@)));
        assert forall|a: int, b: int|
            0 <= a < b < new_kv.len() implies new_kv[a].0 != new_kv[b].0 by {
            if b < old_kv.len() {
                assert(new_kv[a] == old_kv[a] && new_kv[b] == old_kv[b]);
            } else {
                assert(new_kv[b] == (k@, v@));
                assert(new_kv[a] == old_kv[a]);
                assert(kv_view(old(out)@)[a].0 != k@);
            }
        }
        assert forall|q: Seq<char>| #[trigger] last_value(new_kv, q) == if q == k@ {
            Some(v@)
        } else {
            last_value(old_kv, q)
        } by {
            assert(new_kv.drop_last() =~= old_kv);
        }
    }
}

/// Two pair lists that differ only in pairs carrying other keys give `q` the
/// same last value.
proof fn lemma_last_value_shift(
    x: Seq<(Seq<char>, Seq<char>)>,
    y: Seq<(Seq<char>, Seq<char>)>,
    q: Seq<char>,
)
    requires
        x.len() == y.len(),
        forall|a: int| 0 <= a < x.len() ==> (#[trigger] x[a] == y[a] || (x[a].0 != q && y[a].0
            != q)),
    ensures
        last_value(x, q) == last_value(y, q),
    decreases x.len(),
{
    if x.len() > 0 {
        assert(x[x.len() - 1] == y[x.len() - 1] || (x[x.len() - 1].0 != q && y[x.len() - 1].0
            != q));
        assert forall|a: int|
            0 <= a < x.drop_last().len() implies (#[trigger] x.drop_last()[a] == y.drop_last()[a]
            || (x.drop_last()[a].0 != q && y.drop_last()[a].0 != q)) by {
            assert(x.drop_last()[a] == x[a] && y.drop_last()[a] == y[a]);
        }
        lemma_last_value_shift(x.drop_last(), y.drop_last(), q);
    }
}

/// Merge query parameters and path parameters into one parameter map, the
/// path parameters overriding the query ones: each key ends up with the
/// value of its last occurrence across the two lists, query first.
pub fn extract_parameters(
    query: &Vec<(String, String)>,
    path: &Vec<(String, String)>,
) -> (r: Vec<(String, String)>)
    ensures
        distinct_keys(kv_view(r@)),
        forall|q: Seq<char>| #[trigger] last_value(kv_view(r@), q) == last_value(
            kv_view(query@) + kv_view(path@),
            q,
        ),
{
    let ghost whole = kv_view(query@) + kv_view(path@);
    let mut out: Vec<(String, String)> = Vec::new();
    let mut i: usize = 0;
    proof {
        assert(kv_view(out@) =~= Seq::<(Seq<char>, Seq<char>)>::empty());
    }
    while i < query.len()
        invariant
            i <= query@.len(),
            distinct_keys(kv_view(out@)),
            forall|q: Seq<char>| #[trigger] last_value(kv_view(out@), q) == last_value(
                kv_view(query@).take(i as int),
                q,
            ),
        decreases query@.len() - i,
    {
        let ghost before = kv_view(query@).take(i as int);
        let pair = &query[i];
        put_param(&mut out, &pair.0, &pair.1);
        proof {
            let after = kv_view(query@).take(i + 1);
            assert(after.drop_last() =~= before);
            assert(after.last() == (query@[i as int].0@, query@[i as int].1@));
        }
        i = i + 1;
    }
    let mut j: usize = 0;
    proof {
        assert(kv_view(query@).take(query@.len() as int) =~= kv_view(query@));
        assert(whole.take(kv_view(query@).len() as int) =~= kv_view(query@));
    }
    while j < path.len()
        invariant
            j <= path@.len(),
            whole == kv_view(query@) + kv_view(path@),
            distinct_keys(kv_view(out@)),
            forall|q: Seq<char>| #[trigger] last_value(kv_view(out@), q) == last_value(
                whole.take(kv_view(query@).len() + j),
                q,
            ),
        decreases path@.len() - j,
    {
        let ghost before = whole.take(kv_view(query@).len() + j);
        let pair = &path[j];
        put_param(&mut out, &pair.0, &pair.1);
        proof {
            let after = whole.take(kv_view(query@).len() + j + 1);
            assert(after.drop_last() =~= before);
            assert(after.last() == (path@[j as int].0@, path@[j as int].1@));
        }
        j = j + 1;
    }
    proof {
        assert(whole.take(whole.len() as int) =~= whole);
    }
    out
}

/// The request's body as text: empty when the request carries none.
pub fn extract_body(body: &Option<String>) -> (r: &str)
    ensures
        match body {
            Some(s) => r@ == s@,
            None => r@ == Seq::<char>::empty(),
        },
{
    match body {
        Some(s) => s.as_str(),
        None => {
            let e = "";
            proof {
                reveal_strlit("");
                assert(e@ =~= Seq::<char>::empty());
            }
            e
        },
    }
}

/// What a handler hands back to the transport layer: a status code, and the
/// text of a message for the body, if any.
#[derive(Debug)]
pub struct SimpleResponse {
    pub code: u16,
    pub message: Option<String>,
}

impl SimpleResponse {
    /// The response that reports a [`SimpleError`]: its response class as the
    /// status code, and its words as the message.
    pub fn from_simple_error(value: SimpleError) -> (r: SimpleResponse)
        ensures
            r.code == (match value {
                SimpleError::InvalidInput(_) => 400u16,
                SimpleError::InvalidBody => 400u16,
                SimpleError::NotFound { .. } => 404u16,
                SimpleError::Unauthorized => 401u16,
                SimpleError::ServerError(_) => 500u16,
                SimpleError::InvalidState(_) => 500u16,
                SimpleError::Custom { code, .. } => code,
            }),
            r.message matches Some(m) && m@ == (match value {
                SimpleError::Custom { message, .. } => message@,
                _ => spec_simple_error_message(value),
            }),
    {
        match value {
            SimpleError::InvalidInput(_) | SimpleError::InvalidBody => SimpleResponse {
                code: 400,
                message: Some(value.message()),
            },
            SimpleError::NotFound { .. } => SimpleResponse {
                code: 404,
                message: Some(value.message()),
            },
            SimpleError::Unauthorized => SimpleResponse { code: 401, message: Some(value.message()) },
            SimpleError::ServerError(_) | SimpleError::InvalidState(_) => SimpleResponse {
                code: 500,
                message: Some(value.message()),
            },
            SimpleError::Custom { code, message } => SimpleResponse {
                code,
                message: Some(message),
            },
        }
    }
}

} // verus!
