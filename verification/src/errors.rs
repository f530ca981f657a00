//! Errors of the HTTP interface.

use vstd::prelude::*;

use crate::text;
use crate::text::{chars_of, find, string_from, trim_bounds};

verus! {

/// Marks an error text that reports an unavailable upstream.
pub const UPSTREAM_ERR_MARKER: &'static str = "e621-upstream-unavailable: ";

/// The body of an error response.
#[derive(Debug)]
pub struct ApiErrorBody {
    pub error: String,
    pub code: u16,
}

#[derive(Debug)]
pub enum ApiError {
    BadRequest(String),
    Unauthorized(String),
    NotFound(String),
    Forbidden(String),
    TooManyRequests(String),
    Upstream(String),
    Internal(String),
}

/// How a database call failed.
#[derive(Debug)]
pub enum DbFailure {
    /// The query was to return a row and returned none.
    NoRows,
    /// Any other failure, with its text.
    Other(String),
}

/// `e` is what the error text `s` maps to: an upstream error with the trimmed
/// rest behind the first marker, or an internal error with the whole text.
pub open spec fn maps_to(s: Seq<char>, e: ApiError) -> bool {
    let marker = UPSTREAM_ERR_MARKER@;
    if exists|i: int| text::is_first_occurrence(s, marker, i) {
        let i = choose|i: int| text::is_first_occurrence(s, marker, i);
        e matches ApiError::Upstream(m) && m@ == text::trimmed(s.skip(i + marker.len()))
    } else {
        e matches ApiError::Internal(m) && m@ == s
    }
}

impl ApiError {
    pub open spec fn code(&self) -> u16 {
        match self {
            ApiError::BadRequest(_) => 400,
            ApiError::Unauthorized(_) => 401,
            ApiError::NotFound(_) => 404,
            ApiError::Forbidden(_) => 403,
            ApiError::TooManyRequests(_) => 429,
            ApiError::Upstream(_) => 503,
            ApiError::Internal(_) => 500,
        }
    }

    pub open spec fn text(&self) -> Seq<char> {
        match self {
            ApiError::BadRequest(m) => m@,
            ApiError::Unauthorized(m) => m@,
            ApiError::NotFound(m) => m@,
            ApiError::Forbidden(m) => m@,
            ApiError::TooManyRequests(m) => m@,
            ApiError::Upstream(m) => m@,
            ApiError::Internal(m) => m@,
        }
    }

    /// The HTTP status code.
    pub fn status(&self) -> (r: u16)
        ensures
            r == self.code(),
    {
        match self {
            ApiError::BadRequest(_) => 400,
            ApiError::Unauthorized(_) => 401,
            ApiError::NotFound(_) => 404,
            ApiError::Forbidden(_) => 403,
            ApiError::TooManyRequests(_) => 429,
            ApiError::Upstream(_) => 503,
            ApiError::Internal(_) => 500,
        }
    }

    /// The message of the error.
    pub fn message(&self) -> (r: &str)
        ensures
            r@ == self.text(),
    {
        match self {
            ApiError::BadRequest(m) => m.as_str(),
            ApiError::Unauthorized(m) => m.as_str(),
            ApiError::NotFound(m) => m.as_str(),
            ApiError::Forbidden(m) => m.as_str(),
            ApiError::TooManyRequests(m) => m.as_str(),
            ApiError::Upstream(m) => m.as_str(),
            ApiError::Internal(m) => m.as_str(),
        }
    }

    /// The error of an error text.
    pub fn from_string(s: String) -> (r: ApiError)
        ensures
            maps_to(s@, r),
    {
        let v = chars_of(s.as_str());
        let marker = chars_of(UPSTREAM_ERR_MARKER);
        match find(&v, &marker) {
            Some(i) => {
                proof {
                    assert(text::occurs_at(v@, marker@, i as int));
                    assert(v.len() == v@.len() && marker.len() == marker@.len());
                }
                let from: usize = i + marker.len();
                let (lo, hi) = trim_bounds(&v, from, v.len());
                proof {
                    assert(text::is_first_occurrence(s@, UPSTREAM_ERR_MARKER@, i as int));
                    let j = choose|j: int| text::is_first_occurrence(s@, UPSTREAM_ERR_MARKER@, j);
                    assert(j == i) by {
                        if j < i {
                            assert(!text::occurs_at(s@, UPSTREAM_ERR_MARKER@, j));
                        }
                        if i < j {
                            assert(!text::occurs_at(s@, UPSTREAM_ERR_MARKER@, i as int));
                        }
                    }
                    assert(v@.subrange(from as int, v@.len() as int) =~= s@.skip(from as int));
                }
                ApiError::Upstream(string_from(&v, lo, hi))
            },
            None => {
                proof {
                    assert forall|i: int| !text::is_first_occurrence(
                        s@,
                        UPSTREAM_ERR_MARKER@,
                        i,
                    ) by {
                        assert(!text::occurs_at(s@, UPSTREAM_ERR_MARKER@, i));
                    }
                }
                ApiError::Internal(s)
            },
        }
    }

    /// The error of a failed database call.
    pub fn from_db(f: DbFailure) -> (r: ApiError)
        ensures
            is_db_error(r, f),
    {
        match f {
            DbFailure::NoRows => ApiError::NotFound(String::from_str("No matching row found")),
            DbFailure::Other(t) => {
                let mut m = String::from_str("Database error: ");
                m.append(t.as_str());
                ApiError::Internal(m)
            },
        }
    }

    /// The body of the error response.
    pub fn body(&self) -> (r: ApiErrorBody)
        ensures
            r.error@ == self.text(),
            r.code == self.code(),
    {
        ApiErrorBody { error: String::from_str(self.message()), code: self.status() }
    }
}

impl From<String> for ApiError {
    fn from(s: String) -> (r: Self)
        ensures
            maps_to(s@, r),
    {
        ApiError::from_string(s)
    }
}

impl vstd::std_specs::convert::FromSpecImpl<String> for ApiError {
    open spec fn obeys_from_spec() -> bool {
        false
    }

    open spec fn from_spec(s: String) -> Self {
        arbitrary()
    }
}

impl<'a> From<&'a str> for ApiError {
    fn from(s: &'a str) -> (r: Self)
        ensures
            maps_to(s@, r),
    {
        ApiError::from_string(String::from_str(s))
    }
}

impl<'a> vstd::std_specs::convert::FromSpecImpl<&'a str> for ApiError {
    open spec fn obeys_from_spec() -> bool {
        false
    }

    open spec fn from_spec(s: &'a str) -> Self {
        arbitrary()
    }
}

/// A database error, as `rusqlite` reports it.
#[verifier::external_type_specification]
#[verifier::external_body]
pub struct ExRusqliteError(rusqlite::Error);

/// The error is `rusqlite::Error::QueryReturnedNoRows`.
pub uninterp spec fn no_rows(e: rusqlite::Error) -> bool;

/// The text that `rusqlite::Error` displays.
pub uninterp spec fn shown_text(e: rusqlite::Error) -> Seq<char>;

/// Tells `rusqlite::Error::QueryReturnedNoRows` from the other errors, and gives
/// the text that `rusqlite::Error` displays for those.
#[verifier::external_body]
fn failure_of(e: rusqlite::Error) -> (r: DbFailure)
    ensures
        match r {
            DbFailure::NoRows => no_rows(e),
            DbFailure::Other(t) => !no_rows(e) && t@ == shown_text(e),
        },
{
    match e {
        rusqlite::Error::QueryReturnedNoRows => DbFailure::NoRows,
        other => DbFailure::Other(format!("{other}")),
    }
}

/// `e` is what a database failure maps to.
pub open spec fn is_db_error(e: ApiError, f: DbFailure) -> bool {
    match f {
        DbFailure::NoRows => e matches ApiError::NotFound(m) && m@ == "No matching row found"@,
        DbFailure::Other(t) => e matches ApiError::Internal(m) && m@ == "Database error: "@ + t@,
    }
}

impl From<rusqlite::Error> for ApiError {
    fn from(e: rusqlite::Error) -> (r: Self)
        ensures
            no_rows(e) ==> (r matches ApiError::NotFound(m) && m@ == "No matching row found"@),
            !no_rows(e) ==> (r matches ApiError::Internal(m) && m@ == "Database error: "@
                + shown_text(e)),
    {
        ApiError::from_db(failure_of(e))
    }
}

impl vstd::std_specs::convert::FromSpecImpl<rusqlite::Error> for ApiError {
    open spec fn obeys_from_spec() -> bool {
        false
    }

    open spec fn from_spec(e: rusqlite::Error) -> Self {
        arbitrary()
    }
}

/// An upstream error is told apart from an internal one by its status.
pub proof fn law_status_tells_upstream(s: Seq<char>, e: ApiError)
    requires
        maps_to(s, e),
    ensures
        e.code() == 503 || e.code() == 500,
        e.code() == 503 <==> exists|i: int|
            text::is_first_occurrence(s, UPSTREAM_ERR_MARKER@, i),
{
}

/// Every kind of error has a status of its own.
pub proof fn law_status_of_each_kind(e: ApiError)
    ensures
        e is BadRequest <==> e.code() == 400,
        e is Unauthorized <==> e.code() == 401,
        e is Forbidden <==> e.code() == 403,
        e is NotFound <==> e.code() == 404,
        e is TooManyRequests <==> e.code() == 429,
        e is Internal <==> e.code() == 500,
        e is Upstream <==> e.code() == 503,
{
}

/// An error text with the marker is an upstream error whose message is what stands
/// behind the first marker, without the space around it; one without the marker is
/// an internal error with its whole text.
pub proof fn law_message_of_an_error_text(s: Seq<char>, e: ApiError, i: int)
    requires
        maps_to(s, e),
    ensures
        text::is_first_occurrence(s, UPSTREAM_ERR_MARKER@, i) ==> e is Upstream && e.text()
            == text::trimmed(s.skip(i + UPSTREAM_ERR_MARKER@.len())),
        (forall|j: int| !text::occurs_at(s, UPSTREAM_ERR_MARKER@, j)) ==> e is Internal && e.text()
            == s,
{
    let marker = UPSTREAM_ERR_MARKER@;
    if text::is_first_occurrence(s, marker, i) {
        let k = choose|k: int| text::is_first_occurrence(s, marker, k);
        assert(text::is_first_occurrence(s, marker, k));
        if k < i {
            assert(!text::occurs_at(s, marker, k));
        }
        if i < k {
            assert(!text::occurs_at(s, marker, i));
        }
    }
    if forall|j: int| !text::occurs_at(s, marker, j) {
        if exists|k: int| text::is_first_occurrence(s, marker, k) {
            let k = choose|k: int| text::is_first_occurrence(s, marker, k);
            assert(text::occurs_at(s, marker, k));
        }
    }
}

/// A missing row is answered as not found, any other failure as internal.
pub proof fn law_database_errors(e: ApiError, f: DbFailure)
    requires
        is_db_error(e, f),
    ensures
        e.code() == 404 <==> f is NoRows,
        e.code() == 500 <==> f is Other,
        f is Other ==> e.text() == "Database error: "@ + f->Other_0@,
        f is NoRows ==> e.text() == "No matching row found"@,
{
}

} // verus!
