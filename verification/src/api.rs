//! The remote service client's data model: the request wrapper, the tagged
//! success/error response envelope and its resolution, and the payload types
//! of the calls the tool makes. The HTTP transport itself lives outside; this
//! module decides what a response means.

use vstd::prelude::*;

use crate::text::str_eq;

verus! {

/// Errors of the remote service client.
#[derive(Debug, Clone)]
pub enum ApiError {
    /// The fixed local endpoint could not be reached at all: the target
    /// application is not running or its automation add-on is missing.
    ConnectionFailed,
    /// Any other transport failure, with its description.
    Transport(String),
    /// The response envelope held neither a result nor an error.
    MissingResult,
    /// The service answered with an explicit error message.
    Remote(String),
    /// The envelope held both a result and an error: ambiguous, fatal for
    /// that call.
    ResultAndError(String),
    /// The response body could not be decoded as expected.
    Decode(String),
}

/// Mathematical model of an `ApiError`.
pub enum ApiErrorV {
    ConnectionFailed,
    Transport(Seq<char>),
    MissingResult,
    Remote(Seq<char>),
    ResultAndError(Seq<char>),
    Decode(Seq<char>),
}

impl View for ApiError {
    type V = ApiErrorV;

    open spec fn view(&self) -> ApiErrorV {
        match self {
            ApiError::ConnectionFailed => ApiErrorV::ConnectionFailed,
            ApiError::Transport(d) => ApiErrorV::Transport(d@),
            ApiError::MissingResult => ApiErrorV::MissingResult,
            ApiError::Remote(m) => ApiErrorV::Remote(m@),
            ApiError::ResultAndError(m) => ApiErrorV::ResultAndError(m@),
            ApiError::Decode(m) => ApiErrorV::Decode(m@),
        }
    }
}

impl ApiError {
    /// Actionable guidance exists exactly for a failed connection: the target
    /// application must be running and its automation add-on installed.
    pub fn hint(&self) -> (r: Option<String>)
        ensures
            (r is Some) == (self is ConnectionFailed),
            r matches Some(h) ==> h@
                == "is anki open? you also need to install anki-connect: https://ankiweb.net/shared/info/2055492159"@,
    {
        match self {
            ApiError::ConnectionFailed => Some(
                "is anki open? you also need to install anki-connect: https://ankiweb.net/shared/info/2055492159".to_owned(),
            ),
            _ => None,
        }
    }
}

/// Builds the error for a failed transport, keeping an unreachable endpoint
/// distinct from any other network failure.
pub fn connection_error(connection_failed: bool, detail: String) -> (r: ApiError)
    ensures
        connection_failed == (r is ConnectionFailed),
        !connection_failed ==> (r matches ApiError::Transport(d) && d@ == detail@),
{
    if connection_failed {
        ApiError::ConnectionFailed
    } else {
        ApiError::Transport(detail)
    }
}

/// One request to the automation service: an action name, its parameters,
/// and the fixed protocol version.
#[derive(Debug)]
pub struct Request<T> {
    pub action: String,
    pub params: T,
    pub version: i32,
}

impl<T> Request<T> {
    /// Every request carries protocol version 6.
    pub fn new(action: String, params: T) -> (r: Request<T>)
        ensures
            r.action@ == action@,
            r.params == params,
            r.version == 6,
    {
        Request { action, params, version: 6 }
    }
}

/// The service's explicit `{result, error}` envelope.
#[derive(Debug)]
pub struct ReqResultStruct<T> {
    pub result: Option<T>,
    pub error: Option<String>,
}

/// What an envelope means: a result alone succeeds; an error alone is the
/// service's error; neither, or both, is an invalid response.
pub open spec fn envelope_verdict<T>(result: Option<T>, error: Option<Seq<char>>) -> Result<
    T,
    ApiErrorV,
> {
    match (result, error) {
        (None, None) => Err(ApiErrorV::MissingResult),
        (None, Some(e)) => Err(ApiErrorV::Remote(e)),
        (Some(v), None) => Ok(v),
        (Some(_), Some(e)) => Err(ApiErrorV::ResultAndError(e)),
    }
}

impl<T> ReqResultStruct<T> {
    /// Resolves the envelope, exactly as `envelope_verdict` says.
    pub fn get(self) -> (r: Result<T, ApiError>)
        ensures
            match r {
                Ok(v) => envelope_verdict(self.result, self.error.deep_view()) == Ok::<
                    T,
                    ApiErrorV,
                >(v),
                Err(e) => envelope_verdict(self.result, self.error.deep_view()) == Err::<
                    T,
                    ApiErrorV,
                >(e@),
            },
    {
        match (self.result, self.error) {
            (None, None) => Err(ApiError::MissingResult),
            (None, Some(e)) => Err(ApiError::Remote(e)),
            (Some(v), None) => Ok(v),
            (Some(_), Some(e)) => Err(ApiError::ResultAndError(e)),
        }
    }
}

/// A response is either a bare payload or an explicit envelope.
#[derive(Debug)]
pub enum ReqResult<T> {
    Raw(T),
    Struct(ReqResultStruct<T>),
}

/// What a response means, resolved once at the deserialization boundary.
pub open spec fn response_verdict<T>(r: ReqResult<T>) -> Result<T, ApiErrorV> {
    match r {
        ReqResult::Raw(t) => Ok(t),
        ReqResult::Struct(s) => envelope_verdict(s.result, s.error.deep_view()),
    }
}

impl<T> ReqResult<T> {
    /// Resolves the response, exactly as `response_verdict` says.
    pub fn get(self) -> (r: Result<T, ApiError>)
        ensures
            match r {
                Ok(v) => response_verdict(self) == Ok::<T, ApiErrorV>(v),
                Err(e) => response_verdict(self) == Err::<T, ApiErrorV>(e@),
            },
    {
        match self {
            ReqResult::Raw(t) => Ok(t),
            ReqResult::Struct(s) => s.get(),
        }
    }
}

/// Unwraps each sub-result of a batched call independently, preserving input
/// order: a failure in one sub-call fails that element only.
pub fn unwrap_multi<T>(rs: Vec<ReqResult<T>>) -> (out: Vec<Result<T, ApiError>>)
    ensures
        out@.len() == rs@.len(),
        forall|i: int|
            0 <= i < rs@.len() ==> match #[trigger] out@[i] {
                Ok(v) => response_verdict(rs@[i]) == Ok::<T, ApiErrorV>(v),
                Err(e) => response_verdict(rs@[i]) == Err::<T, ApiErrorV>(e@),
            },
{
    let ghost orig = rs@;
    let mut rs = rs;
    let mut out: Vec<Result<T, ApiError>> = Vec::new();
    while rs.len() > 0
        invariant
            out@.len() + rs@.len() == orig.len(),
            rs@ =~= orig.skip(out@.len() as int),
            forall|i: int|
                0 <= i < out@.len() ==> match #[trigger] out@[i] {
                    Ok(v) => response_verdict(orig[i]) == Ok::<T, ApiErrorV>(v),
                    Err(e) => response_verdict(orig[i]) == Err::<T, ApiErrorV>(e@),
                },
        decreases rs@.len(),
    {
        let ghost k = out@.len() as int;
        let x = rs.remove(0);
        proof {
            assert(x == orig[k]);
            assert(rs@ =~= orig.skip(k + 1));
        }
        out.push(x.get());
    }
    out
}

/// Collects a batch of unwrapped sub-results, failing on the first error:
/// for callers that treat one failure as failing the whole batch.
#[verifier::loop_isolation(false)]
pub fn collect_multi<T>(rs: Vec<Result<T, ApiError>>) -> (out: Result<Vec<T>, ApiError>)
    ensures
        (out is Ok) == (forall|i: int| 0 <= i < rs@.len() ==> (#[trigger] rs@[i]) is Ok),
        out matches Ok(v) ==> v@.len() == rs@.len() && forall|i: int|
            0 <= i < rs@.len() ==> ((#[trigger] rs@[i]) matches Ok(x) && v@[i] == x),
        out matches Err(e) ==> exists|i: int|
            0 <= i < rs@.len() && ((#[trigger] rs@[i]) matches Err(e0) && e0 == e) && forall|k: int|
                0 <= k < i ==> (#[trigger] rs@[k]) is Ok,
{
    let ghost orig = rs@;
    let mut rs = rs;
    let mut out: Vec<T> = Vec::new();
    while rs.len() > 0
        invariant
            out@.len() + rs@.len() == orig.len(),
            rs@ =~= orig.skip(out@.len() as int),
            forall|i: int| 0 <= i < out@.len() ==> ((#[trigger] orig[i]) matches Ok(x) && out@[i] == x),
        decreases rs@.len(),
    {
        let ghost k = out@.len() as int;
        let x = rs.remove(0);
        proof {
            assert(x == orig[k]);
            assert(rs@ =~= orig.skip(k + 1));
        }
        match x {
            Ok(v) => out.push(v),
            Err(e) => {
                proof {
                    assert(orig[k] is Err);
                    assert forall|t: int| 0 <= t < k implies (#[trigger] orig[t]) is Ok by {}
                    assert(exists|i: int|
                        0 <= i < orig.len() && ((#[trigger] orig[i]) matches Err(e0) && e0 == e)
                            && forall|t: int| 0 <= t < i ==> (#[trigger] orig[t]) is Ok);
                }
                return Err(e);
            },
        }
    }
    Ok(out)
}

/// The suffix by which the service reports that a single added note was a
/// duplicate.
pub open spec fn is_duplicate_msg(s: Seq<char>) -> bool {
    s.len() >= "cannot create note because it is a duplicate"@.len() && s.subrange(
        s.len() - "cannot create note because it is a duplicate"@.len(),
        s.len() as int,
    ) == "cannot create note because it is a duplicate"@
}

/// Whether a remote error message reports a duplicate note.
pub fn is_duplicate_error(msg: &str) -> (r: bool)
    ensures
        r == is_duplicate_msg(msg@),
{
    let pat = "cannot create note because it is a duplicate";
    let m = pat.unicode_len();
    let n = msg.unicode_len();
    if n < m {
        return false;
    }
    let tail = msg.substring_char(n - m, n);
    str_eq(tail, pat)
}

/// Resolves a single-note add: a remote error reporting a duplicate means
/// the note simply was not created, anything else stays an error.
pub fn add_note_verdict(res: Result<Option<usize>, ApiError>) -> (r: Result<Option<usize>, ApiError>)
    ensures
        ({
            let dup = res matches Err(ApiError::Remote(m)) && is_duplicate_msg(m@);
            &&& (dup ==> r == Ok::<Option<usize>, ApiError>(None::<usize>))
            &&& (!dup ==> r == res)
        }),
{
    match res {
        Err(ApiError::Remote(m)) => {
            if is_duplicate_error(m.as_str()) {
                Ok(None)
            } else {
                Err(ApiError::Remote(m))
            }
        },
        other => other,
    }
}

/// Deck names as listed by the service.
#[derive(Debug)]
pub struct DeckNames(pub Vec<String>);

/// Model names as listed by the service.
#[derive(Debug)]
pub struct ModelNames(pub Vec<String>);

/// Field names of one model, in schema order.
#[derive(Debug)]
pub struct ModelFieldNames(pub Vec<String>);

/// One value or several: some payloads accept either shape.
#[derive(Debug)]
pub enum SingleOrMulti<T> {
    Multi(Vec<T>),
    Single(T),
}

impl<T> SingleOrMulti<T> {
    /// Flattens either shape into a vector.
    pub fn into_vec(self) -> (r: Vec<T>)
        ensures
            self matches SingleOrMulti::Multi(v) ==> r == v,
            self matches SingleOrMulti::Single(x) ==> r@.len() == 1 && r@[0] == x,
    {
        match self {
            SingleOrMulti::Multi(v) => v,
            SingleOrMulti::Single(v) => {
                let mut out: Vec<T> = Vec::new();
                out.push(v);
                out
            },
        }
    }
}

impl<T> Default for SingleOrMulti<T> {
    /// The default is an empty multi payload.
    fn default() -> (r: Self)
        ensures
            r matches SingleOrMulti::Multi(v) && v@.len() == 0,
    {
        SingleOrMulti::Multi(Vec::new())
    }
}

/// A media file to store: its requested name and its data, given directly,
/// as a path, or as a URL.
#[derive(Debug)]
pub struct MediaData {
    /// The requested file name; the service may assign another.
    pub filename: String,
    pub inner: MediaDataInner,
    /// Whether a pre-existing file of the same name is replaced.
    pub delete_existing: bool,
}

#[derive(Debug)]
pub enum MediaDataInner {
    /// Base64-encoded file contents.
    Data(String),
    Path(String),
    Url(String),
}

impl MediaData {
    /// Unless said otherwise, storing a media file replaces an existing one.
    pub fn default_delete_existing() -> (r: bool)
        ensures
            r == true,
    {
        true
    }
}

/// A note as submitted to the service.
#[derive(Debug)]
pub struct Note {
    pub deck_name: String,
    pub model_name: String,
    /// Field name / resolved text pairs, in authoring order.
    pub fields: Vec<(String, String)>,
    pub tags: Vec<String>,
    pub audio: SingleOrMulti<MediaData>,
    pub video: SingleOrMulti<MediaData>,
    pub picture: SingleOrMulti<MediaData>,
}

/// One field of a stored note as reported back by the service.
#[derive(Debug, Clone)]
pub struct NoteInfoField {
    pub value: String,
    pub order: usize,
}

/// A stored note as reported by the service.
#[derive(Debug)]
pub struct NoteInfo {
    pub note_id: usize,
    pub model_name: String,
    pub fields: Vec<(String, NoteInfoField)>,
    pub tags: Vec<String>,
    pub cards: Vec<usize>,
}

/// A stored card as reported by the service.
#[derive(Debug)]
pub struct CardInfo {
    pub answer: String,
    pub question: String,
    pub deck_name: String,
    pub model_name: String,
    pub field_order: i32,
    pub fields: Vec<(String, NoteInfoField)>,
    pub css: String,
    pub card_id: usize,
    pub interval: i32,
    pub note: usize,
    pub ord: i32,
    pub kind: i32,
    pub queue: i32,
    pub due: i32,
    pub reps: i32,
    pub lapses: i32,
    pub left: i32,
    pub modified: i32,
}

} // verus!
