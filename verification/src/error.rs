//! The canonical Twirp error taxonomy and its fixed HTTP status mapping.

use vstd::prelude::*;

verus! {

/// A Twirp error code: a closed enumeration of the canonical error
/// categories of the protocol.
#[derive(Clone, Copy, Debug, PartialEq, Eq, Structural)]
pub enum TwirpErrorCode {
    /// The operation was cancelled.
    Canceled,
    /// An unknown error occurred.
    Unknown,
    /// The client specified an invalid argument.
    InvalidArgument,
    /// The client sent a message which could not be decoded.
    Malformed,
    /// Operation expired before completion.
    DeadlineExceeded,
    /// Some requested entity was not found.
    NotFound,
    /// The requested URL path wasn't routable to a service and method.
    BadRoute,
    /// An attempt to create an entity failed because one already exists.
    AlreadyExists,
    /// The caller does not have permission to execute the operation.
    PermissionDenied,
    /// The request does not have valid authentication credentials.
    Unauthenticated,
    /// Some resource has been exhausted or rate-limited.
    ResourceExhausted,
    /// The system is not in a state required for the operation.
    FailedPrecondition,
    /// The operation was aborted, typically due to a concurrency issue.
    Aborted,
    /// The operation was attempted past the valid range.
    OutOfRange,
    /// The operation is not implemented or not enabled in this service.
    Unimplemented,
    /// An invariant expected by the underlying system has been broken.
    Internal,
    /// The service is currently unavailable.
    Unavailable,
    /// The operation resulted in unrecoverable data loss or corruption.
    Dataloss,
}

/// The fixed, process-wide mapping from error code to HTTP status.
pub open spec fn spec_http_status(code: TwirpErrorCode) -> u16 {
    match code {
        TwirpErrorCode::Canceled => 408,
        TwirpErrorCode::Unknown => 500,
        TwirpErrorCode::InvalidArgument => 400,
        TwirpErrorCode::Malformed => 400,
        TwirpErrorCode::DeadlineExceeded => 408,
        TwirpErrorCode::NotFound => 404,
        TwirpErrorCode::BadRoute => 404,
        TwirpErrorCode::AlreadyExists => 409,
        TwirpErrorCode::PermissionDenied => 403,
        TwirpErrorCode::Unauthenticated => 401,
        TwirpErrorCode::ResourceExhausted => 429,
        TwirpErrorCode::FailedPrecondition => 412,
        TwirpErrorCode::Aborted => 409,
        TwirpErrorCode::OutOfRange => 400,
        TwirpErrorCode::Unimplemented => 501,
        TwirpErrorCode::Internal => 500,
        TwirpErrorCode::Unavailable => 503,
        TwirpErrorCode::Dataloss => 500,
    }
}

/// The wire name of each error code, as it appears in the `code` field of
/// the JSON error envelope.
pub open spec fn spec_twirp_code(code: TwirpErrorCode) -> Seq<char> {
    match code {
        TwirpErrorCode::Canceled => "canceled"@,
        TwirpErrorCode::Unknown => "unknown"@,
        TwirpErrorCode::InvalidArgument => "invalid_argument"@,
        TwirpErrorCode::Malformed => "malformed"@,
        TwirpErrorCode::DeadlineExceeded => "deadline_exceeded"@,
        TwirpErrorCode::NotFound => "not_found"@,
        TwirpErrorCode::BadRoute => "bad_route"@,
        TwirpErrorCode::AlreadyExists => "already_exists"@,
        TwirpErrorCode::PermissionDenied => "permission_denied"@,
        TwirpErrorCode::Unauthenticated => "unauthenticated"@,
        TwirpErrorCode::ResourceExhausted => "resource_exhausted"@,
        TwirpErrorCode::FailedPrecondition => "failed_precondition"@,
        TwirpErrorCode::Aborted => "aborted"@,
        TwirpErrorCode::OutOfRange => "out_of_range"@,
        TwirpErrorCode::Unimplemented => "unimplemented"@,
        TwirpErrorCode::Internal => "internal"@,
        TwirpErrorCode::Unavailable => "unavailable"@,
        TwirpErrorCode::Dataloss => "dataloss"@,
    }
}

impl TwirpErrorCode {
    /// The single HTTP status this code maps to on the wire.
    pub fn http_status_code(&self) -> (status: u16)
        ensures
            status == spec_http_status(*self),
    {
        match *self {
            TwirpErrorCode::Canceled => 408,
            TwirpErrorCode::Unknown => 500,
            TwirpErrorCode::InvalidArgument => 400,
            TwirpErrorCode::Malformed => 400,
            TwirpErrorCode::DeadlineExceeded => 408,
            TwirpErrorCode::NotFound => 404,
            TwirpErrorCode::BadRoute => 404,
            TwirpErrorCode::AlreadyExists => 409,
            TwirpErrorCode::PermissionDenied => 403,
            TwirpErrorCode::Unauthenticated => 401,
            TwirpErrorCode::ResourceExhausted => 429,
            TwirpErrorCode::FailedPrecondition => 412,
            TwirpErrorCode::Aborted => 409,
            TwirpErrorCode::OutOfRange => 400,
            TwirpErrorCode::Unimplemented => 501,
            TwirpErrorCode::Internal => 500,
            TwirpErrorCode::Unavailable => 503,
            TwirpErrorCode::Dataloss => 500,
        }
    }

    /// The wire name of this code.
    pub fn twirp_code(&self) -> (name: &'static str)
        ensures
            name@ == spec_twirp_code(*self),
    {
        match *self {
            TwirpErrorCode::Canceled => "canceled",
            TwirpErrorCode::Unknown => "unknown",
            TwirpErrorCode::InvalidArgument => "invalid_argument",
            TwirpErrorCode::Malformed => "malformed",
            TwirpErrorCode::DeadlineExceeded => "deadline_exceeded",
            TwirpErrorCode::NotFound => "not_found",
            TwirpErrorCode::BadRoute => "bad_route",
            TwirpErrorCode::AlreadyExists => "already_exists",
            TwirpErrorCode::PermissionDenied => "permission_denied",
            TwirpErrorCode::Unauthenticated => "unauthenticated",
            TwirpErrorCode::ResourceExhausted => "resource_exhausted",
            TwirpErrorCode::FailedPrecondition => "failed_precondition",
            TwirpErrorCode::Aborted => "aborted",
            TwirpErrorCode::OutOfRange => "out_of_range",
            TwirpErrorCode::Unimplemented => "unimplemented",
            TwirpErrorCode::Internal => "internal",
            TwirpErrorCode::Unavailable => "unavailable",
            TwirpErrorCode::Dataloss => "dataloss",
        }
    }
}

/// Exhaustive statement of the status table: every error code maps to the
/// single documented HTTP status.
pub proof fn lemma_status_mapping()
    ensures
        spec_http_status(TwirpErrorCode::Canceled) == 408,
        spec_http_status(TwirpErrorCode::Unknown) == 500,
        spec_http_status(TwirpErrorCode::InvalidArgument) == 400,
        spec_http_status(TwirpErrorCode::Malformed) == 400,
        spec_http_status(TwirpErrorCode::DeadlineExceeded) == 408,
        spec_http_status(TwirpErrorCode::NotFound) == 404,
        spec_http_status(TwirpErrorCode::BadRoute) == 404,
        spec_http_status(TwirpErrorCode::AlreadyExists) == 409,
        spec_http_status(TwirpErrorCode::PermissionDenied) == 403,
        spec_http_status(TwirpErrorCode::Unauthenticated) == 401,
        spec_http_status(TwirpErrorCode::ResourceExhausted) == 429,
        spec_http_status(TwirpErrorCode::FailedPrecondition) == 412,
        spec_http_status(TwirpErrorCode::Aborted) == 409,
        spec_http_status(TwirpErrorCode::OutOfRange) == 400,
        spec_http_status(TwirpErrorCode::Unimplemented) == 501,
        spec_http_status(TwirpErrorCode::Internal) == 500,
        spec_http_status(TwirpErrorCode::Unavailable) == 503,
        spec_http_status(TwirpErrorCode::Dataloss) == 500,
{
}

/// Looks a key up in a sequence of key/value entries, first match wins.
pub open spec fn meta_lookup(entries: Seq<(Seq<char>, Seq<char>)>, key: Seq<char>) -> Option<
    Seq<char>,
>
    decreases entries.len(),
{
    if entries.len() == 0 {
        None
    } else if entries[0].0 == key {
        Some(entries[0].1)
    } else {
        meta_lookup(entries.drop_first(), key)
    }
}

/// String-keyed metadata attached to an error response. Keys are unique;
/// insertion order is preserved and is the order used on the wire.
#[derive(Clone, Debug, PartialEq, Eq)]
pub struct MetaMap {
    entries: Vec<(String, String)>,
}

impl View for MetaMap {
    type V = Seq<(Seq<char>, Seq<char>)>;

    closed spec fn view(&self) -> Seq<(Seq<char>, Seq<char>)> {
        Seq::new(self.entries@.len(), |i: int| (self.entries@[i].0@, self.entries@[i].1@))
    }
}

impl MetaMap {
    /// Well-formedness: every key is stored at most once. Constructors
    /// establish it and every operation preserves it.
    pub open spec fn wf(&self) -> bool {
        forall|i: int, j: int| 0 <= i < j < self@.len() ==> self@[i].0 != self@[j].0
    }

    /// An empty metadata map.
    pub fn new() -> (r: MetaMap)
        ensures
            r@ =~= Seq::<(Seq<char>, Seq<char>)>::empty(),
            r.wf(),
    {
        MetaMap { entries: Vec::new() }
    }

    /// Number of entries.
    pub fn len(&self) -> (r: usize)
        ensures
            r == self@.len(),
    {
        self.entries.len()
    }

    /// Whether the map holds no entry.
    pub fn is_empty(&self) -> (r: bool)
        ensures
            r == (self@.len() == 0),
    {
        self.entries.len() == 0
    }

    /// The value stored under `key`, if any.
    pub fn get(&self, key: &str) -> (r: Option<&String>)
        ensures
            match r {
                Some(v) => meta_lookup(self@, key@) == Some(v@),
                None => meta_lookup(self@, key@) is None,
            },
    {
        let mut i: usize = 0;
        proof {
            assert(self@.skip(0) =~= self@);
        }
        while i < self.entries.len()
            invariant
                0 <= i <= self@.len(),
                meta_lookup(self@, key@) == meta_lookup(self@.skip(i as int), key@),
            decreases self@.len() - i,
        {
            proof {
                assert(self@.skip(i as int).drop_first() =~= self@.skip(i + 1));
            }
            if crate::text::str_eq(self.entries[i].0.as_str(), key) {
                assert(self@.skip(i as int)[0] == self@[i as int]);
                return Some(&self.entries[i].1);
            }
            i += 1;
        }
        assert(self@.skip(self@.len() as int) =~= Seq::<(Seq<char>, Seq<char>)>::empty());
        None
    }

    /// The entry at position `i`, in insertion order.
    pub fn entry(&self, i: usize) -> (r: (&String, &String))
        requires
            i < self@.len(),
        ensures
            r.0@ == self@[i as int].0,
            r.1@ == self@[i as int].1,
    {
        (&self.entries[i].0, &self.entries[i].1)
    }

    /// Index of the entry holding `key`, if any.
    fn position(&self, key: &str) -> (r: Option<usize>)
        ensures
            match r {
                Some(i) => 0 <= i < self@.len() && self@[i as int].0 == key@,
                None => forall|i: int| 0 <= i < self@.len() ==> self@[i].0 != key@,
            },
    {
        let mut i: usize = 0;
        while i < self.entries.len()
            invariant
                0 <= i <= self@.len(),
                forall|j: int| 0 <= j < i ==> self@[j].0 != key@,
            decreases self@.len() - i,
        {
            if crate::text::str_eq(self.entries[i].0.as_str(), key) {
                return Some(i);
            }
            i += 1;
        }
        None
    }

    /// Inserts or replaces the value under `key`, returning the prior value
    /// if one was stored. A replaced key keeps its position; a new key goes
    /// to the end.
    pub fn insert(&mut self, key: String, value: String) -> (prior: Option<String>)
        requires
            old(self).wf(),
        ensures
            final(self).wf(),
            meta_lookup(final(self)@, key@) == Some(value@),
            forall|k: Seq<char>|
                k != key@ ==> meta_lookup(final(self)@, k) == meta_lookup(old(self)@, k),
            match prior {
                Some(v) => {
                    &&& meta_lookup(old(self)@, key@) == Some(v@)
                    &&& exists|i: int|
                        0 <= i < old(self)@.len() && old(self)@[i].0 == key@ && final(self)@
                            =~= old(self)@.update(i, (key@, value@))
                },
                None => {
                    &&& meta_lookup(old(self)@, key@) is None
                    &&& final(self)@ =~= old(self)@.push((key@, value@))
                },
            },
    {
        let pos = self.position(key.as_str());
        match pos {
            Some(i) => {
                let old_entry = self.entries.remove(i);
                self.entries.insert(i, (key, value));
                proof {
                    assert(self@ =~= old(self)@.update(i as int, (key@, value@)));
                    assert(forall|m: int|
                        0 <= m < self@.len() ==> self@[m].0 == old(self)@[m].0);
                    lemma_meta_lookup_found(old(self)@, key@, i as int);
                    lemma_meta_lookup_found(self@, key@, i as int);
                    assert forall|k: Seq<char>| k != key@ implies meta_lookup(self@, k)
                        == meta_lookup(old(self)@, k) by {
                        lemma_meta_lookup_update_other(old(self)@, i as int, (key@, value@), k);
                    }
                }
                Some(old_entry.1)
            },
            None => {
                self.entries.push((key, value));
                proof {
                    assert(self@ =~= old(self)@.push((key@, value@)));
                    lemma_meta_lookup_absent(old(self)@, key@);
                    lemma_meta_lookup_push(old(self)@, (key@, value@), key@);
                    assert forall|k: Seq<char>| k != key@ implies meta_lookup(self@, k)
                        == meta_lookup(old(self)@, k) by {
                        lemma_meta_lookup_push(old(self)@, (key@, value@), k);
                    }
                }
                None
            },
        }
    }

    /// Removes the entry under `key`, returning its value if one was stored.
    pub fn remove(&mut self, key: &str) -> (prior: Option<String>)
        requires
            old(self).wf(),
        ensures
            final(self).wf(),
            meta_lookup(final(self)@, key@) is None,
            forall|k: Seq<char>|
                k != key@ ==> meta_lookup(final(self)@, k) == meta_lookup(old(self)@, k),
            match prior {
                Some(v) => meta_lookup(old(self)@, key@) == Some(v@),
                None => {
                    &&& meta_lookup(old(self)@, key@) is None
                    &&& final(self)@ =~= old(self)@
                },
            },
    {
        let pos = self.position(key);
        match pos {
            Some(i) => {
                let old_entry = self.entries.remove(i);
                proof {
                    assert(self@ =~= old(self)@.remove(i as int));
                    assert forall|j: int, k: int| 0 <= j < k < self@.len() implies self@[j].0
                        != self@[k].0 by {
                        assert(self@[j] == if j < i {
                            old(self)@[j]
                        } else {
                            old(self)@[j + 1]
                        });
                        assert(self@[k] == if k < i {
                            old(self)@[k]
                        } else {
                            old(self)@[k + 1]
                        });
                    }
                    lemma_meta_lookup_found(old(self)@, key@, i as int);
                    lemma_meta_lookup_remove(old(self)@, i as int, key@);
                    assert forall|k: Seq<char>| k != key@ implies meta_lookup(self@, k)
                        == meta_lookup(old(self)@, k) by {
                        lemma_meta_lookup_remove_other(old(self)@, i as int, k);
                    }
                }
                Some(old_entry.1)
            },
            None => {
                proof {
                    lemma_meta_lookup_absent(old(self)@, key@);
                }
                None
            },
        }
    }
}

/// The error code chosen for a bare HTTP status: the first code in
/// declaration order whose mapped status matches, `Unknown` otherwise.
pub open spec fn spec_code_from_status(status: u16) -> TwirpErrorCode {
    if status == 408 {
        TwirpErrorCode::Canceled
    } else if status == 500 {
        TwirpErrorCode::Unknown
    } else if status == 400 {
        TwirpErrorCode::InvalidArgument
    } else if status == 404 {
        TwirpErrorCode::NotFound
    } else if status == 409 {
        TwirpErrorCode::AlreadyExists
    } else if status == 403 {
        TwirpErrorCode::PermissionDenied
    } else if status == 401 {
        TwirpErrorCode::Unauthenticated
    } else if status == 429 {
        TwirpErrorCode::ResourceExhausted
    } else if status == 412 {
        TwirpErrorCode::FailedPrecondition
    } else if status == 501 {
        TwirpErrorCode::Unimplemented
    } else if status == 503 {
        TwirpErrorCode::Unavailable
    } else {
        TwirpErrorCode::Unknown
    }
}

impl From<u16> for TwirpErrorCode {
    /// The error code a bare HTTP status falls back to.
    fn from(status: u16) -> (r: TwirpErrorCode)
        ensures
            r == spec_code_from_status(status),
    {
        if status == 408 {
            TwirpErrorCode::Canceled
        } else if status == 500 {
            TwirpErrorCode::Unknown
        } else if status == 400 {
            TwirpErrorCode::InvalidArgument
        } else if status == 404 {
            TwirpErrorCode::NotFound
        } else if status == 409 {
            TwirpErrorCode::AlreadyExists
        } else if status == 403 {
            TwirpErrorCode::PermissionDenied
        } else if status == 401 {
            TwirpErrorCode::Unauthenticated
        } else if status == 429 {
            TwirpErrorCode::ResourceExhausted
        } else if status == 412 {
            TwirpErrorCode::FailedPrecondition
        } else if status == 501 {
            TwirpErrorCode::Unimplemented
        } else if status == 503 {
            TwirpErrorCode::Unavailable
        } else {
            TwirpErrorCode::Unknown
        }
    }
}

impl vstd::std_specs::convert::FromSpecImpl<u16> for TwirpErrorCode {
    open spec fn obeys_from_spec() -> bool {
        true
    }

    open spec fn from_spec(status: u16) -> TwirpErrorCode {
        spec_code_from_status(status)
    }
}

/// A structured Twirp error response: the canonical error envelope.
///
/// On the wire only `code`, `msg` and (when non-empty) `meta` appear, always
/// as JSON. `retry_after` is mirrored into `meta["retry_after"]` and into a
/// `Retry-After` header; `rust_error` is diagnostic only and never leaves
/// the server.
#[derive(Clone, Debug, PartialEq, Eq)]
pub struct TwirpErrorResponse {
    /// One of the canonical error codes.
    pub code: TwirpErrorCode,
    /// A human-readable message describing the error.
    pub msg: String,
    /// Additional string metadata describing the error.
    pub meta: MetaMap,
    /// How long clients should wait before retrying, in whole seconds.
    /// When set it is at least 1 second.
    pub retry_after: Option<u64>,
    /// Debug form of an underlying error, if any. Not sent to clients.
    pub rust_error: Option<String>,
}

/// A freshly constructed error response: the given code and message, no
/// metadata, no retry hint, no debug detail.
pub open spec fn spec_fresh_error(
    r: TwirpErrorResponse,
    code: TwirpErrorCode,
    msg: Seq<char>,
) -> bool {
    &&& r.code == code
    &&& r.msg@ == msg
    &&& r.meta@ == Seq::<(Seq<char>, Seq<char>)>::empty()
    &&& r.retry_after is None
    &&& r.rust_error is None
}

impl TwirpErrorResponse {
    /// Well-formedness of the whole response.
    pub open spec fn wf(&self) -> bool {
        self.meta.wf()
    }

    /// A response with the given code and message and nothing else.
    pub fn new(code: TwirpErrorCode, msg: String) -> (r: TwirpErrorResponse)
        ensures
            spec_fresh_error(r, code, msg@),
            r.wf(),
    {
        let r = TwirpErrorResponse {
            code,
            msg,
            meta: MetaMap::new(),
            retry_after: None,
            rust_error: None,
        };
        proof {
            assert(r.meta@ =~= Seq::<(Seq<char>, Seq<char>)>::empty());
        }
        r
    }

    /// The HTTP status this response is sent with.
    pub fn http_status_code(&self) -> (status: u16)
        ensures
            status == spec_http_status(self.code),
    {
        self.code.http_status_code()
    }

    /// The metadata map, for in-place updates.
    pub fn meta_mut(&mut self) -> (r: &mut MetaMap)
        ensures
            *r == old(self).meta,
            *final(self) == (TwirpErrorResponse { meta: *final(r), ..*old(self) }),
    {
        &mut self.meta
    }

    /// Adds (or replaces) one metadata entry.
    pub fn with_meta(self, key: &str, value: &str) -> (r: TwirpErrorResponse)
        requires
            self.wf(),
        ensures
            r.wf(),
            r.code == self.code,
            r.msg@ == self.msg@,
            r.retry_after == self.retry_after,
            r.rust_error == self.rust_error,
            meta_lookup(r.meta@, key@) == Some(value@),
            forall|k: Seq<char>|
                k != key@ ==> meta_lookup(r.meta@, k) == meta_lookup(self.meta@, k),
            meta_lookup(self.meta@, key@) is None ==> r.meta@ == self.meta@.push((key@, value@)),
    {
        let mut r = self;
        r.meta.insert(key.to_owned(), value.to_owned());
        r
    }

    /// The retry hint, in whole seconds, if one is set.
    pub fn retry_after(&self) -> (r: Option<u64>)
        ensures
            r == self.retry_after,
    {
        self.retry_after
    }

    /// Attaches the debug form of an underlying error. Not sent to clients.
    pub fn with_rust_error_string(self, rust_error: String) -> (r: TwirpErrorResponse)
        ensures
            r.code == self.code,
            r.msg@ == self.msg@,
            r.meta == self.meta,
            r.retry_after == self.retry_after,
            r.rust_error matches Some(e) && e@ == rust_error@,
    {
        TwirpErrorResponse { rust_error: Some(rust_error), ..self }
    }

    /// Attaches the debug form of an underlying error, already rendered to
    /// text by the caller. Not sent to clients.
    pub fn with_rust_error(self, err: String) -> (r: TwirpErrorResponse)
        ensures
            r.code == self.code,
            r.msg@ == self.msg@,
            r.meta == self.meta,
            r.retry_after == self.retry_after,
            r.rust_error matches Some(e) && e@ == err@,
    {
        self.with_rust_error_string(err)
    }

    /// Attaches the debug form of a generic underlying error, already
    /// rendered to text by the caller. Not sent to clients.
    pub fn with_generic_error(self, err: String) -> (r: TwirpErrorResponse)
        ensures
            r.code == self.code,
            r.msg@ == self.msg@,
            r.meta == self.meta,
            r.retry_after == self.retry_after,
            r.rust_error matches Some(e) && e@ == err@,
    {
        self.with_rust_error_string(err)
    }

    /// Sets (or clears) the retry hint. A hint below 1 second is clamped up
    /// to exactly 1 second, and the effective value is mirrored into
    /// `meta["retry_after"]` as decimal whole seconds; clearing the hint
    /// also removes that entry.
    pub fn with_retry_after(self, duration: Option<u64>) -> (r: TwirpErrorResponse)
        requires
            self.wf(),
        ensures
            r.wf(),
            r.code == self.code,
            r.msg@ == self.msg@,
            r.rust_error == self.rust_error,
            r.retry_after == match duration {
                Some(d) => Some(if d < 1 { 1u64 } else { d }),
                None => None::<u64>,
            },
            match duration {
                Some(d) => meta_lookup(r.meta@, "retry_after"@) == Some(
                    crate::text::spec_dec_digits(if d < 1 { 1nat } else { d as nat }),
                ),
                None => meta_lookup(r.meta@, "retry_after"@) is None,
            },
            forall|k: Seq<char>|
                k != "retry_after"@ ==> meta_lookup(r.meta@, k) == meta_lookup(self.meta@, k),
    {
        let mut r = self;
        match duration {
            Some(d) => {
                let secs: u64 = if d < 1 {
                    1
                } else {
                    d
                };
                r.retry_after = Some(secs);
                r.meta.insert("retry_after".to_owned(), crate::text::u64_to_string(secs));
            },
            None => {
                r.retry_after = None;
                r.meta.remove("retry_after");
            },
        }
        r
    }
}

/// The variant name of each error code, as diagnostics print it.
pub open spec fn spec_code_variant_name(code: TwirpErrorCode) -> Seq<char> {
    match code {
        TwirpErrorCode::Canceled => "Canceled"@,
        TwirpErrorCode::Unknown => "Unknown"@,
        TwirpErrorCode::InvalidArgument => "InvalidArgument"@,
        TwirpErrorCode::Malformed => "Malformed"@,
        TwirpErrorCode::DeadlineExceeded => "DeadlineExceeded"@,
        TwirpErrorCode::NotFound => "NotFound"@,
        TwirpErrorCode::BadRoute => "BadRoute"@,
        TwirpErrorCode::AlreadyExists => "AlreadyExists"@,
        TwirpErrorCode::PermissionDenied => "PermissionDenied"@,
        TwirpErrorCode::Unauthenticated => "Unauthenticated"@,
        TwirpErrorCode::ResourceExhausted => "ResourceExhausted"@,
        TwirpErrorCode::FailedPrecondition => "FailedPrecondition"@,
        TwirpErrorCode::Aborted => "Aborted"@,
        TwirpErrorCode::OutOfRange => "OutOfRange"@,
        TwirpErrorCode::Unimplemented => "Unimplemented"@,
        TwirpErrorCode::Internal => "Internal"@,
        TwirpErrorCode::Unavailable => "Unavailable"@,
        TwirpErrorCode::Dataloss => "Dataloss"@,
    }
}

/// The display form of the metadata entries: `"key": "value"` pairs,
/// comma-separated, in insertion order, with plain quoting.
pub open spec fn spec_meta_display(entries: Seq<(Seq<char>, Seq<char>)>) -> Seq<char>
    decreases entries.len(),
{
    if entries.len() == 0 {
        Seq::empty()
    } else if entries.len() == 1 {
        "\""@ + entries[0].0 + "\": \""@ + entries[0].1 + "\""@
    } else {
        "\""@ + entries[0].0 + "\": \""@ + entries[0].1 + "\", "@ + spec_meta_display(
            entries.drop_first(),
        )
    }
}

/// The display form of a whole error response: the code's variant name
/// and the message, followed by the metadata, the retry hint in seconds
/// and the debug detail where present.
pub open spec fn spec_display_error(e: TwirpErrorResponse) -> Seq<char> {
    "error "@ + spec_code_variant_name(e.code) + ": "@ + e.msg@ + (if e.meta@.len() == 0 {
        Seq::<char>::empty()
    } else {
        " (meta: {"@ + spec_meta_display(e.meta@) + "})"@
    }) + (match e.retry_after {
        Some(secs) => " (retry_after: "@ + crate::text::spec_dec_digits(secs as nat) + "s)"@,
        None => Seq::<char>::empty(),
    }) + (match e.rust_error {
        Some(re) => " (rust_error: \""@ + re@ + "\")"@,
        None => Seq::<char>::empty(),
    })
}

/// The display form grows at the end when an entry is appended.
proof fn lemma_meta_display_snoc(entries: Seq<(Seq<char>, Seq<char>)>, e: (Seq<char>, Seq<char>))
    ensures
        spec_meta_display(entries.push(e)) == if entries.len() == 0 {
            "\""@ + e.0 + "\": \""@ + e.1 + "\""@
        } else {
            spec_meta_display(entries) + ", "@ + ("\""@ + e.0 + "\": \""@ + e.1 + "\""@)
        },
    decreases entries.len(),
{
    reveal_strlit("\"");
    reveal_strlit("\": \"");
    reveal_strlit("\", ");
    reveal_strlit(", ");
    let s = entries.push(e);
    if entries.len() == 0 {
        assert(s[0] == e);
    } else {
        assert(s[0] == entries[0]);
        assert(s.drop_first() =~= entries.drop_first().push(e));
        lemma_meta_display_snoc(entries.drop_first(), e);
        assert(spec_meta_display(s) =~= spec_meta_display(entries) + ", "@ + ("\""@ + e.0
            + "\": \""@ + e.1 + "\""@));
    }
}

impl TwirpErrorCode {
    /// The variant name of this code, as diagnostics print it.
    pub fn variant_name(&self) -> (name: &'static str)
        ensures
            name@ == spec_code_variant_name(*self),
    {
        match *self {
            TwirpErrorCode::Canceled => "Canceled",
            TwirpErrorCode::Unknown => "Unknown",
            TwirpErrorCode::InvalidArgument => "InvalidArgument",
            TwirpErrorCode::Malformed => "Malformed",
            TwirpErrorCode::DeadlineExceeded => "DeadlineExceeded",
            TwirpErrorCode::NotFound => "NotFound",
            TwirpErrorCode::BadRoute => "BadRoute",
            TwirpErrorCode::AlreadyExists => "AlreadyExists",
            TwirpErrorCode::PermissionDenied => "PermissionDenied",
            TwirpErrorCode::Unauthenticated => "Unauthenticated",
            TwirpErrorCode::ResourceExhausted => "ResourceExhausted",
            TwirpErrorCode::FailedPrecondition => "FailedPrecondition",
            TwirpErrorCode::Aborted => "Aborted",
            TwirpErrorCode::OutOfRange => "OutOfRange",
            TwirpErrorCode::Unimplemented => "Unimplemented",
            TwirpErrorCode::Internal => "Internal",
            TwirpErrorCode::Unavailable => "Unavailable",
            TwirpErrorCode::Dataloss => "Dataloss",
        }
    }
}

impl TwirpErrorResponse {
    /// Renders this response for diagnostics, in the display form of
    /// `spec_display_error`. Keys, values and the debug detail are quoted
    /// plainly, without escaping.
    pub fn display_string(&self) -> (r: String)
        ensures
            r@ == spec_display_error(*self),
    {
        let mut out = "error ".to_owned();
        out.append(self.code.variant_name());
        out.append(": ");
        out.append(self.msg.as_str());
        let n = self.meta.len();
        if n > 0 {
            out.append(" (meta: {");
            let ghost mid = out@;
            let mut i: usize = 0;
            proof {
                assert(self.meta@.take(0) =~= Seq::<(Seq<char>, Seq<char>)>::empty());
                assert(mid + spec_meta_display(self.meta@.take(0)) =~= mid);
            }
            while i < n
                invariant
                    0 <= i <= self.meta@.len(),
                    n == self.meta@.len(),
                    out@ == mid + spec_meta_display(self.meta@.take(i as int)),
                decreases self.meta@.len() - i,
            {
                if i > 0 {
                    out.append(", ");
                }
                let (key, value) = self.meta.entry(i);
                out.append("\"");
                out.append(key.as_str());
                out.append("\": \"");
                out.append(value.as_str());
                out.append("\"");
                proof {
                    assert(self.meta@.take(i + 1) =~= self.meta@.take(i as int).push(
                        self.meta@[i as int],
                    ));
                    lemma_meta_display_snoc(self.meta@.take(i as int), self.meta@[i as int]);
                    assert(out@ =~= mid + spec_meta_display(self.meta@.take(i + 1)));
                }
                i += 1;
            }
            out.append("})");
            proof {
                assert(self.meta@.take(n as int) =~= self.meta@);
            }
        }
        match self.retry_after {
            Some(secs) => {
                out.append(" (retry_after: ");
                let digits = crate::text::u64_to_string(secs);
                out.append(digits.as_str());
                out.append("s)");
            },
            None => {},
        }
        match &self.rust_error {
            Some(re) => {
                out.append(" (rust_error: \"");
                out.append(re.as_str());
                out.append("\")");
            },
            None => {},
        }
        proof {
            assert(out@ =~= spec_display_error(*self));
        }
        out
    }
}

/// A fresh `Canceled` error with the given message.
pub fn canceled(msg: &str) -> (r: TwirpErrorResponse)
    ensures
        spec_fresh_error(r, TwirpErrorCode::Canceled, msg@),
        r.wf(),
{
    TwirpErrorResponse::new(TwirpErrorCode::Canceled, msg.to_owned())
}

/// A fresh `Unknown` error with the given message.
pub fn unknown(msg: &str) -> (r: TwirpErrorResponse)
    ensures
        spec_fresh_error(r, TwirpErrorCode::Unknown, msg@),
        r.wf(),
{
    TwirpErrorResponse::new(TwirpErrorCode::Unknown, msg.to_owned())
}

/// A fresh `InvalidArgument` error with the given message.
pub fn invalid_argument(msg: &str) -> (r: TwirpErrorResponse)
    ensures
        spec_fresh_error(r, TwirpErrorCode::InvalidArgument, msg@),
        r.wf(),
{
    TwirpErrorResponse::new(TwirpErrorCode::InvalidArgument, msg.to_owned())
}

/// A fresh `Malformed` error with the given message.
pub fn malformed(msg: &str) -> (r: TwirpErrorResponse)
    ensures
        spec_fresh_error(r, TwirpErrorCode::Malformed, msg@),
        r.wf(),
{
    TwirpErrorResponse::new(TwirpErrorCode::Malformed, msg.to_owned())
}

/// A fresh `DeadlineExceeded` error with the given message.
pub fn deadline_exceeded(msg: &str) -> (r: TwirpErrorResponse)
    ensures
        spec_fresh_error(r, TwirpErrorCode::DeadlineExceeded, msg@),
        r.wf(),
{
    TwirpErrorResponse::new(TwirpErrorCode::DeadlineExceeded, msg.to_owned())
}

/// A fresh `NotFound` error with the given message.
pub fn not_found(msg: &str) -> (r: TwirpErrorResponse)
    ensures
        spec_fresh_error(r, TwirpErrorCode::NotFound, msg@),
        r.wf(),
{
    TwirpErrorResponse::new(TwirpErrorCode::NotFound, msg.to_owned())
}

/// A fresh `BadRoute` error with the given message.
pub fn bad_route(msg: &str) -> (r: TwirpErrorResponse)
    ensures
        spec_fresh_error(r, TwirpErrorCode::BadRoute, msg@),
        r.wf(),
{
    TwirpErrorResponse::new(TwirpErrorCode::BadRoute, msg.to_owned())
}

/// A fresh `AlreadyExists` error with the given message.
pub fn already_exists(msg: &str) -> (r: TwirpErrorResponse)
    ensures
        spec_fresh_error(r, TwirpErrorCode::AlreadyExists, msg@),
        r.wf(),
{
    TwirpErrorResponse::new(TwirpErrorCode::AlreadyExists, msg.to_owned())
}

/// A fresh `PermissionDenied` error with the given message.
pub fn permission_denied(msg: &str) -> (r: TwirpErrorResponse)
    ensures
        spec_fresh_error(r, TwirpErrorCode::PermissionDenied, msg@),
        r.wf(),
{
    TwirpErrorResponse::new(TwirpErrorCode::PermissionDenied, msg.to_owned())
}

/// A fresh `Unauthenticated` error with the given message.
pub fn unauthenticated(msg: &str) -> (r: TwirpErrorResponse)
    ensures
        spec_fresh_error(r, TwirpErrorCode::Unauthenticated, msg@),
        r.wf(),
{
    TwirpErrorResponse::new(TwirpErrorCode::Unauthenticated, msg.to_owned())
}

/// A fresh `ResourceExhausted` error with the given message.
pub fn resource_exhausted(msg: &str) -> (r: TwirpErrorResponse)
    ensures
        spec_fresh_error(r, TwirpErrorCode::ResourceExhausted, msg@),
        r.wf(),
{
    TwirpErrorResponse::new(TwirpErrorCode::ResourceExhausted, msg.to_owned())
}

/// A fresh `FailedPrecondition` error with the given message.
pub fn failed_precondition(msg: &str) -> (r: TwirpErrorResponse)
    ensures
        spec_fresh_error(r, TwirpErrorCode::FailedPrecondition, msg@),
        r.wf(),
{
    TwirpErrorResponse::new(TwirpErrorCode::FailedPrecondition, msg.to_owned())
}

/// A fresh `Aborted` error with the given message.
pub fn aborted(msg: &str) -> (r: TwirpErrorResponse)
    ensures
        spec_fresh_error(r, TwirpErrorCode::Aborted, msg@),
        r.wf(),
{
    TwirpErrorResponse::new(TwirpErrorCode::Aborted, msg.to_owned())
}

/// A fresh `OutOfRange` error with the given message.
pub fn out_of_range(msg: &str) -> (r: TwirpErrorResponse)
    ensures
        spec_fresh_error(r, TwirpErrorCode::OutOfRange, msg@),
        r.wf(),
{
    TwirpErrorResponse::new(TwirpErrorCode::OutOfRange, msg.to_owned())
}

/// A fresh `Unimplemented` error with the given message.
pub fn unimplemented(msg: &str) -> (r: TwirpErrorResponse)
    ensures
        spec_fresh_error(r, TwirpErrorCode::Unimplemented, msg@),
        r.wf(),
{
    TwirpErrorResponse::new(TwirpErrorCode::Unimplemented, msg.to_owned())
}

/// A fresh `Internal` error with the given message.
pub fn internal(msg: &str) -> (r: TwirpErrorResponse)
    ensures
        spec_fresh_error(r, TwirpErrorCode::Internal, msg@),
        r.wf(),
{
    TwirpErrorResponse::new(TwirpErrorCode::Internal, msg.to_owned())
}

/// A fresh `Unavailable` error with the given message.
pub fn unavailable(msg: &str) -> (r: TwirpErrorResponse)
    ensures
        spec_fresh_error(r, TwirpErrorCode::Unavailable, msg@),
        r.wf(),
{
    TwirpErrorResponse::new(TwirpErrorCode::Unavailable, msg.to_owned())
}

/// A fresh `Dataloss` error with the given message.
pub fn dataloss(msg: &str) -> (r: TwirpErrorResponse)
    ensures
        spec_fresh_error(r, TwirpErrorCode::Dataloss, msg@),
        r.wf(),
{
    TwirpErrorResponse::new(TwirpErrorCode::Dataloss, msg.to_owned())
}

/// Shorthand for an internal server error carrying the debug form of an
/// underlying error, already rendered to text by the caller.
pub fn internal_server_error(err: String) -> (r: TwirpErrorResponse)
    ensures
        r.code == TwirpErrorCode::Internal,
        r.msg@ == "internal server error"@,
        r.meta@ == Seq::<(Seq<char>, Seq<char>)>::empty(),
        r.retry_after is None,
        r.rust_error matches Some(e) && e@ == err@,
        r.wf(),
{
    internal("internal server error").with_rust_error(err)
}

/// If no entry holds `key`, lookup fails.
proof fn lemma_meta_lookup_absent(entries: Seq<(Seq<char>, Seq<char>)>, key: Seq<char>)
    requires
        forall|i: int| 0 <= i < entries.len() ==> entries[i].0 != key,
    ensures
        meta_lookup(entries, key) is None,
    decreases entries.len(),
{
    if entries.len() > 0 {
        lemma_meta_lookup_absent(entries.drop_first(), key);
    }
}

/// A successful lookup names the key of some entry.
pub proof fn lemma_meta_lookup_some_exists(entries: Seq<(Seq<char>, Seq<char>)>, key: Seq<char>)
    requires
        meta_lookup(entries, key) is Some,
    ensures
        exists|m: int| 0 <= m < entries.len() && (#[trigger] entries[m]).0 == key,
    decreases entries.len(),
{
    if entries[0].0 == key {
    } else {
        lemma_meta_lookup_some_exists(entries.drop_first(), key);
        let m = choose|m: int|
            0 <= m < entries.drop_first().len() && (#[trigger] entries.drop_first()[m]).0 == key;
        assert(entries[m + 1].0 == key);
    }
}

/// If the entry holding `key` stands at `i` and keys are unique, lookup
/// returns its value.
pub proof fn lemma_meta_lookup_found(entries: Seq<(Seq<char>, Seq<char>)>, key: Seq<char>, i: int)
    requires
        0 <= i < entries.len(),
        entries[i].0 == key,
        forall|j: int, k: int| 0 <= j < k < entries.len() ==> entries[j].0 != entries[k].0,
    ensures
        meta_lookup(entries, key) == Some(entries[i].1),
    decreases entries.len(),
{
    if i == 0 {
    } else {
        assert(entries.drop_first()[i - 1] == entries[i]);
        lemma_meta_lookup_found(entries.drop_first(), key, i - 1);
    }
}

/// Appending an entry only affects lookups of its own key.
proof fn lemma_meta_lookup_push(
    entries: Seq<(Seq<char>, Seq<char>)>,
    entry: (Seq<char>, Seq<char>),
    key: Seq<char>,
)
    ensures
        meta_lookup(entries.push(entry), key) == if meta_lookup(entries, key) is Some {
            meta_lookup(entries, key)
        } else if entry.0 == key {
            Some(entry.1)
        } else {
            None
        },
    decreases entries.len(),
{
    if entries.len() == 0 {
        assert(entries.push(entry)[0] == entry);
        assert(entries.push(entry).drop_first() =~= Seq::<(Seq<char>, Seq<char>)>::empty());
    } else {
        assert(entries.push(entry).drop_first() =~= entries.drop_first().push(entry));
        lemma_meta_lookup_push(entries.drop_first(), entry, key);
    }
}

/// Replacing the entry at `i` does not affect lookups of other keys.
proof fn lemma_meta_lookup_update_other(
    entries: Seq<(Seq<char>, Seq<char>)>,
    i: int,
    entry: (Seq<char>, Seq<char>),
    key: Seq<char>,
)
    requires
        0 <= i < entries.len(),
        entries[i].0 == entry.0,
        key != entry.0,
    ensures
        meta_lookup(entries.update(i, entry), key) == meta_lookup(entries, key),
    decreases entries.len(),
{
    if i == 0 {
        assert(entries.update(0, entry).drop_first() =~= entries.drop_first());
    } else {
        assert(entries.update(i, entry)[0] == entries[0]);
        assert(entries.update(i, entry).drop_first() =~= entries.drop_first().update(
            i - 1,
            entry,
        ));
        lemma_meta_lookup_update_other(entries.drop_first(), i - 1, entry, key);
    }
}

/// After removing the only entry holding `key`, lookup of `key` fails.
proof fn lemma_meta_lookup_remove(entries: Seq<(Seq<char>, Seq<char>)>, i: int, key: Seq<char>)
    requires
        0 <= i < entries.len(),
        entries[i].0 == key,
        forall|j: int, k: int| 0 <= j < k < entries.len() ==> entries[j].0 != entries[k].0,
    ensures
        meta_lookup(entries.remove(i), key) is None,
{
    assert forall|j: int| 0 <= j < entries.remove(i).len() implies entries.remove(i)[j].0
        != key by {
        if j < i {
            assert(entries.remove(i)[j] == entries[j]);
        } else {
            assert(entries.remove(i)[j] == entries[j + 1]);
        }
    }
    lemma_meta_lookup_absent(entries.remove(i), key);
}

/// Removing the entry at `i` does not affect lookups of other keys.
proof fn lemma_meta_lookup_remove_other(entries: Seq<(Seq<char>, Seq<char>)>, i: int, key: Seq<char>)
    requires
        0 <= i < entries.len(),
        entries[i].0 != key,
    ensures
        meta_lookup(entries.remove(i), key) == meta_lookup(entries, key),
    decreases entries.len(),
{
    if i == 0 {
        assert(entries.remove(0) =~= entries.drop_first());
    } else {
        assert(entries.remove(i)[0] == entries[0]);
        assert(entries.remove(i).drop_first() =~= entries.drop_first().remove(i - 1));
        lemma_meta_lookup_remove_other(entries.drop_first(), i - 1, key);
    }
}

} // verus!
