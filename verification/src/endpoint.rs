//! The client's endpoint model: scheme, host, port and path of a base URL,
//! with trailing-slash normalization and path joining.

use vstd::prelude::*;

verus! {

use vstd::string::StrSliceExecFns;
use vstd::string::StringExecFns;
use crate::text::spec_dec_digits;

/// The parts of an absolute HTTP base URL that the client reads: scheme,
/// host, optional port, and path. All parts are ASCII, as the URL parser
/// guarantees for the serialized form.
#[derive(Clone, Debug, PartialEq, Eq)]
pub struct BaseUrl {
    /// URL scheme, e.g. `http`.
    pub scheme: String,
    /// Host name or address.
    pub host: String,
    /// Port, when one is spelled out.
    pub port: Option<u16>,
    /// Path, always starting with `/`.
    pub path: String,
}

impl BaseUrl {
    /// Well-formedness: ASCII parts, a non-empty host and scheme, and a
    /// path that starts with a slash.
    pub open spec fn wf(&self) -> bool {
        &&& vstd::utf8::is_ascii_chars(self.scheme@)
        &&& vstd::utf8::is_ascii_chars(self.host@)
        &&& vstd::utf8::is_ascii_chars(self.path@)
        &&& self.scheme@.len() > 0
        &&& self.host@.len() > 0
        &&& self.path@.len() > 0
        &&& self.path@[0] == '/'
    }

    /// Whether the path already ends with a slash.
    pub fn path_ends_with_slash(&self) -> (r: bool)
        requires
            self.wf(),
        ensures
            r == (self.path@.last() == '/'),
    {
        let n = self.path.as_str().unicode_len();
        let last = self.path.as_str().get_char(n - 1);
        proof {
            reveal_strlit("/");
        }
        last == '/'
    }

    /// Normalizes the base so that its path ends with a slash; a path that
    /// already does is kept as it is.
    pub fn normalize(self) -> (r: BaseUrl)
        requires
            self.wf(),
        ensures
            r.wf(),
            r.scheme@ == self.scheme@,
            r.host@ == self.host@,
            r.port == self.port,
            r.path@ == if self.path@.last() == '/' {
                self.path@
            } else {
                self.path@.push('/')
            },
            r.path@.last() == '/',
    {
        proof {
            reveal_strlit("/");
        }
        if self.path_ends_with_slash() {
            self
        } else {
            let ghost orig = self.path@;
            let mut path = self.path;
            path.append("/");
            proof {
                assert(path@ =~= orig.push('/'));
                assert(vstd::utf8::is_ascii_chars(path@)) by {
                    assert(forall|i: int|
                        0 <= i < path@.len() ==> path@[i] == (if i < orig.len() {
                            orig[i]
                        } else {
                            '/'
                        }));
                }
            }
            BaseUrl { scheme: self.scheme, host: self.host, port: self.port, path }
        }
    }

    /// The serialized URL of this base followed by `rel`:
    /// `scheme://host[:port]` then the path and the joined segment.
    pub fn join(&self, rel: &str) -> (r: String)
        requires
            self.wf(),
        ensures
            r@ == spec_url_string(
                self.scheme@,
                self.host@,
                self.port,
                self.path@,
            ) + rel@,
    {
        proof {
            reveal_strlit("://");
            reveal_strlit(":");
        }
        let mut out = self.scheme.clone();
        out.append("://");
        out.append(self.host.as_str());
        match self.port {
            Some(p) => {
                out.append(":");
                let digits = crate::text::u64_to_string(p as u64);
                out.append(digits.as_str());
            },
            None => {},
        }
        out.append(self.path.as_str());
        out.append(rel);
        proof {
            assert(out@ =~= spec_url_string(self.scheme@, self.host@, self.port, self.path@)
                + rel@);
        }
        out
    }
}

/// The serialized form of a base URL.
pub open spec fn spec_url_string(
    scheme: Seq<char>,
    host: Seq<char>,
    port: Option<u16>,
    path: Seq<char>,
) -> Seq<char> {
    scheme + "://"@ + host + (match port {
        Some(p) => ":"@ + spec_dec_digits(p as nat),
        None => Seq::<char>::empty(),
    }) + path
}

/// Whether two slashes stand next to each other anywhere in `s`.
pub open spec fn has_double_slash(s: Seq<char>) -> bool {
    exists|i: int| 0 <= i && i + 1 < s.len() && #[trigger] s[i] == '/' && s[i + 1] == '/'
}

/// Joining a method path onto a normalized base never doubles a slash:
/// if neither the base path (ending in a slash) nor the relative segment
/// (not starting with one) contains a doubled slash, neither does the
/// joined path.
pub proof fn lemma_join_no_double_slash(path: Seq<char>, rel: Seq<char>)
    requires
        !has_double_slash(path),
        !has_double_slash(rel),
        path.len() > 0,
        path.last() == '/',
        rel.len() == 0 || rel[0] != '/',
    ensures
        !has_double_slash(path + rel),
{
    let joined = path + rel;
    assert forall|i: int| 0 <= i && i + 1 < joined.len() implies !(#[trigger] joined[i] == '/'
        && joined[i + 1] == '/') by {
        if i + 1 < path.len() {
            assert(joined[i] == path[i]);
            assert(joined[i + 1] == path[i + 1]);
        } else if i < path.len() {
            assert(joined[i] == path[i]);
            assert(joined[i + 1] == rel[i + 1 - path.len()]);
            assert(i + 1 - path.len() == 0);
        } else {
            assert(joined[i] == rel[i - path.len()]);
            assert(joined[i + 1] == rel[i + 1 - path.len()]);
        }
    }
}

/// The scheme, host, port and serialized path that the URL parser
/// extracts from an absolute URL with a host; what it returns is a
/// function of the string alone. Nothing is assumed of the parts beyond
/// this name: every fact a caller needs is checked in verified code.
pub uninterp spec fn spec_url_parts(s: Seq<char>) -> Option<
    (Seq<char>, Seq<char>, Option<u16>, Seq<char>),
>;

/// Relies on url::Url::parse (with the accessors scheme, host_str, port
/// and path) for splitting an absolute URL into scheme, host, port and
/// path; returns nothing for a relative or unparsable URL or one without
/// a host. The parse depends on its argument alone, so its result bears
/// the name `spec_url_parts`.
#[verifier::external_body]
fn parse_url_parts(s: &str) -> (r: Option<(String, String, Option<u16>, String)>)
    ensures
        r is Some <==> spec_url_parts(s@) is Some,
        r matches Some(p) ==> (spec_url_parts(s@) matches Some(q) && p.0@ == q.0 && p.1@ == q.1
            && p.2 == q.2 && p.3@ == q.3),
{
    match url::Url::parse(s) {
        Ok(u) => {
            let host = match u.host_str() {
                Some(h) => h.to_string(),
                None => {
                    return None;
                },
            };
            Some((u.scheme().to_string(), host, u.port(), u.path().to_string()))
        },
        Err(_) => None,
    }
}

/// Whether the extracted parts of `s` make a well-formed base: an
/// absolute URL with a host whose parts are ASCII, none empty, and whose
/// path starts with a slash.
pub open spec fn spec_base_url_ok(s: Seq<char>) -> bool {
    spec_url_parts(s) matches Some(q) && {
        &&& vstd::utf8::is_ascii_chars(q.0)
        &&& vstd::utf8::is_ascii_chars(q.1)
        &&& vstd::utf8::is_ascii_chars(q.3)
        &&& q.0.len() > 0
        &&& q.1.len() > 0
        &&& q.3.len() > 0
        &&& q.3[0] == '/'
    }
}

/// Parses an absolute URL into its parts: it succeeds exactly when the
/// parser yields parts that make a well-formed base, and the result's
/// fields are those parts. Well-formedness is checked here, not assumed
/// of the URL parser.
pub fn parse_base_url(s: &str) -> (r: Option<BaseUrl>)
    ensures
        r is Some <==> spec_base_url_ok(s@),
        r matches Some(b) ==> (b.wf() && (spec_url_parts(s@) matches Some(q) && b.scheme@ == q.0
            && b.host@ == q.1 && b.port == q.2 && b.path@ == q.3)),
{
    let parts = match parse_url_parts(s) {
        Some(p) => p,
        None => {
            return None;
        },
    };
    let (scheme, host, port, path) = parts;
    if !scheme.as_str().is_ascii() || !host.as_str().is_ascii() || !path.as_str().is_ascii() {
        return None;
    }
    let scheme_len = scheme.as_str().unicode_len();
    let host_len = host.as_str().unicode_len();
    let path_len = path.as_str().unicode_len();
    if scheme_len == 0 || host_len == 0 || path_len == 0 {
        return None;
    }
    proof {
        reveal_strlit("/");
    }
    if path.as_str().get_char(0) != '/' {
        return None;
    }
    Some(BaseUrl { scheme, host, port, path })
}

} // verus!
