//! The JSON wire form of the error envelope: a verified encoder and a
//! verified strict decoder for `{"code":...,"msg":...,"meta":{...}}`,
//! together with a round-trip law.
//!
//! The envelope is always JSON, in the canonical shape this crate itself
//! emits: fields in the order `code`, `msg`, `meta`, `meta` omitted when
//! empty, strings escaped with `\"`, `\\` and `\u00XX` for control bytes.

use vstd::prelude::*;

verus! {

use vstd::utf8::{valid_utf8, decode_utf8, encode_utf8};
use vstd::string::StringSliceAdditionalSpecFns;
use vstd::string::StrSliceExecFns;
use crate::error::{TwirpErrorCode, TwirpErrorResponse, MetaMap, spec_twirp_code};

broadcast use {
    vstd::utf8::encode_utf8_valid_utf8,
    vstd::utf8::encode_utf8_decode_utf8,
    vstd::utf8::decode_utf8_encode_utf8,
};

/// The byte of the lowercase hex digit for `d`.
pub open spec fn spec_hex_digit(d: int) -> u8
    recommends
        0 <= d < 16,
{
    if d < 10 {
        (48 + d) as u8
    } else {
        (87 + d) as u8
    }
}

/// How one byte of string content is written inside a JSON string:
/// quote and backslash get a backslash escape, control bytes become
/// `\u00XX`, everything else is written as itself.
pub open spec fn esc_byte(b: u8) -> Seq<u8> {
    if b == 34 {
        seq![92u8, 34u8]
    } else if b == 92 {
        seq![92u8, 92u8]
    } else if b < 32 {
        seq![92u8, 117u8, 48u8, 48u8, spec_hex_digit(b as int / 16), spec_hex_digit(b as int % 16)]
    } else {
        seq![b]
    }
}

/// The escaped form of a whole byte string.
pub open spec fn spec_escape(s: Seq<u8>) -> Seq<u8>
    decreases s.len(),
{
    if s.len() == 0 {
        Seq::empty()
    } else {
        esc_byte(s[0]) + spec_escape(s.drop_first())
    }
}

/// Escaping distributes over appending one byte at the end.
proof fn lemma_escape_snoc(s: Seq<u8>, b: u8)
    ensures
        spec_escape(s.push(b)) == spec_escape(s) + esc_byte(b),
    decreases s.len(),
{
    if s.len() == 0 {
        assert(s.push(b)[0] == b);
        assert(s.push(b).drop_first() =~= Seq::<u8>::empty());
        assert(spec_escape(Seq::<u8>::empty()) =~= Seq::<u8>::empty());
        assert(spec_escape(s.push(b)) == esc_byte(b) + spec_escape(Seq::<u8>::empty()));
        assert(esc_byte(b) + Seq::<u8>::empty() =~= esc_byte(b));
        assert(spec_escape(s) =~= Seq::<u8>::empty());
        assert(Seq::<u8>::empty() + esc_byte(b) =~= esc_byte(b));
    } else {
        assert(s.push(b)[0] == s[0]);
        assert(s.push(b).drop_first() =~= s.drop_first().push(b));
        lemma_escape_snoc(s.drop_first(), b);
        assert(spec_escape(s.push(b)) == esc_byte(s[0]) + (spec_escape(s.drop_first())
            + esc_byte(b)));
        assert(esc_byte(s[0]) + (spec_escape(s.drop_first()) + esc_byte(b)) =~= (esc_byte(s[0])
            + spec_escape(s.drop_first())) + esc_byte(b));
    }
}

/// Appends `tok` to `out`.
fn push_bytes(out: &mut Vec<u8>, tok: &[u8])
    ensures
        final(out)@ == old(out)@ + tok@,
{
    out.extend_from_slice(tok);
}

/// Appends the escaped form of `s` to `out`.
fn escape_into(out: &mut Vec<u8>, s: &[u8])
    ensures
        final(out)@ == old(out)@ + spec_escape(s@),
{
    let ghost base = out@;
    let mut i: usize = 0;
    proof {
        assert(s@.take(0) =~= Seq::<u8>::empty());
        assert(base + spec_escape(s@.take(0)) =~= base);
    }
    while i < s.len()
        invariant
            0 <= i <= s@.len(),
            out@ == base + spec_escape(s@.take(i as int)),
        decreases s@.len() - i,
    {
        let b = s[i];
        if b == 34 {
            out.push(92);
            out.push(34);
        } else if b == 92 {
            out.push(92);
            out.push(92);
        } else if b < 32 {
            let hi = b / 16;
            let lo = b % 16;
            out.push(92);
            out.push(117);
            out.push(48);
            out.push(48);
            out.push(if hi < 10 {
                48 + hi
            } else {
                87 + hi
            });
            out.push(if lo < 10 {
                48 + lo
            } else {
                87 + lo
            });
        } else {
            out.push(b);
        }
        proof {
            assert(s@.take(i + 1) =~= s@.take(i as int).push(s@[i as int]));
            lemma_escape_snoc(s@.take(i as int), s@[i as int]);
            assert(out@ =~= base + spec_escape(s@.take(i + 1)));
        }
        i += 1;
    }
    proof {
        assert(s@.take(s@.len() as int) =~= s@);
    }
}

/// The wire form of one metadata entry: `"key":"value"`, both escaped.
pub open spec fn spec_meta_entry(e: (Seq<char>, Seq<char>)) -> Seq<u8> {
    encode_utf8("\""@) + spec_escape(encode_utf8(e.0)) + encode_utf8("\":\""@) + spec_escape(
        encode_utf8(e.1),
    ) + encode_utf8("\""@)
}

/// The wire form of a non-empty run of metadata entries, comma-separated,
/// in insertion order.
pub open spec fn spec_meta_body(entries: Seq<(Seq<char>, Seq<char>)>) -> Seq<u8>
    decreases entries.len(),
{
    if entries.len() == 0 {
        Seq::empty()
    } else if entries.len() == 1 {
        spec_meta_entry(entries[0])
    } else {
        spec_meta_entry(entries[0]) + encode_utf8(","@) + spec_meta_body(entries.drop_first())
    }
}

/// The canonical JSON wire form of an error envelope with the given code,
/// message and metadata.
pub open spec fn spec_encode_error_parts(
    code: TwirpErrorCode,
    msg: Seq<char>,
    meta: Seq<(Seq<char>, Seq<char>)>,
) -> Seq<u8> {
    encode_utf8("{\"code\":\""@) + spec_escape(encode_utf8(spec_twirp_code(code))) + encode_utf8(
        "\",\"msg\":\""@,
    ) + spec_escape(encode_utf8(msg)) + encode_utf8("\""@) + (if meta.len() == 0 {
        Seq::<u8>::empty()
    } else {
        encode_utf8(",\"meta\":{"@) + spec_meta_body(meta) + encode_utf8("}"@)
    }) + encode_utf8("}"@)
}

/// The canonical JSON wire form of an error response. Only `code`, `msg`
/// and a non-empty `meta` appear; `retry_after` and `rust_error` never do.
pub open spec fn spec_encode_error(e: TwirpErrorResponse) -> Seq<u8> {
    spec_encode_error_parts(e.code, e.msg@, e.meta@)
}

/// The meta body grows at the end when an entry is appended.
proof fn lemma_meta_body_snoc(entries: Seq<(Seq<char>, Seq<char>)>, e: (Seq<char>, Seq<char>))
    ensures
        spec_meta_body(entries.push(e)) == if entries.len() == 0 {
            spec_meta_entry(e)
        } else {
            spec_meta_body(entries) + encode_utf8(","@) + spec_meta_entry(e)
        },
    decreases entries.len(),
{
    let s = entries.push(e);
    if entries.len() == 0 {
        assert(s[0] == e);
    } else {
        assert(s[0] == entries[0]);
        assert(s.drop_first() =~= entries.drop_first().push(e));
        lemma_meta_body_snoc(entries.drop_first(), e);
        if entries.len() == 1 {
            assert(spec_meta_body(s) == spec_meta_entry(entries[0]) + encode_utf8(","@)
                + spec_meta_entry(e));
            assert(spec_meta_body(entries) == spec_meta_entry(entries[0]));
        } else {
            assert(spec_meta_body(s) == spec_meta_entry(entries[0]) + encode_utf8(","@) + (
            spec_meta_body(entries.drop_first()) + encode_utf8(","@) + spec_meta_entry(e)));
            assert(spec_meta_body(entries.push(e)) =~= (spec_meta_entry(entries[0]) + encode_utf8(
                ","@,
            ) + spec_meta_body(entries.drop_first())) + encode_utf8(","@) + spec_meta_entry(e));
        }
    }
}

/// Appends the wire form of one metadata entry to `out`.
fn encode_meta_entry_into(out: &mut Vec<u8>, key: &str, value: &str)
    ensures
        final(out)@ == old(out)@ + spec_meta_entry((key@, value@)),
{
    push_bytes(out, "\"".as_bytes());
    escape_into(out, key.as_bytes());
    push_bytes(out, "\":\"".as_bytes());
    escape_into(out, value.as_bytes());
    push_bytes(out, "\"".as_bytes());
    proof {
        assert(final(out)@ =~= old(out)@ + spec_meta_entry((key@, value@)));
    }
}

/// Serializes an error response to its canonical JSON wire form.
pub fn encode_error_response(e: &TwirpErrorResponse) -> (r: Vec<u8>)
    ensures
        r@ == spec_encode_error(*e),
{
    let mut out: Vec<u8> = Vec::new();
    push_bytes(&mut out, "{\"code\":\"".as_bytes());
    escape_into(&mut out, e.code.twirp_code().as_bytes());
    push_bytes(&mut out, "\",\"msg\":\"".as_bytes());
    escape_into(&mut out, e.msg.as_str().as_bytes());
    push_bytes(&mut out, "\"".as_bytes());
    let n = e.meta.len();
    if n > 0 {
        push_bytes(&mut out, ",\"meta\":{".as_bytes());
        let ghost mid = out@;
        let mut i: usize = 0;
        proof {
            assert(e.meta@.take(0) =~= Seq::<(Seq<char>, Seq<char>)>::empty());
            assert(mid + spec_meta_body(e.meta@.take(0)) =~= mid);
        }
        while i < n
            invariant
                0 <= i <= e.meta@.len(),
                n == e.meta@.len(),
                out@ == mid + spec_meta_body(e.meta@.take(i as int)),
            decreases e.meta@.len() - i,
        {
            if i > 0 {
                push_bytes(&mut out, ",".as_bytes());
            }
            let (key, value) = e.meta.entry(i);
            encode_meta_entry_into(&mut out, key.as_str(), value.as_str());
            proof {
                assert(e.meta@.take(i + 1) =~= e.meta@.take(i as int).push(e.meta@[i as int]));
                lemma_meta_body_snoc(e.meta@.take(i as int), e.meta@[i as int]);
                assert(out@ =~= mid + spec_meta_body(e.meta@.take(i + 1)));
            }
            i += 1;
        }
        push_bytes(&mut out, "}".as_bytes());
        proof {
            assert(e.meta@.take(n as int) =~= e.meta@);
        }
    }
    push_bytes(&mut out, "}".as_bytes());
    proof {
        assert(out@ =~= spec_encode_error(*e));
    }
    out
}

/// Whether `b` is a hex digit byte, either case.
pub open spec fn is_hex_digit(b: u8) -> bool {
    (48 <= b <= 57) || (97 <= b <= 102) || (65 <= b <= 70)
}

/// The value of a hex digit byte, either case.
pub open spec fn hex_val(b: u8) -> int
    recommends
        is_hex_digit(b),
{
    if b < 58 {
        b - 48
    } else if b < 71 {
        b - 55
    } else {
        b - 87
    }
}

/// Whether `b` is insignificant JSON whitespace.
pub open spec fn sp_is_ws(b: u8) -> bool {
    b == 32 || b == 9 || b == 10 || b == 13
}

/// The first position at or after `i` that does not hold whitespace.
pub open spec fn sp_skip_ws(s: Seq<u8>, i: int) -> int
    decreases s.len() - i,
{
    if 0 <= i && i < s.len() && sp_is_ws(s[i]) {
        sp_skip_ws(s, i + 1)
    } else {
        i
    }
}

/// Skipping whitespace stays within the input.
proof fn lemma_sp_skip_ws_bounds(s: Seq<u8>, i: int)
    requires
        0 <= i <= s.len(),
    ensures
        i <= sp_skip_ws(s, i) <= s.len(),
    decreases s.len() - i,
{
    if i < s.len() && sp_is_ws(s[i]) {
        lemma_sp_skip_ws_bounds(s, i + 1);
    }
}

/// The UTF-8 encoding of one code point.
pub open spec fn spec_utf8_of(cp: int) -> Seq<u8>
    recommends
        0 <= cp < 0x110000,
{
    if cp < 0x80 {
        seq![cp as u8]
    } else if cp < 0x800 {
        seq![(0xC0 + cp / 64) as u8, (0x80 + cp % 64) as u8]
    } else if cp < 0x10000 {
        seq![(0xE0 + cp / 4096) as u8, (0x80 + (cp / 64) % 64) as u8, (0x80 + cp % 64) as u8]
    } else {
        seq![
            (0xF0 + cp / 262144) as u8,
            (0x80 + (cp / 4096) % 64) as u8,
            (0x80 + (cp / 64) % 64) as u8,
            (0x80 + cp % 64) as u8,
        ]
    }
}

/// The code point of four hex digit bytes.
pub open spec fn sp_hex4(s: Seq<u8>, i: int) -> int {
    hex_val(s[i]) * 4096 + hex_val(s[i + 1]) * 256 + hex_val(s[i + 2]) * 16 + hex_val(s[i + 3])
}

/// Whether four hex digit bytes stand at `i`.
pub open spec fn sp_hex4_ok(s: Seq<u8>, i: int) -> bool {
    &&& i + 4 <= s.len()
    &&& is_hex_digit(s[i])
    &&& is_hex_digit(s[i + 1])
    &&& is_hex_digit(s[i + 2])
    &&& is_hex_digit(s[i + 3])
}

/// Prepends already-consumed content to a string-body parse.
pub open spec fn sp_prepend(pre: Seq<u8>, o: Option<(Seq<u8>, int)>) -> Option<(Seq<u8>, int)> {
    match o {
        Some(p) => Some((pre + p.0, p.1)),
        None => None,
    }
}

/// Parses the body of a JSON string from position `i` (the opening quote
/// already consumed) up to and including the closing quote. Returns the
/// unescaped content bytes and the position after the closing quote.
/// Accepts the escapes `\"`, `\\`, `\/`, `\b`, `\t`, `\n`, `\f`, `\r`, and
/// `\uXXXX` with hex digits of either case, including surrogate pairs for
/// code points beyond the basic plane; raw control bytes are refused.
pub open spec fn sp_str_body(s: Seq<u8>, i: int) -> Option<(Seq<u8>, int)>
    decreases s.len() - i,
{
    if i < 0 || i >= s.len() {
        None
    } else {
        let b = s[i];
        if b == 34 {
            Some((Seq::empty(), i + 1))
        } else if b == 92 {
            if i + 1 < s.len() {
                let e = s[i + 1];
                if e == 34 {
                    sp_prepend(seq![34u8], sp_str_body(s, i + 2))
                } else if e == 92 {
                    sp_prepend(seq![92u8], sp_str_body(s, i + 2))
                } else if e == 47 {
                    sp_prepend(seq![47u8], sp_str_body(s, i + 2))
                } else if e == 98 {
                    sp_prepend(seq![8u8], sp_str_body(s, i + 2))
                } else if e == 116 {
                    sp_prepend(seq![9u8], sp_str_body(s, i + 2))
                } else if e == 110 {
                    sp_prepend(seq![10u8], sp_str_body(s, i + 2))
                } else if e == 102 {
                    sp_prepend(seq![12u8], sp_str_body(s, i + 2))
                } else if e == 114 {
                    sp_prepend(seq![13u8], sp_str_body(s, i + 2))
                } else if e == 117 {
                    if sp_hex4_ok(s, i + 2) {
                        let v = sp_hex4(s, i + 2);
                        if 0xD800 <= v < 0xDC00 {
                            if i + 12 <= s.len() && s[i + 6] == 92 && s[i + 7] == 117
                                && sp_hex4_ok(s, i + 8) && 0xDC00 <= sp_hex4(s, i + 8) < 0xE000 {
                                sp_prepend(
                                    spec_utf8_of(
                                        0x10000 + (v - 0xD800) * 1024 + (sp_hex4(s, i + 8)
                                            - 0xDC00),
                                    ),
                                    sp_str_body(s, i + 12),
                                )
                            } else {
                                None
                            }
                        } else if 0xDC00 <= v < 0xE000 {
                            None
                        } else {
                            sp_prepend(spec_utf8_of(v), sp_str_body(s, i + 6))
                        }
                    } else {
                        None
                    }
                } else {
                    None
                }
            } else {
                None
            }
        } else if b < 32 {
            None
        } else {
            sp_prepend(seq![b], sp_str_body(s, i + 1))
        }
    }
}

/// A successful string-body parse consumes at least the closing quote and
/// stays within the input.
proof fn lemma_sp_str_body_mono(s: Seq<u8>, i: int)
    requires
        sp_str_body(s, i) is Some,
    ensures
        sp_str_body(s, i) matches Some((t, j)) && i < j <= s.len(),
    decreases s.len() - i,
{
    let b = s[i];
    if b == 34 {
    } else if b == 92 {
        let e = s[i + 1];
        if e == 117 {
            let v = sp_hex4(s, i + 2);
            if 0xD800 <= v < 0xDC00 {
                lemma_sp_str_body_mono(s, i + 12);
            } else {
                lemma_sp_str_body_mono(s, i + 6);
            }
        } else {
            lemma_sp_str_body_mono(s, i + 2);
        }
    } else {
        lemma_sp_str_body_mono(s, i + 1);
    }
}

/// Expects the exact token `tok` at position `i`; returns the position
/// after it.
pub open spec fn sp_expect(s: Seq<u8>, i: int, tok: Seq<u8>) -> Option<int> {
    if 0 <= i && i + tok.len() <= s.len() && s.subrange(i, i + tok.len() as int) == tok {
        Some(i + tok.len() as int)
    } else {
        None
    }
}

/// Prepends already-parsed entries to a metadata-entries parse.
pub open spec fn sp_entries_prepend(
    pre: Seq<(Seq<u8>, Seq<u8>)>,
    o: Option<(Seq<(Seq<u8>, Seq<u8>)>, int)>,
) -> Option<(Seq<(Seq<u8>, Seq<u8>)>, int)> {
    match o {
        Some(p) => Some((pre + p.0, p.1)),
        None => None,
    }
}

/// Parses one or more `"key":"value"` entries from position `i`, separated
/// by commas and terminated by a closing brace (consumed). Returns the
/// entries (still as unescaped bytes) and the position after the brace.
/// Expects the exact token `tok` after any insignificant whitespace at
/// position `i`; returns the position after it.
pub open spec fn sp_expect_ws(s: Seq<u8>, i: int, tok: Seq<u8>) -> Option<int> {
    sp_expect(s, sp_skip_ws(s, i), tok)
}

/// Parses one or more `"key":"value"` entries from position `i`,
/// separated by commas and terminated by a closing brace (consumed), with
/// insignificant whitespace allowed around the tokens. Returns the
/// entries (still as unescaped bytes) and the position after the brace.
pub open spec fn sp_meta_entries(s: Seq<u8>, i: int) -> Option<(Seq<(Seq<u8>, Seq<u8>)>, int)>
    decreases s.len() - i,
{
    let i0 = sp_skip_ws(s, i);
    if i0 < 0 || i0 >= s.len() {
        None
    } else if s[i0] != 34 {
        None
    } else {
        match sp_str_body(s, i0 + 1) {
            Some((key, j)) => match sp_expect_ws(s, j, encode_utf8(":"@)) {
                Some(j1) => match sp_expect_ws(s, j1, encode_utf8("\""@)) {
                    Some(j2) => match sp_str_body(s, j2) {
                        Some((value, j3)) => {
                            let j4 = sp_skip_ws(s, j3);
                            if j4 < s.len() && s[j4] == 44 {
                                if i < j4 + 1 && j4 + 1 <= s.len() {
                                    sp_entries_prepend(
                                        seq![(key, value)],
                                        sp_meta_entries(s, j4 + 1),
                                    )
                                } else {
                                    None
                                }
                            } else if j4 < s.len() && s[j4] == 125 {
                                Some((seq![(key, value)], j4 + 1))
                            } else {
                                None
                            }
                        },
                        None => None,
                    },
                    None => None,
                },
                None => None,
            },
            None => None,
        }
    }
}

/// The error code whose wire name is exactly `s`.
pub open spec fn spec_code_from_name(s: Seq<u8>) -> Option<TwirpErrorCode> {
    if !valid_utf8(s) {
        None
    } else {
        let c = decode_utf8(s);
        if c == "canceled"@ {
            Some(TwirpErrorCode::Canceled)
        } else if c == "unknown"@ {
            Some(TwirpErrorCode::Unknown)
        } else if c == "invalid_argument"@ {
            Some(TwirpErrorCode::InvalidArgument)
        } else if c == "malformed"@ {
            Some(TwirpErrorCode::Malformed)
        } else if c == "deadline_exceeded"@ {
            Some(TwirpErrorCode::DeadlineExceeded)
        } else if c == "not_found"@ {
            Some(TwirpErrorCode::NotFound)
        } else if c == "bad_route"@ {
            Some(TwirpErrorCode::BadRoute)
        } else if c == "already_exists"@ {
            Some(TwirpErrorCode::AlreadyExists)
        } else if c == "permission_denied"@ {
            Some(TwirpErrorCode::PermissionDenied)
        } else if c == "unauthenticated"@ {
            Some(TwirpErrorCode::Unauthenticated)
        } else if c == "resource_exhausted"@ {
            Some(TwirpErrorCode::ResourceExhausted)
        } else if c == "failed_precondition"@ {
            Some(TwirpErrorCode::FailedPrecondition)
        } else if c == "aborted"@ {
            Some(TwirpErrorCode::Aborted)
        } else if c == "out_of_range"@ {
            Some(TwirpErrorCode::OutOfRange)
        } else if c == "unimplemented"@ {
            Some(TwirpErrorCode::Unimplemented)
        } else if c == "internal"@ {
            Some(TwirpErrorCode::Internal)
        } else if c == "unavailable"@ {
            Some(TwirpErrorCode::Unavailable)
        } else if c == "dataloss"@ {
            Some(TwirpErrorCode::Dataloss)
        } else {
            None
        }
    }
}

/// Every code's wire name parses back to that code.
proof fn lemma_code_name_roundtrip(c: TwirpErrorCode)
    ensures
        spec_code_from_name(encode_utf8(spec_twirp_code(c))) == Some(c),
{
    reveal_strlit("canceled");
    reveal_strlit("unknown");
    reveal_strlit("invalid_argument");
    reveal_strlit("malformed");
    reveal_strlit("deadline_exceeded");
    reveal_strlit("not_found");
    reveal_strlit("bad_route");
    reveal_strlit("already_exists");
    reveal_strlit("permission_denied");
    reveal_strlit("unauthenticated");
    reveal_strlit("resource_exhausted");
    reveal_strlit("failed_precondition");
    reveal_strlit("aborted");
    reveal_strlit("out_of_range");
    reveal_strlit("unimplemented");
    reveal_strlit("internal");
    reveal_strlit("unavailable");
    reveal_strlit("dataloss");
    let name = spec_twirp_code(c);
    vstd::utf8::encode_utf8_valid_utf8(name);
    vstd::utf8::encode_utf8_decode_utf8(name);
    assert(decode_utf8(encode_utf8(name)) == name);
}

/// Looks a parsed code name up in the canonical list.
fn code_for_name(name: &[u8]) -> (r: Option<TwirpErrorCode>)
    ensures
        r == spec_code_from_name(name@),
{
    if crate::text::bytes_eq(name, "canceled".as_bytes()) {
        Some(TwirpErrorCode::Canceled)
    } else if crate::text::bytes_eq(name, "unknown".as_bytes()) {
        Some(TwirpErrorCode::Unknown)
    } else if crate::text::bytes_eq(name, "invalid_argument".as_bytes()) {
        Some(TwirpErrorCode::InvalidArgument)
    } else if crate::text::bytes_eq(name, "malformed".as_bytes()) {
        Some(TwirpErrorCode::Malformed)
    } else if crate::text::bytes_eq(name, "deadline_exceeded".as_bytes()) {
        Some(TwirpErrorCode::DeadlineExceeded)
    } else if crate::text::bytes_eq(name, "not_found".as_bytes()) {
        Some(TwirpErrorCode::NotFound)
    } else if crate::text::bytes_eq(name, "bad_route".as_bytes()) {
        Some(TwirpErrorCode::BadRoute)
    } else if crate::text::bytes_eq(name, "already_exists".as_bytes()) {
        Some(TwirpErrorCode::AlreadyExists)
    } else if crate::text::bytes_eq(name, "permission_denied".as_bytes()) {
        Some(TwirpErrorCode::PermissionDenied)
    } else if crate::text::bytes_eq(name, "unauthenticated".as_bytes()) {
        Some(TwirpErrorCode::Unauthenticated)
    } else if crate::text::bytes_eq(name, "resource_exhausted".as_bytes()) {
        Some(TwirpErrorCode::ResourceExhausted)
    } else if crate::text::bytes_eq(name, "failed_precondition".as_bytes()) {
        Some(TwirpErrorCode::FailedPrecondition)
    } else if crate::text::bytes_eq(name, "aborted".as_bytes()) {
        Some(TwirpErrorCode::Aborted)
    } else if crate::text::bytes_eq(name, "out_of_range".as_bytes()) {
        Some(TwirpErrorCode::OutOfRange)
    } else if crate::text::bytes_eq(name, "unimplemented".as_bytes()) {
        Some(TwirpErrorCode::Unimplemented)
    } else if crate::text::bytes_eq(name, "internal".as_bytes()) {
        Some(TwirpErrorCode::Internal)
    } else if crate::text::bytes_eq(name, "unavailable".as_bytes()) {
        Some(TwirpErrorCode::Unavailable)
    } else if crate::text::bytes_eq(name, "dataloss".as_bytes()) {
        Some(TwirpErrorCode::Dataloss)
    } else {
        proof {
            if valid_utf8(name@) {
                vstd::utf8::decode_utf8_encode_utf8(name@);
            }
        }
        None
    }
}

/// Prepending distributes over concatenation of consumed content.
proof fn lemma_sp_prepend_assoc(a: Seq<u8>, b: Seq<u8>, o: Option<(Seq<u8>, int)>)
    ensures
        sp_prepend(a, sp_prepend(b, o)) == sp_prepend(a + b, o),
{
    match o {
        Some(p) => {
            assert(a + (b + p.0) =~= (a + b) + p.0);
        },
        None => {},
    }
}

/// Checks for the exact token `tok` at position `i`.
fn expect(s: &[u8], i: usize, tok: &[u8]) -> (r: Option<usize>)
    ensures
        match r {
            Some(j) => sp_expect(s@, i as int, tok@) == Some(j as int) && j <= s@.len(),
            None => sp_expect(s@, i as int, tok@) is None,
        },
{
    if i > s.len() || s.len() - i < tok.len() {
        return None;
    }
    let sub = &s[i..i + tok.len()];
    if crate::text::bytes_eq(sub, tok) {
        Some(i + tok.len())
    } else {
        None
    }
}

/// Advances over insignificant whitespace.
fn skip_ws(s: &[u8], start: usize) -> (r: usize)
    requires
        start <= s@.len(),
    ensures
        r as int == sp_skip_ws(s@, start as int),
        start <= r <= s@.len(),
{
    let mut i = start;
    while i < s.len() && (s[i] == 32 || s[i] == 9 || s[i] == 10 || s[i] == 13)
        invariant
            start <= i <= s@.len(),
            sp_skip_ws(s@, start as int) == sp_skip_ws(s@, i as int),
        decreases s@.len() - i,
    {
        i += 1;
    }
    i
}

/// Checks for the exact token `tok` after any whitespace at position `i`.
fn expect_ws(s: &[u8], i: usize, tok: &[u8]) -> (r: Option<usize>)
    requires
        i <= s@.len(),
    ensures
        match r {
            Some(j) => sp_expect_ws(s@, i as int, tok@) == Some(j as int) && j <= s@.len(),
            None => sp_expect_ws(s@, i as int, tok@) is None,
        },
{
    let j = skip_ws(s, i);
    expect(s, j, tok)
}

/// The value of one hex digit byte, either case.
fn hex_digit_val(b: u8) -> (r: Option<u8>)
    ensures
        match r {
            Some(v) => is_hex_digit(b) && v == hex_val(b),
            None => !is_hex_digit(b),
        },
{
    if 48 <= b && b <= 57 {
        Some(b - 48)
    } else if 97 <= b && b <= 102 {
        Some(b - 87)
    } else if 65 <= b && b <= 70 {
        Some(b - 55)
    } else {
        None
    }
}

/// Reads four hex digit bytes at `i` as a code unit.
fn read_hex4(s: &[u8], i: usize) -> (r: Option<u32>)
    ensures
        match r {
            Some(v) => sp_hex4_ok(s@, i as int) && v == sp_hex4(s@, i as int) && v < 0x10000,
            None => !sp_hex4_ok(s@, i as int),
        },
{
    if i > s.len() || s.len() - i < 4 {
        return None;
    }
    let d0 = match hex_digit_val(s[i]) {
        Some(d) => d,
        None => {
            return None;
        },
    };
    let d1 = match hex_digit_val(s[i + 1]) {
        Some(d) => d,
        None => {
            return None;
        },
    };
    let d2 = match hex_digit_val(s[i + 2]) {
        Some(d) => d,
        None => {
            return None;
        },
    };
    let d3 = match hex_digit_val(s[i + 3]) {
        Some(d) => d,
        None => {
            return None;
        },
    };
    Some((d0 as u32) * 4096 + (d1 as u32) * 256 + (d2 as u32) * 16 + (d3 as u32))
}

/// Appends the UTF-8 encoding of one code point.
fn push_utf8(acc: &mut Vec<u8>, cp: u32)
    requires
        cp < 0x110000,
    ensures
        final(acc)@ == old(acc)@ + spec_utf8_of(cp as int),
{
    if cp < 0x80 {
        acc.push(cp as u8);
        proof {
            assert(final(acc)@ =~= old(acc)@ + spec_utf8_of(cp as int));
        }
    } else if cp < 0x800 {
        acc.push((0xC0 + cp / 64) as u8);
        acc.push((0x80 + cp % 64) as u8);
        proof {
            assert(final(acc)@ =~= old(acc)@ + spec_utf8_of(cp as int));
        }
    } else if cp < 0x10000 {
        acc.push((0xE0 + cp / 4096) as u8);
        acc.push((0x80 + (cp / 64) % 64) as u8);
        acc.push((0x80 + cp % 64) as u8);
        proof {
            assert(final(acc)@ =~= old(acc)@ + spec_utf8_of(cp as int));
        }
    } else {
        acc.push((0xF0 + cp / 262144) as u8);
        acc.push((0x80 + (cp / 4096) % 64) as u8);
        acc.push((0x80 + (cp / 64) % 64) as u8);
        acc.push((0x80 + cp % 64) as u8);
        proof {
            assert(final(acc)@ =~= old(acc)@ + spec_utf8_of(cp as int));
        }
    }
}

/// Parses a JSON string body (opening quote already consumed) and returns
/// the unescaped content and the position after the closing quote.
#[verifier::rlimit(100)]
#[verifier::spinoff_prover]
fn parse_str_body(s: &[u8], start: usize) -> (r: Option<(Vec<u8>, usize)>)
    ensures
        match r {
            Some(p) => sp_str_body(s@, start as int) == Some((p.0@, p.1 as int)) && p.1
                <= s@.len(),
            None => sp_str_body(s@, start as int) is None,
        },
{
    let mut acc: Vec<u8> = Vec::new();
    let mut i = start;
    proof {
        assert(sp_prepend(Seq::<u8>::empty(), sp_str_body(s@, start as int)) == sp_str_body(
            s@,
            start as int,
        )) by {
            match sp_str_body(s@, start as int) {
                Some(p) => {
                    assert(Seq::<u8>::empty() + p.0 =~= p.0);
                },
                None => {},
            }
        }
    }
    loop
        invariant
            i >= start,
            sp_str_body(s@, start as int) == sp_prepend(acc@, sp_str_body(s@, i as int)),
        decreases s@.len() - i,
    {
        if i >= s.len() {
            return None;
        }
        let b = s[i];
        if b == 34 {
            proof {
                assert(acc@ + Seq::<u8>::empty() =~= acc@);
            }
            return Some((acc, i + 1));
        } else if b == 92 {
            if i + 1 >= s.len() {
                return None;
            }
            let e = s[i + 1];
            let simple: Option<u8> = if e == 34 {
                Some(34)
            } else if e == 92 {
                Some(92)
            } else if e == 47 {
                Some(47)
            } else if e == 98 {
                Some(8)
            } else if e == 116 {
                Some(9)
            } else if e == 110 {
                Some(10)
            } else if e == 102 {
                Some(12)
            } else if e == 114 {
                Some(13)
            } else {
                None
            };
            match simple {
                Some(c) => {
                    proof {
                        lemma_sp_prepend_assoc(acc@, seq![c], sp_str_body(s@, i + 2));
                        assert(acc@.push(c) =~= acc@ + seq![c]);
                    }
                    acc.push(c);
                    i += 2;
                },
                None => {
                    if e != 117 {
                        return None;
                    }
                    let v = match read_hex4(s, i + 2) {
                        Some(v) => v,
                        None => {
                            return None;
                        },
                    };
                    if 0xD800 <= v && v < 0xDC00 {
                        if s.len() - i < 12 {
                            return None;
                        }
                        if s[i + 6] != 92 || s[i + 7] != 117 {
                            return None;
                        }
                        let w = match read_hex4(s, i + 8) {
                            Some(w) => w,
                            None => {
                                return None;
                            },
                        };
                        if !(0xDC00 <= w && w < 0xE000) {
                            return None;
                        }
                        let cp: u32 = 0x10000 + (v - 0xD800) * 1024 + (w - 0xDC00);
                        let ghost pre = acc@;
                        push_utf8(&mut acc, cp);
                        proof {
                            lemma_sp_prepend_assoc(
                                pre,
                                spec_utf8_of(cp as int),
                                sp_str_body(s@, i + 12),
                            );
                        }
                        i += 12;
                    } else if 0xDC00 <= v && v < 0xE000 {
                        return None;
                    } else {
                        let ghost pre = acc@;
                        push_utf8(&mut acc, v);
                        proof {
                            lemma_sp_prepend_assoc(
                                pre,
                                spec_utf8_of(v as int),
                                sp_str_body(s@, i + 6),
                            );
                        }
                        i += 6;
                    }
                },
            }
        } else if b < 32 {
            return None;
        } else {
            proof {
                lemma_sp_prepend_assoc(acc@, seq![b], sp_str_body(s@, i + 1));
                assert(acc@.push(b) =~= acc@ + seq![b]);
            }
            acc.push(b);
            i += 1;
        }
    }
}

/// The byte-level entries already parsed, as ghost sequences.
pub open spec fn pairs_view(v: Seq<(Vec<u8>, Vec<u8>)>) -> Seq<(Seq<u8>, Seq<u8>)> {
    Seq::new(v.len(), |k: int| (v[k].0@, v[k].1@))
}

/// Prepending distributes over concatenation of parsed entries.
proof fn lemma_sp_entries_prepend_assoc(
    a: Seq<(Seq<u8>, Seq<u8>)>,
    b: Seq<(Seq<u8>, Seq<u8>)>,
    o: Option<(Seq<(Seq<u8>, Seq<u8>)>, int)>,
)
    ensures
        sp_entries_prepend(a, sp_entries_prepend(b, o)) == sp_entries_prepend(a + b, o),
{
    match o {
        Some(p) => {
            assert(a + (b + p.0) =~= (a + b) + p.0);
        },
        None => {},
    }
}

/// Parses the metadata entries and their terminating brace.
#[verifier::rlimit(100)]
#[verifier::spinoff_prover]
fn parse_meta_entries(s: &[u8], start: usize) -> (r: Option<(Vec<(Vec<u8>, Vec<u8>)>, usize)>)
    requires
        start <= s@.len(),
    ensures
        match r {
            Some(p) => sp_meta_entries(s@, start as int) == Some((pairs_view(p.0@), p.1 as int))
                && p.1 <= s@.len(),
            None => sp_meta_entries(s@, start as int) is None,
        },
{
    let mut acc: Vec<(Vec<u8>, Vec<u8>)> = Vec::new();
    let mut i = start;
    proof {
        assert(sp_entries_prepend(pairs_view(acc@), sp_meta_entries(s@, start as int))
            == sp_meta_entries(s@, start as int)) by {
            assert(pairs_view(acc@) =~= Seq::<(Seq<u8>, Seq<u8>)>::empty());
            match sp_meta_entries(s@, start as int) {
                Some(p) => {
                    assert(pairs_view(acc@) + p.0 =~= p.0);
                },
                None => {},
            }
        }
    }
    loop
        invariant
            start <= i <= s@.len(),
            sp_meta_entries(s@, start as int) == sp_entries_prepend(
                pairs_view(acc@),
                sp_meta_entries(s@, i as int),
            ),
        decreases s@.len() - i,
    {
        let i0 = skip_ws(s, i);
        if i0 >= s.len() {
            return None;
        }
        if s[i0] != 34 {
            return None;
        }
        let key = match parse_str_body(s, i0 + 1) {
            Some(p) => p,
            None => {
                return None;
            },
        };
        let j = key.1;
        let j1 = match expect_ws(s, j, ":".as_bytes()) {
            Some(x) => x,
            None => {
                return None;
            },
        };
        let j2 = match expect_ws(s, j1, "\"".as_bytes()) {
            Some(x) => x,
            None => {
                return None;
            },
        };
        let value = match parse_str_body(s, j2) {
            Some(p) => p,
            None => {
                return None;
            },
        };
        let j3 = value.1;
        let j4 = skip_ws(s, j3);
        if j4 < s.len() && s[j4] == 44 {
            proof {
                lemma_sp_str_body_mono(s@, i0 + 1);
                lemma_sp_str_body_mono(s@, j2 as int);
                lemma_sp_skip_ws_bounds(s@, j as int);
                lemma_sp_skip_ws_bounds(s@, j1 as int);
                lemma_sp_skip_ws_bounds(s@, j3 as int);
                lemma_sp_entries_prepend_assoc(
                    pairs_view(acc@),
                    seq![(key.0@, value.0@)],
                    sp_meta_entries(s@, j4 + 1),
                );
                assert(pairs_view(acc@.push((key.0, value.0))) =~= pairs_view(acc@)
                    + seq![(key.0@, value.0@)]) by {
                    assert(pairs_view(acc@).push((key.0@, value.0@)) =~= pairs_view(acc@)
                        + seq![(key.0@, value.0@)]);
                    assert(pairs_view(acc@.push((key.0, value.0))) =~= pairs_view(
                        acc@,
                    ).push((key.0@, value.0@)));
                }
            }
            acc.push((key.0, value.0));
            i = j4 + 1;
        } else if j4 < s.len() && s[j4] == 125 {
            proof {
                assert(pairs_view(acc@.push((key.0, value.0))) =~= pairs_view(acc@)
                    + seq![(key.0@, value.0@)]) by {
                    assert(pairs_view(acc@).push((key.0@, value.0@)) =~= pairs_view(acc@)
                        + seq![(key.0@, value.0@)]);
                    assert(pairs_view(acc@.push((key.0, value.0))) =~= pairs_view(
                        acc@,
                    ).push((key.0@, value.0@)));
                }
            }
            acc.push((key.0, value.0));
            return Some((acc, j4 + 1));
        } else {
            return None;
        }
    }
}

/// Whether every parsed entry is valid UTF-8 on both sides.
pub open spec fn entries_utf8_ok(entries: Seq<(Seq<u8>, Seq<u8>)>) -> bool {
    forall|k: int|
        0 <= k < entries.len() ==> valid_utf8((#[trigger] entries[k]).0) && valid_utf8(
            entries[k].1,
        )
}

/// The parsed entries as character sequences.
pub open spec fn entries_decoded(entries: Seq<(Seq<u8>, Seq<u8>)>) -> Seq<(Seq<char>, Seq<char>)> {
    Seq::new(entries.len(), |k: int| (decode_utf8(entries[k].0), decode_utf8(entries[k].1)))
}

/// Whether no two entries share a key.
pub open spec fn unique_keys(entries: Seq<(Seq<char>, Seq<char>)>) -> bool {
    forall|i: int, j: int| 0 <= i < j < entries.len() ==> entries[i].0 != entries[j].0
}

/// Parses the canonical JSON error envelope: the code, the message and the
/// metadata entries, which must fill the whole input.
/// Parses what follows the message of the envelope: either the closing
/// brace, or a `meta` member (possibly an empty object) and the closing
/// brace, with insignificant whitespace allowed; the input must then be
/// exhausted.
pub open spec fn sp_parse_tail(
    s: Seq<u8>,
    i: int,
    code: TwirpErrorCode,
    msg: Seq<char>,
) -> Option<(TwirpErrorCode, Seq<char>, Seq<(Seq<char>, Seq<char>)>)> {
    match sp_expect_ws(s, i, encode_utf8("}"@)) {
        Some(j) => if sp_skip_ws(s, j) == s.len() {
            Some((code, msg, Seq::empty()))
        } else {
            None
        },
        None => match sp_expect_ws(s, i, encode_utf8(","@)) {
            Some(i1) => match sp_expect_ws(s, i1, encode_utf8("\"meta\""@)) {
                Some(i2) => match sp_expect_ws(s, i2, encode_utf8(":"@)) {
                    Some(i3) => match sp_expect_ws(s, i3, encode_utf8("{"@)) {
                        Some(i4) => match sp_expect_ws(s, i4, encode_utf8("}"@)) {
                            Some(j2) => match sp_expect_ws(s, j2, encode_utf8("}"@)) {
                                Some(j3) => if sp_skip_ws(s, j3) == s.len() {
                                    Some((code, msg, Seq::empty()))
                                } else {
                                    None
                                },
                                None => None,
                            },
                            None => match sp_meta_entries(s, i4) {
                                Some((entries, j2)) => match sp_expect_ws(
                                    s,
                                    j2,
                                    encode_utf8("}"@),
                                ) {
                                    Some(j3) => if sp_skip_ws(s, j3) == s.len()
                                        && entries_utf8_ok(entries) && unique_keys(
                                        entries_decoded(entries),
                                    ) {
                                        Some((code, msg, entries_decoded(entries)))
                                    } else {
                                        None
                                    },
                                    None => None,
                                },
                                None => None,
                            },
                        },
                        None => None,
                    },
                    None => None,
                },
                None => None,
            },
            None => None,
        },
    }
}

/// Parses the JSON error envelope: the code, the message and the metadata
/// entries, which must fill the whole input up to insignificant
/// whitespace.
pub open spec fn sp_parse_error(s: Seq<u8>) -> Option<
    (TwirpErrorCode, Seq<char>, Seq<(Seq<char>, Seq<char>)>),
> {
    match sp_expect_ws(s, 0, encode_utf8("{"@)) {
        Some(i1) => match sp_expect_ws(s, i1, encode_utf8("\"code\""@)) {
            Some(i2) => match sp_expect_ws(s, i2, encode_utf8(":"@)) {
                Some(i3) => match sp_expect_ws(s, i3, encode_utf8("\""@)) {
                    Some(i4) => match sp_str_body(s, i4) {
                        Some((code_b, i5)) => match spec_code_from_name(code_b) {
                            Some(code) => match sp_expect_ws(s, i5, encode_utf8(","@)) {
                                Some(i6) => match sp_expect_ws(s, i6, encode_utf8("\"msg\""@)) {
                                    Some(i7) => match sp_expect_ws(s, i7, encode_utf8(":"@)) {
                                        Some(i8) => match sp_expect_ws(
                                            s,
                                            i8,
                                            encode_utf8("\""@),
                                        ) {
                                            Some(i9) => match sp_str_body(s, i9) {
                                                Some((msg_b, i10)) => if valid_utf8(msg_b) {
                                                    sp_parse_tail(
                                                        s,
                                                        i10,
                                                        code,
                                                        decode_utf8(msg_b),
                                                    )
                                                } else {
                                                    None
                                                },
                                                None => None,
                                            },
                                            None => None,
                                        },
                                        None => None,
                                    },
                                    None => None,
                                },
                                None => None,
                            },
                            None => None,
                        },
                        None => None,
                    },
                    None => None,
                },
                None => None,
            },
            None => None,
        },
        None => None,
    }
}

/// Relies on str::from_utf8: succeeds exactly on valid UTF-8, and the
/// returned string's bytes are exactly the input.
#[verifier::external_body]
fn bytes_to_str(bytes: &[u8]) -> (r: Option<&str>)
    ensures
        r is Some <==> valid_utf8(bytes@),
        r matches Some(s) ==> s.spec_bytes() == bytes@,
{
    core::str::from_utf8(bytes).ok()
}

/// Deserializes the canonical JSON error envelope. The result carries no
/// retry hint and no debug detail: neither crosses the wire.
#[verifier::loop_isolation(false)]
#[verifier::rlimit(100)]
#[verifier::spinoff_prover]
pub fn parse_error_response(bytes: &[u8]) -> (r: Option<TwirpErrorResponse>)
    ensures
        match r {
            Some(err) => {
                &&& sp_parse_error(bytes@) == Some((err.code, err.msg@, err.meta@))
                &&& err.wf()
                &&& err.retry_after is None
                &&& err.rust_error is None
            },
            None => sp_parse_error(bytes@) is None,
        },
{
    let i1 = match expect_ws(bytes, 0, "{".as_bytes()) {
        Some(x) => x,
        None => {
            return None;
        },
    };
    let i2 = match expect_ws(bytes, i1, "\"code\"".as_bytes()) {
        Some(x) => x,
        None => {
            return None;
        },
    };
    let i3 = match expect_ws(bytes, i2, ":".as_bytes()) {
        Some(x) => x,
        None => {
            return None;
        },
    };
    let i4 = match expect_ws(bytes, i3, "\"".as_bytes()) {
        Some(x) => x,
        None => {
            return None;
        },
    };
    let code_p = match parse_str_body(bytes, i4) {
        Some(p) => p,
        None => {
            return None;
        },
    };
    let code = match code_for_name(code_p.0.as_slice()) {
        Some(c) => c,
        None => {
            return None;
        },
    };
    let i6 = match expect_ws(bytes, code_p.1, ",".as_bytes()) {
        Some(x) => x,
        None => {
            return None;
        },
    };
    let i7 = match expect_ws(bytes, i6, "\"msg\"".as_bytes()) {
        Some(x) => x,
        None => {
            return None;
        },
    };
    let i8 = match expect_ws(bytes, i7, ":".as_bytes()) {
        Some(x) => x,
        None => {
            return None;
        },
    };
    let i9 = match expect_ws(bytes, i8, "\"".as_bytes()) {
        Some(x) => x,
        None => {
            return None;
        },
    };
    let msg_p = match parse_str_body(bytes, i9) {
        Some(p) => p,
        None => {
            return None;
        },
    };
    let i10 = msg_p.1;
    let msg: String = match bytes_to_str(msg_p.0.as_slice()) {
        Some(s) => {
            proof {
                vstd::utf8::decode_utf8_encode_utf8(msg_p.0@);
            }
            s.to_owned()
        },
        None => {
            return None;
        },
    };
    proof {
        assert(msg@ == decode_utf8(msg_p.0@));
    }
    match expect_ws(bytes, i10, "}".as_bytes()) {
        Some(j) => {
            if skip_ws(bytes, j) == bytes.len() {
                let err = TwirpErrorResponse::new(code, msg);
                proof {
                    assert(err.meta@ =~= Seq::<(Seq<char>, Seq<char>)>::empty());
                }
                return Some(err);
            } else {
                return None;
            }
        },
        None => {},
    }
    let t1 = match expect_ws(bytes, i10, ",".as_bytes()) {
        Some(x) => x,
        None => {
            return None;
        },
    };
    let t2 = match expect_ws(bytes, t1, "\"meta\"".as_bytes()) {
        Some(x) => x,
        None => {
            return None;
        },
    };
    let t3 = match expect_ws(bytes, t2, ":".as_bytes()) {
        Some(x) => x,
        None => {
            return None;
        },
    };
    let t4 = match expect_ws(bytes, t3, "{".as_bytes()) {
        Some(x) => x,
        None => {
            return None;
        },
    };
    match expect_ws(bytes, t4, "}".as_bytes()) {
        Some(j2) => {
            let j3 = match expect_ws(bytes, j2, "}".as_bytes()) {
                Some(x) => x,
                None => {
                    return None;
                },
            };
            if skip_ws(bytes, j3) == bytes.len() {
                let err = TwirpErrorResponse::new(code, msg);
                proof {
                    assert(err.meta@ =~= Seq::<(Seq<char>, Seq<char>)>::empty());
                }
                return Some(err);
            } else {
                return None;
            }
        },
        None => {},
    }
    let entries_p = match parse_meta_entries(bytes, t4) {
        Some(p) => p,
        None => {
            return None;
        },
    };
    let entries = entries_p.0;
    let j3 = match expect_ws(bytes, entries_p.1, "}".as_bytes()) {
        Some(x) => x,
        None => {
            return None;
        },
    };
    if skip_ws(bytes, j3) != bytes.len() {
        return None;
    }
    let ghost raw = pairs_view(entries@);
    let mut meta = MetaMap::new();
    let mut k: usize = 0;
    proof {
        assert(meta@ =~= entries_decoded(raw.take(0)));
    }
    while k < entries.len()
        invariant
            0 <= k <= entries@.len(),
            raw == pairs_view(entries@),
            meta.wf(),
            meta@ =~= entries_decoded(raw.take(k as int)),
            entries_utf8_ok(raw.take(k as int)),
            unique_keys(entries_decoded(raw.take(k as int))),
        decreases entries@.len() - k,
    {
        let kb = match bytes_to_str(entries[k].0.as_slice()) {
            Some(s) => {
                proof {
                    vstd::utf8::decode_utf8_encode_utf8(entries@[k as int].0@);
                }
                s.to_owned()
            },
            None => {
                proof {
                    assert(!valid_utf8(raw[k as int].0));
                    assert(!entries_utf8_ok(raw)) by {
                        if entries_utf8_ok(raw) {
                            assert(valid_utf8(raw[k as int].0) && valid_utf8(raw[k as int].1));
                        }
                    }
                }
                return None;
            },
        };
        let vb = match bytes_to_str(entries[k].1.as_slice()) {
            Some(s) => {
                proof {
                    vstd::utf8::decode_utf8_encode_utf8(entries@[k as int].1@);
                }
                s.to_owned()
            },
            None => {
                proof {
                    assert(!valid_utf8(raw[k as int].1));
                    assert(!entries_utf8_ok(raw)) by {
                        if entries_utf8_ok(raw) {
                            assert(valid_utf8(raw[k as int].0) && valid_utf8(raw[k as int].1));
                        }
                    }
                }
                return None;
            },
        };
        proof {
            assert(kb@ == decode_utf8(raw[k as int].0));
            assert(vb@ == decode_utf8(raw[k as int].1));
        }
        let ghost pre = meta@;
        let ghost kk = k as int;
        let ghost dec = entries_decoded(raw);
        let prior = meta.insert(kb, vb);
        if prior.is_some() {
            proof {
                crate::error::lemma_meta_lookup_some_exists(pre, dec[kk].0);
                let m = choose|m: int| 0 <= m < pre.len() && (#[trigger] pre[m]).0 == dec[kk].0;
                assert(pre[m] == entries_decoded(raw.take(kk))[m]);
                assert(dec[m].0 == dec[kk].0);
                assert(!unique_keys(dec));
            }
            return None;
        }
        proof {
            assert(raw.take(kk + 1) =~= raw.take(kk).push(raw[kk]));
            let dec1 = entries_decoded(raw.take(kk + 1));
            assert(meta@ =~= dec1) by {
                assert(meta@ =~= pre.push((dec[kk].0, dec[kk].1)));
                assert(dec1 =~= entries_decoded(raw.take(kk)).push((dec[kk].0, dec[kk].1)));
            }
            assert forall|i: int, j: int| 0 <= i < j < dec1.len() implies dec1[i].0
                != dec1[j].0 by {
                if j < kk {
                    assert(dec1[i] == entries_decoded(raw.take(kk))[i]);
                    assert(dec1[j] == entries_decoded(raw.take(kk))[j]);
                } else {
                    assert(dec1[i] == entries_decoded(raw.take(kk))[i]);
                    assert(dec1[j] == (dec[kk].0, dec[kk].1));
                    if dec1[i].0 == dec1[j].0 {
                        crate::error::lemma_meta_lookup_found(pre, dec1[i].0, i);
                        assert(crate::error::meta_lookup(pre, dec[kk].0) is Some);
                        assert(false);
                    }
                }
            }
        }
        k += 1;
    }
    proof {
        assert(raw.take(raw.len() as int) =~= raw);
    }
    let err = TwirpErrorResponse {
        code,
        msg,
        meta,
        retry_after: None,
        rust_error: None,
    };
    Some(err)
}

/// The byte values of the fixed framing fragments of the envelope.
proof fn lemma_fragment_bytes()
    ensures
        encode_utf8("\""@) == seq![34u8],
        encode_utf8("{"@) == seq![123u8],
        encode_utf8("}"@) == seq![125u8],
        encode_utf8(","@) == seq![44u8],
        encode_utf8(":"@) == seq![58u8],
        encode_utf8("\"code\""@) == seq![34u8, 99u8, 111u8, 100u8, 101u8, 34u8],
        encode_utf8("\"msg\""@) == seq![34u8, 109u8, 115u8, 103u8, 34u8],
        encode_utf8("\"meta\""@) == seq![34u8, 109u8, 101u8, 116u8, 97u8, 34u8],
        encode_utf8("\":\""@) == seq![34u8, 58u8, 34u8],
        encode_utf8("{\"code\":\""@) == seq![
            123u8,
            34u8,
            99u8,
            111u8,
            100u8,
            101u8,
            34u8,
            58u8,
            34u8,
        ],
        encode_utf8("\",\"msg\":\""@) == seq![
            34u8,
            44u8,
            34u8,
            109u8,
            115u8,
            103u8,
            34u8,
            58u8,
            34u8,
        ],
        encode_utf8(",\"meta\":{"@) == seq![
            44u8,
            34u8,
            109u8,
            101u8,
            116u8,
            97u8,
            34u8,
            58u8,
            123u8,
        ],
{
    reveal_strlit("\"");
    reveal_strlit("{");
    reveal_strlit("}");
    reveal_strlit(",");
    reveal_strlit(":");
    reveal_strlit("\"code\"");
    reveal_strlit("\"msg\"");
    reveal_strlit("\"meta\"");
    reveal_strlit("\":\"");
    reveal_strlit("{\"code\":\"");
    reveal_strlit("\",\"msg\":\"");
    reveal_strlit(",\"meta\":{");
    vstd::utf8::is_ascii_chars_encode_utf8("\""@);
    vstd::utf8::is_ascii_chars_encode_utf8("{"@);
    vstd::utf8::is_ascii_chars_encode_utf8("}"@);
    vstd::utf8::is_ascii_chars_encode_utf8(","@);
    vstd::utf8::is_ascii_chars_encode_utf8(":"@);
    vstd::utf8::is_ascii_chars_encode_utf8("\"code\""@);
    vstd::utf8::is_ascii_chars_encode_utf8("\"msg\""@);
    vstd::utf8::is_ascii_chars_encode_utf8("\"meta\""@);
    vstd::utf8::is_ascii_chars_encode_utf8("\":\""@);
    vstd::utf8::is_ascii_chars_encode_utf8("{\"code\":\""@);
    vstd::utf8::is_ascii_chars_encode_utf8("\",\"msg\":\""@);
    vstd::utf8::is_ascii_chars_encode_utf8(",\"meta\":{"@);
    assert(encode_utf8("\""@) =~= seq![34u8]);
    assert(encode_utf8("{"@) =~= seq![123u8]);
    assert(encode_utf8("}"@) =~= seq![125u8]);
    assert(encode_utf8(","@) =~= seq![44u8]);
    assert(encode_utf8(":"@) =~= seq![58u8]);
    assert(encode_utf8("\"code\""@) =~= seq![34u8, 99u8, 111u8, 100u8, 101u8, 34u8]);
    assert(encode_utf8("\"msg\""@) =~= seq![34u8, 109u8, 115u8, 103u8, 34u8]);
    assert(encode_utf8("\"meta\""@) =~= seq![34u8, 109u8, 101u8, 116u8, 97u8, 34u8]);
    assert(encode_utf8("\":\""@) =~= seq![34u8, 58u8, 34u8]);
    assert(encode_utf8("{\"code\":\""@) =~= seq![
        123u8,
        34u8,
        99u8,
        111u8,
        100u8,
        101u8,
        34u8,
        58u8,
        34u8,
    ]);
    assert(encode_utf8("\",\"msg\":\""@) =~= seq![
        34u8,
        44u8,
        34u8,
        109u8,
        115u8,
        103u8,
        34u8,
        58u8,
        34u8,
    ]);
    assert(encode_utf8(",\"meta\":{"@) =~= seq![
        44u8,
        34u8,
        109u8,
        101u8,
        116u8,
        97u8,
        34u8,
        58u8,
        123u8,
    ]);
}

/// A token laid down at position `i` is found there, and the input after
/// it is exactly what followed the token.
proof fn lemma_expect_prefix(s: Seq<u8>, i: int, tok: Seq<u8>, rest: Seq<u8>)
    requires
        0 <= i <= s.len(),
        s.skip(i) == tok + rest,
    ensures
        sp_expect(s, i, tok) == Some(i + tok.len() as int),
        s.skip(i + tok.len()) =~= rest,
{
    assert(s.skip(i).len() == s.len() - i);
    assert(s.subrange(i, i + tok.len() as int) =~= tok) by {
        assert forall|j: int| 0 <= j < tok.len() implies s.subrange(i, i + tok.len() as int)[j]
            == tok[j] by {
            assert(s.subrange(i, i + tok.len() as int)[j] == s[i + j]);
            assert(s.skip(i)[j] == s[i + j]);
        }
    }
    assert forall|j: int| 0 <= j < rest.len() implies s.skip(i + tok.len())[j] == rest[j] by {
        assert(s.skip(i + tok.len())[j] == s[i + tok.len() + j]);
        assert(s.skip(i)[tok.len() + j] == s[i + tok.len() + j]);
    }
}

/// A non-whitespace token laid down at position `i` is found there by the
/// whitespace-tolerant match as well.
proof fn lemma_expect_ws_prefix(s: Seq<u8>, i: int, tok: Seq<u8>, rest: Seq<u8>)
    requires
        0 <= i <= s.len(),
        s.skip(i) == tok + rest,
        tok.len() > 0,
        !sp_is_ws(tok[0]),
    ensures
        sp_skip_ws(s, i) == i,
        sp_expect_ws(s, i, tok) == Some(i + tok.len() as int),
        s.skip(i + tok.len()) =~= rest,
{
    assert(s.skip(i).len() == s.len() - i);
    assert(s[i] == tok[0]) by {
        assert(s.skip(i)[0] == tok[0]);
    }
    lemma_expect_prefix(s, i, tok, rest);
}

/// One quoted member laid down at `i`: a name token, a colon, and a
/// quoted escaped string, each possibly preceded by whitespace in the
/// grammar but written back to back in the canonical form.
#[verifier::rlimit(100)]
#[verifier::spinoff_prover]
proof fn lemma_walk_field(
    s: Seq<u8>,
    i: int,
    t1: Seq<u8>,
    t2: Seq<u8>,
    content: Seq<u8>,
    rest: Seq<u8>,
)
    requires
        0 <= i <= s.len(),
        t1.len() > 0,
        !sp_is_ws(t1[0]),
        t2.len() > 0,
        !sp_is_ws(t2[0]),
        s.skip(i) == t1 + (t2 + (seq![58u8] + (seq![34u8] + (spec_escape(content) + seq![34u8]
            + rest)))),
    ensures
        sp_expect_ws(s, i, t1) == Some(i + t1.len() as int),
        sp_expect_ws(s, i + t1.len(), t2) == Some(i + t1.len() + t2.len() as int),
        sp_expect_ws(s, i + t1.len() + t2.len(), seq![58u8]) == Some(
            i + t1.len() + t2.len() + 1,
        ),
        sp_expect_ws(s, i + t1.len() + t2.len() + 1, seq![34u8]) == Some(
            i + t1.len() + t2.len() + 2,
        ),
        sp_str_body(s, i + t1.len() + t2.len() + 2) == Some((content, s.len() - rest.len())),
        s.len() - rest.len() == i + t1.len() + t2.len() + 2 + spec_escape(content).len() + 1,
        s.skip(s.len() - rest.len()) =~= rest,
{
    lemma_expect_ws_prefix(
        s,
        i,
        t1,
        t2 + (seq![58u8] + (seq![34u8] + (spec_escape(content) + seq![34u8] + rest))),
    );
    lemma_expect_ws_prefix(
        s,
        i + t1.len(),
        t2,
        seq![58u8] + (seq![34u8] + (spec_escape(content) + seq![34u8] + rest)),
    );
    lemma_expect_ws_prefix(
        s,
        i + t1.len() + t2.len(),
        seq![58u8],
        seq![34u8] + (spec_escape(content) + seq![34u8] + rest),
    );
    lemma_expect_ws_prefix(
        s,
        i + t1.len() + t2.len() + 1,
        seq![34u8],
        spec_escape(content) + seq![34u8] + rest,
    );
    lemma_sp_str_body_escaped(s, i + t1.len() + t2.len() + 2, content, rest);
    let j = s.len() - rest.len();
    assert(s.skip(j) =~= rest) by {
        assert forall|k: int| 0 <= k < s.skip(j).len() implies s.skip(j)[k] == rest[k] by {
            assert(s.skip(j)[k] == s[j + k]);
            assert(s.skip(i + t1.len() + t2.len() + 2)[j - (i + t1.len() + t2.len() + 2) + k]
                == s[j + k]);
        }
    }
}

/// One metadata entry laid down at `i`: a quoted escaped key, a colon,
/// and a quoted escaped value.
#[verifier::rlimit(100)]
#[verifier::spinoff_prover]
proof fn lemma_one_entry(s: Seq<u8>, i: int, k0: Seq<u8>, v0: Seq<u8>, after: Seq<u8>)
    requires
        0 <= i <= s.len(),
        s.skip(i) == seq![34u8] + (spec_escape(k0) + seq![34u8] + (seq![58u8] + (seq![34u8] + (
        spec_escape(v0) + seq![34u8] + after)))),
    ensures
        ({
            let jk = i + 1 + spec_escape(k0).len() as int + 1;
            let j2 = jk + 2;
            let j3 = j2 + spec_escape(v0).len() as int + 1;
            &&& sp_skip_ws(s, i) == i
            &&& i < s.len()
            &&& s[i] == 34
            &&& sp_str_body(s, i + 1) == Some((k0, jk))
            &&& sp_expect_ws(s, jk, encode_utf8(":"@)) == Some(jk + 1)
            &&& sp_expect_ws(s, jk + 1, encode_utf8("\""@)) == Some(j2)
            &&& sp_str_body(s, j2) == Some((v0, j3))
            &&& s.skip(j3) =~= after
            &&& j3 == s.len() - after.len()
        }),
{
    lemma_fragment_bytes();
    assert(s.skip(i).len() == s.len() - i);
    assert(s[i] == 34) by {
        assert(s.skip(i)[0] == 34);
    }
    assert(sp_skip_ws(s, i) == i);
    assert(s.skip(i + 1) =~= spec_escape(k0) + seq![34u8] + (seq![58u8] + (seq![34u8] + (
    spec_escape(v0) + seq![34u8] + after)))) by {
        assert forall|j: int| 0 <= j < s.skip(i + 1).len() implies s.skip(i + 1)[j] == (
        spec_escape(k0) + seq![34u8] + (seq![58u8] + (seq![34u8] + (spec_escape(v0) + seq![34u8]
            + after))))[j] by {
            assert(s.skip(i + 1)[j] == s[i + 1 + j]);
            assert(s.skip(i)[1 + j] == s[i + 1 + j]);
        }
    }
    lemma_sp_str_body_escaped(
        s,
        i + 1,
        k0,
        seq![58u8] + (seq![34u8] + (spec_escape(v0) + seq![34u8] + after)),
    );
    let jk = s.len() - (seq![58u8] + (seq![34u8] + (spec_escape(v0) + seq![34u8]
        + after))).len();
    assert(s.skip(jk) =~= seq![58u8] + (seq![34u8] + (spec_escape(v0) + seq![34u8] + after)))
        by {
        assert forall|j: int| 0 <= j < s.skip(jk).len() implies s.skip(jk)[j] == (seq![58u8] + (
        seq![34u8] + (spec_escape(v0) + seq![34u8] + after)))[j] by {
            assert(s.skip(jk)[j] == s[jk + j]);
            assert(s.skip(i + 1)[jk - i - 1 + j] == s[jk + j]);
        }
    }
    lemma_expect_ws_prefix(s, jk, seq![58u8], seq![34u8] + (spec_escape(v0) + seq![34u8]
        + after));
    lemma_expect_ws_prefix(s, jk + 1, seq![34u8], spec_escape(v0) + seq![34u8] + after);
    lemma_sp_str_body_escaped(s, jk + 2, v0, after);
    let j3 = s.len() - after.len();
    assert(s.skip(j3) =~= after) by {
        assert forall|j: int| 0 <= j < s.skip(j3).len() implies s.skip(j3)[j] == after[j] by {
            assert(s.skip(j3)[j] == s[j3 + j]);
            assert(s.skip(jk + 2)[j3 - jk - 2 + j] == s[j3 + j]);
        }
    }
}

/// Parsing a string body over escaped content laid down at `i` recovers
/// exactly that content and stops after the closing quote.
proof fn lemma_sp_str_body_escaped(s: Seq<u8>, i: int, content: Seq<u8>, rest: Seq<u8>)
    requires
        0 <= i <= s.len(),
        s.skip(i) == spec_escape(content) + seq![34u8] + rest,
    ensures
        sp_str_body(s, i) == Some((content, s.len() - rest.len())),
        s.len() - rest.len() == i + spec_escape(content).len() + 1,
    decreases content.len(),
{
    assert(s.skip(i).len() == s.len() - i);
    if content.len() == 0 {
        assert(spec_escape(content) =~= Seq::<u8>::empty());
        assert(s.skip(i)[0] == 34);
        assert(s[i] == 34);
        assert(content =~= Seq::<u8>::empty());
    } else {
        let c0 = content[0];
        let tail = content.drop_first();
        assert(spec_escape(content) == esc_byte(c0) + spec_escape(tail));
        let d = esc_byte(c0).len() as int;
        assert forall|j: int| 0 <= j < d implies s[i + j] == esc_byte(c0)[j] by {
            assert(s.skip(i)[j] == s[i + j]);
            assert((spec_escape(content) + seq![34u8] + rest)[j] == spec_escape(content)[j]);
            assert(spec_escape(content)[j] == esc_byte(c0)[j]);
        }
        assert(s[i + 0] == esc_byte(c0)[0]);
        if d >= 2 {
            assert(s[i + 1] == esc_byte(c0)[1]);
        }
        if d == 6 {
            assert(s[i + 2] == esc_byte(c0)[2]);
            assert(s[i + 3] == esc_byte(c0)[3]);
            assert(s[i + 4] == esc_byte(c0)[4]);
            assert(s[i + 5] == esc_byte(c0)[5]);
        }
        assert(s.skip(i + d) =~= spec_escape(tail) + seq![34u8] + rest) by {
            assert forall|j: int| 0 <= j < s.skip(i + d).len() implies s.skip(i + d)[j] == (
            spec_escape(tail) + seq![34u8] + rest)[j] by {
                assert(s.skip(i + d)[j] == s[i + d + j]);
                assert(s.skip(i)[d + j] == s[i + d + j]);
                assert((spec_escape(content) + seq![34u8] + rest)[d + j] == (spec_escape(tail)
                    + seq![34u8] + rest)[j]);
            }
        }
        lemma_sp_str_body_escaped(s, i + d, tail, rest);
        if c0 == 34 {
            assert(s[i] == 92);
            assert(s[i + 1] == 34);
            assert(seq![34u8] + tail =~= content);
        } else if c0 == 92 {
            assert(s[i] == 92);
            assert(s[i + 1] == 92);
            assert(seq![92u8] + tail =~= content);
        } else if c0 < 32 {
            assert(s[i] == 92);
            assert(s[i + 1] == 117);
            assert(s[i + 2] == 48);
            assert(s[i + 3] == 48);
            let h1 = spec_hex_digit(c0 as int / 16);
            let h2 = spec_hex_digit(c0 as int % 16);
            assert(s[i + 4] == h1);
            assert(s[i + 5] == h2);
            assert(is_hex_digit(h1));
            assert(is_hex_digit(h2));
            assert(hex_val(48u8) == 0);
            assert(hex_val(h1) == c0 as int / 16);
            assert(hex_val(h2) == c0 as int % 16);
            assert(sp_hex4_ok(s, i + 2));
            assert(sp_hex4(s, i + 2) == c0 as int);
            assert(spec_utf8_of(c0 as int) =~= seq![c0]);
            assert(seq![c0] + tail =~= content);
        } else {
            assert(s[i] == c0);
            assert(seq![c0] + tail =~= content);
        }
    }
}

/// The metadata entries with both sides still UTF-8 encoded, before
/// unescaping is undone at the character level.
pub open spec fn entries_bytes(entries: Seq<(Seq<char>, Seq<char>)>) -> Seq<(Seq<u8>, Seq<u8>)> {
    Seq::new(entries.len(), |k: int| (encode_utf8(entries[k].0), encode_utf8(entries[k].1)))
}

/// Parsing the metadata run laid down at `i` recovers exactly the encoded
/// entries and stops after the closing brace.
#[verifier::rlimit(100)]
#[verifier::spinoff_prover]
proof fn lemma_sp_meta_entries_encoded(
    s: Seq<u8>,
    i: int,
    entries: Seq<(Seq<char>, Seq<char>)>,
    rest: Seq<u8>,
)
    requires
        0 <= i <= s.len(),
        entries.len() >= 1,
        s.skip(i) == spec_meta_body(entries) + seq![125u8] + rest,
    ensures
        sp_meta_entries(s, i) == Some((entries_bytes(entries), s.len() - rest.len())),
        s.len() - rest.len() == i + spec_meta_body(entries).len() + 1,
    decreases entries.len(),
{
    lemma_fragment_bytes();
    assert(s.skip(i).len() == s.len() - i);
    let e0 = entries[0];
    let k0 = encode_utf8(e0.0);
    let v0 = encode_utf8(e0.1);
    let tail = entries.drop_first();
    let after_entry: Seq<u8> = if entries.len() == 1 {
        seq![125u8] + rest
    } else {
        encode_utf8(","@) + spec_meta_body(tail) + seq![125u8] + rest
    };
    assert(s.skip(i) =~= seq![34u8] + (spec_escape(k0) + seq![34u8] + (seq![58u8] + (seq![34u8]
        + (spec_escape(v0) + seq![34u8] + after_entry))))) by {
        if entries.len() == 1 {
        } else {
            assert(spec_meta_body(entries) == spec_meta_entry(e0) + encode_utf8(","@)
                + spec_meta_body(tail));
        }
        assert(spec_meta_entry(e0) =~= seq![34u8] + spec_escape(k0) + (seq![34u8, 58u8, 34u8])
            + spec_escape(v0) + seq![34u8]);
    }
    lemma_one_entry(s, i, k0, v0, after_entry);
    let j3 = s.len() - after_entry.len();
    if entries.len() == 1 {
        assert(s[j3] == 125) by {
            assert(s.skip(j3)[0] == 125);
        }
        assert(sp_skip_ws(s, j3) == j3);
        assert(sp_meta_entries(s, i) == Some((seq![(k0, v0)], j3 + 1)));
        assert(seq![(k0, v0)] =~= entries_bytes(entries));
        assert(j3 + 1 == s.len() - rest.len());
    } else {
        assert(s[j3] == 44) by {
            assert(s.skip(j3)[0] == 44);
        }
        assert(sp_skip_ws(s, j3) == j3);
        assert(s.skip(j3 + 1) =~= spec_meta_body(tail) + seq![125u8] + rest) by {
            assert forall|j: int| 0 <= j < s.skip(j3 + 1).len() implies s.skip(j3 + 1)[j] == (
            spec_meta_body(tail) + seq![125u8] + rest)[j] by {
                assert(s.skip(j3 + 1)[j] == s[j3 + 1 + j]);
                assert(s.skip(j3)[1 + j] == s[j3 + 1 + j]);
            }
        }
        lemma_sp_meta_entries_encoded(s, j3 + 1, tail, rest);
        assert(sp_meta_entries(s, i) == sp_entries_prepend(
            seq![(k0, v0)],
            sp_meta_entries(s, j3 + 1),
        ));
        assert(seq![(k0, v0)] + entries_bytes(tail) =~= entries_bytes(entries)) by {
            assert forall|m: int| 0 <= m < entries.len() implies (seq![(k0, v0)] + entries_bytes(
                tail,
            ))[m] == entries_bytes(entries)[m] by {
                if m > 0 {
                    assert(tail[m - 1] == entries[m]);
                }
            }
        }
    }
}

/// The metadata run laid down after the message parses back as the tail
/// of the envelope to exactly the entries it was built from.
#[verifier::rlimit(100)]
#[verifier::spinoff_prover]
proof fn lemma_roundtrip_tail(
    s: Seq<u8>,
    i: int,
    code: TwirpErrorCode,
    msg: Seq<char>,
    meta: Seq<(Seq<char>, Seq<char>)>,
)
    requires
        0 <= i <= s.len(),
        meta.len() >= 1,
        unique_keys(meta),
        s.skip(i) == encode_utf8(",\"meta\":{"@) + (spec_meta_body(meta) + seq![125u8] + seq![
            125u8,
        ]),
    ensures
        sp_parse_tail(s, i, code, msg) == Some((code, msg, meta)),
{
    lemma_fragment_bytes();
    assert(s.skip(i).len() == s.len() - i);
    let body = spec_meta_body(meta);
    // The tail's first probe for the closing brace fails: a comma stands
    // here.
    assert(s[i] == 44) by {
        assert(s.skip(i)[0] == 44);
    }
    assert(sp_skip_ws(s, i) == i);
    assert(sp_expect_ws(s, i, encode_utf8("}"@)) is None) by {
        if i + 1 <= s.len() && s.subrange(i, i + 1) == seq![125u8] {
            assert(s.subrange(i, i + 1)[0] == s[i]);
        }
    }
    assert(s.skip(i) =~= seq![44u8] + (seq![34u8, 109u8, 101u8, 116u8, 97u8, 34u8] + (seq![58u8]
        + (seq![123u8] + (body + seq![125u8] + seq![125u8])))));
    lemma_expect_ws_prefix(
        s,
        i,
        seq![44u8],
        seq![34u8, 109u8, 101u8, 116u8, 97u8, 34u8] + (seq![58u8] + (seq![123u8] + (body + seq![
            125u8,
        ] + seq![125u8]))),
    );
    assert(sp_expect_ws(s, i, encode_utf8(","@)) == Some(i + 1));
    lemma_expect_ws_prefix(
        s,
        i + 1,
        seq![34u8, 109u8, 101u8, 116u8, 97u8, 34u8],
        seq![58u8] + (seq![123u8] + (body + seq![125u8] + seq![125u8])),
    );
    assert(sp_expect_ws(s, i + 1, encode_utf8("\"meta\""@)) == Some(i + 7));
    lemma_expect_ws_prefix(
        s,
        i + 7,
        seq![58u8],
        seq![123u8] + (body + seq![125u8] + seq![125u8]),
    );
    assert(sp_expect_ws(s, i + 7, encode_utf8(":"@)) == Some(i + 8));
    lemma_expect_ws_prefix(s, i + 8, seq![123u8], body + seq![125u8] + seq![125u8]);
    assert(sp_expect_ws(s, i + 8, encode_utf8("{"@)) == Some(i + 9));
    let i4 = i + 9;
    assert(s.skip(i4) =~= body + seq![125u8] + seq![125u8]);
    // A non-empty run starts with a quote, so the empty-object probe
    // fails.
    assert(body[0] == 34) by {
        assert(spec_meta_entry(meta[0])[0] == 34);
        if meta.len() == 1 {
        } else {
            assert(body == spec_meta_entry(meta[0]) + encode_utf8(","@) + spec_meta_body(
                meta.drop_first(),
            ));
        }
    }
    assert(s[i4] == 34) by {
        assert(s.skip(i4)[0] == body[0]);
    }
    assert(sp_skip_ws(s, i4) == i4);
    assert(sp_expect_ws(s, i4, encode_utf8("}"@)) is None) by {
        if i4 + 1 <= s.len() && s.subrange(i4, i4 + 1) == seq![125u8] {
            assert(s.subrange(i4, i4 + 1)[0] == s[i4]);
        }
    }
    lemma_sp_meta_entries_encoded(s, i4, meta, seq![125u8]);
    let j2 = s.len() - 1;
    assert(s.skip(j2) =~= seq![125u8] + Seq::<u8>::empty()) by {
        assert forall|j: int| 0 <= j < s.skip(j2).len() implies s.skip(j2)[j] == (seq![125u8]
            + Seq::<u8>::empty())[j] by {
            assert(s.skip(j2)[j] == s[j2 + j]);
            assert(s.skip(i4)[j2 - i4 + j] == s[j2 + j]);
        }
    }
    lemma_expect_ws_prefix(s, j2, seq![125u8], Seq::<u8>::empty());
    assert(sp_expect_ws(s, j2, encode_utf8("}"@)) == Some(s.len() as int));
    assert(sp_skip_ws(s, s.len() as int) == s.len());
    let eb = entries_bytes(meta);
    assert(entries_utf8_ok(eb)) by {
        assert forall|m: int| 0 <= m < eb.len() implies valid_utf8((#[trigger] eb[m]).0)
            && valid_utf8(eb[m].1) by {
            vstd::utf8::encode_utf8_valid_utf8(meta[m].0);
            vstd::utf8::encode_utf8_valid_utf8(meta[m].1);
        }
    }
    assert(entries_decoded(eb) =~= meta) by {
        assert forall|m: int| 0 <= m < eb.len() implies entries_decoded(eb)[m] == meta[m] by {
            vstd::utf8::encode_utf8_decode_utf8(meta[m].0);
            vstd::utf8::encode_utf8_decode_utf8(meta[m].1);
        }
    }
}

/// The metadata section of the wire form (empty when there are no
/// entries).
pub open spec fn spec_meta_part(e: TwirpErrorResponse) -> Seq<u8> {
    if e.meta@.len() == 0 {
        Seq::<u8>::empty()
    } else {
        encode_utf8(",\"meta\":{"@) + spec_meta_body(e.meta@) + encode_utf8("}"@)
    }
}

/// Parsing the encoded envelope walks the framing, the code and the
/// message exactly as they were laid down, stopping in front of the
/// metadata section.
#[verifier::rlimit(100)]
#[verifier::spinoff_prover]
proof fn lemma_roundtrip_head(e: TwirpErrorResponse)
    ensures
        ({
            let s = spec_encode_error(e);
            let i5 = 9 + spec_escape(encode_utf8(spec_twirp_code(e.code))).len() as int + 1;
            let i10 = i5 + 8 + spec_escape(encode_utf8(e.msg@)).len() as int + 1;
            &&& sp_expect_ws(s, 0, encode_utf8("{"@)) == Some(1int)
            &&& sp_expect_ws(s, 1, encode_utf8("\"code\""@)) == Some(7int)
            &&& sp_expect_ws(s, 7, encode_utf8(":"@)) == Some(8int)
            &&& sp_expect_ws(s, 8, encode_utf8("\""@)) == Some(9int)
            &&& sp_str_body(s, 9) == Some((encode_utf8(spec_twirp_code(e.code)), i5))
            &&& sp_expect_ws(s, i5, encode_utf8(","@)) == Some(i5 + 1)
            &&& sp_expect_ws(s, i5 + 1, encode_utf8("\"msg\""@)) == Some(i5 + 6)
            &&& sp_expect_ws(s, i5 + 6, encode_utf8(":"@)) == Some(i5 + 7)
            &&& sp_expect_ws(s, i5 + 7, encode_utf8("\""@)) == Some(i5 + 8)
            &&& sp_str_body(s, i5 + 8) == Some((encode_utf8(e.msg@), i10))
            &&& i10 == s.len() - (spec_meta_part(e).len() + 1)
            &&& s.skip(i10) == spec_meta_part(e) + seq![125u8]
            &&& 0 <= i10 < s.len()
        }),
{
    lemma_fragment_bytes();
    let s = spec_encode_error(e);
    let ec = spec_escape(encode_utf8(spec_twirp_code(e.code)));
    let em = spec_escape(encode_utf8(e.msg@));
    let meta_part = spec_meta_part(e);
    let rest_msg = meta_part + seq![125u8];
    let rest_code = seq![44u8] + (seq![34u8, 109u8, 115u8, 103u8, 34u8] + (seq![58u8] + (seq![
        34u8,
    ] + (em + seq![34u8] + rest_msg))));
    assert(s.skip(0) =~= seq![123u8] + (seq![34u8, 99u8, 111u8, 100u8, 101u8, 34u8] + (seq![
        58u8,
    ] + (seq![34u8] + (ec + seq![34u8] + rest_code))))) by {
        assert(s.skip(0) =~= s);
    }
    lemma_walk_field(
        s,
        0,
        seq![123u8],
        seq![34u8, 99u8, 111u8, 100u8, 101u8, 34u8],
        encode_utf8(spec_twirp_code(e.code)),
        rest_code,
    );
    let i5 = s.len() - rest_code.len();
    lemma_walk_field(
        s,
        i5,
        seq![44u8],
        seq![34u8, 109u8, 115u8, 103u8, 34u8],
        encode_utf8(e.msg@),
        rest_msg,
    );
}

/// The wire form carries only the code, the message and the metadata:
/// two responses that differ at most in their retry hint and debug detail
/// serialize identically, so neither ever reaches a client.
pub proof fn lemma_encode_excludes_diagnostics(e1: TwirpErrorResponse, e2: TwirpErrorResponse)
    requires
        e1.code == e2.code,
        e1.msg@ == e2.msg@,
        e1.meta@ == e2.meta@,
    ensures
        spec_encode_error(e1) == spec_encode_error(e2),
{
}

/// The round-trip law of the error envelope: serializing an error response
/// and parsing the result yields the same code, message and metadata. The
/// retry hint and the debug detail are not part of the wire form at all:
/// the encoding of two responses that differ only there is identical.
#[verifier::rlimit(100)]
#[verifier::spinoff_prover]
pub proof fn lemma_error_envelope_roundtrip(e: TwirpErrorResponse)
    requires
        e.wf(),
    ensures
        sp_parse_error(spec_encode_error(e)) == Some((e.code, e.msg@, e.meta@)),
{
    lemma_fragment_bytes();
    lemma_roundtrip_head(e);
    lemma_code_name_roundtrip(e.code);
    vstd::utf8::encode_utf8_valid_utf8(e.msg@);
    vstd::utf8::encode_utf8_decode_utf8(e.msg@);
    let s = spec_encode_error(e);
    let meta_part = spec_meta_part(e);
    let i10 = s.len() - (meta_part.len() + 1);
    if e.meta@.len() == 0 {
        assert(meta_part.len() == 0);
        assert(i10 == s.len() - 1);
        assert(s.skip(i10) =~= seq![125u8] + Seq::<u8>::empty());
        lemma_expect_ws_prefix(s, i10, seq![125u8], Seq::<u8>::empty());
        assert(sp_expect_ws(s, i10, encode_utf8("}"@)) == Some(s.len() as int));
        assert(sp_skip_ws(s, s.len() as int) == s.len());
        assert(sp_parse_tail(s, i10, e.code, decode_utf8(encode_utf8(e.msg@))) == Some(
            (e.code, e.msg@, Seq::<(Seq<char>, Seq<char>)>::empty()),
        ));
        assert(e.meta@ =~= Seq::<(Seq<char>, Seq<char>)>::empty());
    } else {
        assert(s.skip(i10) =~= encode_utf8(",\"meta\":{"@) + (spec_meta_body(e.meta@) + seq![
            125u8,
        ] + seq![125u8])) by {
            assert(meta_part + seq![125u8] =~= encode_utf8(",\"meta\":{"@) + (spec_meta_body(
                e.meta@,
            ) + seq![125u8] + seq![125u8]));
        }
        lemma_roundtrip_tail(s, i10, e.code, decode_utf8(encode_utf8(e.msg@)), e.meta@);
    }
}

} // verus!
