//! Versioned export and import of nullifier sets.
//!
//! The wire format is one JSON object,
//! `{"version":1,"nullifiers":["<64 lowercase hex chars>",...]}`. Export
//! always produces this exact compact rendering; import accepts any JSON
//! rendering of the two-field object — insignificant whitespace around the
//! structural tokens, either field order, either hex case — rejects any
//! version above the current one, and fails as a whole on the first
//! malformed or wrong-length nullifier: there is no partial import.

use vstd::prelude::*;
use vstd::string::StrSliceExecFns;
use vstd::string::StringSliceAdditionalSpecFns;

use crate::crypto;
use crate::error::{is_nullifier_error, NullifierErrorCode, SparkError, SparkResult};
use crate::nullifier::NullifierSet;
use crate::nullifier_type::Nullifier;
use crate::validation::validate_nullifier;

verus! {

/// Current data format version.
pub const CURRENT_VERSION: u32 = 1;

/// Versioned nullifier set for export/import.
pub struct NullifierSetExport {
    /// Format version
    pub version: u32,
    /// Array of nullifiers (hex-encoded)
    pub nullifiers: Vec<String>,
}

// ---------------------------------------------------------------------------
// Hexadecimal encoding as a concrete specification
// ---------------------------------------------------------------------------
/// The ASCII byte of the lowercase hex digit for a value below 16.
pub open spec fn hex_digit(n: u8) -> u8
    recommends
        n < 16,
{
    if n < 10 {
        (0x30 + n) as u8
    } else {
        (0x57 + n) as u8
    }
}

/// The lowercase hex encoding of a byte string: two digits per byte, in
/// order.
pub open spec fn hex_bytes(bs: Seq<u8>) -> Seq<u8>
    decreases bs.len(),
{
    if bs.len() == 0 {
        Seq::empty()
    } else {
        seq![hex_digit(bs.first() / 16), hex_digit(bs.first() % 16)] + hex_bytes(bs.drop_first())
    }
}

/// The byte is the ASCII code of a hex digit, either case.
pub open spec fn is_hex_digit_byte(b: u8) -> bool {
    (0x30 <= b <= 0x39) || (0x61 <= b <= 0x66) || (0x41 <= b <= 0x46)
}

/// The numeric value of a hex digit byte.
pub open spec fn hex_val(b: u8) -> u8
    recommends
        is_hex_digit_byte(b),
{
    if 0x30 <= b <= 0x39 {
        (b - 0x30) as u8
    } else if 0x61 <= b <= 0x66 {
        (b - 0x57) as u8
    } else {
        (b - 0x37) as u8
    }
}

/// A byte string hex-decodes exactly when its length is even and every byte
/// is a hex digit.
pub open spec fn hex_decodable(s: Seq<u8>) -> bool {
    s.len() % 2 == 0 && forall|i: int| 0 <= i < s.len() ==> is_hex_digit_byte(#[trigger] s[i])
}

/// The decoding of a hex byte string: one byte per digit pair.
pub open spec fn hex_decode(s: Seq<u8>) -> Seq<u8>
    decreases s.len(),
{
    if s.len() < 2 {
        Seq::empty()
    } else {
        seq![(hex_val(s[0]) * 16 + hex_val(s[1])) as u8] + hex_decode(s.skip(2))
    }
}

/// Relies on hex::encode: two lowercase hex digits per input byte, in input
/// order (the digits `0-9a-f`).
#[verifier::external_body]
fn hex_encode_bytes(data: &[u8]) -> (r: Vec<u8>)
    ensures
        r@ == hex_bytes(data@),
{
    hex::encode(data).into_bytes()
}

/// Relies on hex::decode: succeeds exactly on even-length strings of hex
/// digits (either case), turning each digit pair into one byte.
#[verifier::external_body]
fn hex_decode_bytes(data: &[u8]) -> (r: Option<Vec<u8>>)
    ensures
        r is Some <==> hex_decodable(data@),
        r matches Some(v) ==> v@ == hex_decode(data@),
{
    hex::decode(data).ok()
}

/// Hex digits are ASCII and never string delimiters.
proof fn lemma_hex_digit_shape(n: u8)
    requires
        n < 16,
    ensures
        is_hex_digit_byte(hex_digit(n)),
        is_string_byte(hex_digit(n)),
        hex_val(hex_digit(n)) == n,
{
}

/// Decoding inverts encoding.
proof fn lemma_hex_round_trip(bs: Seq<u8>)
    ensures
        hex_bytes(bs).len() == 2 * bs.len(),
        hex_decodable(hex_bytes(bs)),
        hex_decode(hex_bytes(bs)) == bs,
        forall|i: int| 0 <= i < hex_bytes(bs).len() ==> is_string_byte(#[trigger] hex_bytes(bs)[i]),
    decreases bs.len(),
{
    if bs.len() == 0 {
    } else {
        lemma_hex_round_trip(bs.drop_first());
        let b = bs.first();
        let h = hex_bytes(bs);
        lemma_hex_digit_shape(b / 16);
        lemma_hex_digit_shape(b % 16);
        assert(h.skip(2) =~= hex_bytes(bs.drop_first()));
        assert(hex_val(h[0]) * 16 + hex_val(h[1]) == b);
        assert(hex_decode(h) =~= bs);
    }
}

// ---------------------------------------------------------------------------
// The wire grammar
// ---------------------------------------------------------------------------
/// The opening bytes of the wire format: `{"version":`.
pub open spec fn head_bytes() -> Seq<u8> {
    seq![0x7bu8, 0x22u8, 0x76u8, 0x65u8, 0x72u8, 0x73u8, 0x69u8, 0x6fu8, 0x6eu8, 0x22u8, 0x3au8]
}

/// The bytes between the version and the list: `,"nullifiers":[`.
pub open spec fn mid_bytes() -> Seq<u8> {
    seq![
        0x2cu8, 0x22u8, 0x6eu8, 0x75u8, 0x6cu8, 0x6cu8, 0x69u8, 0x66u8, 0x69u8, 0x65u8, 0x72u8,
        0x73u8, 0x22u8, 0x3au8, 0x5bu8,
    ]
}

/// The byte is insignificant JSON whitespace.
pub open spec fn is_ws(b: u8) -> bool {
    b == 0x20 || b == 0x09 || b == 0x0a || b == 0x0d
}

/// The length of the run of whitespace at the front of the string.
pub open spec fn ws_len(s: Seq<u8>) -> nat
    decreases s.len(),
{
    if s.len() > 0 && is_ws(s.first()) {
        1 + ws_len(s.drop_first())
    } else {
        0
    }
}

/// The string with its leading whitespace removed.
pub open spec fn skip_ws(s: Seq<u8>) -> Seq<u8> {
    s.skip(ws_len(s) as int)
}

/// The whitespace run never extends past the end of the string.
proof fn lemma_ws_len(s: Seq<u8>)
    ensures
        ws_len(s) <= s.len(),
    decreases s.len(),
{
    if s.len() > 0 && is_ws(s.first()) {
        lemma_ws_len(s.drop_first());
    }
}

/// The bytes of the object key `version`.
pub open spec fn version_key() -> Seq<u8> {
    seq![0x76u8, 0x65u8, 0x72u8, 0x73u8, 0x69u8, 0x6fu8, 0x6eu8]
}

/// The bytes of the object key `nullifiers`.
pub open spec fn nullifiers_key() -> Seq<u8> {
    seq![0x6eu8, 0x75u8, 0x6cu8, 0x6cu8, 0x69u8, 0x66u8, 0x69u8, 0x65u8, 0x72u8, 0x73u8]
}

/// The byte is an ASCII decimal digit.
pub open spec fn is_digit(b: u8) -> bool {
    0x30 <= b <= 0x39
}

/// The length of the run of digits at the front of the string.
pub open spec fn digits_len(s: Seq<u8>) -> nat
    decreases s.len(),
{
    if s.len() > 0 && is_digit(s.first()) {
        1 + digits_len(s.drop_first())
    } else {
        0
    }
}

/// The numeric value of an all-digit byte string.
pub open spec fn digits_val(s: Seq<u8>) -> nat
    decreases s.len(),
{
    if s.len() == 0 {
        0nat
    } else {
        digits_val(s.take(s.len() - 1)) * 10 + (s.last() - 0x30) as nat
    }
}

/// The byte may appear inside a JSON string without escaping.
pub open spec fn is_string_byte(b: u8) -> bool {
    b != 0x22 && b != 0x5c && b >= 0x20
}

/// Scan a JSON string body (the opening quote already consumed): the content
/// up to the closing quote, and the rest after it.
pub open spec fn scan_string(s: Seq<u8>) -> Option<(Seq<u8>, Seq<u8>)>
    decreases s.len(),
{
    if s.len() == 0 {
        None
    } else if s.first() == 0x22 {
        Some((Seq::empty(), s.drop_first()))
    } else if is_string_byte(s.first()) {
        match scan_string(s.drop_first()) {
            None => None,
            Some((c, r)) => Some((seq![s.first()] + c, r)),
        }
    } else {
        None
    }
}

/// A successful scan splits the input as content, closing quote, rest.
proof fn lemma_scan_string_shape(s: Seq<u8>)
    ensures
        scan_string(s) matches Some((c, r)) ==> s == c + seq![0x22u8] + r && c.len() + 1 + r.len()
            == s.len() && (forall|i: int| 0 <= i < c.len() ==> is_string_byte(#[trigger] c[i])),
    decreases s.len(),
{
    if s.len() == 0 {
    } else if s.first() == 0x22 {
        match scan_string(s) {
            Some((c, r)) => {
                assert(s =~= c + seq![0x22u8] + r);
            },
            None => {},
        }
    } else if is_string_byte(s.first()) {
        lemma_scan_string_shape(s.drop_first());
        match scan_string(s.drop_first()) {
            Some((c2, r2)) => {
                assert(s =~= seq![s.first()] + s.drop_first());
                assert(seq![s.first()] + (c2 + seq![0x22u8] + r2) =~= (seq![s.first()] + c2) + seq![
                    0x22u8,
                ] + r2);
            },
            None => {},
        }
    } else {
    }
}

/// Scanning a well-formed rendering finds exactly the content put there.
proof fn lemma_scan_string_complete(c: Seq<u8>, r: Seq<u8>)
    requires
        forall|i: int| 0 <= i < c.len() ==> is_string_byte(#[trigger] c[i]),
    ensures
        scan_string(c + seq![0x22u8] + r) == Some((c, r)),
    decreases c.len(),
{
    let s = c + seq![0x22u8] + r;
    if c.len() == 0 {
        assert(s.first() == 0x22);
        assert(s.drop_first() =~= r);
        assert(c =~= Seq::<u8>::empty());
    } else {
        assert(s.first() == c[0]);
        assert(is_string_byte(c[0]));
        assert(s.drop_first() =~= c.drop_first() + seq![0x22u8] + r);
        lemma_scan_string_complete(c.drop_first(), r);
        assert(seq![s.first()] + c.drop_first() =~= c);
    }
}

/// Parse a comma-separated list of JSON strings, positioned after `[` or
/// after a separating comma (whitespace allowed), consuming through the
/// closing `]`.
pub open spec fn parse_items(s: Seq<u8>) -> Option<(Seq<Seq<u8>>, Seq<u8>)>
    decreases s.len(),
    via parse_items_dec
{
    let t = skip_ws(s);
    if t.len() == 0 || t.first() != 0x22 {
        None
    } else {
        match scan_string(t.drop_first()) {
            None => None,
            Some((c, r)) => {
                let r2 = skip_ws(r);
                if r2.len() == 0 {
                    None
                } else if r2.first() == 0x2c {
                    match parse_items(r2.drop_first()) {
                        None => None,
                        Some((items, rest)) => Some((seq![c] + items, rest)),
                    }
                } else if r2.first() == 0x5d {
                    Some((seq![c], r2.drop_first()))
                } else {
                    None
                }
            },
        }
    }
}

#[via_fn]
proof fn parse_items_dec(s: Seq<u8>) {
    lemma_ws_len(s);
    let t = skip_ws(s);
    if t.len() > 0 && t.first() == 0x22 {
        lemma_scan_string_shape(t.drop_first());
        match scan_string(t.drop_first()) {
            Some((c, r)) => {
                lemma_ws_len(r);
            },
            None => {},
        }
    }
}

/// Parse a quoted object key followed by a colon (whitespace allowed): the
/// key's bytes and the rest after the colon.
pub open spec fn parse_key(s: Seq<u8>) -> Option<(Seq<u8>, Seq<u8>)> {
    let t = skip_ws(s);
    if t.len() == 0 || t.first() != 0x22 {
        None
    } else {
        match scan_string(t.drop_first()) {
            None => None,
            Some((key, r)) => {
                let r2 = skip_ws(r);
                if r2.len() > 0 && r2.first() == 0x3a {
                    Some((key, r2.drop_first()))
                } else {
                    None
                }
            },
        }
    }
}

/// Parse a number value: whitespace, then decimal digits fitting a `u32`.
pub open spec fn parse_number(s: Seq<u8>) -> Option<(nat, Seq<u8>)> {
    let t = skip_ws(s);
    let d = digits_len(t) as int;
    if d == 0 || digits_val(t.take(d)) > u32::MAX as nat {
        None
    } else {
        Some((digits_val(t.take(d)), t.skip(d)))
    }
}

/// Parse the nullifier array: whitespace, `[`, then either an immediate `]`
/// or the comma-separated strings.
pub open spec fn parse_array(s: Seq<u8>) -> Option<(Seq<Seq<u8>>, Seq<u8>)> {
    let t = skip_ws(s);
    if t.len() == 0 || t.first() != 0x5b {
        None
    } else {
        let u = skip_ws(t.drop_first());
        if u.len() > 0 && u.first() == 0x5d {
            Some((Seq::empty(), u.drop_first()))
        } else {
            parse_items(t.drop_first())
        }
    }
}

/// The object closes and nothing but whitespace follows.
pub open spec fn close_ok(s: Seq<u8>) -> bool {
    let t = skip_ws(s);
    t.len() > 0 && t.first() == 0x7d && skip_ws(t.drop_first()).len() == 0
}

/// Parse a JSON rendering of the export object: one `version` field and one
/// `nullifiers` field, in either order, with insignificant whitespace
/// allowed around every structural token.
pub open spec fn parse_export(s: Seq<u8>) -> Option<(nat, Seq<Seq<u8>>)> {
    let t = skip_ws(s);
    if t.len() == 0 || t.first() != 0x7b {
        None
    } else {
        match parse_key(t.drop_first()) {
            None => None,
            Some((k1, r1)) => {
                if k1 == version_key() {
                    match parse_number(r1) {
                        None => None,
                        Some((v, r2)) => {
                            let r3 = skip_ws(r2);
                            if r3.len() == 0 || r3.first() != 0x2c {
                                None
                            } else {
                                match parse_key(r3.drop_first()) {
                                    None => None,
                                    Some((k2, r4)) => {
                                        if k2 != nullifiers_key() {
                                            None
                                        } else {
                                            match parse_array(r4) {
                                                None => None,
                                                Some((items, r5)) => {
                                                    if close_ok(r5) {
                                                        Some((v, items))
                                                    } else {
                                                        None
                                                    }
                                                },
                                            }
                                        }
                                    },
                                }
                            }
                        },
                    }
                } else if k1 == nullifiers_key() {
                    match parse_array(r1) {
                        None => None,
                        Some((items, r2)) => {
                            let r3 = skip_ws(r2);
                            if r3.len() == 0 || r3.first() != 0x2c {
                                None
                            } else {
                                match parse_key(r3.drop_first()) {
                                    None => None,
                                    Some((k2, r4)) => {
                                        if k2 != version_key() {
                                            None
                                        } else {
                                            match parse_number(r4) {
                                                None => None,
                                                Some((v, r5)) => {
                                                    if close_ok(r5) {
                                                        Some((v, items))
                                                    } else {
                                                        None
                                                    }
                                                },
                                            }
                                        }
                                    },
                                }
                            }
                        },
                    }
                } else {
                    None
                }
            },
        }
    }
}

// ---------------------------------------------------------------------------
// The canonical rendering
// ---------------------------------------------------------------------------
/// The rendering of the nullifier list and everything after it: each member
/// hex-encoded and quoted, comma-separated, closed by `]}`.
pub open spec fn canon_items(m: Seq<Seq<u8>>) -> Seq<u8>
    decreases m.len(),
{
    if m.len() == 0 {
        seq![0x5du8, 0x7du8]
    } else {
        seq![0x22u8] + hex_bytes(m.first()) + seq![0x22u8] + (if m.len() == 1 {
            seq![0x5du8, 0x7du8]
        } else {
            seq![0x2cu8] + canon_items(m.drop_first())
        })
    }
}

/// The full canonical export rendering of a member list.
pub open spec fn export_bytes(m: Seq<Seq<u8>>) -> Seq<u8> {
    head_bytes() + seq![0x31u8] + mid_bytes() + canon_items(m)
}

// ---------------------------------------------------------------------------
// The import pipeline's outcome, as a specification
// ---------------------------------------------------------------------------
/// Why a parsed nullifier list fails to import.
pub ghost enum ImportError {
    /// A string is not valid hex
    InvalidHex,
    /// A string decodes to the wrong number of bytes
    InvalidNullifier { code: NullifierErrorCode },
}

/// Sequentially hex-decode and validate the parsed strings; the first
/// failure decides the error.
pub open spec fn import_items(items: Seq<Seq<u8>>) -> Result<Seq<Seq<u8>>, ImportError>
    decreases items.len(),
{
    if items.len() == 0 {
        Ok(Seq::empty())
    } else {
        let h = items.first();
        if !hex_decodable(h) {
            Err(ImportError::InvalidHex)
        } else {
            let d = hex_decode(h);
            if d.len() == 0 {
                Err(ImportError::InvalidNullifier { code: NullifierErrorCode::Empty })
            } else if d.len() != 32 {
                Err(ImportError::InvalidNullifier { code: NullifierErrorCode::WrongLength })
            } else {
                match import_items(items.drop_first()) {
                    Ok(rest) => Ok(seq![d] + rest),
                    Err(e) => Err(e),
                }
            }
        }
    }
}

/// Everything `import_nullifier_set` promises about its result, for given
/// input bytes: parse failures and unsupported versions are serialization
/// errors; a bad hex string is a serialization error; a wrong-length
/// nullifier is a nullifier error with the matching code; otherwise the
/// members of the returned set are exactly the decoded nullifiers.
pub open spec fn import_behavior(s: Seq<u8>, r: SparkResult<NullifierSet>) -> bool {
    match parse_export(s) {
        None => r matches Err(e) && e is SerializationError,
        Some((v, items)) => {
            if v > CURRENT_VERSION as nat {
                r matches Err(e) && e is SerializationError
            } else {
                match import_items(items) {
                    Err(ImportError::InvalidHex) => r matches Err(e) && e is SerializationError,
                    Err(ImportError::InvalidNullifier { code }) => r matches Err(e)
                        && is_nullifier_error(e, code),
                    Ok(decoded) => r matches Ok(set) && set.wf() && (forall|x: Seq<u8>|
                        set@.contains(x) <==> decoded.contains(x)),
                }
            }
        },
    }
}

// ---------------------------------------------------------------------------
// Executable parsing helpers
// ---------------------------------------------------------------------------
/// The opening bytes as a vector.
fn head_vec() -> (r: Vec<u8>)
    ensures
        r@ == head_bytes(),
{
    let mut out: Vec<u8> = Vec::new();
    out.push(0x7bu8);
    out.push(0x22u8);
    out.push(0x76u8);
    out.push(0x65u8);
    out.push(0x72u8);
    out.push(0x73u8);
    out.push(0x69u8);
    out.push(0x6fu8);
    out.push(0x6eu8);
    out.push(0x22u8);
    out.push(0x3au8);
    proof {
        assert(out@ =~= head_bytes());
    }
    out
}

/// The middle bytes as a vector.
fn mid_vec() -> (r: Vec<u8>)
    ensures
        r@ == mid_bytes(),
{
    let mut out: Vec<u8> = Vec::new();
    out.push(0x2cu8);
    out.push(0x22u8);
    out.push(0x6eu8);
    out.push(0x75u8);
    out.push(0x6cu8);
    out.push(0x6cu8);
    out.push(0x69u8);
    out.push(0x66u8);
    out.push(0x69u8);
    out.push(0x65u8);
    out.push(0x72u8);
    out.push(0x73u8);
    out.push(0x22u8);
    out.push(0x3au8);
    out.push(0x5bu8);
    proof {
        assert(out@ =~= mid_bytes());
    }
    out
}

/// Scan the run of decimal digits starting at `start`: the index after the
/// run, and its value when there is a run and the value fits a `u32`.
fn scan_digits(v: &Vec<u8>, start: usize) -> (r: (Option<u32>, usize))
    requires
        start <= v@.len(),
    ensures
        r.1 == start + digits_len(v@.skip(start as int)),
        start <= r.1 <= v@.len(),
        r.0 is Some <==> digits_len(v@.skip(start as int)) > 0 && digits_val(
            v@.subrange(start as int, r.1 as int),
        ) <= u32::MAX as nat,
        r.0 matches Some(x) ==> x as nat == digits_val(v@.subrange(start as int, r.1 as int)),
{
    let n = v.len();
    let mut i: usize = start;
    let mut acc: u64 = 0;
    let mut over: bool = false;
    proof {
        assert(v@.subrange(start as int, start as int) =~= Seq::<u8>::empty());
    }
    while i < n && 0x30 <= v[i] && v[i] <= 0x39
        invariant
            start <= i <= n,
            n == v@.len(),
            digits_len(v@.skip(start as int)) == (i - start) + digits_len(v@.skip(i as int)),
            !over ==> acc as nat == digits_val(v@.subrange(start as int, i as int)) && acc <= (
            u32::MAX as u64),
            over ==> digits_val(v@.subrange(start as int, i as int)) > u32::MAX as nat,
        decreases n - i,
    {
        let d = v[i] - 0x30;
        proof {
            assert(v@.skip(i as int).first() == v@[i as int]);
            assert(v@.skip(i as int).drop_first() =~= v@.skip(i + 1 as int));
            let sub1 = v@.subrange(start as int, i + 1 as int);
            assert(sub1.take(sub1.len() - 1) =~= v@.subrange(start as int, i as int));
            assert(sub1.last() == v@[i as int]);
        }
        if !over {
            acc = acc * 10 + (d as u64);
            if acc > (u32::MAX as u64) {
                over = true;
            }
        }
        i = i + 1;
    }
    proof {
        if i == n {
            assert(v@.skip(i as int) =~= Seq::<u8>::empty());
        } else {
            assert(v@.skip(i as int).first() == v@[i as int]);
        }
        assert(digits_len(v@.skip(i as int)) == 0);
    }
    if over || i == start {
        (None, i)
    } else {
        (Some(acc as u32), i)
    }
}

/// Scan a quoted string at `start`: its content and the index after the
/// closing quote.
fn scan_quoted(v: &Vec<u8>, start: usize) -> (r: Option<(Vec<u8>, usize)>)
    requires
        start <= v@.len(),
    ensures
        r is Some <==> (start < v@.len() && v@[start as int] == 0x22 && scan_string(
            v@.skip(start + 1),
        ) is Some),
        r matches Some((c, end)) ==> (scan_string(v@.skip(start + 1)) matches Some((sc, rest)) && c@
            == sc && start + 2 <= end <= v@.len() && rest == v@.skip(end as int)),
{
    let n = v.len();
    if start >= n || v[start] != 0x22 {
        return None;
    }
    let mut i: usize = start + 1;
    let mut out: Vec<u8> = Vec::new();
    while i < n
        invariant
            start + 1 <= i <= n,
            n == v@.len(),
            v@[start as int] == 0x22,
            ({
                let a = scan_string(v@.skip(start + 1));
                let b = scan_string(v@.skip(i as int));
                &&& (b is None ==> a is None)
                &&& (b matches Some((c, r)) ==> (a matches Some((ac, ar)) && ac == out@ + c && ar
                    == r))
            }),
        decreases n - i,
    {
        proof {
            assert(v@.skip(i as int).first() == v@[i as int]);
            assert(v@.skip(i as int).drop_first() =~= v@.skip(i + 1 as int));
        }
        let b = v[i];
        if b == 0x22 {
            proof {
                assert(out@ + Seq::<u8>::empty() =~= out@);
            }
            return Some((out, i + 1));
        }
        if b == 0x5c || b < 0x20 {
            return None;
        }
        let ghost out0 = out@;
        out.push(b);
        proof {
            match scan_string(v@.skip(i + 1 as int)) {
                Some((c2, r2)) => {
                    assert(out0 + (seq![v@[i as int]] + c2) =~= out@ + c2);
                },
                None => {},
            }
        }
        i = i + 1;
    }
    proof {
        assert(v@.skip(n as int) =~= Seq::<u8>::empty());
    }
    None
}

/// Parse the comma-separated string list at `start`, consuming through `]`:
/// the contents and the index after the bracket.
/// A string whose first byte is not whitespace loses nothing to `skip_ws`.
proof fn lemma_skip_ws_noop(s: Seq<u8>)
    requires
        s.len() == 0 || !is_ws(s.first()),
    ensures
        skip_ws(s) == s,
{
    assert(ws_len(s) == 0);
    assert(s.skip(0) =~= s);
}

/// Advance past insignificant whitespace.
fn skip_ws_exec(v: &Vec<u8>, start: usize) -> (r: usize)
    requires
        start <= v@.len(),
    ensures
        start <= r <= v@.len(),
        r == start + ws_len(v@.skip(start as int)),
        v@.skip(r as int) == skip_ws(v@.skip(start as int)),
{
    let n = v.len();
    let mut i: usize = start;
    while i < n && (v[i] == 0x20 || v[i] == 0x09 || v[i] == 0x0a || v[i] == 0x0d)
        invariant
            start <= i <= n,
            n == v@.len(),
            ws_len(v@.skip(start as int)) == (i - start) + ws_len(v@.skip(i as int)),
        decreases n - i,
    {
        proof {
            assert(v@.skip(i as int).first() == v@[i as int]);
            assert(v@.skip(i as int).drop_first() =~= v@.skip(i + 1 as int));
        }
        i = i + 1;
    }
    proof {
        if i == n {
            assert(v@.skip(i as int) =~= Seq::<u8>::empty());
        } else {
            assert(v@.skip(i as int).first() == v@[i as int]);
        }
        assert(ws_len(v@.skip(i as int)) == 0);
        assert(skip_ws(v@.skip(start as int)) =~= v@.skip(i as int));
    }
    i
}

/// The bytes of the key `version` as a vector.
fn version_key_vec() -> (r: Vec<u8>)
    ensures
        r@ == version_key(),
{
    let mut out: Vec<u8> = Vec::new();
    out.push(0x76u8);
    out.push(0x65u8);
    out.push(0x72u8);
    out.push(0x73u8);
    out.push(0x69u8);
    out.push(0x6fu8);
    out.push(0x6eu8);
    proof {
        assert(out@ =~= version_key());
    }
    out
}

/// The bytes of the key `nullifiers` as a vector.
fn nullifiers_key_vec() -> (r: Vec<u8>)
    ensures
        r@ == nullifiers_key(),
{
    let mut out: Vec<u8> = Vec::new();
    out.push(0x6eu8);
    out.push(0x75u8);
    out.push(0x6cu8);
    out.push(0x6cu8);
    out.push(0x69u8);
    out.push(0x66u8);
    out.push(0x69u8);
    out.push(0x65u8);
    out.push(0x72u8);
    out.push(0x73u8);
    proof {
        assert(out@ =~= nullifiers_key());
    }
    out
}

/// Parse a quoted key and its colon at `start`: the key's bytes and the
/// index after the colon.
fn parse_key_exec(v: &Vec<u8>, start: usize) -> (r: Option<(Vec<u8>, usize)>)
    requires
        start <= v@.len(),
    ensures
        r is Some <==> parse_key(v@.skip(start as int)) is Some,
        r matches Some((key, end)) ==> (parse_key(v@.skip(start as int)) matches Some((sk, rest))
            && key@ == sk && start <= end <= v@.len() && rest == v@.skip(end as int)),
{
    let n = v.len();
    let i = skip_ws_exec(v, start);
    proof {
        if i < n {
            assert(v@.skip(i as int).first() == v@[i as int]);
            assert(v@.skip(i as int).drop_first() =~= v@.skip(i + 1 as int));
        }
    }
    match scan_quoted(v, i) {
        None => None,
        Some((key, after)) => {
            let j = skip_ws_exec(v, after);
            if j < n && v[j] == 0x3a {
                proof {
                    assert(v@.skip(j as int).first() == v@[j as int]);
                    assert(v@.skip(j as int).drop_first() =~= v@.skip(j + 1 as int));
                }
                Some((key, j + 1))
            } else {
                None
            }
        },
    }
}

/// Parse a number value at `start`: its value and the index after the
/// digits.
fn parse_number_exec(v: &Vec<u8>, start: usize) -> (r: Option<(u32, usize)>)
    requires
        start <= v@.len(),
    ensures
        r is Some <==> parse_number(v@.skip(start as int)) is Some,
        r matches Some((x, end)) ==> (parse_number(v@.skip(start as int)) matches Some((sv, rest))
            && x as nat == sv && start <= end <= v@.len() && rest == v@.skip(end as int)),
{
    let i = skip_ws_exec(v, start);
    let (opt, end) = scan_digits(v, i);
    proof {
        let t = skip_ws(v@.skip(start as int));
        assert(t.take(digits_len(t) as int) =~= v@.subrange(i as int, end as int));
        assert(t.skip(digits_len(t) as int) =~= v@.skip(end as int));
    }
    match opt {
        Some(x) => Some((x, end)),
        None => None,
    }
}

/// Parse the comma-separated string list at `start` (after `[` or a comma),
/// consuming through `]`: the contents and the index after the bracket.
fn parse_items_exec(v: &Vec<u8>, start: usize) -> (r: Option<(Vec<Vec<u8>>, usize)>)
    requires
        start <= v@.len(),
    ensures
        r is Some <==> parse_items(v@.skip(start as int)) is Some,
        r matches Some((items, end)) ==> (parse_items(v@.skip(start as int)) matches Some(
            (sitems, rest),
        ) && crate::nullifier::byte_views(items@) == sitems && start < end <= v@.len() && rest
            == v@.skip(end as int)),
{
    let n = v.len();
    let mut cur: usize = start;
    let mut out: Vec<Vec<u8>> = Vec::new();
    proof {
        assert(crate::nullifier::byte_views(out@) =~= Seq::<Seq<u8>>::empty());
    }
    loop
        invariant
            start <= cur <= n,
            n == v@.len(),
            ({
                let a = parse_items(v@.skip(start as int));
                let b = parse_items(v@.skip(cur as int));
                &&& (b is None ==> a is None)
                &&& (b matches Some((its, rest)) ==> (a matches Some((aits, arest)) && aits
                    == crate::nullifier::byte_views(out@) + its && arest == rest))
            }),
        decreases n - cur,
    {
        let i2 = skip_ws_exec(v, cur);
        proof {
            if i2 < n {
                assert(v@.skip(i2 as int).first() == v@[i2 as int]);
                assert(v@.skip(i2 as int).drop_first() =~= v@.skip(i2 + 1 as int));
            }
        }
        match scan_quoted(v, i2) {
            None => {
                return None;
            },
            Some((content, after)) => {
                let j = skip_ws_exec(v, after);
                if j >= n {
                    return None;
                }
                proof {
                    assert(v@.skip(j as int).first() == v@[j as int]);
                    assert(v@.skip(j as int).drop_first() =~= v@.skip(j + 1 as int));
                }
                let delim = v[j];
                let ghost out0 = out@;
                if delim == 0x2c {
                    out.push(content);
                    proof {
                        assert(crate::nullifier::byte_views(out@) =~= crate::nullifier::byte_views(
                            out0,
                        ).push(content@));
                        match parse_items(v@.skip(j + 1 as int)) {
                            Some((its2, rest2)) => {
                                assert(crate::nullifier::byte_views(out0) + (seq![content@] + its2)
                                    =~= crate::nullifier::byte_views(out@) + its2);
                            },
                            None => {},
                        }
                    }
                    cur = j + 1;
                } else if delim == 0x5d {
                    out.push(content);
                    proof {
                        assert(crate::nullifier::byte_views(out@) =~= crate::nullifier::byte_views(
                            out0,
                        ).push(content@));
                        assert(crate::nullifier::byte_views(out0) + seq![content@]
                            =~= crate::nullifier::byte_views(out@));
                    }
                    return Some((out, j + 1));
                } else {
                    return None;
                }
            },
        }
    }
}

/// Parse the nullifier array at `start`: the contents and the index after
/// the closing bracket.
fn parse_array_exec(v: &Vec<u8>, start: usize) -> (r: Option<(Vec<Vec<u8>>, usize)>)
    requires
        start <= v@.len(),
    ensures
        r is Some <==> parse_array(v@.skip(start as int)) is Some,
        r matches Some((items, end)) ==> (parse_array(v@.skip(start as int)) matches Some(
            (sitems, rest),
        ) && crate::nullifier::byte_views(items@) == sitems && start <= end <= v@.len() && rest
            == v@.skip(end as int)),
{
    let n = v.len();
    let i = skip_ws_exec(v, start);
    if i >= n || v[i] != 0x5b {
        return None;
    }
    proof {
        assert(v@.skip(i as int).first() == v@[i as int]);
        assert(v@.skip(i as int).drop_first() =~= v@.skip(i + 1 as int));
    }
    let j = skip_ws_exec(v, i + 1);
    if j < n && v[j] == 0x5d {
        proof {
            assert(v@.skip(j as int).first() == v@[j as int]);
            assert(v@.skip(j as int).drop_first() =~= v@.skip(j + 1 as int));
        }
        let empty_items: Vec<Vec<u8>> = Vec::new();
        proof {
            assert(crate::nullifier::byte_views(empty_items@) =~= Seq::<Seq<u8>>::empty());
        }
        return Some((empty_items, j + 1));
    }
    parse_items_exec(v, i + 1)
}

// ---------------------------------------------------------------------------
// Import and export
// ---------------------------------------------------------------------------
/// A serialization error with the given message.
fn serialization_error(message: &str) -> (r: SparkError)
    ensures
        r is SerializationError,
{
    SparkError::SerializationError { message: message.to_owned() }
}

/// `seq![d]` contains exactly `d`.
proof fn lemma_singleton_contains(d: Seq<u8>, x: Seq<u8>)
    ensures
        seq![d].contains(x) <==> x == d,
{
    if seq![d].contains(x) {
        let i = choose|i: int| 0 <= i < 1 && seq![d][i] == x;
        assert(seq![d][0] == d);
    }
    if x == d {
        assert(seq![d][0] == x);
    }
}

/// Imports a nullifier set from its JSON wire form.
///
/// Any JSON rendering of the two-field object is accepted: insignificant
/// whitespace around the structural tokens, either field order, any version
/// number, either hex case. A parse failure or a version above
/// `CURRENT_VERSION` is a serialization error; a non-hex nullifier string is
/// a serialization error; a wrong-length nullifier is a nullifier error;
/// nothing is imported on any failure. On success the set's members are
/// exactly the decoded nullifiers.
pub fn import_nullifier_set(json: &str) -> (r: SparkResult<NullifierSet>)
    ensures
        import_behavior(json.spec_bytes(), r),
{
    let v = json.as_bytes_vec();
    let n = v.len();
    let ghost s = json.spec_bytes();
    proof {
        assert(v@.skip(0) =~= v@);
    }
    // The object opens.
    let i0 = skip_ws_exec(&v, 0);
    if i0 >= n || v[i0] != 0x7b {
        return Err(serialization_error("Failed to deserialize nullifier set"));
    }
    proof {
        assert(v@.skip(i0 as int).first() == v@[i0 as int]);
        assert(v@.skip(i0 as int).drop_first() =~= v@.skip(i0 + 1 as int));
    }
    // The first key decides the field order.
    let (key1, p1) = match parse_key_exec(&v, i0 + 1) {
        None => {
            return Err(serialization_error("Failed to deserialize nullifier set"));
        },
        Some(x) => x,
    };
    let vkey = version_key_vec();
    let nkey = nullifiers_key_vec();
    let k1_is_version = crypto::bytes_eq(key1.as_slice(), vkey.as_slice());
    let k1_is_nullifiers = crypto::bytes_eq(key1.as_slice(), nkey.as_slice());
    if !k1_is_version && !k1_is_nullifiers {
        return Err(serialization_error("Failed to deserialize nullifier set"));
    }
    let ver: u32;
    let items: Vec<Vec<u8>>;
    let close_pos: usize;
    if k1_is_version {
        // The version, a comma, then the nullifier list.
        let (x, p2) = match parse_number_exec(&v, p1) {
            None => {
                return Err(serialization_error("Failed to deserialize nullifier set"));
            },
            Some(x) => x,
        };
        let p3 = skip_ws_exec(&v, p2);
        if p3 >= n || v[p3] != 0x2c {
            return Err(serialization_error("Failed to deserialize nullifier set"));
        }
        proof {
            assert(v@.skip(p3 as int).first() == v@[p3 as int]);
            assert(v@.skip(p3 as int).drop_first() =~= v@.skip(p3 + 1 as int));
        }
        let (key2, p4) = match parse_key_exec(&v, p3 + 1) {
            None => {
                return Err(serialization_error("Failed to deserialize nullifier set"));
            },
            Some(x) => x,
        };
        if !crypto::bytes_eq(key2.as_slice(), nkey.as_slice()) {
            return Err(serialization_error("Failed to deserialize nullifier set"));
        }
        let (its, p5) = match parse_array_exec(&v, p4) {
            None => {
                return Err(serialization_error("Failed to deserialize nullifier set"));
            },
            Some(x) => x,
        };
        ver = x;
        items = its;
        close_pos = p5;
    } else {
        // The nullifier list, a comma, then the version.
        let (its, p2) = match parse_array_exec(&v, p1) {
            None => {
                return Err(serialization_error("Failed to deserialize nullifier set"));
            },
            Some(x) => x,
        };
        let p3 = skip_ws_exec(&v, p2);
        if p3 >= n || v[p3] != 0x2c {
            return Err(serialization_error("Failed to deserialize nullifier set"));
        }
        proof {
            assert(v@.skip(p3 as int).first() == v@[p3 as int]);
            assert(v@.skip(p3 as int).drop_first() =~= v@.skip(p3 + 1 as int));
        }
        let (key2, p4) = match parse_key_exec(&v, p3 + 1) {
            None => {
                return Err(serialization_error("Failed to deserialize nullifier set"));
            },
            Some(x) => x,
        };
        if !crypto::bytes_eq(key2.as_slice(), vkey.as_slice()) {
            return Err(serialization_error("Failed to deserialize nullifier set"));
        }
        let (x, p5) = match parse_number_exec(&v, p4) {
            None => {
                return Err(serialization_error("Failed to deserialize nullifier set"));
            },
            Some(x) => x,
        };
        ver = x;
        items = its;
        close_pos = p5;
    }
    // The object closes, and only whitespace may follow.
    let c1 = skip_ws_exec(&v, close_pos);
    if c1 >= n || v[c1] != 0x7d {
        return Err(serialization_error("Failed to deserialize nullifier set"));
    }
    proof {
        assert(v@.skip(c1 as int).first() == v@[c1 as int]);
        assert(v@.skip(c1 as int).drop_first() =~= v@.skip(c1 + 1 as int));
    }
    let c2 = skip_ws_exec(&v, c1 + 1);
    if c2 != n {
        return Err(serialization_error("Failed to deserialize nullifier set"));
    }
    let ghost sitems: Seq<Seq<u8>> = crate::nullifier::byte_views(items@);
    proof {
        assert(parse_export(s) == Some((ver as nat, sitems)));
    }
    // The version must be supported.
    if ver > CURRENT_VERSION {
        return Err(serialization_error("Unsupported version"));
    }
    // Decode and record each nullifier.
    let m = items.len();
    let mut set = NullifierSet::new();
    let ghost mut dec: Seq<Seq<u8>> = Seq::empty();
    let mut k: usize = 0;
    proof {
        assert(sitems.skip(0) =~= sitems);
    }
    while k < m
        invariant
            k <= m,
            m == items@.len(),
            m == sitems.len(),
            sitems == crate::nullifier::byte_views(items@),
            s == json.spec_bytes(),
            parse_export(s) == Some((ver as nat, sitems)),
            ver <= CURRENT_VERSION,
            set.wf(),
            forall|x: Seq<u8>| set@.contains(x) <==> dec.contains(x),
            ({
                let a = import_items(sitems);
                let b = import_items(sitems.skip(k as int));
                &&& (b matches Err(e) ==> a == Err::<Seq<Seq<u8>>, ImportError>(e))
                &&& (b matches Ok(rest) ==> a == Ok::<Seq<Seq<u8>>, ImportError>(dec + rest))
            }),
        decreases m - k,
    {
        proof {
            assert(sitems.skip(k as int).first() == sitems[k as int]);
            assert(sitems.skip(k as int).drop_first() =~= sitems.skip(k + 1 as int));
            assert(sitems[k as int] == items@[k as int]@);
        }
        let item = &items[k];
        let decoded = match hex_decode_bytes(item.as_slice()) {
            None => {
                return Err(serialization_error("Invalid hex encoding"));
            },
            Some(d) => d,
        };
        match validate_nullifier(decoded.as_slice()) {
            Err(e) => {
                return Err(e);
            },
            Ok(()) => {},
        }
        let nf = match Nullifier::from_slice(decoded.as_slice()) {
            Ok(nf) => nf,
            Err(e) => {
                // Unreachable: the length was just validated.
                proof {
                    assert(false);
                }
                return Err(e);
            },
        };
        let ghost set0 = set@;
        let ghost dec0 = dec;
        let added = set.add(nf);
        proof {
            dec = dec0 + seq![decoded@];
            assert forall|x: Seq<u8>| set@.contains(x) <==> dec.contains(x) by {
                crate::nullifier::lemma_concat_contains(dec0, seq![decoded@], x);
                lemma_singleton_contains(decoded@, x);
                if added {
                    crate::nullifier::lemma_concat_contains(set0, seq![decoded@], x);
                    assert(set0.push(nf@) =~= set0 + seq![decoded@]);
                }
            }
            match import_items(sitems.skip(k + 1 as int)) {
                Ok(rest2) => {
                    assert(dec0 + (seq![decoded@] + rest2) =~= dec + rest2);
                },
                Err(_) => {},
            }
        }
        k = k + 1;
    }
    proof {
        assert(sitems.skip(m as int) =~= Seq::<Seq<u8>>::empty());
        assert(dec + Seq::<Seq<u8>>::empty() =~= dec);
    }
    Ok(set)
}

/// Relies on String::from_utf8 and the UTF-8 encoding: bytes below 0x80 are
/// valid UTF-8, and the returned string's UTF-8 encoding is exactly the
/// input bytes.
#[verifier::external_body]
fn string_from_ascii(bytes: Vec<u8>) -> (r: String)
    requires
        forall|i: int| 0 <= i < bytes@.len() ==> bytes@[i] < 0x80,
    ensures
        vstd::utf8::encode_utf8(r@) == bytes@,
{
    String::from_utf8(bytes).unwrap_or_default()
}

/// Append a hex-encoded, quoted member.
fn push_quoted_hex(out: &mut Vec<u8>, member: &[u8])
    ensures
        final(out)@ == old(out)@ + seq![0x22u8] + hex_bytes(member@) + seq![0x22u8],
{
    out.push(0x22u8);
    let h = hex_encode_bytes(member);
    crypto::append_bytes(out, h.as_slice());
    out.push(0x22u8);
    proof {
        assert(out@ =~= old(out)@ + seq![0x22u8] + hex_bytes(member@) + seq![0x22u8]);
    }
}

/// The rendering after the first `k` members have been emitted.
spec fn canon_tail(m: Seq<Seq<u8>>, k: int) -> Seq<u8> {
    if k == m.len() {
        seq![0x5du8, 0x7du8]
    } else {
        seq![0x2cu8] + canon_items(m.skip(k))
    }
}

/// Hex encodings consist of hex digit bytes, which are ASCII.
proof fn lemma_hex_bytes_ascii(bs: Seq<u8>)
    ensures
        forall|i: int| 0 <= i < hex_bytes(bs).len() ==> (#[trigger] hex_bytes(bs)[i]) < 0x80,
    decreases bs.len(),
{
    if bs.len() == 0 {
    } else {
        lemma_hex_bytes_ascii(bs.drop_first());
        lemma_hex_digit_shape(bs.first() / 16);
        lemma_hex_digit_shape(bs.first() % 16);
        let h = hex_bytes(bs);
        assert forall|i: int| 0 <= i < h.len() implies (#[trigger] h[i]) < 0x80 by {
            if i >= 2 {
                assert(h[i] == hex_bytes(bs.drop_first())[i - 2]);
            }
        }
    }
}

/// Every byte of the canonical rendering is ASCII.
proof fn lemma_canon_items_ascii(m: Seq<Seq<u8>>)
    ensures
        forall|i: int| 0 <= i < canon_items(m).len() ==> (#[trigger] canon_items(m)[i]) < 0x80,
    decreases m.len(),
{
    if m.len() == 0 {
    } else {
        lemma_canon_items_ascii(m.drop_first());
        lemma_hex_bytes_ascii(m.first());
        let h = hex_bytes(m.first());
        let rest: Seq<u8> = if m.len() == 1 {
            seq![0x5du8, 0x7du8]
        } else {
            seq![0x2cu8] + canon_items(m.drop_first())
        };
        let c = canon_items(m);
        assert(c =~= seq![0x22u8] + h + seq![0x22u8] + rest);
        assert forall|i: int| 0 <= i < c.len() implies (#[trigger] c[i]) < 0x80 by {
            if i == 0 {
                assert(c[i] == 0x22);
            } else if i < 1 + h.len() {
                assert(c[i] == h[i - 1]);
            } else if i == 1 + h.len() {
                assert(c[i] == 0x22);
            } else {
                assert(c[i] == rest[i - h.len() - 2]);
                if m.len() > 1 && i - h.len() - 2 > 0 {
                    assert(rest[i - h.len() - 2] == canon_items(m.drop_first())[i - h.len() - 3]);
                }
            }
        }
    }
}

/// Exports a nullifier set to its JSON wire form.
///
/// Always succeeds, producing exactly the canonical rendering of the set's
/// members in insertion order.
pub fn export_nullifier_set(spent_set: &NullifierSet) -> (r: SparkResult<String>)
    ensures
        r is Ok,
        r matches Ok(j) ==> vstd::utf8::encode_utf8(j@) == export_bytes(spent_set@),
{
    let ghost sv = spent_set@;
    let members = spent_set.export();
    let n = members.len();
    let mut out: Vec<u8> = Vec::new();
    let head = head_vec();
    crypto::append_bytes(&mut out, head.as_slice());
    out.push(0x31u8);
    let mid = mid_vec();
    crypto::append_bytes(&mut out, mid.as_slice());
    if n == 0 {
        out.push(0x5du8);
        out.push(0x7du8);
        proof {
            assert(out@ =~= export_bytes(sv));
        }
    } else {
        push_quoted_hex(&mut out, members[0].as_slice());
        proof {
            assert(sv.skip(0) =~= sv);
            assert(sv.drop_first() =~= sv.skip(1));
            assert(out@ + canon_tail(sv, 1) =~= export_bytes(sv));
        }
        let mut k: usize = 1;
        while k < n
            invariant
                1 <= k <= n,
                n == sv.len(),
                n == members@.len(),
                forall|t: int| 0 <= t < n ==> (#[trigger] members@[t])@ == sv[t],
                out@ + canon_tail(sv, k as int) == export_bytes(sv),
            decreases n - k,
        {
            out.push(0x2cu8);
            push_quoted_hex(&mut out, members[k].as_slice());
            proof {
                assert(sv.skip(k as int).first() == sv[k as int]);
                assert(sv.skip(k as int).drop_first() =~= sv.skip(k + 1 as int));
                assert(out@ + canon_tail(sv, k + 1 as int) =~= export_bytes(sv));
            }
            k = k + 1;
        }
        out.push(0x5du8);
        out.push(0x7du8);
        proof {
            assert(out@ =~= export_bytes(sv));
        }
    }
    proof {
        lemma_canon_items_ascii(sv);
        assert(forall|i: int| 0 <= i < out@.len() ==> out@[i] < 0x80);
    }
    Ok(string_from_ascii(out))
}

// ---------------------------------------------------------------------------
// Round-trip law
// ---------------------------------------------------------------------------
/// Parsing the canonical rendering of a member list recovers exactly its
/// hex-encoded members.
proof fn lemma_parse_canon(m: Seq<Seq<u8>>)
    requires
        m.len() > 0,
    ensures
        parse_items(canon_items(m)) == Some(
            (m.map(|i: int, b: Seq<u8>| hex_bytes(b)), seq![0x7du8]),
        ),
    decreases m.len(),
{
    let s = canon_items(m);
    let h = hex_bytes(m.first());
    let tail: Seq<u8> = if m.len() == 1 {
        seq![0x5du8, 0x7du8]
    } else {
        seq![0x2cu8] + canon_items(m.drop_first())
    };
    assert(s =~= seq![0x22u8] + (h + seq![0x22u8] + tail));
    assert(s.first() == 0x22);
    lemma_skip_ws_noop(s);
    assert(s.drop_first() =~= h + seq![0x22u8] + tail);
    lemma_hex_round_trip(m.first());
    lemma_scan_string_complete(h, tail);
    if m.len() == 1 {
        assert(tail.first() == 0x5d);
        lemma_skip_ws_noop(tail);
        assert(tail.drop_first() =~= seq![0x7du8]);
        assert(m.map(|i: int, b: Seq<u8>| hex_bytes(b)) =~= seq![h]);
    } else {
        assert(tail.first() == 0x2c);
        lemma_skip_ws_noop(tail);
        assert(tail.drop_first() =~= canon_items(m.drop_first()));
        lemma_parse_canon(m.drop_first());
        assert(seq![h] + m.drop_first().map(|i: int, b: Seq<u8>| hex_bytes(b)) =~= m.map(
            |i: int, b: Seq<u8>| hex_bytes(b),
        ));
    }
}

/// Importing the hex encodings of 32-byte members yields exactly those
/// members.
proof fn lemma_import_items_hex(m: Seq<Seq<u8>>)
    requires
        forall|i: int| 0 <= i < m.len() ==> (#[trigger] m[i]).len() == 32,
    ensures
        import_items(m.map(|i: int, b: Seq<u8>| hex_bytes(b))) == Ok::<Seq<Seq<u8>>, ImportError>(
            m,
        ),
    decreases m.len(),
{
    let hm = m.map(|i: int, b: Seq<u8>| hex_bytes(b));
    if m.len() == 0 {
        assert(hm =~= Seq::<Seq<u8>>::empty());
        assert(m =~= Seq::<Seq<u8>>::empty());
    } else {
        assert(hm.first() == hex_bytes(m.first()));
        lemma_hex_round_trip(m.first());
        assert(hm.drop_first() =~= m.drop_first().map(|i: int, b: Seq<u8>| hex_bytes(b)));
        lemma_import_items_hex(m.drop_first());
        assert(seq![m.first()] + m.drop_first() =~= m);
    }
}

/// Round-trip: importing an exported set reproduces exactly its membership.
/// For any list of 32-byte members, the canonical rendering parses back to
/// their hex encodings at the current version, and the import pipeline
/// decodes them to exactly the original members — so `import_nullifier_set`
/// after `export_nullifier_set` yields a set with the same membership.
pub proof fn lemma_export_import_round_trip(members: Seq<Seq<u8>>)
    requires
        forall|i: int| 0 <= i < members.len() ==> (#[trigger] members[i]).len() == 32,
    ensures
        parse_export(export_bytes(members)) == Some(
            (CURRENT_VERSION as nat, members.map(|i: int, b: Seq<u8>| hex_bytes(b))),
        ),
        import_items(members.map(|i: int, b: Seq<u8>| hex_bytes(b))) == Ok::<
            Seq<Seq<u8>>,
            ImportError,
        >(members),
{
    let s = export_bytes(members);
    let canon = canon_items(members);
    // The canonical rendering has no whitespace: walk it token by token.
    assert(s.first() == 0x7b);
    lemma_skip_ws_noop(s);
    // The first key: `"version"` followed by `:`.
    let rest_a = seq![0x3au8] + (seq![0x31u8] + (mid_bytes() + canon));
    assert(s.drop_first() =~= seq![0x22u8] + (version_key() + (seq![0x22u8] + rest_a)));
    lemma_skip_ws_noop(s.drop_first());
    assert(s.drop_first().first() == 0x22);
    assert(s.drop_first().drop_first() =~= version_key() + seq![0x22u8] + rest_a);
    assert(forall|i: int| 0 <= i < version_key().len() ==> is_string_byte(#[trigger] version_key()[i]));
    lemma_scan_string_complete(version_key(), rest_a);
    assert(rest_a.first() == 0x3a);
    lemma_skip_ws_noop(rest_a);
    let rest_b = rest_a.drop_first();
    assert(rest_b =~= seq![0x31u8] + (mid_bytes() + canon));
    assert(parse_key(s.drop_first()) == Some((version_key(), rest_b)));
    // The version number: the single digit `1`.
    assert(rest_b.first() == 0x31);
    lemma_skip_ws_noop(rest_b);
    assert(rest_b.drop_first() =~= mid_bytes() + canon);
    assert(rest_b.drop_first().first() == 0x2c);
    assert(digits_len(rest_b.drop_first()) == 0);
    assert(digits_len(rest_b) == 1);
    assert(rest_b.take(1) =~= seq![0x31u8]);
    assert(rest_b.take(1).take(0) =~= Seq::<u8>::empty());
    assert(digits_val(Seq::<u8>::empty()) == 0);
    assert(rest_b.take(1).last() == 0x31);
    assert(digits_val(rest_b.take(1)) == 1);
    let rest_c = rest_b.skip(1);
    assert(rest_c =~= mid_bytes() + canon);
    assert(parse_number(rest_b) == Some((1nat, rest_c)));
    // The comma and the second key: `"nullifiers"` followed by `:`.
    assert(rest_c.first() == 0x2c);
    lemma_skip_ws_noop(rest_c);
    let rest_d = seq![0x3au8] + (seq![0x5bu8] + canon);
    assert(rest_c.drop_first() =~= seq![0x22u8] + (nullifiers_key() + (seq![0x22u8] + rest_d)));
    lemma_skip_ws_noop(rest_c.drop_first());
    assert(rest_c.drop_first().first() == 0x22);
    assert(rest_c.drop_first().drop_first() =~= nullifiers_key() + seq![0x22u8] + rest_d);
    assert(forall|i: int|
        0 <= i < nullifiers_key().len() ==> is_string_byte(#[trigger] nullifiers_key()[i]));
    lemma_scan_string_complete(nullifiers_key(), rest_d);
    assert(rest_d.first() == 0x3a);
    lemma_skip_ws_noop(rest_d);
    let rest_e = rest_d.drop_first();
    assert(rest_e =~= seq![0x5bu8] + canon);
    assert(parse_key(rest_c.drop_first()) == Some((nullifiers_key(), rest_e)));
    assert(version_key() != nullifiers_key());
    // The array, then the closing brace.
    assert(rest_e.first() == 0x5b);
    lemma_skip_ws_noop(rest_e);
    assert(rest_e.drop_first() =~= canon);
    if members.len() == 0 {
        assert(canon =~= seq![0x5du8, 0x7du8]);
        assert(canon.first() == 0x5d);
        lemma_skip_ws_noop(canon);
        assert(canon.drop_first() =~= seq![0x7du8]);
        assert(parse_array(rest_e) == Some((Seq::<Seq<u8>>::empty(), seq![0x7du8])));
        assert(members.map(|i: int, b: Seq<u8>| hex_bytes(b)) =~= Seq::<Seq<u8>>::empty());
        assert(members =~= Seq::<Seq<u8>>::empty());
    } else {
        assert(canon.first() == 0x22);
        lemma_skip_ws_noop(canon);
        lemma_parse_canon(members);
        assert(parse_array(rest_e) == Some(
            (members.map(|i: int, b: Seq<u8>| hex_bytes(b)), seq![0x7du8]),
        ));
    }
    let closing = seq![0x7du8];
    assert(closing.first() == 0x7d);
    lemma_skip_ws_noop(closing);
    assert(closing.drop_first() =~= Seq::<u8>::empty());
    assert(ws_len(Seq::<u8>::empty()) == 0);
    assert(skip_ws(Seq::<u8>::empty()) =~= Seq::<u8>::empty());
    assert(close_ok(closing));
    lemma_import_items_hex(members);
}

/// Round-trip, stated over a spent set: exporting any well-formed set and
/// importing the result reproduces exactly its membership. `export_nullifier_set`
/// produces `export_bytes(s@)`, whose parse yields the hex encodings of the
/// members at the current version, and whose import pipeline decodes them to
/// exactly `s@` — so the imported set contains precisely the members of `s`.
pub proof fn lemma_round_trip_set(s: NullifierSet)
    requires
        s.wf(),
    ensures
        parse_export(export_bytes(s@)) == Some(
            (CURRENT_VERSION as nat, s@.map(|i: int, b: Seq<u8>| hex_bytes(b))),
        ),
        import_items(s@.map(|i: int, b: Seq<u8>| hex_bytes(b))) == Ok::<Seq<Seq<u8>>, ImportError>(
            s@,
        ),
{
    lemma_export_import_round_trip(s@);
}

} // verus!