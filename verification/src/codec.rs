//! Container unwrapping for packaged level files: the payload sits between a
//! fixed textual marker and a closing tag, padded and base64-encoded over a
//! gzip stream. Marker location and trimming are verified; the base64 and
//! DEFLATE decoders are outside crates, relied upon through the named
//! results `b64_of` and `gunzip_of`.

use vstd::prelude::*;
use crate::decode::LevelError;

verus! {

/// Carries `base64::DecodeError` through verified signatures.
#[verifier::external_type_specification]
#[verifier::external_body]
pub struct ExDecodeError(base64::DecodeError);

/// Carries `std::io::Error` through verified signatures.
#[verifier::external_type_specification]
#[verifier::external_body]
pub struct ExIoError(std::io::Error);

/// What URL-safe unpadded base64 decoding yields on the given bytes: the
/// decoded bytes, or nothing when the input is not valid base64.
pub uninterp spec fn b64_of(s: Seq<u8>) -> Option<Seq<u8>>;

/// What gzip decompression yields on the given bytes: the decompressed
/// bytes, or nothing when the stream is corrupt.
pub uninterp spec fn gunzip_of(b: Seq<u8>) -> Option<Seq<u8>>;

/// Relies on base64's `Engine::decode` with the URL-safe unpadded alphabet:
/// its result is a function of the input bytes alone.
#[verifier::external_body]
fn b64_url_decode(s: &Vec<u8>) -> (r: Result<Vec<u8>, base64::DecodeError>)
    ensures
        r matches Ok(v) ==> b64_of(s@) == Some(v@),
        r is Err ==> b64_of(s@) is None,
{
    base64::Engine::decode(&base64::engine::general_purpose::URL_SAFE_NO_PAD, s.as_slice())
}

/// Relies on flate2's `GzDecoder` over std's `Read::read_to_end`: gzip
/// decompression of a byte buffer is a function of those bytes alone.
#[verifier::external_body]
fn gunzip(data: &Vec<u8>) -> (r: Result<Vec<u8>, std::io::Error>)
    ensures
        r matches Ok(v) ==> gunzip_of(data@) == Some(v@),
        r is Err ==> gunzip_of(data@) is None,
{
    let mut gz = flate2::read::GzDecoder::new(data.as_slice());
    let mut out: Vec<u8> = Vec::new();
    match std::io::Read::read_to_end(&mut gz, &mut out) {
        Ok(_) => Ok(out),
        Err(e) => Err(e),
    }
}

/// The opening marker a packaged file carries before its payload.
pub open spec fn spec_marker_open() -> Seq<u8> {
    seq![60u8, 107u8, 62u8, 107u8, 52u8, 60u8, 47u8, 107u8, 62u8, 60u8, 115u8, 62u8]
}

/// The closing tag after the payload.
pub open spec fn spec_marker_close() -> Seq<u8> {
    seq![60u8, 47u8, 115u8, 62u8]
}

/// Whether `pat` occurs in `s` at position `i`.
pub open spec fn is_match(s: Seq<u8>, pat: Seq<u8>, i: int) -> bool {
    &&& 0 <= i
    &&& i + pat.len() <= s.len()
    &&& forall|t: int| 0 <= t < pat.len() ==> s[i + t] == #[trigger] pat[t]
}

/// The first position where `pat` occurs in `s`.
pub open spec fn spec_find_sub(s: Seq<u8>, pat: Seq<u8>) -> Option<nat>
    decreases s.len(),
{
    if pat.len() == 0 {
        Some(0)
    } else if s.len() < pat.len() {
        None
    } else if s.take(pat.len() as int) == pat {
        Some(0)
    } else {
        match spec_find_sub(s.drop_first(), pat) {
            Option::None => None,
            Option::Some(k) => Some(k + 1),
        }
    }
}

/// What `spec_find_sub` returns: the first match position, or nothing when
/// no position matches.
pub proof fn lemma_find_sub_props(s: Seq<u8>, pat: Seq<u8>)
    ensures
        spec_find_sub(s, pat) matches Some(k) ==> is_match(s, pat, k as int) && (forall|j: int|
            0 <= j < k ==> !is_match(s, pat, j)),
        spec_find_sub(s, pat) is None ==> forall|j: int| !is_match(s, pat, j),
    decreases s.len(),
{
    if pat.len() == 0 {
    } else if s.len() < pat.len() {
        assert forall|j: int| !is_match(s, pat, j) by {}
    } else if s.take(pat.len() as int) == pat {
        assert forall|t: int| 0 <= t < pat.len() implies s[0 + t] == #[trigger] pat[t] by {
            assert(s.take(pat.len() as int)[t] == s[t]);
        }
    } else {
        let rest = s.drop_first();
        lemma_find_sub_props(rest, pat);
        assert(!is_match(s, pat, 0)) by {
            if is_match(s, pat, 0) {
                assert forall|t: int| 0 <= t < pat.len() implies s.take(pat.len() as int)[t]
                    == pat[t] by {
                    assert(s[0 + t] == pat[t]);
                }
                assert(s.take(pat.len() as int) =~= pat);
            }
        }
        assert forall|j: int| 1 <= j && is_match(s, pat, j) implies is_match(
            rest,
            pat,
            j - 1,
        ) by {
            assert forall|t: int| 0 <= t < pat.len() implies rest[j - 1 + t] == #[trigger] pat[t]
                by {
                assert(rest[j - 1 + t] == s[j + t]);
            }
        }
        assert forall|j: int| 0 <= j && is_match(rest, pat, j) implies is_match(
            s,
            pat,
            j + 1,
        ) by {
            assert forall|t: int| 0 <= t < pat.len() implies s[j + 1 + t] == #[trigger] pat[t]
                by {
                assert(rest[j + t] == s[j + 1 + t]);
            }
        }
    }
}

/// Finds the first occurrence of `pat` in `s`.
fn find_sub(s: &Vec<u8>, pat: &Vec<u8>) -> (r: Option<usize>)
    requires
        pat@.len() >= 1,
    ensures
        r matches Some(i) ==> spec_find_sub(s@, pat@) == Some(i as nat),
        r is None ==> spec_find_sub(s@, pat@) is None,
{
    let n = s.len();
    let m = pat.len();
    proof {
        lemma_find_sub_props(s@, pat@);
    }
    if m > n {
        return None;
    }
    let mut i: usize = 0;
    while i <= n - m
        invariant
            m >= 1,
            m <= n,
            n == s@.len(),
            m == pat@.len(),
            i <= n - m + 1,
            forall|t: int| 0 <= t < i ==> !is_match(s@, pat@, t),
        decreases n - i,
    {
        let mut j: usize = 0;
        let mut hit = true;
        while j < m
            invariant
                i + m <= n,
                n == s@.len(),
                m == pat@.len(),
                j <= m,
                hit ==> forall|t: int| 0 <= t < j ==> s@[i + t] == #[trigger] pat@[t],
                !hit ==> !is_match(s@, pat@, i as int),
            decreases m - j,
        {
            if s[i + j] != pat[j] {
                hit = false;
                j = m;
            } else {
                j = j + 1;
            }
        }
        if hit {
            proof {
                assert(is_match(s@, pat@, i as int));
                lemma_find_sub_props(s@, pat@);
                match spec_find_sub(s@, pat@) {
                    Option::Some(k) => {
                        if k < i as nat {
                            assert(is_match(s@, pat@, k as int));
                        } else if k > i as nat {
                            assert(!is_match(s@, pat@, i as int));
                        }
                    },
                    Option::None => {
                        assert(!is_match(s@, pat@, i as int));
                    },
                }
            }
            return Some(i);
        }
        i = i + 1;
    }
    proof {
        lemma_find_sub_props(s@, pat@);
        match spec_find_sub(s@, pat@) {
            Option::Some(k) => {
                assert(is_match(s@, pat@, k as int));
                assert(k as int <= n - m);
            },
            Option::None => {},
        }
    }
    None
}

/// ASCII whitespace, as the payload trimming removes.
pub open spec fn is_ws(c: u8) -> bool {
    c == 9 || c == 10 || c == 11 || c == 12 || c == 13 || c == 32
}

/// `s` without leading whitespace.
pub open spec fn spec_trim_start(s: Seq<u8>) -> Seq<u8>
    decreases s.len(),
{
    if s.len() > 0 && is_ws(s[0]) {
        spec_trim_start(s.drop_first())
    } else {
        s
    }
}

/// `s` without trailing whitespace.
pub open spec fn spec_trim_end_ws(s: Seq<u8>) -> Seq<u8>
    decreases s.len(),
{
    if s.len() > 0 && is_ws(s.last()) {
        spec_trim_end_ws(s.drop_last())
    } else {
        s
    }
}

/// `s` without trailing padding characters (`=`).
pub open spec fn spec_trim_end_eq(s: Seq<u8>) -> Seq<u8>
    decreases s.len(),
{
    if s.len() > 0 && s.last() == 61 {
        spec_trim_end_eq(s.drop_last())
    } else {
        s
    }
}

/// A whitespace prefix up to `lo` (and none at `lo`) pins the start trim.
proof fn lemma_trim_start_at(s: Seq<u8>, lo: int)
    requires
        0 <= lo <= s.len(),
        forall|j: int| 0 <= j < lo ==> is_ws(s[j]),
        lo < s.len() ==> !is_ws(s[lo]),
    ensures
        spec_trim_start(s) == s.skip(lo),
    decreases lo,
{
    if lo == 0 {
        assert(s.skip(0) =~= s);
    } else {
        let rest = s.drop_first();
        assert(forall|j: int| 0 <= j < lo - 1 ==> is_ws(#[trigger] rest[j]) && rest[j] == s[j
            + 1]);
        assert(lo - 1 < rest.len() ==> rest[lo - 1] == s[lo]);
        lemma_trim_start_at(rest, lo - 1);
        assert(rest.skip(lo - 1) =~= s.skip(lo));
    }
}

/// A whitespace suffix from `hi` (and none just before) pins the end trim.
proof fn lemma_trim_end_ws_at(s: Seq<u8>, hi: int)
    requires
        0 <= hi <= s.len(),
        forall|j: int| hi <= j < s.len() ==> is_ws(s[j]),
        hi > 0 ==> !is_ws(s[hi - 1]),
    ensures
        spec_trim_end_ws(s) == s.take(hi),
    decreases s.len(),
{
    if s.len() > 0 && is_ws(s.last()) {
        assert(hi < s.len());
        let rest = s.drop_last();
        assert(forall|j: int| hi <= j < rest.len() ==> rest[j] == s[j] && is_ws(s[j]));
        lemma_trim_end_ws_at(rest, hi);
        assert(rest.take(hi) =~= s.take(hi));
    } else {
        assert(hi == s.len());
        assert(s.take(hi) =~= s);
    }
}

/// A padding suffix from `hi` (and none just before) pins the padding trim.
proof fn lemma_trim_end_eq_at(s: Seq<u8>, hi: int)
    requires
        0 <= hi <= s.len(),
        forall|j: int| hi <= j < s.len() ==> s[j] == 61,
        hi > 0 ==> s[hi - 1] != 61,
    ensures
        spec_trim_end_eq(s) == s.take(hi),
    decreases s.len(),
{
    if s.len() > 0 && s.last() == 61 {
        assert(hi < s.len());
        let rest = s.drop_last();
        assert(forall|j: int| hi <= j < rest.len() ==> rest[j] == s[j] && s[j] == 61);
        lemma_trim_end_eq_at(rest, hi);
        assert(rest.take(hi) =~= s.take(hi));
    } else {
        assert(hi == s.len());
        assert(s.take(hi) =~= s);
    }
}

/// Executable whitespace test.
fn is_whitespace(c: u8) -> (r: bool)
    ensures
        r == is_ws(c),
{
    c == 9 || c == 10 || c == 11 || c == 12 || c == 13 || c == 32
}

/// The bytes of `s` from `from` (inclusive) to `to` (exclusive).
fn sub_vec(s: &Vec<u8>, from: usize, to: usize) -> (r: Vec<u8>)
    requires
        from <= to <= s@.len(),
    ensures
        r@ == s@.subrange(from as int, to as int),
{
    let mut r: Vec<u8> = Vec::new();
    let mut i: usize = from;
    proof {
        assert(r@ =~= s@.subrange(from as int, from as int));
    }
    while i < to
        invariant
            from <= i <= to <= s@.len(),
            r@ == s@.subrange(from as int, i as int),
        decreases to - i,
    {
        r.push(s[i]);
        proof {
            assert(s@.subrange(from as int, i as int).push(s@[i as int]) =~= s@.subrange(
                from as int,
                i + 1,
            ));
        }
        i = i + 1;
    }
    r
}

/// What unwrapping a packaged file yields: the payload between the markers,
/// trimmed of whitespace and padding, base64-decoded and decompressed; or
/// the stage that failed.
pub open spec fn spec_unwrap_container(s: Seq<u8>) -> Result<Seq<u8>, LevelError> {
    match spec_find_sub(s, spec_marker_open()) {
        Option::None => Err(LevelError::ContainerUnwrap),
        Option::Some(p) => {
            let after = s.skip(p + spec_marker_open().len() as int);
            match spec_find_sub(after, spec_marker_close()) {
                Option::None => Err(LevelError::ContainerUnwrap),
                Option::Some(q) => {
                    let payload = spec_trim_end_eq(
                        spec_trim_end_ws(spec_trim_start(after.take(q as int))),
                    );
                    match b64_of(payload) {
                        Option::None => Err(LevelError::Base64Invalid),
                        Option::Some(bin) => match gunzip_of(bin) {
                            Option::None => Err(LevelError::Decompression),
                            Option::Some(txt) => Ok(txt),
                        },
                    }
                },
            }
        },
    }
}

/// Unwraps a packaged level file into its raw delimiter text: locates the
/// payload between the fixed markers, strips surrounding whitespace and
/// trailing padding, decodes the base64, and decompresses the gzip stream.
/// Each stage reports its own failure.
pub fn unwrap_container(data: &Vec<u8>) -> (r: Result<Vec<u8>, LevelError>)
    ensures
        r matches Ok(v) ==> spec_unwrap_container(data@) == Ok::<Seq<u8>, LevelError>(v@),
        r matches Err(e) ==> spec_unwrap_container(data@) == Err::<Seq<u8>, LevelError>(e),
{
    let marker_open: Vec<u8> = vec![60, 107, 62, 107, 52, 60, 47, 107, 62, 60, 115, 62];
    let marker_close: Vec<u8> = vec![60, 47, 115, 62];
    proof {
        assert(marker_open@ =~= spec_marker_open());
        assert(marker_close@ =~= spec_marker_close());
    }
    let p = match find_sub(data, &marker_open) {
        Option::Some(p) => p,
        Option::None => {
            return Err(LevelError::ContainerUnwrap);
        },
    };
    proof {
        lemma_find_sub_props(data@, marker_open@);
        assert(spec_marker_open().len() == 12);
        assert(is_match(data@, marker_open@, p as int));
        assert(p + 12 <= data@.len());
    }
    let data_len = data.len();
    let after = sub_vec(data, p + 12, data_len);
    proof {
        assert(after@ =~= data@.skip(p + 12));
    }
    let q = match find_sub(&after, &marker_close) {
        Option::Some(q) => q,
        Option::None => {
            return Err(LevelError::ContainerUnwrap);
        },
    };
    proof {
        lemma_find_sub_props(after@, marker_close@);
    }
    let section = sub_vec(&after, 0, q);
    proof {
        assert(section@ =~= after@.take(q as int));
    }
    // Trim whitespace from both ends, then trailing padding.
    let mut lo: usize = 0;
    let slen = section.len();
    while lo < slen && is_whitespace(section[lo])
        invariant
            lo <= slen,
            slen == section@.len(),
            forall|j: int| 0 <= j < lo ==> is_ws(section@[j]),
        decreases slen - lo,
    {
        lo = lo + 1;
    }
    let mut hi: usize = slen;
    while hi > lo && is_whitespace(section[hi - 1])
        invariant
            lo <= hi <= slen,
            slen == section@.len(),
            forall|j: int| 0 <= j < lo ==> is_ws(section@[j]),
            forall|j: int| hi <= j < slen ==> is_ws(section@[j]),
        decreases hi,
    {
        hi = hi - 1;
    }
    let ghost trimmed_ws = section@.subrange(lo as int, hi as int);
    proof {
        lemma_trim_start_at(section@, lo as int);
        let started = section@.skip(lo as int);
        assert forall|j: int| (hi - lo) <= j < started.len() implies is_ws(started[j]) by {
            assert(started[j] == section@[j + lo]);
        }
        if hi > lo {
            assert(started[hi - lo - 1] == section@[hi - 1]);
        }
        lemma_trim_end_ws_at(started, hi as int - lo as int);
        assert(started.take(hi as int - lo as int) =~= trimmed_ws);
    }
    let mut he: usize = hi;
    while he > lo && section[he - 1] == 61
        invariant
            lo <= he <= hi <= slen,
            slen == section@.len(),
            forall|j: int| he <= j < hi ==> section@[j] == 61,
        decreases he,
    {
        he = he - 1;
    }
    let payload = sub_vec(&section, lo, he);
    proof {
        assert forall|j: int| (he - lo) <= j < trimmed_ws.len() implies trimmed_ws[j] == 61 by {
            assert(trimmed_ws[j] == section@[j + lo]);
        }
        if he > lo {
            assert(trimmed_ws[he - lo - 1] == section@[he - 1]);
        }
        lemma_trim_end_eq_at(trimmed_ws, he as int - lo as int);
        assert(trimmed_ws.take(he as int - lo as int) =~= payload@);
    }
    let bin = match b64_url_decode(&payload) {
        Ok(v) => v,
        Err(_) => {
            return Err(LevelError::Base64Invalid);
        },
    };
    match gunzip(&bin) {
        Ok(txt) => Ok(txt),
        Err(_) => Err(LevelError::Decompression),
    }
}

} // verus!
