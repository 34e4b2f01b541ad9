//! Sentinel-delimited response framing.
//!
//! The protocol has no length prefix and no correlation ids: a response is
//! complete when the byte stream ends with the sentinel `\r\n.\r\n`. The
//! accumulated bytes are then cleaned for decoding: every occurrence of the
//! sentinel is removed (the firmware may emit it mid-stream in some reply
//! shapes), ASCII whitespace is trimmed from both ends, and the rest is
//! decoded as UTF-8.

use vstd::prelude::*;

use vstd::slice::slice_to_vec;
use vstd::utf8::decode_utf8;
use vstd::utf8::valid_utf8;

use crate::error::FocusError;

verus! {

/// The end-of-response marker: `CR LF '.' CR LF`.
pub open spec fn sentinel() -> Seq<u8> {
    seq![13u8, 10u8, 46u8, 13u8, 10u8]
}

/// The sentinel occurs at position `i`.
pub open spec fn sentinel_at(s: Seq<u8>, i: int) -> bool {
    0 <= i && i + 5 <= s.len() && s.subrange(i, i + 5) == sentinel()
}

pub open spec fn contains_sentinel(s: Seq<u8>) -> bool {
    exists|i: int| sentinel_at(s, i)
}

/// The position of the first sentinel occurrence, if any.
pub open spec fn find_sentinel(s: Seq<u8>) -> Option<int>
    decreases s.len(),
{
    if s.len() < 5 {
        None
    } else if s.subrange(0, 5) == sentinel() {
        Some(0)
    } else {
        match find_sentinel(s.drop_first()) {
            Some(i) => Some(i + 1),
            None => None,
        }
    }
}

/// What `find_sentinel` returns is the first occurrence.
pub proof fn lemma_find_sentinel_props(s: Seq<u8>)
    ensures
        match find_sentinel(s) {
            Some(i) => sentinel_at(s, i) && (forall|j: int| 0 <= j < i ==> !sentinel_at(s, j)),
            None => !contains_sentinel(s),
        },
    decreases s.len(),
{
    if s.len() < 5 {
        assert forall|i: int| !sentinel_at(s, i) by {
            if 0 <= i && i + 5 <= s.len() {
                assert(s.len() >= 5);
            }
        }
    } else if s.subrange(0, 5) == sentinel() {
        assert(sentinel_at(s, 0));
    } else {
        lemma_find_sentinel_props(s.drop_first());
        let t = s.drop_first();
        assert forall|j: int| 0 <= j && j + 5 <= s.len() implies (sentinel_at(s, j) <==> (j == 0
            && s.subrange(0, 5) == sentinel()) || (j >= 1 && sentinel_at(t, j - 1))) by {
            if j >= 1 {
                assert(t.subrange(j - 1, j + 4) =~= s.subrange(j, j + 5));
            }
        }
        match find_sentinel(t) {
            Some(i) => {
                assert(sentinel_at(t, i));
                assert(t.subrange(i, i + 5) =~= s.subrange(i + 1, i + 6));
                assert(sentinel_at(s, i + 1));
                assert forall|j: int| 0 <= j < i + 1 implies !sentinel_at(s, j) by {
                    if j >= 1 {
                        assert(!sentinel_at(t, j - 1));
                    }
                }
            },
            None => {
                assert forall|j: int| !sentinel_at(s, j) by {
                    if 1 <= j && j + 5 <= s.len() {
                        assert(!sentinel_at(t, j - 1));
                    }
                }
            },
        }
    }
}

/// A position that is an occurrence, with no occurrence before it, is what
/// `find_sentinel` returns.
pub proof fn lemma_find_sentinel_unique(s: Seq<u8>, i: int)
    requires
        sentinel_at(s, i),
        forall|j: int| 0 <= j < i ==> !sentinel_at(s, j),
    ensures
        find_sentinel(s) == Some(i),
{
    lemma_find_sentinel_props(s);
    match find_sentinel(s) {
        Some(k) => {
            if k < i {
                assert(!sentinel_at(s, k));
            }
            if i < k {
                assert(!sentinel_at(s, i));
            }
        },
        None => {
            assert(contains_sentinel(s));
        },
    }
}

#[via_fn]
proof fn remove_sentinels_decreases(s: Seq<u8>) {
    lemma_find_sentinel_props(s);
}

/// The payload with every sentinel occurrence removed: the first occurrence
/// is cut out, and the scan restarts on what remains.
pub open spec fn remove_sentinels(s: Seq<u8>) -> Seq<u8>
    decreases s.len(),
        via remove_sentinels_decreases
{
    match find_sentinel(s) {
        Some(i) => remove_sentinels(s.subrange(0, i) + s.subrange(i + 5, s.len() as int)),
        None => s,
    }
}

/// Nothing of the sentinel survives the removal pass.
pub proof fn lemma_remove_sentinels_free(s: Seq<u8>)
    ensures
        !contains_sentinel(remove_sentinels(s)),
    decreases s.len(),
{
    lemma_find_sentinel_props(s);
    match find_sentinel(s) {
        Some(i) => {
            lemma_remove_sentinels_free(s.subrange(0, i) + s.subrange(i + 5, s.len() as int));
        },
        None => {},
    }
}

/// A payload without the sentinel passes removal unchanged.
pub proof fn lemma_remove_sentinels_noop(s: Seq<u8>)
    requires
        !contains_sentinel(s),
    ensures
        remove_sentinels(s) == s,
{
    lemma_find_sentinel_props(s);
    match find_sentinel(s) {
        Some(i) => {
            assert(sentinel_at(s, i));
        },
        None => {},
    }
}

/// ASCII whitespace at the byte level: space, tab, line feed, form feed,
/// carriage return.
pub open spec fn is_space_byte(b: u8) -> bool {
    b == 32 || b == 9 || b == 10 || b == 12 || b == 13
}

pub open spec fn drop_leading_spaces(s: Seq<u8>) -> Seq<u8>
    decreases s.len(),
{
    if s.len() > 0 && is_space_byte(s[0]) {
        drop_leading_spaces(s.drop_first())
    } else {
        s
    }
}

pub open spec fn drop_trailing_spaces(s: Seq<u8>) -> Seq<u8>
    decreases s.len(),
{
    if s.len() > 0 && is_space_byte(s.last()) {
        drop_trailing_spaces(s.drop_last())
    } else {
        s
    }
}

/// The payload with ASCII whitespace removed from both ends.
pub open spec fn trim_spaces(s: Seq<u8>) -> Seq<u8> {
    drop_trailing_spaces(drop_leading_spaces(s))
}

proof fn lemma_drop_leading_at(s: Seq<u8>, lo: int)
    requires
        0 <= lo <= s.len(),
        forall|j: int| 0 <= j < lo ==> is_space_byte(s[j]),
        lo == s.len() || !is_space_byte(s[lo as int]),
    ensures
        drop_leading_spaces(s) == s.skip(lo),
    decreases lo,
{
    if lo == 0 {
        assert(s.skip(0) =~= s);
    } else {
        assert(is_space_byte(s[0]));
        lemma_drop_leading_at(s.drop_first(), lo - 1);
        assert(s.drop_first().skip(lo - 1) =~= s.skip(lo));
    }
}

proof fn lemma_drop_trailing_at(s: Seq<u8>, hi: int)
    requires
        0 <= hi <= s.len(),
        forall|j: int| hi <= j < s.len() ==> is_space_byte(s[j]),
        hi == 0 || !is_space_byte(s[hi - 1]),
    ensures
        drop_trailing_spaces(s) == s.take(hi),
    decreases s.len() - hi,
{
    if hi == s.len() {
        assert(s.take(hi) =~= s);
        if s.len() > 0 {
            assert(!is_space_byte(s.last()));
        }
    } else {
        assert(is_space_byte(s.last()));
        lemma_drop_trailing_at(s.drop_last(), hi);
        assert(s.drop_last().take(hi) =~= s.take(hi));
    }
}

/// What the trim pass gives: the subrange between the first and the last
/// non-whitespace byte.
pub proof fn lemma_trim_spaces_at(s: Seq<u8>, lo: int, hi: int)
    requires
        0 <= lo <= hi <= s.len(),
        forall|j: int| 0 <= j < lo ==> is_space_byte(s[j]),
        forall|j: int| hi <= j < s.len() ==> is_space_byte(s[j]),
        lo == hi || (!is_space_byte(s[lo as int]) && !is_space_byte(s[hi - 1])),
    ensures
        trim_spaces(s) == s.subrange(lo, hi),
{
    if lo == hi {
        // everything is whitespace: both passes erase the payload
        lemma_drop_leading_at(s, s.len() as int);
        assert(s.skip(s.len() as int) =~= Seq::<u8>::empty());
        lemma_drop_trailing_at(Seq::<u8>::empty(), 0);
        assert(s.subrange(lo, hi) =~= Seq::<u8>::empty());
    } else {
        lemma_drop_leading_at(s, lo);
        let t = s.skip(lo);
        lemma_drop_trailing_at(t, hi - lo);
        assert(t.take(hi - lo) =~= s.subrange(lo, hi));
    }
}

/// Trimming leaves no whitespace at either end, so a second trim is a no-op.
pub proof fn lemma_trim_spaces_trimmed(s: Seq<u8>)
    ensures
        trim_spaces(trim_spaces(s)) == trim_spaces(s),
        trim_spaces(s).len() > 0 ==> !is_space_byte(trim_spaces(s)[0]) && !is_space_byte(
            trim_spaces(s).last(),
        ),
    decreases s.len(),
{
    lemma_drop_leading_no_space(s);
    lemma_drop_trailing_no_space(drop_leading_spaces(s));
    let t = trim_spaces(s);
    if t.len() > 0 {
        lemma_drop_trailing_keeps_head(drop_leading_spaces(s));
        assert(!is_space_byte(t[0]));
        assert(!is_space_byte(t.last()));
        assert(drop_leading_spaces(t) == t);
        assert(drop_trailing_spaces(t) == t);
    } else {
        assert(drop_leading_spaces(t) == t);
        assert(drop_trailing_spaces(t) == t);
    }
}

proof fn lemma_drop_leading_no_space(s: Seq<u8>)
    ensures
        drop_leading_spaces(s).len() > 0 ==> !is_space_byte(drop_leading_spaces(s)[0]),
    decreases s.len(),
{
    if s.len() > 0 && is_space_byte(s[0]) {
        lemma_drop_leading_no_space(s.drop_first());
    }
}

proof fn lemma_drop_trailing_no_space(s: Seq<u8>)
    ensures
        drop_trailing_spaces(s).len() > 0 ==> !is_space_byte(drop_trailing_spaces(s).last()),
    decreases s.len(),
{
    if s.len() > 0 && is_space_byte(s.last()) {
        lemma_drop_trailing_no_space(s.drop_last());
    }
}

proof fn lemma_drop_trailing_keeps_head(s: Seq<u8>)
    ensures
        drop_trailing_spaces(s).len() > 0 ==> drop_trailing_spaces(s)[0] == s[0],
    decreases s.len(),
{
    if s.len() > 0 && is_space_byte(s.last()) {
        lemma_drop_trailing_keeps_head(s.drop_last());
    }
}

/// The full cleaning pass a raw accumulated response goes through before
/// UTF-8 decoding: remove every sentinel occurrence, then trim whitespace.
pub open spec fn clean_spec(raw: Seq<u8>) -> Seq<u8> {
    trim_spaces(remove_sentinels(raw))
}

proof fn lemma_drop_first_sentinel_free(s: Seq<u8>)
    requires
        !contains_sentinel(s),
        s.len() > 0,
    ensures
        !contains_sentinel(s.drop_first()),
{
    assert forall|j: int| !sentinel_at(s.drop_first(), j) by {
        if sentinel_at(s.drop_first(), j) {
            assert(s.subrange(j + 1, j + 6) =~= s.drop_first().subrange(j, j + 5));
            assert(sentinel_at(s, j + 1));
        }
    }
}

proof fn lemma_drop_last_sentinel_free(s: Seq<u8>)
    requires
        !contains_sentinel(s),
        s.len() > 0,
    ensures
        !contains_sentinel(s.drop_last()),
{
    assert forall|j: int| !sentinel_at(s.drop_last(), j) by {
        if sentinel_at(s.drop_last(), j) {
            assert(s.subrange(j, j + 5) =~= s.drop_last().subrange(j, j + 5));
            assert(sentinel_at(s, j));
        }
    }
}

proof fn lemma_trim_sentinel_free(s: Seq<u8>)
    requires
        !contains_sentinel(s),
    ensures
        !contains_sentinel(trim_spaces(s)),
{
    lemma_drop_leading_sentinel_free(s);
    lemma_drop_trailing_sentinel_free(drop_leading_spaces(s));
}

proof fn lemma_drop_leading_sentinel_free(s: Seq<u8>)
    requires
        !contains_sentinel(s),
    ensures
        !contains_sentinel(drop_leading_spaces(s)),
    decreases s.len(),
{
    if s.len() > 0 && is_space_byte(s[0]) {
        lemma_drop_first_sentinel_free(s);
        lemma_drop_leading_sentinel_free(s.drop_first());
    }
}

proof fn lemma_drop_trailing_sentinel_free(s: Seq<u8>)
    requires
        !contains_sentinel(s),
    ensures
        !contains_sentinel(drop_trailing_spaces(s)),
    decreases s.len(),
{
    if s.len() > 0 && is_space_byte(s.last()) {
        lemma_drop_last_sentinel_free(s);
        lemma_drop_trailing_sentinel_free(s.drop_last());
    }
}

/// A payload that survives cleaning is well-formed: it holds no sentinel
/// occurrence and carries no whitespace at either end.
pub open spec fn response_bytes_wf(b: Seq<u8>) -> bool {
    !contains_sentinel(b) && trim_spaces(b) == b
}

/// Whatever bytes were accumulated, the cleaned payload is well-formed.
pub proof fn lemma_clean_wf(raw: Seq<u8>)
    ensures
        response_bytes_wf(clean_spec(raw)),
{
    lemma_remove_sentinels_free(raw);
    lemma_trim_sentinel_free(remove_sentinels(raw));
    lemma_trim_spaces_trimmed(remove_sentinels(raw));
}

/// The framing law, single occurrence: a stream that holds the sentinel
/// exactly once, at its end, cleans to the bytes before it, trimmed.
pub proof fn lemma_framing_single(payload: Seq<u8>)
    requires
        forall|j: int| sentinel_at(payload + sentinel(), j) ==> j == payload.len(),
    ensures
        clean_spec(payload + sentinel()) == trim_spaces(payload),
{
    let s = payload + sentinel();
    let lp = payload.len() as int;
    assert(s.subrange(lp, lp + 5) =~= sentinel());
    assert(sentinel_at(s, lp));
    lemma_find_sentinel_unique(s, lp);
    let s2 = s.subrange(0, lp) + s.subrange(lp + 5, s.len() as int);
    assert(s2 =~= payload);
    assert forall|j: int| !sentinel_at(payload, j) by {
        if sentinel_at(payload, j) {
            assert(s.subrange(j, j + 5) =~= payload.subrange(j, j + 5));
            assert(sentinel_at(s, j));
        }
    }
    lemma_remove_sentinels_noop(payload);
    assert(remove_sentinels(s) == remove_sentinels(payload));
}

/// The framing law, double occurrence: a stream that holds the sentinel
/// exactly twice, once mid-stream and once at its end, cleans to the
/// concatenation of the surrounding text, trimmed. The occurrence
/// conditions also rule out an occurrence arising anew at the seam once
/// the first one is cut out.
pub proof fn lemma_framing_double(a: Seq<u8>, b: Seq<u8>)
    requires
        forall|j: int|
            sentinel_at(a + sentinel() + b + sentinel(), j) ==> j == a.len() || j == a.len() + 5
                + b.len(),
        forall|j: int| sentinel_at(a + b + sentinel(), j) ==> j == a.len() + b.len(),
    ensures
        clean_spec(a + sentinel() + b + sentinel()) == trim_spaces(a + b),
{
    let s = a + sentinel() + b + sentinel();
    let la = a.len() as int;
    let lb = b.len() as int;
    assert(s.subrange(la, la + 5) =~= sentinel());
    assert(sentinel_at(s, la));
    assert forall|j: int| 0 <= j < la implies !sentinel_at(s, j) by {
        if sentinel_at(s, j) {
            assert(j == la || j == la + 5 + lb);
        }
    }
    lemma_find_sentinel_unique(s, la);
    let s2 = s.subrange(0, la) + s.subrange(la + 5, s.len() as int);
    assert(s2 =~= a + b + sentinel());
    assert(remove_sentinels(s) == remove_sentinels(s2));
    assert(s2.subrange(la + lb, la + lb + 5) =~= sentinel());
    assert(sentinel_at(s2, la + lb));
    assert forall|j: int| 0 <= j < la + lb implies !sentinel_at(s2, j) by {
        if sentinel_at(s2, j) {
            assert(j == la + lb);
        }
    }
    lemma_find_sentinel_unique(s2, la + lb);
    let s3 = s2.subrange(0, la + lb) + s2.subrange(la + lb + 5, s2.len() as int);
    assert(s3 =~= a + b);
    assert(remove_sentinels(s2) == remove_sentinels(s3));
    assert forall|j: int| !sentinel_at(a + b, j) by {
        if sentinel_at(a + b, j) {
            assert(s2.subrange(j, j + 5) =~= (a + b).subrange(j, j + 5));
            assert(sentinel_at(s2, j));
            assert(j == la + lb);
        }
    }
    lemma_remove_sentinels_noop(a + b);
}

fn is_space_byte_exec(b: u8) -> (r: bool)
    ensures
        r == is_space_byte(b),
{
    b == 32 || b == 9 || b == 10 || b == 12 || b == 13
}

/// Scans for the first sentinel occurrence.
fn find_sentinel_index(v: &Vec<u8>) -> (r: Option<usize>)
    ensures
        match r {
            Some(i) => find_sentinel(v@) == Some(i as int),
            None => find_sentinel(v@) is None,
        },
{
    if v.len() < 5 {
        proof {
            lemma_find_sentinel_props(v@);
            match find_sentinel(v@) {
                Some(k) => {
                    assert(sentinel_at(v@, k));
                },
                None => {},
            }
        }
        return None;
    }
    let mut i: usize = 0;
    while i <= v.len() - 5
        invariant
            v@.len() >= 5,
            i <= v@.len() - 4,
            forall|j: int| 0 <= j < i ==> !sentinel_at(v@, j),
        decreases v@.len() - i,
    {
        if v[i] == 13 && v[i + 1] == 10 && v[i + 2] == 46 && v[i + 3] == 13 && v[i + 4] == 10 {
            proof {
                assert(v@.subrange(i as int, i + 5) =~= sentinel());
                lemma_find_sentinel_unique(v@, i as int);
            }
            return Some(i);
        }
        proof {
            assert(!sentinel_at(v@, i as int)) by {
                if v@.subrange(i as int, i + 5) == sentinel() {
                    assert(v@[i as int] == sentinel()[0]);
                    assert(v@[i + 1] == sentinel()[1]);
                    assert(v@[i + 2] == sentinel()[2]);
                    assert(v@[i + 3] == sentinel()[3]);
                    assert(v@[i + 4] == sentinel()[4]);
                }
            }
        }
        i = i + 1;
    }
    proof {
        assert forall|j: int| !sentinel_at(v@, j) by {
            if 0 <= j && j + 5 <= v@.len() {
                assert(j < i);
            }
        }
        lemma_find_sentinel_props(v@);
        match find_sentinel(v@) {
            Some(k) => {
                assert(sentinel_at(v@, k));
            },
            None => {},
        }
    }
    None
}

/// Cuts five bytes out of the payload at the given position.
fn remove_five_at(v: &Vec<u8>, i: usize) -> (r: Vec<u8>)
    requires
        i + 5 <= v@.len(),
    ensures
        r@ == v@.subrange(0, i as int) + v@.subrange(i + 5, v@.len() as int),
{
    let mut out: Vec<u8> = Vec::new();
    let mut k: usize = 0;
    while k < i
        invariant
            k <= i,
            i + 5 <= v@.len(),
            out@ == v@.subrange(0, k as int),
        decreases i - k,
    {
        out.push(v[k]);
        proof {
            assert(out@ =~= v@.subrange(0, k + 1));
        }
        k = k + 1;
    }
    let total = v.len();
    proof {
        assert(i + 5 <= total);
    }
    let mut k2: usize = i + 5;
    while k2 < v.len()
        invariant
            i + 5 <= k2 <= v@.len(),
            out@ == v@.subrange(0, i as int) + v@.subrange(i + 5, k2 as int),
        decreases v@.len() - k2,
    {
        out.push(v[k2]);
        proof {
            assert(out@ =~= v@.subrange(0, i as int) + v@.subrange(i + 5, k2 + 1));
        }
        k2 = k2 + 1;
    }
    proof {
        assert(v@.subrange(0, i as int) =~= v@.subrange(0, i as int) + v@.subrange(
            i + 5,
            (i + 5) as int,
        ));
    }
    out
}

/// Removes every sentinel occurrence from the payload.
pub fn remove_sentinels_vec(v: Vec<u8>) -> (r: Vec<u8>)
    ensures
        r@ == remove_sentinels(v@),
{
    let mut cur = v;
    loop
        invariant
            remove_sentinels(cur@) == remove_sentinels(v@),
        decreases cur@.len(),
    {
        match find_sentinel_index(&cur) {
            Some(i) => {
                proof {
                    lemma_find_sentinel_props(cur@);
                }
                cur = remove_five_at(&cur, i);
            },
            None => {
                return cur;
            },
        }
    }
}

/// Trims ASCII whitespace from both ends of the payload.
pub fn trim_spaces_vec(v: &Vec<u8>) -> (r: Vec<u8>)
    ensures
        r@ == trim_spaces(v@),
{
    let mut lo: usize = 0;
    while lo < v.len() && is_space_byte_exec(v[lo])
        invariant
            lo <= v@.len(),
            forall|j: int| 0 <= j < lo ==> is_space_byte(v@[j]),
        decreases v@.len() - lo,
    {
        lo = lo + 1;
    }
    if lo == v.len() {
        proof {
            lemma_trim_spaces_at(v@, lo as int, lo as int);
        }
        return Vec::new();
    }
    let mut hi: usize = v.len();
    while hi > lo && is_space_byte_exec(v[hi - 1])
        invariant
            lo <= hi <= v@.len(),
            forall|j: int| hi <= j < v@.len() ==> is_space_byte(v@[j]),
        decreases hi,
    {
        hi = hi - 1;
    }
    proof {
        assert(hi > lo);
        lemma_trim_spaces_at(v@, lo as int, hi as int);
    }
    let mut out: Vec<u8> = Vec::new();
    let mut k: usize = lo;
    while k < hi
        invariant
            lo <= k <= hi <= v@.len(),
            out@ == v@.subrange(lo as int, k as int),
        decreases hi - k,
    {
        out.push(v[k]);
        proof {
            assert(out@ =~= v@.subrange(lo as int, k + 1));
        }
        k = k + 1;
    }
    out
}

/// Removes embedded null bytes, which the serial link or buffer reuse may
/// interleave as padding.
pub fn strip_nulls(v: &Vec<u8>) -> (r: Vec<u8>)
    ensures
        r@ == v@.filter(|b: u8| b != 0),
{
    let mut out: Vec<u8> = Vec::new();
    let mut i: usize = 0;
    proof {
        assert(v@.take(0) =~= Seq::<u8>::empty());
        reveal(Seq::filter);
        assert(Seq::<u8>::empty().filter(|b: u8| b != 0) =~= Seq::<u8>::empty());
    }
    while i < v.len()
        invariant
            i <= v@.len(),
            out@ == v@.take(i as int).filter(|b: u8| b != 0),
        decreases v@.len() - i,
    {
        let b = v[i];
        proof {
            v@.take(i as int).lemma_filter_push(v@[i as int], |b: u8| b != 0);
            assert(v@.take(i + 1) =~= v@.take(i as int).push(v@[i as int]));
        }
        if b != 0 {
            out.push(b);
        }
        i = i + 1;
    }
    proof {
        assert(v@.take(v@.len() as int) =~= v@);
    }
    out
}

/// Relies on std's `String::from_utf8`: it succeeds exactly on valid UTF-8
/// input and returns the string those bytes encode, which vstd's `utf8`
/// module states byte for byte.
#[verifier::external_body]
fn bytes_to_string(v: Vec<u8>) -> (r: Result<String, FocusError>)
    ensures
        r matches Ok(s) ==> valid_utf8(v@) && s@ == decode_utf8(v@),
        r matches Err(e) ==> !valid_utf8(v@) && e == FocusError::Utf8ConversionError,
{
    match String::from_utf8(v) {
        Ok(s) => Ok(s),
        Err(_) => Err(FocusError::Utf8ConversionError),
    }
}

/// Cleans an accumulated raw response and decodes it: every sentinel
/// occurrence is removed, ASCII whitespace is trimmed from both ends, and
/// the remaining bytes are decoded as UTF-8. An empty result is a valid
/// "acknowledgement, no payload" response, not an error.
pub fn clean_response(raw: &Vec<u8>) -> (r: Result<String, FocusError>)
    ensures
        valid_utf8(clean_spec(raw@)) ==> (r matches Ok(s) && s@ == decode_utf8(clean_spec(raw@))),
        !valid_utf8(clean_spec(raw@)) ==> (r matches Err(e) && e
            == FocusError::Utf8ConversionError),
{
    let owned = slice_to_vec(raw.as_slice());
    let no_sentinels = remove_sentinels_vec(owned);
    let trimmed = trim_spaces_vec(&no_sentinels);
    bytes_to_string(trimmed)
}

/// The buffer ends with the sentinel: the response is complete.
pub fn sentinel_tail(v: &Vec<u8>) -> (r: bool)
    ensures
        r == (v@.len() >= 5 && sentinel_at(v@, v@.len() - 5)),
{
    let n = v.len();
    if n < 5 {
        return false;
    }
    let hit = v[n - 5] == 13 && v[n - 4] == 10 && v[n - 3] == 46 && v[n - 2] == 13 && v[n - 1]
        == 10;
    proof {
        let i = v@.len() - 5;
        if hit {
            assert(v@.subrange(i, i + 5) =~= sentinel());
        } else {
            if v@.subrange(i, i + 5) == sentinel() {
                assert(v@[i] == sentinel()[0]);
                assert(v@[i + 1] == sentinel()[1]);
                assert(v@[i + 2] == sentinel()[2]);
                assert(v@[i + 3] == sentinel()[3]);
                assert(v@[i + 4] == sentinel()[4]);
            }
        }
    }
    hit
}

} // verus!
