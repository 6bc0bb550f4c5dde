//! Structural halting on reasoning traces: answer-space cycle detection.
//!
//! A [`StructuralTraceMonitor`] consumes one answer identity per reasoning
//! step and classifies each step's answer-space transition:
//!
//! | current | new answer | in ring? | abandoned since activation? | transition |
//! |---|---|---|---|---|
//! | None | A | – | – | `Correct` (establishment; not a positional change) |
//! | A | A | – | – | `Verify` (`verify_run += 1`) |
//! | A | B ∉ ring | no | – | `Correct` (ring push; A marked abandoned) |
//! | A | B ∈ ring | yes | yes | `BacktrackRevisit` — an answer-space cycle |
//! | A | B ∈ ring | yes | no | `Correct` (defensive re-activation; unreachable) |
//!
//! Two halting policies consume those events (self-loop after `K`
//! consecutive verifications; halt on the first backtrack revisit), plus the
//! pattern-conditional fusion `Auto`, which re-classifies the consumed prefix
//! every step. The ring holds [`RING_CAPACITY`] distinct answers; a ninth
//! evicts the oldest slot. The first halt ends the episode: later steps
//! replay it without consuming state.

use vstd::prelude::*;
use vstd::bytes::spec_u64_from_le_bytes;
use vstd::string::StringSliceAdditionalSpecFns;
use vstd::bytes::u64_from_le_bytes;
use crate::digest::blake3_digest;
use crate::digest::blake3_hash;
use crate::gain_cost_halt::HaltDecision;

verus! {

// ─────────────────────────────────────────────────────────────────────
// Constants
// ─────────────────────────────────────────────────────────────────────

/// Distinct-answer capacity of the ring and of the answer histogram.
pub const RING_CAPACITY: usize = 8;

/// Default self-loop patience: halt after two consecutive self-verifications.
pub const SELF_LOOP_DEFAULT_K: u32 = 2;

/// Self-loop patience for a late-landing trace whose landing answer is
/// still contested.
pub const LATE_LANDING_DEFAULT_K: u32 = 3;

/// Numerator of the collision-purity grade (3/4) at which a late-landing
/// trace drops from [`LATE_LANDING_DEFAULT_K`] to [`SELF_LOOP_DEFAULT_K`].
pub const LATE_LANDING_PURITY_K2_NUM: u64 = 3;

/// Denominator of the collision-purity grade (3/4).
pub const LATE_LANDING_PURITY_K2_DEN: u64 = 4;

// ─────────────────────────────────────────────────────────────────────
// Answer normalization
// ─────────────────────────────────────────────────────────────────────

/// ASCII whitespace as `u8::is_ascii_whitespace` defines it: space, tab,
/// line feed, form feed and carriage return.
pub open spec fn is_ascii_ws(b: u8) -> bool {
    b == 32u8 || b == 9u8 || b == 10u8 || b == 12u8 || b == 13u8
}

/// ASCII lowercase of one byte (`A`–`Z` only).
pub open spec fn ascii_lower(b: u8) -> u8 {
    if 65u8 <= b && b <= 90u8 {
        (b + 32) as u8
    } else {
        b
    }
}

/// The bytes with leading ASCII whitespace removed.
pub open spec fn trim_start(s: Seq<u8>) -> Seq<u8>
    decreases s.len(),
{
    if s.len() > 0 && is_ascii_ws(s[0]) {
        trim_start(s.drop_first())
    } else {
        s
    }
}

/// The bytes with trailing ASCII whitespace removed.
pub open spec fn trim_end(s: Seq<u8>) -> Seq<u8>
    decreases s.len(),
{
    if s.len() > 0 && is_ascii_ws(s.last()) {
        trim_end(s.drop_last())
    } else {
        s
    }
}

/// Lowercase every byte and collapse every run of ASCII whitespace into one
/// space; `in_ws` says whether the byte before `s` was whitespace.
pub open spec fn collapse_ws(s: Seq<u8>, in_ws: bool) -> Seq<u8>
    decreases s.len(),
{
    if s.len() == 0 {
        Seq::empty()
    } else if is_ascii_ws(s[0]) {
        if in_ws {
            collapse_ws(s.drop_first(), true)
        } else {
            seq![32u8] + collapse_ws(s.drop_first(), true)
        }
    } else {
        seq![ascii_lower(s[0])] + collapse_ws(s.drop_first(), false)
    }
}

/// The normalized answer: trimmed, ASCII-lowercased, whitespace runs
/// collapsed to a single space.
pub open spec fn normalized_answer(s: Seq<u8>) -> Seq<u8> {
    collapse_ws(trim_end(trim_start(s)), false)
}

/// The 64-bit identity of a digest: its first eight bytes, little-endian.
pub open spec fn digest_key(digest: Seq<u8>) -> u64 {
    spec_u64_from_le_bytes(digest.subrange(0, 8))
}

/// The 64-bit identity of an answer: the key of the BLAKE3 digest of its
/// normalized bytes.
pub open spec fn answer_key(answer: Seq<u8>) -> u64 {
    digest_key(blake3_digest(normalized_answer(answer)))
}

/// `u8::is_ascii_whitespace`, proved against [`is_ascii_ws`].
fn byte_is_ascii_ws(b: u8) -> (r: bool)
    ensures
        r == is_ascii_ws(b),
{
    b == 32u8 || b == 9u8 || b == 10u8 || b == 12u8 || b == 13u8
}

/// `u8::to_ascii_lowercase`, proved against [`ascii_lower`].
fn byte_to_ascii_lower(b: u8) -> (r: u8)
    ensures
        r == ascii_lower(b),
{
    if 65u8 <= b && b <= 90u8 {
        b + 32
    } else {
        b
    }
}

/// Normalize an answer's bytes: trim leading and trailing ASCII whitespace,
/// ASCII-lowercase (`A`–`Z` only), collapse interior whitespace runs to one
/// space. The empty answer (or an all-whitespace one) normalizes to nothing.
pub fn normalize_answer(bytes: &[u8]) -> (out: Vec<u8>)
    ensures
        out@ == normalized_answer(bytes@),
{
    let len = bytes.len();
    let ghost s = bytes@;
    let mut start: usize = 0;
    assert(s.subrange(0, len as int) =~= s);
    while start < len && byte_is_ascii_ws(bytes[start])
        invariant
            s == bytes@,
            len == s.len(),
            start <= len,
            trim_start(s) == trim_start(s.subrange(start as int, len as int)),
        decreases len - start,
    {
        let ghost sub = s.subrange(start as int, len as int);
        assert(sub.drop_first() =~= s.subrange(start + 1, len as int));
        start = start + 1;
    }
    let ghost t = s.subrange(start as int, len as int);
    assert(trim_start(s) == t);
    let mut end: usize = len;
    while end > start && byte_is_ascii_ws(bytes[end - 1])
        invariant
            s == bytes@,
            len == s.len(),
            start <= end <= len,
            trim_start(s) == t,
            t == s.subrange(start as int, len as int),
            trim_end(t) == trim_end(s.subrange(start as int, end as int)),
        decreases end - start,
    {
        let ghost sub = s.subrange(start as int, end as int);
        assert(sub.drop_last() =~= s.subrange(start as int, end - 1));
        end = end - 1;
    }
    let ghost body = s.subrange(start as int, end as int);
    assert(trim_end(t) == body);
    let mut out: Vec<u8> = Vec::new();
    let mut in_ws = false;
    let mut i = start;
    assert(out@ + collapse_ws(s.subrange(i as int, end as int), in_ws) =~= collapse_ws(body, false));
    while i < end
        invariant
            s == bytes@,
            len == s.len(),
            start <= i <= end <= len,
            body == s.subrange(start as int, end as int),
            normalized_answer(s) == collapse_ws(body, false),
            out@ + collapse_ws(s.subrange(i as int, end as int), in_ws) == collapse_ws(body, false),
        decreases end - i,
    {
        let ghost rest = s.subrange(i as int, end as int);
        assert(rest.drop_first() =~= s.subrange(i + 1, end as int));
        let ghost before = out@;
        let b = bytes[i];
        if byte_is_ascii_ws(b) {
            if !in_ws {
                out.push(32u8);
                assert(before + (seq![32u8] + collapse_ws(rest.drop_first(), true)) =~= out@
                    + collapse_ws(rest.drop_first(), true));
                in_ws = true;
            }
        } else {
            let lb = byte_to_ascii_lower(b);
            out.push(lb);
            assert(before + (seq![lb] + collapse_ws(rest.drop_first(), false)) =~= out@
                + collapse_ws(rest.drop_first(), false));
            in_ws = false;
        }
        i = i + 1;
    }
    assert(s.subrange(i as int, end as int) =~= Seq::<u8>::empty());
    assert(out@ =~= out@ + Seq::<u8>::empty());
    out
}

/// The 64-bit identity of a 32-byte digest: its first eight bytes read
/// little-endian.
pub fn digest_to_key(digest: &[u8; 32]) -> (key: u64)
    ensures
        key == digest_key(digest@),
{
    let head: &[u8] = &digest[0..8];
    u64_from_le_bytes(head)
}

/// Normalize an answer and hash it to a 64-bit identity: the first eight
/// bytes (little-endian) of the BLAKE3 digest of the normalized bytes.
/// Case, surrounding whitespace and the length of interior whitespace runs
/// do not change the identity.
pub fn normalized_answer_hash(answer: &str) -> (key: u64)
    ensures
        key == answer_key(answer.spec_bytes()),
{
    let bytes = answer.as_bytes();
    let normalized = normalize_answer(bytes);
    let digest = blake3_hash(normalized.as_slice());
    digest_to_key(&digest)
}

// ─────────────────────────────────────────────────────────────────────
// Laws of normalization
// ─────────────────────────────────────────────────────────────────────

/// An ASCII capital letter.
pub open spec fn is_ascii_upper(b: u8) -> bool {
    65u8 <= b && b <= 90u8
}

/// Already normalized: no capitals, whitespace only as single spaces, none
/// at either end.
pub open spec fn is_normalized(t: Seq<u8>) -> bool {
    &&& forall|i: int| 0 <= i < t.len() ==> !is_ascii_upper(#[trigger] t[i])
    &&& forall|i: int| 0 <= i < t.len() && is_ascii_ws(#[trigger] t[i]) ==> t[i] == 32u8
    &&& forall|i: int| 0 <= i < t.len() - 1 && is_ascii_ws(#[trigger] t[i]) ==> !is_ascii_ws(t[i + 1])
    &&& t.len() > 0 ==> !is_ascii_ws(t[0]) && !is_ascii_ws(t.last())
}

proof fn lemma_trim_start_shape(s: Seq<u8>)
    ensures
        trim_start(s).len() <= s.len(),
        trim_start(s) == s.subrange(s.len() - trim_start(s).len(), s.len() as int),
        trim_start(s).len() > 0 ==> !is_ascii_ws(trim_start(s)[0]),
        (forall|i: int| 0 <= i < s.len() ==> is_ascii_ws(#[trigger] s[i])) ==> trim_start(s).len()
            == 0,
    decreases s.len(),
{
    if s.len() > 0 && is_ascii_ws(s[0]) {
        lemma_trim_start_shape(s.drop_first());
        let t = trim_start(s.drop_first());
        assert(s.drop_first().subrange(s.len() - 1 - t.len(), s.len() - 1) =~= s.subrange(
            s.len() - t.len(),
            s.len() as int,
        ));
        if forall|i: int| 0 <= i < s.len() ==> is_ascii_ws(#[trigger] s[i]) {
            assert forall|i: int| 0 <= i < s.drop_first().len() implies is_ascii_ws(
                #[trigger] s.drop_first()[i],
            ) by {
                assert(s.drop_first()[i] == s[i + 1]);
            }
        }
    } else {
        assert(s.subrange(0, s.len() as int) =~= s);
    }
}

proof fn lemma_trim_end_shape(s: Seq<u8>)
    ensures
        trim_end(s).len() <= s.len(),
        trim_end(s) == s.subrange(0, trim_end(s).len() as int),
        trim_end(s).len() > 0 ==> !is_ascii_ws(trim_end(s).last()),
    decreases s.len(),
{
    if s.len() > 0 && is_ascii_ws(s.last()) {
        lemma_trim_end_shape(s.drop_last());
        let t = trim_end(s.drop_last());
        assert(s.drop_last().subrange(0, t.len() as int) =~= s.subrange(0, t.len() as int));
    } else {
        assert(s.subrange(0, s.len() as int) =~= s);
    }
}

/// The output of `collapse_ws`: no capitals, whitespace only as single
/// spaces, never at the front after whitespace, and ending in a non-space
/// whenever the input does.
proof fn lemma_collapse_shape(s: Seq<u8>, in_ws: bool)
    ensures
        ({
            let c = collapse_ws(s, in_ws);
            &&& forall|i: int| 0 <= i < c.len() ==> !is_ascii_upper(#[trigger] c[i])
            &&& forall|i: int| 0 <= i < c.len() && is_ascii_ws(#[trigger] c[i]) ==> c[i] == 32u8
            &&& forall|i: int|
                0 <= i < c.len() - 1 && is_ascii_ws(#[trigger] c[i]) ==> !is_ascii_ws(c[i + 1])
            &&& in_ws && c.len() > 0 ==> !is_ascii_ws(c[0])
            &&& s.len() > 0 && !is_ascii_ws(s[0]) ==> c.len() > 0 && !is_ascii_ws(c[0])
            &&& s.len() > 0 && !is_ascii_ws(s.last()) ==> c.len() > 0 && !is_ascii_ws(c.last())
        }),
    decreases s.len(),
{
    if s.len() > 0 {
        let rest = s.drop_first();
        if is_ascii_ws(s[0]) {
            lemma_collapse_shape(rest, true);
        } else {
            lemma_collapse_shape(rest, false);
        }
        let c = collapse_ws(s, in_ws);
        let r = collapse_ws(rest, is_ascii_ws(s[0]));
        if is_ascii_ws(s[0]) && in_ws {
            assert(c == r);
        } else {
            let h = if is_ascii_ws(s[0]) { 32u8 } else { ascii_lower(s[0]) };
            assert(c == seq![h] + r);
            assert forall|i: int| 0 <= i < c.len() implies c[i] == if i == 0 { h } else { r[i - 1] } by {}
            if s.len() > 1 && !is_ascii_ws(s.last()) {
                assert(rest.last() == s.last());
            }
            if s.len() == 1 {
                assert(r.len() == 0);
            }
        }
    }
}

/// Collapsing an already-normal tail changes nothing.
proof fn lemma_collapse_fixed(t: Seq<u8>, in_ws: bool)
    requires
        forall|i: int| 0 <= i < t.len() ==> !is_ascii_upper(#[trigger] t[i]),
        forall|i: int| 0 <= i < t.len() && is_ascii_ws(#[trigger] t[i]) ==> t[i] == 32u8,
        forall|i: int| 0 <= i < t.len() - 1 && is_ascii_ws(#[trigger] t[i]) ==> !is_ascii_ws(t[i + 1]),
        in_ws && t.len() > 0 ==> !is_ascii_ws(t[0]),
    ensures
        collapse_ws(t, in_ws) == t,
    decreases t.len(),
{
    if t.len() > 0 {
        let rest = t.drop_first();
        assert forall|i: int| 0 <= i < rest.len() implies !is_ascii_upper(#[trigger] rest[i]) by {
            assert(rest[i] == t[i + 1]);
        }
        assert forall|i: int| 0 <= i < rest.len() && is_ascii_ws(#[trigger] rest[i]) implies rest[i]
            == 32u8 by {
            assert(rest[i] == t[i + 1]);
        }
        assert forall|i: int|
            0 <= i < rest.len() - 1 && is_ascii_ws(#[trigger] rest[i]) implies !is_ascii_ws(
            rest[i + 1],
        ) by {
            assert(rest[i] == t[i + 1]);
            assert(rest[i + 1] == t[i + 2]);
        }
        if is_ascii_ws(t[0]) && rest.len() > 0 {
            assert(!is_ascii_ws(t[1]));
            assert(rest[0] == t[1]);
        }
        lemma_collapse_fixed(rest, is_ascii_ws(t[0]));
        assert(!is_ascii_upper(t[0]));
        assert(t =~= seq![t[0]] + rest);
    }
}

/// Normalization produces a normalized answer, and normalizing a normalized
/// answer changes nothing: the normalized form is canonical (normalizing
/// twice is normalizing once).
pub proof fn law_normalization_is_canonical(s: Seq<u8>)
    ensures
        is_normalized(normalized_answer(s)),
        normalized_answer(normalized_answer(s)) == normalized_answer(s),
{
    lemma_trim_start_shape(s);
    let a = trim_start(s);
    lemma_trim_end_shape(a);
    let b = trim_end(a);
    if b.len() > 0 {
        assert(b[0] == a[0]);
    }
    lemma_collapse_shape(b, false);
    let n = normalized_answer(s);
    assert(is_normalized(n));
    lemma_trim_start_shape(n);
    if n.len() > 0 {
        assert(trim_start(n) == n);
        assert(trim_end(n) == n);
    } else {
        assert(trim_start(n) == n);
        assert(trim_end(n) == n);
    }
    lemma_collapse_fixed(n, false);
}

/// An answer of whitespace only (the empty answer included) normalizes to
/// the empty answer.
pub proof fn law_blank_answer_normalizes_to_empty(s: Seq<u8>)
    requires
        forall|i: int| 0 <= i < s.len() ==> is_ascii_ws(#[trigger] s[i]),
    ensures
        normalized_answer(s) == Seq::<u8>::empty(),
{
    lemma_trim_start_shape(s);
    assert(trim_start(s) =~= Seq::<u8>::empty());
    assert(normalized_answer(s) =~= Seq::<u8>::empty());
}

/// Every byte ASCII-lowercased.
pub open spec fn lower_all(s: Seq<u8>) -> Seq<u8> {
    s.map_values(|b: u8| ascii_lower(b))
}

proof fn lemma_trim_start_lower(s: Seq<u8>)
    ensures
        trim_start(lower_all(s)) == lower_all(trim_start(s)),
    decreases s.len(),
{
    if s.len() > 0 {
        assert(lower_all(s)[0] == ascii_lower(s[0]));
        assert(lower_all(s).drop_first() =~= lower_all(s.drop_first()));
        if is_ascii_ws(s[0]) {
            lemma_trim_start_lower(s.drop_first());
        }
    }
}

proof fn lemma_trim_end_lower(s: Seq<u8>)
    ensures
        trim_end(lower_all(s)) == lower_all(trim_end(s)),
    decreases s.len(),
{
    if s.len() > 0 {
        assert(lower_all(s).last() == ascii_lower(s.last()));
        assert(lower_all(s).drop_last() =~= lower_all(s.drop_last()));
        if is_ascii_ws(s.last()) {
            lemma_trim_end_lower(s.drop_last());
        }
    }
}

proof fn lemma_collapse_lower(s: Seq<u8>, in_ws: bool)
    ensures
        collapse_ws(lower_all(s), in_ws) == collapse_ws(s, in_ws),
    decreases s.len(),
{
    if s.len() > 0 {
        assert(lower_all(s)[0] == ascii_lower(s[0]));
        assert(lower_all(s).drop_first() =~= lower_all(s.drop_first()));
        lemma_collapse_lower(s.drop_first(), true);
        lemma_collapse_lower(s.drop_first(), false);
    }
}

/// Normalization ignores ASCII case: lowercasing an answer first does not
/// change its normalized form, so it does not change its identity either.
pub proof fn law_normalization_ignores_case(s: Seq<u8>)
    ensures
        normalized_answer(lower_all(s)) == normalized_answer(s),
        answer_key(lower_all(s)) == answer_key(s),
{
    lemma_trim_start_lower(s);
    lemma_trim_end_lower(trim_start(s));
    lemma_collapse_lower(trim_end(trim_start(s)), false);
}

/// `s` and `t` differ at most in which whitespace byte stands where both
/// hold whitespace.
pub open spec fn same_up_to_ws_kind(s: Seq<u8>, t: Seq<u8>) -> bool {
    &&& s.len() == t.len()
    &&& forall|i: int|
        0 <= i < s.len() ==> (is_ascii_ws(#[trigger] s[i]) && is_ascii_ws(t[i])) || s[i] == t[i]
}

proof fn lemma_ws_kind_drop_first(s: Seq<u8>, t: Seq<u8>)
    requires
        same_up_to_ws_kind(s, t),
        s.len() > 0,
    ensures
        same_up_to_ws_kind(s.drop_first(), t.drop_first()),
        is_ascii_ws(s[0]) == is_ascii_ws(t[0]),
{
    assert forall|i: int| 0 <= i < s.len() - 1 implies (is_ascii_ws(#[trigger] s.drop_first()[i])
        && is_ascii_ws(t.drop_first()[i])) || s.drop_first()[i] == t.drop_first()[i] by {
        assert(s.drop_first()[i] == s[i + 1]);
        assert(t.drop_first()[i] == t[i + 1]);
    }
    assert(is_ascii_ws(s[0]) && is_ascii_ws(t[0]) || s[0] == t[0]);
}

proof fn lemma_ws_kind_drop_last(s: Seq<u8>, t: Seq<u8>)
    requires
        same_up_to_ws_kind(s, t),
        s.len() > 0,
    ensures
        same_up_to_ws_kind(s.drop_last(), t.drop_last()),
        is_ascii_ws(s.last()) == is_ascii_ws(t.last()),
{
    assert forall|i: int| 0 <= i < s.len() - 1 implies (is_ascii_ws(#[trigger] s.drop_last()[i])
        && is_ascii_ws(t.drop_last()[i])) || s.drop_last()[i] == t.drop_last()[i] by {
        assert(s.drop_last()[i] == s[i]);
        assert(t.drop_last()[i] == t[i]);
    }
    assert(is_ascii_ws(s[s.len() - 1]) && is_ascii_ws(t[s.len() - 1]) || s[s.len() - 1] == t[s.len()
        - 1]);
}

proof fn lemma_trim_start_ws_kind(s: Seq<u8>, t: Seq<u8>)
    requires
        same_up_to_ws_kind(s, t),
    ensures
        same_up_to_ws_kind(trim_start(s), trim_start(t)),
    decreases s.len(),
{
    if s.len() > 0 {
        lemma_ws_kind_drop_first(s, t);
        if is_ascii_ws(s[0]) {
            lemma_trim_start_ws_kind(s.drop_first(), t.drop_first());
        }
    }
}

proof fn lemma_trim_end_ws_kind(s: Seq<u8>, t: Seq<u8>)
    requires
        same_up_to_ws_kind(s, t),
    ensures
        same_up_to_ws_kind(trim_end(s), trim_end(t)),
    decreases s.len(),
{
    if s.len() > 0 {
        lemma_ws_kind_drop_last(s, t);
        if is_ascii_ws(s.last()) {
            lemma_trim_end_ws_kind(s.drop_last(), t.drop_last());
        }
    }
}

proof fn lemma_collapse_ws_kind(s: Seq<u8>, t: Seq<u8>, in_ws: bool)
    requires
        same_up_to_ws_kind(s, t),
    ensures
        collapse_ws(s, in_ws) == collapse_ws(t, in_ws),
    decreases s.len(),
{
    if s.len() > 0 {
        lemma_ws_kind_drop_first(s, t);
        lemma_collapse_ws_kind(s.drop_first(), t.drop_first(), true);
        lemma_collapse_ws_kind(s.drop_first(), t.drop_first(), false);
    }
}

/// Normalization ignores which whitespace byte stands where: replacing any
/// whitespace byte by another (a tab by a space, a newline by a carriage
/// return) does not change the normalized form or the identity.
pub proof fn law_normalization_ignores_whitespace_kind(s: Seq<u8>, t: Seq<u8>)
    requires
        same_up_to_ws_kind(s, t),
    ensures
        normalized_answer(s) == normalized_answer(t),
        answer_key(s) == answer_key(t),
{
    lemma_trim_start_ws_kind(s, t);
    lemma_trim_end_ws_kind(trim_start(s), trim_start(t));
    lemma_collapse_ws_kind(trim_end(trim_start(s)), trim_end(trim_start(t)), false);
}

/// Every byte is ASCII whitespace.
pub open spec fn all_ws(s: Seq<u8>) -> bool {
    forall|i: int| 0 <= i < s.len() ==> is_ascii_ws(#[trigger] s[i])
}

proof fn lemma_trim_start_concat(x: Seq<u8>, y: Seq<u8>)
    ensures
        all_ws(x) ==> trim_start(x + y) == trim_start(y),
        !all_ws(x) ==> trim_start(x + y) == trim_start(x) + y,
    decreases x.len(),
{
    if x.len() == 0 {
        assert(x + y =~= y);
    } else {
        assert((x + y)[0] == x[0]);
        assert((x + y).drop_first() =~= x.drop_first() + y);
        if is_ascii_ws(x[0]) {
            lemma_trim_start_concat(x.drop_first(), y);
            if !all_ws(x) {
                let i = choose|i: int| 0 <= i < x.len() && !is_ascii_ws(#[trigger] x[i]);
                assert(x.drop_first()[i - 1] == x[i]);
            } else {
                assert forall|i: int| 0 <= i < x.drop_first().len() implies is_ascii_ws(
                    #[trigger] x.drop_first()[i],
                ) by {
                    assert(x.drop_first()[i] == x[i + 1]);
                }
            }
        }
    }
}

proof fn lemma_trim_end_concat(x: Seq<u8>, y: Seq<u8>)
    ensures
        all_ws(y) ==> trim_end(x + y) == trim_end(x),
        !all_ws(y) ==> trim_end(x + y) == x + trim_end(y),
    decreases y.len(),
{
    if y.len() == 0 {
        assert(x + y =~= x);
    } else {
        assert((x + y).last() == y.last());
        assert((x + y).drop_last() =~= x + y.drop_last());
        if is_ascii_ws(y.last()) {
            lemma_trim_end_concat(x, y.drop_last());
            if !all_ws(y) {
                let i = choose|i: int| 0 <= i < y.len() && !is_ascii_ws(#[trigger] y[i]);
                assert(y.drop_last()[i] == y[i]);
            } else {
                assert forall|i: int| 0 <= i < y.drop_last().len() implies is_ascii_ws(
                    #[trigger] y.drop_last()[i],
                ) by {
                    assert(y.drop_last()[i] == y[i]);
                }
            }
        }
    }
}

proof fn lemma_collapse_run(a: Seq<u8>, b: Seq<u8>, w1: u8, w2: u8, in_ws: bool)
    requires
        is_ascii_ws(w1),
        is_ascii_ws(w2),
    ensures
        collapse_ws(a + seq![w1, w2] + b, in_ws) == collapse_ws(a + seq![w1] + b, in_ws),
    decreases a.len(),
{
    let s2 = a + seq![w1, w2] + b;
    let s1 = a + seq![w1] + b;
    if a.len() == 0 {
        assert(s2.drop_first() =~= seq![w2] + b);
        assert((seq![w2] + b).drop_first() =~= b);
        assert(s1.drop_first() =~= b);
        assert(s2[0] == w1 && s1[0] == w1);
        let m = seq![w2] + b;
        assert(m[0] == w2);
        assert(collapse_ws(m, true) == collapse_ws(b, true));
        if in_ws {
            assert(collapse_ws(s2, in_ws) == collapse_ws(m, true));
            assert(collapse_ws(s1, in_ws) == collapse_ws(b, true));
        } else {
            assert(collapse_ws(s2, in_ws) == seq![32u8] + collapse_ws(m, true));
            assert(collapse_ws(s1, in_ws) == seq![32u8] + collapse_ws(b, true));
        }
    } else {
        assert(s2[0] == a[0] && s1[0] == a[0]);
        assert(s2.drop_first() =~= a.drop_first() + seq![w1, w2] + b);
        assert(s1.drop_first() =~= a.drop_first() + seq![w1] + b);
        lemma_collapse_run(a.drop_first(), b, w1, w2, is_ascii_ws(a[0]));
    }
}

/// Normalization collapses whitespace runs: doubling a whitespace byte
/// anywhere in an answer does not change the normalized form or the
/// identity (so `"A  B"`, `"A B"` and `"A \t B"` share one identity).
pub proof fn law_normalization_collapses_runs(p: Seq<u8>, q: Seq<u8>, w1: u8, w2: u8)
    requires
        is_ascii_ws(w1),
        is_ascii_ws(w2),
    ensures
        normalized_answer(p + seq![w1, w2] + q) == normalized_answer(p + seq![w1] + q),
        answer_key(p + seq![w1, w2] + q) == answer_key(p + seq![w1] + q),
{
    let s2 = p + seq![w1, w2] + q;
    let s1 = p + seq![w1] + q;
    assert(s2 =~= p + (seq![w1, w2] + q));
    assert(s1 =~= p + (seq![w1] + q));
    lemma_trim_start_concat(p, seq![w1, w2] + q);
    lemma_trim_start_concat(p, seq![w1] + q);
    if all_ws(p) {
        lemma_trim_start_concat(seq![w1, w2], q);
        lemma_trim_start_concat(seq![w1], q);
        assert(all_ws(seq![w1, w2]));
        assert(all_ws(seq![w1]));
    } else {
        let tp = trim_start(p);
        assert(trim_start(s2) =~= tp + (seq![w1, w2] + q));
        assert(trim_start(s1) =~= tp + (seq![w1] + q));
        lemma_trim_end_concat(tp, seq![w1, w2] + q);
        lemma_trim_end_concat(tp, seq![w1] + q);
        if all_ws(q) {
            let r2 = seq![w1, w2] + q;
            let r1 = seq![w1] + q;
            assert forall|i: int| 0 <= i < r2.len() implies is_ascii_ws(#[trigger] r2[i]) by {
                if i >= 2 {
                    assert(r2[i] == q[i - 2]);
                }
            }
            assert forall|i: int| 0 <= i < r1.len() implies is_ascii_ws(#[trigger] r1[i]) by {
                if i >= 1 {
                    assert(r1[i] == q[i - 1]);
                }
            }
        } else {
            let i = choose|i: int| 0 <= i < q.len() && !is_ascii_ws(#[trigger] q[i]);
            assert((seq![w1, w2] + q)[i + 2] == q[i]);
            assert((seq![w1] + q)[i + 1] == q[i]);
            lemma_trim_end_concat(seq![w1, w2], q);
            lemma_trim_end_concat(seq![w1], q);
            assert(trim_end(tp + (seq![w1, w2] + q)) =~= tp + seq![w1, w2] + trim_end(q));
            assert(trim_end(tp + (seq![w1] + q)) =~= tp + seq![w1] + trim_end(q));
            lemma_collapse_run(tp, trim_end(q), w1, w2, false);
        }
    }
}

// ─────────────────────────────────────────────────────────────────────
// Decision types
// ─────────────────────────────────────────────────────────────────────

/// The answer-space event class of one reasoning step.
#[derive(Clone, Copy, Debug, PartialEq, Eq, Structural)]
pub enum StructuralTransition {
    /// Answer unchanged from the previous step (`verify_run += 1`).
    Verify,
    /// Answer changed to a fresh answer (ring push), or the first step
    /// establishing the initial answer (not a positional change).
    Correct,
    /// Answer changed back to a previously abandoned ring entry: an
    /// answer-space cycle.
    BacktrackRevisit,
}

/// Why a structural halt fired (or which family a composed vote came from).
#[derive(Clone, Copy, Debug, PartialEq, Eq, Structural)]
pub enum StructuralHaltReason {
    /// The self-loop policy fired: `k` consecutive `Verify` transitions.
    SelfLoop,
    /// The backtrack policy fired: a previously abandoned answer came back.
    BacktrackRevisit,
    /// A vote recorded on behalf of an independent (numeric) halt family
    /// through [`vote_from_numeric`]; the monitor itself never produces it.
    NumericArbiter,
}

/// Result of one structural trace evaluation.
#[derive(Clone, Copy, Debug, PartialEq, Eq, Structural)]
pub enum StructuralHaltDecision {
    /// Keep going: no policy fired on this step.
    Continue,
    /// Halt now: a policy fired on this step.
    Halt {
        /// Which policy family fired.
        reason: StructuralHaltReason,
        /// 1-based index of the step that triggered the halt.
        step: usize,
    },
}

impl StructuralHaltDecision {
    /// `true` iff this is a [`StructuralHaltDecision::Halt`].
    pub fn is_halt(&self) -> (r: bool)
        ensures
            r == (*self is Halt),
    {
        matches!(self, StructuralHaltDecision::Halt { .. })
    }
}

/// One family's halt opinion for one step.
pub type HaltVote = StructuralHaltDecision;

// ─────────────────────────────────────────────────────────────────────
// Policies
// ─────────────────────────────────────────────────────────────────────

/// The self-looping policy: halt after `k` consecutive self-verifications of
/// the current answer. The halt fires on the step where `verify_run >= k`.
#[derive(Clone, Copy, Debug, PartialEq, Eq, Structural)]
pub struct SelfLoopHalt {
    /// Consecutive verifies required before halting.
    pub k: u32,
}

impl SelfLoopHalt {
    /// The general default (K = 2).
    pub fn paper_default() -> (r: Self)
        ensures
            r.k == SELF_LOOP_DEFAULT_K,
    {
        Self { k: SELF_LOOP_DEFAULT_K }
    }

    /// Construct with an explicit patience, clamped to at least 1.
    pub fn new(k: u32) -> (r: Self)
        ensures
            r.k == if k >= 1 { k } else { 1 },
    {
        Self { k: if k >= 1 { k } else { 1 } }
    }
}

impl Default for SelfLoopHalt {
    /// [`SelfLoopHalt::paper_default`] (K = 2).
    fn default() -> (r: Self)
        ensures
            r.k == SELF_LOOP_DEFAULT_K,
    {
        Self::paper_default()
    }
}

/// The backtrack policy: halt the first time the model revisits a
/// previously abandoned answer.
#[derive(Clone, Copy, Debug, Default, PartialEq, Eq, Structural)]
pub struct BacktrackRevisitHalt;

/// Which halting policy the monitor evaluates each step.
#[derive(Clone, Copy, Debug, PartialEq, Eq, Structural)]
pub enum HaltPolicy {
    /// Pattern-conditional fusion: re-classify the consumed prefix each step
    /// and evaluate the step with the policy the pattern selects.
    Auto,
    /// Self-loop with the given patience.
    SelfLoop(u32),
    /// Halt on the first backtrack revisit.
    BacktrackRevisit,
    /// Never halt: the no-op control.
    Never,
}

impl Default for HaltPolicy {
    /// [`HaltPolicy::Auto`].
    fn default() -> (r: Self)
        ensures
            r == HaltPolicy::Auto,
    {
        HaltPolicy::Auto
    }
}

impl From<SelfLoopHalt> for HaltPolicy {
    fn from(s: SelfLoopHalt) -> (r: Self) {
        HaltPolicy::SelfLoop(s.k)
    }
}

impl vstd::std_specs::convert::FromSpecImpl<SelfLoopHalt> for HaltPolicy {
    open spec fn obeys_from_spec() -> bool {
        true
    }

    open spec fn from_spec(s: SelfLoopHalt) -> HaltPolicy {
        HaltPolicy::SelfLoop(s.k)
    }
}

impl From<BacktrackRevisitHalt> for HaltPolicy {
    fn from(_b: BacktrackRevisitHalt) -> (r: Self) {
        HaltPolicy::BacktrackRevisit
    }
}

impl vstd::std_specs::convert::FromSpecImpl<BacktrackRevisitHalt> for HaltPolicy {
    open spec fn obeys_from_spec() -> bool {
        true
    }

    open spec fn from_spec(b: BacktrackRevisitHalt) -> HaltPolicy {
        HaltPolicy::BacktrackRevisit
    }
}

/// The two trace patterns the halting heuristics are conditioned on.
#[derive(Clone, Copy, Debug, PartialEq, Eq, Structural)]
pub enum Pattern {
    /// The model wanders: answers keep changing, cycles are common.
    Explorer,
    /// The model lands on its answer late and then verifies it repeatedly.
    LateLanding,
}

/// A classification result: the pattern and the policy it selects.
#[derive(Clone, Copy, Debug, PartialEq, Eq, Structural)]
pub struct ClassifiedPattern {
    /// Which pattern the consumed prefix matches.
    pub pattern: Pattern,
    /// The policy that pattern selects (never [`HaltPolicy::Auto`]).
    pub policy: HaltPolicy,
}

// ─────────────────────────────────────────────────────────────────────
// The monitor's mathematical model
// ─────────────────────────────────────────────────────────────────────

/// `x + 1`, saturating at `u32::MAX`.
pub open spec fn sat_inc(x: u32) -> u32 {
    if x == u32::MAX {
        x
    } else {
        (x + 1) as u32
    }
}

/// The first index below `len` at which `keys` holds `key`, if any.
pub open spec fn first_index_of(keys: Seq<u64>, len: int, key: u64) -> Option<int> {
    if exists|i: int| 0 <= i < len && keys[i] == key {
        Some(
            choose|i: int|
                0 <= i < len && keys[i] == key && forall|j: int| 0 <= j < i ==> keys[j] != key,
        )
    } else {
        None
    }
}

/// `i` is the lowest index holding the minimum of `counts`.
pub open spec fn is_first_min(counts: Seq<u32>, i: int) -> bool {
    &&& 0 <= i < counts.len()
    &&& forall|j: int| 0 <= j < counts.len() ==> counts[i] <= counts[j]
    &&& forall|j: int| 0 <= j < i ==> counts[j] > counts[i]
}

/// The lowest index holding the minimum of `counts` (the histogram slot an
/// unseen answer evicts when the histogram is full).
pub open spec fn first_min_index(counts: Seq<u32>) -> int {
    choose|i: int| is_first_min(counts, i)
}

/// Sum of the first `n` counts.
pub open spec fn count_sum(counts: Seq<u32>, n: int) -> int
    decreases n,
{
    if n <= 0 {
        0
    } else {
        count_sum(counts, n - 1) + counts[n - 1]
    }
}

/// Sum of the squares of the first `n` counts.
pub open spec fn square_sum(counts: Seq<u32>, n: int) -> int
    decreases n,
{
    if n <= 0 {
        0
    } else {
        square_sum(counts, n - 1) + counts[n - 1] * counts[n - 1]
    }
}

/// The halt decision for one step: the self-loop policy fires on a `Verify`
/// whose run reached `k`; the backtrack policy fires on a revisit; nothing
/// else fires.
pub open spec fn decide(
    active: HaltPolicy,
    transition: StructuralTransition,
    verify_run: u32,
    step: usize,
) -> StructuralHaltDecision {
    match active {
        HaltPolicy::SelfLoop(k) => if transition == StructuralTransition::Verify && verify_run >= k {
            StructuralHaltDecision::Halt { reason: StructuralHaltReason::SelfLoop, step }
        } else {
            StructuralHaltDecision::Continue
        },
        HaltPolicy::BacktrackRevisit => if transition == StructuralTransition::BacktrackRevisit {
            StructuralHaltDecision::Halt { reason: StructuralHaltReason::BacktrackRevisit, step }
        } else {
            StructuralHaltDecision::Continue
        },
        _ => StructuralHaltDecision::Continue,
    }
}

/// The state of a [`StructuralTraceMonitor`], with its fixed arrays seen as
/// sequences.
#[verifier::ext_equal]
pub struct MonitorView {
    pub policy: HaltPolicy,
    pub current_key: Option<u64>,
    pub current_slot: u8,
    pub verify_run: u32,
    pub revisit_count: u32,
    pub step_count: usize,
    pub last_change_step: usize,
    pub ring_hash: Seq<u64>,
    pub ring_activation_step: Seq<u32>,
    pub ring_abandoned: Seq<u8>,
    pub ring_next: u8,
    pub ring_len: u8,
    pub hist_hash: Seq<u64>,
    pub hist_count: Seq<u32>,
    pub hist_len: u8,
    pub halted: bool,
    pub halt_decision: StructuralHaltDecision,
    pub last_transition: Option<StructuralTransition>,
}

impl MonitorView {
    /// A fresh episode under `policy`.
    pub open spec fn initial(policy: HaltPolicy) -> MonitorView {
        MonitorView {
            policy,
            current_key: None,
            current_slot: 0,
            verify_run: 0,
            revisit_count: 0,
            step_count: 0,
            last_change_step: 0,
            ring_hash: Seq::new(8, |i: int| 0u64),
            ring_activation_step: Seq::new(8, |i: int| 0u32),
            ring_abandoned: Seq::new(8, |i: int| 0u8),
            ring_next: 0,
            ring_len: 0,
            hist_hash: Seq::new(8, |i: int| 0u64),
            hist_count: Seq::new(8, |i: int| 0u32),
            hist_len: 0,
            halted: false,
            halt_decision: StructuralHaltDecision::Continue,
            last_transition: None,
        }
    }

    /// Bounds every operation relies on: eight-slot tables, in-range cursors,
    /// and the last change no later than the step count.
    pub open spec fn wf(self) -> bool {
        &&& self.ring_hash.len() == RING_CAPACITY
        &&& self.ring_activation_step.len() == RING_CAPACITY
        &&& self.ring_abandoned.len() == RING_CAPACITY
        &&& self.hist_hash.len() == RING_CAPACITY
        &&& self.hist_count.len() == RING_CAPACITY
        &&& self.ring_len <= RING_CAPACITY
        &&& self.ring_next < RING_CAPACITY
        &&& self.current_slot < RING_CAPACITY
        &&& self.hist_len <= RING_CAPACITY
        &&& self.last_change_step <= self.step_count
    }

    /// The first live ring slot holding `key`.
    pub open spec fn ring_find(self, key: u64) -> Option<int> {
        first_index_of(self.ring_hash, self.ring_len as int, key)
    }

    /// Write `key` into the slot under the circular write pointer (evicting
    /// its previous occupant), fresh and not abandoned; returns the slot.
    pub open spec fn ring_insert(self, key: u64, step: usize) -> (MonitorView, u8) {
        let slot = self.ring_next;
        (
            MonitorView {
                ring_hash: self.ring_hash.update(slot as int, key),
                ring_activation_step: self.ring_activation_step.update(slot as int, step as u32),
                ring_abandoned: self.ring_abandoned.update(slot as int, 0u8),
                ring_next: ((slot + 1) % (RING_CAPACITY as int)) as u8,
                ring_len: if self.ring_len < RING_CAPACITY {
                    (self.ring_len + 1) as u8
                } else {
                    self.ring_len
                },
                ..self
            },
            slot,
        )
    }

    /// Count one more occurrence of `key`: bump its entry; else append it;
    /// else (full) replace the lowest-index least-counted entry.
    pub open spec fn bump_hist(self, key: u64) -> MonitorView {
        match first_index_of(self.hist_hash, self.hist_len as int, key) {
            Some(i) => MonitorView {
                hist_count: self.hist_count.update(i, sat_inc(self.hist_count[i])),
                ..self
            },
            None => if self.hist_len < RING_CAPACITY {
                MonitorView {
                    hist_hash: self.hist_hash.update(self.hist_len as int, key),
                    hist_count: self.hist_count.update(self.hist_len as int, 1u32),
                    hist_len: (self.hist_len + 1) as u8,
                    ..self
                }
            } else {
                let m = first_min_index(self.hist_count);
                MonitorView {
                    hist_hash: self.hist_hash.update(m, key),
                    hist_count: self.hist_count.update(m, 1u32),
                    ..self
                }
            },
        }
    }

    /// Make `key` (found at `slot`) current again.
    pub open spec fn reactivate(self, key: u64, slot: int, step: usize) -> MonitorView {
        MonitorView {
            ring_activation_step: self.ring_activation_step.update(slot, step as u32),
            current_key: Some(key),
            current_slot: slot as u8,
            verify_run: 0,
            ..self
        }
    }

    /// Advance the state machine by one answer identity and classify the
    /// transition per the truth table.
    pub open spec fn observe(self, key: u64) -> (MonitorView, StructuralTransition) {
        let step = (self.step_count + 1) as usize;
        let s = MonitorView { step_count: step, ..self.bump_hist(key) };
        match self.current_key {
            None => {
                let (s2, slot) = s.ring_insert(key, step);
                (
                    MonitorView { current_key: Some(key), current_slot: slot, verify_run: 0, ..s2 },
                    StructuralTransition::Correct,
                )
            },
            Some(cur) => if key == cur {
                (MonitorView { verify_run: sat_inc(s.verify_run), ..s }, StructuralTransition::Verify)
            } else {
                let left = MonitorView {
                    ring_abandoned: s.ring_abandoned.update(s.current_slot as int, 1u8),
                    last_change_step: step,
                    ..s
                };
                match left.ring_find(key) {
                    Some(slot) => if left.ring_abandoned[slot] == 1u8 {
                        (
                            MonitorView {
                                revisit_count: sat_inc(left.revisit_count),
                                ring_abandoned: left.ring_abandoned.update(slot, 0u8),
                                ..left
                            }.reactivate(key, slot, step),
                            StructuralTransition::BacktrackRevisit,
                        )
                    } else {
                        (left.reactivate(key, slot, step), StructuralTransition::Correct)
                    },
                    None => {
                        let (s2, slot) = left.ring_insert(key, step);
                        (
                            MonitorView {
                                current_key: Some(key),
                                current_slot: slot,
                                verify_run: 0,
                                ..s2
                            },
                            StructuralTransition::Correct,
                        )
                    },
                }
            },
        }
    }

    /// Total count held by the live histogram entries.
    pub open spec fn hist_total(self) -> int {
        count_sum(self.hist_count, self.hist_len as int)
    }

    /// The collision purity `Σ p²` of the count-normalized histogram is at
    /// least 3/4 (stated exactly, without division).
    pub open spec fn purity_at_least_three_quarters(self) -> bool {
        LATE_LANDING_PURITY_K2_DEN * square_sum(self.hist_count, self.hist_len as int)
            >= LATE_LANDING_PURITY_K2_NUM * (self.hist_total() * self.hist_total())
    }

    /// At least half the consumed trace is the verify tail after the last
    /// positional change.
    pub open spec fn late_tail(self) -> bool {
        (self.step_count - self.last_change_step) * 2 >= self.step_count
    }

    /// The pattern classification of the consumed prefix.
    pub open spec fn classify(self) -> ClassifiedPattern {
        if self.hist_total() == 0 {
            ClassifiedPattern {
                pattern: Pattern::LateLanding,
                policy: HaltPolicy::SelfLoop(SELF_LOOP_DEFAULT_K),
            }
        } else if self.late_tail() {
            ClassifiedPattern {
                pattern: Pattern::LateLanding,
                policy: HaltPolicy::SelfLoop(
                    if self.purity_at_least_three_quarters() {
                        SELF_LOOP_DEFAULT_K
                    } else {
                        LATE_LANDING_DEFAULT_K
                    },
                ),
            }
        } else {
            ClassifiedPattern { pattern: Pattern::Explorer, policy: HaltPolicy::BacktrackRevisit }
        }
    }

    /// One step of an episode: a halted episode replays its decision and
    /// keeps its state; otherwise observe, resolve the active policy, decide,
    /// and record a halt.
    pub open spec fn step(self, key: u64) -> (MonitorView, StructuralHaltDecision) {
        if self.halted {
            (self, self.halt_decision)
        } else {
            let (s1, t) = self.observe(key);
            let s2 = MonitorView { last_transition: Some(t), ..s1 };
            let active = match self.policy {
                HaltPolicy::Auto => s2.classify().policy,
                p => p,
            };
            let d = decide(active, t, s2.verify_run, s2.step_count);
            if d is Halt {
                (MonitorView { halted: true, halt_decision: d, ..s2 }, d)
            } else {
                (s2, d)
            }
        }
    }
}

// ─────────────────────────────────────────────────────────────────────
// Monitor
// ─────────────────────────────────────────────────────────────────────

/// Structural trace halt monitor: one monitor is one trace episode.
///
/// Consumes answer-bearing reasoning steps, either as text (normalized and
/// hashed by [`normalized_answer_hash`]) through
/// [`step`](StructuralTraceMonitor::step), or as raw 64-bit identities
/// through [`step_key`](StructuralTraceMonitor::step_key). Fixed-size
/// state, no heap. The fields are public so harnesses can inspect and stage
/// states; the operations require [`MonitorView::wf`] of them.
#[derive(Clone, Debug)]
pub struct StructuralTraceMonitor {
    /// Active policy (or [`HaltPolicy::Auto`], resolved per step).
    pub policy: HaltPolicy,
    /// Current answer identity (`None` before the first step).
    pub current_key: Option<u64>,
    /// Ring slot of the current answer.
    pub current_slot: u8,
    /// Consecutive `Verify` transitions of the current answer.
    pub verify_run: u32,
    /// Total `BacktrackRevisit` events observed.
    pub revisit_count: u32,
    /// Count of steps consumed.
    pub step_count: usize,
    /// 1-based step of the last positional change (`0`: none yet).
    pub last_change_step: usize,
    /// Ring of answer identities (insertion order, circular write pointer).
    pub ring_hash: [u64; RING_CAPACITY],
    /// Step at which each ring entry was last activated (truncated to 32 bits).
    pub ring_activation_step: [u32; RING_CAPACITY],
    /// `1` when the entry was left since its activation, else `0`.
    pub ring_abandoned: [u8; RING_CAPACITY],
    /// Next ring write slot (wraparound evicts the oldest).
    pub ring_next: u8,
    /// Live ring entries.
    pub ring_len: u8,
    /// Answer histogram keys (for the pattern classifier).
    pub hist_hash: [u64; RING_CAPACITY],
    /// Answer histogram counts.
    pub hist_count: [u32; RING_CAPACITY],
    /// Live histogram entries.
    pub hist_len: u8,
    /// Has this episode halted?
    pub halted: bool,
    /// The recorded halt decision (`Continue` while not halted).
    pub halt_decision: StructuralHaltDecision,
    /// The most recent step's transition.
    pub last_transition: Option<StructuralTransition>,
}

impl View for StructuralTraceMonitor {
    type V = MonitorView;

    open spec fn view(&self) -> MonitorView {
        MonitorView {
            policy: self.policy,
            current_key: self.current_key,
            current_slot: self.current_slot,
            verify_run: self.verify_run,
            revisit_count: self.revisit_count,
            step_count: self.step_count,
            last_change_step: self.last_change_step,
            ring_hash: self.ring_hash@,
            ring_activation_step: self.ring_activation_step@,
            ring_abandoned: self.ring_abandoned@,
            ring_next: self.ring_next,
            ring_len: self.ring_len,
            hist_hash: self.hist_hash@,
            hist_count: self.hist_count@,
            hist_len: self.hist_len,
            halted: self.halted,
            halt_decision: self.halt_decision,
            last_transition: self.last_transition,
        }
    }
}

impl StructuralTraceMonitor {
    /// Construct a monitor with an explicit policy: a fresh episode.
    pub fn new(policy: HaltPolicy) -> (m: Self)
        ensures
            m@ == MonitorView::initial(policy),
            m@.wf(),
    {
        let m = Self {
            policy,
            current_key: None,
            current_slot: 0,
            verify_run: 0,
            revisit_count: 0,
            step_count: 0,
            last_change_step: 0,
            ring_hash: [0; RING_CAPACITY],
            ring_activation_step: [0; RING_CAPACITY],
            ring_abandoned: [0; RING_CAPACITY],
            ring_next: 0,
            ring_len: 0,
            hist_hash: [0; RING_CAPACITY],
            hist_count: [0; RING_CAPACITY],
            hist_len: 0,
            halted: false,
            halt_decision: StructuralHaltDecision::Continue,
            last_transition: None,
        };
        assert(m@ =~= MonitorView::initial(policy));
        m
    }

    /// Construct with [`HaltPolicy::Auto`], the pattern-conditional fusion.
    pub fn auto() -> (m: Self)
        ensures
            m@ == MonitorView::initial(HaltPolicy::Auto),
            m@.wf(),
    {
        Self::new(HaltPolicy::Auto)
    }

    /// Insert a key at the circular write pointer; when the ring is full the
    /// write evicts the oldest entry.
    fn ring_insert(&mut self, key: u64, step: usize) -> (slot: u8)
        requires
            old(self)@.wf(),
        ensures
            (final(self)@, slot) == old(self)@.ring_insert(key, step),
    {
        let slot = self.ring_next as usize;
        self.ring_hash[slot] = key;
        self.ring_activation_step[slot] = step as u32;
        self.ring_abandoned[slot] = 0;
        self.ring_next = ((slot + 1) % RING_CAPACITY) as u8;
        if (self.ring_len as usize) < RING_CAPACITY {
            self.ring_len += 1;
        }
        assert(self@ =~= old(self)@.ring_insert(key, step).0);
        slot as u8
    }

    /// Linear scan of the live ring entries for `key`.
    fn ring_find(&self, key: u64) -> (r: Option<u8>)
        requires
            self@.wf(),
        ensures
            match r {
                Some(i) => self@.ring_find(key) == Some(i as int),
                None => self@.ring_find(key) is None,
            },
    {
        let len = self.ring_len as usize;
        let mut i: usize = 0;
        while i < len
            invariant
                self@.wf(),
                len == self.ring_len,
                i <= len,
                forall|j: int| 0 <= j < i ==> self.ring_hash@[j] != key,
            decreases len - i,
        {
            if self.ring_hash[i] == key {
                proof {
                    let c = choose|c: int|
                        0 <= c < len && self.ring_hash@[c] == key && forall|j: int|
                            0 <= j < c ==> self.ring_hash@[j] != key;
                    assert(0 <= c < len && self.ring_hash@[c] == key && forall|j: int|
                        0 <= j < c ==> self.ring_hash@[j] != key);
                    assert(c == i);
                }
                return Some(i as u8);
            }
            i += 1;
        }
        None
    }

    /// Bump the answer histogram: increment an existing entry or insert;
    /// when full, evict the minimum-count slot (ties to the lowest index).
    fn bump_hist(&mut self, key: u64)
        requires
            old(self)@.wf(),
        ensures
            final(self)@ == old(self)@.bump_hist(key),
    {
        let hist_len = self.hist_len as usize;
        let mut i: usize = 0;
        while i < hist_len
            invariant
                self@ == old(self)@,
                self@.wf(),
                hist_len == self.hist_len,
                i <= hist_len,
                forall|j: int| 0 <= j < i ==> self.hist_hash@[j] != key,
            decreases hist_len - i,
        {
            if self.hist_hash[i] == key {
                proof {
                    let c = choose|c: int|
                        0 <= c < hist_len && self.hist_hash@[c] == key && forall|j: int|
                            0 <= j < c ==> self.hist_hash@[j] != key;
                    assert(0 <= c < hist_len && self.hist_hash@[c] == key && forall|j: int|
                        0 <= j < c ==> self.hist_hash@[j] != key);
                    assert(c == i);
                }
                self.hist_count[i] = self.hist_count[i].saturating_add(1);
                assert(self@ =~= old(self)@.bump_hist(key));
                return;
            }
            i += 1;
        }
        if hist_len < RING_CAPACITY {
            self.hist_hash[hist_len] = key;
            self.hist_count[hist_len] = 1;
            self.hist_len += 1;
            assert(self@ =~= old(self)@.bump_hist(key));
        } else {
            let mut min_i: usize = 0;
            let mut i: usize = 1;
            while i < RING_CAPACITY
                invariant
                    self@ == old(self)@,
                    self@.wf(),
                    1 <= i <= RING_CAPACITY,
                    min_i < i,
                    forall|j: int| 0 <= j < i ==> self.hist_count@[min_i as int] <= self.hist_count@[j],
                    forall|j: int| 0 <= j < min_i ==> self.hist_count@[j] > self.hist_count@[min_i as int],
                decreases RING_CAPACITY - i,
            {
                if self.hist_count[i] < self.hist_count[min_i] {
                    min_i = i;
                }
                i += 1;
            }
            proof {
                let counts = self.hist_count@;
                assert(is_first_min(counts, min_i as int));
                let m = first_min_index(counts);
                assert(is_first_min(counts, m));
                assert(m == min_i) by {
                    if m < min_i {
                        assert(counts[m] > counts[min_i as int]);
                    } else if m > min_i {
                        assert(counts[min_i as int] > counts[m]);
                    }
                }
            }
            self.hist_hash[min_i] = key;
            self.hist_count[min_i] = 1;
            assert(self@ =~= old(self)@.bump_hist(key));
        }
    }
}

impl StructuralTraceMonitor {
    /// Advance the state machine by one answer identity; classify the
    /// transition per the truth table.
    fn observe_key(&mut self, key: u64) -> (t: StructuralTransition)
        requires
            old(self)@.wf(),
            old(self).step_count < usize::MAX,
        ensures
            (final(self)@, t) == old(self)@.observe(key),
            final(self)@.wf(),
    {
        self.step_count += 1;
        let step = self.step_count;
        self.bump_hist(key);
        let ghost s = self@;
        match self.current_key {
            None => {
                let slot = self.ring_insert(key, step);
                self.current_key = Some(key);
                self.current_slot = slot;
                self.verify_run = 0;
                assert(self@ =~= old(self)@.observe(key).0);
                StructuralTransition::Correct
            },
            Some(current) => {
                if key == current {
                    self.verify_run = self.verify_run.saturating_add(1);
                    assert(self@ =~= old(self)@.observe(key).0);
                    StructuralTransition::Verify
                } else {
                    let old_slot = self.current_slot as usize;
                    self.ring_abandoned[old_slot] = 1;
                    self.last_change_step = step;
                    let ghost left = self@;
                    assert(left =~= MonitorView {
                        ring_abandoned: s.ring_abandoned.update(s.current_slot as int, 1u8),
                        last_change_step: step,
                        ..s
                    });
                    match self.ring_find(key) {
                        Some(slot) => {
                            let si = slot as usize;
                            if self.ring_abandoned[si] == 1 {
                                self.revisit_count = self.revisit_count.saturating_add(1);
                                self.ring_abandoned[si] = 0;
                                self.ring_activation_step[si] = step as u32;
                                self.current_key = Some(key);
                                self.current_slot = slot;
                                self.verify_run = 0;
                                assert(self@ =~= old(self)@.observe(key).0);
                                StructuralTransition::BacktrackRevisit
                            } else {
                                self.ring_activation_step[si] = step as u32;
                                self.current_key = Some(key);
                                self.current_slot = slot;
                                self.verify_run = 0;
                                assert(self@ =~= old(self)@.observe(key).0);
                                StructuralTransition::Correct
                            }
                        },
                        None => {
                            let slot = self.ring_insert(key, step);
                            self.current_key = Some(key);
                            self.current_slot = slot;
                            self.verify_run = 0;
                            assert(self@ =~= old(self)@.observe(key).0);
                            StructuralTransition::Correct
                        },
                    }
                }
            },
        }
    }
}

impl StructuralTraceMonitor {
    /// Classify the consumed prefix (the pattern-conditional fusion).
    ///
    /// Positional mass selects the pattern: when at least half the trace is
    /// the verify tail after the last change, the model has landed
    /// ([`Pattern::LateLanding`]); otherwise it is still wandering
    /// ([`Pattern::Explorer`], backtrack policy). The collision purity of
    /// the answer histogram grades the late-landing patience: purity at
    /// least 3/4 gives K = 2, below that K = 3. An empty trace classifies as
    /// late-landing with K = 2.
    pub fn classify_prefix(&self) -> (c: ClassifiedPattern)
        requires
            self@.wf(),
        ensures
            c == self@.classify(),
    {
        let hist_len = self.hist_len as usize;
        let ghost counts = self.hist_count@;
        let mut total: u64 = 0;
        let mut squares: u128 = 0;
        let mut i: usize = 0;
        while i < hist_len
            invariant
                self@.wf(),
                counts == self.hist_count@,
                hist_len == self.hist_len,
                i <= hist_len,
                total == count_sum(counts, i as int),
                squares == square_sum(counts, i as int),
                total <= i * 0xFFFF_FFFFu64,
                squares <= i * 0xFFFF_FFFE_0000_0001u128,
            decreases hist_len - i,
        {
            let c = self.hist_count[i];
            let wide = c as u128;
            assert(wide * wide <= 0xFFFF_FFFE_0000_0001u128) by (nonlinear_arith)
                requires
                    wide <= 0xFFFF_FFFFu128,
            ;
            total = total + c as u64;
            squares = squares + wide * wide;
            i = i + 1;
        }
        if total == 0 {
            return ClassifiedPattern {
                pattern: Pattern::LateLanding,
                policy: HaltPolicy::SelfLoop(SELF_LOOP_DEFAULT_K),
            };
        }
        let since_change = self.step_count - self.last_change_step;
        let late_tail = since_change >= self.step_count - since_change;
        if late_tail {
            let t = total as u128;
            assert(t * t <= 0x3F_FFFF_FFC0_0000_0001u128) by (nonlinear_arith)
                requires
                    t <= 0x7_FFFF_FFF8u128,
            ;
            let k = if (LATE_LANDING_PURITY_K2_DEN as u128) * squares >= (
            LATE_LANDING_PURITY_K2_NUM as u128) * (t * t) {
                SELF_LOOP_DEFAULT_K
            } else {
                LATE_LANDING_DEFAULT_K
            };
            ClassifiedPattern { pattern: Pattern::LateLanding, policy: HaltPolicy::SelfLoop(k) }
        } else {
            ClassifiedPattern { pattern: Pattern::Explorer, policy: HaltPolicy::BacktrackRevisit }
        }
    }

    /// Consume one raw answer identity: the token-space entry, whose keys
    /// are used verbatim (no hashing). Returns the halt decision for this
    /// step; after the first halt the episode is frozen and every further
    /// call returns the recorded decision without consuming state.
    pub fn step_key(&mut self, key: u64) -> (d: StructuralHaltDecision)
        requires
            old(self)@.wf(),
            old(self).halted || old(self).step_count < usize::MAX,
        ensures
            (final(self)@, d) == old(self)@.step(key),
            final(self)@.wf(),
    {
        if self.halted {
            return self.halt_decision;
        }
        let transition = self.observe_key(key);
        self.last_transition = Some(transition);
        let step = self.step_count;
        let active_policy = match self.policy {
            HaltPolicy::Auto => self.classify_prefix().policy,
            p => p,
        };
        let decision = match active_policy {
            HaltPolicy::SelfLoop(k) => {
                if transition == StructuralTransition::Verify && self.verify_run >= k {
                    StructuralHaltDecision::Halt { reason: StructuralHaltReason::SelfLoop, step }
                } else {
                    StructuralHaltDecision::Continue
                }
            },
            HaltPolicy::BacktrackRevisit => {
                if transition == StructuralTransition::BacktrackRevisit {
                    StructuralHaltDecision::Halt {
                        reason: StructuralHaltReason::BacktrackRevisit,
                        step,
                    }
                } else {
                    StructuralHaltDecision::Continue
                }
            },
            _ => StructuralHaltDecision::Continue,
        };
        match decision {
            StructuralHaltDecision::Halt { .. } => {
                self.halted = true;
                self.halt_decision = decision;
            },
            StructuralHaltDecision::Continue => {},
        }
        decision
    }

    /// Composition alias for [`Self::step_key`]: the monitor's halt vote.
    pub fn halt_vote_key(&mut self, key: u64) -> (d: HaltVote)
        requires
            old(self)@.wf(),
            old(self).halted || old(self).step_count < usize::MAX,
        ensures
            (final(self)@, d) == old(self)@.step(key),
            final(self)@.wf(),
    {
        self.step_key(key)
    }

    /// Consume one answer-bearing reasoning step (text entry): normalize and
    /// hash the answer, then advance exactly as [`Self::step_key`] does.
    pub fn step(&mut self, answer: &str) -> (d: StructuralHaltDecision)
        requires
            old(self)@.wf(),
            old(self).halted || old(self).step_count < usize::MAX,
        ensures
            (final(self)@, d) == old(self)@.step(answer_key(answer.spec_bytes())),
            final(self)@.wf(),
    {
        let key = normalized_answer_hash(answer);
        self.step_key(key)
    }

    /// Composition alias for [`Self::step`]: the monitor's halt vote.
    pub fn halt_vote(&mut self, answer: &str) -> (d: HaltVote)
        requires
            old(self)@.wf(),
            old(self).halted || old(self).step_count < usize::MAX,
        ensures
            (final(self)@, d) == old(self)@.step(answer_key(answer.spec_bytes())),
            final(self)@.wf(),
    {
        self.step(answer)
    }

    /// Consecutive `Verify` transitions of the current answer.
    pub fn verify_run(&self) -> (r: u32)
        ensures
            r == self.verify_run,
    {
        self.verify_run
    }

    /// Count of steps consumed (frozen at the halt step after a halt).
    pub fn step_count(&self) -> (r: usize)
        ensures
            r == self.step_count,
    {
        self.step_count
    }

    /// Total answer-space cycles (backtrack revisits) observed.
    pub fn revisit_count(&self) -> (r: u32)
        ensures
            r == self.revisit_count,
    {
        self.revisit_count
    }

    /// The most recent step's transition (`None` before the first step).
    pub fn last_transition(&self) -> (r: Option<StructuralTransition>)
        ensures
            r == self.last_transition,
    {
        self.last_transition
    }

    /// Has this episode halted?
    pub fn is_halted(&self) -> (r: bool)
        ensures
            r == self.halted,
    {
        self.halted
    }

    /// The recorded halt decision (`Continue` while not halted).
    pub fn halt_decision(&self) -> (r: StructuralHaltDecision)
        ensures
            r == self.halt_decision,
    {
        self.halt_decision
    }

    /// The policy the monitor was constructed with.
    pub fn policy(&self) -> (r: HaltPolicy)
        ensures
            r == self.policy,
    {
        self.policy
    }

    /// Start a fresh episode with the same policy.
    pub fn reset(&mut self)
        ensures
            final(self)@ == MonitorView::initial(old(self).policy),
            final(self)@.wf(),
    {
        *self = Self::new(self.policy);
    }
}

// ─────────────────────────────────────────────────────────────────────
// Vote composition
// ─────────────────────────────────────────────────────────────────────

/// The step a halt vote names (`0` for `Continue`, never consulted).
pub open spec fn halt_step(v: HaltVote) -> int {
    match v {
        StructuralHaltDecision::Halt { step, .. } => step as int,
        StructuralHaltDecision::Continue => 0,
    }
}

/// `votes[i]` is the winning halt: a halt at the earliest step, and the
/// first such vote in the slice.
pub open spec fn is_earliest_halt(votes: Seq<HaltVote>, i: int) -> bool {
    &&& 0 <= i < votes.len()
    &&& votes[i] is Halt
    &&& forall|j: int|
        0 <= j < votes.len() && (#[trigger] votes[j]) is Halt ==> halt_step(votes[j]) >= halt_step(
            votes[i],
        )
    &&& forall|j: int|
        0 <= j < i && (#[trigger] votes[j]) is Halt ==> halt_step(votes[j]) > halt_step(votes[i])
}

/// The composed vote: the earliest halt (first in the slice on a tie), or
/// `Continue` when no vote halts.
pub open spec fn composed_vote(votes: Seq<HaltVote>) -> HaltVote {
    if exists|i: int| is_earliest_halt(votes, i) {
        votes[choose|i: int| is_earliest_halt(votes, i)]
    } else {
        StructuralHaltDecision::Continue
    }
}

/// Compose halt votes from independent signal families.
///
/// Any `Halt` vote wins over unanimous `Continue`; among halts the earliest
/// step wins; a step tie resolves to the vote that appears first in the
/// slice. An empty slice gives `Continue`.
pub fn compose_votes(votes: &[HaltVote]) -> (r: HaltVote)
    ensures
        r == composed_vote(votes@),
        (r is Continue) <==> (forall|j: int| 0 <= j < votes@.len() ==> !(votes@[j] is Halt)),
{
    let mut best: Option<HaltVote> = None;
    let ghost mut best_idx: int = 0;
    let mut i: usize = 0;
    while i < votes.len()
        invariant
            i <= votes@.len(),
            match best {
                None => forall|j: int| 0 <= j < i ==> !(votes@[j] is Halt),
                Some(v) => {
                    &&& 0 <= best_idx < i
                    &&& votes@[best_idx] == v
                    &&& v is Halt
                    &&& forall|j: int|
                        0 <= j < i && (#[trigger] votes@[j]) is Halt ==> halt_step(votes@[j])
                            >= halt_step(v)
                    &&& forall|j: int|
                        0 <= j < best_idx && (#[trigger] votes@[j]) is Halt ==> halt_step(
                            votes@[j],
                        ) > halt_step(v)
                },
            },
        decreases votes@.len() - i,
    {
        let vote = votes[i];
        match vote {
            StructuralHaltDecision::Halt { reason, step } => {
                let keep = match best {
                    Some(StructuralHaltDecision::Halt { step: best_step, .. }) => step >= best_step,
                    _ => false,
                };
                if !keep {
                    best = Some(StructuralHaltDecision::Halt { reason, step });
                    proof {
                        best_idx = i as int;
                    }
                }
            },
            StructuralHaltDecision::Continue => {},
        }
        i += 1;
    }
    proof {
        match best {
            Some(v) => {
                assert(is_earliest_halt(votes@, best_idx));
                let c = choose|c: int| is_earliest_halt(votes@, c);
                assert(is_earliest_halt(votes@, c));
                assert(c == best_idx) by {
                    if c < best_idx {
                        assert(halt_step(votes@[c]) > halt_step(v));
                    } else if c > best_idx {
                        assert(halt_step(votes@[best_idx]) > halt_step(votes@[c]));
                    }
                }
            },
            None => {
                assert(!(exists|c: int| is_earliest_halt(votes@, c)));
            },
        }
    }
    match best {
        Some(v) => v,
        None => StructuralHaltDecision::Continue,
    }
}

/// Record a numeric-family decision as a structural-family vote:
/// `Continue` and `RefusedFloor` become `Continue` (a floor refusal is a
/// continue); any `Halt` becomes a [`StructuralHaltReason::NumericArbiter`]
/// halt at `step`.
pub fn vote_from_numeric(numeric: HaltDecision, step: usize) -> (v: HaltVote)
    ensures
        v == match numeric {
            HaltDecision::Halt { .. } => StructuralHaltDecision::Halt {
                reason: StructuralHaltReason::NumericArbiter,
                step,
            },
            _ => StructuralHaltDecision::Continue,
        },
{
    match numeric {
        HaltDecision::Halt { .. } => StructuralHaltDecision::Halt {
            reason: StructuralHaltReason::NumericArbiter,
            step,
        },
        HaltDecision::Continue | HaltDecision::RefusedFloor => StructuralHaltDecision::Continue,
    }
}

// ─────────────────────────────────────────────────────────────────────
// Laws of the monitor
// ─────────────────────────────────────────────────────────────────────

impl MonitorView {
    /// The invariant of every state an episode can reach from a fresh
    /// monitor: an answer is current exactly when the ring is non-empty; the
    /// write pointer follows the live length until the ring fills; the
    /// current answer sits in its live slot, not abandoned; every other live
    /// entry is abandoned; live keys are distinct.
    pub open spec fn consistent(self) -> bool {
        &&& self.wf()
        &&& (self.current_key is None) <==> self.ring_len == 0
        &&& self.ring_len < RING_CAPACITY ==> self.ring_next == self.ring_len
        &&& match self.current_key {
            Some(c) => self.current_slot < self.ring_len && self.ring_hash[self.current_slot as int]
                == c,
            None => true,
        }
        &&& forall|i: int|
            0 <= i < self.ring_len ==> (#[trigger] self.ring_abandoned[i]) == (if i
                == self.current_slot {
                0u8
            } else {
                1u8
            })
        &&& forall|i: int, j: int|
            0 <= i < j < self.ring_len ==> (#[trigger] self.ring_hash[i]) != (#[trigger] self.ring_hash[j])
    }

    /// `key` is held by a live ring entry.
    pub open spec fn in_ring(self, key: u64) -> bool {
        exists|i: int| 0 <= i < self.ring_len && self.ring_hash[i] == key
    }
}

/// What [`first_index_of`] returns: the lowest matching index below `len`,
/// or `None` exactly when no index below `len` matches.
pub proof fn lemma_first_index_of(keys: Seq<u64>, len: int, key: u64)
    ensures
        match first_index_of(keys, len, key) {
            Some(i) => 0 <= i < len && keys[i] == key && forall|j: int| 0 <= j < i ==> keys[j] != key,
            None => forall|i: int| 0 <= i < len ==> keys[i] != key,
        },
{
    if exists|i: int| 0 <= i < len && keys[i] == key {
        let w = choose|i: int| 0 <= i < len && keys[i] == key;
        lemma_least_match(keys, len, key, w);
    }
}

proof fn lemma_least_match(keys: Seq<u64>, len: int, key: u64, w: int)
    requires
        0 <= w < len,
        keys[w] == key,
    ensures
        exists|i: int|
            0 <= i < len && keys[i] == key && forall|j: int| 0 <= j < i ==> keys[j] != key,
    decreases w,
{
    if exists|j: int| 0 <= j < w && keys[j] == key {
        let j = choose|j: int| 0 <= j < w && keys[j] == key;
        lemma_least_match(keys, len, key, j);
    } else {
        assert(0 <= w < len && keys[w] == key && forall|j: int| 0 <= j < w ==> keys[j] != key);
    }
}

proof fn lemma_first_min_prefix(counts: Seq<u32>, n: int) -> (i: int)
    requires
        1 <= n <= counts.len(),
    ensures
        0 <= i < n,
        forall|j: int| 0 <= j < n ==> counts[i] <= counts[j],
        forall|j: int| 0 <= j < i ==> counts[j] > counts[i],
    decreases n,
{
    if n == 1 {
        0
    } else {
        let m = lemma_first_min_prefix(counts, n - 1);
        if counts[n - 1] < counts[m] {
            n - 1
        } else {
            m
        }
    }
}

/// A non-empty sequence of counts has a lowest-index minimum, and
/// [`first_min_index`] is it.
pub proof fn lemma_first_min_index(counts: Seq<u32>)
    requires
        counts.len() >= 1,
    ensures
        is_first_min(counts, first_min_index(counts)),
{
    let i = lemma_first_min_prefix(counts, counts.len() as int);
    assert(is_first_min(counts, i));
}

/// Counting an answer keeps the bounds and touches only the histogram.
pub proof fn lemma_bump_hist_wf(s: MonitorView, key: u64)
    requires
        s.wf(),
    ensures
        s.bump_hist(key).wf(),
        s.bump_hist(key) == (MonitorView {
            hist_hash: s.bump_hist(key).hist_hash,
            hist_count: s.bump_hist(key).hist_count,
            hist_len: s.bump_hist(key).hist_len,
            ..s
        }),
{
    lemma_first_index_of(s.hist_hash, s.hist_len as int, key);
    lemma_first_min_index(s.hist_count);
}

/// A fresh monitor is in a consistent state.
pub proof fn law_initial_state_is_consistent(policy: HaltPolicy)
    ensures
        MonitorView::initial(policy).consistent(),
{
}

/// Every step keeps the reachable-state invariant.
pub proof fn law_step_preserves_consistency(s: MonitorView, key: u64)
    requires
        s.consistent(),
        s.halted || s.step_count < usize::MAX,
    ensures
        s.step(key).0.consistent(),
{
    if !s.halted {
        lemma_observe_preserves_consistency(s, key);
    }
}

proof fn lemma_observe_preserves_consistency(s: MonitorView, key: u64)
    requires
        s.consistent(),
        s.step_count < usize::MAX,
    ensures
        s.observe(key).0.consistent(),
{
    let step = (s.step_count + 1) as usize;
    let b = MonitorView { step_count: step, ..s.bump_hist(key) };
    lemma_bump_hist_wf(s, key);
    assert(b.ring_hash == s.ring_hash && b.ring_abandoned == s.ring_abandoned);
    assert(b.wf());
    match s.current_key {
        None => {
            let (s2, slot) = b.ring_insert(key, step);
            assert(slot == 0);
            let r = s.observe(key).0;
            assert(r.ring_len == 1);
            assert(r.current_slot == 0);
            assert(r.ring_abandoned[0] == 0u8);
            assert(r.wf());
        },
        Some(cur) => {
            if key != cur {
                let left = MonitorView {
                    ring_abandoned: b.ring_abandoned.update(b.current_slot as int, 1u8),
                    last_change_step: step,
                    ..b
                };
                lemma_first_index_of(left.ring_hash, left.ring_len as int, key);
                match left.ring_find(key) {
                    Some(slot) => {
                        assert(slot != s.current_slot);
                        assert(left.ring_abandoned[slot] == 1u8);
                    },
                    None => {
                        let (s2, slot) = left.ring_insert(key, step);
                        let r = s.observe(key).0;
                        assert forall|i: int, j: int| 0 <= i < j < r.ring_len implies (
                        #[trigger] r.ring_hash[i]) != (#[trigger] r.ring_hash[j]) by {
                            if i == slot || j == slot {
                            } else {
                                assert(s.ring_hash[i] != s.ring_hash[j]);
                            }
                        }
                    },
                }
            }
        },
    }
}

/// The transition truth table, on every reachable state: the first answer
/// establishes (`Correct`); the same answer again is `Verify`; a different
/// answer still live in the ring is always a `BacktrackRevisit` (the
/// defensive re-activation arm is unreachable); any other answer is a fresh
/// `Correct`.
pub proof fn law_transition_truth_table(s: MonitorView, key: u64)
    requires
        s.consistent(),
        s.step_count < usize::MAX,
    ensures
        s.observe(key).1 == match s.current_key {
            None => StructuralTransition::Correct,
            Some(cur) => if key == cur {
                StructuralTransition::Verify
            } else if s.in_ring(key) {
                StructuralTransition::BacktrackRevisit
            } else {
                StructuralTransition::Correct
            },
        },
{
    lemma_first_index_of(s.ring_hash, s.ring_len as int, key);
    match s.current_key {
        None => {},
        Some(cur) => {
            if key != cur {
                if s.in_ring(key) {
                    let i = choose|i: int| 0 <= i < s.ring_len && s.ring_hash[i] == key;
                    assert(s.ring_hash[i] == key);
                }
                match s.ring_find(key) {
                    Some(slot) => {
                        assert(slot != s.current_slot);
                        assert(s.ring_abandoned[slot] == 1u8);
                    },
                    None => {},
                }
            }
        },
    }
}

/// Counters move only as the transition says: the step count grows by one,
/// the verify run grows on `Verify` and restarts otherwise, the revisit
/// count grows exactly on `BacktrackRevisit`.
pub proof fn law_observe_counters(s: MonitorView, key: u64)
    requires
        s.wf(),
        s.step_count < usize::MAX,
    ensures
        ({
            let (r, t) = s.observe(key);
            &&& r.step_count == s.step_count + 1
            &&& r.verify_run == if t == StructuralTransition::Verify {
                sat_inc(s.verify_run)
            } else {
                0
            }
            &&& r.revisit_count == if t == StructuralTransition::BacktrackRevisit {
                sat_inc(s.revisit_count)
            } else {
                s.revisit_count
            }
        }),
{
}

/// A halted episode is frozen: every further step replays the recorded
/// decision and changes nothing.
pub proof fn law_halted_episode_is_frozen(s: MonitorView, key: u64)
    requires
        s.halted,
    ensures
        s.step(key) == (s, s.halt_decision),
{
}

/// The first halt is recorded: a step that halts leaves the episode halted
/// with that decision, naming the step that fired it.
pub proof fn law_first_halt_is_recorded(s: MonitorView, key: u64)
    requires
        !s.halted,
        s.step_count < usize::MAX,
        s.step(key).1 is Halt,
    ensures
        s.step(key).0.halted,
        s.step(key).0.halt_decision == s.step(key).1,
        halt_step(s.step(key).1) == s.step_count + 1,
{
}

/// Under the `Never` policy no step ever halts.
pub proof fn law_never_policy_never_halts(s: MonitorView, key: u64)
    requires
        s.policy == HaltPolicy::Never,
        !s.halted,
    ensures
        s.step(key).1 == StructuralHaltDecision::Continue,
        !s.step(key).0.halted,
{
}

/// The self-loop policy fires exactly on a `Verify` step whose run reached
/// `k`, and never on any other step.
pub proof fn law_self_loop_fires_at_k(s: MonitorView, key: u64, k: u32)
    requires
        s.policy == HaltPolicy::SelfLoop(k),
        !s.halted,
    ensures
        ({
            let (r, d) = s.step(key);
            &&& (d is Halt) <==> (r.last_transition == Some(StructuralTransition::Verify)
                && r.verify_run >= k)
            &&& d is Halt ==> d == StructuralHaltDecision::Halt {
                reason: StructuralHaltReason::SelfLoop,
                step: r.step_count,
            }
        }),
{
}

/// The backtrack policy fires exactly on a `BacktrackRevisit` step.
pub proof fn law_backtrack_fires_on_revisit(s: MonitorView, key: u64)
    requires
        s.policy == HaltPolicy::BacktrackRevisit,
        !s.halted,
    ensures
        ({
            let (r, d) = s.step(key);
            &&& (d is Halt) <==> r.last_transition == Some(
                StructuralTransition::BacktrackRevisit,
            )
            &&& d is Halt ==> d == StructuralHaltDecision::Halt {
                reason: StructuralHaltReason::BacktrackRevisit,
                step: r.step_count,
            }
        }),
{
}

/// The classifier always resolves to a concrete policy (never `Auto`), and
/// the monitor itself never votes `NumericArbiter`.
pub proof fn law_classifier_and_monitor_outputs(s: MonitorView, key: u64)
    ensures
        s.classify().policy != HaltPolicy::Auto,
        !s.halted ==> !(s.step(key).1 matches StructuralHaltDecision::Halt {
            reason: StructuralHaltReason::NumericArbiter,
            ..
        }),
{
}

/// Fold a sequence of fresh insertions into the ring, first to last.
pub open spec fn insert_all(s: MonitorView, keys: Seq<u64>, step: usize) -> MonitorView
    decreases keys.len(),
{
    if keys.len() == 0 {
        s
    } else {
        insert_all(s, keys.drop_last(), step).ring_insert(keys.last(), step).0
    }
}

/// Every ring insertion writes the slot under the write pointer and then
/// advances the pointer by one slot modulo [`RING_CAPACITY`], whether or not
/// the ring is full; the live length grows by one until the ring is full;
/// every other slot keeps its answer.
pub proof fn law_ring_insert_is_circular(s: MonitorView, key: u64, step: usize)
    requires
        s.wf(),
    ensures
        ({
            let (r, slot) = s.ring_insert(key, step);
            &&& slot == s.ring_next
            &&& r.ring_next == (s.ring_next + 1) % 8
            &&& r.ring_hash[slot as int] == key
            &&& r.ring_abandoned[slot as int] == 0u8
            &&& r.ring_len == if s.ring_len < 8 {
                s.ring_len + 1
            } else {
                8
            }
            &&& forall|i: int| 0 <= i < 8 && i != slot ==> r.ring_hash[i] == s.ring_hash[i]
            &&& r.wf()
        }),
{
}

/// The ring evicts the oldest entry: an answer written into the ring is
/// still there after up to seven further fresh insertions (the ring holds
/// the last eight insertions), and the write pointer has moved on by the
/// number of insertions made.
pub proof fn law_ring_keeps_last_eight_insertions(
    s: MonitorView,
    key: u64,
    step: usize,
    later: Seq<u64>,
    later_step: usize,
)
    requires
        s.wf(),
        later.len() <= 7,
    ensures
        ({
            let (r1, slot) = s.ring_insert(key, step);
            let r = insert_all(r1, later, later_step);
            &&& r.ring_hash[slot as int] == key
            &&& r.ring_next == (s.ring_next + 1 + later.len()) % 8
            &&& r.wf()
        }),
    decreases later.len(),
{
    let (r1, slot) = s.ring_insert(key, step);
    if later.len() > 0 {
        law_ring_keeps_last_eight_insertions(s, key, step, later.drop_last(), later_step);
        let prev = insert_all(r1, later.drop_last(), later_step);
        assert(prev.ring_next == (s.ring_next + 1 + later.len() - 1) % 8);
        assert(prev.ring_next != slot);
    }
}

/// A fresh answer (not current, not live in the ring) is written into the
/// slot under the write pointer, becomes current there, and the pointer
/// advances by one slot modulo [`RING_CAPACITY`] even when the ring is full,
/// so the entry it evicts is the oldest one.
pub proof fn law_fresh_answer_takes_oldest_slot(s: MonitorView, key: u64)
    requires
        s.consistent(),
        s.step_count < usize::MAX,
        s.current_key is Some,
        s.current_key != Some(key),
        !s.in_ring(key),
    ensures
        ({
            let (r, t) = s.observe(key);
            &&& t == StructuralTransition::Correct
            &&& r.current_key == Some(key)
            &&& r.current_slot == s.ring_next
            &&& r.ring_hash[s.ring_next as int] == key
            &&& r.ring_next == (s.ring_next + 1) % 8
            &&& forall|i: int| 0 <= i < 8 && i != s.ring_next ==> r.ring_hash[i] == s.ring_hash[i]
        }),
{
    lemma_first_index_of(s.ring_hash, s.ring_len as int, key);
    lemma_bump_hist_wf(s, key);
}

} // verus!
