//! The level-string grammar: a payload is object records separated by `;`,
//! the first record being a discarded header; each record alternates key and
//! value tokens separated by `,` (pairing is positional). Key `1` carries the
//! integer type id, `2` the x position, `3` the y position; unrecognized keys
//! are ignored. Decoding is fail-fast: a malformed number in a recognized
//! key's value is a fatal decode error.
//!
//! Numbers are decimal with an optional sign and an optional fraction (no
//! exponents); fraction digits beyond the fixed-point precision are dropped,
//! and magnitudes beyond the engine's coordinate range are malformed.

use vstd::prelude::*;
use crate::fx::COORD_LIMIT;
use crate::geometry::AxisBoundingBox;
use crate::hitbox::{spec_lookup, HitboxTable};
use crate::object::{Object, CHECKPOINT_ID, DEATH_ID, TRIGGER_RANGE_END, TRIGGER_RANGE_START};

verus! {

/// Decode-time failures, by pipeline stage.
#[derive(Clone, Copy, Debug, PartialEq, Eq, Structural)]
pub enum LevelError {
    /// A packaged file lacks the payload markers.
    ContainerUnwrap,
    /// The embedded payload is not valid base64.
    Base64Invalid,
    /// The compressed stream is corrupt.
    Decompression,
    /// The delimiter grammar or a numeric field is malformed.
    GrammarParse,
}

/// ASCII digit test.
pub open spec fn is_digit(c: u8) -> bool {
    48 <= c <= 57
}

/// Every byte of `s` is an ASCII digit.
pub open spec fn all_digits(s: Seq<u8>) -> bool {
    forall|i: int| 0 <= i < s.len() ==> is_digit(#[trigger] s[i])
}

/// The value of a digit string (most significant first).
pub open spec fn spec_digits_val(s: Seq<u8>) -> nat
    decreases s.len(),
{
    if s.len() == 0 {
        0
    } else {
        spec_digits_val(s.drop_last()) * 10 + (s.last() - 48) as nat
    }
}

/// A digit string's value only grows as digits are appended.
proof fn lemma_digits_val_prefix(s: Seq<u8>, i: int)
    requires
        0 <= i <= s.len(),
    ensures
        spec_digits_val(s.take(i)) <= spec_digits_val(s),
    decreases s.len() - i,
{
    if i < s.len() {
        lemma_digits_val_prefix(s, i + 1);
        assert(s.take(i + 1).drop_last() =~= s.take(i));
        assert(spec_digits_val(s.take(i)) <= spec_digits_val(s.take(i + 1)));
    } else {
        assert(s.take(i) =~= s);
    }
}

/// Splits an optional leading sign off a token: `(negative, digits)`.
pub open spec fn spec_split_sign(s: Seq<u8>) -> (bool, Seq<u8>) {
    if s.len() > 0 && (s[0] == 45 || s[0] == 43) {
        (s[0] == 45, s.drop_first())
    } else {
        (false, s)
    }
}

/// The integer a type-id token denotes: an optional sign and a nonempty run
/// of digits, within `i32` range; anything else is malformed.
pub open spec fn spec_parse_i32(s: Seq<u8>) -> Option<i32> {
    let (neg, ds) = spec_split_sign(s);
    if ds.len() == 0 || !all_digits(ds) {
        None
    } else {
        let v = spec_digits_val(ds);
        if neg {
            if v <= 2147483648 {
                Some((-(v as int)) as i32)
            } else {
                None
            }
        } else {
            if v <= 2147483647 {
                Some(v as i32)
            } else {
                None
            }
        }
    }
}

/// Parses a type-id token.
pub fn parse_i32(s: &Vec<u8>) -> (r: Option<i32>)
    ensures
        r == spec_parse_i32(s@),
{
    let n = s.len();
    let mut start: usize = 0;
    let mut neg = false;
    if n > 0 && (s[0] == 45 || s[0] == 43) {
        neg = s[0] == 45;
        start = 1;
    }
    let ghost ds = spec_split_sign(s@).1;
    proof {
        assert(ds =~= s@.skip(start as int));
    }
    if start == n {
        return None;
    }
    let mut acc: u64 = 0;
    let mut i: usize = start;
    while i < n
        invariant
            start <= i <= n,
            n == s@.len(),
            start < n,
            ds == s@.skip(start as int),
            ds == spec_split_sign(s@).1,
            neg == spec_split_sign(s@).0,
            all_digits(ds.take(i - start)),
            acc == spec_digits_val(ds.take(i - start)),
            acc <= 2147483648,
        decreases n - i,
    {
        let c = s[i];
        if c < 48 || c > 57 {
            proof {
                assert(ds[i - start] == s@[i as int]);
                assert(!is_digit(ds[i - start]));
                assert(!all_digits(ds));
            }
            return None;
        }
        proof {
            assert(ds.take(i - start + 1).drop_last() =~= ds.take(i - start));
            assert(ds.take(i - start + 1).last() == s@[i as int]);
        }
        acc = acc * 10 + ((c - 48) as u64);
        if acc > 2147483648 {
            proof {
                lemma_digits_val_prefix(ds, i - start + 1);
            }
            return None;
        }
        i = i + 1;
    }
    proof {
        assert(ds.take(n - start) =~= ds);
    }
    if neg {
        Some((-(acc as i64)) as i32)
    } else {
        if acc > 2147483647 {
            return None;
        }
        Some(acc as i32)
    }
}

/// Ten to the `k`th power.
pub open spec fn pow10(k: nat) -> nat
    decreases k,
{
    if k == 0 {
        1
    } else {
        10 * pow10((k - 1) as nat)
    }
}

/// The fixed-point magnitude a digit run and an optional fraction denote:
/// the integer part in whole units plus the first seven fraction digits.
pub open spec fn spec_decimal_magnitude(int_part: Seq<u8>, frac_part: Seq<u8>) -> nat {
    let frac7 = if frac_part.len() <= 7 {
        frac_part
    } else {
        frac_part.take(7)
    };
    spec_digits_val(int_part) * 10_000_000 + spec_digits_val(frac7) * pow10(
        (7 - frac7.len()) as nat,
    )
}

/// The fixed-point number a position token denotes: an optional sign, then
/// digits with at most one point and at least one digit, the whole magnitude
/// within the engine's coordinate range; anything else is malformed.
pub open spec fn spec_parse_fx(s: Seq<u8>) -> Option<i64> {
    let (neg, ds) = spec_split_sign(s);
    let dot = spec_find(ds, 46);
    let int_part = ds.take(dot as int);
    let frac_part = if dot == ds.len() {
        Seq::<u8>::empty()
    } else {
        ds.skip(dot as int + 1)
    };
    if int_part.len() + frac_part.len() == 0 || !all_digits(int_part) || !all_digits(frac_part) {
        None
    } else {
        let m = spec_decimal_magnitude(int_part, frac_part);
        if m > COORD_LIMIT {
            None
        } else if neg {
            Some((-(m as int)) as i64)
        } else {
            Some(m as i64)
        }
    }
}

/// A digit string's value stays under ten to its length.
proof fn lemma_digits_val_bound(s: Seq<u8>)
    requires
        all_digits(s),
    ensures
        spec_digits_val(s) < pow10(s.len()),
    decreases s.len(),
{
    if s.len() > 0 {
        assert(all_digits(s.drop_last()));
        lemma_digits_val_bound(s.drop_last());
    }
}

/// `pow10` turns addition into multiplication.
proof fn lemma_pow10_adds(a: nat, b: nat)
    ensures
        pow10(a) * pow10(b) == pow10(a + b),
    decreases a,
{
    if a == 0 {
        assert(pow10(a) == 1);
        vstd::arithmetic::mul::lemma_mul_basics(pow10(b) as int);
    } else {
        lemma_pow10_adds((a - 1) as nat, b);
        assert(pow10(a) * pow10(b) == 10 * pow10((a - 1) as nat) * pow10(b));
        assert(10 * pow10((a - 1) as nat) * pow10(b) == 10 * (pow10((a - 1) as nat) * pow10(b)))
            by (nonlinear_arith);
    }
}

/// The small powers of ten the fraction scaling uses.
pub proof fn lemma_pow10_vals()
    ensures
        pow10(0) == 1,
        pow10(1) == 10,
        pow10(2) == 100,
        pow10(3) == 1000,
        pow10(4) == 10000,
        pow10(5) == 100000,
        pow10(6) == 1000000,
        pow10(7) == 10000000,
{
    assert(pow10(0) == 1);
    assert(pow10(1) == 10);
    assert(pow10(2) == 100);
    assert(pow10(3) == 1000);
    assert(pow10(4) == 10000);
    assert(pow10(5) == 100000);
    assert(pow10(6) == 1000000);
    assert(pow10(7) == 10000000);
}

/// Parses a position token into a fixed-point coordinate.
#[verifier::rlimit(60)]
pub fn parse_fx(s: &Vec<u8>) -> (r: Option<i64>)
    ensures
        r == spec_parse_fx(s@),
        r matches Some(v) ==> -COORD_LIMIT <= v <= COORD_LIMIT,
{
    let n = s.len();
    let mut start: usize = 0;
    let mut neg = false;
    if n > 0 && (s[0] == 45 || s[0] == 43) {
        neg = s[0] == 45;
        start = 1;
    }
    let ghost ds = spec_split_sign(s@).1;
    proof {
        assert(ds =~= s@.skip(start as int));
    }
    // Locate the decimal point.
    let mut dot: usize = start;
    while dot < n && s[dot] != 46
        invariant
            start <= dot <= n,
            n == s@.len(),
            forall|t: int| start <= t < dot ==> s@[t] != 46,
        decreases n - dot,
    {
        dot = dot + 1;
    }
    proof {
        assert forall|jj: int| 0 <= jj < dot - start implies ds[jj] != 46 by {
            assert(ds[jj] == s@[jj + start]);
        }
        if (dot as int) - (start as int) < ds.len() {
            assert(ds[dot - start] == s@[dot as int]);
        }
        lemma_find_at(ds, 46, dot as int - start as int);
    }
    let ghost int_part = ds.take(dot as int - start as int);
    let ghost frac_part = if dot == n {
        Seq::<u8>::empty()
    } else {
        ds.skip(dot as int - start as int + 1)
    };
    if start == dot && (dot == n || dot + 1 == n) {
        // No digits at all.
        return None;
    }
    // Integer part.
    let mut acc: u64 = 0;
    let mut i: usize = start;
    while i < dot
        invariant
            start <= i <= dot <= n,
            n == s@.len(),
            ds == s@.skip(start as int),
            ds == spec_split_sign(s@).1,
            neg == spec_split_sign(s@).0,
            spec_find(ds, 46) == dot as int - start as int,
            int_part == ds.take(dot as int - start as int),
            frac_part == (if dot == n { Seq::<u8>::empty() } else { ds.skip(dot as int - start as int + 1) }),
            int_part.len() + frac_part.len() > 0,
            all_digits(int_part.take(i - start)),
            acc == spec_digits_val(int_part.take(i - start)),
            acc <= 100_000_000,
        decreases dot - i,
    {
        let c = s[i];
        if c < 48 || c > 57 {
            proof {
                assert(int_part[i - start] == s@[i as int]);
                assert(!all_digits(int_part));
            }
            return None;
        }
        proof {
            assert(int_part.take(i - start + 1).drop_last() =~= int_part.take(i - start));
            assert(int_part.take(i - start + 1).last() == s@[i as int]);
        }
        acc = acc * 10 + ((c - 48) as u64);
        if acc > 100_000_000 {
            proof {
                lemma_digits_val_prefix(int_part, i - start + 1);
                assert(spec_digits_val(int_part) * 10_000_000 >= acc * 10_000_000)
                    by (nonlinear_arith)
                    requires
                        spec_digits_val(int_part) >= acc,
                ;
            }
            return None;
        }
        i = i + 1;
    }
    proof {
        assert(int_part.take(dot as int - start as int) =~= int_part);
    }
    // Fraction part: the first seven digits weigh in; the rest only need to
    // be digits.
    let mut frac: u64 = 0;
    let mut cnt: usize = 0;
    if dot < n {
        let mut k: usize = dot + 1;
        while k < n
            invariant
                dot < n,
                dot + 1 <= k <= n,
                n == s@.len(),
                ds == s@.skip(start as int),
                ds == spec_split_sign(s@).1,
                neg == spec_split_sign(s@).0,
                spec_find(ds, 46) == dot as int - start as int,
                start <= dot,
                frac_part == ds.skip(dot as int - start as int + 1),
                cnt == if k - dot - 1 <= 7 {
                    k - dot - 1
                } else {
                    7
                },
                all_digits(frac_part.take(k - dot - 1)),
                frac == spec_digits_val(frac_part.take(cnt as int)),
                frac <= 9_999_999,
            decreases n - k,
        {
            let c = s[k];
            if c < 48 || c > 57 {
                proof {
                    assert(frac_part[k - dot - 1] == s@[k as int]);
                    assert(!all_digits(frac_part));
                }
                return None;
            }
            proof {
                assert(frac_part.take(k - dot) =~= frac_part.take(k - dot - 1).push(
                    s@[k as int],
                ));
                assert(frac_part.take(k - dot).drop_last() =~= frac_part.take(k - dot - 1));
                if cnt < 7 {
                    assert(frac_part.take(cnt + 1).drop_last() =~= frac_part.take(cnt as int));
                    assert(frac_part.take(cnt + 1).last() == s@[k as int]);
                }
            }
            if cnt < 7 {
                frac = frac * 10 + ((c - 48) as u64);
                cnt = cnt + 1;
                proof {
                    assert(all_digits(frac_part.take(cnt as int)));
                    lemma_digits_val_bound(frac_part.take(cnt as int));
                    lemma_pow10_vals();
                }
            }
            k = k + 1;
        }
        proof {
            assert(frac_part.take(n - dot - 1) =~= frac_part);
        }
    }
    // Scale the fraction to fixed-point weight.
    let scale: u64 = if cnt == 0 {
        10_000_000
    } else if cnt == 1 {
        1_000_000
    } else if cnt == 2 {
        100_000
    } else if cnt == 3 {
        10_000
    } else if cnt == 4 {
        1_000
    } else if cnt == 5 {
        100
    } else if cnt == 6 {
        10
    } else {
        1
    };
    proof {
        lemma_pow10_vals();
        let frac7 = if frac_part.len() <= 7 {
            frac_part
        } else {
            frac_part.take(7)
        };
        assert(frac7 =~= frac_part.take(cnt as int));
        lemma_digits_val_bound(frac7);
        assert(spec_digits_val(frac7) * pow10((7 - frac7.len()) as nat) < pow10(
            frac7.len(),
        ) * pow10((7 - frac7.len()) as nat)) by (nonlinear_arith)
            requires
                spec_digits_val(frac7) < pow10(frac7.len()),
                pow10((7 - frac7.len()) as nat) >= 1,
        ;
        lemma_pow10_adds(frac7.len(), (7 - frac7.len()) as nat);
    }
    let m: u64 = acc * 10_000_000 + frac * scale;
    if m > 1_000_000_000_000_000 {
        return None;
    }
    if neg {
        Some(-(m as i64))
    } else {
        Some(m as i64)
    }
}

/// Index of the first occurrence of `d` in `s` (the length when absent).
pub open spec fn spec_find(s: Seq<u8>, d: u8) -> nat
    decreases s.len(),
{
    if s.len() == 0 {
        0
    } else if s[0] == d {
        0
    } else {
        1 + spec_find(s.drop_first(), d)
    }
}

/// What `spec_find` returns: the first index carrying `d`, or the length.
pub proof fn lemma_find_props(s: Seq<u8>, d: u8)
    ensures
        spec_find(s, d) <= s.len(),
        spec_find(s, d) < s.len() ==> s[spec_find(s, d) as int] == d,
        forall|j: int| 0 <= j < spec_find(s, d) ==> s[j] != d,
    decreases s.len(),
{
    if s.len() > 0 && s[0] != d {
        let rest = s.drop_first();
        lemma_find_props(rest, d);
        if spec_find(s, d) < s.len() {
            assert(s[spec_find(s, d) as int] == rest[spec_find(rest, d) as int]);
        }
        assert forall|j: int| 0 <= j < spec_find(s, d) implies s[j] != d by {
            if j > 0 {
                assert(rest[j - 1] == s[j]);
                assert(rest[j - 1] != d);
            }
        }
    }
}

/// A prefix free of `d` followed by `d` at `k` pins `spec_find` to `k`.
pub proof fn lemma_find_at(s: Seq<u8>, d: u8, k: int)
    requires
        0 <= k <= s.len(),
        forall|j: int| 0 <= j < k ==> s[j] != d,
        k < s.len() ==> s[k] == d,
    ensures
        spec_find(s, d) == if k < s.len() {
            k as nat
        } else {
            s.len()
        },
    decreases k,
{
    if s.len() > 0 {
        if k == 0 {
        } else {
            assert(s[0] != d);
            let rest = s.drop_first();
            assert(forall|j: int| 0 <= j < k - 1 ==> rest[j] == s[j + 1] && s[j + 1] != d);
            assert(k - 1 < rest.len() ==> rest[k - 1] == s[k as int]);
            lemma_find_at(rest, d, k - 1);
        }
    }
}

/// The parts of `s` between occurrences of the delimiter `d`, in order,
/// empty parts included: one part when `d` is absent, else the prefix before
/// the first `d` followed by the split of what follows it.
pub open spec fn spec_split(s: Seq<u8>, d: u8) -> Seq<Seq<u8>>
    decreases s.len(),
{
    let j = spec_find(s, d);
    if j >= s.len() {
        seq![s]
    } else {
        seq![s.take(j as int)] + spec_split(s.skip(j as int + 1), d)
    }
}

/// A delimiter-free string splits into itself alone.
pub proof fn lemma_split_whole(s: Seq<u8>, d: u8)
    requires
        forall|j: int| 0 <= j < s.len() ==> s[j] != d,
    ensures
        spec_split(s, d) == seq![s],
{
    lemma_find_at(s, d, s.len() as int);
}

/// Splitting off a delimiter at `k` (the first one) peels one part.
pub proof fn lemma_split_step(s: Seq<u8>, d: u8, k: int)
    requires
        0 <= k < s.len(),
        s[k] == d,
        forall|j: int| 0 <= j < k ==> s[j] != d,
    ensures
        spec_split(s, d) == seq![s.take(k)] + spec_split(s.skip(k + 1), d),
{
    lemma_find_at(s, d, k);
}

/// Splits `s` at every occurrence of `d`.
pub fn split_bytes(s: &Vec<u8>, d: u8) -> (r: Vec<Vec<u8>>)
    ensures
        r.deep_view() == spec_split(s@, d),
        r@.len() >= 1,
{
    let n = s.len();
    let mut parts: Vec<Vec<u8>> = Vec::new();
    let mut cur: Vec<u8> = Vec::new();
    let mut i: usize = 0;
    proof {
        assert(s@.skip(0) =~= s@);
        assert(parts.deep_view() =~= Seq::<Seq<u8>>::empty());
    }
    let ghost mut start: int = 0;
    while i < n
        invariant
            0 <= start <= i <= n,
            n == s@.len(),
            cur@ == s@.subrange(start, i as int),
            forall|j: int| start <= j < i ==> s@[j] != d,
            spec_split(s@, d) == parts.deep_view() + spec_split(s@.skip(start), d),
        decreases n - i,
    {
        let c = s[i];
        if c == d {
            proof {
                let tail = s@.skip(start);
                assert forall|j: int| 0 <= j < i - start implies tail[j] != d by {
                    assert(tail[j] == s@[j + start]);
                }
                assert(tail[i - start] == s@[i as int]);
                lemma_split_step(tail, d, i - start);
                assert(tail.take(i - start) =~= s@.subrange(start, i as int));
                assert(tail.skip(i - start + 1) =~= s@.skip(i + 1));
            }
            let ghost done = parts.deep_view();
            let finished = cur;
            cur = Vec::new();
            parts.push(finished);
            proof {
                assert(parts.deep_view() =~~= done.push(finished@));
                assert(done + (seq![finished@] + spec_split(s@.skip(i + 1), d)) =~~= done.push(
                    finished@,
                ) + spec_split(s@.skip(i + 1), d));
                start = i + 1;
                assert(cur@ =~= s@.subrange(start, i + 1));
            }
        } else {
            cur.push(c);
            proof {
                assert(cur@ =~= s@.subrange(start, i + 1));
            }
        }
        i = i + 1;
    }
    proof {
        let tail = s@.skip(start);
        assert forall|j: int| 0 <= j < tail.len() implies tail[j] != d by {
            assert(tail[j] == s@[j + start]);
        }
        lemma_split_whole(tail, d);
        assert(tail =~= s@.subrange(start, n as int));
    }
    let ghost done = parts.deep_view();
    let last = cur;
    parts.push(last);
    proof {
        assert(parts.deep_view() =~~= done.push(last@));
        assert(done + seq![last@] =~~= done.push(last@));
    }
    parts
}

/// The level-start checkpoint every decode seeds: two cells left of the
/// origin, half a cell up.
pub open spec fn spec_default_checkpoint() -> (i64, i64) {
    ((-600_000_000) as i64, 150_000_000 as i64)
}

/// One key/value pair applied to the object being accumulated. Key `1` sets
/// the id (id 8 marks death; a hitbox-table match sets the local box and
/// tags the record as collidable), `2` and `3` set the position; other keys
/// are ignored. A malformed number under a recognized key is fatal.
pub open spec fn spec_apply_pair(
    o: Object,
    has: bool,
    key: Seq<u8>,
    val: Seq<u8>,
    table: Seq<(i32, AxisBoundingBox)>,
) -> Option<(Object, bool)> {
    if key == seq![49u8] {
        match spec_parse_i32(val) {
            Option::None => None,
            Option::Some(id) => {
                let death = o.death || id == DEATH_ID;
                match spec_lookup(table, id) {
                    Option::Some(bb) => Some(
                        (Object { id, death, bounding_box: bb, ..o }, true),
                    ),
                    Option::None => Some((Object { id, death, ..o }, has)),
                }
            },
        }
    } else if key == seq![50u8] {
        match spec_parse_fx(val) {
            Option::None => None,
            Option::Some(x) => Some((Object { x, ..o }, has)),
        }
    } else if key == seq![51u8] {
        match spec_parse_fx(val) {
            Option::None => None,
            Option::Some(y) => Some((Object { y, ..o }, has)),
        }
    } else {
        Some((o, has))
    }
}

/// The pairs of a token list folded over the accumulated object: tokens at
/// even positions are keys, the following token the value; a trailing
/// unpaired token is ignored.
pub open spec fn spec_record_pairs(
    o: Object,
    has: bool,
    toks: Seq<Seq<u8>>,
    table: Seq<(i32, AxisBoundingBox)>,
) -> Option<(Object, bool)>
    decreases toks.len(),
{
    if toks.len() < 2 {
        Some((o, has))
    } else {
        match spec_apply_pair(o, has, toks[0], toks[1], table) {
            Option::None => None,
            Option::Some((o2, h2)) => spec_record_pairs(o2, h2, toks.skip(2), table),
        }
    }
}

/// One record decoded: its comma-separated tokens paired and folded over a
/// default object.
pub open spec fn spec_record(rec: Seq<u8>, table: Seq<(i32, AxisBoundingBox)>) -> Option<
    (Object, bool),
> {
    spec_record_pairs(Object::spec_new(), false, spec_split(rec, 44), table)
}

/// The retention rule, applied per record in this order: a checkpoint-marker
/// id contributes its position; an id in the reserved trigger range is then
/// dropped entirely; what remains is kept only if some id of the record
/// matched the hitbox table.
pub open spec fn spec_retain(
    objs: Seq<Object>,
    cps: Seq<(i64, i64)>,
    o: Object,
    has: bool,
) -> (Seq<Object>, Seq<(i64, i64)>) {
    let cps2 = if o.id == CHECKPOINT_ID {
        cps.push((o.x, o.y))
    } else {
        cps
    };
    let objs2 = if TRIGGER_RANGE_START <= o.id < TRIGGER_RANGE_END {
        objs
    } else if has {
        objs.push(o)
    } else {
        objs
    };
    (objs2, cps2)
}

/// The records folded through decode and retention; the first malformed
/// record is fatal.
pub open spec fn spec_decode_records(
    recs: Seq<Seq<u8>>,
    table: Seq<(i32, AxisBoundingBox)>,
    objs: Seq<Object>,
    cps: Seq<(i64, i64)>,
) -> Option<(Seq<Object>, Seq<(i64, i64)>)>
    decreases recs.len(),
{
    if recs.len() == 0 {
        Some((objs, cps))
    } else {
        match spec_record(recs[0], table) {
            Option::None => None,
            Option::Some((o, h)) => {
                let st = spec_retain(objs, cps, o, h);
                spec_decode_records(recs.drop_first(), table, st.0, st.1)
            },
        }
    }
}

/// The whole decode: the semicolon-separated records after the discarded
/// header, folded from a seeded checkpoint list and an empty object list.
pub open spec fn spec_load_level(s: Seq<u8>, table: Seq<(i32, AxisBoundingBox)>) -> Option<
    (Seq<Object>, Seq<(i64, i64)>),
> {
    spec_decode_records(
        spec_split(s, 59).drop_first(),
        table,
        Seq::<Object>::empty(),
        seq![spec_default_checkpoint()],
    )
}

/// Decodes one record's tokens into an object and its collidable tag.
fn parse_record(rec: &Vec<u8>, hitboxes: &HitboxTable) -> (r: Option<(Object, bool)>)
    requires
        hitboxes.wf(),
    ensures
        r == spec_record(rec@, hitboxes@),
        r matches Some((o, h)) ==> o.wf(),
{
    let tokens = split_bytes(rec, 44);
    let ghost toks = tokens.deep_view();
    let mut obj = Object::new();
    let mut has = false;
    let n = tokens.len();
    let mut i: usize = 0;
    proof {
        assert(toks.skip(0) =~~= toks);
    }
    while n > 0 && i < n - 1
        invariant
            i <= n,
            n == toks.len(),
            toks == tokens.deep_view(),
            hitboxes.wf(),
            obj.wf(),
            spec_record(rec@, hitboxes@) == spec_record_pairs(obj, has, toks.skip(i as int),
            hitboxes@),
        decreases n - i,
    {
        let ghost prev_obj = obj;
        let ghost prev_has = has;
        let ghost tail = toks.skip(i as int);
        proof {
            assert(tail[0] == toks[i as int]);
            assert(tail[1] == toks[i as int + 1]);
            assert(toks[i as int] == tokens@[i as int]@);
            assert(toks[i as int + 1] == tokens@[i as int + 1]@);
            assert(tail.skip(2) =~~= toks.skip(i as int + 2));
        }
        let key = &tokens[i];
        let val = &tokens[i + 1];
        if key.len() == 1 && key[0] == 49 {
            proof {
                assert(key@ =~= seq![49u8]);
            }
            match parse_i32(val) {
                Option::None => {
                    return None;
                },
                Option::Some(id) => {
                    obj.id = id;
                    if id == DEATH_ID {
                        obj.death = true;
                    }
                    match hitboxes.get(id) {
                        Option::Some(bb) => {
                            proof {
                                crate::hitbox::lemma_lookup_wf(hitboxes@, id);
                            }
                            obj.bounding_box = bb;
                            has = true;
                        },
                        Option::None => {},
                    }
                },
            }
        } else if key.len() == 1 && key[0] == 50 {
            proof {
                assert(key@ =~= seq![50u8]);
                assert(key@ != seq![49u8]);
            }
            match parse_fx(val) {
                Option::None => {
                    return None;
                },
                Option::Some(x) => {
                    obj.x = x;
                },
            }
        } else if key.len() == 1 && key[0] == 51 {
            proof {
                assert(key@ =~= seq![51u8]);
                assert(key@ != seq![49u8]);
                assert(key@ != seq![50u8]);
            }
            match parse_fx(val) {
                Option::None => {
                    return None;
                },
                Option::Some(y) => {
                    obj.y = y;
                },
            }
        } else {
            proof {
                assert(seq![49u8].len() == 1);
                assert(seq![50u8].len() == 1);
                assert(seq![51u8].len() == 1);
                if key@.len() == 1 {
                    assert(key@[0] != 49 && key@[0] != 50 && key@[0] != 51);
                }
                assert(key@ != seq![49u8] && key@ != seq![50u8] && key@ != seq![51u8]);
            }
        }
        proof {
            assert(spec_apply_pair(prev_obj, prev_has, tail[0], tail[1], hitboxes@) == Some(
                (obj, has),
            ));
        }
        i = i + 2;
    }
    proof {
        assert(toks.skip(i as int).len() < 2);
    }
    Some((obj, has))
}

/// Decodes a level payload against the hitbox table: the ordered collidable
/// objects and the checkpoint start positions (seeded with the level start,
/// so never empty). The first malformed record aborts the decode.
pub fn load_gd_level_string(s: &Vec<u8>, hitboxes: &HitboxTable) -> (r: Result<
    (Vec<Object>, Vec<(i64, i64)>),
    LevelError,
>)
    requires
        hitboxes.wf(),
    ensures
        r matches Ok((o, c)) ==> {
            &&& spec_load_level(s@, hitboxes@) == Some((o@, c@))
            &&& forall|i: int| 0 <= i < o@.len() ==> (#[trigger] o@[i]).wf()
            &&& c@.len() >= 1
            &&& forall|i: int|
                0 <= i < c@.len() ==> crate::level::checkpoint_wf(#[trigger] c@[i])
        },
        r matches Err(e) ==> e == LevelError::GrammarParse && spec_load_level(s@, hitboxes@)
            is None,
{
    let records = split_bytes(s, 59);
    let ghost recs = records.deep_view();
    let mut objects: Vec<Object> = Vec::new();
    let mut checkpoints: Vec<(i64, i64)> = Vec::new();
    checkpoints.push((-600_000_000, 150_000_000));
    let n = records.len();
    let mut i: usize = 1;
    proof {
        assert(checkpoints@ =~= seq![spec_default_checkpoint()]);
        assert(recs.drop_first() =~~= recs.skip(1));
        assert(objects@ =~= Seq::<Object>::empty());
    }
    while i < n
        invariant
            1 <= i <= n || (n == 0 && i == 1),
            n == recs.len(),
            recs == records.deep_view(),
            hitboxes.wf(),
            forall|j: int| 0 <= j < objects@.len() ==> (#[trigger] objects@[j]).wf(),
            checkpoints@.len() >= 1,
            forall|j: int|
                0 <= j < checkpoints@.len() ==> crate::level::checkpoint_wf(
                    #[trigger] checkpoints@[j],
                ),
            spec_load_level(s@, hitboxes@) == spec_decode_records(
                recs.skip(i as int),
                hitboxes@,
                objects@,
                checkpoints@,
            ),
        decreases n - i,
    {
        let ghost tail = recs.skip(i as int);
        proof {
            assert(tail[0] == recs[i as int]);
            assert(recs[i as int] == records@[i as int]@);
            assert(tail.drop_first() =~~= recs.skip(i as int + 1));
        }
        match parse_record(&records[i], hitboxes) {
            Option::None => {
                return Err(LevelError::GrammarParse);
            },
            Option::Some((o, h)) => {
                if o.id == CHECKPOINT_ID {
                    checkpoints.push((o.x, o.y));
                }
                if !(o.id >= TRIGGER_RANGE_START && o.id < TRIGGER_RANGE_END) && h {
                    objects.push(o);
                }
            },
        }
        i = i + 1;
    }
    proof {
        if n >= 1 {
            assert(recs.skip(n as int) =~~= Seq::<Seq<u8>>::empty());
        }
    }
    Ok((objects, checkpoints))
}

/// Law: a header-only payload (one record, no body) decodes to an empty
/// object list and exactly the seeded level-start checkpoint.
pub proof fn lemma_decode_header_only(s: Seq<u8>, table: Seq<(i32, AxisBoundingBox)>)
    requires
        forall|j: int| 0 <= j < s.len() ==> s[j] != 59,
    ensures
        spec_load_level(s, table) == Some(
            (Seq::<Object>::empty(), seq![spec_default_checkpoint()]),
        ),
{
    lemma_split_whole(s, 59);
    assert(spec_split(s, 59).drop_first() =~~= Seq::<Seq<u8>>::empty());
}

/// Law: a record whose final type id is the checkpoint marker contributes
/// its position to the checkpoint list and never an object, mapped or not.
pub proof fn lemma_retain_checkpoint(
    objs: Seq<Object>,
    cps: Seq<(i64, i64)>,
    o: Object,
    has: bool,
)
    requires
        o.id == CHECKPOINT_ID,
    ensures
        spec_retain(objs, cps, o, has).0 == objs,
        spec_retain(objs, cps, o, has).1 == cps.push((o.x, o.y)),
{
}

/// Law: a record whose final type id lies in the reserved trigger range,
/// other than the checkpoint marker, contributes neither a checkpoint nor an
/// object, regardless of hitbox presence.
pub proof fn lemma_retain_trigger_range(
    objs: Seq<Object>,
    cps: Seq<(i64, i64)>,
    o: Object,
    has: bool,
)
    requires
        TRIGGER_RANGE_START <= o.id < TRIGGER_RANGE_END,
        o.id != CHECKPOINT_ID,
    ensures
        spec_retain(objs, cps, o, has) == (objs, cps),
{
}

} // verus!
