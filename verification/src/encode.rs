//! Re-encoding of a decoded object list back into level text: each object
//! becomes a record carrying its type id and position, behind an empty
//! header. Decoding what was encoded — against the same hitbox table — gives
//! the object list back exactly.

use vstd::prelude::*;
use crate::decode::{
    all_digits, lemma_find_at, lemma_split_whole, pow10, spec_apply_pair, spec_decode_records,
    spec_default_checkpoint, spec_digits_val, spec_find, spec_load_level, spec_parse_fx,
    spec_parse_i32, spec_record, spec_record_pairs, spec_split, spec_split_sign,
};
use crate::fx::{COORD_LIMIT, FX_SCALE};
use crate::geometry::AxisBoundingBox;
use crate::hitbox::spec_lookup;
use crate::object::Object;

verus! {

/// The decimal digits of `v`, most significant first.
pub open spec fn spec_render_digits(v: nat) -> Seq<u8>
    decreases v,
{
    if v < 10 {
        seq![(48 + v) as u8]
    } else {
        spec_render_digits(v / 10).push((48 + v % 10) as u8)
    }
}

/// Rendered digits are digits, at least one, and parse back to the value.
proof fn lemma_render_digits_props(v: nat)
    ensures
        all_digits(spec_render_digits(v)),
        spec_render_digits(v).len() >= 1,
        spec_digits_val(spec_render_digits(v)) == v,
    decreases v,
{
    if v < 10 {
        let s = spec_render_digits(v);
        assert(spec_digits_val(Seq::<u8>::empty()) == 0);
        assert(s.drop_last() =~= Seq::<u8>::empty());
        assert(s.last() == (48 + v) as u8);
        assert(forall|i: int| 0 <= i < s.len() ==> 48 <= #[trigger] s[i] <= 57);
    } else {
        lemma_render_digits_props(v / 10);
        let pre = spec_render_digits(v / 10);
        let s = pre.push((48 + v % 10) as u8);
        assert(s.drop_last() =~= pre);
        vstd::arithmetic::div_mod::lemma_fundamental_div_mod(v as int, 10);
        assert(forall|i: int| 0 <= i < pre.len() ==> s[i] == #[trigger] pre[i]);
    }
}

/// Exactly `k` digits, zero padded, for `v < 10^k`.
pub open spec fn spec_render_padded(v: nat, k: nat) -> Seq<u8>
    decreases k,
{
    if k == 0 {
        Seq::<u8>::empty()
    } else {
        spec_render_padded(v / 10, (k - 1) as nat).push((48 + v % 10) as u8)
    }
}

/// Padded digits are digits, `k` of them, parsing back to the value.
proof fn lemma_render_padded_props(v: nat, k: nat)
    requires
        v < pow10(k),
    ensures
        all_digits(spec_render_padded(v, k)),
        spec_render_padded(v, k).len() == k,
        spec_digits_val(spec_render_padded(v, k)) == v,
    decreases k,
{
    if k == 0 {
    } else {
        assert(pow10(k) == 10 * pow10((k - 1) as nat));
        vstd::arithmetic::div_mod::lemma_fundamental_div_mod(v as int, 10);
        assert(v / 10 < pow10((k - 1) as nat)) by {
            if v / 10 >= pow10((k - 1) as nat) {
                assert(v >= 10 * (v / 10));
            }
        }
        lemma_render_padded_props(v / 10, (k - 1) as nat);
        let pre = spec_render_padded(v / 10, (k - 1) as nat);
        let s = pre.push((48 + v % 10) as u8);
        assert(s.drop_last() =~= pre);
        assert(forall|i: int| 0 <= i < pre.len() ==> s[i] == #[trigger] pre[i]);
    }
}

/// A type id as text: an optional minus sign and digits.
pub open spec fn spec_render_i32(id: i32) -> Seq<u8> {
    if id < 0 {
        seq![45u8] + spec_render_digits((-(id as int)) as nat)
    } else {
        spec_render_digits(id as nat)
    }
}

/// A fixed-point coordinate as text: an optional minus sign, whole units,
/// and — when the fractional part is not zero — a point and exactly seven
/// fraction digits.
pub open spec fn spec_render_fx(v: i64) -> Seq<u8> {
    let m = (if v >= 0 {
        v as int
    } else {
        -(v as int)
    }) as nat;
    let units = m / (FX_SCALE as nat);
    let frac = m % (FX_SCALE as nat);
    let body = if frac == 0 {
        spec_render_digits(units)
    } else {
        spec_render_digits(units) + seq![46u8] + spec_render_padded(frac, 7)
    };
    if v < 0 {
        seq![45u8] + body
    } else {
        body
    }
}

/// Rendered numbers never contain a delimiter (comma or semicolon).
proof fn lemma_render_fx_bytes(v: i64)
    ensures
        forall|j: int|
            0 <= j < spec_render_fx(v).len() ==> (#[trigger] spec_render_fx(v)[j]) != 44
                && spec_render_fx(v)[j] != 59,
{
    let m = (if v >= 0 {
        v as int
    } else {
        -(v as int)
    }) as nat;
    let units = m / (FX_SCALE as nat);
    let frac = m % (FX_SCALE as nat);
    vstd::arithmetic::div_mod::lemma_mod_bound(m as int, FX_SCALE as int);
    lemma_render_digits_props(units);
    crate::decode::lemma_pow10_vals();
    lemma_render_padded_props(frac, 7);
}

/// A rendered type id never contains a delimiter.
proof fn lemma_render_i32_bytes(id: i32)
    ensures
        forall|j: int|
            0 <= j < spec_render_i32(id).len() ==> (#[trigger] spec_render_i32(id)[j]) != 44
                && spec_render_i32(id)[j] != 59,
{
    if id < 0 {
        lemma_render_digits_props((-(id as int)) as nat);
    } else {
        lemma_render_digits_props(id as nat);
    }
}

/// A rendered type id parses back to itself.
proof fn lemma_render_i32_parses(id: i32)
    ensures
        spec_parse_i32(spec_render_i32(id)) == Some(id),
{
    let s = spec_render_i32(id);
    if id < 0 {
        let ds = spec_render_digits((-(id as int)) as nat);
        lemma_render_digits_props((-(id as int)) as nat);
        assert(s[0] == 45);
        assert(s.drop_first() =~= ds);
        assert(spec_split_sign(s) == (true, ds));
    } else {
        lemma_render_digits_props(id as nat);
        assert(is_digit_seq_head(s));
        assert(spec_split_sign(s) == (false, s));
    }
}

/// The head of a nonempty digit string is a digit (so no sign is split off).
pub open spec fn is_digit_seq_head(s: Seq<u8>) -> bool {
    s.len() >= 1 && 48 <= s[0] <= 57
}

/// A rendered coordinate parses back to itself, within the coordinate range.
proof fn lemma_render_fx_parses(v: i64)
    requires
        -COORD_LIMIT <= v <= COORD_LIMIT,
    ensures
        spec_parse_fx(spec_render_fx(v)) == Some(v),
{
    let s = spec_render_fx(v);
    let m = (if v >= 0 {
        v as int
    } else {
        -(v as int)
    }) as nat;
    let units = m / (FX_SCALE as nat);
    let frac = m % (FX_SCALE as nat);
    vstd::arithmetic::div_mod::lemma_fundamental_div_mod(m as int, FX_SCALE as int);
    vstd::arithmetic::div_mod::lemma_mod_bound(m as int, FX_SCALE as int);
    lemma_render_digits_props(units);
    crate::decode::lemma_pow10_vals();
    lemma_render_padded_props(frac, 7);
    let du = spec_render_digits(units);
    let body = if frac == 0 {
        du
    } else {
        du + seq![46u8] + spec_render_padded(frac, 7)
    };
    // The sign split leaves exactly `body`.
    if v < 0 {
        assert(s[0] == 45);
        assert(s.drop_first() =~= body);
        assert(spec_split_sign(s) == (true, body));
    } else {
        assert(body[0] == du[0]);
        assert(spec_split_sign(s) == (false, body));
    }
    assert(spec_split_sign(s).1 == body);
    // Pin the decimal point position.
    if frac == 0 {
        assert forall|j: int| 0 <= j < body.len() implies body[j] != 46 by {
            assert(crate::decode::is_digit(body[j]));
        }
        lemma_find_at(body, 46, body.len() as int);
        assert(spec_find(body, 46) == body.len());
        assert(body.take(body.len() as int) =~= body);
        assert(spec_digits_val(Seq::<u8>::empty()) == 0);
        let m2 = crate::decode::spec_decimal_magnitude(body, Seq::<u8>::empty());
        assert((if frac == 0 { Seq::<u8>::empty() } else { spec_render_padded(frac, 7) }).len()
            == 0);
        assert(m2 == units * 10_000_000 + spec_digits_val(Seq::<u8>::empty()) * pow10(7));
        assert(spec_digits_val(Seq::<u8>::empty()) * pow10(7) == 0);
        assert(m2 == m);
        assert(m <= COORD_LIMIT);
    } else {
        let pf = spec_render_padded(frac, 7);
        assert forall|j: int| 0 <= j < du.len() implies body[j] != 46 by {
            assert(body[j] == du[j]);
            assert(crate::decode::is_digit(du[j]));
        }
        assert(body[du.len() as int] == 46);
        lemma_find_at(body, 46, du.len() as int);
        assert(spec_find(body, 46) == du.len());
        assert(body.take(du.len() as int) =~= du);
        assert(body.skip(du.len() as int + 1) =~= pf);
        let m2 = crate::decode::spec_decimal_magnitude(du, pf);
        assert(pf.len() == 7);
        assert(m2 == units * 10_000_000 + frac * pow10(0));
        assert(frac * pow10(0) == frac) by {
            assert(pow10(0) == 1);
        };
        assert(m2 == m);
        assert(m <= COORD_LIMIT);
    }
}

/// An object as a record: its type id under key `1`, its position under
/// keys `2` and `3`.
pub open spec fn spec_render_record(o: Object) -> Seq<u8> {
    seq![49u8, 44u8] + spec_render_i32(o.id) + seq![44u8, 50u8, 44u8] + spec_render_fx(o.x)
        + seq![44u8, 51u8, 44u8] + spec_render_fx(o.y)
}

/// A whole level re-encoded: an empty header, then one record per object,
/// each behind a record delimiter.
pub open spec fn spec_encode(objs: Seq<Object>) -> Seq<u8>
    decreases objs.len(),
{
    if objs.len() == 0 {
        Seq::<u8>::empty()
    } else {
        spec_encode(objs.drop_last()) + seq![59u8] + spec_render_record(objs.last())
    }
}

/// An object the decoder could have produced against this table: position in
/// range, id outside the reserved trigger range and mapped to exactly this
/// local box, deadly exactly for the death id, solid.
pub open spec fn consistent_with(o: Object, table: Seq<(i32, AxisBoundingBox)>) -> bool {
    &&& o.wf()
    &&& !(crate::object::TRIGGER_RANGE_START <= o.id < crate::object::TRIGGER_RANGE_END)
    &&& spec_lookup(table, o.id) == Some(o.bounding_box)
    &&& o.death == (o.id == crate::object::DEATH_ID)
    &&& o.solid == true
}

/// Splitting off a leading delimiter-free part.
proof fn lemma_split_prepend(a: Seq<u8>, tail: Seq<u8>, d: u8)
    requires
        forall|j: int| 0 <= j < a.len() ==> a[j] != d,
    ensures
        spec_split(a + seq![d] + tail, d) == seq![a] + spec_split(tail, d),
{
    let s = a + seq![d] + tail;
    assert forall|j: int| 0 <= j < a.len() implies s[j] != d by {
        assert(s[j] == a[j]);
    }
    assert(s[a.len() as int] == d);
    lemma_find_at(s, d, a.len() as int);
    assert(s.take(a.len() as int) =~= a);
    assert(s.skip(a.len() as int + 1) =~= tail);
}

/// The tokens of a rendered record: the three keys and the three rendered
/// values, in order.
proof fn lemma_record_tokens(o: Object)
    ensures
        spec_split(spec_render_record(o), 44) == seq![
            seq![49u8],
            spec_render_i32(o.id),
            seq![50u8],
            spec_render_fx(o.x),
            seq![51u8],
            spec_render_fx(o.y),
        ],
{
    lemma_render_i32_bytes(o.id);
    lemma_render_fx_bytes(o.x);
    lemma_render_fx_bytes(o.y);
    let t_id = spec_render_i32(o.id);
    let t_x = spec_render_fx(o.x);
    let t_y = spec_render_fx(o.y);
    let rec = spec_render_record(o);
    let tail4 = seq![51u8] + seq![44u8] + t_y;
    let tail3 = t_x + seq![44u8] + tail4;
    let tail2 = seq![50u8] + seq![44u8] + tail3;
    let tail1 = t_id + seq![44u8] + tail2;
    assert(rec =~= seq![49u8] + seq![44u8] + tail1);
    lemma_split_prepend(seq![49u8], tail1, 44);
    lemma_split_prepend(t_id, tail2, 44);
    lemma_split_prepend(seq![50u8], tail3, 44);
    lemma_split_prepend(t_x, tail4, 44);
    lemma_split_prepend(seq![51u8], t_y, 44);
    lemma_split_whole(t_y, 44);
    assert(seq![seq![49u8]] + (seq![t_id] + (seq![seq![50u8]] + (seq![t_x] + (seq![
        seq![51u8],
    ] + seq![t_y])))) =~~= seq![seq![49u8], t_id, seq![50u8], t_x, seq![51u8], t_y]);
}

/// A rendered record never contains the record delimiter.
proof fn lemma_record_no_semi(o: Object)
    ensures
        forall|j: int|
            0 <= j < spec_render_record(o).len() ==> (#[trigger] spec_render_record(o)[j]) != 59,
{
    lemma_render_i32_bytes(o.id);
    lemma_render_fx_bytes(o.x);
    lemma_render_fx_bytes(o.y);
}

/// Law (one record): decoding a rendered record of a decoder-producible
/// object gives that object back, tagged collidable.
proof fn lemma_record_round_trip(o: Object, table: Seq<(i32, AxisBoundingBox)>)
    requires
        consistent_with(o, table),
    ensures
        spec_record(spec_render_record(o), table) == Some((o, true)),
{
    lemma_record_tokens(o);
    lemma_render_i32_parses(o.id);
    lemma_render_fx_parses(o.x);
    lemma_render_fx_parses(o.y);
    let t_id = spec_render_i32(o.id);
    let t_x = spec_render_fx(o.x);
    let t_y = spec_render_fx(o.y);
    let toks = seq![seq![49u8], t_id, seq![50u8], t_x, seq![51u8], t_y];
    assert(seq![50u8] != seq![49u8]) by {
        assert(seq![50u8][0] == 50 && seq![49u8][0] == 49);
    }
    assert(seq![51u8] != seq![49u8]) by {
        assert(seq![51u8][0] == 51 && seq![49u8][0] == 49);
    }
    assert(seq![51u8] != seq![50u8]) by {
        assert(seq![51u8][0] == 51 && seq![50u8][0] == 50);
    }
    let st1 = spec_apply_pair(Object::spec_new(), false, toks[0], toks[1], table);
    assert(st1 matches Some((o1, h1)) && h1 && o1.id == o.id && o1.death == o.death
        && o1.bounding_box == o.bounding_box && o1.solid && o1.x == 0 && o1.y == 0);
    let o1 = st1->Some_0.0;
    let toks2 = toks.skip(2);
    assert(toks2 =~~= seq![seq![50u8], t_x, seq![51u8], t_y]);
    let st2 = spec_apply_pair(o1, true, toks2[0], toks2[1], table);
    assert(st2 matches Some((o2, h2)) && h2 && o2 == (Object { x: o.x, ..o1 }));
    let o2 = st2->Some_0.0;
    let toks3 = toks2.skip(2);
    assert(toks3 =~~= seq![seq![51u8], t_y]);
    let st3 = spec_apply_pair(o2, true, toks3[0], toks3[1], table);
    assert(st3 matches Some((o3, h3)) && h3 && o3 == (Object { y: o.y, ..o2 }));
    let o3 = st3->Some_0.0;
    let toks4 = toks3.skip(2);
    assert(toks4.len() == 0);
    assert(o3 == o);
    assert(spec_record_pairs(o3, true, toks4, table) == Some((o3, true)));
    assert(spec_record_pairs(o2, true, toks3, table) == Some((o3, true)));
    assert(spec_record_pairs(o1, true, toks2, table) == Some((o3, true)));
    assert(spec_record_pairs(Object::spec_new(), false, toks, table) == Some((o3, true)));
}

/// The encoding unfolds from the front as well: a delimiter, the first
/// record, then the rest.
proof fn lemma_encode_unfold_front(objs: Seq<Object>)
    requires
        objs.len() >= 1,
    ensures
        spec_encode(objs) == seq![59u8] + spec_render_record(objs[0]) + spec_encode(
            objs.drop_first(),
        ),
    decreases objs.len(),
{
    if objs.len() == 1 {
        assert(objs.drop_last() =~= Seq::<Object>::empty());
        assert(objs.drop_first() =~= Seq::<Object>::empty());
        assert(spec_encode(objs) =~= seq![59u8] + spec_render_record(objs[0]) + spec_encode(
            objs.drop_first(),
        ));
    } else {
        let dl = objs.drop_last();
        lemma_encode_unfold_front(dl);
        assert(dl[0] == objs[0]);
        assert(objs.drop_first().drop_last() =~= dl.drop_first());
        assert(objs.drop_first().last() == objs.last());
        assert((seq![59u8] + spec_render_record(objs[0]) + spec_encode(dl.drop_first()))
            + seq![59u8] + spec_render_record(objs.last()) =~= seq![59u8] + spec_render_record(
            objs[0],
        ) + (spec_encode(dl.drop_first()) + seq![59u8] + spec_render_record(objs.last())));
    }
}

/// Splitting an encoded level recovers the empty header and the records.
#[verifier::rlimit(100)]
proof fn lemma_split_encode(objs: Seq<Object>)
    ensures
        spec_split(spec_encode(objs), 59) == seq![Seq::<u8>::empty()] + objs.map_values(
            |o: Object| spec_render_record(o),
        ),
    decreases objs.len(),
{
    let render = |o: Object| spec_render_record(o);
    if objs.len() == 0 {
        assert(spec_encode(objs).len() == 0);
        assert(spec_split(spec_encode(objs), 59) =~~= seq![Seq::<u8>::empty()]);
        assert(seq![Seq::<u8>::empty()] + objs.map_values(render) =~~= seq![
            Seq::<u8>::empty(),
        ]);
    } else {
        let o0 = objs[0];
        let rest = objs.drop_first();
        lemma_encode_unfold_front(objs);
        lemma_record_no_semi(o0);
        let s = spec_encode(objs);
        assert(s[0] == 59);
        lemma_find_at(s, 59, 0);
        assert(s.take(0) =~= Seq::<u8>::empty());
        assert(s.skip(1) =~= spec_render_record(o0) + spec_encode(rest));
        lemma_split_encode(rest);
        if rest.len() == 0 {
            assert(spec_encode(rest).len() == 0);
            assert(spec_render_record(o0) + spec_encode(rest) =~= spec_render_record(o0));
            lemma_split_whole(spec_render_record(o0), 59);
            assert(spec_split(s, 59) =~~= seq![Seq::<u8>::empty(), spec_render_record(o0)]);
            assert(seq![Seq::<u8>::empty()] + objs.map_values(render) =~~= seq![
                Seq::<u8>::empty(),
                spec_render_record(o0),
            ]);
        } else {
            lemma_encode_unfold_front(rest);
            let x_tail = spec_render_record(rest[0]) + spec_encode(rest.drop_first());
            assert(spec_render_record(o0) + spec_encode(rest) =~= spec_render_record(o0) + seq![
                59u8,
            ] + x_tail);
            lemma_split_prepend(spec_render_record(o0), x_tail, 59);
            // The inductive hypothesis, re-expressed over the tail.
            let er = spec_encode(rest);
            assert(er[0] == 59);
            lemma_find_at(er, 59, 0);
            assert(er.take(0) =~= Seq::<u8>::empty());
            assert(er.skip(1) =~= x_tail);
            assert(spec_split(er, 59) == seq![Seq::<u8>::empty()] + spec_split(x_tail, 59));
            assert(seq![Seq::<u8>::empty()] + spec_split(x_tail, 59) == seq![Seq::<u8>::empty()]
                + rest.map_values(render));
            let a = spec_split(x_tail, 59);
            let b = rest.map_values(render);
            assert(a.len() == b.len()) by {
                assert((seq![Seq::<u8>::empty()] + a).len() == (seq![Seq::<u8>::empty()]
                    + b).len());
            }
            assert forall|t: int| 0 <= t < a.len() implies a[t] == b[t] by {
                assert((seq![Seq::<u8>::empty()] + a)[t + 1] == a[t]);
                assert((seq![Seq::<u8>::empty()] + b)[t + 1] == b[t]);
            }
            assert(spec_split(x_tail, 59) =~= rest.map_values(render));
            assert(spec_split(s, 59) =~~= seq![Seq::<u8>::empty()] + (seq![
                spec_render_record(o0),
            ] + rest.map_values(render)));
            assert(seq![spec_render_record(o0)] + rest.map_values(render) =~~= objs.map_values(
                render,
            ));
        }
    }
}

/// Decoding the rendered records of decoder-producible objects appends
/// exactly those objects and touches no checkpoints.
proof fn lemma_decode_encoded(
    objs: Seq<Object>,
    table: Seq<(i32, AxisBoundingBox)>,
    acc_objs: Seq<Object>,
    acc_cps: Seq<(i64, i64)>,
)
    requires
        forall|i: int| 0 <= i < objs.len() ==> consistent_with(#[trigger] objs[i], table),
    ensures
        spec_decode_records(
            objs.map_values(|o: Object| spec_render_record(o)),
            table,
            acc_objs,
            acc_cps,
        ) == Some((acc_objs + objs, acc_cps)),
    decreases objs.len(),
{
    let render = |o: Object| spec_render_record(o);
    let recs = objs.map_values(render);
    if objs.len() == 0 {
        assert(acc_objs + objs =~= acc_objs);
    } else {
        let o0 = objs[0];
        assert(consistent_with(o0, table));
        lemma_record_round_trip(o0, table);
        assert(recs[0] == spec_render_record(o0));
        assert(o0.id != 31);
        let rest = objs.drop_first();
        assert(recs.drop_first() =~~= rest.map_values(render));
        lemma_decode_encoded(rest, table, acc_objs.push(o0), acc_cps);
        assert(acc_objs.push(o0) + rest =~= acc_objs + objs);
    }
}

/// Law (round trip): decoding an encoded object list — against the same
/// hitbox table the objects were decoded with — yields the same objects, and
/// only the seeded level-start checkpoint.
pub proof fn lemma_encode_round_trip(objs: Seq<Object>, table: Seq<(i32, AxisBoundingBox)>)
    requires
        forall|i: int| 0 <= i < objs.len() ==> consistent_with(#[trigger] objs[i], table),
    ensures
        spec_load_level(spec_encode(objs), table) == Some(
            (objs, seq![spec_default_checkpoint()]),
        ),
{
    lemma_split_encode(objs);
    let render = |o: Object| spec_render_record(o);
    assert(spec_split(spec_encode(objs), 59).drop_first() =~~= objs.map_values(render));
    lemma_decode_encoded(objs, table, Seq::<Object>::empty(), seq![spec_default_checkpoint()]);
    assert(Seq::<Object>::empty() + objs =~= objs);
}

/// Renders the decimal digits of `v`.
fn render_digits_vec(v: u64) -> (r: Vec<u8>)
    ensures
        r@ == spec_render_digits(v as nat),
    decreases v,
{
    if v < 10 {
        let mut r: Vec<u8> = Vec::new();
        r.push(48 + (v as u8));
        proof {
            assert(r@ =~= seq![(48 + (v as nat)) as u8]);
        }
        r
    } else {
        let mut r = render_digits_vec(v / 10);
        r.push(48 + ((v % 10) as u8));
        r
    }
}

/// Renders exactly `k` zero-padded digits of `v < 10^k`.
fn render_padded_vec(v: u64, k: usize) -> (r: Vec<u8>)
    requires
        v < pow10(k as nat),
    ensures
        r@ == spec_render_padded(v as nat, k as nat),
    decreases k,
{
    if k == 0 {
        Vec::new()
    } else {
        proof {
            vstd::arithmetic::div_mod::lemma_fundamental_div_mod(v as int, 10);
            assert((v as nat) / 10 < pow10((k - 1) as nat)) by {
                if (v as nat) / 10 >= pow10((k - 1) as nat) {
                    assert(v as nat >= 10 * ((v as nat) / 10));
                }
            }
        }
        let mut r = render_padded_vec(v / 10, k - 1);
        r.push(48 + ((v % 10) as u8));
        r
    }
}

/// Renders a type id.
fn render_i32_vec(id: i32) -> (r: Vec<u8>)
    ensures
        r@ == spec_render_i32(id),
{
    if id < 0 {
        let m: u64 = (-(id as i64)) as u64;
        let mut r: Vec<u8> = Vec::new();
        r.push(45);
        let mut ds = render_digits_vec(m);
        r.append(&mut ds);
        proof {
            assert(r@ =~= spec_render_i32(id));
        }
        r
    } else {
        render_digits_vec(id as u64)
    }
}

/// Renders a fixed-point coordinate.
fn render_fx_vec(v: i64) -> (r: Vec<u8>)
    requires
        -COORD_LIMIT <= v <= COORD_LIMIT,
    ensures
        r@ == spec_render_fx(v),
{
    let m: u64 = if v >= 0 {
        v as u64
    } else {
        (-(v as i128)) as u64
    };
    let units: u64 = m / 10_000_000;
    let frac: u64 = m % 10_000_000;
    proof {
        crate::decode::lemma_pow10_vals();
    }
    let mut r: Vec<u8> = Vec::new();
    if v < 0 {
        r.push(45);
    }
    let mut du = render_digits_vec(units);
    r.append(&mut du);
    if frac != 0 {
        r.push(46);
        let mut pf = render_padded_vec(frac, 7);
        r.append(&mut pf);
    }
    proof {
        assert(r@ =~= spec_render_fx(v));
    }
    r
}

/// Renders one object as a record.
fn render_record_vec(o: &Object) -> (r: Vec<u8>)
    requires
        o.wf(),
    ensures
        r@ == spec_render_record(*o),
{
    let mut r: Vec<u8> = Vec::new();
    r.push(49);
    r.push(44);
    let mut t_id = render_i32_vec(o.id);
    r.append(&mut t_id);
    r.push(44);
    r.push(50);
    r.push(44);
    let mut t_x = render_fx_vec(o.x);
    r.append(&mut t_x);
    r.push(44);
    r.push(51);
    r.push(44);
    let mut t_y = render_fx_vec(o.y);
    r.append(&mut t_y);
    proof {
        assert(r@ =~= spec_render_record(*o));
    }
    r
}

/// Re-encodes a decoded object list as level text: an empty header, then one
/// record per object in order.
pub fn encode_gd_level_string(objects: &Vec<Object>) -> (r: Vec<u8>)
    requires
        forall|i: int| 0 <= i < objects@.len() ==> (#[trigger] objects@[i]).wf(),
    ensures
        r@ == spec_encode(objects@),
{
    let mut r: Vec<u8> = Vec::new();
    let n = objects.len();
    let mut i: usize = 0;
    proof {
        assert(objects@.take(0) =~= Seq::<Object>::empty());
    }
    while i < n
        invariant
            i <= n,
            n == objects@.len(),
            forall|j: int| 0 <= j < objects@.len() ==> (#[trigger] objects@[j]).wf(),
            r@ == spec_encode(objects@.take(i as int)),
        decreases n - i,
    {
        r.push(59);
        let mut rec = render_record_vec(&objects[i]);
        r.append(&mut rec);
        proof {
            assert(objects@.take(i + 1).drop_last() =~= objects@.take(i as int));
            assert(objects@.take(i + 1).last() == objects@[i as int]);
            assert(r@ =~= spec_encode(objects@.take(i + 1)));
        }
        i = i + 1;
    }
    proof {
        assert(objects@.take(n as int) =~= objects@);
    }
    r
}

} // verus!
