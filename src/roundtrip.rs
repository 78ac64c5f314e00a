//! Lemmas for the round-trip law: each part of the tree, encoded and placed
//! anywhere in a buffer, decodes back to itself.
use crate::class::{
    entry_at, flags_known, is_wide, kind_code, kind_of, pool_well_formed, AttributeView, CPIndex,
    ClassView, EntryView, ExceptionTableEntry, InfoView, MemberView,
};
use crate::resolve::{
    blob_len, code_name, constant_value_name, exceptions_name, lemma_code_body_within,
    parse_code_body, resolve_attribute, resolve_info, CodeBody,
};
use crate::deserialization::{
    add_entry, attribute_item, exception_item, index_item, parse_attribute, parse_counted,
    member_item, parse_class_raw, parse_entry, parse_exception_entry, parse_flags, parse_index,
    parse_member, resolve_all, resolve_class, resolve_member,
    parse_index_pair, parse_kind, parse_list, parse_pool, parse_raw_info, parse_slots,
    parse_utf8_body, text_of,
};
use crate::error::DecodeError;
use crate::read::{parse_bytes, parse_i32, parse_i64, parse_u16, parse_u32, parse_u64, parse_u8};
use crate::serialization::{
    attribute_encodable, encode_attribute, encode_attributes, encode_counted, encode_entry,
    encode_exception_entry, encode_index, encode_info, encode_list, encode_pool, encode_slots,
    attributes_encodable, class_encodable, encode_class, encode_member, encode_optional_index,
    entry_encodable, exception_enc, index_enc, member_enc, members_encodable,
    pool_count, pool_encodable, slot_width,
};
use crate::write::{lemma_u16_be, lemma_u32_be, lemma_u64_be, u16_be, u32_be, u64_be};
use vstd::prelude::*;
use vstd::utf8::{encode_utf8, encode_utf8_decode_utf8, encode_utf8_valid_utf8};

verus! {

/// Concatenation regrouped around its middle part.
pub proof fn lemma_regroup(pre: Seq<u8>, a: Seq<u8>, b: Seq<u8>, c: Seq<u8>, rest: Seq<u8>)
    ensures
        pre + (a + b + c) + rest == (pre + a) + b + (c + rest),
{
    assert(pre + (a + b + c) + rest =~= (pre + a) + b + (c + rest));
}

pub proof fn rt_u8(pre: Seq<u8>, v: u8, rest: Seq<u8>)
    ensures
        parse_u8(pre + seq![v] + rest, pre.len() as int) == Ok::<(u8, int), DecodeError>(
            (v, pre.len() as int + 1),
        ),
{
    assert((pre + seq![v] + rest)[pre.len() as int] == v);
}

pub proof fn rt_u16(pre: Seq<u8>, v: u16, rest: Seq<u8>)
    ensures
        parse_u16(pre + u16_be(v) + rest, pre.len() as int) == Ok::<(u16, int), DecodeError>(
            (v, pre.len() as int + 2),
        ),
{
    lemma_u16_be(pre, v, rest);
}

pub proof fn rt_u32(pre: Seq<u8>, v: u32, rest: Seq<u8>)
    ensures
        parse_u32(pre + u32_be(v) + rest, pre.len() as int) == Ok::<(u32, int), DecodeError>(
            (v, pre.len() as int + 4),
        ),
{
    lemma_u32_be(pre, v, rest);
}

pub proof fn rt_u64(pre: Seq<u8>, v: u64, rest: Seq<u8>)
    ensures
        parse_u64(pre + u64_be(v) + rest, pre.len() as int) == Ok::<(u64, int), DecodeError>(
            (v, pre.len() as int + 8),
        ),
{
    lemma_u64_be(pre, v, rest);
}

pub proof fn rt_i32(pre: Seq<u8>, v: i32, rest: Seq<u8>)
    ensures
        parse_i32(pre + u32_be(v as u32) + rest, pre.len() as int) == Ok::<(i32, int), DecodeError>(
            (v, pre.len() as int + 4),
        ),
{
    lemma_u32_be(pre, v as u32, rest);
    assert(((v as u32) as i32) == v) by (bit_vector);
}

pub proof fn rt_i64(pre: Seq<u8>, v: i64, rest: Seq<u8>)
    ensures
        parse_i64(pre + u64_be(v as u64) + rest, pre.len() as int) == Ok::<(i64, int), DecodeError>(
            (v, pre.len() as int + 8),
        ),
{
    lemma_u64_be(pre, v as u64, rest);
    assert(((v as u64) as i64) == v) by (bit_vector);
}

pub proof fn rt_bytes(pre: Seq<u8>, b: Seq<u8>, rest: Seq<u8>)
    ensures
        parse_bytes(pre + b + rest, pre.len() as int, b.len() as int) == Ok::<(Seq<u8>, int), DecodeError>(
            (b, pre.len() as int + b.len()),
        ),
{
    assert((pre + b + rest).subrange(pre.len() as int, pre.len() as int + b.len()) =~= b);
}

pub proof fn rt_index(pre: Seq<u8>, i: crate::class::CPIndex, rest: Seq<u8>)
    requires
        i.0 != 0,
    ensures
        parse_index(pre + encode_index(i) + rest, pre.len() as int) == Ok::<
            (crate::class::CPIndex, int),
            DecodeError,
        >((i, pre.len() as int + 2)),
{
    rt_u16(pre, i.0, rest);
}

pub proof fn rt_index_pair(
    pre: Seq<u8>,
    a: crate::class::CPIndex,
    b: crate::class::CPIndex,
    rest: Seq<u8>,
)
    requires
        a.0 != 0,
        b.0 != 0,
    ensures
        parse_index_pair(pre + (encode_index(a) + encode_index(b)) + rest, pre.len() as int)
            == Ok::<((crate::class::CPIndex, crate::class::CPIndex), int), DecodeError>(
            ((a, b), pre.len() as int + 4),
        ),
{
    let s = pre + (encode_index(a) + encode_index(b)) + rest;
    assert(s =~= pre + encode_index(a) + (encode_index(b) + rest));
    rt_index(pre, a, encode_index(b) + rest);
    assert(s =~= (pre + encode_index(a)) + encode_index(b) + rest);
    rt_index(pre + encode_index(a), b, rest);
}

/// Every index an entry holds is non-zero, as decoding requires.
pub open spec fn entry_valid(e: EntryView) -> bool {
    match e {
        EntryView::Class { name_index } => name_index.0 != 0,
        EntryView::FieldRef { class_index, name_and_type_index } => class_index.0 != 0
            && name_and_type_index.0 != 0,
        EntryView::MethodRef { class_index, name_and_type_index } => class_index.0 != 0
            && name_and_type_index.0 != 0,
        EntryView::InterfaceMethodRef { class_index, name_and_type_index } => class_index.0 != 0
            && name_and_type_index.0 != 0,
        EntryView::String { string_index } => string_index.0 != 0,
        EntryView::NameAndType { name_index, descriptor_index } => name_index.0 != 0
            && descriptor_index.0 != 0,
        EntryView::MethodHandle { reference_index, .. } => reference_index.0 != 0,
        EntryView::MethodType { descriptor_index } => descriptor_index.0 != 0,
        EntryView::InvokeDynamic { name_and_type_index, .. } => name_and_type_index.0 != 0,
        _ => true,
    }
}

pub proof fn lemma_entry_valid(s: Seq<u8>, p: int)
    ensures
        parse_entry(s, p) matches Ok((e, q)) ==> entry_valid(e) && q > p,
{
}

#[verifier::rlimit(100)]
pub proof fn rt_entry(pre: Seq<u8>, e: EntryView, rest: Seq<u8>)
    requires
        entry_valid(e),
        entry_encodable(e),
    ensures
        parse_entry(pre + encode_entry(e) + rest, pre.len() as int) == Ok::<(EntryView, int), DecodeError>(
            (e, pre.len() as int + encode_entry(e).len()),
        ),
{
    let enc = encode_entry(e);
    let s = pre + enc + rest;
    let p = pre.len() as int;
    let tag = enc[0];
    let body = enc.subrange(1, enc.len() as int);
    assert(enc =~= seq![tag] + body);
    assert(s =~= pre + seq![tag] + (body + rest));
    rt_u8(pre, tag, body + rest);
    let pre1 = pre + seq![tag];
    assert(s =~= pre1 + body + rest);
    match e {
        EntryView::Class { name_index } => {
            rt_index(pre1, name_index, rest);
        },
        EntryView::FieldRef { class_index, name_and_type_index } => {
            rt_index_pair(pre1, class_index, name_and_type_index, rest);
        },
        EntryView::MethodRef { class_index, name_and_type_index } => {
            rt_index_pair(pre1, class_index, name_and_type_index, rest);
        },
        EntryView::InterfaceMethodRef { class_index, name_and_type_index } => {
            rt_index_pair(pre1, class_index, name_and_type_index, rest);
        },
        EntryView::String { string_index } => {
            rt_index(pre1, string_index, rest);
        },
        EntryView::Integer(v) => {
            rt_i32(pre1, v, rest);
        },
        EntryView::Float(v) => {
            rt_u32(pre1, v, rest);
        },
        EntryView::Long(v) => {
            rt_i64(pre1, v, rest);
        },
        EntryView::Double(v) => {
            rt_u64(pre1, v, rest);
        },
        EntryView::NameAndType { name_index, descriptor_index } => {
            rt_index_pair(pre1, name_index, descriptor_index, rest);
        },
        EntryView::Utf8(t) => {
            let b = encode_utf8(t);
            let n = b.len() as u16;
            assert(body =~= u16_be(n) + b);
            assert(s =~= pre1 + u16_be(n) + (b + rest));
            rt_u16(pre1, n, b + rest);
            assert(s =~= (pre1 + u16_be(n)) + b + rest);
            rt_bytes(pre1 + u16_be(n), b, rest);
            encode_utf8_valid_utf8(t);
            encode_utf8_decode_utf8(t);
            assert(text_of(b) == t);
            assert(parse_utf8_body(s, p + 1) == Ok::<(Seq<char>, int), DecodeError>(
                (t, p + 1 + 2 + b.len()),
            ));
        },
        EntryView::MethodHandle { reference_kind, reference_index } => {
            let k = kind_code(reference_kind);
            assert(kind_of(k) == Some(reference_kind));
            assert(body =~= seq![k] + encode_index(reference_index));
            assert(s =~= pre1 + seq![k] + (encode_index(reference_index) + rest));
            rt_u8(pre1, k, encode_index(reference_index) + rest);
            assert(parse_kind(s, p + 1) == Ok::<(crate::class::ReferenceKind, int), DecodeError>(
                (reference_kind, p + 2),
            ));
            assert(s =~= (pre1 + seq![k]) + encode_index(reference_index) + rest);
            rt_index(pre1 + seq![k], reference_index, rest);
        },
        EntryView::MethodType { descriptor_index } => {
            rt_index(pre1, descriptor_index, rest);
        },
        EntryView::InvokeDynamic { bootstrap_method_attr_index, name_and_type_index } => {
            assert(body =~= u16_be(bootstrap_method_attr_index) + encode_index(name_and_type_index));
            assert(s =~= pre1 + u16_be(bootstrap_method_attr_index) + (encode_index(
                name_and_type_index,
            ) + rest));
            rt_u16(pre1, bootstrap_method_attr_index, encode_index(name_and_type_index) + rest);
            assert(s =~= (pre1 + u16_be(bootstrap_method_attr_index)) + encode_index(
                name_and_type_index,
            ) + rest);
            rt_index(pre1 + u16_be(bootstrap_method_attr_index), name_and_type_index, rest);
        },
    }
}

/// The first item's encoding comes first.
pub proof fn lemma_encode_list_front<T>(xs: Seq<T>, enc: spec_fn(T) -> Seq<u8>)
    requires
        xs.len() > 0,
    ensures
        encode_list(xs, enc) == enc(xs[0]) + encode_list(xs.drop_first(), enc),
    decreases xs.len(),
{
    if xs.len() == 1 {
        assert(xs.drop_last().len() == 0);
        assert(xs.drop_first().len() == 0);
        assert(encode_list(xs.drop_last(), enc) == Seq::<u8>::empty());
        assert(encode_list(xs.drop_first(), enc) == Seq::<u8>::empty());
        assert(encode_list(xs, enc) =~= enc(xs[0]));
    } else {
        lemma_encode_list_front(xs.drop_last(), enc);
        assert(xs.drop_last().drop_first() =~= xs.drop_first().drop_last());
        assert(encode_list(xs, enc) =~= enc(xs[0]) + encode_list(xs.drop_first(), enc));
    }
}

/// A list of encodings decodes item by item, provided each item does.
pub proof fn rt_list<T, U>(
    pre: Seq<u8>,
    xs: Seq<T>,
    rest: Seq<u8>,
    acc: Seq<U>,
    enc: spec_fn(T) -> Seq<u8>,
    item: spec_fn(Seq<u8>, int) -> Result<(U, int), DecodeError>,
    g: spec_fn(T) -> U,
)
    requires
        forall|i: int, pre2: Seq<u8>, rest2: Seq<u8>|
            0 <= i < xs.len() ==> #[trigger] item(pre2 + enc(xs[i]) + rest2, pre2.len() as int)
                == Ok::<(U, int), DecodeError>((g(xs[i]), pre2.len() as int + enc(xs[i]).len())),
    ensures
        parse_list(pre + encode_list(xs, enc) + rest, pre.len() as int, xs.len(), acc, item)
            == Ok::<(Seq<U>, int), DecodeError>(
            (acc + xs.map_values(g), pre.len() as int + encode_list(xs, enc).len()),
        ),
    decreases xs.len(),
{
    if xs.len() == 0 {
        assert(acc + xs.map_values(g) =~= acc);
        assert(pre + encode_list(xs, enc) + rest =~= pre + rest);
    } else {
        lemma_encode_list_front(xs, enc);
        let x = xs[0];
        let tail = xs.drop_first();
        let s = pre + encode_list(xs, enc) + rest;
        assert(s =~= pre + enc(x) + (encode_list(tail, enc) + rest));
        assert(item(pre + enc(xs[0]) + (encode_list(tail, enc) + rest), pre.len() as int) == Ok::<
            (U, int),
            DecodeError,
        >((g(xs[0]), pre.len() as int + enc(xs[0]).len())));
        assert(s =~= (pre + enc(x)) + encode_list(tail, enc) + rest);
        assert forall|i: int, pre2: Seq<u8>, rest2: Seq<u8>|
            0 <= i < tail.len() implies #[trigger] item(pre2 + enc(tail[i]) + rest2, pre2.len() as int)
            == Ok::<(U, int), DecodeError>((g(tail[i]), pre2.len() as int + enc(tail[i]).len())) by {
            assert(tail[i] == xs[i + 1]);
            assert(item(pre2 + enc(xs[i + 1]) + rest2, pre2.len() as int) == Ok::<(U, int), DecodeError>(
                (g(xs[i + 1]), pre2.len() as int + enc(xs[i + 1]).len()),
            ));
        }
        rt_list(pre + enc(x), tail, rest, acc.push(g(x)), enc, item, g);
        assert(acc.push(g(x)) + tail.map_values(g) =~= acc + xs.map_values(g));
    }
}

/// Concatenated slots encode, and occupy indices, one after the other.
pub proof fn lemma_slots_split(a: Seq<Option<EntryView>>, b: Seq<Option<EntryView>>)
    ensures
        encode_slots(a + b) == encode_slots(a) + encode_slots(b),
        slot_width(a + b) == slot_width(a) + slot_width(b),
    decreases b.len(),
{
    if b.len() == 0 {
        assert(a + b =~= a);
        assert(encode_slots(a) + encode_slots(b) =~= encode_slots(a));
    } else {
        lemma_slots_split(a, b.drop_last());
        assert((a + b).drop_last() =~= a + b.drop_last());
        assert((a + b).last() == b.last());
        assert(encode_slots(a + b) =~= encode_slots(a) + encode_slots(b));
    }
}

pub proof fn lemma_one_slot(o: Option<EntryView>)
    ensures
        encode_slots(seq![o]) == match o {
            Some(e) => encode_entry(e),
            None => Seq::<u8>::empty(),
        },
        slot_width(seq![o]) == match o {
            Some(e) => if is_wide(e) {
                2int
            } else {
                1int
            },
            None => 0int,
        },
{
    assert(seq![o].drop_last() =~= Seq::<Option<EntryView>>::empty());
    assert(slot_width(Seq::<Option<EntryView>>::empty()) == 0);
    assert(encode_slots(seq![o]) =~= encode_slots(Seq::<Option<EntryView>>::empty()) + match o {
        Some(e) => encode_entry(e),
        None => Seq::<u8>::empty(),
    });
}

/// Every entry of the pool holds non-zero indices.
pub open spec fn pool_entries_valid(pool: Seq<Option<EntryView>>) -> bool {
    forall|i: int| 0 <= i < pool.len() ==> (#[trigger] pool[i] matches Some(e) ==> entry_valid(e))
}

/// One step through a well-formed pool: the entry at boundary `k` and the
/// boundary after it.
pub proof fn lemma_pool_step(pool: Seq<Option<EntryView>>, k: int)
    requires
        pool_well_formed(pool),
        1 <= k < pool.len(),
        pool[k] is Some,
    ensures
        ({
            let e = pool[k]->Some_0;
            let w: int = if is_wide(e) {
                2
            } else {
                1
            };
            &&& k + w <= pool.len()
            &&& k + w == pool.len() || pool[k + w] is Some
            &&& add_entry(pool.take(k), e) == pool.take(k + w)
            &&& encode_slots(pool.take(k + w)) == encode_slots(pool.take(k)) + encode_entry(e)
            &&& slot_width(pool.take(k + w)) == slot_width(pool.take(k)) + w
            &&& encode_slots(pool) == encode_slots(pool.take(k)) + encode_entry(e) + encode_slots(
                pool.skip(k + 1),
            )
        }),
{
    let e = pool[k]->Some_0;
    let head = pool.take(k);
    let tail = pool.skip(k + 1);
    assert(pool =~= head + seq![Some(e)] + tail);
    lemma_slots_split(head + seq![Some(e)], tail);
    lemma_slots_split(head, seq![Some(e)]);
    lemma_one_slot(Some(e));
    if is_wide(e) {
        assert(k + 1 < pool.len());
        assert(pool[k + 1] is None);
        let next = pool.take(k + 2);
        assert(next =~= head + seq![Some(e)] + seq![None]);
        lemma_slots_split(head + seq![Some(e)], seq![None]);
        lemma_one_slot(None);
        assert(add_entry(head, e) =~= next);
        assert(encode_slots(next) =~= encode_slots(head) + encode_entry(e));
        if k + 2 < pool.len() {
            assert(pool[k + 2] is None <==> (pool[k + 1] matches Some(x) && is_wide(x)));
        }
    } else {
        let next = pool.take(k + 1);
        assert(next =~= head + seq![Some(e)]);
        assert(add_entry(head, e) =~= next);
        if k + 1 < pool.len() {
            assert(pool[k + 1] is None <==> (pool[k] matches Some(x) && is_wide(x)));
        }
    }
}

/// From an entry boundary `k` on, the encoded slots decode to the pool.
#[verifier::rlimit(100)]
pub proof fn rt_slots(pre: Seq<u8>, pool: Seq<Option<EntryView>>, rest: Seq<u8>, k: int)
    requires
        pool_well_formed(pool),
        pool_entries_valid(pool),
        pool_encodable(pool),
        1 <= k <= pool.len(),
        k == pool.len() || pool[k] is Some,
        slot_width(pool.take(k)) == k - 1,
    ensures
        parse_slots(
            pre + encode_slots(pool) + rest,
            pre.len() as int + encode_slots(pool.take(k)).len(),
            pool.len() as int,
            pool.take(k),
        ) == Ok::<(Seq<Option<EntryView>>, int), DecodeError>(
            (pool, pre.len() as int + encode_slots(pool).len()),
        ),
        slot_width(pool) == pool.len() - 1,
    decreases pool.len() - k,
{
    if k == pool.len() {
        assert(pool.take(k) =~= pool);
    } else {
        let e = pool[k]->Some_0;
        let w: int = if is_wide(e) {
            2
        } else {
            1
        };
        assert(entry_valid(e));
        assert(entry_encodable(e));
        lemma_pool_step(pool, k);
        let head = pool.take(k);
        let pre1 = pre + encode_slots(head);
        let rest1 = encode_slots(pool.skip(k + 1)) + rest;
        lemma_regroup(pre, encode_slots(head), encode_entry(e), encode_slots(pool.skip(k + 1)), rest);
        rt_entry(pre1, e, rest1);
        rt_slots(pre, pool, rest, k + w);
    }
}

/// A well-formed pool whose entries hold non-zero indices decodes from its
/// encoding, wherever that stands.
pub proof fn rt_pool(pre: Seq<u8>, pool: Seq<Option<EntryView>>, rest: Seq<u8>)
    requires
        pool_well_formed(pool),
        pool_entries_valid(pool),
        pool_encodable(pool),
    ensures
        parse_pool(pre + encode_pool(pool) + rest, pre.len() as int) == Ok::<
            (Seq<Option<EntryView>>, int),
            DecodeError,
        >((pool, pre.len() as int + encode_pool(pool).len())),
{
    let first: Seq<Option<EntryView>> = seq![None];
    assert(pool.take(1) =~= first);
    lemma_one_slot(None);
    assert(1 == pool.len() || pool[1] is Some) by {
        if 1 < pool.len() {
            assert(pool[1] is None <==> (pool[0] matches Some(x) && is_wide(x)));
        }
    }
    let count = pool_count(pool) as u16;
    let pre1 = pre + u16_be(count);
    rt_slots(pre1, pool, rest, 1);
    assert(pool_count(pool) == pool.len());
    let s = pre + encode_pool(pool) + rest;
    assert(s =~= pre + u16_be(count) + (encode_slots(pool) + rest));
    rt_u16(pre, count, encode_slots(pool) + rest);
    assert(s =~= pre1 + encode_slots(pool) + rest);
}

pub open spec fn same<T>() -> spec_fn(T) -> T {
    |x: T| x
}

/// What the structural pass reads back from an attribute's encoding: the
/// same name, the encoded payload kept opaque.
pub open spec fn rawify(a: AttributeView) -> AttributeView {
    AttributeView { name_index: a.name_index, info: InfoView::Any(encode_info(a.info)) }
}

pub open spec fn rawify_fn() -> spec_fn(AttributeView) -> AttributeView {
    |a: AttributeView| rawify(a)
}

pub open spec fn attribute_enc() -> spec_fn(AttributeView) -> Seq<u8> {
    |a: AttributeView| encode_attribute(a)
}

/// An attribute as the structural pass produces it.
pub open spec fn raw_valid(a: AttributeView) -> bool {
    a.name_index.0 != 0 && a.info is Any
}

pub proof fn lemma_attributes_as_list(xs: Seq<AttributeView>)
    ensures
        encode_attributes(xs) == encode_list(xs, attribute_enc()),
    decreases xs.len(),
{
    if xs.len() > 0 {
        lemma_attributes_as_list(xs.drop_last());
    }
}

/// A counted list decodes item by item, provided each item does.
pub proof fn rt_counted<T, U>(
    pre: Seq<u8>,
    xs: Seq<T>,
    rest: Seq<u8>,
    enc: spec_fn(T) -> Seq<u8>,
    item: spec_fn(Seq<u8>, int) -> Result<(U, int), DecodeError>,
    g: spec_fn(T) -> U,
)
    requires
        xs.len() <= 0xffff,
        forall|i: int, pre2: Seq<u8>, rest2: Seq<u8>|
            0 <= i < xs.len() ==> #[trigger] item(pre2 + enc(xs[i]) + rest2, pre2.len() as int)
                == Ok::<(U, int), DecodeError>((g(xs[i]), pre2.len() as int + enc(xs[i]).len())),
    ensures
        parse_counted(pre + encode_counted(xs, enc) + rest, pre.len() as int, item) == Ok::<
            (Seq<U>, int),
            DecodeError,
        >((xs.map_values(g), pre.len() as int + encode_counted(xs, enc).len())),
{
    let n = xs.len() as u16;
    let s = pre + encode_counted(xs, enc) + rest;
    assert(s =~= pre + u16_be(n) + (encode_list(xs, enc) + rest));
    rt_u16(pre, n, encode_list(xs, enc) + rest);
    assert(s =~= (pre + u16_be(n)) + encode_list(xs, enc) + rest);
    rt_list(pre + u16_be(n), xs, rest, Seq::<U>::empty(), enc, item, g);
    assert(Seq::<U>::empty() + xs.map_values(g) =~= xs.map_values(g));
}

pub proof fn rt_attribute(pre: Seq<u8>, a: AttributeView, rest: Seq<u8>)
    requires
        a.name_index.0 != 0,
        encode_info(a.info).len() <= u32::MAX,
    ensures
        parse_attribute(pre + encode_attribute(a) + rest, pre.len() as int) == Ok::<
            (AttributeView, int),
            DecodeError,
        >((rawify(a), pre.len() as int + encode_attribute(a).len())),
{
    let b = encode_info(a.info);
    let n = b.len() as u32;
    let s = pre + encode_attribute(a) + rest;
    assert(s =~= pre + encode_index(a.name_index) + (u32_be(n) + b + rest));
    rt_index(pre, a.name_index, u32_be(n) + b + rest);
    let pre1 = pre + encode_index(a.name_index);
    assert(s =~= pre1 + u32_be(n) + (b + rest));
    rt_u32(pre1, n, b + rest);
    assert(s =~= (pre1 + u32_be(n)) + b + rest);
    rt_bytes(pre1 + u32_be(n), b, rest);
    assert(parse_raw_info(s, pre1.len() as int) == Ok::<(InfoView, int), DecodeError>(
        (InfoView::Any(b), pre1.len() as int + 4 + b.len()),
    ));
}

/// A counted attribute list decodes to the attributes' opaque forms.
pub proof fn rt_attributes(pre: Seq<u8>, xs: Seq<AttributeView>, rest: Seq<u8>)
    requires
        xs.len() <= 0xffff,
        forall|i: int|
            0 <= i < xs.len() ==> (#[trigger] xs[i]).name_index.0 != 0 && attribute_encodable(xs[i]),
    ensures
        parse_counted(
            pre + (u16_be(xs.len() as u16) + encode_attributes(xs)) + rest,
            pre.len() as int,
            attribute_item(),
        ) == Ok::<(Seq<AttributeView>, int), DecodeError>(
            (
                xs.map_values(rawify_fn()),
                pre.len() as int + 2 + encode_attributes(xs).len(),
            ),
        ),
{
    lemma_attributes_as_list(xs);
    assert forall|i: int, pre2: Seq<u8>, rest2: Seq<u8>|
        0 <= i < xs.len() implies #[trigger] attribute_item()(
        pre2 + attribute_enc()(xs[i]) + rest2,
        pre2.len() as int,
    ) == Ok::<(AttributeView, int), DecodeError>(
        (rawify_fn()(xs[i]), pre2.len() as int + attribute_enc()(xs[i]).len()),
    ) by {
        rt_attribute(pre2, xs[i], rest2);
    }
    rt_counted(pre, xs, rest, attribute_enc(), attribute_item(), rawify_fn());
}

/// Every item of a decoded list has a property that every decoded item
/// has.
pub proof fn lemma_list_all<T>(
    s: Seq<u8>,
    p: int,
    n: nat,
    acc: Seq<T>,
    item: spec_fn(Seq<u8>, int) -> Result<(T, int), DecodeError>,
    prop: spec_fn(T) -> bool,
)
    requires
        forall|s2: Seq<u8>, q2: int| #[trigger] item(s2, q2) matches Ok((x, _)) ==> prop(x),
        forall|i: int| 0 <= i < acc.len() ==> prop(#[trigger] acc[i]),
    ensures
        parse_list(s, p, n, acc, item) matches Ok((xs, _)) ==> forall|i: int|
            0 <= i < xs.len() ==> prop(#[trigger] xs[i]),
    decreases n,
{
    if n > 0 {
        if let Ok((x, q)) = item(s, p) {
            assert(prop(x));
            lemma_list_all(s, q, (n - 1) as nat, acc.push(x), item, prop);
        }
    }
}

pub proof fn rt_exception_entry(pre: Seq<u8>, x: ExceptionTableEntry, rest: Seq<u8>)
    requires
        x.catch_type.0 != 0,
    ensures
        parse_exception_entry(pre + encode_exception_entry(x) + rest, pre.len() as int) == Ok::<
            (ExceptionTableEntry, int),
            DecodeError,
        >((x, pre.len() as int + 8)),
{
    let s = pre + encode_exception_entry(x) + rest;
    let a = u16_be(x.start);
    let b = u16_be(x.end);
    let c = u16_be(x.handler);
    let d = encode_index(x.catch_type);
    assert(s =~= pre + a + (b + c + d + rest));
    rt_u16(pre, x.start, b + c + d + rest);
    assert(s =~= (pre + a) + b + (c + d + rest));
    rt_u16(pre + a, x.end, c + d + rest);
    assert(s =~= (pre + a + b) + c + (d + rest));
    rt_u16(pre + a + b, x.handler, d + rest);
    assert(s =~= (pre + a + b + c) + d + rest);
    rt_index(pre + a + b + c, x.catch_type, rest);
}

pub proof fn rt_indices(pre: Seq<u8>, xs: Seq<CPIndex>, rest: Seq<u8>)
    requires
        xs.len() <= 0xffff,
        forall|i: int| 0 <= i < xs.len() ==> (#[trigger] xs[i]).0 != 0,
    ensures
        parse_counted(pre + encode_counted(xs, index_enc()) + rest, pre.len() as int, index_item())
            == Ok::<(Seq<CPIndex>, int), DecodeError>(
            (xs, pre.len() as int + encode_counted(xs, index_enc()).len()),
        ),
{
    assert forall|i: int, pre2: Seq<u8>, rest2: Seq<u8>|
        0 <= i < xs.len() implies #[trigger] index_item()(
        pre2 + index_enc()(xs[i]) + rest2,
        pre2.len() as int,
    ) == Ok::<(CPIndex, int), DecodeError>(
        (same::<CPIndex>()(xs[i]), pre2.len() as int + index_enc()(xs[i]).len()),
    ) by {
        rt_index(pre2, xs[i], rest2);
    }
    rt_counted(pre, xs, rest, index_enc(), index_item(), same::<CPIndex>());
    assert(xs.map_values(same::<CPIndex>()) =~= xs);
}

pub proof fn rt_exception_table(pre: Seq<u8>, xs: Seq<ExceptionTableEntry>, rest: Seq<u8>)
    requires
        xs.len() <= 0xffff,
        forall|i: int| 0 <= i < xs.len() ==> (#[trigger] xs[i]).catch_type.0 != 0,
    ensures
        parse_counted(pre + encode_counted(xs, exception_enc()) + rest, pre.len() as int, exception_item())
            == Ok::<(Seq<ExceptionTableEntry>, int), DecodeError>(
            (xs, pre.len() as int + encode_counted(xs, exception_enc()).len()),
        ),
{
    assert forall|i: int, pre2: Seq<u8>, rest2: Seq<u8>|
        0 <= i < xs.len() implies #[trigger] exception_item()(
        pre2 + exception_enc()(xs[i]) + rest2,
        pre2.len() as int,
    ) == Ok::<(ExceptionTableEntry, int), DecodeError>(
        (same::<ExceptionTableEntry>()(xs[i]), pre2.len() as int + exception_enc()(xs[i]).len()),
    ) by {
        rt_exception_entry(pre2, xs[i], rest2);
    }
    rt_counted(pre, xs, rest, exception_enc(), exception_item(), same::<ExceptionTableEntry>());
    assert(xs.map_values(same::<ExceptionTableEntry>()) =~= xs);
}

/// A typed "Code" payload decodes back to its fields, its nested
/// attributes in their opaque forms.
#[verifier::rlimit(100)]
pub proof fn rt_code_body(
    max_stack: u16,
    max_locals: u16,
    code: Seq<u8>,
    exception_table: Seq<ExceptionTableEntry>,
    attributes: Seq<AttributeView>,
)
    requires
        code.len() <= u32::MAX,
        exception_table.len() <= 0xffff,
        forall|i: int| 0 <= i < exception_table.len() ==> (#[trigger] exception_table[i]).catch_type.0 != 0,
        attributes.len() <= 0xffff,
        forall|i: int|
            0 <= i < attributes.len() ==> (#[trigger] attributes[i]).name_index.0 != 0
                && attribute_encodable(attributes[i]),
    ensures
        ({
            let blob = encode_info(
                InfoView::Code { max_stack, max_locals, code, exception_table, attributes },
            );
            parse_code_body(blob, 0) == Ok::<(CodeBody, int), DecodeError>(
                (
                    CodeBody {
                        max_stack,
                        max_locals,
                        code,
                        exception_table,
                        attributes: attributes.map_values(rawify_fn()),
                    },
                    blob.len() as int,
                ),
            )
        }),
{
    let blob = encode_info(
        InfoView::Code { max_stack, max_locals, code, exception_table, attributes },
    );
    let e = Seq::<u8>::empty();
    let a = u16_be(max_stack);
    let b = u16_be(max_locals);
    let c = u32_be(code.len() as u32);
    let t = encode_counted(exception_table, exception_enc());
    let f = u16_be(attributes.len() as u16) + encode_attributes(attributes);
    assert(blob =~= e + a + (b + c + code + t + f));
    rt_u16(e, max_stack, b + c + code + t + f);
    assert(blob =~= (e + a) + b + (c + code + t + f));
    rt_u16(e + a, max_locals, c + code + t + f);
    assert(blob =~= (e + a + b) + c + (code + t + f));
    rt_u32(e + a + b, code.len() as u32, code + t + f);
    assert(blob =~= (e + a + b + c) + code + (t + f));
    rt_bytes(e + a + b + c, code, t + f);
    assert(blob =~= (e + a + b + c + code) + t + f);
    rt_exception_table(e + a + b + c + code, exception_table, f);
    assert(blob =~= (e + a + b + c + code + t) + f + e);
    rt_attributes(e + a + b + c + code + t, attributes, e);
}

/// What a "Code" payload's fields hold when it decodes: non-zero catch
/// types, opaque nested attributes with non-zero names, each shorter than
/// the payload.
pub proof fn lemma_code_body_valid(b: Seq<u8>)
    requires
        parse_code_body(b, 0) is Ok,
    ensures
        ({
            let body = parse_code_body(b, 0)->Ok_0.0;
            &&& forall|i: int|
                0 <= i < body.exception_table.len() ==> (#[trigger] body.exception_table[i]).catch_type.0
                    != 0
            &&& forall|i: int|
                0 <= i < body.attributes.len() ==> raw_valid(#[trigger] body.attributes[i])
                    && blob_len(body.attributes[i]) < b.len()
        }),
{
    let body = parse_code_body(b, 0)->Ok_0.0;
    lemma_code_body_within(b);
    let u: int = 8 + body.code.len() as int;
    let v = parse_counted(b, u, exception_item())->Ok_0.1;
    lemma_list_all(
        b,
        u + 2,
        crate::read::parse_u16(b, u).unwrap().0 as nat,
        Seq::empty(),
        exception_item(),
        |x: ExceptionTableEntry| x.catch_type.0 != 0,
    );
    lemma_list_all(
        b,
        v + 2,
        crate::read::parse_u16(b, v).unwrap().0 as nat,
        Seq::empty(),
        attribute_item(),
        |x: AttributeView| raw_valid(x),
    );
}

/// Resolving the opaque form of a resolved attribute gives it back: the
/// resolution pass is stable under re-encoding.
pub proof fn lemma_resolve_fixpoint(pool: Seq<Option<EntryView>>, r: AttributeView)
    requires
        raw_valid(r),
        attribute_encodable(resolve_attribute(pool, r)),
    ensures
        resolve_attribute(pool, rawify(resolve_attribute(pool, r))) == resolve_attribute(pool, r),
    decreases blob_len(r), 1int,
{
    let b = r.info->Any_0;
    let a = resolve_attribute(pool, r);
    match resolve_info(pool, r.name_index, b) {
        Err(_) => {
            assert(rawify(a) == r);
        },
        Ok(info) => {
            let text = entry_at(pool, r.name_index.0 as int)->Some_0->Utf8_0;
            let blob2 = encode_info(info);
            let e = Seq::<u8>::empty();
            if text == constant_value_name() {
                let index = info->ConstantValue_index;
                assert(blob2 =~= e + encode_index(index) + e);
                rt_index(e, index, e);
            } else if text == code_name() {
                assert(parse_code_body(b, 0) is Ok);
                lemma_fixpoint_code(pool, r);
            } else {
                let t = info->Exceptions_exception_index_table;
                lemma_list_all(
                    b,
                    2,
                    crate::read::parse_u16(b, 0).unwrap().0 as nat,
                    Seq::empty(),
                    index_item(),
                    |x: CPIndex| x.0 != 0,
                );
                assert(blob2 =~= e + encode_counted(t, index_enc()) + e);
                rt_indices(e, t, e);
            }
        },
    }
}

/// The three recognised names are distinct.
pub proof fn lemma_names_differ()
    ensures
        code_name() != constant_value_name(),
        code_name() != exceptions_name(),
        constant_value_name() != exceptions_name(),
{
    reveal_strlit("Code");
    reveal_strlit("ConstantValue");
    reveal_strlit("Exceptions");
    assert(code_name().len() == 4);
    assert(constant_value_name().len() == 13);
    assert(exceptions_name().len() == 10);
}

/// What an attribute named "Code" resolves to, field by field.
pub proof fn lemma_resolve_code(pool: Seq<Option<EntryView>>, name: CPIndex, blob: Seq<u8>)
    requires
        entry_at(pool, name.0 as int) == Some(EntryView::Utf8(code_name())),
        parse_code_body(blob, 0) is Ok,
    ensures
        ({
            let body = parse_code_body(blob, 0)->Ok_0.0;
            let r = resolve_info(pool, name, blob);
            &&& r is Ok
            &&& r->Ok_0 is Code
            &&& r->Ok_0->Code_max_stack == body.max_stack
            &&& r->Ok_0->Code_max_locals == body.max_locals
            &&& r->Ok_0->Code_code == body.code
            &&& r->Ok_0->Code_exception_table == body.exception_table
            &&& r->Ok_0->Code_attributes.len() == body.attributes.len()
            &&& forall|i: int|
                0 <= i < body.attributes.len() ==> #[trigger] r->Ok_0->Code_attributes[i]
                    == resolve_attribute(pool, body.attributes[i])
        }),
{
    lemma_names_differ();
}

#[verifier::rlimit(100)]
proof fn lemma_fixpoint_code(pool: Seq<Option<EntryView>>, r: AttributeView)
    requires
        raw_valid(r),
        parse_code_body(r.info->Any_0, 0) is Ok,
        entry_at(pool, r.name_index.0 as int) == Some(EntryView::Utf8(code_name())),
        attribute_encodable(resolve_attribute(pool, r)),
    ensures
        resolve_attribute(pool, rawify(resolve_attribute(pool, r))) == resolve_attribute(pool, r),
    decreases blob_len(r), 0int,
{
    let b = r.info->Any_0;
    lemma_resolve_code(pool, r.name_index, b);
    let info = resolve_info(pool, r.name_index, b)->Ok_0;
    let body = parse_code_body(b, 0)->Ok_0.0;
    let nested = info->Code_attributes;
    assert(resolve_attribute(pool, r) == AttributeView { name_index: r.name_index, info });
    lemma_code_body_valid(b);
    assert forall|i: int| 0 <= i < nested.len() implies (#[trigger] nested[i]).name_index.0 != 0
        && attribute_encodable(nested[i]) by {
        assert(nested[i] == resolve_attribute(pool, body.attributes[i]));
    }
    let blob2 = encode_info(info);
    assert(info == InfoView::Code {
        max_stack: body.max_stack,
        max_locals: body.max_locals,
        code: body.code,
        exception_table: body.exception_table,
        attributes: nested,
    });
    rt_code_body(body.max_stack, body.max_locals, body.code, body.exception_table, nested);
    lemma_resolve_code(pool, r.name_index, blob2);
    let again = resolve_info(pool, r.name_index, blob2)->Ok_0;
    assert forall|i: int| 0 <= i < nested.len() implies #[trigger] again->Code_attributes[i]
        == nested[i] by {
        assert(nested.map_values(rawify_fn())[i] == rawify(nested[i]));
        lemma_resolve_fixpoint(pool, body.attributes[i]);
    }
    assert(again->Code_attributes =~= nested);
    assert(again == info);
}

/// A member as the structural pass reads back its encoding.
pub open spec fn raw_member(m: MemberView) -> MemberView {
    MemberView { attributes: m.attributes.map_values(rawify_fn()), ..m }
}

pub open spec fn raw_member_fn() -> spec_fn(MemberView) -> MemberView {
    |m: MemberView| raw_member(m)
}

/// A class as the structural pass reads back its encoding.
pub open spec fn raw_class(c: ClassView) -> ClassView {
    ClassView {
        fields: c.fields.map_values(raw_member_fn()),
        methods: c.methods.map_values(raw_member_fn()),
        attributes: c.attributes.map_values(rawify_fn()),
        ..c
    }
}

/// The indices and flags of a member are as decoding requires.
pub open spec fn member_valid(m: MemberView) -> bool {
    &&& flags_known(m.access_flags)
    &&& m.name_index.0 != 0
    &&& m.descriptor_index.0 != 0
    &&& forall|i: int| 0 <= i < m.attributes.len() ==> (#[trigger] m.attributes[i]).name_index.0 != 0
}

/// The indices, flags and pool layout of a class are as decoding requires.
pub open spec fn class_valid(c: ClassView) -> bool {
    &&& pool_well_formed(c.constant_pool)
    &&& pool_entries_valid(c.constant_pool)
    &&& flags_known(c.access_flags)
    &&& c.this_class.0 != 0
    &&& (c.super_class matches Some(i) ==> i.0 != 0)
    &&& forall|i: int| 0 <= i < c.interfaces.len() ==> (#[trigger] c.interfaces[i]).0 != 0
    &&& forall|i: int| 0 <= i < c.fields.len() ==> member_valid(#[trigger] c.fields[i])
    &&& forall|i: int| 0 <= i < c.methods.len() ==> member_valid(#[trigger] c.methods[i])
    &&& forall|i: int| 0 <= i < c.attributes.len() ==> (#[trigger] c.attributes[i]).name_index.0 != 0
}

pub proof fn rt_flags(pre: Seq<u8>, v: u16, rest: Seq<u8>)
    requires
        flags_known(v),
    ensures
        parse_flags(pre + u16_be(v) + rest, pre.len() as int) == Ok::<(u16, int), DecodeError>(
            (v, pre.len() as int + 2),
        ),
{
    rt_u16(pre, v, rest);
}

pub proof fn rt_member(pre: Seq<u8>, m: MemberView, rest: Seq<u8>)
    requires
        member_valid(m),
        attributes_encodable(m.attributes),
    ensures
        parse_member(pre + encode_member(m) + rest, pre.len() as int) == Ok::<(MemberView, int), DecodeError>(
            (raw_member(m), pre.len() as int + encode_member(m).len()),
        ),
{
    let s = pre + encode_member(m) + rest;
    let a = u16_be(m.access_flags);
    let ni = encode_index(m.name_index) + encode_index(m.descriptor_index);
    let f = u16_be(m.attributes.len() as u16) + encode_attributes(m.attributes);
    assert(s =~= pre + a + (ni + f + rest));
    rt_flags(pre, m.access_flags, ni + f + rest);
    assert(s =~= (pre + a) + ni + (f + rest));
    rt_index_pair(pre + a, m.name_index, m.descriptor_index, f + rest);
    assert(s =~= (pre + a + ni) + f + rest);
    rt_attributes(pre + a + ni, m.attributes, rest);
}

pub proof fn rt_members(pre: Seq<u8>, xs: Seq<MemberView>, rest: Seq<u8>)
    requires
        members_encodable(xs),
        forall|i: int| 0 <= i < xs.len() ==> member_valid(#[trigger] xs[i]),
    ensures
        parse_counted(pre + encode_counted(xs, member_enc()) + rest, pre.len() as int, member_item())
            == Ok::<(Seq<MemberView>, int), DecodeError>(
            (
                xs.map_values(raw_member_fn()),
                pre.len() as int + encode_counted(xs, member_enc()).len(),
            ),
        ),
{
    assert forall|i: int, pre2: Seq<u8>, rest2: Seq<u8>|
        0 <= i < xs.len() implies #[trigger] member_item()(
        pre2 + member_enc()(xs[i]) + rest2,
        pre2.len() as int,
    ) == Ok::<(MemberView, int), DecodeError>(
        (raw_member_fn()(xs[i]), pre2.len() as int + member_enc()(xs[i]).len()),
    ) by {
        rt_member(pre2, xs[i], rest2);
    }
    rt_counted(pre, xs, rest, member_enc(), member_item(), raw_member_fn());
}

/// The parts of a class's encoding, in order.
pub open spec fn class_parts(c: ClassView) -> Seq<Seq<u8>> {
    seq![
        u32_be(c.magic_bytes),
        u16_be(c.minor_version),
        u16_be(c.major_version),
        encode_pool(c.constant_pool),
        u16_be(c.access_flags),
        encode_index(c.this_class),
        encode_optional_index(c.super_class),
        encode_counted(c.interfaces, index_enc()),
        encode_counted(c.fields, member_enc()),
        encode_counted(c.methods, member_enc()),
        u16_be(c.attributes.len() as u16) + encode_attributes(c.attributes),
    ]
}

/// The parts from `i` on (before `j`), concatenated.
pub open spec fn join(parts: Seq<Seq<u8>>, i: int, j: int) -> Seq<u8>
    decreases j - i,
{
    if i >= j {
        Seq::empty()
    } else {
        parts[i] + join(parts, i + 1, j)
    }
}

proof fn lemma_join_split(parts: Seq<Seq<u8>>, i: int, k: int, j: int)
    requires
        i <= k <= j,
    ensures
        join(parts, i, j) == join(parts, i, k) + join(parts, k, j),
    decreases k - i,
{
    if i < k {
        lemma_join_split(parts, i + 1, k, j);
        assert(join(parts, i, j) =~= join(parts, i, k) + join(parts, k, j));
    } else {
        assert(join(parts, i, j) =~= join(parts, i, k) + join(parts, k, j));
    }
}

proof fn lemma_encode_class_parts(c: ClassView)
    ensures
        encode_class(c) == join(class_parts(c), 0, 11),
{
    let p = class_parts(c);
    assert(join(p, 11, 11) == Seq::<u8>::empty());
    assert(join(p, 10, 11) =~= p[10]);
    assert(join(p, 9, 11) == p[9] + join(p, 10, 11));
    assert(join(p, 8, 11) == p[8] + join(p, 9, 11));
    assert(join(p, 7, 11) == p[7] + join(p, 8, 11));
    assert(join(p, 6, 11) == p[6] + join(p, 7, 11));
    assert(join(p, 5, 11) == p[5] + join(p, 6, 11));
    assert(join(p, 4, 11) == p[4] + join(p, 5, 11));
    assert(join(p, 3, 11) == p[3] + join(p, 4, 11));
    assert(join(p, 2, 11) == p[2] + join(p, 3, 11));
    assert(join(p, 1, 11) == p[1] + join(p, 2, 11));
    assert(join(p, 0, 11) == p[0] + join(p, 1, 11));
    assert(join(p, 0, 11) =~= encode_class(c));
}

/// The encoding seen as the parts before `k`, part `k`, and the rest.
proof fn lemma_at_part(c: ClassView, k: int)
    requires
        0 <= k < 11,
    ensures
        encode_class(c) == join(class_parts(c), 0, k) + class_parts(c)[k] + join(
            class_parts(c),
            k + 1,
            11,
        ),
{
    let p = class_parts(c);
    lemma_encode_class_parts(c);
    lemma_join_split(p, 0, k, 11);
    assert(join(p, k, 11) == p[k] + join(p, k + 1, 11));
    assert(join(p, 0, k) + (p[k] + join(p, k + 1, 11)) =~= join(p, 0, k) + p[k] + join(
        p,
        k + 1,
        11,
    ));
}

pub open spec fn part_pos(c: ClassView, k: int) -> int {
    join(class_parts(c), 0, k).len() as int
}

proof fn lemma_part_pos(c: ClassView, k: int)
    requires
        0 <= k < 11,
    ensures
        part_pos(c, k + 1) == part_pos(c, k) + class_parts(c)[k].len(),
{
    lemma_join_split(class_parts(c), 0, k, k + 1);
    reveal_with_fuel(join, 2);
    assert(join(class_parts(c), k, k + 1) =~= class_parts(c)[k]);
}

proof fn step_u32(c: ClassView, k: int, v: u32)
    requires
        0 <= k < 11,
        class_parts(c)[k] == u32_be(v),
    ensures
        parse_u32(encode_class(c), part_pos(c, k)) == Ok::<(u32, int), DecodeError>(
            (v, part_pos(c, k + 1)),
        ),
{
    lemma_at_part(c, k);
    lemma_part_pos(c, k);
    rt_u32(join(class_parts(c), 0, k), v, join(class_parts(c), k + 1, 11));
}

proof fn step_u16(c: ClassView, k: int, v: u16)
    requires
        0 <= k < 11,
        class_parts(c)[k] == u16_be(v),
    ensures
        parse_u16(encode_class(c), part_pos(c, k)) == Ok::<(u16, int), DecodeError>(
            (v, part_pos(c, k + 1)),
        ),
{
    lemma_at_part(c, k);
    lemma_part_pos(c, k);
    rt_u16(join(class_parts(c), 0, k), v, join(class_parts(c), k + 1, 11));
}

proof fn step_pool(c: ClassView)
    requires
        pool_well_formed(c.constant_pool),
        pool_entries_valid(c.constant_pool),
        pool_encodable(c.constant_pool),
    ensures
        parse_pool(encode_class(c), part_pos(c, 3)) == Ok::<(Seq<Option<EntryView>>, int), DecodeError>(
            (c.constant_pool, part_pos(c, 4)),
        ),
{
    lemma_at_part(c, 3);
    lemma_part_pos(c, 3);
    rt_pool(join(class_parts(c), 0, 3), c.constant_pool, join(class_parts(c), 4, 11));
}

proof fn step_members(c: ClassView, k: int, xs: Seq<MemberView>)
    requires
        8 <= k <= 9,
        class_parts(c)[k] == encode_counted(xs, member_enc()),
        members_encodable(xs),
        forall|i: int| 0 <= i < xs.len() ==> member_valid(#[trigger] xs[i]),
    ensures
        parse_counted(encode_class(c), part_pos(c, k), member_item()) == Ok::<
            (Seq<MemberView>, int),
            DecodeError,
        >((xs.map_values(raw_member_fn()), part_pos(c, k + 1))),
{
    lemma_at_part(c, k);
    lemma_part_pos(c, k);
    rt_members(join(class_parts(c), 0, k), xs, join(class_parts(c), k + 1, 11));
}

proof fn step_interfaces(c: ClassView)
    requires
        c.interfaces.len() <= 0xffff,
        forall|i: int| 0 <= i < c.interfaces.len() ==> (#[trigger] c.interfaces[i]).0 != 0,
    ensures
        parse_counted(encode_class(c), part_pos(c, 7), index_item()) == Ok::<
            (Seq<CPIndex>, int),
            DecodeError,
        >((c.interfaces, part_pos(c, 8))),
{
    lemma_at_part(c, 7);
    lemma_part_pos(c, 7);
    rt_indices(join(class_parts(c), 0, 7), c.interfaces, join(class_parts(c), 8, 11));
}

proof fn step_attributes(c: ClassView)
    requires
        attributes_encodable(c.attributes),
        forall|i: int| 0 <= i < c.attributes.len() ==> (#[trigger] c.attributes[i]).name_index.0 != 0,
    ensures
        parse_counted(encode_class(c), part_pos(c, 10), attribute_item()) == Ok::<
            (Seq<AttributeView>, int),
            DecodeError,
        >((c.attributes.map_values(rawify_fn()), encode_class(c).len() as int)),
{
    let p = class_parts(c);
    lemma_at_part(c, 10);
    lemma_part_pos(c, 10);
    reveal_with_fuel(join, 2);
    assert(join(p, 11, 11) == Seq::<u8>::empty());
    rt_attributes(join(p, 0, 10), c.attributes, join(p, 11, 11));
    assert(part_pos(c, 10) + p[10].len() == encode_class(c).len()) by {
        lemma_join_split(p, 0, 10, 11);
        assert(join(p, 10, 11) =~= p[10]);
        lemma_encode_class_parts(c);
    }
}

/// A valid, encodable class decodes structurally from its encoding to its
/// opaque form.
#[verifier::rlimit(100)]
pub proof fn rt_class_raw(c: ClassView)
    requires
        class_valid(c),
        class_encodable(c),
    ensures
        parse_class_raw(encode_class(c), 0) == Ok::<(ClassView, int), DecodeError>(
            (raw_class(c), encode_class(c).len() as int),
        ),
{
    let p = class_parts(c);
    assert(part_pos(c, 0) == 0) by {
        assert(join(p, 0, 0) == Seq::<u8>::empty());
    }
    step_u32(c, 0, c.magic_bytes);
    step_u16(c, 1, c.minor_version);
    step_u16(c, 2, c.major_version);
    step_pool(c);
    step_u16(c, 4, c.access_flags);
    assert(p[5] == u16_be(c.this_class.0));
    step_u16(c, 5, c.this_class.0);
    let sup = match c.super_class {
        Some(i) => i.0,
        None => 0u16,
    };
    assert(p[6] == u16_be(sup));
    step_u16(c, 6, sup);
    step_interfaces(c);
    step_members(c, 8, c.fields);
    step_members(c, 9, c.methods);
    step_attributes(c);
}

/// A member as the structural pass produces it.
pub open spec fn member_raw_valid(m: MemberView) -> bool {
    member_valid(m) && forall|i: int| 0 <= i < m.attributes.len() ==> raw_valid(#[trigger] m.attributes[i])
}

proof fn lemma_member_raw_valid(s: Seq<u8>, p: int)
    ensures
        parse_member(s, p) matches Ok((m, _)) ==> member_raw_valid(m),
{
    if let Ok((m, _)) = parse_member(s, p) {
        let r = parse_flags(s, p)->Ok_0.1;
        let q = parse_index_pair(s, r)->Ok_0.1;
        lemma_list_all(
            s,
            q + 2,
            crate::read::parse_u16(s, q).unwrap().0 as nat,
            Seq::empty(),
            attribute_item(),
            |x: AttributeView| raw_valid(x),
        );
    }
}

proof fn lemma_slots_valid(s: Seq<u8>, p: int, count: int, slots: Seq<Option<EntryView>>)
    requires
        pool_entries_valid(slots),
    ensures
        parse_slots(s, p, count, slots) matches Ok((pool, _)) ==> pool_entries_valid(pool),
    decreases count + 2 - slots.len(),
{
    if slots.len() < count {
        if let Ok((e, q)) = parse_entry(s, p) {
            lemma_entry_valid(s, p);
            let t = add_entry(slots, e);
            assert(pool_entries_valid(t)) by {
                assert forall|i: int| 0 <= i < t.len() implies (#[trigger] t[i] matches Some(x)
                    ==> entry_valid(x)) by {
                    if i < slots.len() {
                        assert(t[i] == slots[i]);
                    }
                }
            }
            lemma_slots_valid(s, q, count, t);
        }
    }
}

/// A class as the structural pass produces it: valid, every attribute
/// opaque with a non-zero name.
pub open spec fn class_raw_valid(c: ClassView) -> bool {
    &&& class_valid(c)
    &&& forall|i: int| 0 <= i < c.fields.len() ==> member_raw_valid(#[trigger] c.fields[i])
    &&& forall|i: int| 0 <= i < c.methods.len() ==> member_raw_valid(#[trigger] c.methods[i])
    &&& forall|i: int| 0 <= i < c.attributes.len() ==> raw_valid(#[trigger] c.attributes[i])
}

#[verifier::rlimit(100)]
pub proof fn lemma_parsed_class_valid(s: Seq<u8>, p: int)
    requires
        parse_class_raw(s, p) is Ok,
    ensures
        class_raw_valid(parse_class_raw(s, p)->Ok_0.0),
{
    let c = parse_class_raw(s, p)->Ok_0.0;
    let pool_at = p + 8;
    let n = crate::read::parse_u16(s, pool_at).unwrap().0;
    let first: Seq<Option<EntryView>> = seq![None];
    assert(pool_well_formed(first));
    crate::laws::law_pool_slot_widths(s, pool_at);
    lemma_slots_valid(s, pool_at + 2, n as int, first);
    let after_pool = parse_pool(s, pool_at)->Ok_0.1;
    let interfaces_at = after_pool + 6;
    lemma_list_all(
        s,
        interfaces_at + 2,
        crate::read::parse_u16(s, interfaces_at).unwrap().0 as nat,
        Seq::empty(),
        index_item(),
        |x: CPIndex| x.0 != 0,
    );
    let fields_at = parse_counted(s, interfaces_at, index_item())->Ok_0.1;
    assert forall|s2: Seq<u8>, q2: int|
        (#[trigger] member_item()(s2, q2) matches Ok((x, _)) ==> member_raw_valid(x)) by {
        lemma_member_raw_valid(s2, q2);
    }
    lemma_list_all(
        s,
        fields_at + 2,
        crate::read::parse_u16(s, fields_at).unwrap().0 as nat,
        Seq::empty(),
        member_item(),
        |x: MemberView| member_raw_valid(x),
    );
    let methods_at = parse_counted(s, fields_at, member_item())->Ok_0.1;
    lemma_list_all(
        s,
        methods_at + 2,
        crate::read::parse_u16(s, methods_at).unwrap().0 as nat,
        Seq::empty(),
        member_item(),
        |x: MemberView| member_raw_valid(x),
    );
    let attributes_at = parse_counted(s, methods_at, member_item())->Ok_0.1;
    lemma_list_all(
        s,
        attributes_at + 2,
        crate::read::parse_u16(s, attributes_at).unwrap().0 as nat,
        Seq::empty(),
        attribute_item(),
        |x: AttributeView| raw_valid(x),
    );
}

proof fn lemma_resolve_all_fixpoint(pool: Seq<Option<EntryView>>, xs: Seq<AttributeView>)
    requires
        forall|i: int| 0 <= i < xs.len() ==> raw_valid(#[trigger] xs[i]),
        attributes_encodable(resolve_all(pool, xs)),
    ensures
        resolve_all(pool, resolve_all(pool, xs).map_values(rawify_fn())) == resolve_all(pool, xs),
{
    let ys = resolve_all(pool, xs);
    assert forall|i: int| 0 <= i < xs.len() implies #[trigger] resolve_all(
        pool,
        ys.map_values(rawify_fn()),
    )[i] == ys[i] by {
        assert(ys[i] == resolve_attribute(pool, xs[i]));
        lemma_resolve_fixpoint(pool, xs[i]);
    }
    assert(resolve_all(pool, ys.map_values(rawify_fn())) =~= ys);
}

proof fn lemma_resolve_members_fixpoint(pool: Seq<Option<EntryView>>, ms: Seq<MemberView>)
    requires
        forall|i: int| 0 <= i < ms.len() ==> member_raw_valid(#[trigger] ms[i]),
        members_encodable(ms.map_values(|m: MemberView| resolve_member(pool, m))),
    ensures
        ms.map_values(|m: MemberView| resolve_member(pool, m)).map_values(raw_member_fn()).map_values(
            |m: MemberView| resolve_member(pool, m),
        ) == ms.map_values(|m: MemberView| resolve_member(pool, m)),
{
    let rs = ms.map_values(|m: MemberView| resolve_member(pool, m));
    let again = rs.map_values(raw_member_fn()).map_values(|m: MemberView| resolve_member(pool, m));
    assert forall|i: int| 0 <= i < ms.len() implies #[trigger] again[i] == rs[i] by {
        assert(rs[i] == resolve_member(pool, ms[i]));
        assert(attributes_encodable(rs[i].attributes));
        lemma_resolve_all_fixpoint(pool, ms[i].attributes);
        assert(again[i] == resolve_member(pool, raw_member(rs[i])));
    }
    assert(again =~= rs);
}

/// A decoded class, re-encoded and decoded again, is itself.
#[verifier::rlimit(100)]
pub proof fn lemma_round_trip(s: Seq<u8>, p: int)
    requires
        parse_class_raw(s, p) is Ok,
        class_encodable(resolve_class(parse_class_raw(s, p)->Ok_0.0)),
    ensures
        ({
            let c = resolve_class(parse_class_raw(s, p)->Ok_0.0);
            parse_class_raw(encode_class(c), 0) == Ok::<(ClassView, int), DecodeError>(
                (raw_class(c), encode_class(c).len() as int),
            ) && resolve_class(raw_class(c)) == c
        }),
{
    let raw = parse_class_raw(s, p)->Ok_0.0;
    let c = resolve_class(raw);
    let pool = raw.constant_pool;
    lemma_parsed_class_valid(s, p);
    assert forall|i: int| 0 <= i < c.fields.len() implies member_valid(#[trigger] c.fields[i]) by {
        assert(c.fields[i] == resolve_member(pool, raw.fields[i]));
        assert(member_raw_valid(raw.fields[i]));
    }
    assert forall|i: int| 0 <= i < c.methods.len() implies member_valid(#[trigger] c.methods[i]) by {
        assert(c.methods[i] == resolve_member(pool, raw.methods[i]));
        assert(member_raw_valid(raw.methods[i]));
    }
    assert forall|i: int| 0 <= i < c.attributes.len() implies (#[trigger] c.attributes[i]).name_index.0
        != 0 by {
        assert(c.attributes[i] == resolve_attribute(pool, raw.attributes[i]));
    }
    assert(class_valid(c));
    rt_class_raw(c);
    lemma_resolve_members_fixpoint(pool, raw.fields);
    lemma_resolve_members_fixpoint(pool, raw.methods);
    lemma_resolve_all_fixpoint(pool, raw.attributes);
    assert(resolve_class(raw_class(c)) == c);
}

} // verus!
