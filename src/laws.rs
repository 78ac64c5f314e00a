//! Properties of the codec as a whole, proved over the spec functions that
//! the decoders' and encoders' contracts use.
use crate::class::{is_wide, pool_well_formed, AttributeView, CPIndex, EntryView};
use crate::class::ClassView;
use crate::deserialization::{
    add_entry, parse_class, parse_entry, parse_optional_index, parse_pool, parse_slots,
};
use crate::roundtrip::lemma_round_trip;
use crate::read::parse_u16;
use crate::resolve::{parse_code_body, resolve_attribute, resolve_info};
use crate::serialization::{class_encodable, encode_class, encode_optional_index};
use crate::write::{lemma_u16_be, u16_be};
use vstd::prelude::*;

verus! {

proof fn lemma_add_entry_well_formed(slots: Seq<Option<EntryView>>, e: EntryView)
    requires
        pool_well_formed(slots),
    ensures
        pool_well_formed(add_entry(slots, e)),
{
    let t = add_entry(slots, e);
    assert forall|i: int| 1 <= i < t.len() implies (#[trigger] t[i] is None <==> (t[i - 1] matches Some(x)
        && is_wide(x))) by {
        if i < slots.len() {
            assert(t[i] == slots[i] && t[i - 1] == slots[i - 1]);
        }
    }
}

proof fn lemma_slots_well_formed(s: Seq<u8>, p: int, count: int, slots: Seq<Option<EntryView>>)
    requires
        pool_well_formed(slots),
    ensures
        parse_slots(s, p, count, slots) matches Ok((pool, _)) ==> pool_well_formed(pool),
    decreases count + 2 - slots.len(),
{
    if slots.len() < count {
        if let Ok((e, q)) = parse_entry(s, p) {
            lemma_add_entry_well_formed(slots, e);
            lemma_slots_well_formed(s, q, count, add_entry(slots, e));
        }
    }
}

/// Every decoded constant pool is laid out by slot width: a Long or Double
/// at index `i` leaves index `i + 1` empty (never a key), and every other
/// entry is followed directly by the next one.
pub proof fn law_pool_slot_widths(s: Seq<u8>, p: int)
    ensures
        parse_pool(s, p) matches Ok((pool, _)) ==> pool_well_formed(pool),
{
    if let Ok((n, q)) = parse_u16(s, p) {
        let start: Seq<Option<EntryView>> = seq![None];
        assert(pool_well_formed(start));
        lemma_slots_well_formed(s, q, n as int, start);
    }
}

/// Resolution is a function of the pool and the attribute: the same
/// payload, name and pool always give the same typed shape, or the same
/// fallback to the payload as it was.
pub proof fn law_resolution_deterministic(
    pool1: Seq<Option<EntryView>>,
    pool2: Seq<Option<EntryView>>,
    a1: AttributeView,
    a2: AttributeView,
)
    requires
        pool1 == pool2,
        a1 == a2,
    ensures
        resolve_attribute(pool1, a1) == resolve_attribute(pool2, a2),
{
}

/// A "Code" payload resolves its nested attributes by the same procedure:
/// each one is what resolving the nested attribute as read gives.
pub proof fn law_code_resolves_nested(pool: Seq<Option<EntryView>>, name: CPIndex, blob: Seq<u8>)
    requires
        resolve_info(pool, name, blob) is Ok,
        resolve_info(pool, name, blob)->Ok_0 is Code,
    ensures
        parse_code_body(blob, 0) matches Ok((body, _)) && ({
            let nested = resolve_info(pool, name, blob)->Ok_0->Code_attributes;
            &&& nested.len() == body.attributes.len()
            &&& forall|i: int|
                0 <= i < nested.len() ==> #[trigger] nested[i] == resolve_attribute(
                    pool,
                    body.attributes[i],
                )
        }),
{
}

/// Index 0 read where a reference is optional is "absent", and "absent" is
/// written as 0.
pub proof fn law_absent_index(pre: Seq<u8>, rest: Seq<u8>)
    ensures
        parse_optional_index(pre + u16_be(0) + rest, pre.len() as int) == Ok::<
            (Option<CPIndex>, int),
            crate::error::DecodeError,
        >((None, pre.len() + 2int)),
        encode_optional_index(None) == seq![0u8, 0u8],
{
    lemma_u16_be(pre, 0, rest);
    assert(((0u16 >> 8u16) as u8) == 0u8 && (0u16 as u8) == 0u8) by (bit_vector);
    assert(u16_be(0) =~= seq![0u8, 0u8]);
}

/// Encoding inverts decoding: a class decoded from any bytes, whenever it
/// can be encoded, decodes from its own encoding to itself (the same pool
/// at the same indices, the same member and attribute trees, attributes
/// that stayed opaque included), consuming the whole encoding.
pub proof fn law_round_trip(s: Seq<u8>, p: int)
    requires
        parse_class(s, p) is Ok,
        class_encodable(parse_class(s, p)->Ok_0.0),
    ensures
        ({
            let c = parse_class(s, p)->Ok_0.0;
            parse_class(encode_class(c), 0) == Ok::<(ClassView, int), crate::error::DecodeError>(
                (c, encode_class(c).len() as int),
            )
        }),
{
    lemma_round_trip(s, p);
}

} // verus!
