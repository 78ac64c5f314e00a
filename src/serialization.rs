//! Encoding: the bytes each part of the tree encodes to (the `encode_*`
//! spec functions), when it can be encoded at all (the `*_encodable` ones:
//! every count and length fits its prefix), and the serializers proved to
//! produce them. Every length prefix is recomputed from the tree.
use crate::class::{
    is_wide, kind_code, views, AccessFlags, Attribute, AttributeInfo, AttributeView, CPIndex,
    ClassView, ConstantPool, ConstantPoolEntry, EntryView, ExceptionTableEntry, Field, InfoView,
    JavaClass, MemberView, Method, ReferenceKind,
};
use crate::error::EncodeError;
use crate::write::{u16_be, u32_be, u64_be, write_slice, write_u16, write_u32, write_u64, write_u8};
use vstd::prelude::*;
use vstd::utf8::encode_utf8;

verus! {

/// A write that starts from `before` and ends at `after` returned `r`: it
/// succeeds exactly when the value is `encodable`, and then appends
/// `encoding`.
pub open spec fn wrote(
    before: Seq<u8>,
    after: Seq<u8>,
    r: Result<(), EncodeError>,
    encodable: bool,
    encoding: Seq<u8>,
) -> bool {
    &&& (r is Ok <==> encodable)
    &&& (r is Ok ==> after == before + encoding)
}

pub open spec fn encode_index(i: CPIndex) -> Seq<u8> {
    u16_be(i.0)
}

pub open spec fn encode_optional_index(i: Option<CPIndex>) -> Seq<u8> {
    match i {
        Some(i) => u16_be(i.0),
        None => u16_be(0),
    }
}

pub open spec fn encode_entry(e: EntryView) -> Seq<u8> {
    match e {
        EntryView::Class { name_index } => seq![7u8] + encode_index(name_index),
        EntryView::FieldRef { class_index, name_and_type_index } => seq![9u8] + encode_index(
            class_index,
        ) + encode_index(name_and_type_index),
        EntryView::MethodRef { class_index, name_and_type_index } => seq![10u8] + encode_index(
            class_index,
        ) + encode_index(name_and_type_index),
        EntryView::InterfaceMethodRef { class_index, name_and_type_index } => seq![11u8]
            + encode_index(class_index) + encode_index(name_and_type_index),
        EntryView::String { string_index } => seq![8u8] + encode_index(string_index),
        EntryView::Integer(v) => seq![3u8] + u32_be(v as u32),
        EntryView::Float(v) => seq![4u8] + u32_be(v),
        EntryView::Long(v) => seq![5u8] + u64_be(v as u64),
        EntryView::Double(v) => seq![6u8] + u64_be(v),
        EntryView::NameAndType { name_index, descriptor_index } => seq![12u8] + encode_index(
            name_index,
        ) + encode_index(descriptor_index),
        EntryView::Utf8(t) => seq![1u8] + u16_be(encode_utf8(t).len() as u16) + encode_utf8(t),
        EntryView::MethodHandle { reference_kind, reference_index } => seq![
            15u8,
            kind_code(reference_kind),
        ] + encode_index(reference_index),
        EntryView::MethodType { descriptor_index } => seq![16u8] + encode_index(descriptor_index),
        EntryView::InvokeDynamic { bootstrap_method_attr_index, name_and_type_index } => seq![18u8]
            + u16_be(bootstrap_method_attr_index) + encode_index(name_and_type_index),
    }
}

/// Text whose UTF-8 form is longer than 65535 bytes has no encoding.
pub open spec fn entry_encodable(e: EntryView) -> bool {
    match e {
        EntryView::Utf8(t) => encode_utf8(t).len() <= 0xffff,
        _ => true,
    }
}

/// The entries in ascending index order; empty slots add nothing.
pub open spec fn encode_slots(slots: Seq<Option<EntryView>>) -> Seq<u8>
    decreases slots.len(),
{
    if slots.len() == 0 {
        Seq::empty()
    } else {
        encode_slots(slots.drop_last()) + match slots.last() {
            Some(e) => encode_entry(e),
            None => Seq::empty(),
        }
    }
}

/// The number of index slots the entries occupy.
pub open spec fn slot_width(slots: Seq<Option<EntryView>>) -> int
    decreases slots.len(),
{
    if slots.len() == 0 {
        0
    } else {
        slot_width(slots.drop_last()) + match slots.last() {
            Some(e) => if is_wide(e) {
                2int
            } else {
                1int
            },
            None => 0int,
        }
    }
}

/// The count that heads an encoded pool: the slots the entries occupy, plus
/// one for the unused index 0.
pub open spec fn pool_count(pool: Seq<Option<EntryView>>) -> int {
    slot_width(pool) + 1
}

pub open spec fn pool_encodable(pool: Seq<Option<EntryView>>) -> bool {
    &&& pool_count(pool) <= 0xffff
    &&& forall|i: int| 0 <= i < pool.len() ==> (#[trigger] pool[i] matches Some(e) ==> entry_encodable(e))
}

pub open spec fn encode_pool(pool: Seq<Option<EntryView>>) -> Seq<u8> {
    u16_be(pool_count(pool) as u16) + encode_slots(pool)
}

/// The items one after another.
pub open spec fn encode_list<T>(xs: Seq<T>, item: spec_fn(T) -> Seq<u8>) -> Seq<u8>
    decreases xs.len(),
{
    if xs.len() == 0 {
        Seq::empty()
    } else {
        encode_list(xs.drop_last(), item) + item(xs.last())
    }
}

/// A 16-bit count, then the items.
pub open spec fn encode_counted<T>(xs: Seq<T>, item: spec_fn(T) -> Seq<u8>) -> Seq<u8> {
    u16_be(xs.len() as u16) + encode_list(xs, item)
}

pub open spec fn index_enc() -> spec_fn(CPIndex) -> Seq<u8> {
    |i: CPIndex| encode_index(i)
}

pub open spec fn encode_exception_entry(x: ExceptionTableEntry) -> Seq<u8> {
    u16_be(x.start) + u16_be(x.end) + u16_be(x.handler) + encode_index(x.catch_type)
}

pub open spec fn exception_enc() -> spec_fn(ExceptionTableEntry) -> Seq<u8> {
    |x: ExceptionTableEntry| encode_exception_entry(x)
}

/// An attribute's payload: an opaque one as it stands, a typed one in the
/// layout its kind defines.
pub open spec fn encode_info(i: InfoView) -> Seq<u8>
    decreases i,
{
    match i {
        InfoView::Any(b) => b,
        InfoView::ConstantValue { index } => encode_index(index),
        InfoView::Code { max_stack, max_locals, code, exception_table, attributes } => u16_be(
            max_stack,
        ) + u16_be(max_locals) + u32_be(code.len() as u32) + code + encode_counted(
            exception_table,
            exception_enc(),
        ) + u16_be(attributes.len() as u16) + encode_attributes(attributes),
        InfoView::Exceptions { exception_index_table } => encode_counted(
            exception_index_table,
            index_enc(),
        ),
    }
}

/// Name index, payload length, payload.
pub open spec fn encode_attribute(a: AttributeView) -> Seq<u8>
    decreases a,
{
    encode_index(a.name_index) + u32_be(encode_info(a.info).len() as u32) + encode_info(a.info)
}

pub open spec fn encode_attributes(xs: Seq<AttributeView>) -> Seq<u8>
    decreases xs,
{
    if xs.len() == 0 {
        Seq::empty()
    } else {
        encode_attributes(xs.drop_last()) + encode_attribute(xs.last())
    }
}

pub open spec fn info_encodable(i: InfoView) -> bool
    decreases i,
{
    match i {
        InfoView::Code { code, exception_table, attributes, .. } => {
            &&& code.len() <= u32::MAX
            &&& exception_table.len() <= 0xffff
            &&& attributes.len() <= 0xffff
            &&& forall|j: int| 0 <= j < attributes.len() ==> attribute_encodable(#[trigger] attributes[j])
        },
        InfoView::Exceptions { exception_index_table } => exception_index_table.len() <= 0xffff,
        _ => true,
    }
}

pub open spec fn attribute_encodable(a: AttributeView) -> bool
    decreases a,
{
    info_encodable(a.info) && encode_info(a.info).len() <= u32::MAX
}

pub open spec fn attributes_encodable(xs: Seq<AttributeView>) -> bool {
    xs.len() <= 0xffff && forall|j: int| 0 <= j < xs.len() ==> attribute_encodable(#[trigger] xs[j])
}

pub open spec fn encode_member(m: MemberView) -> Seq<u8> {
    u16_be(m.access_flags) + encode_index(m.name_index) + encode_index(m.descriptor_index) + u16_be(
        m.attributes.len() as u16,
    ) + encode_attributes(m.attributes)
}

pub open spec fn member_enc() -> spec_fn(MemberView) -> Seq<u8> {
    |m: MemberView| encode_member(m)
}

pub open spec fn members_encodable(xs: Seq<MemberView>) -> bool {
    xs.len() <= 0xffff && forall|j: int|
        0 <= j < xs.len() ==> attributes_encodable(#[trigger] xs[j].attributes)
}

pub open spec fn encode_class(c: ClassView) -> Seq<u8> {
    u32_be(c.magic_bytes) + u16_be(c.minor_version) + u16_be(c.major_version) + encode_pool(
        c.constant_pool,
    ) + u16_be(c.access_flags) + encode_index(c.this_class) + encode_optional_index(c.super_class)
        + encode_counted(c.interfaces, index_enc()) + encode_counted(c.fields, member_enc())
        + encode_counted(c.methods, member_enc()) + u16_be(c.attributes.len() as u16)
        + encode_attributes(c.attributes)
}

pub open spec fn class_encodable(c: ClassView) -> bool {
    &&& pool_encodable(c.constant_pool)
    &&& c.interfaces.len() <= 0xffff
    &&& members_encodable(c.fields)
    &&& members_encodable(c.methods)
    &&& attributes_encodable(c.attributes)
}

impl CPIndex {
    pub fn serialize(&self, bytes: &mut Vec<u8>)
        ensures
            final(bytes)@ == old(bytes)@ + encode_index(*self),
    {
        write_u16(bytes, self.0);
    }
}

impl ReferenceKind {
    pub fn serialize(&self, bytes: &mut Vec<u8>)
        ensures
            final(bytes)@ == old(bytes)@ + seq![kind_code(*self)],
    {
        write_u8(bytes, self.code());
    }
}

impl AccessFlags {
    pub fn serialize(&self, bytes: &mut Vec<u8>)
        ensures
            final(bytes)@ == old(bytes)@ + u16_be(self@),
    {
        write_u16(bytes, self.bits());
    }
}

impl ExceptionTableEntry {
    pub fn serialize(&self, bytes: &mut Vec<u8>)
        ensures
            final(bytes)@ == old(bytes)@ + encode_exception_entry(*self),
    {
        write_u16(bytes, self.start);
        write_u16(bytes, self.end);
        write_u16(bytes, self.handler);
        self.catch_type.serialize(bytes);
        assert(bytes@ =~= old(bytes)@ + encode_exception_entry(*self));
    }
}

/// Writes the sentinel 0 for an absent index.
pub fn serialize_optional_index(i: Option<CPIndex>, bytes: &mut Vec<u8>)
    ensures
        final(bytes)@ == old(bytes)@ + encode_optional_index(i),
{
    match i {
        Some(i) => i.serialize(bytes),
        None => write_u16(bytes, 0),
    }
}

impl ConstantPoolEntry {
    pub fn serialize(&self, bytes: &mut Vec<u8>) -> (r: Result<(), EncodeError>)
        ensures
            wrote(old(bytes)@, final(bytes)@, r, entry_encodable(self@), encode_entry(self@)),
    {
        match self {
            ConstantPoolEntry::Class { name_index } => {
                write_u8(bytes, 7);
                name_index.serialize(bytes);
            },
            ConstantPoolEntry::FieldRef { class_index, name_and_type_index } => {
                write_u8(bytes, 9);
                class_index.serialize(bytes);
                name_and_type_index.serialize(bytes);
            },
            ConstantPoolEntry::MethodRef { class_index, name_and_type_index } => {
                write_u8(bytes, 10);
                class_index.serialize(bytes);
                name_and_type_index.serialize(bytes);
            },
            ConstantPoolEntry::InterfaceMethodRef { class_index, name_and_type_index } => {
                write_u8(bytes, 11);
                class_index.serialize(bytes);
                name_and_type_index.serialize(bytes);
            },
            ConstantPoolEntry::String { string_index } => {
                write_u8(bytes, 8);
                string_index.serialize(bytes);
            },
            ConstantPoolEntry::Integer(v) => {
                write_u8(bytes, 3);
                write_u32(bytes, *v as u32);
            },
            ConstantPoolEntry::Float(v) => {
                write_u8(bytes, 4);
                write_u32(bytes, *v);
            },
            ConstantPoolEntry::Long(v) => {
                write_u8(bytes, 5);
                write_u64(bytes, *v as u64);
            },
            ConstantPoolEntry::Double(v) => {
                write_u8(bytes, 6);
                write_u64(bytes, *v);
            },
            ConstantPoolEntry::NameAndType { name_index, descriptor_index } => {
                write_u8(bytes, 12);
                name_index.serialize(bytes);
                descriptor_index.serialize(bytes);
            },
            ConstantPoolEntry::Utf8(t) => {
                let b = t.as_str().as_bytes();
                if b.len() > 0xffff {
                    return Err(EncodeError::LengthOverflow);
                }
                write_u8(bytes, 1);
                write_u16(bytes, b.len() as u16);
                write_slice(bytes, b);
            },
            ConstantPoolEntry::MethodHandle { reference_kind, reference_index } => {
                write_u8(bytes, 15);
                reference_kind.serialize(bytes);
                reference_index.serialize(bytes);
            },
            ConstantPoolEntry::MethodType { descriptor_index } => {
                write_u8(bytes, 16);
                descriptor_index.serialize(bytes);
            },
            ConstantPoolEntry::InvokeDynamic { bootstrap_method_attr_index, name_and_type_index } => {
                write_u8(bytes, 18);
                write_u16(bytes, *bootstrap_method_attr_index);
                name_and_type_index.serialize(bytes);
            },
        }
        assert(bytes@ =~= old(bytes)@ + encode_entry(self@));
        Ok(())
    }
}

impl ConstantPool {
    /// The count that heads the encoded pool, if it fits in 16 bits.
    pub fn count(&self) -> (r: Option<u16>)
        ensures
            pool_count(self@) <= 0xffff ==> r == Some(pool_count(self@) as u16),
            pool_count(self@) > 0xffff ==> r is None,
    {
        let ghost pool = self@;
        let mut total: usize = 1;
        let mut i: usize = 0;
        while i < self.slots.len()
            invariant
                pool == self@,
                0 <= i <= pool.len(),
                total == slot_width(pool.take(i as int)) + 1,
                total <= 0xffff,
            decreases pool.len() - i,
        {
            proof {
                assert(pool.take(i + 1).drop_last() =~= pool.take(i as int));
                lemma_slot_width_grows(pool, i as int);
            }
            match &self.slots[i] {
                Some(e) => {
                    total = total + e.size() as usize;
                },
                None => {},
            }
            i = i + 1;
            if total > 0xffff {
                proof {
                    lemma_slot_width_grows(pool, pool.len() as int);
                    lemma_slot_width_monotone(pool, i as int);
                }
                return None;
            }
        }
        assert(pool.take(pool.len() as int) =~= pool);
        Some(total as u16)
    }

    /// The count, then each entry in ascending index order.
    pub fn serialize(&self, bytes: &mut Vec<u8>) -> (r: Result<(), EncodeError>)
        ensures
            wrote(old(bytes)@, final(bytes)@, r, pool_encodable(self@), encode_pool(self@)),
    {
        let count = match self.count() {
            Some(n) => n,
            None => {
                return Err(EncodeError::LengthOverflow);
            },
        };
        write_u16(bytes, count);
        let ghost pool = self@;
        let ghost start = bytes@;
        let mut i: usize = 0;
        while i < self.slots.len()
            invariant
                pool == self@,
                0 <= i <= pool.len(),
                bytes@ == start + encode_slots(pool.take(i as int)),
                forall|j: int| 0 <= j < i ==> (#[trigger] pool[j] matches Some(e) ==> entry_encodable(e)),
            decreases pool.len() - i,
        {
            proof {
                assert(pool.take(i + 1).drop_last() =~= pool.take(i as int));
            }
            match &self.slots[i] {
                Some(e) => {
                    if e.serialize(bytes).is_err() {
                        assert(pool[i as int] == Some(e@));
                        return Err(EncodeError::LengthOverflow);
                    }
                },
                None => {},
            }
            i = i + 1;
            assert(bytes@ =~= start + encode_slots(pool.take(i as int)));
        }
        assert(pool.take(pool.len() as int) =~= pool);
        assert(bytes@ =~= old(bytes)@ + encode_pool(pool));
        Ok(())
    }
}

/// The width of a prefix grows by the next slot's width.
proof fn lemma_slot_width_grows(pool: Seq<Option<EntryView>>, i: int)
    requires
        0 <= i <= pool.len(),
    ensures
        slot_width(pool.take(i)) >= 0,
        i < pool.len() ==> slot_width(pool.take(i + 1)) == slot_width(pool.take(i)) + match pool[i] {
            Some(e) => if is_wide(e) {
                2int
            } else {
                1int
            },
            None => 0int,
        },
    decreases i,
{
    if i > 0 {
        lemma_slot_width_grows(pool, i - 1);
        assert(pool.take(i).drop_last() =~= pool.take(i - 1));
    }
    if i < pool.len() {
        assert(pool.take(i + 1).drop_last() =~= pool.take(i));
    }
}

/// A longer prefix occupies at least as many slots.
proof fn lemma_slot_width_monotone(pool: Seq<Option<EntryView>>, i: int)
    requires
        0 <= i <= pool.len(),
    ensures
        slot_width(pool.take(i)) <= slot_width(pool),
    decreases pool.len() - i,
{
    if i < pool.len() {
        lemma_slot_width_grows(pool, i);
        lemma_slot_width_monotone(pool, i + 1);
    } else {
        assert(pool.take(i) =~= pool);
    }
}

/// A 16-bit count, then the indices.
pub fn serialize_indices(v: &Vec<CPIndex>, bytes: &mut Vec<u8>) -> (r: Result<(), EncodeError>)
    ensures
        wrote(old(bytes)@, final(bytes)@, r, v@.len() <= 0xffff, encode_counted(v@, index_enc())),
{
    if v.len() > 0xffff {
        return Err(EncodeError::LengthOverflow);
    }
    write_u16(bytes, v.len() as u16);
    let ghost start = bytes@;
    let mut i: usize = 0;
    while i < v.len()
        invariant
            0 <= i <= v@.len(),
            bytes@ == start + encode_list(v@.take(i as int), index_enc()),
        decreases v@.len() - i,
    {
        proof {
            assert(v@.take(i + 1).drop_last() =~= v@.take(i as int));
        }
        v[i].serialize(bytes);
        i = i + 1;
        assert(bytes@ =~= start + encode_list(v@.take(i as int), index_enc()));
    }
    assert(v@.take(v@.len() as int) =~= v@);
    assert(bytes@ =~= old(bytes)@ + encode_counted(v@, index_enc()));
    Ok(())
}

/// A 16-bit count, then the rows.
pub fn serialize_exception_table(v: &Vec<ExceptionTableEntry>, bytes: &mut Vec<u8>) -> (r: Result<
    (),
    EncodeError,
>)
    ensures
        wrote(old(bytes)@, final(bytes)@, r, v@.len() <= 0xffff, encode_counted(v@, exception_enc())),
{
    if v.len() > 0xffff {
        return Err(EncodeError::LengthOverflow);
    }
    write_u16(bytes, v.len() as u16);
    let ghost start = bytes@;
    let mut i: usize = 0;
    while i < v.len()
        invariant
            0 <= i <= v@.len(),
            bytes@ == start + encode_list(v@.take(i as int), exception_enc()),
        decreases v@.len() - i,
    {
        proof {
            assert(v@.take(i + 1).drop_last() =~= v@.take(i as int));
        }
        v[i].serialize(bytes);
        i = i + 1;
        assert(bytes@ =~= start + encode_list(v@.take(i as int), exception_enc()));
    }
    assert(v@.take(v@.len() as int) =~= v@);
    assert(bytes@ =~= old(bytes)@ + encode_counted(v@, exception_enc()));
    Ok(())
}

impl AttributeInfo {
    /// The payload's bytes, without its length.
    pub fn serialize(&self, bytes: &mut Vec<u8>) -> (r: Result<(), EncodeError>)
        ensures
            wrote(old(bytes)@, final(bytes)@, r, info_encodable(self@), encode_info(self@)),
        decreases self,
    {
        match self {
            AttributeInfo::Any(b) => {
                write_slice(bytes, b.as_slice());
                Ok(())
            },
            AttributeInfo::ConstantValue { index } => {
                index.serialize(bytes);
                Ok(())
            },
            AttributeInfo::Code { max_stack, max_locals, code, exception_table, attributes } => {
                proof {
                    assert(self@->Code_attributes =~= views(attributes@));
                }
                if code.len() > 0xffff_ffff || exception_table.len() > 0xffff || attributes.len()
                    > 0xffff {
                    return Err(EncodeError::LengthOverflow);
                }
                write_u16(bytes, *max_stack);
                write_u16(bytes, *max_locals);
                write_u32(bytes, code.len() as u32);
                write_slice(bytes, code.as_slice());
                let _ = serialize_exception_table(exception_table, bytes);
                let ghost mid = bytes@;
                let r = serialize_attributes(attributes, bytes);
                assert(r is Ok ==> bytes@ =~= old(bytes)@ + encode_info(self@));
                r
            },
            AttributeInfo::Exceptions { exception_index_table } => serialize_indices(
                exception_index_table,
                bytes,
            ),
        }
    }
}

impl Attribute {
    /// Name index, then the payload's length and bytes: the payload is
    /// written to a scratch buffer first, as its length is known only then.
    pub fn serialize(&self, bytes: &mut Vec<u8>) -> (r: Result<(), EncodeError>)
        ensures
            wrote(old(bytes)@, final(bytes)@, r, attribute_encodable(self@), encode_attribute(self@)),
        decreases self,
    {
        let mut buf: Vec<u8> = Vec::new();
        if self.info.serialize(&mut buf).is_err() {
            return Err(EncodeError::LengthOverflow);
        }
        assert(buf@ =~= encode_info(self@.info));
        if buf.len() > 0xffff_ffff {
            return Err(EncodeError::LengthOverflow);
        }
        self.name_index.serialize(bytes);
        write_u32(bytes, buf.len() as u32);
        write_slice(bytes, buf.as_slice());
        assert(bytes@ =~= old(bytes)@ + encode_attribute(self@));
        Ok(())
    }
}

/// A 16-bit count, then the attributes.
pub fn serialize_attributes(v: &Vec<Attribute>, bytes: &mut Vec<u8>) -> (r: Result<(), EncodeError>)
    ensures
        wrote(
            old(bytes)@,
            final(bytes)@,
            r,
            attributes_encodable(views(v@)),
            u16_be(v@.len() as u16) + encode_attributes(views(v@)),
        ),
    decreases v,
{
    let ghost xs = views(v@);
    if v.len() > 0xffff {
        return Err(EncodeError::LengthOverflow);
    }
    write_u16(bytes, v.len() as u16);
    let ghost start = bytes@;
    let mut i: usize = 0;
    while i < v.len()
        invariant
            xs == views(v@),
            0 <= i <= v@.len(),
            bytes@ == start + encode_attributes(xs.take(i as int)),
            forall|j: int| 0 <= j < i ==> attribute_encodable(#[trigger] xs[j]),
        decreases v@.len() - i,
    {
        proof {
            assert(xs.take(i + 1).drop_last() =~= xs.take(i as int));
        }
        if v[i].serialize(bytes).is_err() {
            assert(!attribute_encodable(xs[i as int]));
            return Err(EncodeError::LengthOverflow);
        }
        i = i + 1;
        assert(bytes@ =~= start + encode_attributes(xs.take(i as int)));
    }
    assert(xs.take(xs.len() as int) =~= xs);
    assert(bytes@ =~= old(bytes)@ + (u16_be(v@.len() as u16) + encode_attributes(xs)));
    Ok(())
}

impl Field {
    pub fn serialize(&self, bytes: &mut Vec<u8>) -> (r: Result<(), EncodeError>)
        ensures
            wrote(
                old(bytes)@,
                final(bytes)@,
                r,
                attributes_encodable(self@.attributes),
                encode_member(self@),
            ),
    {
        self.access_flags.serialize(bytes);
        self.name_index.serialize(bytes);
        self.descriptor_index.serialize(bytes);
        let r = serialize_attributes(&self.attributes, bytes);
        assert(r is Ok ==> bytes@ =~= old(bytes)@ + encode_member(self@));
        r
    }
}

impl Method {
    pub fn serialize(&self, bytes: &mut Vec<u8>) -> (r: Result<(), EncodeError>)
        ensures
            wrote(
                old(bytes)@,
                final(bytes)@,
                r,
                attributes_encodable(self@.attributes),
                encode_member(self@),
            ),
    {
        self.access_flags.serialize(bytes);
        self.name_index.serialize(bytes);
        self.descriptor_index.serialize(bytes);
        let r = serialize_attributes(&self.attributes, bytes);
        assert(r is Ok ==> bytes@ =~= old(bytes)@ + encode_member(self@));
        r
    }
}

/// A 16-bit count, then the fields.
pub fn serialize_fields(v: &Vec<Field>, bytes: &mut Vec<u8>) -> (r: Result<(), EncodeError>)
    ensures
        wrote(
            old(bytes)@,
            final(bytes)@,
            r,
            members_encodable(views(v@)),
            encode_counted(views(v@), member_enc()),
        ),
{
    let ghost xs = views(v@);
    if v.len() > 0xffff {
        return Err(EncodeError::LengthOverflow);
    }
    write_u16(bytes, v.len() as u16);
    let ghost start = bytes@;
    let mut i: usize = 0;
    while i < v.len()
        invariant
            xs == views(v@),
            0 <= i <= v@.len(),
            bytes@ == start + encode_list(xs.take(i as int), member_enc()),
            forall|j: int| 0 <= j < i ==> attributes_encodable(#[trigger] xs[j].attributes),
        decreases v@.len() - i,
    {
        proof {
            assert(xs.take(i + 1).drop_last() =~= xs.take(i as int));
        }
        if v[i].serialize(bytes).is_err() {
            assert(!attributes_encodable(xs[i as int].attributes));
            return Err(EncodeError::LengthOverflow);
        }
        i = i + 1;
        assert(bytes@ =~= start + encode_list(xs.take(i as int), member_enc()));
    }
    assert(xs.take(xs.len() as int) =~= xs);
    assert(bytes@ =~= old(bytes)@ + encode_counted(xs, member_enc()));
    Ok(())
}

/// A 16-bit count, then the methods.
pub fn serialize_methods(v: &Vec<Method>, bytes: &mut Vec<u8>) -> (r: Result<(), EncodeError>)
    ensures
        wrote(
            old(bytes)@,
            final(bytes)@,
            r,
            members_encodable(views(v@)),
            encode_counted(views(v@), member_enc()),
        ),
{
    let ghost xs = views(v@);
    if v.len() > 0xffff {
        return Err(EncodeError::LengthOverflow);
    }
    write_u16(bytes, v.len() as u16);
    let ghost start = bytes@;
    let mut i: usize = 0;
    while i < v.len()
        invariant
            xs == views(v@),
            0 <= i <= v@.len(),
            bytes@ == start + encode_list(xs.take(i as int), member_enc()),
            forall|j: int| 0 <= j < i ==> attributes_encodable(#[trigger] xs[j].attributes),
        decreases v@.len() - i,
    {
        proof {
            assert(xs.take(i + 1).drop_last() =~= xs.take(i as int));
        }
        if v[i].serialize(bytes).is_err() {
            assert(!attributes_encodable(xs[i as int].attributes));
            return Err(EncodeError::LengthOverflow);
        }
        i = i + 1;
        assert(bytes@ =~= start + encode_list(xs.take(i as int), member_enc()));
    }
    assert(xs.take(xs.len() as int) =~= xs);
    assert(bytes@ =~= old(bytes)@ + encode_counted(xs, member_enc()));
    Ok(())
}

impl JavaClass {
    /// Appends the class's encoding; fails, with the buffer's contents
    /// unspecified, where a count or a length does not fit its prefix.
    pub fn serialize(&self, bytes: &mut Vec<u8>) -> (r: Result<(), EncodeError>)
        ensures
            wrote(old(bytes)@, final(bytes)@, r, class_encodable(self@), encode_class(self@)),
    {
        write_u32(bytes, self.magic_bytes);
        write_u16(bytes, self.minor_version);
        write_u16(bytes, self.major_version);
        self.constant_pool.serialize(bytes)?;
        self.access_flags.serialize(bytes);
        self.this_class.serialize(bytes);
        serialize_optional_index(self.super_class, bytes);
        serialize_indices(&self.interfaces, bytes)?;
        serialize_fields(&self.fields, bytes)?;
        serialize_methods(&self.methods, bytes)?;
        serialize_attributes(&self.attributes, bytes)?;
        assert(bytes@ =~= old(bytes)@ + encode_class(self@));
        Ok(())
    }

    /// The class's encoding, where it has one.
    pub fn to_bytes(&self) -> (r: Result<Vec<u8>, EncodeError>)
        ensures
            r is Ok <==> class_encodable(self@),
            r matches Ok(b) ==> b@ == encode_class(self@),
    {
        let mut bytes: Vec<u8> = Vec::new();
        match self.serialize(&mut bytes) {
            Ok(()) => {
                assert(bytes@ =~= encode_class(self@));
                Ok(bytes)
            },
            Err(e) => Err(e),
        }
    }
}

} // verus!
