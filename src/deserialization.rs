//! Decoding: what each part of a class file decodes to (the `parse_*` spec
//! functions, over a byte sequence and a position) and the decoders that
//! are proved to compute it.
use crate::class::{
    flags_known, is_wide, kind_of, pool_well_formed, slots_view, views, AccessFlags, Attribute, AttributeInfo,
    AttributeView, CPIndex, ConstantPool, ConstantPoolEntry, EntryView, ExceptionTableEntry, Field,
    ClassView, InfoView, JavaClass, MemberView, Method, ReferenceKind,
};
use crate::error::DecodeError;
use crate::resolve::resolve_attribute;
use crate::read::{
    parse_bytes, parse_i32, parse_i64, parse_u16, parse_u32, parse_u64, parse_u8, read_as,
    read_bytes, read_i32, read_i64, read_u16, read_u32, read_u64, read_u8, Cursor,
};
use vstd::prelude::*;
use vstd::utf8::{decode_utf8, valid_utf8};

verus! {

/// The text that `String::from_utf8_lossy` makes of bytes that are not
/// valid UTF-8 (each invalid sequence becomes U+FFFD).
pub uninterp spec fn lossy_utf8(b: Seq<u8>) -> Seq<char>;

/// Text decoded permissively: valid UTF-8 as the text it encodes, anything
/// else as `String::from_utf8_lossy` repairs it.
pub open spec fn text_of(b: Seq<u8>) -> Seq<char> {
    if valid_utf8(b) {
        decode_utf8(b)
    } else {
        lossy_utf8(b)
    }
}

/// Relies on `String::from_utf8_lossy`: valid UTF-8 comes back as the text
/// it encodes; the repair of other input depends on the bytes alone.
#[verifier::external_body]
fn utf8_lossy(b: &[u8]) -> (r: String)
    ensures
        valid_utf8(b@) ==> r@ == decode_utf8(b@),
        !valid_utf8(b@) ==> r@ == lossy_utf8(b@),
{
    String::from_utf8_lossy(b).into_owned()
}

/// A read from `before` left the cursor at `after` and returned the values
/// `r`, whose models are as `expected` says.
pub open spec fn read_seq_as<T: View>(
    before: Cursor,
    after: Cursor,
    r: Result<Vec<T>, DecodeError>,
    expected: Result<(Seq<T::V>, int), DecodeError>,
) -> bool {
    &&& after.data@ == before.data@
    &&& match expected {
        Ok((v, q)) => r matches Ok(x) && views(x@) == v && after.pos == q,
        Err(e) => r == Err::<Vec<T>, DecodeError>(e),
    }
}

pub open spec fn parse_index(s: Seq<u8>, p: int) -> Result<(CPIndex, int), DecodeError> {
    match parse_u16(s, p) {
        Ok((v, q)) => if v == 0 {
            Err(DecodeError::ZeroIndex)
        } else {
            Ok((CPIndex(v), q))
        },
        Err(e) => Err(e),
    }
}

/// An index where 0 means "absent" (the super class).
pub open spec fn parse_optional_index(s: Seq<u8>, p: int) -> Result<
    (Option<CPIndex>, int),
    DecodeError,
> {
    match parse_u16(s, p) {
        Ok((v, q)) => Ok(
            (
                if v == 0 {
                    None
                } else {
                    Some(CPIndex(v))
                },
                q,
            ),
        ),
        Err(e) => Err(e),
    }
}

pub open spec fn parse_index_pair(s: Seq<u8>, p: int) -> Result<((CPIndex, CPIndex), int), DecodeError> {
    match parse_index(s, p) {
        Ok((a, q)) => match parse_index(s, q) {
            Ok((b, r)) => Ok(((a, b), r)),
            Err(e) => Err(e),
        },
        Err(e) => Err(e),
    }
}

pub open spec fn parse_kind(s: Seq<u8>, p: int) -> Result<(ReferenceKind, int), DecodeError> {
    match parse_u8(s, p) {
        Ok((b, q)) => match kind_of(b) {
            Some(k) => Ok((k, q)),
            None => Err(DecodeError::UnknownReferenceKind(b)),
        },
        Err(e) => Err(e),
    }
}

pub open spec fn parse_utf8_body(s: Seq<u8>, p: int) -> Result<(Seq<char>, int), DecodeError> {
    match parse_u16(s, p) {
        Ok((n, q)) => match parse_bytes(s, q, n as int) {
            Ok((b, r)) => Ok((text_of(b), r)),
            Err(e) => Err(e),
        },
        Err(e) => Err(e),
    }
}

/// The body of a constant-pool entry whose tag byte is `tag`.
pub open spec fn parse_entry_body(s: Seq<u8>, p: int, tag: u8) -> Result<(EntryView, int), DecodeError> {
    if tag == 7 {
        match parse_index(s, p) {
            Ok((i, q)) => Ok((EntryView::Class { name_index: i }, q)),
            Err(e) => Err(e),
        }
    } else if tag == 9 {
        match parse_index_pair(s, p) {
            Ok(((a, b), q)) => Ok((EntryView::FieldRef { class_index: a, name_and_type_index: b }, q)),
            Err(e) => Err(e),
        }
    } else if tag == 10 {
        match parse_index_pair(s, p) {
            Ok(((a, b), q)) => Ok((EntryView::MethodRef { class_index: a, name_and_type_index: b }, q)),
            Err(e) => Err(e),
        }
    } else if tag == 11 {
        match parse_index_pair(s, p) {
            Ok(((a, b), q)) => Ok(
                (EntryView::InterfaceMethodRef { class_index: a, name_and_type_index: b }, q),
            ),
            Err(e) => Err(e),
        }
    } else if tag == 8 {
        match parse_index(s, p) {
            Ok((i, q)) => Ok((EntryView::String { string_index: i }, q)),
            Err(e) => Err(e),
        }
    } else if tag == 3 {
        match parse_i32(s, p) {
            Ok((v, q)) => Ok((EntryView::Integer(v), q)),
            Err(e) => Err(e),
        }
    } else if tag == 4 {
        match parse_u32(s, p) {
            Ok((v, q)) => Ok((EntryView::Float(v), q)),
            Err(e) => Err(e),
        }
    } else if tag == 5 {
        match parse_i64(s, p) {
            Ok((v, q)) => Ok((EntryView::Long(v), q)),
            Err(e) => Err(e),
        }
    } else if tag == 6 {
        match parse_u64(s, p) {
            Ok((v, q)) => Ok((EntryView::Double(v), q)),
            Err(e) => Err(e),
        }
    } else if tag == 12 {
        match parse_index_pair(s, p) {
            Ok(((a, b), q)) => Ok((EntryView::NameAndType { name_index: a, descriptor_index: b }, q)),
            Err(e) => Err(e),
        }
    } else if tag == 1 {
        match parse_utf8_body(s, p) {
            Ok((t, q)) => Ok((EntryView::Utf8(t), q)),
            Err(e) => Err(e),
        }
    } else if tag == 15 {
        match parse_kind(s, p) {
            Ok((k, q)) => match parse_index(s, q) {
                Ok((i, r)) => Ok(
                    (EntryView::MethodHandle { reference_kind: k, reference_index: i }, r),
                ),
                Err(e) => Err(e),
            },
            Err(e) => Err(e),
        }
    } else if tag == 16 {
        match parse_index(s, p) {
            Ok((i, q)) => Ok((EntryView::MethodType { descriptor_index: i }, q)),
            Err(e) => Err(e),
        }
    } else if tag == 18 {
        match parse_u16(s, p) {
            Ok((b, q)) => match parse_index(s, q) {
                Ok((i, r)) => Ok(
                    (EntryView::InvokeDynamic { bootstrap_method_attr_index: b, name_and_type_index: i }, r),
                ),
                Err(e) => Err(e),
            },
            Err(e) => Err(e),
        }
    } else {
        Err(DecodeError::UnknownTag(tag))
    }
}

pub open spec fn parse_entry(s: Seq<u8>, p: int) -> Result<(EntryView, int), DecodeError> {
    match parse_u8(s, p) {
        Ok((tag, q)) => parse_entry_body(s, q, tag),
        Err(e) => Err(e),
    }
}

/// The slots after `e` is placed at the next free index: a Long or a Double
/// also takes the index after it, which stays empty.
pub open spec fn add_entry(slots: Seq<Option<EntryView>>, e: EntryView) -> Seq<Option<EntryView>> {
    if is_wide(e) {
        slots.push(Some(e)).push(None)
    } else {
        slots.push(Some(e))
    }
}

/// Entries are read while the next free index is below `count`.
pub open spec fn parse_slots(
    s: Seq<u8>,
    p: int,
    count: int,
    slots: Seq<Option<EntryView>>,
) -> Result<(Seq<Option<EntryView>>, int), DecodeError>
    decreases count + 2 - slots.len(),
{
    if slots.len() >= count {
        Ok((slots, p))
    } else {
        match parse_entry(s, p) {
            Ok((e, q)) => {
                proof {
                    assert(slots.len() < add_entry(slots, e).len() <= slots.len() + 2);
                }
                parse_slots(s, q, count, add_entry(slots, e))
            },
            Err(e) => Err(e),
        }
    }
}

/// A 16-bit count, then the entries from index 1 on.
pub open spec fn parse_pool(s: Seq<u8>, p: int) -> Result<(Seq<Option<EntryView>>, int), DecodeError> {
    match parse_u16(s, p) {
        Ok((n, q)) => parse_slots(s, q, n as int, seq![None]),
        Err(e) => Err(e),
    }
}

pub open spec fn parse_flags(s: Seq<u8>, p: int) -> Result<(u16, int), DecodeError> {
    match parse_u16(s, p) {
        Ok((v, q)) => if flags_known(v) {
            Ok((v, q))
        } else {
            Err(DecodeError::InvalidAccessFlags(v))
        },
        Err(e) => Err(e),
    }
}

/// `n` items one after another, appended to `acc`.
pub open spec fn parse_list<T>(
    s: Seq<u8>,
    p: int,
    n: nat,
    acc: Seq<T>,
    item: spec_fn(Seq<u8>, int) -> Result<(T, int), DecodeError>,
) -> Result<(Seq<T>, int), DecodeError>
    decreases n,
{
    if n == 0 {
        Ok((acc, p))
    } else {
        match item(s, p) {
            Ok((x, q)) => parse_list(s, q, (n - 1) as nat, acc.push(x), item),
            Err(e) => Err(e),
        }
    }
}

/// A 16-bit count, then that many items.
pub open spec fn parse_counted<T>(
    s: Seq<u8>,
    p: int,
    item: spec_fn(Seq<u8>, int) -> Result<(T, int), DecodeError>,
) -> Result<(Seq<T>, int), DecodeError> {
    match parse_u16(s, p) {
        Ok((n, q)) => parse_list(s, q, n as nat, Seq::empty(), item),
        Err(e) => Err(e),
    }
}

pub open spec fn index_item() -> spec_fn(Seq<u8>, int) -> Result<(CPIndex, int), DecodeError> {
    |s: Seq<u8>, p: int| parse_index(s, p)
}

/// A 32-bit length, then that many bytes, kept opaque.
pub open spec fn parse_raw_info(s: Seq<u8>, p: int) -> Result<(InfoView, int), DecodeError> {
    match parse_u32(s, p) {
        Ok((n, q)) => match parse_bytes(s, q, n as int) {
            Ok((b, r)) => Ok((InfoView::Any(b), r)),
            Err(e) => Err(e),
        },
        Err(e) => Err(e),
    }
}

/// An attribute as the structural pass reads it: its payload left opaque.
pub open spec fn parse_attribute(s: Seq<u8>, p: int) -> Result<(AttributeView, int), DecodeError> {
    match parse_index(s, p) {
        Ok((name, q)) => match parse_raw_info(s, q) {
            Ok((info, r)) => Ok((AttributeView { name_index: name, info }, r)),
            Err(e) => Err(e),
        },
        Err(e) => Err(e),
    }
}

pub open spec fn attribute_item() -> spec_fn(Seq<u8>, int) -> Result<(AttributeView, int), DecodeError> {
    |s: Seq<u8>, p: int| parse_attribute(s, p)
}

pub open spec fn parse_member(s: Seq<u8>, p: int) -> Result<(MemberView, int), DecodeError> {
    match parse_flags(s, p) {
        Ok((flags, q)) => match parse_index_pair(s, q) {
            Ok(((name, descriptor), r)) => match parse_counted(s, r, attribute_item()) {
                Ok((attributes, t)) => Ok(
                    (
                        MemberView {
                            access_flags: flags,
                            name_index: name,
                            descriptor_index: descriptor,
                            attributes,
                        },
                        t,
                    ),
                ),
                Err(e) => Err(e),
            },
            Err(e) => Err(e),
        },
        Err(e) => Err(e),
    }
}

pub open spec fn member_item() -> spec_fn(Seq<u8>, int) -> Result<(MemberView, int), DecodeError> {
    |s: Seq<u8>, p: int| parse_member(s, p)
}

pub open spec fn parse_exception_entry(s: Seq<u8>, p: int) -> Result<(ExceptionTableEntry, int), DecodeError> {
    match parse_u16(s, p) {
        Ok((start, q)) => match parse_u16(s, q) {
            Ok((end, r)) => match parse_u16(s, r) {
                Ok((handler, t)) => match parse_index(s, t) {
                    Ok((catch_type, u)) => Ok(
                        (ExceptionTableEntry { start, end, handler, catch_type }, u),
                    ),
                    Err(e) => Err(e),
                },
                Err(e) => Err(e),
            },
            Err(e) => Err(e),
        },
        Err(e) => Err(e),
    }
}

pub open spec fn exception_item() -> spec_fn(Seq<u8>, int) -> Result<(ExceptionTableEntry, int), DecodeError> {
    |s: Seq<u8>, p: int| parse_exception_entry(s, p)
}

impl CPIndex {
    pub fn deserialize(bytes: &mut Cursor) -> (r: Result<CPIndex, DecodeError>)
        ensures
            read_as(*old(bytes), *final(bytes), r, parse_index(old(bytes).data@, old(bytes).pos as int)),
    {
        let v = read_u16(bytes)?;
        match CPIndex::try_from(v) {
            Ok(i) => Ok(i),
            Err(_) => Err(DecodeError::ZeroIndex),
        }
    }
}

impl View for CPIndex {
    type V = CPIndex;

    open spec fn view(&self) -> CPIndex {
        *self
    }
}

impl View for ExceptionTableEntry {
    type V = ExceptionTableEntry;

    open spec fn view(&self) -> ExceptionTableEntry {
        *self
    }
}

impl View for ReferenceKind {
    type V = ReferenceKind;

    open spec fn view(&self) -> ReferenceKind {
        *self
    }
}

impl ReferenceKind {
    pub fn deserialize(bytes: &mut Cursor) -> (r: Result<ReferenceKind, DecodeError>)
        ensures
            read_as(*old(bytes), *final(bytes), r, parse_kind(old(bytes).data@, old(bytes).pos as int)),
    {
        let b = read_u8(bytes)?;
        match ReferenceKind::try_from(b) {
            Ok(k) => Ok(k),
            Err(_) => Err(DecodeError::UnknownReferenceKind(b)),
        }
    }
}

fn read_index_pair(bytes: &mut Cursor) -> (r: Result<(CPIndex, CPIndex), DecodeError>)
    ensures
        read_as(*old(bytes), *final(bytes), r, parse_index_pair(old(bytes).data@, old(bytes).pos as int)),
{
    let a = CPIndex::deserialize(bytes)?;
    let b = CPIndex::deserialize(bytes)?;
    Ok((a, b))
}

fn read_utf8_body(bytes: &mut Cursor) -> (r: Result<String, DecodeError>)
    ensures
        read_as(*old(bytes), *final(bytes), r, parse_utf8_body(old(bytes).data@, old(bytes).pos as int)),
{
    let n = read_u16(bytes)?;
    let b = read_bytes(bytes, n as usize)?;
    Ok(utf8_lossy(b.as_slice()))
}

impl ConstantPoolEntry {
    pub fn deserialize(bytes: &mut Cursor) -> (r: Result<ConstantPoolEntry, DecodeError>)
        ensures
            read_as(*old(bytes), *final(bytes), r, parse_entry(old(bytes).data@, old(bytes).pos as int)),
    {
        let tag = read_u8(bytes)?;
        match tag {
            7 => {
                let name_index = CPIndex::deserialize(bytes)?;
                Ok(ConstantPoolEntry::Class { name_index })
            },
            9 => {
                let (class_index, name_and_type_index) = read_index_pair(bytes)?;
                Ok(ConstantPoolEntry::FieldRef { class_index, name_and_type_index })
            },
            10 => {
                let (class_index, name_and_type_index) = read_index_pair(bytes)?;
                Ok(ConstantPoolEntry::MethodRef { class_index, name_and_type_index })
            },
            11 => {
                let (class_index, name_and_type_index) = read_index_pair(bytes)?;
                Ok(ConstantPoolEntry::InterfaceMethodRef { class_index, name_and_type_index })
            },
            8 => {
                let string_index = CPIndex::deserialize(bytes)?;
                Ok(ConstantPoolEntry::String { string_index })
            },
            3 => Ok(ConstantPoolEntry::Integer(read_i32(bytes)?)),
            4 => Ok(ConstantPoolEntry::Float(read_u32(bytes)?)),
            5 => Ok(ConstantPoolEntry::Long(read_i64(bytes)?)),
            6 => Ok(ConstantPoolEntry::Double(read_u64(bytes)?)),
            12 => {
                let (name_index, descriptor_index) = read_index_pair(bytes)?;
                Ok(ConstantPoolEntry::NameAndType { name_index, descriptor_index })
            },
            1 => Ok(ConstantPoolEntry::Utf8(read_utf8_body(bytes)?)),
            15 => {
                let reference_kind = ReferenceKind::deserialize(bytes)?;
                let reference_index = CPIndex::deserialize(bytes)?;
                Ok(ConstantPoolEntry::MethodHandle { reference_kind, reference_index })
            },
            16 => {
                let descriptor_index = CPIndex::deserialize(bytes)?;
                Ok(ConstantPoolEntry::MethodType { descriptor_index })
            },
            18 => {
                let bootstrap_method_attr_index = read_u16(bytes)?;
                let name_and_type_index = CPIndex::deserialize(bytes)?;
                Ok(ConstantPoolEntry::InvokeDynamic { bootstrap_method_attr_index, name_and_type_index })
            },
            _ => Err(DecodeError::UnknownTag(tag)),
        }
    }
}

impl ConstantPool {
    pub fn deserialize(bytes: &mut Cursor) -> (r: Result<ConstantPool, DecodeError>)
        ensures
            read_as(*old(bytes), *final(bytes), r, parse_pool(old(bytes).data@, old(bytes).pos as int)),
            r matches Ok(pool) ==> pool_well_formed(pool@),
    {
        let ghost s = bytes.data@;
        let ghost goal = parse_pool(s, bytes.pos as int);
        proof {
            crate::laws::law_pool_slot_widths(s, bytes.pos as int);
        }
        let count = read_u16(bytes)?;
        let mut slots: Vec<Option<ConstantPoolEntry>> = Vec::new();
        slots.push(None);
        proof {
            assert(slots_view(slots@) =~= seq![None]);
        }
        let mut index: usize = 1;
        while index < count as usize
            invariant
                bytes.data@ == s,
                s == old(bytes).data@,
                goal == parse_pool(s, old(bytes).pos as int),
                index == slots@.len(),
                1 <= index <= count as int + 2,
                goal == parse_slots(s, bytes.pos as int, count as int, slots_view(slots@)),
            decreases count as int + 2 - index,
        {
            let entry = ConstantPoolEntry::deserialize(bytes)?;
            let ghost e = entry@;
            let size = entry.size();
            let ghost before = slots@;
            slots.push(Some(entry));
            if size == 2 {
                slots.push(None);
            }
            proof {
                assert(slots_view(slots@) =~= add_entry(slots_view(before), e));
            }
            index = index + size as usize;
        }
        Ok(ConstantPool { slots })
    }
}

impl AccessFlags {
    pub fn deserialize(bytes: &mut Cursor) -> (r: Result<AccessFlags, DecodeError>)
        ensures
            read_as(*old(bytes), *final(bytes), r, parse_flags(old(bytes).data@, old(bytes).pos as int)),
    {
        let v = read_u16(bytes)?;
        match AccessFlags::from_bits(v) {
            Some(f) => Ok(f),
            None => Err(DecodeError::InvalidAccessFlags(v)),
        }
    }
}

impl AttributeInfo {
    /// Reads a payload as the structural pass does: length, then bytes, kept
    /// opaque until resolution.
    pub fn deserialize(bytes: &mut Cursor) -> (r: Result<AttributeInfo, DecodeError>)
        ensures
            read_as(*old(bytes), *final(bytes), r, parse_raw_info(old(bytes).data@, old(bytes).pos as int)),
    {
        let n = read_u32(bytes)?;
        let b = read_bytes(bytes, n as usize)?;
        Ok(AttributeInfo::Any(b))
    }
}

impl Attribute {
    pub fn deserialize(bytes: &mut Cursor) -> (r: Result<Attribute, DecodeError>)
        ensures
            read_as(*old(bytes), *final(bytes), r, parse_attribute(old(bytes).data@, old(bytes).pos as int)),
    {
        let name_index = CPIndex::deserialize(bytes)?;
        let info = AttributeInfo::deserialize(bytes)?;
        Ok(Attribute { name_index, info })
    }
}

/// A 16-bit count, then that many attributes, each left unresolved.
pub fn deserialize_attributes(bytes: &mut Cursor) -> (r: Result<Vec<Attribute>, DecodeError>)
    ensures
        read_seq_as(
            *old(bytes),
            *final(bytes),
            r,
            parse_counted(old(bytes).data@, old(bytes).pos as int, attribute_item()),
        ),
{
    let ghost s = bytes.data@;
    let ghost goal = parse_counted(s, bytes.pos as int, attribute_item());
    let count = read_u16(bytes)?;
    let mut out: Vec<Attribute> = Vec::new();
    proof {
        assert(views(out@) =~= Seq::<AttributeView>::empty());
    }
    let mut i: u16 = 0;
    while i < count
        invariant
            bytes.data@ == s,
            s == old(bytes).data@,
            goal == parse_counted(s, old(bytes).pos as int, attribute_item()),
            i <= count,
            goal == parse_list(s, bytes.pos as int, (count - i) as nat, views(out@), attribute_item()),
        decreases count - i,
    {
        let a = Attribute::deserialize(bytes)?;
        proof {
            assert(views(out@.push(a)) =~= views(out@).push(a@));
        }
        out.push(a);
        i = i + 1;
    }
    Ok(out)
}

/// A 16-bit count, then that many non-zero constant-pool indices.
pub fn deserialize_indices(bytes: &mut Cursor) -> (r: Result<Vec<CPIndex>, DecodeError>)
    ensures
        read_as(
            *old(bytes),
            *final(bytes),
            r,
            parse_counted(old(bytes).data@, old(bytes).pos as int, index_item()),
        ),
{
    let ghost s = bytes.data@;
    let ghost goal = parse_counted(s, bytes.pos as int, index_item());
    let count = read_u16(bytes)?;
    let mut out: Vec<CPIndex> = Vec::new();
    let mut i: u16 = 0;
    while i < count
        invariant
            bytes.data@ == s,
            s == old(bytes).data@,
            goal == parse_counted(s, old(bytes).pos as int, index_item()),
            i <= count,
            goal == parse_list(s, bytes.pos as int, (count - i) as nat, out@, index_item()),
        decreases count - i,
    {
        let a = CPIndex::deserialize(bytes)?;
        out.push(a);
        i = i + 1;
    }
    Ok(out)
}

impl ExceptionTableEntry {
    pub fn deserialize(bytes: &mut Cursor) -> (r: Result<ExceptionTableEntry, DecodeError>)
        ensures
            read_as(
                *old(bytes),
                *final(bytes),
                r,
                parse_exception_entry(old(bytes).data@, old(bytes).pos as int),
            ),
    {
        let start = read_u16(bytes)?;
        let end = read_u16(bytes)?;
        let handler = read_u16(bytes)?;
        let catch_type = CPIndex::deserialize(bytes)?;
        Ok(ExceptionTableEntry { start, end, handler, catch_type })
    }
}

/// A 16-bit count, then that many exception-table rows.
pub fn deserialize_exception_table(bytes: &mut Cursor) -> (r: Result<
    Vec<ExceptionTableEntry>,
    DecodeError,
>)
    ensures
        read_as(
            *old(bytes),
            *final(bytes),
            r,
            parse_counted(old(bytes).data@, old(bytes).pos as int, exception_item()),
        ),
{
    let ghost s = bytes.data@;
    let ghost goal = parse_counted(s, bytes.pos as int, exception_item());
    let count = read_u16(bytes)?;
    let mut out: Vec<ExceptionTableEntry> = Vec::new();
    let mut i: u16 = 0;
    while i < count
        invariant
            bytes.data@ == s,
            s == old(bytes).data@,
            goal == parse_counted(s, old(bytes).pos as int, exception_item()),
            i <= count,
            goal == parse_list(s, bytes.pos as int, (count - i) as nat, out@, exception_item()),
        decreases count - i,
    {
        let a = ExceptionTableEntry::deserialize(bytes)?;
        out.push(a);
        i = i + 1;
    }
    Ok(out)
}

impl Field {
    pub fn deserialize(bytes: &mut Cursor) -> (r: Result<Field, DecodeError>)
        ensures
            read_as(*old(bytes), *final(bytes), r, parse_member(old(bytes).data@, old(bytes).pos as int)),
    {
        let access_flags = AccessFlags::deserialize(bytes)?;
        let (name_index, descriptor_index) = read_index_pair(bytes)?;
        let attributes = deserialize_attributes(bytes)?;
        Ok(Field { access_flags, name_index, descriptor_index, attributes })
    }
}

impl Method {
    pub fn deserialize(bytes: &mut Cursor) -> (r: Result<Method, DecodeError>)
        ensures
            read_as(*old(bytes), *final(bytes), r, parse_member(old(bytes).data@, old(bytes).pos as int)),
    {
        let access_flags = AccessFlags::deserialize(bytes)?;
        let (name_index, descriptor_index) = read_index_pair(bytes)?;
        let attributes = deserialize_attributes(bytes)?;
        Ok(Method { access_flags, name_index, descriptor_index, attributes })
    }
}

/// A 16-bit count, then that many fields.
pub fn deserialize_fields(bytes: &mut Cursor) -> (r: Result<Vec<Field>, DecodeError>)
    ensures
        read_seq_as(
            *old(bytes),
            *final(bytes),
            r,
            parse_counted(old(bytes).data@, old(bytes).pos as int, member_item()),
        ),
{
    let ghost s = bytes.data@;
    let ghost goal = parse_counted(s, bytes.pos as int, member_item());
    let count = read_u16(bytes)?;
    let mut out: Vec<Field> = Vec::new();
    proof {
        assert(views(out@) =~= Seq::<MemberView>::empty());
    }
    let mut i: u16 = 0;
    while i < count
        invariant
            bytes.data@ == s,
            s == old(bytes).data@,
            goal == parse_counted(s, old(bytes).pos as int, member_item()),
            i <= count,
            goal == parse_list(s, bytes.pos as int, (count - i) as nat, views(out@), member_item()),
        decreases count - i,
    {
        let a = Field::deserialize(bytes)?;
        proof {
            assert(views(out@.push(a)) =~= views(out@).push(a@));
        }
        out.push(a);
        i = i + 1;
    }
    Ok(out)
}

/// A 16-bit count, then that many methods.
pub fn deserialize_methods(bytes: &mut Cursor) -> (r: Result<Vec<Method>, DecodeError>)
    ensures
        read_seq_as(
            *old(bytes),
            *final(bytes),
            r,
            parse_counted(old(bytes).data@, old(bytes).pos as int, member_item()),
        ),
{
    let ghost s = bytes.data@;
    let ghost goal = parse_counted(s, bytes.pos as int, member_item());
    let count = read_u16(bytes)?;
    let mut out: Vec<Method> = Vec::new();
    proof {
        assert(views(out@) =~= Seq::<MemberView>::empty());
    }
    let mut i: u16 = 0;
    while i < count
        invariant
            bytes.data@ == s,
            s == old(bytes).data@,
            goal == parse_counted(s, old(bytes).pos as int, member_item()),
            i <= count,
            goal == parse_list(s, bytes.pos as int, (count - i) as nat, views(out@), member_item()),
        decreases count - i,
    {
        let a = Method::deserialize(bytes)?;
        proof {
            assert(views(out@.push(a)) =~= views(out@).push(a@));
        }
        out.push(a);
        i = i + 1;
    }
    Ok(out)
}

/// A class as the structural pass reads it: every attribute left opaque.
pub open spec fn parse_class_raw(s: Seq<u8>, p: int) -> Result<(ClassView, int), DecodeError> {
    match parse_u32(s, p) {
        Ok((magic_bytes, after_magic)) => match parse_u16(s, after_magic) {
            Ok((minor_version, after_minor)) => match parse_u16(s, after_minor) {
                Ok((major_version, after_major)) => match parse_pool(s, after_major) {
                    Ok((constant_pool, after_pool)) => match parse_flags(s, after_pool) {
                        Ok((access_flags, after_flags)) => match parse_index(s, after_flags) {
                            Ok((this_class, after_this)) => match parse_optional_index(s, after_this) {
                                Ok((super_class, after_super)) => match parse_counted(s, after_super, index_item()) {
                                    Ok((interfaces, after_interfaces)) => match parse_counted(s, after_interfaces, member_item()) {
                                        Ok((fields, after_fields)) => match parse_counted(s, after_fields, member_item()) {
                                            Ok((methods, after_methods)) => match parse_counted(
                                                s,
                                                after_methods,
                                                attribute_item(),
                                            ) {
                                                Ok((attributes, end)) => Ok(
                                                    (
                                                        ClassView {
                                                            magic_bytes,
                                                            minor_version,
                                                            major_version,
                                                            constant_pool,
                                                            access_flags,
                                                            this_class,
                                                            super_class,
                                                            interfaces,
                                                            fields,
                                                            methods,
                                                            attributes,
                                                        },
                                                        end,
                                                    ),
                                                ),
                                                Err(e) => Err(e),
                                            },
                                            Err(e) => Err(e),
                                        },
                                        Err(e) => Err(e),
                                    },
                                    Err(e) => Err(e),
                                },
                                Err(e) => Err(e),
                            },
                            Err(e) => Err(e),
                        },
                        Err(e) => Err(e),
                    },
                    Err(e) => Err(e),
                },
                Err(e) => Err(e),
            },
            Err(e) => Err(e),
        },
        Err(e) => Err(e),
    }
}

pub open spec fn resolve_all(pool: Seq<Option<EntryView>>, xs: Seq<AttributeView>) -> Seq<AttributeView> {
    xs.map_values(|a: AttributeView| resolve_attribute(pool, a))
}

pub open spec fn resolve_member(pool: Seq<Option<EntryView>>, m: MemberView) -> MemberView {
    MemberView { attributes: resolve_all(pool, m.attributes), ..m }
}

/// The resolution pass over a class: every attribute of every field, of
/// every method, and of the class itself.
pub open spec fn resolve_class(c: ClassView) -> ClassView {
    ClassView {
        fields: c.fields.map_values(|m: MemberView| resolve_member(c.constant_pool, m)),
        methods: c.methods.map_values(|m: MemberView| resolve_member(c.constant_pool, m)),
        attributes: resolve_all(c.constant_pool, c.attributes),
        ..c
    }
}

/// What a class file decodes to: the structural pass, then resolution.
pub open spec fn parse_class(s: Seq<u8>, p: int) -> Result<(ClassView, int), DecodeError> {
    match parse_class_raw(s, p) {
        Ok((c, q)) => Ok((resolve_class(c), q)),
        Err(e) => Err(e),
    }
}

fn read_optional_index(bytes: &mut Cursor) -> (r: Result<Option<CPIndex>, DecodeError>)
    ensures
        read_as(*old(bytes), *final(bytes), r, parse_optional_index(old(bytes).data@, old(bytes).pos as int)),
{
    let v = read_u16(bytes)?;
    match CPIndex::try_from(v) {
        Ok(i) => Ok(Some(i)),
        Err(_) => Ok(None),
    }
}

/// Resolves each attribute in turn; one that fails stays as it was.
pub fn resolve_attributes(attributes: &mut Vec<Attribute>, cp: &ConstantPool)
    ensures
        views(final(attributes)@) == resolve_all(cp@, views(old(attributes)@)),
{
    let ghost raw = views(attributes@);
    let mut i: usize = 0;
    while i < attributes.len()
        invariant
            attributes@.len() == raw.len(),
            raw == views(old(attributes)@),
            0 <= i <= raw.len(),
            forall|j: int| 0 <= j < i ==> (#[trigger] attributes@[j])@ == resolve_attribute(cp@, raw[j]),
            forall|j: int| i <= j < raw.len() ==> (#[trigger] attributes@[j])@ == raw[j],
        decreases raw.len() - i,
    {
        let _ = attributes[i].resolve(cp);
        i = i + 1;
    }
    assert(views(attributes@) =~= resolve_all(cp@, raw));
}

fn resolve_fields(fields: &mut Vec<Field>, cp: &ConstantPool)
    ensures
        views(final(fields)@) == views(old(fields)@).map_values(|m: MemberView| resolve_member(cp@, m)),
{
    let ghost raw = views(fields@);
    let mut i: usize = 0;
    while i < fields.len()
        invariant
            fields@.len() == raw.len(),
            raw == views(old(fields)@),
            0 <= i <= raw.len(),
            forall|j: int| 0 <= j < i ==> (#[trigger] fields@[j])@ == resolve_member(cp@, raw[j]),
            forall|j: int| i <= j < raw.len() ==> (#[trigger] fields@[j])@ == raw[j],
        decreases raw.len() - i,
    {
        resolve_attributes(&mut fields[i].attributes, cp);
        i = i + 1;
    }
    assert(views(fields@) =~= raw.map_values(|m: MemberView| resolve_member(cp@, m)));
}

fn resolve_methods(methods: &mut Vec<Method>, cp: &ConstantPool)
    ensures
        views(final(methods)@) == views(old(methods)@).map_values(|m: MemberView| resolve_member(cp@, m)),
{
    let ghost raw = views(methods@);
    let mut i: usize = 0;
    while i < methods.len()
        invariant
            methods@.len() == raw.len(),
            raw == views(old(methods)@),
            0 <= i <= raw.len(),
            forall|j: int| 0 <= j < i ==> (#[trigger] methods@[j])@ == resolve_member(cp@, raw[j]),
            forall|j: int| i <= j < raw.len() ==> (#[trigger] methods@[j])@ == raw[j],
        decreases raw.len() - i,
    {
        resolve_attributes(&mut methods[i].attributes, cp);
        i = i + 1;
    }
    assert(views(methods@) =~= raw.map_values(|m: MemberView| resolve_member(cp@, m)));
}

impl JavaClass {
    /// Decodes a whole class, then resolves every attribute it holds.
    pub fn deserialize(bytes: &mut Cursor) -> (r: Result<JavaClass, DecodeError>)
        ensures
            read_as(*old(bytes), *final(bytes), r, parse_class(old(bytes).data@, old(bytes).pos as int)),
    {
        let magic_bytes = read_u32(bytes)?;
        let minor_version = read_u16(bytes)?;
        let major_version = read_u16(bytes)?;
        let constant_pool = ConstantPool::deserialize(bytes)?;
        let access_flags = AccessFlags::deserialize(bytes)?;
        let this_class = CPIndex::deserialize(bytes)?;
        let super_class = read_optional_index(bytes)?;
        let interfaces = deserialize_indices(bytes)?;
        let mut fields = deserialize_fields(bytes)?;
        let mut methods = deserialize_methods(bytes)?;
        let mut attributes = deserialize_attributes(bytes)?;
        resolve_fields(&mut fields, &constant_pool);
        resolve_methods(&mut methods, &constant_pool);
        resolve_attributes(&mut attributes, &constant_pool);
        Ok(JavaClass {
            magic_bytes,
            minor_version,
            major_version,
            constant_pool,
            access_flags,
            this_class,
            super_class,
            interfaces,
            fields,
            methods,
            attributes,
        })
    }

    /// Decodes a class from a whole buffer. Bytes after the class are
    /// ignored.
    pub fn from_bytes(data: &[u8]) -> (r: Result<JavaClass, DecodeError>)
        ensures
            match parse_class(data@, 0) {
                Ok((c, _)) => r matches Ok(x) && x@ == c,
                Err(e) => r == Err::<JavaClass, DecodeError>(e),
            },
    {
        let mut c = Cursor::new(data);
        JavaClass::deserialize(&mut c)
    }
}

} // verus!
