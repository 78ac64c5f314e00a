//! The decoded tree of a class file, and its mathematical model.
//!
//! Each type that holds a `Vec` or a `String` has a model type (`...View`)
//! made of `Seq`s, which the codec's contracts speak of.
use vstd::prelude::*;

verus! {

/// A 1-based reference into the constant pool. 0 stands for "no reference"
/// and is refused wherever a reference is required.
#[derive(Clone, Copy, Debug, PartialEq, Eq, Structural, Hash, PartialOrd, Ord)]
pub struct CPIndex(pub u16);

impl CPIndex {
    /// The index `v`, unless it is the sentinel 0.
    pub fn try_from(v: u16) -> (r: Result<CPIndex, ()>)
        ensures
            v == 0 ==> r is Err,
            v != 0 ==> r == Ok::<CPIndex, ()>(CPIndex(v)),
    {
        if v == 0 {
            Err(())
        } else {
            Ok(CPIndex(v))
        }
    }
}

/// The kind of a method handle, encoded as one byte in 1..=9.
#[derive(Clone, Copy, Debug, PartialEq, Eq, Structural)]
pub enum ReferenceKind {
    GetField,
    GetStatic,
    PutField,
    PutStatic,
    InvokeVirtual,
    InvokeStatic,
    InvokeSpecial,
    NewInvokeSpecial,
    InvokeInterface,
}

pub open spec fn kind_code(k: ReferenceKind) -> u8 {
    match k {
        ReferenceKind::GetField => 1,
        ReferenceKind::GetStatic => 2,
        ReferenceKind::PutField => 3,
        ReferenceKind::PutStatic => 4,
        ReferenceKind::InvokeVirtual => 5,
        ReferenceKind::InvokeStatic => 6,
        ReferenceKind::InvokeSpecial => 7,
        ReferenceKind::NewInvokeSpecial => 8,
        ReferenceKind::InvokeInterface => 9,
    }
}

pub open spec fn kind_of(b: u8) -> Option<ReferenceKind> {
    if b == 1 {
        Some(ReferenceKind::GetField)
    } else if b == 2 {
        Some(ReferenceKind::GetStatic)
    } else if b == 3 {
        Some(ReferenceKind::PutField)
    } else if b == 4 {
        Some(ReferenceKind::PutStatic)
    } else if b == 5 {
        Some(ReferenceKind::InvokeVirtual)
    } else if b == 6 {
        Some(ReferenceKind::InvokeStatic)
    } else if b == 7 {
        Some(ReferenceKind::InvokeSpecial)
    } else if b == 8 {
        Some(ReferenceKind::NewInvokeSpecial)
    } else if b == 9 {
        Some(ReferenceKind::InvokeInterface)
    } else {
        None
    }
}

impl ReferenceKind {
    pub fn try_from(b: u8) -> (r: Result<ReferenceKind, ()>)
        ensures
            match kind_of(b) {
                Some(k) => r == Ok::<ReferenceKind, ()>(k),
                None => r is Err,
            },
    {
        match b {
            1 => Ok(ReferenceKind::GetField),
            2 => Ok(ReferenceKind::GetStatic),
            3 => Ok(ReferenceKind::PutField),
            4 => Ok(ReferenceKind::PutStatic),
            5 => Ok(ReferenceKind::InvokeVirtual),
            6 => Ok(ReferenceKind::InvokeStatic),
            7 => Ok(ReferenceKind::InvokeSpecial),
            8 => Ok(ReferenceKind::NewInvokeSpecial),
            9 => Ok(ReferenceKind::InvokeInterface),
            _ => Err(()),
        }
    }

    /// The byte that encodes this kind.
    pub fn code(&self) -> (r: u8)
        ensures
            r == kind_code(*self),
    {
        match self {
            ReferenceKind::GetField => 1,
            ReferenceKind::GetStatic => 2,
            ReferenceKind::PutField => 3,
            ReferenceKind::PutStatic => 4,
            ReferenceKind::InvokeVirtual => 5,
            ReferenceKind::InvokeStatic => 6,
            ReferenceKind::InvokeSpecial => 7,
            ReferenceKind::NewInvokeSpecial => 8,
            ReferenceKind::InvokeInterface => 9,
        }
    }
}

/// A 16-bit access-flags mask. Several bits mean different things on a
/// class, a field and a method (0x0020 is SUPER on a class and SYNCHRONIZED
/// on a method); the codec keeps the bits and leaves their reading to the
/// caller.
#[derive(Clone, Copy, Debug, PartialEq, Eq, Structural)]
pub struct AccessFlags {
    bits: u16,
}

pub const ACC_PUBLIC: u16 = 0x0001;
pub const ACC_PRIVATE: u16 = 0x0002;
pub const ACC_PROTECTED: u16 = 0x0004;
pub const ACC_STATIC: u16 = 0x0008;
pub const ACC_FINAL: u16 = 0x0010;
pub const ACC_SUPER: u16 = 0x0020;
pub const ACC_SYNCHRONIZED: u16 = 0x0020;
pub const ACC_VOLATILE: u16 = 0x0040;
pub const ACC_BRIDGE: u16 = 0x0040;
pub const ACC_TRANSIENT: u16 = 0x0080;
pub const ACC_VARARGS: u16 = 0x0080;
pub const ACC_NATIVE: u16 = 0x0100;
pub const ACC_INTERFACE: u16 = 0x0200;
pub const ACC_ABSTRACT: u16 = 0x0400;
pub const ACC_STRICT: u16 = 0x0800;
pub const ACC_SYNTHETIC: u16 = 0x1000;
pub const ACC_ANNOTATION: u16 = 0x2000;
pub const ACC_ENUM: u16 = 0x4000;

/// The union of all known flag bits.
pub const ACC_ALL: u16 = 0x7fff;

/// `bits` holds known flags only.
pub open spec fn flags_known(bits: u16) -> bool {
    bits & !ACC_ALL == 0
}

impl View for AccessFlags {
    type V = u16;

    closed spec fn view(&self) -> u16 {
        self.bits
    }
}

impl AccessFlags {
    /// The flags `bits`, unless they hold a bit outside the known mask.
    pub fn from_bits(bits: u16) -> (r: Option<AccessFlags>)
        ensures
            flags_known(bits) ==> (r matches Some(f) && f@ == bits),
            !flags_known(bits) ==> r is None,
    {
        if bits & !ACC_ALL == 0 {
            Some(AccessFlags { bits })
        } else {
            None
        }
    }

    pub fn bits(&self) -> (r: u16)
        ensures
            r == self@,
    {
        self.bits
    }

    /// Every bit of `flag` is set.
    pub fn contains(&self, flag: u16) -> (r: bool)
        ensures
            r == (self@ & flag == flag),
    {
        self.bits & flag == flag
    }
}

/// One entry of the constant pool.
#[derive(Debug, PartialEq, Eq)]
pub enum ConstantPoolEntry {
    Class { name_index: CPIndex },
    FieldRef { class_index: CPIndex, name_and_type_index: CPIndex },
    MethodRef { class_index: CPIndex, name_and_type_index: CPIndex },
    InterfaceMethodRef { class_index: CPIndex, name_and_type_index: CPIndex },
    String { string_index: CPIndex },
    Integer(i32),
    /// The IEEE 754 bit pattern of a 32-bit float, kept as it was read.
    Float(u32),
    Long(i64),
    /// The IEEE 754 bit pattern of a 64-bit float, kept as it was read.
    Double(u64),
    NameAndType { name_index: CPIndex, descriptor_index: CPIndex },
    Utf8(String),
    MethodHandle { reference_kind: ReferenceKind, reference_index: CPIndex },
    MethodType { descriptor_index: CPIndex },
    InvokeDynamic { bootstrap_method_attr_index: u16, name_and_type_index: CPIndex },
}

/// The model of a constant-pool entry: its text as a sequence of characters.
pub enum EntryView {
    Class { name_index: CPIndex },
    FieldRef { class_index: CPIndex, name_and_type_index: CPIndex },
    MethodRef { class_index: CPIndex, name_and_type_index: CPIndex },
    InterfaceMethodRef { class_index: CPIndex, name_and_type_index: CPIndex },
    String { string_index: CPIndex },
    Integer(i32),
    Float(u32),
    Long(i64),
    Double(u64),
    NameAndType { name_index: CPIndex, descriptor_index: CPIndex },
    Utf8(Seq<char>),
    MethodHandle { reference_kind: ReferenceKind, reference_index: CPIndex },
    MethodType { descriptor_index: CPIndex },
    InvokeDynamic { bootstrap_method_attr_index: u16, name_and_type_index: CPIndex },
}

impl View for ConstantPoolEntry {
    type V = EntryView;

    open spec fn view(&self) -> EntryView {
        match self {
            ConstantPoolEntry::Class { name_index } => EntryView::Class { name_index: *name_index },
            ConstantPoolEntry::FieldRef { class_index, name_and_type_index } => EntryView::FieldRef {
                class_index: *class_index,
                name_and_type_index: *name_and_type_index,
            },
            ConstantPoolEntry::MethodRef { class_index, name_and_type_index } => EntryView::MethodRef {
                class_index: *class_index,
                name_and_type_index: *name_and_type_index,
            },
            ConstantPoolEntry::InterfaceMethodRef { class_index, name_and_type_index } =>
                EntryView::InterfaceMethodRef {
                class_index: *class_index,
                name_and_type_index: *name_and_type_index,
            },
            ConstantPoolEntry::String { string_index } => EntryView::String {
                string_index: *string_index,
            },
            ConstantPoolEntry::Integer(v) => EntryView::Integer(*v),
            ConstantPoolEntry::Float(v) => EntryView::Float(*v),
            ConstantPoolEntry::Long(v) => EntryView::Long(*v),
            ConstantPoolEntry::Double(v) => EntryView::Double(*v),
            ConstantPoolEntry::NameAndType { name_index, descriptor_index } =>
                EntryView::NameAndType { name_index: *name_index, descriptor_index: *descriptor_index },
            ConstantPoolEntry::Utf8(s) => EntryView::Utf8(s@),
            ConstantPoolEntry::MethodHandle { reference_kind, reference_index } =>
                EntryView::MethodHandle {
                reference_kind: *reference_kind,
                reference_index: *reference_index,
            },
            ConstantPoolEntry::MethodType { descriptor_index } => EntryView::MethodType {
                descriptor_index: *descriptor_index,
            },
            ConstantPoolEntry::InvokeDynamic { bootstrap_method_attr_index, name_and_type_index } =>
                EntryView::InvokeDynamic {
                bootstrap_method_attr_index: *bootstrap_method_attr_index,
                name_and_type_index: *name_and_type_index,
            },
        }
    }
}

/// Long and Double occupy two index slots; every other entry one.
pub open spec fn is_wide(e: EntryView) -> bool {
    e is Long || e is Double
}

impl ConstantPoolEntry {
    /// The number of index slots this entry occupies.
    pub fn size(&self) -> (r: u16)
        ensures
            r == (if is_wide(self@) { 2u16 } else { 1u16 }),
    {
        match self {
            ConstantPoolEntry::Long(_) | ConstantPoolEntry::Double(_) => 2,
            _ => 1,
        }
    }
}

/// The constant pool, held as its index slots: slot `i` holds the entry at
/// index `i`, slot 0 and the slot after each Long or Double hold nothing.
#[derive(Debug, PartialEq, Eq)]
pub struct ConstantPool {
    pub slots: Vec<Option<ConstantPoolEntry>>,
}

pub open spec fn slot_view(o: Option<ConstantPoolEntry>) -> Option<EntryView> {
    match o {
        Some(e) => Some(e@),
        None => None,
    }
}

pub open spec fn slots_view(v: Seq<Option<ConstantPoolEntry>>) -> Seq<Option<EntryView>> {
    v.map_values(|o: Option<ConstantPoolEntry>| slot_view(o))
}

impl View for ConstantPool {
    type V = Seq<Option<EntryView>>;

    open spec fn view(&self) -> Seq<Option<EntryView>> {
        slots_view(self.slots@)
    }
}

/// The entry at index `i` of a pool, if there is one; index 0 never holds
/// one.
pub open spec fn entry_at(pool: Seq<Option<EntryView>>, i: int) -> Option<EntryView> {
    if 1 <= i < pool.len() {
        pool[i]
    } else {
        None
    }
}

/// A pool laid out as decoding lays it out: slot 0 is empty; a slot is empty
/// exactly when the one before it holds a Long or a Double; the last slot
/// holds no Long or Double (its shadow would lie past the end).
pub open spec fn pool_well_formed(pool: Seq<Option<EntryView>>) -> bool {
    &&& pool.len() >= 1
    &&& pool[0] is None
    &&& forall|i: int|
        1 <= i < pool.len() ==> (#[trigger] pool[i] is None <==> (pool[i - 1] matches Some(e)
            && is_wide(e)))
    &&& !(pool.last() matches Some(e) && is_wide(e))
}

impl ConstantPool {
    /// The entry at `index`, or `None` where no entry stands there (index 0,
    /// the slot after a Long or Double, or past the end).
    pub fn get(&self, index: CPIndex) -> (r: Option<&ConstantPoolEntry>)
        ensures
            match entry_at(self@, index.0 as int) {
                Some(e) => r matches Some(x) && x@ == e,
                None => r is None,
            },
    {
        let i = index.0 as usize;
        if 1 <= i && i < self.slots.len() {
            match &self.slots[i] {
                Some(e) => Some(e),
                None => None,
            }
        } else {
            None
        }
    }

    /// The number of index slots, which is the count that heads the pool
    /// when encoded.
    pub fn slot_count(&self) -> (r: usize)
        ensures
            r == self@.len(),
    {
        self.slots.len()
    }
}

#[derive(Clone, Copy, Debug, PartialEq, Eq, Structural)]
pub struct ExceptionTableEntry {
    pub start: u16,
    pub end: u16,
    pub handler: u16,
    pub catch_type: CPIndex,
}

/// An attribute's payload: the raw bytes until it is resolved, then the
/// typed shape that its name selects.
#[derive(Debug, PartialEq, Eq)]
pub enum AttributeInfo {
    Any(Vec<u8>),
    ConstantValue { index: CPIndex },
    Code {
        max_stack: u16,
        max_locals: u16,
        code: Vec<u8>,
        exception_table: Vec<ExceptionTableEntry>,
        attributes: Vec<Attribute>,
    },
    Exceptions { exception_index_table: Vec<CPIndex> },
}

#[derive(Debug, PartialEq, Eq)]
pub struct Attribute {
    pub name_index: CPIndex,
    pub info: AttributeInfo,
}

pub enum InfoView {
    Any(Seq<u8>),
    ConstantValue { index: CPIndex },
    Code {
        max_stack: u16,
        max_locals: u16,
        code: Seq<u8>,
        exception_table: Seq<ExceptionTableEntry>,
        attributes: Seq<AttributeView>,
    },
    Exceptions { exception_index_table: Seq<CPIndex> },
}

pub struct AttributeView {
    pub name_index: CPIndex,
    pub info: InfoView,
}

impl AttributeInfo {
    pub open spec fn info_view(&self) -> InfoView
        decreases self,
    {
        match self {
            AttributeInfo::Any(b) => InfoView::Any(b@),
            AttributeInfo::ConstantValue { index } => InfoView::ConstantValue { index: *index },
            AttributeInfo::Code { max_stack, max_locals, code, exception_table, attributes } =>
                InfoView::Code {
                max_stack: *max_stack,
                max_locals: *max_locals,
                code: code@,
                exception_table: exception_table@,
                attributes: Seq::new(
                    attributes@.len(),
                    |i: int|
                        if 0 <= i < attributes@.len() {
                            AttributeView {
                                name_index: attributes@[i].name_index,
                                info: attributes@[i].info.info_view(),
                            }
                        } else {
                            AttributeView { name_index: CPIndex(0), info: InfoView::Any(Seq::empty()) }
                        },
                ),
            },
            AttributeInfo::Exceptions { exception_index_table } => InfoView::Exceptions {
                exception_index_table: exception_index_table@,
            },
        }
    }
}

impl View for AttributeInfo {
    type V = InfoView;

    open spec fn view(&self) -> InfoView {
        self.info_view()
    }
}

impl View for Attribute {
    type V = AttributeView;

    open spec fn view(&self) -> AttributeView {
        AttributeView { name_index: self.name_index, info: self.info.info_view() }
    }
}

/// The models of a sequence of values, one for one.
pub open spec fn views<T: View>(v: Seq<T>) -> Seq<T::V> {
    v.map_values(|x: T| x@)
}

/// A field and a method have the same shape, and the same model.
pub struct MemberView {
    pub access_flags: u16,
    pub name_index: CPIndex,
    pub descriptor_index: CPIndex,
    pub attributes: Seq<AttributeView>,
}

#[derive(Debug, PartialEq, Eq)]
pub struct Field {
    pub access_flags: AccessFlags,
    pub name_index: CPIndex,
    pub descriptor_index: CPIndex,
    pub attributes: Vec<Attribute>,
}

#[derive(Debug, PartialEq, Eq)]
pub struct Method {
    pub access_flags: AccessFlags,
    pub name_index: CPIndex,
    pub descriptor_index: CPIndex,
    pub attributes: Vec<Attribute>,
}

impl View for Field {
    type V = MemberView;

    open spec fn view(&self) -> MemberView {
        MemberView {
            access_flags: self.access_flags@,
            name_index: self.name_index,
            descriptor_index: self.descriptor_index,
            attributes: views(self.attributes@),
        }
    }
}

impl View for Method {
    type V = MemberView;

    open spec fn view(&self) -> MemberView {
        MemberView {
            access_flags: self.access_flags@,
            name_index: self.name_index,
            descriptor_index: self.descriptor_index,
            attributes: views(self.attributes@),
        }
    }
}

#[derive(Debug, PartialEq, Eq)]
pub struct JavaClass {
    pub magic_bytes: u32,
    pub minor_version: u16,
    pub major_version: u16,
    pub constant_pool: ConstantPool,
    pub access_flags: AccessFlags,
    pub this_class: CPIndex,
    pub super_class: Option<CPIndex>,
    pub interfaces: Vec<CPIndex>,
    pub fields: Vec<Field>,
    pub methods: Vec<Method>,
    pub attributes: Vec<Attribute>,
}

pub struct ClassView {
    pub magic_bytes: u32,
    pub minor_version: u16,
    pub major_version: u16,
    pub constant_pool: Seq<Option<EntryView>>,
    pub access_flags: u16,
    pub this_class: CPIndex,
    pub super_class: Option<CPIndex>,
    pub interfaces: Seq<CPIndex>,
    pub fields: Seq<MemberView>,
    pub methods: Seq<MemberView>,
    pub attributes: Seq<AttributeView>,
}

impl View for JavaClass {
    type V = ClassView;

    open spec fn view(&self) -> ClassView {
        ClassView {
            magic_bytes: self.magic_bytes,
            minor_version: self.minor_version,
            major_version: self.major_version,
            constant_pool: self.constant_pool@,
            access_flags: self.access_flags@,
            this_class: self.this_class,
            super_class: self.super_class,
            interfaces: self.interfaces@,
            fields: views(self.fields@),
            methods: views(self.methods@),
            attributes: views(self.attributes@),
        }
    }
}

} // verus!
