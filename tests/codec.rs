use classfile::read::read_bytes;
use classfile::{
    read_i32, read_i64, read_u16, read_u32, read_u64, read_u8, write_i32, write_i64, write_u16,
    write_u32, write_u64, write_u8, AccessFlags, Attribute, AttributeInfo, CPIndex, ConstantPool,
    ConstantPoolEntry, Cursor, DecodeError, EncodeError, ExceptionTableEntry, JavaClass,
    ReferenceKind,
};

fn be16(v: u16) -> Vec<u8> {
    v.to_be_bytes().to_vec()
}

fn be32(v: u32) -> Vec<u8> {
    v.to_be_bytes().to_vec()
}

fn utf8(s: &str) -> Vec<u8> {
    let mut v = vec![1u8];
    v.extend(be16(s.len() as u16));
    v.extend(s.as_bytes());
    v
}

fn class_entry(name: u16) -> Vec<u8> {
    let mut v = vec![7u8];
    v.extend(be16(name));
    v
}

fn attribute(name: u16, payload: &[u8]) -> Vec<u8> {
    let mut v = be16(name);
    v.extend(be32(payload.len() as u32));
    v.extend(payload);
    v
}

fn counted(items: &[Vec<u8>]) -> Vec<u8> {
    let mut v = be16(items.len() as u16);
    for i in items {
        v.extend(i);
    }
    v
}

/// Header, pool, flags 0x0021, this class, super class, no interfaces, the
/// given fields and methods, then class attributes.
fn class_file(
    count: u16,
    pool: &[Vec<u8>],
    this: u16,
    sup: u16,
    fields: &[Vec<u8>],
    methods: &[Vec<u8>],
    attributes: &[Vec<u8>],
) -> Vec<u8> {
    let mut v = be32(0xCAFE_BABE);
    v.extend(be16(0));
    v.extend(be16(52));
    v.extend(be16(count));
    for e in pool {
        v.extend(e);
    }
    v.extend(be16(0x0021));
    v.extend(be16(this));
    v.extend(be16(sup));
    v.extend(be16(0));
    v.extend(counted(fields));
    v.extend(counted(methods));
    v.extend(counted(attributes));
    v
}

fn member(flags: u16, name: u16, descriptor: u16, attributes: &[Vec<u8>]) -> Vec<u8> {
    let mut v = be16(flags);
    v.extend(be16(name));
    v.extend(be16(descriptor));
    v.extend(counted(attributes));
    v
}

fn code_payload(code: &[u8], nested: &[Vec<u8>]) -> Vec<u8> {
    let mut v = be16(2);
    v.extend(be16(1));
    v.extend(be32(code.len() as u32));
    v.extend(code);
    v.extend(be16(1));
    v.extend(be16(0));
    v.extend(be16(3));
    v.extend(be16(3));
    v.extend(be16(3));
    v.extend(counted(nested));
    v
}

#[test]
fn read_u16_is_big_endian() {
    let data = [0x12u8, 0x34, 0x56];
    let mut c = Cursor::new(&data);
    assert_eq!(read_u16(&mut c), Ok(0x1234));
    assert_eq!(c.position(), 2);
    assert_eq!(read_u8(&mut c), Ok(0x56));
}

#[test]
fn read_past_end_is_truncated() {
    let data = [1u8, 2, 3];
    let mut c = Cursor::new(&data);
    assert_eq!(read_u32(&mut c), Err(DecodeError::Truncated));
    let mut c = Cursor::new(&data);
    assert_eq!(read_bytes(&mut c, 4), Err(DecodeError::Truncated));
    let mut c = Cursor::new(&data);
    assert_eq!(read_bytes(&mut c, 2), Ok(vec![1, 2]));
    assert_eq!(read_u16(&mut c), Err(DecodeError::Truncated));
}

#[test]
fn reads_wide_and_signed_values() {
    let data = [0xffu8, 0xff, 0xff, 0xfe, 0, 0, 0, 0, 0, 0, 1, 0];
    let mut c = Cursor::new(&data);
    assert_eq!(read_i32(&mut c), Ok(-2));
    assert_eq!(read_u64(&mut c), Ok(256));
    let data = [0xffu8; 8];
    let mut c = Cursor::new(&data);
    assert_eq!(read_i64(&mut c), Ok(-1));
}

#[test]
fn writes_big_endian() {
    let mut b = Vec::new();
    write_u8(&mut b, 9);
    write_u16(&mut b, 0x0102);
    write_u32(&mut b, 0x0304_0506);
    write_u64(&mut b, 0x0708_090a_0b0c_0d0e);
    write_i32(&mut b, -1);
    write_i64(&mut b, -2);
    classfile::write::write(&mut b, 0xabcdu16);
    classfile::write::write(&mut b, vec![0x55u8, 0x66]);
    assert_eq!(
        b,
        vec![
            9, 1, 2, 3, 4, 5, 6, 7, 8, 9, 10, 11, 12, 13, 14, 0xff, 0xff, 0xff, 0xff, 0xff, 0xff,
            0xff, 0xff, 0xff, 0xff, 0xff, 0xfe, 0xab, 0xcd, 0x55, 0x66
        ]
    );
}

#[test]
fn pool_of_count_five_fills_indices_in_order() {
    let mut bytes = be16(5);
    bytes.extend(utf8("Code"));
    bytes.extend(utf8("ConstantValue"));
    bytes.extend(class_entry(1));
    bytes.extend(utf8("Main"));
    let mut c = Cursor::new(&bytes);
    let pool = ConstantPool::deserialize(&mut c).unwrap();
    assert_eq!(pool.get(CPIndex(1)), Some(&ConstantPoolEntry::Utf8("Code".to_string())));
    assert_eq!(pool.get(CPIndex(2)), Some(&ConstantPoolEntry::Utf8("ConstantValue".to_string())));
    assert_eq!(pool.get(CPIndex(3)), Some(&ConstantPoolEntry::Class { name_index: CPIndex(1) }));
    assert_eq!(pool.get(CPIndex(4)), Some(&ConstantPoolEntry::Utf8("Main".to_string())));
    assert_eq!(pool.get(CPIndex(0)), None);
    assert_eq!(pool.count(), Some(5));
    let mut out = Vec::new();
    assert_eq!(pool.serialize(&mut out), Ok(()));
    assert_eq!(out, bytes);
}

#[test]
fn long_entry_skips_the_next_index() {
    let mut long = vec![5u8];
    long.extend(0x0102_0304_0506_0708u64.to_be_bytes());
    let pool = vec![utf8("A"), utf8("B"), class_entry(1), long, utf8("C")];
    // this_class refers to the skipped index: decoding succeeds, lookup fails.
    let bytes = class_file(7, &pool, 5, 0, &[], &[], &[]);
    let c = JavaClass::from_bytes(&bytes).unwrap();
    assert_eq!(c.constant_pool.get(CPIndex(4)), Some(&ConstantPoolEntry::Long(0x0102_0304_0506_0708)));
    assert_eq!(c.constant_pool.get(CPIndex(5)), None);
    assert_eq!(c.constant_pool.get(CPIndex(6)), Some(&ConstantPoolEntry::Utf8("C".to_string())));
    assert_eq!(c.this_class, CPIndex(5));
    assert_eq!(c.constant_pool.get(c.this_class), None);
    let mut a = Attribute { name_index: CPIndex(5), info: AttributeInfo::Any(vec![0, 1]) };
    assert_eq!(a.resolve(&c.constant_pool), Err(DecodeError::NoEntry(5)));
    assert_eq!(a.info, AttributeInfo::Any(vec![0, 1]));
    assert_eq!(c.to_bytes(), Ok(bytes));
}

#[test]
fn wide_entries_take_two_slots() {
    let mut double = vec![6u8];
    double.extend(1.5f64.to_bits().to_be_bytes());
    let mut int = vec![3u8];
    int.extend((-7i32).to_be_bytes());
    let mut float = vec![4u8];
    float.extend(2.5f32.to_bits().to_be_bytes());
    let mut bytes = be16(5);
    bytes.extend(double);
    bytes.extend(int);
    bytes.extend(float);
    let mut c = Cursor::new(&bytes);
    let pool = ConstantPool::deserialize(&mut c).unwrap();
    assert_eq!(pool.get(CPIndex(1)), Some(&ConstantPoolEntry::Double(1.5f64.to_bits())));
    assert_eq!(pool.get(CPIndex(2)), None);
    assert_eq!(pool.get(CPIndex(3)), Some(&ConstantPoolEntry::Integer(-7)));
    assert_eq!(pool.get(CPIndex(4)), Some(&ConstantPoolEntry::Float(2.5f32.to_bits())));
    assert_eq!(pool.slot_count(), 5);
    assert_eq!(ConstantPoolEntry::Double(0).size(), 2);
    assert_eq!(ConstantPoolEntry::Integer(0).size(), 1);
}

#[test]
fn unknown_attribute_stays_opaque() {
    let pool = vec![utf8("UnknownXYZ"), utf8("Main"), class_entry(2)];
    let payload = [0xde, 0xad, 0xbe, 0xef, 0x00];
    let bytes = class_file(4, &pool, 3, 0, &[], &[], &[attribute(1, &payload)]);
    let c = JavaClass::from_bytes(&bytes).unwrap();
    assert_eq!(c.attributes.len(), 1);
    assert_eq!(c.attributes[0].info, AttributeInfo::Any(payload.to_vec()));
    assert_eq!(c.to_bytes(), Ok(bytes));
}

#[test]
fn code_resolves_its_nested_attributes() {
    let pool = vec![
        utf8("Code"),
        utf8("ConstantValue"),
        utf8("LineNumberTable"),
        utf8("Main"),
        class_entry(4),
        utf8("main"),
        utf8("()V"),
    ];
    let nested = vec![attribute(3, &[0, 1, 0, 0, 0, 7]), attribute(2, &be16(4))];
    let code = attribute(1, &code_payload(&[0xb1, 0x00], &nested));
    let method = member(0x0009, 6, 7, &[code]);
    let bytes = class_file(8, &pool, 5, 0, &[], &[method], &[]);
    let c = JavaClass::from_bytes(&bytes).unwrap();
    match &c.methods[0].attributes[0].info {
        AttributeInfo::Code { max_stack, max_locals, code, exception_table, attributes } => {
            assert_eq!(*max_stack, 2);
            assert_eq!(*max_locals, 1);
            assert_eq!(code, &vec![0xb1, 0x00]);
            assert_eq!(
                exception_table,
                &vec![ExceptionTableEntry { start: 0, end: 3, handler: 3, catch_type: CPIndex(3) }]
            );
            assert_eq!(attributes[0].info, AttributeInfo::Any(vec![0, 1, 0, 0, 0, 7]));
            assert_eq!(attributes[1].info, AttributeInfo::ConstantValue { index: CPIndex(4) });
        },
        other => panic!("not resolved: {:?}", other),
    }
    assert_eq!(c.to_bytes(), Ok(bytes));
}

#[test]
fn absent_super_class_round_trips_as_zero() {
    let pool = vec![utf8("java/lang/Object"), class_entry(1)];
    let bytes = class_file(3, &pool, 2, 0, &[], &[], &[]);
    let c = JavaClass::from_bytes(&bytes).unwrap();
    assert_eq!(c.super_class, None);
    let out = c.to_bytes().unwrap();
    let at = 4 + 2 + 2 + 2 + (3 + 16) + 3 + 2 + 2;
    assert_eq!(&out[at..at + 2], &[0, 0]);
    let bytes = class_file(3, &pool, 2, 2, &[], &[], &[]);
    assert_eq!(JavaClass::from_bytes(&bytes).unwrap().super_class, Some(CPIndex(2)));
}

#[test]
fn decode_of_encode_is_identity() {
    let pool = vec![
        utf8("Code"),
        utf8("Exceptions"),
        utf8("Other"),
        utf8("Main"),
        class_entry(4),
        utf8("f"),
        utf8("I"),
    ];
    let field = member(0x0002, 6, 7, &[attribute(3, &[1, 2, 3])]);
    let code = attribute(1, &code_payload(&[0x00], &[attribute(3, &[9])]));
    let exceptions = attribute(2, &counted(&[be16(5)]));
    let method = member(0x0001, 6, 7, &[code, exceptions]);
    // a "Code" payload too short to resolve stays opaque
    let broken = attribute(1, &[0, 1]);
    let bytes = class_file(8, &pool, 5, 0, &[field], &[method], &[broken]);
    let c = JavaClass::from_bytes(&bytes).unwrap();
    assert_eq!(
        c.methods[0].attributes[1].info,
        AttributeInfo::Exceptions { exception_index_table: vec![CPIndex(5)] }
    );
    assert_eq!(c.attributes[0].info, AttributeInfo::Any(vec![0, 1]));
    let encoded = c.to_bytes().unwrap();
    let again = JavaClass::from_bytes(&encoded).unwrap();
    assert_eq!(again, c);
}

#[test]
fn resolution_is_deterministic() {
    let pool_bytes = {
        let mut b = be16(3);
        b.extend(utf8("ConstantValue"));
        b.extend(utf8("Other"));
        b
    };
    let pool = ConstantPool::deserialize(&mut Cursor::new(&pool_bytes)).unwrap();
    let mut a = Attribute { name_index: CPIndex(1), info: AttributeInfo::Any(vec![0, 2]) };
    let mut b = Attribute { name_index: CPIndex(1), info: AttributeInfo::Any(vec![0, 2]) };
    assert_eq!(a.resolve(&pool), Ok(()));
    assert_eq!(b.resolve(&pool), Ok(()));
    assert_eq!(a, b);
    assert_eq!(a.info, AttributeInfo::ConstantValue { index: CPIndex(2) });
    // resolving again leaves a typed attribute alone
    assert_eq!(a.resolve(&pool), Ok(()));
    assert_eq!(a, b);
    let mut x = Attribute { name_index: CPIndex(2), info: AttributeInfo::Any(vec![7]) };
    let mut y = Attribute { name_index: CPIndex(2), info: AttributeInfo::Any(vec![7]) };
    assert_eq!(x.resolve(&pool), Err(DecodeError::UnknownAttribute));
    assert_eq!(y.resolve(&pool), Err(DecodeError::UnknownAttribute));
    assert_eq!(x, y);
    assert_eq!(x.info, AttributeInfo::Any(vec![7]));
}

#[test]
fn resolution_failures_leave_the_payload() {
    let mut pool_bytes = be16(3);
    pool_bytes.extend(utf8("ConstantValue"));
    pool_bytes.extend(class_entry(1));
    let pool = ConstantPool::deserialize(&mut Cursor::new(&pool_bytes)).unwrap();
    let mut a = Attribute { name_index: CPIndex(2), info: AttributeInfo::Any(vec![0, 1]) };
    assert_eq!(a.resolve(&pool), Err(DecodeError::NameNotText));
    let mut a = Attribute { name_index: CPIndex(9), info: AttributeInfo::Any(vec![0, 1]) };
    assert_eq!(a.resolve(&pool), Err(DecodeError::NoEntry(9)));
    let mut a = Attribute { name_index: CPIndex(1), info: AttributeInfo::Any(vec![0]) };
    assert_eq!(a.resolve(&pool), Err(DecodeError::Truncated));
    assert_eq!(a.info, AttributeInfo::Any(vec![0]));
    let mut a = Attribute { name_index: CPIndex(1), info: AttributeInfo::Any(vec![0, 0]) };
    assert_eq!(a.resolve(&pool), Err(DecodeError::ZeroIndex));
    assert_eq!(a.info, AttributeInfo::Any(vec![0, 0]));
}

#[test]
fn fatal_decode_errors() {
    let pool = vec![utf8("Main"), class_entry(1)];
    let good = class_file(3, &pool, 2, 0, &[], &[], &[]);
    assert!(JavaClass::from_bytes(&good).is_ok());
    assert_eq!(JavaClass::from_bytes(&good[..good.len() - 1]), Err(DecodeError::Truncated));
    let bad_tag = class_file(3, &[utf8("Main"), vec![2u8, 0, 1]], 2, 0, &[], &[], &[]);
    assert_eq!(JavaClass::from_bytes(&bad_tag), Err(DecodeError::UnknownTag(2)));
    let bad_kind = class_file(3, &[utf8("Main"), vec![15u8, 10, 0, 1]], 2, 0, &[], &[], &[]);
    assert_eq!(JavaClass::from_bytes(&bad_kind), Err(DecodeError::UnknownReferenceKind(10)));
    let zero_this = class_file(3, &pool, 0, 0, &[], &[], &[]);
    assert_eq!(JavaClass::from_bytes(&zero_this), Err(DecodeError::ZeroIndex));
    let mut bad_flags = good.clone();
    let at = 4 + 2 + 2 + 2 + 7 + 3;
    bad_flags[at] = 0x80;
    assert_eq!(JavaClass::from_bytes(&bad_flags), Err(DecodeError::InvalidAccessFlags(0x8021)));
}

#[test]
fn method_handle_and_invoke_dynamic_entries() {
    let mut bytes = vec![15u8, 6];
    bytes.extend(be16(3));
    bytes.push(18);
    bytes.extend(be16(0));
    bytes.extend(be16(4));
    let mut c = Cursor::new(&bytes);
    let h = ConstantPoolEntry::deserialize(&mut c).unwrap();
    assert_eq!(
        h,
        ConstantPoolEntry::MethodHandle {
            reference_kind: ReferenceKind::InvokeStatic,
            reference_index: CPIndex(3)
        }
    );
    let d = ConstantPoolEntry::deserialize(&mut c).unwrap();
    assert_eq!(
        d,
        ConstantPoolEntry::InvokeDynamic { bootstrap_method_attr_index: 0, name_and_type_index: CPIndex(4) }
    );
    let mut out = Vec::new();
    assert_eq!(h.serialize(&mut out), Ok(()));
    assert_eq!(d.serialize(&mut out), Ok(()));
    assert_eq!(out, bytes);
    assert_eq!(ReferenceKind::try_from(9), Ok(ReferenceKind::InvokeInterface));
    assert_eq!(ReferenceKind::try_from(0), Err(()));
    assert_eq!(ReferenceKind::GetField.code(), 1);
}

#[test]
fn invalid_utf8_is_replaced() {
    let bytes = vec![1u8, 0, 3, b'a', 0xff, b'b'];
    let mut c = Cursor::new(&bytes);
    let e = ConstantPoolEntry::deserialize(&mut c).unwrap();
    assert_eq!(e, ConstantPoolEntry::Utf8("a\u{FFFD}b".to_string()));
    let mut out = Vec::new();
    assert_eq!(e.serialize(&mut out), Ok(()));
    assert_eq!(out, vec![1u8, 0, 5, b'a', 0xef, 0xbf, 0xbd, b'b']);
}

#[test]
fn overlong_text_does_not_encode() {
    let e = ConstantPoolEntry::Utf8("x".repeat(70000));
    let mut out = Vec::new();
    assert_eq!(e.serialize(&mut out), Err(EncodeError::LengthOverflow));
    let a = Attribute {
        name_index: CPIndex(1),
        info: AttributeInfo::Exceptions { exception_index_table: vec![CPIndex(1); 70000] },
    };
    assert_eq!(a.serialize(&mut Vec::new()), Err(EncodeError::LengthOverflow));
}

#[test]
fn index_and_flags_constructors() {
    assert_eq!(CPIndex::try_from(0), Err(()));
    assert_eq!(CPIndex::try_from(7), Ok(CPIndex(7)));
    assert!(AccessFlags::from_bits(0x8000).is_none());
    let f = AccessFlags::from_bits(0x0021).unwrap();
    assert_eq!(f.bits(), 0x0021);
    assert!(f.contains(classfile::class::ACC_PUBLIC));
    assert!(f.contains(classfile::class::ACC_SUPER));
    assert!(!f.contains(classfile::class::ACC_FINAL));
}

#[test]
fn empty_pool_encodes_with_count_one() {
    let bytes = be16(0);
    let pool = ConstantPool::deserialize(&mut Cursor::new(&bytes)).unwrap();
    assert_eq!(pool.slot_count(), 1);
    assert_eq!(pool.get(CPIndex(1)), None);
    let mut out = Vec::new();
    assert_eq!(pool.serialize(&mut out), Ok(()));
    assert_eq!(out, be16(1));
    let again = ConstantPool::deserialize(&mut Cursor::new(&out)).unwrap();
    assert_eq!(again, pool);
}

#[test]
fn long_in_the_last_slot_overflows_the_count() {
    let mut bytes = be16(0xffff);
    for _ in 1..0xfffe {
        bytes.extend([3u8, 0, 0, 0, 1]);
    }
    bytes.extend([5u8, 0, 0, 0, 0, 0, 0, 0, 2]);
    let pool = ConstantPool::deserialize(&mut Cursor::new(&bytes)).unwrap();
    assert_eq!(pool.get(CPIndex(0xfffe)), Some(&ConstantPoolEntry::Long(2)));
    assert_eq!(pool.get(CPIndex(0xffff)), None);
    assert_eq!(pool.slot_count(), 0x10000);
    assert_eq!(pool.count(), None);
    assert_eq!(pool.serialize(&mut Vec::new()), Err(EncodeError::LengthOverflow));
}

#[test]
fn read_u8_at_end_is_truncated() {
    let data: [u8; 0] = [];
    let mut c = Cursor::new(&data);
    assert_eq!(read_u8(&mut c), Err(DecodeError::Truncated));
}
