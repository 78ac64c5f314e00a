//! The second decoding pass: an attribute's opaque payload is reinterpreted
//! according to its name, looked up in the constant pool. Failure is never
//! fatal: the attribute then keeps its payload as it was.
use crate::class::{
    entry_at, views, Attribute, AttributeInfo, AttributeView, CPIndex, ConstantPool,
    ConstantPoolEntry, EntryView, ExceptionTableEntry, InfoView,
};
use crate::deserialization::{
    attribute_item, deserialize_attributes, deserialize_exception_table, deserialize_indices,
    exception_item, index_item, parse_attribute, parse_counted, parse_index, parse_list,
};
use crate::error::DecodeError;
use crate::read::{
    parse_bytes, parse_u16, parse_u32, read_bytes, read_u16, read_u32, Cursor,
};
use vstd::prelude::*;
use vstd::utf8::encode_utf8_decode_utf8;

verus! {

pub open spec fn constant_value_name() -> Seq<char> {
    "ConstantValue"@
}

pub open spec fn code_name() -> Seq<char> {
    "Code"@
}

pub open spec fn exceptions_name() -> Seq<char> {
    "Exceptions"@
}

/// The fields of a "Code" payload, its nested attributes still opaque.
pub struct CodeBody {
    pub max_stack: u16,
    pub max_locals: u16,
    pub code: Seq<u8>,
    pub exception_table: Seq<ExceptionTableEntry>,
    pub attributes: Seq<AttributeView>,
}

pub open spec fn parse_code_body(s: Seq<u8>, p: int) -> Result<(CodeBody, int), DecodeError> {
    match parse_u16(s, p) {
        Ok((max_stack, q)) => match parse_u16(s, q) {
            Ok((max_locals, r)) => match parse_u32(s, r) {
                Ok((n, t)) => match parse_bytes(s, t, n as int) {
                    Ok((code, u)) => match parse_counted(s, u, exception_item()) {
                        Ok((exception_table, v)) => match parse_counted(s, v, attribute_item()) {
                            Ok((attributes, w)) => Ok(
                                (
                                    CodeBody {
                                        max_stack,
                                        max_locals,
                                        code,
                                        exception_table,
                                        attributes,
                                    },
                                    w,
                                ),
                            ),
                            Err(e) => Err(e),
                        },
                        Err(e) => Err(e),
                    },
                    Err(e) => Err(e),
                },
                Err(e) => Err(e),
            },
            Err(e) => Err(e),
        },
        Err(e) => Err(e),
    }
}

/// The length of an attribute's payload while it is opaque.
pub open spec fn blob_len(a: AttributeView) -> int {
    match a.info {
        InfoView::Any(b) => b.len() as int,
        _ => 0,
    }
}

/// An attribute after resolution: typed where its payload resolves, as it
/// was otherwise (and as it was if it is not opaque).
pub open spec fn resolve_attribute(pool: Seq<Option<EntryView>>, a: AttributeView) -> AttributeView
    decreases blob_len(a), 1int,
{
    match a.info {
        InfoView::Any(b) => match resolve_info(pool, a.name_index, b) {
            Ok(info) => AttributeView { name_index: a.name_index, info },
            Err(_) => a,
        },
        _ => a,
    }
}

/// What the payload `blob` of an attribute named by `name` resolves to.
pub open spec fn resolve_info(pool: Seq<Option<EntryView>>, name: CPIndex, blob: Seq<u8>) -> Result<
    InfoView,
    DecodeError,
>
    decreases blob.len(), 0int,
{
    match entry_at(pool, name.0 as int) {
        None => Err(DecodeError::NoEntry(name.0)),
        Some(EntryView::Utf8(text)) => if text == constant_value_name() {
            match parse_index(blob, 0) {
                Ok((index, _)) => Ok(InfoView::ConstantValue { index }),
                Err(e) => Err(e),
            }
        } else if text == code_name() {
            match parse_code_body(blob, 0) {
                Ok((body, _)) => {
                    proof {
                        lemma_code_body_within(blob);
                    }
                    Ok(
                        InfoView::Code {
                            max_stack: body.max_stack,
                            max_locals: body.max_locals,
                            code: body.code,
                            exception_table: body.exception_table,
                            attributes: Seq::new(
                                body.attributes.len(),
                                |i: int|
                                    if 0 <= i < body.attributes.len() {
                                        resolve_attribute(pool, body.attributes[i])
                                    } else {
                                        body.attributes[i]
                                    },
                            ),
                        },
                    )
                },
                Err(e) => Err(e),
            }
        } else if text == exceptions_name() {
            match parse_counted(blob, 0, index_item()) {
                Ok((t, _)) => Ok(InfoView::Exceptions { exception_index_table: t }),
                Err(e) => Err(e),
            }
        } else {
            Err(DecodeError::UnknownAttribute)
        },
        Some(_) => Err(DecodeError::NameNotText),
    }
}

/// Attributes read from `s` have payloads shorter than `s`.
pub proof fn lemma_attributes_within(s: Seq<u8>, p: int, n: nat, acc: Seq<AttributeView>)
    requires
        0 <= p,
        forall|i: int| 0 <= i < acc.len() ==> blob_len(#[trigger] acc[i]) < s.len(),
    ensures
        parse_list(s, p, n, acc, attribute_item()) matches Ok((xs, _)) ==> forall|i: int|
            0 <= i < xs.len() ==> blob_len(#[trigger] xs[i]) < s.len(),
    decreases n,
{
    if n > 0 {
        match parse_attribute(s, p) {
            Ok((a, q)) => {
                lemma_attributes_within(s, q, (n - 1) as nat, acc.push(a));
            },
            Err(_) => {},
        }
    }
}

/// The nested attributes of a "Code" payload are shorter than the payload.
pub proof fn lemma_code_body_within(blob: Seq<u8>)
    ensures
        parse_code_body(blob, 0) matches Ok((body, _)) ==> forall|i: int|
            0 <= i < body.attributes.len() ==> blob_len(#[trigger] body.attributes[i]) < blob.len(),
{
    if let Ok((body, _)) = parse_code_body(blob, 0) {
        let t = 8 + (parse_u32(blob, 4).unwrap().0 as int);
        let v = parse_counted(blob, t, exception_item()).unwrap().1;
        assert(v >= 0) by {
            lemma_list_advances(blob, t + 2, parse_u16(blob, t).unwrap().0 as nat, Seq::empty());
        }
        lemma_attributes_within(blob, v + 2, parse_u16(blob, v).unwrap().0 as nat, Seq::empty());
    }
}

/// Reading exception-table rows never moves backwards.
pub proof fn lemma_list_advances(s: Seq<u8>, p: int, n: nat, acc: Seq<ExceptionTableEntry>)
    ensures
        parse_list(s, p, n, acc, exception_item()) matches Ok((_, q)) ==> q >= p,
    decreases n,
{
    if n > 0 {
        if let Ok((x, q)) = exception_item()(s, p) {
            lemma_list_advances(s, q, (n - 1) as nat, acc.push(x));
        }
    }
}

fn bytes_equal(a: &[u8], b: &[u8]) -> (r: bool)
    ensures
        r == (a@ == b@),
{
    if a.len() != b.len() {
        return false;
    }
    let mut i: usize = 0;
    while i < a.len()
        invariant
            a@.len() == b@.len(),
            0 <= i <= a@.len(),
            forall|j: int| 0 <= j < i ==> a@[j] == b@[j],
        decreases a@.len() - i,
    {
        if a[i] != b[i] {
            return false;
        }
        i = i + 1;
    }
    assert(a@ =~= b@);
    true
}

/// The text holds exactly the characters of `name`.
fn text_is(text: &String, name: &str) -> (r: bool)
    ensures
        r == (text@ == name@),
{
    let r = bytes_equal(text.as_str().as_bytes(), name.as_bytes());
    proof {
        encode_utf8_decode_utf8(text@);
        encode_utf8_decode_utf8(name@);
    }
    r
}

impl Attribute {
    /// Resolves an opaque payload by the attribute's name. On success the
    /// payload is replaced by its typed shape; on failure the attribute is
    /// left as it was and the reason returned. An attribute that is not
    /// opaque is left alone.
    pub fn resolve(&mut self, cp: &ConstantPool) -> (r: Result<(), DecodeError>)
        ensures
            final(self)@ == resolve_attribute(cp@, old(self)@),
            match old(self)@.info {
                InfoView::Any(b) => match resolve_info(cp@, old(self).name_index, b) {
                    Ok(_) => r is Ok,
                    Err(e) => r == Err::<(), DecodeError>(e),
                },
                _ => r is Ok,
            },
        decreases blob_len(old(self)@), 1int,
    {
        let resolved = match &self.info {
            AttributeInfo::Any(blob) => resolve_payload(cp, self.name_index, blob.as_slice()),
            _ => {
                return Ok(());
            },
        };
        match resolved {
            Ok(info) => {
                self.info = info;
                Ok(())
            },
            Err(e) => Err(e),
        }
    }
}

/// The typed shape of the payload `blob` of an attribute named by
/// `name_index`, or why it has none.
pub fn resolve_payload(cp: &ConstantPool, name_index: CPIndex, blob: &[u8]) -> (r: Result<
    AttributeInfo,
    DecodeError,
>)
    ensures
        match resolve_info(cp@, name_index, blob@) {
            Ok(v) => r matches Ok(x) && x@ == v,
            Err(e) => r == Err::<AttributeInfo, DecodeError>(e),
        },
    decreases blob@.len(), 0int,
{
    let name = match cp.get(name_index) {
        None => {
            return Err(DecodeError::NoEntry(name_index.0));
        },
        Some(ConstantPoolEntry::Utf8(text)) => text,
        Some(_) => {
            return Err(DecodeError::NameNotText);
        },
    };
    let mut c = Cursor::new(blob);
    if text_is(name, "ConstantValue") {
        let index = CPIndex::deserialize(&mut c)?;
        Ok(AttributeInfo::ConstantValue { index })
    } else if text_is(name, "Code") {
        let max_stack = read_u16(&mut c)?;
        let max_locals = read_u16(&mut c)?;
        let code_length = read_u32(&mut c)?;
        let code = read_bytes(&mut c, code_length as usize)?;
        let exception_table = deserialize_exception_table(&mut c)?;
        let mut attributes = deserialize_attributes(&mut c)?;
        let ghost raw = views(attributes@);
        proof {
            lemma_code_body_within(blob@);
        }
        let mut i: usize = 0;
        while i < attributes.len()
            invariant
                attributes@.len() == raw.len(),
                0 <= i <= raw.len(),
                forall|j: int| 0 <= j < raw.len() ==> blob_len(#[trigger] raw[j]) < blob@.len(),
                forall|j: int| 0 <= j < i ==> (#[trigger] attributes@[j])@ == resolve_attribute(cp@, raw[j]),
                forall|j: int| i <= j < raw.len() ==> (#[trigger] attributes@[j])@ == raw[j],
            decreases raw.len() - i,
        {
            let _ = attributes[i].resolve(cp);
            i = i + 1;
        }
        let ghost body = parse_code_body(blob@, 0)->Ok_0.0;
        let r = AttributeInfo::Code { max_stack, max_locals, code, exception_table, attributes };
        proof {
            let expected = resolve_info(cp@, name_index, blob@)->Ok_0;
            assert(body.attributes == raw);
            assert(expected->Code_attributes =~= r@->Code_attributes);
        }
        Ok(r)
    } else if text_is(name, "Exceptions") {
        let exception_index_table = deserialize_indices(&mut c)?;
        Ok(AttributeInfo::Exceptions { exception_index_table })
    } else {
        Err(DecodeError::UnknownAttribute)
    }
}

} // verus!
