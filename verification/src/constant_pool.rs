//! The constant pool: tagged entries, their decoder, and index resolution.
//!
//! Each entry starts with a one-byte tag that fixes the shape of its payload;
//! a tag outside the fixed set is a fatal decode error, since the format gives
//! no way to skip an unknown entry. The pool is stored as an ordered sequence
//! addressed 1..count-1; slot 0 holds an unused placeholder. The resolution
//! helpers are the only sanctioned way to dereference an index.
//!
//! A long or double entry occupies one slot of this sequence. The format
//! documents those entries as taking two index slots (the slot after them being
//! unusable); this decoder deliberately does not reproduce that convention, so
//! every decoded entry counts exactly once and indices into a pool that relies
//! on the two-slot convention will not line up.

use vstd::prelude::*;

use crate::class_file::{be2, be4, Buffer};
use crate::constants::{JVM_TAG_CLASS, JVM_TAG_DOUBLE, JVM_TAG_FIELDREF, JVM_TAG_FLOAT,
    JVM_TAG_INTEGER, JVM_TAG_INTERFACE_METHODREF, JVM_TAG_INVOKE_DYNAMIC, JVM_TAG_LONG,
    JVM_TAG_METHODREF, JVM_TAG_METHOD_HANDLE, JVM_TAG_METHOD_TYPE, JVM_TAG_NAME_AND_TYPE,
    JVM_TAG_STRING, JVM_TAG_UTF8};
use crate::error::DecodeError;
use crate::mutf8::{decode_mutf8, mutf8_decode};

verus! {

/// CONSTANT_Class_info: an index to the UTF-8 name of a class.
pub struct ConstantClassInfo {
    pub name_index: u16,
}

/// CONSTANT_Fieldref_info: a class index and a name-and-type index.
pub struct ConstantFieldRefInfo {
    pub class_index: u16,
    pub name_and_type_index: u16,
}

/// CONSTANT_Methodref_info: a class index and a name-and-type index.
pub struct ConstantMethodRefInfo {
    pub class_index: u16,
    pub name_and_type_index: u16,
}

/// CONSTANT_InterfaceMethodref_info: a class index and a name-and-type index.
pub struct ConstantInterfaceMethodrefInfo {
    pub class_index: u16,
    pub name_and_type_index: u16,
}

/// CONSTANT_String_info: an index to the UTF-8 contents of a string literal.
pub struct ConstantStringInfo {
    pub string_index: u16,
}

/// CONSTANT_Integer_info: the big-endian bytes of a 32-bit integer.
pub struct ConstantIntegerInfo {
    pub bytes: u32,
}

/// CONSTANT_Float_info: the big-endian bytes of a 32-bit float, kept as bits.
pub struct ConstantFloatInfo {
    pub bytes: u32,
}

/// CONSTANT_Long_info: a 64-bit integer as two 32-bit halves.
pub struct ConstantLongInfo {
    pub high_bytes: u32,
    pub low_bytes: u32,
}

/// CONSTANT_Double_info: a 64-bit float as two 32-bit halves, kept as bits.
pub struct ConstantDoubleInfo {
    pub high_bytes: u32,
    pub low_bytes: u32,
}

/// CONSTANT_NameAndType_info: UTF-8 indices of a name and a descriptor.
pub struct ConstantNameAndTypeInfo {
    pub name_index: u16,
    pub descriptor_index: u16,
}

/// CONSTANT_Utf8_info: a length-prefixed modified-UTF-8 byte run.
pub struct ConstantUtf8Info {
    pub length: u16,
    pub bytes: Vec<u8>,
}

impl ConstantUtf8Info {
    /// The decoded text of this entry.
    pub fn value(&self) -> (r: String)
        ensures
            r@ == mutf8_decode(self.bytes@),
    {
        decode_mutf8(&self.bytes)
    }
}

/// CONSTANT_MethodHandle_info: a reference kind and a reference index.
pub struct ConstantMethodHandleInfo {
    pub reference_kind: u8,
    pub reference_index: u16,
}

/// CONSTANT_MethodType_info: an index to a UTF-8 method descriptor.
pub struct ConstantMethodTypeInfo {
    pub descriptor_index: u16,
}

/// CONSTANT_InvokeDynamic_info: a bootstrap-method-attribute index and a
/// name-and-type index.
pub struct ConstantInvokeDynamicInfo {
    pub bootstrap_method_attr_index: u16,
    pub name_and_type_index: u16,
}

/// One constant-pool entry: a closed tagged union over the fourteen payload
/// shapes of the format, plus the unused placeholder at slot 0.
pub enum ConstantPoolInfo {
    Unknown,
    Class(ConstantClassInfo),
    FieldRef(ConstantFieldRefInfo),
    MethodRef(ConstantMethodRefInfo),
    InterfaceMethodRef(ConstantInterfaceMethodrefInfo),
    String(ConstantStringInfo),
    Integer(ConstantIntegerInfo),
    Float(ConstantFloatInfo),
    Long(ConstantLongInfo),
    Double(ConstantDoubleInfo),
    NameAndType(ConstantNameAndTypeInfo),
    Utf8(ConstantUtf8Info),
    MethodHandle(ConstantMethodHandleInfo),
    MethodType(ConstantMethodTypeInfo),
    InvokeDynamic(ConstantInvokeDynamicInfo),
}

/// The mathematical shape of one constant-pool entry.
pub enum CpEntryView {
    Unknown,
    Class { name_index: u16 },
    FieldRef { class_index: u16, name_and_type_index: u16 },
    MethodRef { class_index: u16, name_and_type_index: u16 },
    InterfaceMethodRef { class_index: u16, name_and_type_index: u16 },
    String { string_index: u16 },
    Integer { bytes: u32 },
    Float { bytes: u32 },
    Long { high_bytes: u32, low_bytes: u32 },
    Double { high_bytes: u32, low_bytes: u32 },
    NameAndType { name_index: u16, descriptor_index: u16 },
    Utf8 { length: u16, bytes: Seq<u8> },
    MethodHandle { reference_kind: u8, reference_index: u16 },
    MethodType { descriptor_index: u16 },
    InvokeDynamic { bootstrap_method_attr_index: u16, name_and_type_index: u16 },
}

impl View for ConstantPoolInfo {
    type V = CpEntryView;

    open spec fn view(&self) -> CpEntryView {
        match self {
            ConstantPoolInfo::Unknown => CpEntryView::Unknown,
            ConstantPoolInfo::Class(x) => CpEntryView::Class { name_index: x.name_index },
            ConstantPoolInfo::FieldRef(x) => CpEntryView::FieldRef {
                class_index: x.class_index,
                name_and_type_index: x.name_and_type_index,
            },
            ConstantPoolInfo::MethodRef(x) => CpEntryView::MethodRef {
                class_index: x.class_index,
                name_and_type_index: x.name_and_type_index,
            },
            ConstantPoolInfo::InterfaceMethodRef(x) => CpEntryView::InterfaceMethodRef {
                class_index: x.class_index,
                name_and_type_index: x.name_and_type_index,
            },
            ConstantPoolInfo::String(x) => CpEntryView::String { string_index: x.string_index },
            ConstantPoolInfo::Integer(x) => CpEntryView::Integer { bytes: x.bytes },
            ConstantPoolInfo::Float(x) => CpEntryView::Float { bytes: x.bytes },
            ConstantPoolInfo::Long(x) => CpEntryView::Long {
                high_bytes: x.high_bytes,
                low_bytes: x.low_bytes,
            },
            ConstantPoolInfo::Double(x) => CpEntryView::Double {
                high_bytes: x.high_bytes,
                low_bytes: x.low_bytes,
            },
            ConstantPoolInfo::NameAndType(x) => CpEntryView::NameAndType {
                name_index: x.name_index,
                descriptor_index: x.descriptor_index,
            },
            ConstantPoolInfo::Utf8(x) => CpEntryView::Utf8 { length: x.length, bytes: x.bytes@ },
            ConstantPoolInfo::MethodHandle(x) => CpEntryView::MethodHandle {
                reference_kind: x.reference_kind,
                reference_index: x.reference_index,
            },
            ConstantPoolInfo::MethodType(x) => CpEntryView::MethodType {
                descriptor_index: x.descriptor_index,
            },
            ConstantPoolInfo::InvokeDynamic(x) => CpEntryView::InvokeDynamic {
                bootstrap_method_attr_index: x.bootstrap_method_attr_index,
                name_and_type_index: x.name_and_type_index,
            },
        }
    }
}

/// The views of all entries of a pool, in order.
pub open spec fn pool_view(v: Seq<ConstantPoolInfo>) -> Seq<CpEntryView> {
    Seq::new(v.len(), |i: int| v[i]@)
}

/// What decoding one constant-pool entry at position `p` of `b` yields: the
/// entry and the position after it, or the exact error.
pub open spec fn spec_decode_entry(b: Seq<u8>, p: int) -> Result<(CpEntryView, int), DecodeError> {
    if p + 1 > b.len() {
        Err(DecodeError::Truncated)
    } else {
        let tag = b[p];
        if tag == JVM_TAG_CLASS {
            if p + 3 <= b.len() {
                Ok((CpEntryView::Class { name_index: be2(b, p + 1) }, p + 3))
            } else {
                Err(DecodeError::Truncated)
            }
        } else if tag == JVM_TAG_FIELDREF {
            if p + 5 <= b.len() {
                Ok(
                    (
                        CpEntryView::FieldRef {
                            class_index: be2(b, p + 1),
                            name_and_type_index: be2(b, p + 3),
                        },
                        p + 5,
                    ),
                )
            } else {
                Err(DecodeError::Truncated)
            }
        } else if tag == JVM_TAG_METHODREF {
            if p + 5 <= b.len() {
                Ok(
                    (
                        CpEntryView::MethodRef {
                            class_index: be2(b, p + 1),
                            name_and_type_index: be2(b, p + 3),
                        },
                        p + 5,
                    ),
                )
            } else {
                Err(DecodeError::Truncated)
            }
        } else if tag == JVM_TAG_INTERFACE_METHODREF {
            if p + 5 <= b.len() {
                Ok(
                    (
                        CpEntryView::InterfaceMethodRef {
                            class_index: be2(b, p + 1),
                            name_and_type_index: be2(b, p + 3),
                        },
                        p + 5,
                    ),
                )
            } else {
                Err(DecodeError::Truncated)
            }
        } else if tag == JVM_TAG_STRING {
            if p + 3 <= b.len() {
                Ok((CpEntryView::String { string_index: be2(b, p + 1) }, p + 3))
            } else {
                Err(DecodeError::Truncated)
            }
        } else if tag == JVM_TAG_INTEGER {
            if p + 5 <= b.len() {
                Ok((CpEntryView::Integer { bytes: be4(b, p + 1) }, p + 5))
            } else {
                Err(DecodeError::Truncated)
            }
        } else if tag == JVM_TAG_FLOAT {
            if p + 5 <= b.len() {
                Ok((CpEntryView::Float { bytes: be4(b, p + 1) }, p + 5))
            } else {
                Err(DecodeError::Truncated)
            }
        } else if tag == JVM_TAG_LONG {
            if p + 9 <= b.len() {
                Ok(
                    (
                        CpEntryView::Long {
                            high_bytes: be4(b, p + 1),
                            low_bytes: be4(b, p + 5),
                        },
                        p + 9,
                    ),
                )
            } else {
                Err(DecodeError::Truncated)
            }
        } else if tag == JVM_TAG_DOUBLE {
            if p + 9 <= b.len() {
                Ok(
                    (
                        CpEntryView::Double {
                            high_bytes: be4(b, p + 1),
                            low_bytes: be4(b, p + 5),
                        },
                        p + 9,
                    ),
                )
            } else {
                Err(DecodeError::Truncated)
            }
        } else if tag == JVM_TAG_NAME_AND_TYPE {
            if p + 5 <= b.len() {
                Ok(
                    (
                        CpEntryView::NameAndType {
                            name_index: be2(b, p + 1),
                            descriptor_index: be2(b, p + 3),
                        },
                        p + 5,
                    ),
                )
            } else {
                Err(DecodeError::Truncated)
            }
        } else if tag == JVM_TAG_UTF8 {
            if p + 3 <= b.len() {
                let length = be2(b, p + 1);
                if p + 3 + length <= b.len() {
                    Ok(
                        (
                            CpEntryView::Utf8 {
                                length,
                                bytes: b.subrange(p + 3, p + 3 + length),
                            },
                            p + 3 + length,
                        ),
                    )
                } else {
                    Err(DecodeError::Truncated)
                }
            } else {
                Err(DecodeError::Truncated)
            }
        } else if tag == JVM_TAG_METHOD_HANDLE {
            if p + 4 <= b.len() {
                Ok(
                    (
                        CpEntryView::MethodHandle {
                            reference_kind: b[p + 1],
                            reference_index: be2(b, p + 2),
                        },
                        p + 4,
                    ),
                )
            } else {
                Err(DecodeError::Truncated)
            }
        } else if tag == JVM_TAG_METHOD_TYPE {
            if p + 3 <= b.len() {
                Ok((CpEntryView::MethodType { descriptor_index: be2(b, p + 1) }, p + 3))
            } else {
                Err(DecodeError::Truncated)
            }
        } else if tag == JVM_TAG_INVOKE_DYNAMIC {
            if p + 5 <= b.len() {
                Ok(
                    (
                        CpEntryView::InvokeDynamic {
                            bootstrap_method_attr_index: be2(b, p + 1),
                            name_and_type_index: be2(b, p + 3),
                        },
                        p + 5,
                    ),
                )
            } else {
                Err(DecodeError::Truncated)
            }
        } else {
            Err(DecodeError::UnknownConstantTag(tag))
        }
    }
}

/// What decoding `k` consecutive constant-pool entries at `p` yields.
pub open spec fn spec_decode_entries(b: Seq<u8>, p: int, k: int) -> Result<
    (Seq<CpEntryView>, int),
    DecodeError,
>
    decreases k,
{
    if k <= 0 {
        Ok((Seq::empty(), p))
    } else {
        match spec_decode_entry(b, p) {
            Ok((e, p1)) => match spec_decode_entries(b, p1, k - 1) {
                Ok((rest, p2)) => Ok((seq![e] + rest, p2)),
                Err(err) => Err(err),
            },
            Err(err) => Err(err),
        }
    }
}

/// What decoding a whole pool with declared entry count `count` yields: the
/// placeholder at slot 0 followed by `count - 1` decoded entries.
pub open spec fn spec_decode_pool(b: Seq<u8>, p: int, count: u16) -> Result<
    (Seq<CpEntryView>, int),
    DecodeError,
> {
    match spec_decode_entries(b, p, count - 1) {
        Ok((entries, p1)) => Ok((seq![CpEntryView::Unknown] + entries, p1)),
        Err(err) => Err(err),
    }
}

impl ConstantPoolInfo {
    /// Decodes one entry: a tag byte, then the fixed-shape payload of that tag.
    pub fn from(buffer: &mut Buffer) -> (r: Result<ConstantPoolInfo, DecodeError>)
        ensures
            final(buffer).bytes@ == old(buffer).bytes@,
            match spec_decode_entry(old(buffer).bytes@, old(buffer).pos as int) {
                Ok((entry, p1)) => r is Ok && r->Ok_0@ == entry && final(buffer).pos == p1,
                Err(e) => r is Err && r->Err_0 == e,
            },
    {
        let tag = buffer.u1()?;
        if tag == JVM_TAG_CLASS {
            let name_index = buffer.u2()?;
            Ok(ConstantPoolInfo::Class(ConstantClassInfo { name_index }))
        } else if tag == JVM_TAG_FIELDREF {
            let class_index = buffer.u2()?;
            let name_and_type_index = buffer.u2()?;
            Ok(ConstantPoolInfo::FieldRef(ConstantFieldRefInfo { class_index, name_and_type_index }))
        } else if tag == JVM_TAG_METHODREF {
            let class_index = buffer.u2()?;
            let name_and_type_index = buffer.u2()?;
            Ok(
                ConstantPoolInfo::MethodRef(
                    ConstantMethodRefInfo { class_index, name_and_type_index },
                ),
            )
        } else if tag == JVM_TAG_INTERFACE_METHODREF {
            let class_index = buffer.u2()?;
            let name_and_type_index = buffer.u2()?;
            Ok(
                ConstantPoolInfo::InterfaceMethodRef(
                    ConstantInterfaceMethodrefInfo { class_index, name_and_type_index },
                ),
            )
        } else if tag == JVM_TAG_STRING {
            let string_index = buffer.u2()?;
            Ok(ConstantPoolInfo::String(ConstantStringInfo { string_index }))
        } else if tag == JVM_TAG_INTEGER {
            let bytes = buffer.u4()?;
            Ok(ConstantPoolInfo::Integer(ConstantIntegerInfo { bytes }))
        } else if tag == JVM_TAG_FLOAT {
            let bytes = buffer.u4()?;
            Ok(ConstantPoolInfo::Float(ConstantFloatInfo { bytes }))
        } else if tag == JVM_TAG_LONG {
            let high_bytes = buffer.u4()?;
            let low_bytes = buffer.u4()?;
            Ok(ConstantPoolInfo::Long(ConstantLongInfo { high_bytes, low_bytes }))
        } else if tag == JVM_TAG_DOUBLE {
            let high_bytes = buffer.u4()?;
            let low_bytes = buffer.u4()?;
            Ok(ConstantPoolInfo::Double(ConstantDoubleInfo { high_bytes, low_bytes }))
        } else if tag == JVM_TAG_NAME_AND_TYPE {
            let name_index = buffer.u2()?;
            let descriptor_index = buffer.u2()?;
            Ok(
                ConstantPoolInfo::NameAndType(
                    ConstantNameAndTypeInfo { name_index, descriptor_index },
                ),
            )
        } else if tag == JVM_TAG_UTF8 {
            let length = buffer.u2()?;
            let bytes = buffer.bytes(length as usize)?;
            Ok(ConstantPoolInfo::Utf8(ConstantUtf8Info { length, bytes }))
        } else if tag == JVM_TAG_METHOD_HANDLE {
            let reference_kind = buffer.u1()?;
            let reference_index = buffer.u2()?;
            Ok(
                ConstantPoolInfo::MethodHandle(
                    ConstantMethodHandleInfo { reference_kind, reference_index },
                ),
            )
        } else if tag == JVM_TAG_METHOD_TYPE {
            let descriptor_index = buffer.u2()?;
            Ok(ConstantPoolInfo::MethodType(ConstantMethodTypeInfo { descriptor_index }))
        } else if tag == JVM_TAG_INVOKE_DYNAMIC {
            let bootstrap_method_attr_index = buffer.u2()?;
            let name_and_type_index = buffer.u2()?;
            Ok(
                ConstantPoolInfo::InvokeDynamic(
                    ConstantInvokeDynamicInfo { bootstrap_method_attr_index, name_and_type_index },
                ),
            )
        } else {
            Err(DecodeError::UnknownConstantTag(tag))
        }
    }

    /// Decodes a whole pool: the unused placeholder at slot 0, then `count - 1`
    /// tagged entries read in order.
    pub fn with_capacity(buffer: &mut Buffer, constant_pool_count: u16) -> (r: Result<
        Vec<ConstantPoolInfo>,
        DecodeError,
    >)
        ensures
            final(buffer).bytes@ == old(buffer).bytes@,
            match spec_decode_pool(old(buffer).bytes@, old(buffer).pos as int, constant_pool_count) {
                Ok((pool, p1)) => r is Ok && pool_view(r->Ok_0@) == pool && final(buffer).pos == p1,
                Err(e) => r is Err && r->Err_0 == e,
            },
    {
        let ghost b = buffer.bytes@;
        let ghost p0 = buffer.pos as int;
        let mut constant_pool: Vec<ConstantPoolInfo> = Vec::new();
        constant_pool.push(ConstantPoolInfo::Unknown);
        let total: usize = constant_pool_count as usize;
        let mut k: usize = 1;
        proof {
            assert(pool_view(constant_pool@) =~= seq![CpEntryView::Unknown]);
            assert(pool_view(constant_pool@).skip(1) =~= Seq::<CpEntryView>::empty());
            if let Ok((rest, pe)) = spec_decode_entries(b, p0, total - 1) {
                assert(Seq::<CpEntryView>::empty() + rest =~= rest);
            }
        }
        while k < total
            invariant
                1 <= k,
                total == constant_pool_count as int,
                k <= total || k == 1,
                constant_pool@.len() == k,
                b == old(buffer).bytes@,
                p0 == old(buffer).pos as int,
                buffer.bytes@ == b,
                constant_pool@[0] is Unknown,
                match spec_decode_entries(b, buffer.pos as int, total - k) {
                    Ok((rest, pe)) => spec_decode_entries(b, p0, total - 1) == Ok::<
                        _,
                        DecodeError,
                    >((pool_view(constant_pool@).skip(1) + rest, pe)),
                    Err(e) => spec_decode_entries(b, p0, total - 1) == Err::<
                        (Seq<CpEntryView>, int),
                        _,
                    >(e),
                },
            decreases total - k,
        {
            let ghost pool_before = pool_view(constant_pool@);
            let entry = match ConstantPoolInfo::from(buffer) {
                Ok(e) => e,
                Err(e) => {
                    return Err(e);
                },
            };
            constant_pool.push(entry);
            k = k + 1;
            proof {
                assert(pool_view(constant_pool@) =~= pool_before.push(entry@));
                assert(pool_view(constant_pool@).skip(1) =~= pool_before.skip(1).push(entry@));
                if let Ok((rest, pe)) = spec_decode_entries(b, buffer.pos as int, total - k) {
                    assert(pool_before.skip(1) + (seq![entry@] + rest) =~= pool_view(
                        constant_pool@,
                    ).skip(1) + rest);
                }
            }
        }
        proof {
            assert(spec_decode_entries(b, buffer.pos as int, total - k) == Ok::<
                _,
                DecodeError,
            >((Seq::<CpEntryView>::empty(), buffer.pos as int)));
            assert(pool_view(constant_pool@).skip(1) + Seq::<CpEntryView>::empty() =~= pool_view(
                constant_pool@,
            ).skip(1));
            assert(seq![CpEntryView::Unknown] + pool_view(constant_pool@).skip(1) =~= pool_view(
                constant_pool@,
            ));
        }
        Ok(constant_pool)
    }
}

/// What resolving `index` as UTF-8 text yields: the decoded text when the entry
/// at `index` is the UTF-8 variant, the wrong-constant-kind error otherwise
/// (an index outside the pool resolves to no entry at all).
pub open spec fn spec_resolve_utf8(pool: Seq<CpEntryView>, index: int) -> Result<
    Seq<char>,
    DecodeError,
> {
    if 0 <= index < pool.len() {
        match pool[index] {
            CpEntryView::Utf8 { length, bytes } => Ok(mutf8_decode(bytes)),
            _ => Err(DecodeError::WrongConstantKind),
        }
    } else {
        Err(DecodeError::WrongConstantKind)
    }
}

/// What resolving `index` as a class reference yields: the UTF-8 text its name
/// index points to when the entry is the Class variant, an error otherwise.
pub open spec fn spec_resolve_class(pool: Seq<CpEntryView>, index: int) -> Result<
    Seq<char>,
    DecodeError,
> {
    if 0 <= index < pool.len() {
        match pool[index] {
            CpEntryView::Class { name_index } => spec_resolve_utf8(pool, name_index as int),
            _ => Err(DecodeError::WrongConstantKind),
        }
    } else {
        Err(DecodeError::WrongConstantKind)
    }
}

/// What resolving `index` as a name-and-type pair yields: the resolved name and
/// descriptor texts when the entry is the NameAndType variant, an error
/// otherwise.
pub open spec fn spec_resolve_name_and_type(pool: Seq<CpEntryView>, index: int) -> Result<
    (Seq<char>, Seq<char>),
    DecodeError,
> {
    if 0 <= index < pool.len() {
        match pool[index] {
            CpEntryView::NameAndType { name_index, descriptor_index } => match (
                spec_resolve_utf8(pool, name_index as int),
                spec_resolve_utf8(pool, descriptor_index as int),
            ) {
                (Ok(name), Ok(descriptor)) => Ok((name, descriptor)),
                (Err(e), _) => Err(e),
                (_, Err(e)) => Err(e),
            },
            _ => Err(DecodeError::WrongConstantKind),
        }
    } else {
        Err(DecodeError::WrongConstantKind)
    }
}

/// Resolves `index` to the decoded text of the UTF-8 entry there; any other
/// variant, and any index outside the pool, is a wrong-constant-kind error.
pub fn resolve_utf8(pool: &Vec<ConstantPoolInfo>, index: u16) -> (r: Result<String, DecodeError>)
    ensures
        match spec_resolve_utf8(pool_view(pool@), index as int) {
            Ok(text) => r is Ok && r->Ok_0@ == text,
            Err(e) => r is Err && r->Err_0 == e,
        },
{
    if (index as usize) < pool.len() {
        match &pool[index as usize] {
            ConstantPoolInfo::Utf8(utf8) => Ok(decode_mutf8(&utf8.bytes)),
            _ => Err(DecodeError::WrongConstantKind),
        }
    } else {
        Err(DecodeError::WrongConstantKind)
    }
}

/// Resolves `index` to the name of the class entry there, via its UTF-8 name
/// index; any other variant is a wrong-constant-kind error.
pub fn resolve_class(pool: &Vec<ConstantPoolInfo>, index: u16) -> (r: Result<String, DecodeError>)
    ensures
        match spec_resolve_class(pool_view(pool@), index as int) {
            Ok(text) => r is Ok && r->Ok_0@ == text,
            Err(e) => r is Err && r->Err_0 == e,
        },
{
    if (index as usize) < pool.len() {
        let name_index = match &pool[index as usize] {
            ConstantPoolInfo::Class(class_info) => class_info.name_index,
            _ => {
                return Err(DecodeError::WrongConstantKind);
            },
        };
        resolve_utf8(pool, name_index)
    } else {
        Err(DecodeError::WrongConstantKind)
    }
}

/// Resolves `index` to the resolved name and descriptor of the name-and-type
/// entry there; any other variant is a wrong-constant-kind error.
pub fn resolve_name_and_type(pool: &Vec<ConstantPoolInfo>, index: u16) -> (r: Result<
    (String, String),
    DecodeError,
>)
    ensures
        match spec_resolve_name_and_type(pool_view(pool@), index as int) {
            Ok(pair) => r is Ok && r->Ok_0.0@ == pair.0 && r->Ok_0.1@ == pair.1,
            Err(e) => r is Err && r->Err_0 == e,
        },
{
    if (index as usize) < pool.len() {
        let (name_index, descriptor_index) = match &pool[index as usize] {
            ConstantPoolInfo::NameAndType(nt) => (nt.name_index, nt.descriptor_index),
            _ => {
                return Err(DecodeError::WrongConstantKind);
            },
        };
        let name = resolve_utf8(pool, name_index)?;
        let descriptor = resolve_utf8(pool, descriptor_index)?;
        Ok((name, descriptor))
    } else {
        Err(DecodeError::WrongConstantKind)
    }
}

/// Law: resolving UTF-8 text is idempotent on a built pool. [`resolve_utf8`]
/// promises that any text it returns is `spec_resolve_utf8` of the pool and the
/// index alone, so two calls with the same index on the same pool — which is
/// immutable once decoded — yield identical text.
pub proof fn lemma_resolve_utf8_idempotent(
    pool: Seq<CpEntryView>,
    index: int,
    first: Seq<char>,
    second: Seq<char>,
)
    requires
        spec_resolve_utf8(pool, index) == Ok::<Seq<char>, DecodeError>(first),
        spec_resolve_utf8(pool, index) == Ok::<Seq<char>, DecodeError>(second),
    ensures
        first == second,
{
}

} // verus!
