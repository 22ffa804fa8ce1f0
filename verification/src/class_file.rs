//! The raw container: a byte cursor and the top-level class-file structure.
//!
//! The container is decoded in the fixed order the format gives: magic, the two
//! version fields, the constant pool, the access flags and class indices, the
//! interface indices, the fields, the methods, and the top-level attributes.
//! The constant pool is fully decoded before any later section, because fields,
//! methods and attributes resolve names through it while they decode.

use vstd::prelude::*;

use crate::attributes::{attrs_view, code_view, spec_decode_attributes, spec_find_code,
    AttributeInfo, AttributeInfoView, CodeAttribute};
use crate::constant_pool::{pool_view, spec_decode_pool, ConstantPoolInfo, CpEntryView};
use crate::error::DecodeError;

verus! {

/// The big-endian unsigned value of the two bytes of `b` at `p`.
pub open spec fn be2(b: Seq<u8>, p: int) -> u16 {
    (((b[p] as int) * 0x100 + (b[p + 1] as int)) as u16)
}

/// The big-endian unsigned value of the four bytes of `b` at `p`.
pub open spec fn be4(b: Seq<u8>, p: int) -> u32 {
    (((b[p] as int) * 0x1000000 + (b[p + 1] as int) * 0x10000 + (b[p + 2] as int) * 0x100 + (b[p
        + 3] as int)) as u32)
}

/// A forward-only cursor over the bytes of a class file.
///
/// The fixed-width reads and the raw-byte read advance `pos` by exactly the
/// number of bytes they return; each fails with [`DecodeError::Truncated`],
/// leaving the cursor where it was, when fewer bytes remain. This is the only
/// validation layer against truncated input.
pub struct Buffer {
    pub bytes: Vec<u8>,
    pub pos: usize,
}

impl Buffer {
    /// A cursor at the start of `bytes`.
    pub fn from(bytes: Vec<u8>) -> (r: Buffer)
        ensures
            r.bytes@ == bytes@,
            r.pos == 0,
    {
        Buffer { bytes, pos: 0 }
    }

    /// Reads one byte.
    pub fn u1(&mut self) -> (r: Result<u8, DecodeError>)
        ensures
            final(self).bytes@ == old(self).bytes@,
            old(self).pos + 1 <= old(self).bytes@.len() ==> {
                &&& r == Ok::<u8, DecodeError>(old(self).bytes@[old(self).pos as int])
                &&& final(self).pos == old(self).pos + 1
            },
            old(self).pos + 1 > old(self).bytes@.len() ==> {
                &&& r == Err::<u8, DecodeError>(DecodeError::Truncated)
                &&& final(self).pos == old(self).pos
            },
    {
        let n = self.bytes.len();
        if self.pos < n {
            let value = self.bytes[self.pos];
            self.pos = self.pos + 1;
            Ok(value)
        } else {
            Err(DecodeError::Truncated)
        }
    }

    /// Reads a two-byte big-endian unsigned integer.
    pub fn u2(&mut self) -> (r: Result<u16, DecodeError>)
        ensures
            final(self).bytes@ == old(self).bytes@,
            old(self).pos + 2 <= old(self).bytes@.len() ==> {
                &&& r == Ok::<u16, DecodeError>(be2(old(self).bytes@, old(self).pos as int))
                &&& final(self).pos == old(self).pos + 2
            },
            old(self).pos + 2 > old(self).bytes@.len() ==> {
                &&& r == Err::<u16, DecodeError>(DecodeError::Truncated)
                &&& final(self).pos == old(self).pos
            },
    {
        let n = self.bytes.len();
        if self.pos < n && n - self.pos >= 2 {
            let hi = self.bytes[self.pos];
            let lo = self.bytes[self.pos + 1];
            self.pos = self.pos + 2;
            Ok((hi as u16) * 0x100 + (lo as u16))
        } else {
            Err(DecodeError::Truncated)
        }
    }

    /// Reads a four-byte big-endian unsigned integer.
    pub fn u4(&mut self) -> (r: Result<u32, DecodeError>)
        ensures
            final(self).bytes@ == old(self).bytes@,
            old(self).pos + 4 <= old(self).bytes@.len() ==> {
                &&& r == Ok::<u32, DecodeError>(be4(old(self).bytes@, old(self).pos as int))
                &&& final(self).pos == old(self).pos + 4
            },
            old(self).pos + 4 > old(self).bytes@.len() ==> {
                &&& r == Err::<u32, DecodeError>(DecodeError::Truncated)
                &&& final(self).pos == old(self).pos
            },
    {
        let n = self.bytes.len();
        if self.pos < n && n - self.pos >= 4 {
            let b0 = self.bytes[self.pos];
            let b1 = self.bytes[self.pos + 1];
            let b2 = self.bytes[self.pos + 2];
            let b3 = self.bytes[self.pos + 3];
            self.pos = self.pos + 4;
            Ok((b0 as u32) * 0x1000000 + (b1 as u32) * 0x10000 + (b2 as u32) * 0x100 + (b3 as u32))
        } else {
            Err(DecodeError::Truncated)
        }
    }

    /// Reads the next `length` bytes verbatim.
    pub fn bytes(&mut self, length: usize) -> (r: Result<Vec<u8>, DecodeError>)
        ensures
            final(self).bytes@ == old(self).bytes@,
            old(self).pos + length <= old(self).bytes@.len() ==> {
                &&& r is Ok
                &&& r->Ok_0@ == old(self).bytes@.subrange(
                    old(self).pos as int,
                    old(self).pos + length,
                )
                &&& final(self).pos == old(self).pos + length
            },
            old(self).pos + length > old(self).bytes@.len() ==> {
                &&& r == Err::<Vec<u8>, DecodeError>(DecodeError::Truncated)
                &&& final(self).pos == old(self).pos
            },
    {
        let n = self.bytes.len();
        if self.pos <= n && n - self.pos >= length {
            let mut vec: Vec<u8> = Vec::new();
            let mut i: usize = 0;
            while i < length
                invariant
                    i <= length,
                    n == self.bytes@.len(),
                    self.pos + length <= n,
                    vec@ == self.bytes@.subrange(self.pos as int, self.pos + i),
                decreases length - i,
            {
                vec.push(self.bytes[self.pos + i]);
                i = i + 1;
                proof {
                    assert(vec@ =~= self.bytes@.subrange(self.pos as int, self.pos + i));
                }
            }
            self.pos = self.pos + length;
            Ok(vec)
        } else {
            Err(DecodeError::Truncated)
        }
    }
}

/// field_info: access flags, name and descriptor indices, and attributes.
pub struct FieldInfo {
    pub access_flags: u16,
    pub name_index: u16,
    pub descriptor_index: u16,
    pub attribute_count: u16,
    pub attributes: Vec<AttributeInfo>,
}

/// method_info: access flags, name and descriptor indices, and attributes.
pub struct MethodInfo {
    pub access_flags: u16,
    pub name_index: u16,
    pub descriptor_index: u16,
    pub attribute_count: u16,
    pub attributes: Vec<AttributeInfo>,
}

/// The mathematical shape of one field record.
pub struct FieldInfoView {
    pub access_flags: u16,
    pub name_index: u16,
    pub descriptor_index: u16,
    pub attribute_count: u16,
    pub attributes: Seq<AttributeInfoView>,
}

/// The mathematical shape of one method record.
pub struct MethodInfoView {
    pub access_flags: u16,
    pub name_index: u16,
    pub descriptor_index: u16,
    pub attribute_count: u16,
    pub attributes: Seq<AttributeInfoView>,
}

impl View for FieldInfo {
    type V = FieldInfoView;

    open spec fn view(&self) -> FieldInfoView {
        FieldInfoView {
            access_flags: self.access_flags,
            name_index: self.name_index,
            descriptor_index: self.descriptor_index,
            attribute_count: self.attribute_count,
            attributes: attrs_view(self.attributes@),
        }
    }
}

impl View for MethodInfo {
    type V = MethodInfoView;

    open spec fn view(&self) -> MethodInfoView {
        MethodInfoView {
            access_flags: self.access_flags,
            name_index: self.name_index,
            descriptor_index: self.descriptor_index,
            attribute_count: self.attribute_count,
            attributes: attrs_view(self.attributes@),
        }
    }
}

/// The views of all field records of a sequence, in order.
pub open spec fn fields_view(v: Seq<FieldInfo>) -> Seq<FieldInfoView> {
    Seq::new(v.len(), |i: int| v[i]@)
}

/// The views of all method records of a sequence, in order.
pub open spec fn methods_view(v: Seq<MethodInfo>) -> Seq<MethodInfoView> {
    Seq::new(v.len(), |i: int| v[i]@)
}

/// What decoding one field record at `p` yields: eight bytes of fixed fields,
/// then its attributes.
pub open spec fn spec_decode_field(b: Seq<u8>, pool: Seq<CpEntryView>, p: int) -> Result<
    (FieldInfoView, int),
    DecodeError,
> {
    if p + 8 > b.len() {
        Err(DecodeError::Truncated)
    } else {
        let attribute_count = be2(b, p + 6);
        match spec_decode_attributes(b, pool, p + 8, attribute_count as int) {
            Ok((attrs, p1)) => Ok(
                (
                    FieldInfoView {
                        access_flags: be2(b, p),
                        name_index: be2(b, p + 2),
                        descriptor_index: be2(b, p + 4),
                        attribute_count,
                        attributes: attrs,
                    },
                    p1,
                ),
            ),
            Err(e) => Err(e),
        }
    }
}

/// What decoding `k` consecutive field records at `p` yields.
pub open spec fn spec_decode_fields(b: Seq<u8>, pool: Seq<CpEntryView>, p: int, k: int) -> Result<
    (Seq<FieldInfoView>, int),
    DecodeError,
>
    decreases k,
{
    if k <= 0 {
        Ok((Seq::empty(), p))
    } else {
        match spec_decode_field(b, pool, p) {
            Ok((f, p1)) => match spec_decode_fields(b, pool, p1, k - 1) {
                Ok((rest, p2)) => Ok((seq![f] + rest, p2)),
                Err(e) => Err(e),
            },
            Err(e) => Err(e),
        }
    }
}

/// What decoding one method record at `p` yields: the same layout as a field.
pub open spec fn spec_decode_method(b: Seq<u8>, pool: Seq<CpEntryView>, p: int) -> Result<
    (MethodInfoView, int),
    DecodeError,
> {
    if p + 8 > b.len() {
        Err(DecodeError::Truncated)
    } else {
        let attribute_count = be2(b, p + 6);
        match spec_decode_attributes(b, pool, p + 8, attribute_count as int) {
            Ok((attrs, p1)) => Ok(
                (
                    MethodInfoView {
                        access_flags: be2(b, p),
                        name_index: be2(b, p + 2),
                        descriptor_index: be2(b, p + 4),
                        attribute_count,
                        attributes: attrs,
                    },
                    p1,
                ),
            ),
            Err(e) => Err(e),
        }
    }
}

/// What decoding `k` consecutive method records at `p` yields.
pub open spec fn spec_decode_methods(b: Seq<u8>, pool: Seq<CpEntryView>, p: int, k: int) -> Result<
    (Seq<MethodInfoView>, int),
    DecodeError,
>
    decreases k,
{
    if k <= 0 {
        Ok((Seq::empty(), p))
    } else {
        match spec_decode_method(b, pool, p) {
            Ok((m, p1)) => match spec_decode_methods(b, pool, p1, k - 1) {
                Ok((rest, p2)) => Ok((seq![m] + rest, p2)),
                Err(e) => Err(e),
            },
            Err(e) => Err(e),
        }
    }
}

impl FieldInfo {
    /// Decodes one field record.
    pub fn from(buffer: &mut Buffer, constant_pool: &Vec<ConstantPoolInfo>) -> (r: Result<
        FieldInfo,
        DecodeError,
    >)
        ensures
            final(buffer).bytes@ == old(buffer).bytes@,
            match spec_decode_field(
                old(buffer).bytes@,
                pool_view(constant_pool@),
                old(buffer).pos as int,
            ) {
                Ok((f, p1)) => r is Ok && r->Ok_0@ == f && final(buffer).pos == p1,
                Err(e) => r is Err && r->Err_0 == e,
            },
    {
        let access_flags = buffer.u2()?;
        let name_index = buffer.u2()?;
        let descriptor_index = buffer.u2()?;
        let attribute_count = buffer.u2()?;
        let attributes = AttributeInfo::with_capacity(buffer, constant_pool, attribute_count)?;
        Ok(FieldInfo { access_flags, name_index, descriptor_index, attribute_count, attributes })
    }

    /// Decodes `fields_count` consecutive field records.
    #[verifier::loop_isolation(false)]
    pub fn with_capacity(
        buffer: &mut Buffer,
        constant_pool: &Vec<ConstantPoolInfo>,
        fields_count: u16,
    ) -> (r: Result<Vec<FieldInfo>, DecodeError>)
        ensures
            final(buffer).bytes@ == old(buffer).bytes@,
            match spec_decode_fields(
                old(buffer).bytes@,
                pool_view(constant_pool@),
                old(buffer).pos as int,
                fields_count as int,
            ) {
                Ok((fs, p1)) => r is Ok && fields_view(r->Ok_0@) == fs && final(buffer).pos == p1,
                Err(e) => r is Err && r->Err_0 == e,
            },
    {
        let ghost b = buffer.bytes@;
        let ghost p0 = buffer.pos as int;
        let ghost pv = pool_view(constant_pool@);
        let mut fields: Vec<FieldInfo> = Vec::new();
        let total: usize = fields_count as usize;
        let mut k: usize = 0;
        proof {
            if let Ok((rest, pe)) = spec_decode_fields(b, pv, p0, total as int) {
                assert(Seq::<FieldInfoView>::empty() + rest =~= rest);
                assert(fields_view(fields@) =~= Seq::<FieldInfoView>::empty());
            }
        }
        while k < total
            invariant
                k <= total,
                buffer.bytes@ == b,
                fields@.len() == k,
                match spec_decode_fields(b, pv, buffer.pos as int, total - k) {
                    Ok((rest, pe)) => spec_decode_fields(b, pv, p0, total as int) == Ok::<
                        _,
                        DecodeError,
                    >((fields_view(fields@) + rest, pe)),
                    Err(e) => spec_decode_fields(b, pv, p0, total as int) == Err::<
                        (Seq<FieldInfoView>, int),
                        _,
                    >(e),
                },
            decreases total - k,
        {
            let ghost before = fields_view(fields@);
            let field = FieldInfo::from(buffer, constant_pool)?;
            fields.push(field);
            k = k + 1;
            proof {
                assert(fields_view(fields@) =~= before.push(field@));
                if let Ok((rest, pe)) = spec_decode_fields(b, pv, buffer.pos as int, total - k) {
                    assert(before + (seq![field@] + rest) =~= fields_view(fields@) + rest);
                }
            }
        }
        proof {
            assert(fields_view(fields@) + Seq::<FieldInfoView>::empty() =~= fields_view(fields@));
        }
        Ok(fields)
    }
}

impl MethodInfo {
    /// Decodes one method record.
    pub fn from(buffer: &mut Buffer, constant_pool: &Vec<ConstantPoolInfo>) -> (r: Result<
        MethodInfo,
        DecodeError,
    >)
        ensures
            final(buffer).bytes@ == old(buffer).bytes@,
            match spec_decode_method(
                old(buffer).bytes@,
                pool_view(constant_pool@),
                old(buffer).pos as int,
            ) {
                Ok((m, p1)) => r is Ok && r->Ok_0@ == m && final(buffer).pos == p1,
                Err(e) => r is Err && r->Err_0 == e,
            },
    {
        let access_flags = buffer.u2()?;
        let name_index = buffer.u2()?;
        let descriptor_index = buffer.u2()?;
        let attribute_count = buffer.u2()?;
        let attributes = AttributeInfo::with_capacity(buffer, constant_pool, attribute_count)?;
        Ok(MethodInfo { access_flags, name_index, descriptor_index, attribute_count, attributes })
    }

    /// The first code attribute of this method record, if any.
    #[verifier::loop_isolation(false)]
    pub fn find_code_attribute(&self) -> (r: Option<&CodeAttribute>)
        ensures
            match spec_find_code(attrs_view(self.attributes@)) {
                Some(cv) => r matches Some(c) && code_view(*c) == cv,
                None => r is None,
            },
    {
        let ghost av = attrs_view(self.attributes@);
        let n = self.attributes.len();
        let mut i: usize = 0;
        proof {
            assert(av.skip(0) =~= av);
        }
        while i < n
            invariant
                i <= n,
                spec_find_code(av.skip(i as int)) == spec_find_code(av),
            decreases n - i,
        {
            match &self.attributes[i] {
                AttributeInfo::Code(c) => {
                    proof {
                        assert(av.skip(i as int)[0] == av[i as int]);
                    }
                    return Some(c);
                },
                _ => {
                },
            }
            i = i + 1;
            proof {
                assert(av.skip(i - 1)[0] == av[i - 1]);
                assert(av.skip(i - 1).skip(1) =~= av.skip(i as int));
            }
        }
        None
    }

    /// Decodes `method_count` consecutive method records.
    #[verifier::loop_isolation(false)]
    pub fn with_capacity(
        buffer: &mut Buffer,
        constant_pool: &Vec<ConstantPoolInfo>,
        method_count: u16,
    ) -> (r: Result<Vec<MethodInfo>, DecodeError>)
        ensures
            final(buffer).bytes@ == old(buffer).bytes@,
            match spec_decode_methods(
                old(buffer).bytes@,
                pool_view(constant_pool@),
                old(buffer).pos as int,
                method_count as int,
            ) {
                Ok((ms, p1)) => r is Ok && methods_view(r->Ok_0@) == ms && final(buffer).pos == p1,
                Err(e) => r is Err && r->Err_0 == e,
            },
    {
        let ghost b = buffer.bytes@;
        let ghost p0 = buffer.pos as int;
        let ghost pv = pool_view(constant_pool@);
        let mut methods: Vec<MethodInfo> = Vec::new();
        let total: usize = method_count as usize;
        let mut k: usize = 0;
        proof {
            if let Ok((rest, pe)) = spec_decode_methods(b, pv, p0, total as int) {
                assert(Seq::<MethodInfoView>::empty() + rest =~= rest);
                assert(methods_view(methods@) =~= Seq::<MethodInfoView>::empty());
            }
        }
        while k < total
            invariant
                k <= total,
                buffer.bytes@ == b,
                methods@.len() == k,
                match spec_decode_methods(b, pv, buffer.pos as int, total - k) {
                    Ok((rest, pe)) => spec_decode_methods(b, pv, p0, total as int) == Ok::<
                        _,
                        DecodeError,
                    >((methods_view(methods@) + rest, pe)),
                    Err(e) => spec_decode_methods(b, pv, p0, total as int) == Err::<
                        (Seq<MethodInfoView>, int),
                        _,
                    >(e),
                },
            decreases total - k,
        {
            let ghost before = methods_view(methods@);
            let method = MethodInfo::from(buffer, constant_pool)?;
            methods.push(method);
            k = k + 1;
            proof {
                assert(methods_view(methods@) =~= before.push(method@));
                if let Ok((rest, pe)) = spec_decode_methods(b, pv, buffer.pos as int, total - k) {
                    assert(before + (seq![method@] + rest) =~= methods_view(methods@) + rest);
                }
            }
        }
        proof {
            assert(methods_view(methods@) + Seq::<MethodInfoView>::empty() =~= methods_view(
                methods@,
            ));
        }
        Ok(methods)
    }
}

/// The raw container: every count field of the on-disk layout, and the decoded
/// contents of each variable-length section.
pub struct ClassFile {
    pub magic: u32,
    pub minor_version: u16,
    pub major_version: u16,
    pub constant_pool_count: u16,
    pub constant_pool: Vec<ConstantPoolInfo>,
    pub access_flags: u16,
    pub this_class: u16,
    pub super_class: u16,
    pub interfaces_count: u16,
    pub interfaces: Vec<u16>,
    pub fields_count: u16,
    pub fields: Vec<FieldInfo>,
    pub methods_count: u16,
    pub methods: Vec<MethodInfo>,
    pub attributes_count: u16,
    pub attributes: Vec<AttributeInfo>,
}

/// The mathematical shape of a whole raw container.
pub struct ClassFileView {
    pub magic: u32,
    pub minor_version: u16,
    pub major_version: u16,
    pub constant_pool_count: u16,
    pub constant_pool: Seq<CpEntryView>,
    pub access_flags: u16,
    pub this_class: u16,
    pub super_class: u16,
    pub interfaces_count: u16,
    pub interfaces: Seq<u16>,
    pub fields_count: u16,
    pub fields: Seq<FieldInfoView>,
    pub methods_count: u16,
    pub methods: Seq<MethodInfoView>,
    pub attributes_count: u16,
    pub attributes: Seq<AttributeInfoView>,
}

impl View for ClassFile {
    type V = ClassFileView;

    open spec fn view(&self) -> ClassFileView {
        ClassFileView {
            magic: self.magic,
            minor_version: self.minor_version,
            major_version: self.major_version,
            constant_pool_count: self.constant_pool_count,
            constant_pool: pool_view(self.constant_pool@),
            access_flags: self.access_flags,
            this_class: self.this_class,
            super_class: self.super_class,
            interfaces_count: self.interfaces_count,
            interfaces: self.interfaces@,
            fields_count: self.fields_count,
            fields: fields_view(self.fields@),
            methods_count: self.methods_count,
            methods: methods_view(self.methods@),
            attributes_count: self.attributes_count,
            attributes: attrs_view(self.attributes@),
        }
    }
}

/// What decoding a whole class file at `p` yields: every section in file order,
/// with the constant pool available to all later sections, or the exact error
/// of the first section that fails.
pub open spec fn spec_decode_class_file(b: Seq<u8>, p: int) -> Result<
    (ClassFileView, int),
    DecodeError,
> {
    if p + 10 > b.len() {
        Err(DecodeError::Truncated)
    } else {
        let constant_pool_count = be2(b, p + 8);
        match spec_decode_pool(b, p + 10, constant_pool_count) {
            Err(e) => Err(e),
            Ok((pool, p1)) => if p1 + 8 > b.len() {
                Err(DecodeError::Truncated)
            } else {
                let interfaces_count = be2(b, p1 + 6);
                let q = p1 + 8 + 2 * interfaces_count;
                if q > b.len() {
                    Err(DecodeError::Truncated)
                } else if q + 2 > b.len() {
                    Err(DecodeError::Truncated)
                } else {
                    let fields_count = be2(b, q);
                    match spec_decode_fields(b, pool, q + 2, fields_count as int) {
                        Err(e) => Err(e),
                        Ok((fields, p2)) => if p2 + 2 > b.len() {
                            Err(DecodeError::Truncated)
                        } else {
                            let methods_count = be2(b, p2);
                            match spec_decode_methods(b, pool, p2 + 2, methods_count as int) {
                                Err(e) => Err(e),
                                Ok((methods, p3)) => if p3 + 2 > b.len() {
                                    Err(DecodeError::Truncated)
                                } else {
                                    let attributes_count = be2(b, p3);
                                    match spec_decode_attributes(
                                        b,
                                        pool,
                                        p3 + 2,
                                        attributes_count as int,
                                    ) {
                                        Err(e) => Err(e),
                                        Ok((attributes, p4)) => Ok(
                                            (
                                                ClassFileView {
                                                    magic: be4(b, p),
                                                    minor_version: be2(b, p + 4),
                                                    major_version: be2(b, p + 6),
                                                    constant_pool_count,
                                                    constant_pool: pool,
                                                    access_flags: be2(b, p1),
                                                    this_class: be2(b, p1 + 2),
                                                    super_class: be2(b, p1 + 4),
                                                    interfaces_count,
                                                    interfaces: Seq::new(
                                                        interfaces_count as nat,
                                                        |i: int| be2(b, p1 + 8 + 2 * i),
                                                    ),
                                                    fields_count,
                                                    fields,
                                                    methods_count,
                                                    methods,
                                                    attributes_count,
                                                    attributes,
                                                },
                                                p4,
                                            ),
                                        ),
                                    }
                                },
                            }
                        },
                    }
                }
            },
        }
    }
}

impl ClassFile {
    /// Decodes a whole class file from the cursor, in file order.
    #[verifier::loop_isolation(false)]
    pub fn from(buffer: &mut Buffer) -> (r: Result<ClassFile, DecodeError>)
        ensures
            final(buffer).bytes@ == old(buffer).bytes@,
            match spec_decode_class_file(old(buffer).bytes@, old(buffer).pos as int) {
                Ok((cf, p1)) => r is Ok && r->Ok_0@ == cf && final(buffer).pos == p1,
                Err(e) => r is Err && r->Err_0 == e,
            },
    {
        let ghost b = buffer.bytes@;
        let ghost p = buffer.pos as int;
        let magic = buffer.u4()?;
        let minor_version = buffer.u2()?;
        let major_version = buffer.u2()?;
        let constant_pool_count = buffer.u2()?;
        let constant_pool = ConstantPoolInfo::with_capacity(buffer, constant_pool_count)?;
        let ghost p1 = buffer.pos as int;
        let access_flags = buffer.u2()?;
        let this_class = buffer.u2()?;
        let super_class = buffer.u2()?;
        let interfaces_count = buffer.u2()?;
        let mut interfaces: Vec<u16> = Vec::new();
        let mut i: usize = 0;
        while i < interfaces_count as usize
            invariant
                i <= interfaces_count,
                buffer.bytes@ == b,
                p1 + 8 + 2 * i == buffer.pos,
                buffer.pos <= b.len(),
                interfaces@ =~= Seq::new(i as nat, |j: int| be2(b, p1 + 8 + 2 * j)),
            decreases interfaces_count - i,
        {
            let interface = match buffer.u2() {
                Ok(v) => v,
                Err(e) => {
                    proof {
                        assert(p1 + 8 + 2 * (interfaces_count as int) > b.len());
                    }
                    return Err(e);
                },
            };
            interfaces.push(interface);
            i = i + 1;
            proof {
                assert(interfaces@ =~= Seq::new(i as nat, |j: int| be2(b, p1 + 8 + 2 * j)));
            }
        }
        let fields_count = buffer.u2()?;
        let fields = FieldInfo::with_capacity(buffer, &constant_pool, fields_count)?;
        let methods_count = buffer.u2()?;
        let methods = MethodInfo::with_capacity(buffer, &constant_pool, methods_count)?;
        let attributes_count = buffer.u2()?;
        let attributes = AttributeInfo::with_capacity(buffer, &constant_pool, attributes_count)?;
        Ok(
            ClassFile {
                magic,
                minor_version,
                major_version,
                constant_pool_count,
                constant_pool,
                access_flags,
                this_class,
                super_class,
                interfaces_count,
                interfaces,
                fields_count,
                fields,
                methods_count,
                methods,
                attributes_count,
                attributes,
            },
        )
    }

    /// Decodes a whole class file from the start of `bytes`.
    pub fn new(bytes: Vec<u8>) -> (r: Result<ClassFile, DecodeError>)
        ensures
            match spec_decode_class_file(bytes@, 0) {
                Ok((cf, p1)) => r is Ok && r->Ok_0@ == cf,
                Err(e) => r is Err && r->Err_0 == e,
            },
    {
        let mut buffer = Buffer::from(bytes);
        ClassFile::from(&mut buffer)
    }
}

/// A forward-only cursor over a decoded method's raw bytecode, for consumers
/// that walk instructions. The reads mirror [`Buffer`].
pub struct ByteCodeVisitor {
    pub bytecode: Vec<u8>,
    pub pos: usize,
}

impl ByteCodeVisitor {
    /// A cursor at the start of `bytecode`.
    pub fn from(bytecode: Vec<u8>) -> (r: ByteCodeVisitor)
        ensures
            r.bytecode@ == bytecode@,
            r.pos == 0,
    {
        ByteCodeVisitor { bytecode, pos: 0 }
    }

    /// Reads one byte.
    pub fn u1(&mut self) -> (r: Result<u8, DecodeError>)
        ensures
            final(self).bytecode@ == old(self).bytecode@,
            old(self).pos + 1 <= old(self).bytecode@.len() ==> {
                &&& r == Ok::<u8, DecodeError>(old(self).bytecode@[old(self).pos as int])
                &&& final(self).pos == old(self).pos + 1
            },
            old(self).pos + 1 > old(self).bytecode@.len() ==> {
                &&& r == Err::<u8, DecodeError>(DecodeError::Truncated)
                &&& final(self).pos == old(self).pos
            },
    {
        let n = self.bytecode.len();
        if self.pos < n {
            let value = self.bytecode[self.pos];
            self.pos = self.pos + 1;
            Ok(value)
        } else {
            Err(DecodeError::Truncated)
        }
    }

    /// Reads a two-byte big-endian unsigned integer.
    pub fn u2(&mut self) -> (r: Result<u16, DecodeError>)
        ensures
            final(self).bytecode@ == old(self).bytecode@,
            old(self).pos + 2 <= old(self).bytecode@.len() ==> {
                &&& r == Ok::<u16, DecodeError>(be2(old(self).bytecode@, old(self).pos as int))
                &&& final(self).pos == old(self).pos + 2
            },
            old(self).pos + 2 > old(self).bytecode@.len() ==> {
                &&& r == Err::<u16, DecodeError>(DecodeError::Truncated)
                &&& final(self).pos == old(self).pos
            },
    {
        let n = self.bytecode.len();
        if self.pos < n && n - self.pos >= 2 {
            let hi = self.bytecode[self.pos];
            let lo = self.bytecode[self.pos + 1];
            self.pos = self.pos + 2;
            Ok((hi as u16) * 0x100 + (lo as u16))
        } else {
            Err(DecodeError::Truncated)
        }
    }

    /// Reads a four-byte big-endian unsigned integer.
    pub fn u4(&mut self) -> (r: Result<u32, DecodeError>)
        ensures
            final(self).bytecode@ == old(self).bytecode@,
            old(self).pos + 4 <= old(self).bytecode@.len() ==> {
                &&& r == Ok::<u32, DecodeError>(be4(old(self).bytecode@, old(self).pos as int))
                &&& final(self).pos == old(self).pos + 4
            },
            old(self).pos + 4 > old(self).bytecode@.len() ==> {
                &&& r == Err::<u32, DecodeError>(DecodeError::Truncated)
                &&& final(self).pos == old(self).pos
            },
    {
        let n = self.bytecode.len();
        if self.pos < n && n - self.pos >= 4 {
            let b0 = self.bytecode[self.pos];
            let b1 = self.bytecode[self.pos + 1];
            let b2 = self.bytecode[self.pos + 2];
            let b3 = self.bytecode[self.pos + 3];
            self.pos = self.pos + 4;
            Ok((b0 as u32) * 0x1000000 + (b1 as u32) * 0x10000 + (b2 as u32) * 0x100 + (b3 as u32))
        } else {
            Err(DecodeError::Truncated)
        }
    }
}

} // verus!
