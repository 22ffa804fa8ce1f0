//! The symbolic model: classes, fields, methods and constants with every
//! constant-pool index resolved into a self-contained string.
//!
//! A [`Class`] is built in one pass over a fully decoded container. Cross-class
//! links (the superclass, the interfaces, the owner of a field or method) are
//! deliberately deferred: they are kept as an explicit unresolved sentinel or an
//! unset handle, to be replaced by an external linker once the referenced
//! classes exist, and are never dereferenced before that.

use vstd::prelude::*;

use crate::class_file::{ClassFile, ClassFileView, FieldInfoView, MethodInfoView};
use crate::constant_pool::{
    pool_view, resolve_class, resolve_name_and_type, resolve_utf8, spec_resolve_class,
    spec_resolve_name_and_type, spec_resolve_utf8, ConstantPoolInfo, CpEntryView,
};
use crate::constants::{
    JVM_ACC_ABSTRACT, JVM_ACC_NATIVE, JVM_SIGNATURE_BOOLEAN, JVM_SIGNATURE_BYTE,
    JVM_SIGNATURE_CHAR, JVM_SIGNATURE_CLASS, JVM_SIGNATURE_DOUBLE, JVM_SIGNATURE_ENDCLASS,
    JVM_SIGNATURE_FLOAT, JVM_SIGNATURE_INT, JVM_SIGNATURE_LONG, JVM_SIGNATURE_SHORT,
};
use crate::error::DecodeError;
use crate::mutf8::{append_chars, mutf8_decode};

verus! {

/// A deferred reference to another class: the unresolved sentinel set by the
/// model builder, or the handle of a loaded class, filled in by an external
/// linker. An unresolved reference is never dereferenced.
#[derive(Debug, Clone, Copy, PartialEq, Eq, Structural)]
pub enum ClassRef {
    Unresolved,
    Loaded(usize),
}

/// A runtime type: the eight primitives, or a class.
pub enum Type {
    Byte,
    Short,
    Char,
    Int,
    Long,
    Float,
    Double,
    Boolean,
    Class(Class),
}

/// A resolved constant-pool value: self-contained, with no indices left.
/// Float and double constants keep their IEEE-754 bit patterns, reassembled
/// big-endian from the raw entry (a long combines its two 32-bit halves the
/// same way before reinterpreting as a signed value).
pub enum Constant {
    Unknown,
    Integer(i32),
    Long(i64),
    Float(u32),
    Double(u64),
    Utf8(String),
    String(String),
    NameAndType { name: String, descriptor: String },
    Class(String),
    FieldRef(String, String),
    MethodRef(String, String),
    MethodType(String),
}

/// The mathematical shape of a resolved constant.
pub enum ConstantView {
    Unknown,
    Integer(i32),
    Long(i64),
    Float(u32),
    Double(u64),
    Utf8(Seq<char>),
    String(Seq<char>),
    NameAndType { name: Seq<char>, descriptor: Seq<char> },
    Class(Seq<char>),
    FieldRef(Seq<char>, Seq<char>),
    MethodRef(Seq<char>, Seq<char>),
    MethodType(Seq<char>),
}

impl View for Constant {
    type V = ConstantView;

    open spec fn view(&self) -> ConstantView {
        match self {
            Constant::Unknown => ConstantView::Unknown,
            Constant::Integer(v) => ConstantView::Integer(*v),
            Constant::Long(v) => ConstantView::Long(*v),
            Constant::Float(v) => ConstantView::Float(*v),
            Constant::Double(v) => ConstantView::Double(*v),
            Constant::Utf8(s) => ConstantView::Utf8(s@),
            Constant::String(s) => ConstantView::String(s@),
            Constant::NameAndType { name, descriptor } => ConstantView::NameAndType {
                name: name@,
                descriptor: descriptor@,
            },
            Constant::Class(s) => ConstantView::Class(s@),
            Constant::FieldRef(n, d) => ConstantView::FieldRef(n@, d@),
            Constant::MethodRef(n, d) => ConstantView::MethodRef(n@, d@),
            Constant::MethodType(s) => ConstantView::MethodType(s@),
        }
    }
}

/// The views of a sequence of resolved constants, in order.
pub open spec fn constants_view(v: Seq<Constant>) -> Seq<ConstantView> {
    Seq::new(v.len(), |i: int| v[i]@)
}

/// One resolved exception handler: program-counter range, handler, and the
/// resolved name of the caught class.
pub struct ExceptionHandler {
    pub start_pc: u16,
    pub end_pc: u16,
    pub handler_pc: u16,
    pub catch_type: String,
}

/// The mathematical shape of a resolved exception handler.
pub struct ExceptionHandlerView {
    pub start_pc: u16,
    pub end_pc: u16,
    pub handler_pc: u16,
    pub catch_type: Seq<char>,
}

impl View for ExceptionHandler {
    type V = ExceptionHandlerView;

    open spec fn view(&self) -> ExceptionHandlerView {
        ExceptionHandlerView {
            start_pc: self.start_pc,
            end_pc: self.end_pc,
            handler_pc: self.handler_pc,
            catch_type: self.catch_type@,
        }
    }
}

/// The views of a sequence of exception handlers, in order.
pub open spec fn handlers_view(v: Seq<ExceptionHandler>) -> Seq<ExceptionHandlerView> {
    Seq::new(v.len(), |i: int| v[i]@)
}

/// One resolved local variable: its live range, slot, and resolved name and
/// descriptor. The owning method is an unset handle until an external attach
/// step fills it in.
pub struct LocalVariable {
    pub method: Option<usize>,
    pub start_pc: u16,
    pub length: u16,
    pub index: u16,
    pub name: String,
    pub descriptor: String,
}

/// The mathematical shape of a resolved local variable.
pub struct LocalVariableView {
    pub method: Option<usize>,
    pub start_pc: u16,
    pub length: u16,
    pub index: u16,
    pub name: Seq<char>,
    pub descriptor: Seq<char>,
}

impl View for LocalVariable {
    type V = LocalVariableView;

    open spec fn view(&self) -> LocalVariableView {
        LocalVariableView {
            method: self.method,
            start_pc: self.start_pc,
            length: self.length,
            index: self.index,
            name: self.name@,
            descriptor: self.descriptor@,
        }
    }
}

/// The views of a sequence of local variables, in order.
pub open spec fn locals_view(v: Seq<LocalVariable>) -> Seq<LocalVariableView> {
    Seq::new(v.len(), |i: int| v[i]@)
}

/// One resolved line-number entry.
pub struct LineNumber {
    pub start_pc: u16,
    pub line_number: u16,
}

/// One resolved field: name and descriptor as strings, and the slot assigned
/// densely in declaration order. The owning class is an unset handle until an
/// external attach step fills it in.
pub struct Field {
    pub access_flags: u16,
    pub name: String,
    pub descriptor: String,
    pub class: Option<usize>,
    pub slot: u32,
}

/// The mathematical shape of a resolved field.
pub struct FieldView {
    pub access_flags: u16,
    pub name: Seq<char>,
    pub descriptor: Seq<char>,
    pub class: Option<usize>,
    pub slot: u32,
}

impl View for Field {
    type V = FieldView;

    open spec fn view(&self) -> FieldView {
        FieldView {
            access_flags: self.access_flags,
            name: self.name@,
            descriptor: self.descriptor@,
            class: self.class,
            slot: self.slot,
        }
    }
}

/// The views of a sequence of resolved fields, in order.
pub open spec fn class_fields_view(v: Seq<Field>) -> Seq<FieldView> {
    Seq::new(v.len(), |i: int| v[i]@)
}

/// One resolved method: name and descriptor strings, the split descriptor, the
/// code attribute's contents, and the resolved tables. The owning class is an
/// unset handle until an external attach step fills it in.
pub struct Method {
    pub access_flags: u16,
    pub name: String,
    pub descriptor: String,
    pub class: Option<usize>,
    pub max_stack: u32,
    pub max_locals: u32,
    pub code: Vec<u8>,
    pub exceptions: Vec<ExceptionHandler>,
    pub local_vars: Vec<LocalVariable>,
    pub line_numbers: Vec<LineNumber>,
    pub parameter_descriptors: Vec<String>,
    pub return_descriptor: String,
}

/// The mathematical shape of a resolved method.
pub struct MethodView {
    pub access_flags: u16,
    pub name: Seq<char>,
    pub descriptor: Seq<char>,
    pub class: Option<usize>,
    pub max_stack: u32,
    pub max_locals: u32,
    pub code: Seq<u8>,
    pub exceptions: Seq<ExceptionHandlerView>,
    pub local_vars: Seq<LocalVariableView>,
    pub line_numbers: Seq<LineNumber>,
    pub parameter_descriptors: Seq<Seq<char>>,
    pub return_descriptor: Seq<char>,
}

impl View for Method {
    type V = MethodView;

    open spec fn view(&self) -> MethodView {
        MethodView {
            access_flags: self.access_flags,
            name: self.name@,
            descriptor: self.descriptor@,
            class: self.class,
            max_stack: self.max_stack,
            max_locals: self.max_locals,
            code: self.code@,
            exceptions: handlers_view(self.exceptions@),
            local_vars: locals_view(self.local_vars@),
            line_numbers: self.line_numbers@,
            parameter_descriptors: strings_view(self.parameter_descriptors@),
            return_descriptor: self.return_descriptor@,
        }
    }
}

/// The views of a sequence of resolved methods, in order.
pub open spec fn class_methods_view(v: Seq<Method>) -> Seq<MethodView> {
    Seq::new(v.len(), |i: int| v[i]@)
}

/// The views of a sequence of strings, in order.
pub open spec fn strings_view(v: Seq<String>) -> Seq<Seq<char>> {
    Seq::new(v.len(), |i: int| v[i]@)
}

/// A symbolic class: its own name and flags, the names of its superclass and
/// interfaces, its resolved constants, fields and methods, its lifecycle flags,
/// and the deferred references a linker later replaces.
pub struct Class {
    pub constant_pool: Vec<Constant>,
    pub name: String,
    pub access_flags: u16,
    pub super_class_name: String,
    pub interface_names: Vec<String>,
    pub fields: Vec<Field>,
    pub methods: Vec<Method>,
    pub instance_vars_count: i32,
    pub static_vars_count: i32,
    pub source_file: String,
    pub defined: bool,
    pub linked: bool,
    pub initialized: i32,
    pub super_class: ClassRef,
    pub interfaces: Vec<ClassRef>,
}

/// The mathematical shape of a symbolic class.
pub struct ClassView {
    pub constant_pool: Seq<ConstantView>,
    pub name: Seq<char>,
    pub access_flags: u16,
    pub super_class_name: Seq<char>,
    pub interface_names: Seq<Seq<char>>,
    pub fields: Seq<FieldView>,
    pub methods: Seq<MethodView>,
    pub instance_vars_count: i32,
    pub static_vars_count: i32,
    pub source_file: Seq<char>,
    pub defined: bool,
    pub linked: bool,
    pub initialized: i32,
    pub super_class: ClassRef,
    pub interfaces: Seq<ClassRef>,
}

impl View for Class {
    type V = ClassView;

    open spec fn view(&self) -> ClassView {
        ClassView {
            constant_pool: constants_view(self.constant_pool@),
            name: self.name@,
            access_flags: self.access_flags,
            super_class_name: self.super_class_name@,
            interface_names: strings_view(self.interface_names@),
            fields: class_fields_view(self.fields@),
            methods: class_methods_view(self.methods@),
            instance_vars_count: self.instance_vars_count,
            static_vars_count: self.static_vars_count,
            source_file: self.source_file@,
            defined: self.defined,
            linked: self.linked,
            initialized: self.initialized,
            super_class: self.super_class,
            interfaces: self.interfaces@,
        }
    }
}

/// The signature text of a runtime type: its one-letter code, or the class name.
pub open spec fn spec_type_name(t: Type) -> Seq<char> {
    match t {
        Type::Byte => JVM_SIGNATURE_BYTE@,
        Type::Short => JVM_SIGNATURE_SHORT@,
        Type::Char => JVM_SIGNATURE_CHAR@,
        Type::Int => JVM_SIGNATURE_INT@,
        Type::Long => JVM_SIGNATURE_LONG@,
        Type::Float => JVM_SIGNATURE_FLOAT@,
        Type::Double => JVM_SIGNATURE_DOUBLE@,
        Type::Boolean => JVM_SIGNATURE_BOOLEAN@,
        Type::Class(class) => class.name@,
    }
}

/// The descriptor text of a runtime type: the name for a primitive, the name
/// wrapped in `L` and `;` for a class.
pub open spec fn spec_type_descriptor(t: Type) -> Seq<char> {
    match t {
        Type::Class(class) => JVM_SIGNATURE_CLASS@ + class.name@ + JVM_SIGNATURE_ENDCLASS@,
        _ => spec_type_name(t),
    }
}

impl Type {
    /// The signature text of this type.
    pub fn name(&self) -> (r: String)
        ensures
            r@ == spec_type_name(*self),
    {
        match self {
            Type::Byte => JVM_SIGNATURE_BYTE.to_owned(),
            Type::Short => JVM_SIGNATURE_SHORT.to_owned(),
            Type::Char => JVM_SIGNATURE_CHAR.to_owned(),
            Type::Int => JVM_SIGNATURE_INT.to_owned(),
            Type::Long => JVM_SIGNATURE_LONG.to_owned(),
            Type::Float => JVM_SIGNATURE_FLOAT.to_owned(),
            Type::Double => JVM_SIGNATURE_DOUBLE.to_owned(),
            Type::Boolean => JVM_SIGNATURE_BOOLEAN.to_owned(),
            Type::Class(class) => class.name.as_str().to_owned(),
        }
    }

    /// The descriptor text of this type.
    pub fn descriptor(&self) -> (r: String)
        ensures
            r@ == spec_type_descriptor(*self),
    {
        match self {
            Type::Class(class) => {
                let mut s = JVM_SIGNATURE_CLASS.to_owned();
                append_chars(&mut s, class.name.as_str());
                append_chars(&mut s, JVM_SIGNATURE_ENDCLASS);
                s
            },
            _ => self.name(),
        }
    }
}

/// How many times `c` occurs in `s`.
pub open spec fn count_char(s: Seq<char>, c: char) -> nat
    decreases s.len(),
{
    if s.len() == 0 {
        0
    } else {
        (if s[0] == c {
            1nat
        } else {
            0nat
        }) + count_char(s.skip(1), c)
    }
}

/// The position of the first occurrence of `c` in `s`, or `s.len()` when `c`
/// does not occur.
pub open spec fn find_char(s: Seq<char>, c: char) -> int
    decreases s.len(),
{
    if s.len() == 0 {
        0
    } else if s[0] == c {
        0
    } else {
        1 + find_char(s.skip(1), c)
    }
}

/// Law: `find_char` lands on the first occurrence — in range, holding `c`
/// when in range, with nothing but other characters before it.
pub proof fn lemma_find_char(s: Seq<char>, c: char)
    ensures
        0 <= find_char(s, c) <= s.len(),
        find_char(s, c) < s.len() ==> s[find_char(s, c)] == c,
        forall|k: int| 0 <= k < find_char(s, c) ==> s[k] != c,
    decreases s.len(),
{
    if s.len() > 0 && s[0] != c {
        lemma_find_char(s.skip(1), c);
        let j = find_char(s, c);
        assert forall|k: int| 0 <= k < j implies s[k] != c by {
            if k > 0 {
                assert(s.skip(1)[k - 1] == s[k]);
            }
        }
        if j < s.len() {
            assert(s.skip(1)[j - 1] == s[j]);
        }
    }
}

/// What splitting a method descriptor yields: the run between the opening
/// parenthesis and the single closing one, and the trailing return descriptor —
/// or the bad-descriptor error when the text is not of that shape.
pub open spec fn spec_split_descriptor(d: Seq<char>) -> Result<(Seq<char>, Seq<char>), DecodeError> {
    if d.len() > 0 && d[0] == '(' && count_char(d, ')') == 1 {
        let j = find_char(d, ')');
        Ok((d.subrange(1, j), d.subrange(j + 1, d.len() as int)))
    } else {
        Err(DecodeError::BadDescriptor)
    }
}

/// Splits a method descriptor into its parenthesized parameter run and its
/// return descriptor: `(II)V` yields `II` and `V`. A descriptor that does not
/// start with `(` or does not hold exactly one `)` is rejected.
#[verifier::loop_isolation(false)]
pub fn split_descriptor(descriptor: &str) -> (r: Result<(String, String), DecodeError>)
    ensures
        match spec_split_descriptor(descriptor@) {
            Ok((params, ret)) => r matches Ok(pair) && pair.0@ == params && pair.1@ == ret,
            Err(e) => r matches Err(err) && err == e,
        },
{
    let ghost d = descriptor@;
    let n = descriptor.unicode_len();
    if n == 0 {
        return Err(DecodeError::BadDescriptor);
    }
    if descriptor.get_char(0) != '(' {
        return Err(DecodeError::BadDescriptor);
    }
    let mut count: usize = 0;
    let mut j: usize = n;
    let mut i: usize = 0;
    proof {
        assert(d.skip(0) =~= d);
    }
    while i < n
        invariant
            i <= n,
            count <= i,
            count + count_char(d.skip(i as int), ')') == count_char(d, ')'),
            count == 0 ==> j == n && (forall|k: int| 0 <= k < i ==> d[k] != ')'),
            count > 0 ==> j < i && d[j as int] == ')' && (forall|k: int| 0 <= k < j ==> d[k] != ')'),
        decreases n - i,
    {
        let c = descriptor.get_char(i);
        proof {
            assert(d.skip(i as int)[0] == d[i as int]);
            assert(d.skip(i as int).skip(1) =~= d.skip(i + 1));
        }
        if c == ')' {
            if count == 0 {
                j = i;
            }
            count = count + 1;
        }
        i = i + 1;
    }
    proof {
        assert(d.skip(n as int) =~= Seq::<char>::empty());
    }
    if count != 1 {
        return Err(DecodeError::BadDescriptor);
    }
    proof {
        lemma_find_char(d, ')');
        let f = find_char(d, ')');
        if f < d.len() {
            if f < j {
                assert(d[f] != ')');
            }
            if j < f {
                assert(d[j as int] != ')');
            }
        } else {
            assert(d[j as int] != ')');
        }
        assert(j as int == f);
    }
    let params = descriptor.substring_char(1, j);
    let ret = descriptor.substring_char(j + 1, n);
    Ok((params.to_owned(), ret.to_owned()))
}

/// What resolving the constant-pool entry at `index` into a self-contained
/// constant yields. Entries whose resolution this model does not keep
/// (interface method references, method handles, invoke-dynamic) become
/// `Unknown`, as does the placeholder at slot 0; a resolution that
/// dereferences the wrong variant is the exact error it raises.
pub open spec fn spec_constant_from(pool: Seq<CpEntryView>, index: int) -> Result<
    ConstantView,
    DecodeError,
> {
    if 0 <= index < pool.len() {
        match pool[index] {
            CpEntryView::Unknown => Ok(ConstantView::Unknown),
            CpEntryView::Utf8 { length, bytes } => Ok(ConstantView::Utf8(mutf8_decode(bytes))),
            CpEntryView::String { string_index } => match spec_resolve_utf8(
                pool,
                string_index as int,
            ) {
                Ok(text) => Ok(ConstantView::String(text)),
                Err(e) => Err(e),
            },
            CpEntryView::Integer { bytes } => Ok(ConstantView::Integer(bytes as i32)),
            CpEntryView::Float { bytes } => Ok(ConstantView::Float(bytes)),
            CpEntryView::Long { high_bytes, low_bytes } => Ok(
                ConstantView::Long(
                    (((high_bytes as int) * 0x100000000 + (low_bytes as int)) as u64) as i64,
                ),
            ),
            CpEntryView::Double { high_bytes, low_bytes } => Ok(
                ConstantView::Double(
                    ((high_bytes as int) * 0x100000000 + (low_bytes as int)) as u64,
                ),
            ),
            CpEntryView::NameAndType { name_index, descriptor_index } => match (
                spec_resolve_utf8(pool, name_index as int),
                spec_resolve_utf8(pool, descriptor_index as int),
            ) {
                (Ok(name), Ok(descriptor)) => Ok(ConstantView::NameAndType { name, descriptor }),
                (Err(e), _) => Err(e),
                (_, Err(e)) => Err(e),
            },
            CpEntryView::Class { name_index } => match spec_resolve_utf8(pool, name_index as int) {
                Ok(text) => Ok(ConstantView::Class(text)),
                Err(e) => Err(e),
            },
            CpEntryView::FieldRef { class_index, name_and_type_index } => match spec_resolve_name_and_type(
                pool,
                name_and_type_index as int,
            ) {
                Ok((name, descriptor)) => Ok(ConstantView::FieldRef(name, descriptor)),
                Err(e) => Err(e),
            },
            CpEntryView::MethodRef { class_index, name_and_type_index } => match spec_resolve_name_and_type(
                pool,
                name_and_type_index as int,
            ) {
                Ok((name, descriptor)) => Ok(ConstantView::MethodRef(name, descriptor)),
                Err(e) => Err(e),
            },
            CpEntryView::MethodType { descriptor_index } => match spec_resolve_utf8(
                pool,
                descriptor_index as int,
            ) {
                Ok(text) => Ok(ConstantView::MethodType(text)),
                Err(e) => Err(e),
            },
            _ => Ok(ConstantView::Unknown),
        }
    } else {
        Err(DecodeError::WrongConstantKind)
    }
}

impl Constant {
    /// Resolves the constant-pool entry at `index` into a self-contained
    /// constant.
    pub fn from(index: usize, constant_pool: &Vec<ConstantPoolInfo>) -> (r: Result<
        Constant,
        DecodeError,
    >)
        ensures
            match spec_constant_from(pool_view(constant_pool@), index as int) {
                Ok(c) => r matches Ok(value) && value@ == c,
                Err(e) => r matches Err(err) && err == e,
            },
    {
        if index >= constant_pool.len() {
            return Err(DecodeError::WrongConstantKind);
        }
        match &constant_pool[index] {
            ConstantPoolInfo::Unknown => Ok(Constant::Unknown),
            ConstantPoolInfo::Utf8(utf8_info) => Ok(Constant::Utf8(utf8_info.value())),
            ConstantPoolInfo::String(string_info) => {
                let text = resolve_utf8(constant_pool, string_info.string_index)?;
                Ok(Constant::String(text))
            },
            ConstantPoolInfo::Integer(integer_info) => Ok(
                Constant::Integer(integer_info.bytes as i32),
            ),
            ConstantPoolInfo::Float(float_info) => Ok(Constant::Float(float_info.bytes)),
            ConstantPoolInfo::Long(long_info) => {
                let combined: u64 = (long_info.high_bytes as u64) * 0x100000000 + (
                long_info.low_bytes as u64);
                Ok(Constant::Long(combined as i64))
            },
            ConstantPoolInfo::Double(double_info) => {
                let combined: u64 = (double_info.high_bytes as u64) * 0x100000000 + (
                double_info.low_bytes as u64);
                Ok(Constant::Double(combined))
            },
            ConstantPoolInfo::NameAndType(name_and_type_info) => {
                let name = resolve_utf8(constant_pool, name_and_type_info.name_index)?;
                let descriptor = resolve_utf8(constant_pool, name_and_type_info.descriptor_index)?;
                Ok(Constant::NameAndType { name, descriptor })
            },
            ConstantPoolInfo::Class(class_info) => {
                let text = resolve_utf8(constant_pool, class_info.name_index)?;
                Ok(Constant::Class(text))
            },
            ConstantPoolInfo::FieldRef(field_ref) => {
                let (name, descriptor) = resolve_name_and_type(
                    constant_pool,
                    field_ref.name_and_type_index,
                )?;
                Ok(Constant::FieldRef(name, descriptor))
            },
            ConstantPoolInfo::MethodRef(method_ref) => {
                let (name, descriptor) = resolve_name_and_type(
                    constant_pool,
                    method_ref.name_and_type_index,
                )?;
                Ok(Constant::MethodRef(name, descriptor))
            },
            ConstantPoolInfo::MethodType(method_type) => {
                let text = resolve_utf8(constant_pool, method_type.descriptor_index)?;
                Ok(Constant::MethodType(text))
            },
            _ => Ok(Constant::Unknown),
        }
    }
}

/// Whether a method's access flags exempt it from carrying a code attribute.
pub open spec fn spec_is_abstract_or_native(flags: u16) -> bool {
    flags & (JVM_ACC_ABSTRACT | JVM_ACC_NATIVE) != 0
}

/// Whether a method's access flags exempt it from carrying a code attribute.
pub fn is_abstract_or_native(flags: u16) -> (r: bool)
    ensures
        r == spec_is_abstract_or_native(flags),
{
    flags & (JVM_ACC_ABSTRACT | JVM_ACC_NATIVE) != 0
}

/// What resolving the first `count` constant-pool entries yields: the resolved
/// constants in index order, or the first resolution error.
pub open spec fn spec_build_constants(pool: Seq<CpEntryView>, count: int) -> Result<
    Seq<ConstantView>,
    DecodeError,
>
    decreases count,
{
    if count <= 0 {
        Ok(Seq::empty())
    } else {
        match spec_build_constants(pool, count - 1) {
            Ok(rest) => match spec_constant_from(pool, count - 1) {
                Ok(c) => Ok(rest.push(c)),
                Err(e) => Err(e),
            },
            Err(e) => Err(e),
        }
    }
}

/// Law: once one entry fails to resolve, resolving any longer prefix fails with
/// that same first error.
pub proof fn lemma_build_constants_err(pool: Seq<CpEntryView>, i: int, count: int)
    requires
        0 <= i < count,
        spec_build_constants(pool, i) is Ok,
        spec_constant_from(pool, i) is Err,
    ensures
        spec_build_constants(pool, count) == Err::<Seq<ConstantView>, DecodeError>(
            spec_constant_from(pool, i)->Err_0,
        ),
    decreases count,
{
    if count > i + 1 {
        lemma_build_constants_err(pool, i, count - 1);
    }
}

/// What building one symbolic field yields: resolved name and descriptor, the
/// given slot, and an unset owner.
pub open spec fn spec_build_field(pool: Seq<CpEntryView>, fv: FieldInfoView, slot: int) -> Result<
    FieldView,
    DecodeError,
> {
    match spec_resolve_utf8(pool, fv.name_index as int) {
        Ok(name) => match spec_resolve_utf8(pool, fv.descriptor_index as int) {
            Ok(descriptor) => Ok(
                FieldView {
                    access_flags: fv.access_flags,
                    name,
                    descriptor,
                    class: None,
                    slot: slot as u32,
                },
            ),
            Err(e) => Err(e),
        },
        Err(e) => Err(e),
    }
}

/// What building the first `k` fields yields, slots assigned densely in
/// declaration order starting at 0.
pub open spec fn spec_build_fields(pool: Seq<CpEntryView>, fs: Seq<FieldInfoView>, k: int) -> Result<
    Seq<FieldView>,
    DecodeError,
>
    decreases k,
{
    if k <= 0 {
        Ok(Seq::empty())
    } else {
        match spec_build_fields(pool, fs, k - 1) {
            Ok(rest) => match spec_build_field(pool, fs[k - 1], k - 1) {
                Ok(f) => Ok(rest.push(f)),
                Err(e) => Err(e),
            },
            Err(e) => Err(e),
        }
    }
}

/// Law: once one field fails to build, building any longer prefix fails with
/// that same first error.
pub proof fn lemma_build_fields_err(pool: Seq<CpEntryView>, fs: Seq<FieldInfoView>, i: int, k: int)
    requires
        0 <= i < k,
        spec_build_fields(pool, fs, i) is Ok,
        spec_build_field(pool, fs[i], i) is Err,
    ensures
        spec_build_fields(pool, fs, k) == Err::<Seq<FieldView>, DecodeError>(
            spec_build_field(pool, fs[i], i)->Err_0,
        ),
    decreases k,
{
    if k > i + 1 {
        lemma_build_fields_err(pool, fs, i, k - 1);
    }
}

/// What resolving one exception-table row yields: the row with its catch type
/// resolved to a class name.
pub open spec fn spec_build_handler(
    pool: Seq<CpEntryView>,
    e: crate::attributes::ExceptionTableEntry,
) -> Result<ExceptionHandlerView, DecodeError> {
    match spec_resolve_class(pool, e.catch_type as int) {
        Ok(catch_type) => Ok(
            ExceptionHandlerView {
                start_pc: e.start_pc,
                end_pc: e.end_pc,
                handler_pc: e.handle_pc,
                catch_type,
            },
        ),
        Err(err) => Err(err),
    }
}

/// What resolving the first `k` exception-table rows yields.
pub open spec fn spec_build_handlers(
    pool: Seq<CpEntryView>,
    table: Seq<crate::attributes::ExceptionTableEntry>,
    k: int,
) -> Result<Seq<ExceptionHandlerView>, DecodeError>
    decreases k,
{
    if k <= 0 {
        Ok(Seq::empty())
    } else {
        match spec_build_handlers(pool, table, k - 1) {
            Ok(rest) => match spec_build_handler(pool, table[k - 1]) {
                Ok(h) => Ok(rest.push(h)),
                Err(e) => Err(e),
            },
            Err(e) => Err(e),
        }
    }
}

/// Law: once one exception-table row fails to resolve, resolving any longer
/// prefix fails with that same first error.
pub proof fn lemma_build_handlers_err(
    pool: Seq<CpEntryView>,
    table: Seq<crate::attributes::ExceptionTableEntry>,
    i: int,
    k: int,
)
    requires
        0 <= i < k,
        spec_build_handlers(pool, table, i) is Ok,
        spec_build_handler(pool, table[i]) is Err,
    ensures
        spec_build_handlers(pool, table, k) == Err::<Seq<ExceptionHandlerView>, DecodeError>(
            spec_build_handler(pool, table[i])->Err_0,
        ),
    decreases k,
{
    if k > i + 1 {
        lemma_build_handlers_err(pool, table, i, k - 1);
    }
}

/// What resolving one local-variable row yields: the row with its name and
/// descriptor resolved, and an unset owning method.
pub open spec fn spec_build_local(
    pool: Seq<CpEntryView>,
    e: crate::attributes::LocalVariableTableEntry,
) -> Result<LocalVariableView, DecodeError> {
    match spec_resolve_utf8(pool, e.name_index as int) {
        Ok(name) => match spec_resolve_utf8(pool, e.descriptor_index as int) {
            Ok(descriptor) => Ok(
                LocalVariableView {
                    method: None,
                    start_pc: e.start_pc,
                    length: e.length,
                    index: e.index,
                    name,
                    descriptor,
                },
            ),
            Err(err) => Err(err),
        },
        Err(err) => Err(err),
    }
}

/// What resolving the first `k` local-variable rows yields.
pub open spec fn spec_build_locals(
    pool: Seq<CpEntryView>,
    table: Seq<crate::attributes::LocalVariableTableEntry>,
    k: int,
) -> Result<Seq<LocalVariableView>, DecodeError>
    decreases k,
{
    if k <= 0 {
        Ok(Seq::empty())
    } else {
        match spec_build_locals(pool, table, k - 1) {
            Ok(rest) => match spec_build_local(pool, table[k - 1]) {
                Ok(v) => Ok(rest.push(v)),
                Err(e) => Err(e),
            },
            Err(e) => Err(e),
        }
    }
}

/// Law: once one local-variable row fails to resolve, resolving any longer
/// prefix fails with that same first error.
pub proof fn lemma_build_locals_err(
    pool: Seq<CpEntryView>,
    table: Seq<crate::attributes::LocalVariableTableEntry>,
    i: int,
    k: int,
)
    requires
        0 <= i < k,
        spec_build_locals(pool, table, i) is Ok,
        spec_build_local(pool, table[i]) is Err,
    ensures
        spec_build_locals(pool, table, k) == Err::<Seq<LocalVariableView>, DecodeError>(
            spec_build_local(pool, table[i])->Err_0,
        ),
    decreases k,
{
    if k > i + 1 {
        lemma_build_locals_err(pool, table, i, k - 1);
    }
}

/// The line-number rows of a table, taken over unchanged.
pub open spec fn spec_build_line_numbers(
    table: Seq<crate::attributes::LineNumberTableEntry>,
) -> Seq<LineNumber> {
    Seq::new(
        table.len(),
        |i: int| LineNumber { start_pc: table[i].start_pc, line_number: table[i].line_number },
    )
}

/// What finishing a symbolic method yields once its code-attribute contents are
/// in hand: the resolved descriptor, its split, and the resolved name, in that
/// order of failure.
pub open spec fn spec_finish_method(
    pool: Seq<CpEntryView>,
    mv: MethodInfoView,
    max_stack: u32,
    max_locals: u32,
    code: Seq<u8>,
    exceptions: Seq<ExceptionHandlerView>,
    local_vars: Seq<LocalVariableView>,
    line_numbers: Seq<LineNumber>,
) -> Result<MethodView, DecodeError> {
    match spec_resolve_utf8(pool, mv.descriptor_index as int) {
        Ok(descriptor) => match spec_split_descriptor(descriptor) {
            Ok((params, ret)) => match spec_resolve_utf8(pool, mv.name_index as int) {
                Ok(name) => Ok(
                    MethodView {
                        access_flags: mv.access_flags,
                        name,
                        descriptor,
                        class: None,
                        max_stack,
                        max_locals,
                        code,
                        exceptions,
                        local_vars,
                        line_numbers,
                        parameter_descriptors: seq![params],
                        return_descriptor: ret,
                    },
                ),
                Err(e) => Err(e),
            },
            Err(e) => Err(e),
        },
        Err(e) => Err(e),
    }
}

/// What building one symbolic method yields. A method with a code attribute
/// takes its stack and locals bounds, bytecode, resolved exception handlers and
/// resolved tables from the first one; a method without one must be abstract or
/// native (else the missing-code-attribute error) and gets empty code and
/// tables.
pub open spec fn spec_build_method(pool: Seq<CpEntryView>, mv: MethodInfoView) -> Result<
    MethodView,
    DecodeError,
> {
    match crate::attributes::spec_find_code(mv.attributes) {
        Some(cv) => match spec_build_handlers(
            pool,
            cv.exception_table,
            cv.exception_table.len() as int,
        ) {
            Ok(exceptions) => {
                let locals_result = match crate::attributes::spec_find_local_variable_table(
                    cv.attributes,
                ) {
                    Some(t) => spec_build_locals(
                        pool,
                        t.local_variable_table,
                        t.local_variable_table.len() as int,
                    ),
                    None => Ok(Seq::empty()),
                };
                match locals_result {
                    Ok(local_vars) => {
                        let line_numbers = match crate::attributes::spec_find_line_number_table(
                            cv.attributes,
                        ) {
                            Some(t) => spec_build_line_numbers(t.line_number_table),
                            None => Seq::empty(),
                        };
                        spec_finish_method(
                            pool,
                            mv,
                            cv.max_stack as u32,
                            cv.max_locals as u32,
                            cv.code,
                            exceptions,
                            local_vars,
                            line_numbers,
                        )
                    },
                    Err(e) => Err(e),
                }
            },
            Err(e) => Err(e),
        },
        None => if spec_is_abstract_or_native(mv.access_flags) {
            spec_finish_method(
                pool,
                mv,
                0,
                0,
                Seq::empty(),
                Seq::empty(),
                Seq::empty(),
                Seq::empty(),
            )
        } else {
            Err(DecodeError::MissingCodeAttribute)
        },
    }
}

/// What building the first `k` methods yields.
pub open spec fn spec_build_methods(
    pool: Seq<CpEntryView>,
    ms: Seq<MethodInfoView>,
    k: int,
) -> Result<Seq<MethodView>, DecodeError>
    decreases k,
{
    if k <= 0 {
        Ok(Seq::empty())
    } else {
        match spec_build_methods(pool, ms, k - 1) {
            Ok(rest) => match spec_build_method(pool, ms[k - 1]) {
                Ok(m) => Ok(rest.push(m)),
                Err(e) => Err(e),
            },
            Err(e) => Err(e),
        }
    }
}

/// Law: once one method fails to build, building any longer prefix fails with
/// that same first error.
pub proof fn lemma_build_methods_err(
    pool: Seq<CpEntryView>,
    ms: Seq<MethodInfoView>,
    i: int,
    k: int,
)
    requires
        0 <= i < k,
        spec_build_methods(pool, ms, i) is Ok,
        spec_build_method(pool, ms[i]) is Err,
    ensures
        spec_build_methods(pool, ms, k) == Err::<Seq<MethodView>, DecodeError>(
            spec_build_method(pool, ms[i])->Err_0,
        ),
    decreases k,
{
    if k > i + 1 {
        lemma_build_methods_err(pool, ms, i, k - 1);
    }
}

/// What resolving the first `k` interface indices to class names yields.
pub open spec fn spec_build_interface_names(
    pool: Seq<CpEntryView>,
    interfaces: Seq<u16>,
    k: int,
) -> Result<Seq<Seq<char>>, DecodeError>
    decreases k,
{
    if k <= 0 {
        Ok(Seq::empty())
    } else {
        match spec_build_interface_names(pool, interfaces, k - 1) {
            Ok(rest) => match spec_resolve_class(pool, interfaces[k - 1] as int) {
                Ok(name) => Ok(rest.push(name)),
                Err(e) => Err(e),
            },
            Err(e) => Err(e),
        }
    }
}

/// Law: once one interface index fails to resolve, resolving any longer prefix
/// fails with that same first error.
pub proof fn lemma_build_interface_names_err(
    pool: Seq<CpEntryView>,
    interfaces: Seq<u16>,
    i: int,
    k: int,
)
    requires
        0 <= i < k,
        spec_build_interface_names(pool, interfaces, i) is Ok,
        spec_resolve_class(pool, interfaces[i] as int) is Err,
    ensures
        spec_build_interface_names(pool, interfaces, k) == Err::<Seq<Seq<char>>, DecodeError>(
            spec_resolve_class(pool, interfaces[i] as int)->Err_0,
        ),
    decreases k,
{
    if k > i + 1 {
        lemma_build_interface_names_err(pool, interfaces, i, k - 1);
    }
}

/// What building the whole symbolic class from a decoded container yields: the
/// resolved constants, the fields with dense slots, the methods, then the
/// class's own name, its superclass name (index 0 denotes the root type, whose
/// superclass name is empty) and its interface names — carrying the container's
/// access-flag bitmask, with status flags all false or zero and every
/// cross-class link left unresolved.
pub open spec fn spec_build_class(cf: ClassFileView) -> Result<ClassView, DecodeError> {
    let pool = cf.constant_pool;
    match spec_build_constants(pool, cf.constant_pool_count as int) {
        Err(e) => Err(e),
        Ok(constant_pool) => match spec_build_fields(pool, cf.fields, cf.fields.len() as int) {
            Err(e) => Err(e),
            Ok(fields) => match spec_build_methods(pool, cf.methods, cf.methods.len() as int) {
                Err(e) => Err(e),
                Ok(methods) => match spec_resolve_class(pool, cf.this_class as int) {
                    Err(e) => Err(e),
                    Ok(name) => {
                        let super_result = if cf.super_class == 0 {
                            Ok(Seq::<char>::empty())
                        } else {
                            spec_resolve_class(pool, cf.super_class as int)
                        };
                        match super_result {
                            Err(e) => Err(e),
                            Ok(super_class_name) => match spec_build_interface_names(
                                pool,
                                cf.interfaces,
                                cf.interfaces.len() as int,
                            ) {
                                Err(e) => Err(e),
                                Ok(interface_names) => Ok(
                                    ClassView {
                                        constant_pool,
                                        name,
                                        access_flags: cf.access_flags,
                                        super_class_name,
                                        interface_names,
                                        fields,
                                        methods,
                                        instance_vars_count: 0,
                                        static_vars_count: 0,
                                        source_file: Seq::empty(),
                                        defined: false,
                                        linked: false,
                                        initialized: 0,
                                        super_class: ClassRef::Unresolved,
                                        interfaces: Seq::empty(),
                                    },
                                ),
                            },
                        }
                    },
                },
            },
        },
    }
}

/// A fresh copy of a byte vector.
fn clone_bytes(v: &Vec<u8>) -> (r: Vec<u8>)
    ensures
        r@ == v@,
{
    let n = v.len();
    let mut out: Vec<u8> = Vec::new();
    let mut i: usize = 0;
    while i < n
        invariant
            i <= n,
            n == v@.len(),
            out@ == v@.take(i as int),
        decreases n - i,
    {
        out.push(v[i]);
        i = i + 1;
        proof {
            assert(out@ =~= v@.take(i as int));
        }
    }
    proof {
        assert(v@.take(n as int) =~= v@);
    }
    out
}

/// Builds one symbolic field from its raw record, with the given slot.
fn build_field(
    field_info: &crate::class_file::FieldInfo,
    constant_pool: &Vec<ConstantPoolInfo>,
    slot: u32,
) -> (r: Result<Field, DecodeError>)
    ensures
        match spec_build_field(pool_view(constant_pool@), field_info@, slot as int) {
            Ok(fv) => r matches Ok(f) && f@ == fv,
            Err(e) => r matches Err(err) && err == e,
        },
{
    let name = resolve_utf8(constant_pool, field_info.name_index)?;
    let descriptor = resolve_utf8(constant_pool, field_info.descriptor_index)?;
    Ok(Field { access_flags: field_info.access_flags, name, descriptor, class: None, slot })
}

/// Finishes one symbolic method once its code-attribute contents are in hand:
/// resolves the descriptor, splits it, and resolves the name, in that order.
fn finish_method(
    method_info: &crate::class_file::MethodInfo,
    constant_pool: &Vec<ConstantPoolInfo>,
    max_stack: u32,
    max_locals: u32,
    code: Vec<u8>,
    exceptions: Vec<ExceptionHandler>,
    local_vars: Vec<LocalVariable>,
    line_numbers: Vec<LineNumber>,
) -> (r: Result<Method, DecodeError>)
    ensures
        match spec_finish_method(
            pool_view(constant_pool@),
            method_info@,
            max_stack,
            max_locals,
            code@,
            handlers_view(exceptions@),
            locals_view(local_vars@),
            line_numbers@,
        ) {
            Ok(mv) => r matches Ok(m) && m@ == mv,
            Err(e) => r matches Err(err) && err == e,
        },
{
    let descriptor = resolve_utf8(constant_pool, method_info.descriptor_index)?;
    let (params, return_descriptor) = split_descriptor(descriptor.as_str())?;
    let name = resolve_utf8(constant_pool, method_info.name_index)?;
    let mut parameter_descriptors: Vec<String> = Vec::new();
    let ghost params_text = params@;
    parameter_descriptors.push(params);
    proof {
        assert(strings_view(parameter_descriptors@) =~= seq![params_text]);
    }
    Ok(
        Method {
            access_flags: method_info.access_flags,
            name,
            descriptor,
            class: None,
            max_stack,
            max_locals,
            code,
            exceptions,
            local_vars,
            line_numbers,
            parameter_descriptors,
            return_descriptor,
        },
    )
}

/// Builds one symbolic method from its raw record: takes its code attribute's
/// contents (mandatory unless the method is abstract or native), resolves the
/// exception handlers and the nested tables, and finishes with name and
/// descriptor.
#[verifier::loop_isolation(false)]
fn build_method(
    method_info: &crate::class_file::MethodInfo,
    constant_pool: &Vec<ConstantPoolInfo>,
) -> (r: Result<Method, DecodeError>)
    ensures
        match spec_build_method(pool_view(constant_pool@), method_info@) {
            Ok(mv) => r matches Ok(m) && m@ == mv,
            Err(e) => r matches Err(err) && err == e,
        },
{
    let ghost pv = pool_view(constant_pool@);
    match method_info.find_code_attribute() {
        Some(code_attribute) => {
            let ghost cv = crate::attributes::code_view(*code_attribute);
            let table_len = code_attribute.exception_table.len();
            let mut exceptions: Vec<ExceptionHandler> = Vec::new();
            let mut i: usize = 0;
            proof {
                assert(handlers_view(exceptions@) =~= Seq::<ExceptionHandlerView>::empty());
            }
            while i < table_len
                invariant
                    i <= table_len,
                    spec_build_handlers(pv, cv.exception_table, i as int) == Ok::<
                        _,
                        DecodeError,
                    >(handlers_view(exceptions@)),
                    exceptions@.len() == i,
                decreases table_len - i,
            {
                let entry = &code_attribute.exception_table[i];
                let catch_type = match resolve_class(constant_pool, entry.catch_type) {
                    Ok(t) => t,
                    Err(e) => {
                        proof {
                            lemma_build_handlers_err(
                                pv,
                                cv.exception_table,
                                i as int,
                                table_len as int,
                            );
                        }
                        return Err(e);
                    },
                };
                let ghost before = handlers_view(exceptions@);
                exceptions.push(
                    ExceptionHandler {
                        start_pc: entry.start_pc,
                        end_pc: entry.end_pc,
                        handler_pc: entry.handle_pc,
                        catch_type,
                    },
                );
                i = i + 1;
                proof {
                    assert(handlers_view(exceptions@) =~= before.push(
                        spec_build_handler(pv, cv.exception_table[i - 1])->Ok_0,
                    ));
                }
            }
            let mut local_vars: Vec<LocalVariable> = Vec::new();
            match code_attribute.find_local_variable_table_attribute() {
                Some(local_variable_table_attribute) => {
                    let ghost tv = crate::attributes::local_variable_table_view(
                        *local_variable_table_attribute,
                    );
                    let locals_len = local_variable_table_attribute.local_variable_table.len();
                    let mut k: usize = 0;
                    proof {
                        assert(locals_view(local_vars@) =~= Seq::<LocalVariableView>::empty());
                    }
                    while k < locals_len
                        invariant
                            k <= locals_len,
                            spec_build_locals(pv, tv.local_variable_table, k as int) == Ok::<
                                _,
                                DecodeError,
                            >(locals_view(local_vars@)),
                            local_vars@.len() == k,
                        decreases locals_len - k,
                    {
                        let entry = &local_variable_table_attribute.local_variable_table[k];
                        let name = match resolve_utf8(constant_pool, entry.name_index) {
                            Ok(t) => t,
                            Err(e) => {
                                proof {
                                    lemma_build_locals_err(
                                        pv,
                                        tv.local_variable_table,
                                        k as int,
                                        locals_len as int,
                                    );
                                }
                                return Err(e);
                            },
                        };
                        let descriptor = match resolve_utf8(constant_pool, entry.descriptor_index) {
                            Ok(t) => t,
                            Err(e) => {
                                proof {
                                    lemma_build_locals_err(
                                        pv,
                                        tv.local_variable_table,
                                        k as int,
                                        locals_len as int,
                                    );
                                }
                                return Err(e);
                            },
                        };
                        let ghost before = locals_view(local_vars@);
                        local_vars.push(
                            LocalVariable {
                                method: None,
                                start_pc: entry.start_pc,
                                length: entry.length,
                                index: entry.index,
                                name,
                                descriptor,
                            },
                        );
                        k = k + 1;
                        proof {
                            assert(locals_view(local_vars@) =~= before.push(
                                spec_build_local(pv, tv.local_variable_table[k - 1])->Ok_0,
                            ));
                        }
                    }
                },
                None => {
                    proof {
                        assert(locals_view(local_vars@) =~= Seq::<LocalVariableView>::empty());
                    }
                },
            }
            let mut line_numbers: Vec<LineNumber> = Vec::new();
            match code_attribute.find_line_number_table_attribute() {
                Some(line_number_table_attribute) => {
                    let ghost tv = crate::attributes::line_number_table_view(
                        *line_number_table_attribute,
                    );
                    let lines_len = line_number_table_attribute.line_number_table.len();
                    let mut k: usize = 0;
                    while k < lines_len
                        invariant
                            k <= lines_len,
                            line_numbers@ =~= spec_build_line_numbers(
                                tv.line_number_table,
                            ).take(k as int),
                        decreases lines_len - k,
                    {
                        let entry = &line_number_table_attribute.line_number_table[k];
                        line_numbers.push(
                            LineNumber {
                                start_pc: entry.start_pc,
                                line_number: entry.line_number,
                            },
                        );
                        k = k + 1;
                        proof {
                            assert(line_numbers@ =~= spec_build_line_numbers(
                                tv.line_number_table,
                            ).take(k as int));
                        }
                    }
                    proof {
                        assert(spec_build_line_numbers(tv.line_number_table).take(
                            lines_len as int,
                        ) =~= spec_build_line_numbers(tv.line_number_table));
                    }
                },
                None => {
                    proof {
                        assert(line_numbers@ =~= Seq::<LineNumber>::empty());
                    }
                },
            }
            let code = clone_bytes(&code_attribute.code);
            finish_method(
                method_info,
                constant_pool,
                code_attribute.max_stack as u32,
                code_attribute.max_locals as u32,
                code,
                exceptions,
                local_vars,
                line_numbers,
            )
        },
        None => {
            if is_abstract_or_native(method_info.access_flags) {
                let code: Vec<u8> = Vec::new();
                let exceptions: Vec<ExceptionHandler> = Vec::new();
                let local_vars: Vec<LocalVariable> = Vec::new();
                let line_numbers: Vec<LineNumber> = Vec::new();
                proof {
                    assert(handlers_view(exceptions@) =~= Seq::<ExceptionHandlerView>::empty());
                    assert(locals_view(local_vars@) =~= Seq::<LocalVariableView>::empty());
                }
                finish_method(
                    method_info,
                    constant_pool,
                    0,
                    0,
                    code,
                    exceptions,
                    local_vars,
                    line_numbers,
                )
            } else {
                Err(DecodeError::MissingCodeAttribute)
            }
        },
    }
}

impl Class {
    /// Builds the symbolic class from a fully decoded container: resolves the
    /// constants, assigns field slots densely in declaration order, builds the
    /// methods, and resolves the class, superclass and interface names. The
    /// result has its status flags all false or zero and its cross-class links
    /// unresolved.
    #[verifier::loop_isolation(false)]
    pub fn from(classfile: &ClassFile) -> (r: Result<Class, DecodeError>)
        ensures
            match spec_build_class(classfile@) {
                Ok(cv) => r matches Ok(class) && class@ == cv,
                Err(e) => r matches Err(err) && err == e,
            },
    {
        let cp = &classfile.constant_pool;
        let ghost pv = pool_view(classfile.constant_pool@);
        let constant_pool_len = classfile.constant_pool_count as usize;
        let mut constant_pool: Vec<Constant> = Vec::new();
        let mut i: usize = 0;
        proof {
            assert(constants_view(constant_pool@) =~= Seq::<ConstantView>::empty());
        }
        while i < constant_pool_len
            invariant
                i <= constant_pool_len,
                spec_build_constants(pv, i as int) == Ok::<_, DecodeError>(
                    constants_view(constant_pool@),
                ),
                constant_pool@.len() == i,
            decreases constant_pool_len - i,
        {
            let constant = match Constant::from(i, cp) {
                Ok(c) => c,
                Err(e) => {
                    proof {
                        lemma_build_constants_err(pv, i as int, constant_pool_len as int);
                    }
                    return Err(e);
                },
            };
            let ghost before = constants_view(constant_pool@);
            constant_pool.push(constant);
            i = i + 1;
            proof {
                assert(constants_view(constant_pool@) =~= before.push(
                    spec_constant_from(pv, i - 1)->Ok_0,
                ));
            }
        }
        let fields_len = classfile.fields.len();
        let mut fields: Vec<Field> = Vec::new();
        let mut i: usize = 0;
        proof {
            assert(class_fields_view(fields@) =~= Seq::<FieldView>::empty());
        }
        while i < fields_len
            invariant
                i <= fields_len,
                spec_build_fields(pv, crate::class_file::fields_view(classfile.fields@), i as int)
                    == Ok::<_, DecodeError>(class_fields_view(fields@)),
                fields@.len() == i,
            decreases fields_len - i,
        {
            let field = match build_field(&classfile.fields[i], cp, i as u32) {
                Ok(f) => f,
                Err(e) => {
                    proof {
                        lemma_build_fields_err(
                            pv,
                            crate::class_file::fields_view(classfile.fields@),
                            i as int,
                            fields_len as int,
                        );
                    }
                    return Err(e);
                },
            };
            let ghost before = class_fields_view(fields@);
            fields.push(field);
            i = i + 1;
            proof {
                assert(class_fields_view(fields@) =~= before.push(
                    spec_build_field(
                        pv,
                        crate::class_file::fields_view(classfile.fields@)[i - 1],
                        i - 1,
                    )->Ok_0,
                ));
            }
        }
        let methods_len = classfile.methods.len();
        let mut methods: Vec<Method> = Vec::new();
        let mut i: usize = 0;
        proof {
            assert(class_methods_view(methods@) =~= Seq::<MethodView>::empty());
        }
        while i < methods_len
            invariant
                i <= methods_len,
                spec_build_methods(
                    pv,
                    crate::class_file::methods_view(classfile.methods@),
                    i as int,
                ) == Ok::<_, DecodeError>(class_methods_view(methods@)),
                methods@.len() == i,
            decreases methods_len - i,
        {
            let method = match build_method(&classfile.methods[i], cp) {
                Ok(m) => m,
                Err(e) => {
                    proof {
                        lemma_build_methods_err(
                            pv,
                            crate::class_file::methods_view(classfile.methods@),
                            i as int,
                            methods_len as int,
                        );
                    }
                    return Err(e);
                },
            };
            let ghost before = class_methods_view(methods@);
            methods.push(method);
            i = i + 1;
            proof {
                assert(class_methods_view(methods@) =~= before.push(
                    spec_build_method(
                        pv,
                        crate::class_file::methods_view(classfile.methods@)[i - 1],
                    )->Ok_0,
                ));
            }
        }
        let name = resolve_class(cp, classfile.this_class)?;
        let super_class_name = if classfile.super_class == 0 {
            String::new()
        } else {
            resolve_class(cp, classfile.super_class)?
        };
        let interfaces_len = classfile.interfaces.len();
        let mut interface_names: Vec<String> = Vec::new();
        let mut i: usize = 0;
        proof {
            assert(strings_view(interface_names@) =~= Seq::<Seq<char>>::empty());
        }
        while i < interfaces_len
            invariant
                i <= interfaces_len,
                spec_build_interface_names(pv, classfile.interfaces@, i as int) == Ok::<
                    _,
                    DecodeError,
                >(strings_view(interface_names@)),
                interface_names@.len() == i,
            decreases interfaces_len - i,
        {
            let interface_name = match resolve_class(cp, classfile.interfaces[i]) {
                Ok(t) => t,
                Err(e) => {
                    proof {
                        lemma_build_interface_names_err(
                            pv,
                            classfile.interfaces@,
                            i as int,
                            interfaces_len as int,
                        );
                    }
                    return Err(e);
                },
            };
            let ghost before = strings_view(interface_names@);
            interface_names.push(interface_name);
            i = i + 1;
            proof {
                assert(strings_view(interface_names@) =~= before.push(
                    spec_resolve_class(pv, classfile.interfaces@[i - 1] as int)->Ok_0,
                ));
            }
        }
        let interfaces: Vec<ClassRef> = Vec::new();
        proof {
            assert(interfaces@ =~= Seq::<ClassRef>::empty());
        }
        Ok(
            Class {
                constant_pool,
                name,
                access_flags: classfile.access_flags,
                super_class_name,
                interface_names,
                fields,
                methods,
                instance_vars_count: 0,
                static_vars_count: 0,
                source_file: String::new(),
                defined: false,
                linked: false,
                initialized: 0,
                super_class: ClassRef::Unresolved,
                interfaces,
            },
        )
    }

    /// Well-formedness of the lifecycle flags: a class is linked only once
    /// defined, and initialized only once linked, and the initialization count
    /// never goes negative.
    pub open spec fn lifecycle_wf(self) -> bool {
        &&& self.linked ==> self.defined
        &&& self.initialized > 0 ==> self.linked
        &&& self.initialized >= 0
    }

    /// Marks the class defined, the step taken once the container is decoded
    /// and the model is built. Re-entering the defined step after linking is
    /// not a legal transition, so a linked class is refused.
    pub fn set_defined(&mut self)
        requires
            old(self).lifecycle_wf(),
            !old(self).linked,
        ensures
            final(self).lifecycle_wf(),
            *final(self) == (Class { defined: true, ..*old(self) }),
    {
        self.defined = true;
    }

    /// Marks the class linked, the step an external linker takes once the
    /// unresolved references are replaced. Linking requires the class to be
    /// defined first: no transition runs out of order.
    pub fn set_linked(&mut self)
        requires
            old(self).lifecycle_wf(),
            old(self).defined,
        ensures
            final(self).lifecycle_wf(),
            *final(self) == (Class { linked: true, ..*old(self) }),
    {
        self.linked = true;
    }

    /// Counts one successful run of the static initializer, which an external
    /// initializer performs only on a linked class.
    pub fn add_initialization(&mut self)
        requires
            old(self).lifecycle_wf(),
            old(self).linked,
            old(self).initialized < i32::MAX,
        ensures
            final(self).lifecycle_wf(),
            *final(self) == (Class { initialized: (old(self).initialized + 1) as i32, ..*old(self) }),
    {
        self.initialized = self.initialized + 1;
    }

    /// The class's own name.
    pub fn name(&self) -> (r: String)
        ensures
            r@ == self.name@,
    {
        self.name.as_str().to_owned()
    }

    /// The descriptor of the class type: its name wrapped in `L` and `;`.
    pub fn descriptor(&self) -> (r: String)
        ensures
            r@ == JVM_SIGNATURE_CLASS@ + self.name@ + JVM_SIGNATURE_ENDCLASS@,
    {
        let mut s = JVM_SIGNATURE_CLASS.to_owned();
        append_chars(&mut s, self.name.as_str());
        append_chars(&mut s, JVM_SIGNATURE_ENDCLASS);
        s
    }
}

/// Law: the lifecycle is monotonic — each legal transition preserves
/// well-formedness and only moves the class forward: defining never unlinks,
/// linking never undefines, and initialization only counts up.
pub proof fn lemma_lifecycle_monotonic(before: Class, after: Class)
    requires
        before.lifecycle_wf(),
        (after == (Class { defined: true, ..before }) && !before.linked) || (after == (Class {
            linked: true,
            ..before
        }) && before.defined) || (after == (Class {
            initialized: (before.initialized + 1) as i32,
            ..before
        }) && before.linked && before.initialized < i32::MAX),
    ensures
        after.lifecycle_wf(),
        before.defined ==> after.defined,
        before.linked ==> after.linked,
        after.initialized >= before.initialized,
{
}

} // verus!

