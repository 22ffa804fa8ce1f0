//! Named, length-prefixed attribute records and their decoder.
//!
//! An attribute's name index is resolved to text before dispatch — through the
//! pool's sanctioned resolution helper, so an index whose entry is not the
//! UTF-8 variant is a fatal wrong-constant-kind error — and the dispatch key is
//! the textual attribute name. Recognized names get a typed payload; any other
//! name has its declared byte length consumed verbatim and
//! discarded, which keeps the cursor synchronized for the following sibling —
//! the format gives no other way to skip an attribute than trusting its length.
//! A `Code` payload nests further attributes, and an annotation's element
//! values nest annotations and arrays, so decoding is recursive; every
//! recursion is bounded by the bytes that remain.

use vstd::prelude::*;

use std::rc::Rc;

use crate::class_file::{be2, be4, Buffer};
use crate::constants::{
    JVM_ELEMENT_VALUE_ANNOTATION, JVM_ELEMENT_VALUE_ARRAY, JVM_ELEMENT_VALUE_CLASS,
    JVM_ELEMENT_VALUE_ENUM,
};
use crate::constant_pool::{
    pool_view, resolve_utf8, spec_resolve_utf8, ConstantPoolInfo, CpEntryView,
};
use crate::error::DecodeError;

verus! {

/// One attribute record: a typed payload for each recognized attribute name,
/// and an opaque marker for a skipped one.
pub enum AttributeInfo {
    Unknown,
    Code(CodeAttribute),
    LineNumberTable(LineNumberTableAttribute),
    LocalVariableTable(LocalVariableTableAttribute),
    SourceFile(SourceFileAttribute),
    RuntimeVisibleAnnotation(RuntimeVisibleAnnotationAttribute),
}

/// Code_attribute: stack and locals bounds, raw bytecode (opaque at this
/// layer), the exception table, and nested attribute records.
pub struct CodeAttribute {
    pub attribute_name_index: u16,
    pub attribute_length: u32,
    pub max_stack: u16,
    pub max_locals: u16,
    pub code_length: u32,
    pub code: Vec<u8>,
    pub exception_table_length: u16,
    pub exception_table: Vec<ExceptionTableEntry>,
    pub attributes_count: u16,
    pub attributes: Vec<AttributeInfo>,
}

/// One exception-table row: program-counter range, handler, and catch type.
pub struct ExceptionTableEntry {
    pub start_pc: u16,
    pub end_pc: u16,
    pub handle_pc: u16,
    pub catch_type: u16,
}

/// LineNumberTable_attribute.
pub struct LineNumberTableAttribute {
    pub attribute_name_index: u16,
    pub attribute_length: u32,
    pub line_number_table_length: u16,
    pub line_number_table: Vec<LineNumberTableEntry>,
}

/// One line-number row: a program counter and the source line starting there.
pub struct LineNumberTableEntry {
    pub start_pc: u16,
    pub line_number: u16,
}

/// LocalVariableTable_attribute.
pub struct LocalVariableTableAttribute {
    pub attribute_name_index: u16,
    pub attribute_length: u32,
    pub local_variable_table_length: u16,
    pub local_variable_table: Vec<LocalVariableTableEntry>,
}

/// One local-variable row: its live range, name, descriptor and slot index.
pub struct LocalVariableTableEntry {
    pub start_pc: u16,
    pub length: u16,
    pub name_index: u16,
    pub descriptor_index: u16,
    pub index: u16,
}

/// SourceFile_attribute: the UTF-8 index of the source file name.
pub struct SourceFileAttribute {
    pub attribute_name_index: u16,
    pub attribute_length: u32,
    pub source_file_index: u16,
}

/// RuntimeVisibleAnnotations_attribute: the attribute's ordered annotations,
/// each with recursively-typed element values.
pub struct RuntimeVisibleAnnotationAttribute {
    pub attribute_name_index: u16,
    pub attribute_length: u32,
    pub num_annotations: u16,
    pub annotations: Vec<Annotation>,
}

/// One annotation: a type index and its ordered name-to-value pairs.
pub struct Annotation {
    pub type_index: u16,
    pub num_element_value_pairs: u16,
    pub element_value_pairs: Vec<AnnotationElementValuePair>,
}

/// One element-value pair of an annotation.
pub struct AnnotationElementValuePair {
    pub element_name_index: u16,
    pub value: ElementValue,
}

/// An annotation element value: a tag and the union of its payload shapes
/// (the nested annotation is boxed, since the type is recursive through it).
pub struct ElementValue {
    pub tag: u8,
    pub const_value_index: u16,
    pub enum_const_value: EnumConstValue,
    pub class_info_index: u16,
    pub annotation_value: Box<Annotation>,
    pub array_value: ElementValueArray,
}

/// The enum_const_value payload shape of an element value.
pub struct EnumConstValue {
    pub type_name_index: u16,
    pub const_name_index: u16,
}

/// The array_value payload shape of an element value.
pub struct ElementValueArray {
    pub num_values: u16,
    pub values: Vec<Rc<ElementValue>>,
}

/// The mathematical shape of one attribute record.
pub enum AttributeInfoView {
    Unknown,
    Code(CodeAttributeView),
    LineNumberTable(LineNumberTableAttributeView),
    LocalVariableTable(LocalVariableTableAttributeView),
    SourceFile(SourceFileAttribute),
    RuntimeVisibleAnnotation(RuntimeVisibleAnnotationAttributeView),
}

/// The mathematical shape of a code attribute.
pub struct CodeAttributeView {
    pub attribute_name_index: u16,
    pub attribute_length: u32,
    pub max_stack: u16,
    pub max_locals: u16,
    pub code_length: u32,
    pub code: Seq<u8>,
    pub exception_table_length: u16,
    pub exception_table: Seq<ExceptionTableEntry>,
    pub attributes_count: u16,
    pub attributes: Seq<AttributeInfoView>,
}

/// The mathematical shape of a line-number table attribute.
pub struct LineNumberTableAttributeView {
    pub attribute_name_index: u16,
    pub attribute_length: u32,
    pub line_number_table_length: u16,
    pub line_number_table: Seq<LineNumberTableEntry>,
}

/// The mathematical shape of a local-variable table attribute.
pub struct LocalVariableTableAttributeView {
    pub attribute_name_index: u16,
    pub attribute_length: u32,
    pub local_variable_table_length: u16,
    pub local_variable_table: Seq<LocalVariableTableEntry>,
}

/// The mathematical shape of a runtime-visible-annotations attribute.
pub struct RuntimeVisibleAnnotationAttributeView {
    pub attribute_name_index: u16,
    pub attribute_length: u32,
    pub num_annotations: u16,
    pub annotations: Seq<AnnotationView>,
}

/// The mathematical shape of one annotation.
pub struct AnnotationView {
    pub type_index: u16,
    pub num_element_value_pairs: u16,
    pub element_value_pairs: Seq<AnnotationElementValuePairView>,
}

/// The mathematical shape of one element-value pair.
pub struct AnnotationElementValuePairView {
    pub element_name_index: u16,
    pub value: ElementValueView,
}

/// The mathematical shape of an element value: the tag and all payload shapes,
/// the ones the tag does not select left at their zero values.
pub struct ElementValueView {
    pub tag: u8,
    pub const_value_index: u16,
    pub enum_const_value: EnumConstValue,
    pub class_info_index: u16,
    pub annotation_value: AnnotationView,
    pub array_value: ElementValueArrayView,
}

/// The mathematical shape of an element-value array.
pub struct ElementValueArrayView {
    pub num_values: u16,
    pub values: Seq<ElementValueView>,
}

/// The view of one annotation.
pub open spec fn annotation_view(a: Annotation) -> AnnotationView
    decreases a,
{
    AnnotationView {
        type_index: a.type_index,
        num_element_value_pairs: a.num_element_value_pairs,
        element_value_pairs: annotation_pairs_view(a.element_value_pairs@),
    }
}

/// The views of a sequence of element-value pairs, in order.
pub open spec fn annotation_pairs_view(v: Seq<AnnotationElementValuePair>) -> Seq<
    AnnotationElementValuePairView,
>
    decreases v,
{
    Seq::new(
        v.len(),
        |i: int|
            if 0 <= i < v.len() {
                annotation_pair_view(v[i])
            } else {
                AnnotationElementValuePairView {
                    element_name_index: 0,
                    value: empty_element_value_view(),
                }
            },
    )
}

/// The view of one element-value pair.
pub open spec fn annotation_pair_view(p: AnnotationElementValuePair) -> AnnotationElementValuePairView
    decreases p,
{
    AnnotationElementValuePairView {
        element_name_index: p.element_name_index,
        value: element_value_view(p.value),
    }
}

/// The view of one element value.
pub open spec fn element_value_view(v: ElementValue) -> ElementValueView
    decreases v,
{
    ElementValueView {
        tag: v.tag,
        const_value_index: v.const_value_index,
        enum_const_value: v.enum_const_value,
        class_info_index: v.class_info_index,
        annotation_value: annotation_view(*v.annotation_value),
        array_value: element_value_array_view(v.array_value),
    }
}

/// The view of an element-value array.
pub open spec fn element_value_array_view(a: ElementValueArray) -> ElementValueArrayView
    decreases a,
{
    ElementValueArrayView { num_values: a.num_values, values: element_values_view(a.values@) }
}

/// The views of a sequence of shared element values, in order.
pub open spec fn element_values_view(v: Seq<Rc<ElementValue>>) -> Seq<ElementValueView>
    decreases v,
{
    Seq::new(
        v.len(),
        |i: int|
            if 0 <= i < v.len() {
                element_value_view(*v[i])
            } else {
                empty_element_value_view()
            },
    )
}

/// The views of a sequence of annotations, in order.
pub open spec fn annotations_view(v: Seq<Annotation>) -> Seq<AnnotationView>
    decreases v,
{
    Seq::new(
        v.len(),
        |i: int|
            if 0 <= i < v.len() {
                annotation_view(v[i])
            } else {
                empty_annotation_view()
            },
    )
}

/// The annotation with no element-value pairs: the zero value the decoder
/// leaves in payload shapes its tag does not select.
pub open spec fn empty_annotation_view() -> AnnotationView {
    AnnotationView { type_index: 0, num_element_value_pairs: 0, element_value_pairs: Seq::empty() }
}

/// The element-value array with no values: the zero value the decoder leaves
/// in payload shapes its tag does not select.
pub open spec fn empty_element_value_array_view() -> ElementValueArrayView {
    ElementValueArrayView { num_values: 0, values: Seq::empty() }
}

/// The element value with tag 0 and all payload shapes at their zero values.
pub open spec fn empty_element_value_view() -> ElementValueView {
    ElementValueView {
        tag: 0,
        const_value_index: 0,
        enum_const_value: EnumConstValue { type_name_index: 0, const_name_index: 0 },
        class_info_index: 0,
        annotation_value: empty_annotation_view(),
        array_value: empty_element_value_array_view(),
    }
}

/// The view of a code attribute.
pub open spec fn code_view(c: CodeAttribute) -> CodeAttributeView
    decreases c,
{
    CodeAttributeView {
        attribute_name_index: c.attribute_name_index,
        attribute_length: c.attribute_length,
        max_stack: c.max_stack,
        max_locals: c.max_locals,
        code_length: c.code_length,
        code: c.code@,
        exception_table_length: c.exception_table_length,
        exception_table: c.exception_table@,
        attributes_count: c.attributes_count,
        attributes: attrs_view(c.attributes@),
    }
}

/// The view of a line-number table attribute.
pub open spec fn line_number_table_view(t: LineNumberTableAttribute) -> LineNumberTableAttributeView {
    LineNumberTableAttributeView {
        attribute_name_index: t.attribute_name_index,
        attribute_length: t.attribute_length,
        line_number_table_length: t.line_number_table_length,
        line_number_table: t.line_number_table@,
    }
}

/// The view of a local-variable table attribute.
pub open spec fn local_variable_table_view(t: LocalVariableTableAttribute) -> LocalVariableTableAttributeView {
    LocalVariableTableAttributeView {
        attribute_name_index: t.attribute_name_index,
        attribute_length: t.attribute_length,
        local_variable_table_length: t.local_variable_table_length,
        local_variable_table: t.local_variable_table@,
    }
}

/// The view of one attribute record.
pub open spec fn attr_view(a: AttributeInfo) -> AttributeInfoView
    decreases a,
{
    match a {
        AttributeInfo::Unknown => AttributeInfoView::Unknown,
        AttributeInfo::Code(c) => AttributeInfoView::Code(code_view(c)),
        AttributeInfo::LineNumberTable(t) => AttributeInfoView::LineNumberTable(
            line_number_table_view(t),
        ),
        AttributeInfo::LocalVariableTable(t) => AttributeInfoView::LocalVariableTable(
            local_variable_table_view(t),
        ),
        AttributeInfo::SourceFile(s) => AttributeInfoView::SourceFile(s),
        AttributeInfo::RuntimeVisibleAnnotation(r) => AttributeInfoView::RuntimeVisibleAnnotation(
            RuntimeVisibleAnnotationAttributeView {
                attribute_name_index: r.attribute_name_index,
                attribute_length: r.attribute_length,
                num_annotations: r.num_annotations,
                annotations: annotations_view(r.annotations@),
            },
        ),
    }
}

/// The views of a sequence of attribute records, in order.
pub open spec fn attrs_view(v: Seq<AttributeInfo>) -> Seq<AttributeInfoView>
    decreases v,
{
    Seq::new(
        v.len(),
        |i: int|
            if 0 <= i < v.len() {
                attr_view(v[i])
            } else {
                AttributeInfoView::Unknown
            },
    )
}

impl View for AttributeInfo {
    type V = AttributeInfoView;

    open spec fn view(&self) -> AttributeInfoView {
        attr_view(*self)
    }
}

/// The exception-table row whose eight bytes start at `p`.
pub open spec fn spec_exception_entry(b: Seq<u8>, p: int) -> ExceptionTableEntry {
    ExceptionTableEntry {
        start_pc: be2(b, p),
        end_pc: be2(b, p + 2),
        handle_pc: be2(b, p + 4),
        catch_type: be2(b, p + 6),
    }
}

/// The line-number row whose four bytes start at `p`.
pub open spec fn spec_line_number_entry(b: Seq<u8>, p: int) -> LineNumberTableEntry {
    LineNumberTableEntry { start_pc: be2(b, p), line_number: be2(b, p + 2) }
}

/// The local-variable row whose ten bytes start at `p`.
pub open spec fn spec_local_variable_entry(b: Seq<u8>, p: int) -> LocalVariableTableEntry {
    LocalVariableTableEntry {
        start_pc: be2(b, p),
        length: be2(b, p + 2),
        name_index: be2(b, p + 4),
        descriptor_index: be2(b, p + 6),
        index: be2(b, p + 8),
    }
}

/// What decoding one annotation at position `p` of `b` yields: its type index,
/// then its ordered element-value pairs.
pub open spec fn spec_decode_annotation(b: Seq<u8>, p: int) -> Result<
    (AnnotationView, int),
    DecodeError,
>
    decreases b.len() - p, 0int, 1int,
{
    if p + 4 > b.len() {
        Err(DecodeError::Truncated)
    } else {
        let type_index = be2(b, p);
        let num_element_value_pairs = be2(b, p + 2);
        match spec_decode_annotation_pairs(b, p + 4, num_element_value_pairs as int) {
            Ok((element_value_pairs, p1)) => Ok(
                (
                    AnnotationView { type_index, num_element_value_pairs, element_value_pairs },
                    p1,
                ),
            ),
            Err(e) => Err(e),
        }
    }
}

/// What decoding `count` consecutive element-value pairs at `p` yields.
pub open spec fn spec_decode_annotation_pairs(b: Seq<u8>, p: int, count: int) -> Result<
    (Seq<AnnotationElementValuePairView>, int),
    DecodeError,
>
    decreases b.len() - p, count, 3int,
{
    if count <= 0 {
        Ok((Seq::empty(), p))
    } else if p + 2 > b.len() {
        Err(DecodeError::Truncated)
    } else {
        let element_name_index = be2(b, p);
        match spec_decode_element_value(b, p + 2) {
            Ok((value, p1)) => if p1 <= p || p1 > b.len() {
                // Decoding one element value always advances within bounds
                // (lemma_element_value_progress); this branch is unreachable
                // and only bounds the recursion.
                Err(DecodeError::Truncated)
            } else {
                match spec_decode_annotation_pairs(b, p1, count - 1) {
                    Ok((rest, p2)) => Ok(
                        (
                            seq![AnnotationElementValuePairView { element_name_index, value }]
                                + rest,
                            p2,
                        ),
                    ),
                    Err(e) => Err(e),
                }
            },
            Err(e) => Err(e),
        }
    }
}

/// What decoding one element value at position `p` of `b` yields: a tag byte,
/// then the payload shape that tag selects — an enum constant pair, a nested
/// annotation, an array of values, a class descriptor index, or (for every
/// other tag) a constant index. The payload shapes the tag does not select are
/// left at their zero values.
pub open spec fn spec_decode_element_value(b: Seq<u8>, p: int) -> Result<
    (ElementValueView, int),
    DecodeError,
>
    decreases b.len() - p, 0int, 2int,
{
    if p + 1 > b.len() {
        Err(DecodeError::Truncated)
    } else {
        let tag = b[p];
        if tag == JVM_ELEMENT_VALUE_ENUM {
            if p + 5 <= b.len() {
                Ok(
                    (
                        ElementValueView {
                            enum_const_value: EnumConstValue {
                                type_name_index: be2(b, p + 1),
                                const_name_index: be2(b, p + 3),
                            },
                            ..empty_element_value_view_with(tag)
                        },
                        p + 5,
                    ),
                )
            } else {
                Err(DecodeError::Truncated)
            }
        } else if tag == JVM_ELEMENT_VALUE_ANNOTATION {
            match spec_decode_annotation(b, p + 1) {
                Ok((annotation_value, p1)) => Ok(
                    (
                        ElementValueView {
                            annotation_value,
                            ..empty_element_value_view_with(tag)
                        },
                        p1,
                    ),
                ),
                Err(e) => Err(e),
            }
        } else if tag == JVM_ELEMENT_VALUE_ARRAY {
            if p + 3 <= b.len() {
                let num_values = be2(b, p + 1);
                match spec_decode_element_values(b, p + 3, num_values as int) {
                    Ok((values, p1)) => Ok(
                        (
                            ElementValueView {
                                array_value: ElementValueArrayView { num_values, values },
                                ..empty_element_value_view_with(tag)
                            },
                            p1,
                        ),
                    ),
                    Err(e) => Err(e),
                }
            } else {
                Err(DecodeError::Truncated)
            }
        } else if tag == JVM_ELEMENT_VALUE_CLASS {
            if p + 3 <= b.len() {
                Ok(
                    (
                        ElementValueView {
                            class_info_index: be2(b, p + 1),
                            ..empty_element_value_view_with(tag)
                        },
                        p + 3,
                    ),
                )
            } else {
                Err(DecodeError::Truncated)
            }
        } else {
            if p + 3 <= b.len() {
                Ok(
                    (
                        ElementValueView {
                            const_value_index: be2(b, p + 1),
                            ..empty_element_value_view_with(tag)
                        },
                        p + 3,
                    ),
                )
            } else {
                Err(DecodeError::Truncated)
            }
        }
    }
}

/// The element value carrying `tag` with every payload shape at its zero value.
pub open spec fn empty_element_value_view_with(tag: u8) -> ElementValueView {
    ElementValueView { tag, ..empty_element_value_view() }
}

/// What decoding `count` consecutive element values at `p` yields.
pub open spec fn spec_decode_element_values(b: Seq<u8>, p: int, count: int) -> Result<
    (Seq<ElementValueView>, int),
    DecodeError,
>
    decreases b.len() - p, count, 3int,
{
    if count <= 0 {
        Ok((Seq::empty(), p))
    } else if p > b.len() {
        Err(DecodeError::Truncated)
    } else {
        match spec_decode_element_value(b, p) {
            Ok((v, p1)) => if p1 <= p || p1 > b.len() {
                // Unreachable (lemma_element_value_progress); bounds the
                // recursion.
                Err(DecodeError::Truncated)
            } else {
                match spec_decode_element_values(b, p1, count - 1) {
                    Ok((rest, p2)) => Ok((seq![v] + rest, p2)),
                    Err(e) => Err(e),
                }
            },
            Err(e) => Err(e),
        }
    }
}

/// What decoding `count` consecutive annotations at `p` yields.
pub open spec fn spec_decode_annotations(b: Seq<u8>, p: int, count: int) -> Result<
    (Seq<AnnotationView>, int),
    DecodeError,
>
    decreases b.len() - p, count, 3int,
{
    if count <= 0 {
        Ok((Seq::empty(), p))
    } else if p > b.len() {
        Err(DecodeError::Truncated)
    } else {
        match spec_decode_annotation(b, p) {
            Ok((a, p1)) => if p1 <= p || p1 > b.len() {
                // Unreachable (lemma_annotation_progress); bounds the
                // recursion.
                Err(DecodeError::Truncated)
            } else {
                match spec_decode_annotations(b, p1, count - 1) {
                    Ok((rest, p2)) => Ok((seq![a] + rest, p2)),
                    Err(e) => Err(e),
                }
            },
            Err(e) => Err(e),
        }
    }
}

/// Law: a successfully decoded annotation lies within the buffer and consumes
/// at least its four-byte header.
pub proof fn lemma_annotation_progress(b: Seq<u8>, p: int)
    ensures
        spec_decode_annotation(b, p) matches Ok((a, p1)) ==> p + 4 <= p1 <= b.len(),
    decreases b.len() - p, 0int, 1int,
{
    if p + 4 <= b.len() {
        let num_element_value_pairs = be2(b, p + 2);
        lemma_annotation_pairs_progress(b, p + 4, num_element_value_pairs as int);
    }
}

/// Law: successfully decoded element-value pair runs only move the position
/// forward, and never past the end of the buffer.
pub proof fn lemma_annotation_pairs_progress(b: Seq<u8>, p: int, count: int)
    ensures
        spec_decode_annotation_pairs(b, p, count) matches Ok((s, p2)) ==> {
            &&& count <= 0 ==> p2 == p
            &&& count > 0 ==> p < p2 <= b.len()
        },
    decreases b.len() - p, count, 3int,
{
    if count > 0 && p + 2 <= b.len() {
        lemma_element_value_progress(b, p + 2);
        if let Ok((v, p1)) = spec_decode_element_value(b, p + 2) {
            if p < p1 <= b.len() {
                lemma_annotation_pairs_progress(b, p1, count - 1);
            }
        }
    }
}

/// Law: a successfully decoded element value lies within the buffer and
/// consumes at least its tag and a two-byte payload.
pub proof fn lemma_element_value_progress(b: Seq<u8>, p: int)
    ensures
        spec_decode_element_value(b, p) matches Ok((v, p1)) ==> p + 3 <= p1 <= b.len(),
    decreases b.len() - p, 0int, 2int,
{
    if p + 1 <= b.len() {
        let tag = b[p];
        if tag == JVM_ELEMENT_VALUE_ANNOTATION {
            lemma_annotation_progress(b, p + 1);
        } else if tag == JVM_ELEMENT_VALUE_ARRAY && p + 3 <= b.len() {
            let num_values = be2(b, p + 1);
            lemma_element_values_progress(b, p + 3, num_values as int);
        }
    }
}

/// Law: successfully decoded element-value runs only move the position
/// forward, and never past the end of the buffer.
pub proof fn lemma_element_values_progress(b: Seq<u8>, p: int, count: int)
    ensures
        spec_decode_element_values(b, p, count) matches Ok((s, p2)) ==> {
            &&& count <= 0 ==> p2 == p
            &&& count > 0 ==> p < p2 <= b.len()
        },
    decreases b.len() - p, count, 3int,
{
    if count > 0 && p <= b.len() {
        lemma_element_value_progress(b, p);
        if let Ok((v, p1)) = spec_decode_element_value(b, p) {
            if p < p1 <= b.len() {
                lemma_element_values_progress(b, p1, count - 1);
            }
        }
    }
}

/// Law: successfully decoded annotation runs only move the position forward,
/// and never past the end of the buffer.
pub proof fn lemma_annotations_progress(b: Seq<u8>, p: int, count: int)
    ensures
        spec_decode_annotations(b, p, count) matches Ok((s, p2)) ==> {
            &&& count <= 0 ==> p2 == p
            &&& count > 0 ==> p < p2 <= b.len()
        },
    decreases b.len() - p, count, 3int,
{
    if count > 0 && p <= b.len() {
        lemma_annotation_progress(b, p);
        if let Ok((a, p1)) = spec_decode_annotation(b, p) {
            if p < p1 <= b.len() {
                lemma_annotations_progress(b, p1, count - 1);
            }
        }
    }
}

/// What decoding one attribute at position `p` of `b` yields, with the pool
/// already available for name lookups: the attribute and the position after
/// it, or the exact error.
pub open spec fn spec_decode_attribute(b: Seq<u8>, pool: Seq<CpEntryView>, p: int) -> Result<
    (AttributeInfoView, int),
    DecodeError,
>
    decreases b.len() - p, 0int,
{
    if p + 6 > b.len() {
        Err(DecodeError::Truncated)
    } else {
        let attribute_name_index = be2(b, p);
        let attribute_length = be4(b, p + 2);
        let name_result = spec_resolve_utf8(pool, attribute_name_index as int);
        if name_result is Err {
            Err(name_result->Err_0)
        } else {
            let name = name_result->Ok_0;
            if name == "Code"@ {
            if p + 14 > b.len() {
                Err(DecodeError::Truncated)
            } else {
                let max_stack = be2(b, p + 6);
                let max_locals = be2(b, p + 8);
                let code_length = be4(b, p + 10);
                if p + 14 + code_length > b.len() {
                    Err(DecodeError::Truncated)
                } else {
                    let q1 = p + 14 + code_length;
                    if q1 + 2 > b.len() {
                        Err(DecodeError::Truncated)
                    } else {
                        let exception_table_length = be2(b, q1);
                        let q2 = q1 + 2 + 8 * exception_table_length;
                        if q2 > b.len() {
                            Err(DecodeError::Truncated)
                        } else if q2 + 2 > b.len() {
                            Err(DecodeError::Truncated)
                        } else {
                            let attributes_count = be2(b, q2);
                            let q3 = q2 + 2;
                            match spec_decode_attributes(b, pool, q3, attributes_count as int) {
                                Ok((nested, p_end)) => Ok(
                                    (
                                        AttributeInfoView::Code(
                                            CodeAttributeView {
                                                attribute_name_index,
                                                attribute_length,
                                                max_stack,
                                                max_locals,
                                                code_length,
                                                code: b.subrange(p + 14, p + 14 + code_length),
                                                exception_table_length,
                                                exception_table: Seq::new(
                                                    exception_table_length as nat,
                                                    |i: int| spec_exception_entry(b, q1 + 2 + 8 * i),
                                                ),
                                                attributes_count,
                                                attributes: nested,
                                            },
                                        ),
                                        p_end,
                                    ),
                                ),
                                Err(e) => Err(e),
                            }
                        }
                    }
                }
            }
        } else if name == "LineNumberTable"@ {
            if p + 8 > b.len() {
                Err(DecodeError::Truncated)
            } else {
                let line_number_table_length = be2(b, p + 6);
                let q = p + 8 + 4 * line_number_table_length;
                if q > b.len() {
                    Err(DecodeError::Truncated)
                } else {
                    Ok(
                        (
                            AttributeInfoView::LineNumberTable(
                                LineNumberTableAttributeView {
                                    attribute_name_index,
                                    attribute_length,
                                    line_number_table_length,
                                    line_number_table: Seq::new(
                                        line_number_table_length as nat,
                                        |i: int| spec_line_number_entry(b, p + 8 + 4 * i),
                                    ),
                                },
                            ),
                            q,
                        ),
                    )
                }
            }
        } else if name == "LocalVariableTable"@ {
            if p + 8 > b.len() {
                Err(DecodeError::Truncated)
            } else {
                let local_variable_table_length = be2(b, p + 6);
                let q = p + 8 + 10 * local_variable_table_length;
                if q > b.len() {
                    Err(DecodeError::Truncated)
                } else {
                    Ok(
                        (
                            AttributeInfoView::LocalVariableTable(
                                LocalVariableTableAttributeView {
                                    attribute_name_index,
                                    attribute_length,
                                    local_variable_table_length,
                                    local_variable_table: Seq::new(
                                        local_variable_table_length as nat,
                                        |i: int| spec_local_variable_entry(b, p + 8 + 10 * i),
                                    ),
                                },
                            ),
                            q,
                        ),
                    )
                }
            }
        } else if name == "SourceFile"@ {
            if p + 8 > b.len() {
                Err(DecodeError::Truncated)
            } else {
                Ok(
                    (
                        AttributeInfoView::SourceFile(
                            SourceFileAttribute {
                                attribute_name_index,
                                attribute_length,
                                source_file_index: be2(b, p + 6),
                            },
                        ),
                        p + 8,
                    ),
                )
            }
        } else if name == "RuntimeVisibleAnnotations"@ {
            if p + 8 > b.len() {
                Err(DecodeError::Truncated)
            } else {
                let num_annotations = be2(b, p + 6);
                match spec_decode_annotations(b, p + 8, num_annotations as int) {
                    Ok((annotations, p1)) => Ok(
                        (
                            AttributeInfoView::RuntimeVisibleAnnotation(
                                RuntimeVisibleAnnotationAttributeView {
                                    attribute_name_index,
                                    attribute_length,
                                    num_annotations,
                                    annotations,
                                },
                            ),
                            p1,
                        ),
                    ),
                    Err(e) => Err(e),
                }
            }
        } else {
            if p + 6 + attribute_length > b.len() {
                Err(DecodeError::Truncated)
            } else {
                Ok((AttributeInfoView::Unknown, p + 6 + attribute_length))
            }
        }
        }
    }
}

/// What decoding `count` consecutive attributes at `p` yields.
pub open spec fn spec_decode_attributes(b: Seq<u8>, pool: Seq<CpEntryView>, p: int, count: int) -> Result<
    (Seq<AttributeInfoView>, int),
    DecodeError,
>
    decreases b.len() - p, count + 1,
{
    if count <= 0 {
        Ok((Seq::empty(), p))
    } else if p > b.len() {
        Err(DecodeError::Truncated)
    } else {
        match spec_decode_attribute(b, pool, p) {
            Ok((a, p1)) => if p1 <= p || p1 > b.len() {
                // Decoding one attribute always advances within bounds
                // (lemma_attribute_progress); this branch is unreachable and
                // only bounds the recursion.
                Err(DecodeError::Truncated)
            } else {
                match spec_decode_attributes(b, pool, p1, count - 1) {
                    Ok((rest, p2)) => Ok((seq![a] + rest, p2)),
                    Err(e) => Err(e),
                }
            },
            Err(e) => Err(e),
        }
    }
}

/// Law: a successfully decoded attribute lies within the buffer and consumes at
/// least its six-byte header.
pub proof fn lemma_attribute_progress(b: Seq<u8>, pool: Seq<CpEntryView>, p: int)
    ensures
        spec_decode_attribute(b, pool, p) matches Ok((a, p1)) ==> p + 6 <= p1 <= b.len(),
    decreases b.len() - p, 0int,
{
    if p + 6 <= b.len() {
        let attribute_name_index = be2(b, p);
        let name_result = spec_resolve_utf8(pool, attribute_name_index as int);
        if name_result is Ok && name_result->Ok_0 == "Code"@ && p + 14 <= b.len() {
            let code_length = be4(b, p + 10);
            if p + 14 + code_length <= b.len() {
                let q1 = p + 14 + code_length;
                if q1 + 2 <= b.len() {
                    let exception_table_length = be2(b, q1);
                    let q2 = q1 + 2 + 8 * exception_table_length;
                    if q2 + 2 <= b.len() {
                        let attributes_count = be2(b, q2);
                        lemma_attributes_progress(b, pool, q2 + 2, attributes_count as int);
                    }
                }
            }
        }
        if name_result is Ok && name_result->Ok_0 == "RuntimeVisibleAnnotations"@ && p + 8
            <= b.len() {
            let num_annotations = be2(b, p + 6);
            lemma_annotations_progress(b, p + 8, num_annotations as int);
        }
    }
}

/// Law: successfully decoded attribute runs only move the position forward,
/// and never past the end of the buffer.
pub proof fn lemma_attributes_progress(b: Seq<u8>, pool: Seq<CpEntryView>, p: int, count: int)
    ensures
        spec_decode_attributes(b, pool, p, count) matches Ok((s, p2)) ==> {
            &&& count <= 0 ==> p2 == p
            &&& count > 0 ==> p < p2 <= b.len()
        },
    decreases b.len() - p, count + 1,
{
    if count > 0 && p <= b.len() {
        lemma_attribute_progress(b, pool, p);
        if let Ok((a, p1)) = spec_decode_attribute(b, pool, p) {
            if p < p1 <= b.len() {
                lemma_attributes_progress(b, pool, p1, count - 1);
            }
        }
    }
}

/// The annotation with no element-value pairs, for payload shapes a tag does
/// not select.
fn empty_annotation() -> (r: Annotation)
    ensures
        annotation_view(r) == empty_annotation_view(),
{
    let r = Annotation { type_index: 0, num_element_value_pairs: 0, element_value_pairs: Vec::new() };
    proof {
        assert(annotation_pairs_view(r.element_value_pairs@) =~= Seq::<
            AnnotationElementValuePairView,
        >::empty());
    }
    r
}

/// The element-value array with no values, for payload shapes a tag does not
/// select.
fn empty_element_value_array() -> (r: ElementValueArray)
    ensures
        element_value_array_view(r) == empty_element_value_array_view(),
{
    let r = ElementValueArray { num_values: 0, values: Vec::new() };
    proof {
        assert(element_values_view(r.values@) =~= Seq::<ElementValueView>::empty());
    }
    r
}

impl Annotation {
    /// Decodes one annotation: its type index, then its ordered element-value
    /// pairs.
    pub fn from(buffer: &mut Buffer) -> (r: Result<Annotation, DecodeError>)
        ensures
            final(buffer).bytes@ == old(buffer).bytes@,
            match spec_decode_annotation(old(buffer).bytes@, old(buffer).pos as int) {
                Ok((av, p1)) => r matches Ok(a) && annotation_view(a) == av && final(buffer).pos
                    == p1,
                Err(e) => r matches Err(err) && err == e,
            },
        decreases buffer.bytes@.len() - buffer.pos, 0int, 1int,
    {
        let type_index = buffer.u2()?;
        let num_element_value_pairs = buffer.u2()?;
        let element_value_pairs = AnnotationElementValuePair::with_capacity(
            buffer,
            num_element_value_pairs,
        )?;
        Ok(Annotation { type_index, num_element_value_pairs, element_value_pairs })
    }

    /// Decodes `count` consecutive annotations.
    pub fn with_capacity(buffer: &mut Buffer, count: u16) -> (r: Result<Vec<Annotation>, DecodeError>)
        ensures
            final(buffer).bytes@ == old(buffer).bytes@,
            match spec_decode_annotations(
                old(buffer).bytes@,
                old(buffer).pos as int,
                count as int,
            ) {
                Ok((annos, p1)) => r matches Ok(v) && annotations_view(v@) == annos
                    && final(buffer).pos == p1,
                Err(e) => r matches Err(err) && err == e,
            },
        decreases buffer.bytes@.len() - buffer.pos, count as int, 3int,
    {
        let ghost b = buffer.bytes@;
        let ghost p = buffer.pos as int;
        if count == 0 {
            let empty: Vec<Annotation> = Vec::new();
            proof {
                assert(annotations_view(empty@) =~= Seq::<AnnotationView>::empty());
            }
            Ok(empty)
        } else if buffer.pos > buffer.bytes.len() {
            Err(DecodeError::Truncated)
        } else {
            proof {
                lemma_annotation_progress(b, p);
            }
            let first = Annotation::from(buffer)?;
            let mut rest = Annotation::with_capacity(buffer, count - 1)?;
            let ghost rest_view = annotations_view(rest@);
            rest.insert(0, first);
            proof {
                assert(annotations_view(rest@) =~= seq![annotation_view(first)] + rest_view);
            }
            Ok(rest)
        }
    }
}

impl AnnotationElementValuePair {
    /// Decodes `count` consecutive element-value pairs.
    pub fn with_capacity(buffer: &mut Buffer, count: u16) -> (r: Result<
        Vec<AnnotationElementValuePair>,
        DecodeError,
    >)
        ensures
            final(buffer).bytes@ == old(buffer).bytes@,
            match spec_decode_annotation_pairs(
                old(buffer).bytes@,
                old(buffer).pos as int,
                count as int,
            ) {
                Ok((pairs, p1)) => r matches Ok(v) && annotation_pairs_view(v@) == pairs
                    && final(buffer).pos == p1,
                Err(e) => r matches Err(err) && err == e,
            },
        decreases buffer.bytes@.len() - buffer.pos, count as int, 3int,
    {
        let ghost b = buffer.bytes@;
        let ghost p = buffer.pos as int;
        if count == 0 {
            let empty: Vec<AnnotationElementValuePair> = Vec::new();
            proof {
                assert(annotation_pairs_view(empty@) =~= Seq::<
                    AnnotationElementValuePairView,
                >::empty());
            }
            Ok(empty)
        } else {
            let element_name_index = buffer.u2()?;
            proof {
                lemma_element_value_progress(b, p + 2);
            }
            let value = ElementValue::from(buffer)?;
            let mut rest = AnnotationElementValuePair::with_capacity(buffer, count - 1)?;
            let ghost rest_view = annotation_pairs_view(rest@);
            let pair = AnnotationElementValuePair { element_name_index, value };
            rest.insert(0, pair);
            proof {
                assert(annotation_pairs_view(rest@) =~= seq![annotation_pair_view(pair)]
                    + rest_view);
            }
            Ok(rest)
        }
    }
}

impl ElementValue {
    /// Decodes one element value: a tag byte, then the payload shape that tag
    /// selects; the shapes it does not select are left at their zero values.
    pub fn from(buffer: &mut Buffer) -> (r: Result<ElementValue, DecodeError>)
        ensures
            final(buffer).bytes@ == old(buffer).bytes@,
            match spec_decode_element_value(old(buffer).bytes@, old(buffer).pos as int) {
                Ok((ev, p1)) => r matches Ok(v) && element_value_view(v) == ev && final(buffer).pos
                    == p1,
                Err(e) => r matches Err(err) && err == e,
            },
        decreases buffer.bytes@.len() - buffer.pos, 0int, 2int,
    {
        let tag = buffer.u1()?;
        if tag == JVM_ELEMENT_VALUE_ENUM {
            let type_name_index = buffer.u2()?;
            let const_name_index = buffer.u2()?;
            Ok(
                ElementValue {
                    tag,
                    const_value_index: 0,
                    enum_const_value: EnumConstValue { type_name_index, const_name_index },
                    class_info_index: 0,
                    annotation_value: Box::new(empty_annotation()),
                    array_value: empty_element_value_array(),
                },
            )
        } else if tag == JVM_ELEMENT_VALUE_ANNOTATION {
            let annotation = Annotation::from(buffer)?;
            Ok(
                ElementValue {
                    tag,
                    const_value_index: 0,
                    enum_const_value: EnumConstValue { type_name_index: 0, const_name_index: 0 },
                    class_info_index: 0,
                    annotation_value: Box::new(annotation),
                    array_value: empty_element_value_array(),
                },
            )
        } else if tag == JVM_ELEMENT_VALUE_ARRAY {
            let num_values = buffer.u2()?;
            let values = ElementValue::with_capacity(buffer, num_values)?;
            Ok(
                ElementValue {
                    tag,
                    const_value_index: 0,
                    enum_const_value: EnumConstValue { type_name_index: 0, const_name_index: 0 },
                    class_info_index: 0,
                    annotation_value: Box::new(empty_annotation()),
                    array_value: ElementValueArray { num_values, values },
                },
            )
        } else if tag == JVM_ELEMENT_VALUE_CLASS {
            let class_info_index = buffer.u2()?;
            Ok(
                ElementValue {
                    tag,
                    const_value_index: 0,
                    enum_const_value: EnumConstValue { type_name_index: 0, const_name_index: 0 },
                    class_info_index,
                    annotation_value: Box::new(empty_annotation()),
                    array_value: empty_element_value_array(),
                },
            )
        } else {
            let const_value_index = buffer.u2()?;
            Ok(
                ElementValue {
                    tag,
                    const_value_index,
                    enum_const_value: EnumConstValue { type_name_index: 0, const_name_index: 0 },
                    class_info_index: 0,
                    annotation_value: Box::new(empty_annotation()),
                    array_value: empty_element_value_array(),
                },
            )
        }
    }

    /// Decodes `count` consecutive element values.
    pub fn with_capacity(buffer: &mut Buffer, count: u16) -> (r: Result<
        Vec<Rc<ElementValue>>,
        DecodeError,
    >)
        ensures
            final(buffer).bytes@ == old(buffer).bytes@,
            match spec_decode_element_values(
                old(buffer).bytes@,
                old(buffer).pos as int,
                count as int,
            ) {
                Ok((vals, p1)) => r matches Ok(v) && element_values_view(v@) == vals
                    && final(buffer).pos == p1,
                Err(e) => r matches Err(err) && err == e,
            },
        decreases buffer.bytes@.len() - buffer.pos, count as int, 3int,
    {
        let ghost b = buffer.bytes@;
        let ghost p = buffer.pos as int;
        if count == 0 {
            let empty: Vec<Rc<ElementValue>> = Vec::new();
            proof {
                assert(element_values_view(empty@) =~= Seq::<ElementValueView>::empty());
            }
            Ok(empty)
        } else if buffer.pos > buffer.bytes.len() {
            Err(DecodeError::Truncated)
        } else {
            proof {
                lemma_element_value_progress(b, p);
            }
            let first = ElementValue::from(buffer)?;
            let mut rest = ElementValue::with_capacity(buffer, count - 1)?;
            let ghost rest_view = element_values_view(rest@);
            let ghost first_view = element_value_view(first);
            rest.insert(0, Rc::new(first));
            proof {
                assert(element_values_view(rest@) =~= seq![first_view] + rest_view);
            }
            Ok(rest)
        }
    }
}

impl AttributeInfo {
    /// Decodes one attribute: name index and declared length, then the typed
    /// payload when the resolved name is recognized, else `length` bytes
    /// skipped verbatim. The name resolves through the pool's sanctioned
    /// helper, so a name index whose entry is not the UTF-8 variant aborts the
    /// decode with a wrong-constant-kind error.
    #[verifier::loop_isolation(false)]
    pub fn from(buffer: &mut Buffer, constant_pool: &Vec<ConstantPoolInfo>) -> (r: Result<
        AttributeInfo,
        DecodeError,
    >)
        ensures
            final(buffer).bytes@ == old(buffer).bytes@,
            match spec_decode_attribute(
                old(buffer).bytes@,
                pool_view(constant_pool@),
                old(buffer).pos as int,
            ) {
                Ok((attr, p1)) => r is Ok && attr_view(r->Ok_0) == attr && final(buffer).pos == p1,
                Err(e) => r is Err && r->Err_0 == e,
            },
        decreases buffer.bytes@.len() - buffer.pos, 0int,
    {
        let ghost b = buffer.bytes@;
        let ghost p = buffer.pos as int;
        let ghost pv = pool_view(constant_pool@);
        let attribute_name_index = buffer.u2()?;
        let attribute_length = buffer.u4()?;
        let attribute_name = resolve_utf8(constant_pool, attribute_name_index)?;
        if attribute_name == "Code".to_owned() {
            let max_stack = buffer.u2()?;
            let max_locals = buffer.u2()?;
            let code_length = buffer.u4()?;
            let code = buffer.bytes(code_length as usize)?;
            let exception_table_length = buffer.u2()?;
            let ghost q1 = p + 14 + code_length;
            let mut exception_table: Vec<ExceptionTableEntry> = Vec::new();
            let mut i: usize = 0;
            while i < exception_table_length as usize
                invariant
                    i <= exception_table_length,
                    buffer.bytes@ == b,
                    q1 + 2 + 8 * i == buffer.pos,
                    buffer.pos <= b.len(),
                    exception_table@ =~= Seq::new(
                        i as nat,
                        |j: int| spec_exception_entry(b, q1 + 2 + 8 * j),
                    ),
                decreases exception_table_length - i,
            {
                let start_pc = match buffer.u2() {
                    Ok(v) => v,
                    Err(e) => {
                        proof {
                            assert(q1 + 2 + 8 * (exception_table_length as int) > b.len());
                        }
                        return Err(e);
                    },
                };
                let end_pc = match buffer.u2() {
                    Ok(v) => v,
                    Err(e) => {
                        proof {
                            assert(q1 + 2 + 8 * (exception_table_length as int) > b.len());
                        }
                        return Err(e);
                    },
                };
                let handle_pc = match buffer.u2() {
                    Ok(v) => v,
                    Err(e) => {
                        proof {
                            assert(q1 + 2 + 8 * (exception_table_length as int) > b.len());
                        }
                        return Err(e);
                    },
                };
                let catch_type = match buffer.u2() {
                    Ok(v) => v,
                    Err(e) => {
                        proof {
                            assert(q1 + 2 + 8 * (exception_table_length as int) > b.len());
                        }
                        return Err(e);
                    },
                };
                exception_table.push(ExceptionTableEntry { start_pc, end_pc, handle_pc, catch_type });
                i = i + 1;
                proof {
                    assert(exception_table@ =~= Seq::new(
                        i as nat,
                        |j: int| spec_exception_entry(b, q1 + 2 + 8 * j),
                    ));
                }
            }
            let attributes_count = buffer.u2()?;
            proof {
                lemma_attributes_progress(b, pv, buffer.pos as int, attributes_count as int);
            }
            let attributes = AttributeInfo::with_capacity(buffer, constant_pool, attributes_count)?;
            let code_attribute = CodeAttribute {
                attribute_name_index,
                attribute_length,
                max_stack,
                max_locals,
                code_length,
                code,
                exception_table_length,
                exception_table,
                attributes_count,
                attributes,
            };
            Ok(AttributeInfo::Code(code_attribute))
        } else if attribute_name == "LineNumberTable".to_owned() {
            let line_number_table_length = buffer.u2()?;
            let mut line_number_table: Vec<LineNumberTableEntry> = Vec::new();
            let mut i: usize = 0;
            while i < line_number_table_length as usize
                invariant
                    i <= line_number_table_length,
                    buffer.bytes@ == b,
                    p + 8 + 4 * i == buffer.pos,
                    buffer.pos <= b.len(),
                    line_number_table@ =~= Seq::new(
                        i as nat,
                        |j: int| spec_line_number_entry(b, p + 8 + 4 * j),
                    ),
                decreases line_number_table_length - i,
            {
                let start_pc = match buffer.u2() {
                    Ok(v) => v,
                    Err(e) => {
                        proof {
                            assert(p + 8 + 4 * (line_number_table_length as int) > b.len());
                        }
                        return Err(e);
                    },
                };
                let line_number = match buffer.u2() {
                    Ok(v) => v,
                    Err(e) => {
                        proof {
                            assert(p + 8 + 4 * (line_number_table_length as int) > b.len());
                        }
                        return Err(e);
                    },
                };
                line_number_table.push(LineNumberTableEntry { start_pc, line_number });
                i = i + 1;
                proof {
                    assert(line_number_table@ =~= Seq::new(
                        i as nat,
                        |j: int| spec_line_number_entry(b, p + 8 + 4 * j),
                    ));
                }
            }
            Ok(
                AttributeInfo::LineNumberTable(
                    LineNumberTableAttribute {
                        attribute_name_index,
                        attribute_length,
                        line_number_table_length,
                        line_number_table,
                    },
                ),
            )
        } else if attribute_name == "LocalVariableTable".to_owned() {
            let local_variable_table_length = buffer.u2()?;
            let mut local_variable_table: Vec<LocalVariableTableEntry> = Vec::new();
            let mut i: usize = 0;
            while i < local_variable_table_length as usize
                invariant
                    i <= local_variable_table_length,
                    buffer.bytes@ == b,
                    p + 8 + 10 * i == buffer.pos,
                    buffer.pos <= b.len(),
                    local_variable_table@ =~= Seq::new(
                        i as nat,
                        |j: int| spec_local_variable_entry(b, p + 8 + 10 * j),
                    ),
                decreases local_variable_table_length - i,
            {
                let start_pc = match buffer.u2() {
                    Ok(v) => v,
                    Err(e) => {
                        proof {
                            assert(p + 8 + 10 * (local_variable_table_length as int) > b.len());
                        }
                        return Err(e);
                    },
                };
                let length = match buffer.u2() {
                    Ok(v) => v,
                    Err(e) => {
                        proof {
                            assert(p + 8 + 10 * (local_variable_table_length as int) > b.len());
                        }
                        return Err(e);
                    },
                };
                let name_index = match buffer.u2() {
                    Ok(v) => v,
                    Err(e) => {
                        proof {
                            assert(p + 8 + 10 * (local_variable_table_length as int) > b.len());
                        }
                        return Err(e);
                    },
                };
                let descriptor_index = match buffer.u2() {
                    Ok(v) => v,
                    Err(e) => {
                        proof {
                            assert(p + 8 + 10 * (local_variable_table_length as int) > b.len());
                        }
                        return Err(e);
                    },
                };
                let index = match buffer.u2() {
                    Ok(v) => v,
                    Err(e) => {
                        proof {
                            assert(p + 8 + 10 * (local_variable_table_length as int) > b.len());
                        }
                        return Err(e);
                    },
                };
                local_variable_table.push(
                    LocalVariableTableEntry {
                        start_pc,
                        length,
                        name_index,
                        descriptor_index,
                        index,
                    },
                );
                i = i + 1;
                proof {
                    assert(local_variable_table@ =~= Seq::new(
                        i as nat,
                        |j: int| spec_local_variable_entry(b, p + 8 + 10 * j),
                    ));
                }
            }
            Ok(
                AttributeInfo::LocalVariableTable(
                    LocalVariableTableAttribute {
                        attribute_name_index,
                        attribute_length,
                        local_variable_table_length,
                        local_variable_table,
                    },
                ),
            )
        } else if attribute_name == "SourceFile".to_owned() {
            let source_file_index = buffer.u2()?;
            Ok(
                AttributeInfo::SourceFile(
                    SourceFileAttribute {
                        attribute_name_index,
                        attribute_length,
                        source_file_index,
                    },
                ),
            )
        } else if attribute_name == "RuntimeVisibleAnnotations".to_owned() {
            let num_annotations = buffer.u2()?;
            let annotations = Annotation::with_capacity(buffer, num_annotations)?;
            Ok(
                AttributeInfo::RuntimeVisibleAnnotation(
                    RuntimeVisibleAnnotationAttribute {
                        attribute_name_index,
                        attribute_length,
                        num_annotations,
                        annotations,
                    },
                ),
            )
        } else {
            // The declared length is consumed and discarded, keeping the cursor
            // at the next sibling attribute.
            let _skipped = buffer.bytes(attribute_length as usize)?;
            Ok(AttributeInfo::Unknown)
        }
    }

    /// Decodes `attributes_count` consecutive attributes.
    pub fn with_capacity(
        buffer: &mut Buffer,
        constant_pool: &Vec<ConstantPoolInfo>,
        attributes_count: u16,
    ) -> (r: Result<Vec<AttributeInfo>, DecodeError>)
        ensures
            final(buffer).bytes@ == old(buffer).bytes@,
            match spec_decode_attributes(
                old(buffer).bytes@,
                pool_view(constant_pool@),
                old(buffer).pos as int,
                attributes_count as int,
            ) {
                Ok((attrs, p1)) => r is Ok && attrs_view(r->Ok_0@) == attrs && final(buffer).pos
                    == p1,
                Err(e) => r is Err && r->Err_0 == e,
            },
        decreases buffer.bytes@.len() - buffer.pos, attributes_count as int + 1,
    {
        let ghost b = buffer.bytes@;
        let ghost p = buffer.pos as int;
        let ghost pv = pool_view(constant_pool@);
        if attributes_count == 0 {
            let empty: Vec<AttributeInfo> = Vec::new();
            proof {
                assert(attrs_view(empty@) =~= Seq::<AttributeInfoView>::empty());
            }
            Ok(empty)
        } else if buffer.pos > buffer.bytes.len() {
            Err(DecodeError::Truncated)
        } else {
            proof {
                lemma_attribute_progress(b, pv, p);
            }
            let first = AttributeInfo::from(buffer, constant_pool)?;
            let mut rest = AttributeInfo::with_capacity(
                buffer,
                constant_pool,
                attributes_count - 1,
            )?;
            let ghost rest_view = attrs_view(rest@);
            rest.insert(0, first);
            proof {
                assert(attrs_view(rest@) =~= seq![attr_view(first)] + rest_view);
            }
            Ok(rest)
        }
    }
}

/// The first code attribute of a run of attributes, if any.
pub open spec fn spec_find_code(attrs: Seq<AttributeInfoView>) -> Option<CodeAttributeView>
    decreases attrs.len(),
{
    if attrs.len() == 0 {
        None
    } else {
        match attrs[0] {
            AttributeInfoView::Code(c) => Some(c),
            _ => spec_find_code(attrs.skip(1)),
        }
    }
}

/// The first line-number table of a run of attributes, if any.
pub open spec fn spec_find_line_number_table(attrs: Seq<AttributeInfoView>) -> Option<
    LineNumberTableAttributeView,
>
    decreases attrs.len(),
{
    if attrs.len() == 0 {
        None
    } else {
        match attrs[0] {
            AttributeInfoView::LineNumberTable(t) => Some(t),
            _ => spec_find_line_number_table(attrs.skip(1)),
        }
    }
}

/// The first local-variable table of a run of attributes, if any.
pub open spec fn spec_find_local_variable_table(attrs: Seq<AttributeInfoView>) -> Option<
    LocalVariableTableAttributeView,
>
    decreases attrs.len(),
{
    if attrs.len() == 0 {
        None
    } else {
        match attrs[0] {
            AttributeInfoView::LocalVariableTable(t) => Some(t),
            _ => spec_find_local_variable_table(attrs.skip(1)),
        }
    }
}

impl CodeAttribute {
    /// The first line-number table nested in this code attribute, if any.
    #[verifier::loop_isolation(false)]
    pub fn find_line_number_table_attribute(&self) -> (r: Option<&LineNumberTableAttribute>)
        ensures
            match spec_find_line_number_table(attrs_view(self.attributes@)) {
                Some(tv) => r matches Some(t) && line_number_table_view(*t) == tv,
                None => r is None,
            },
    {
        let ghost av = attrs_view(self.attributes@);
        let n = self.attributes.len();
        let mut i: usize = 0;
        proof {
            assert(av.skip(0) =~= av);
        }
        while i < n
            invariant
                i <= n,
                spec_find_line_number_table(av.skip(i as int)) == spec_find_line_number_table(av),
            decreases n - i,
        {
            match &self.attributes[i] {
                AttributeInfo::LineNumberTable(t) => {
                    proof {
                        assert(av.skip(i as int)[0] == av[i as int]);
                    }
                    return Some(t);
                },
                _ => {
                },
            }
            i = i + 1;
            proof {
                assert(av.skip(i - 1)[0] == av[i - 1]);
                assert(av.skip(i - 1).skip(1) =~= av.skip(i as int));
            }
        }
        None
    }

    /// The first local-variable table nested in this code attribute, if any.
    #[verifier::loop_isolation(false)]
    pub fn find_local_variable_table_attribute(&self) -> (r: Option<&LocalVariableTableAttribute>)
        ensures
            match spec_find_local_variable_table(attrs_view(self.attributes@)) {
                Some(tv) => r matches Some(t) && local_variable_table_view(*t) == tv,
                None => r is None,
            },
    {
        let ghost av = attrs_view(self.attributes@);
        let n = self.attributes.len();
        let mut i: usize = 0;
        proof {
            assert(av.skip(0) =~= av);
        }
        while i < n
            invariant
                i <= n,
                spec_find_local_variable_table(av.skip(i as int)) == spec_find_local_variable_table(
                    av,
                ),
            decreases n - i,
        {
            match &self.attributes[i] {
                AttributeInfo::LocalVariableTable(t) => {
                    proof {
                        assert(av.skip(i as int)[0] == av[i as int]);
                    }
                    return Some(t);
                },
                _ => {
                },
            }
            i = i + 1;
            proof {
                assert(av.skip(i - 1)[0] == av[i - 1]);
                assert(av.skip(i - 1).skip(1) =~= av.skip(i as int));
            }
        }
        None
    }
}

} // verus!
