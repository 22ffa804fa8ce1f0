use classfile::class_file::{Buffer, ByteCodeVisitor, ClassFile};
use classfile::constant_pool::{ConstantPoolInfo, ConstantUtf8Info};
use classfile::attributes::AttributeInfo;
use classfile::error::DecodeError;

fn push_u2(bytes: &mut Vec<u8>, v: u16) {
    bytes.push((v >> 8) as u8);
    bytes.push(v as u8);
}

fn push_u4(bytes: &mut Vec<u8>, v: u32) {
    bytes.push((v >> 24) as u8);
    bytes.push((v >> 16) as u8);
    bytes.push((v >> 8) as u8);
    bytes.push(v as u8);
}

fn utf8_entry(text: &str) -> ConstantPoolInfo {
    ConstantPoolInfo::Utf8(ConstantUtf8Info {
        length: text.len() as u16,
        bytes: text.as_bytes().to_vec(),
    })
}

/// The 24-byte minimal synthetic class file: magic, versions, pool count 1
/// (an empty pool), and zero interfaces, fields, methods and attributes.
fn minimal_class_file() -> Vec<u8> {
    let mut bytes = Vec::new();
    push_u4(&mut bytes, 0xCAFEBABE);
    push_u2(&mut bytes, 3); // minor_version
    push_u2(&mut bytes, 45); // major_version
    push_u2(&mut bytes, 1); // constant_pool_count: empty pool
    push_u2(&mut bytes, 0x0021); // access_flags
    push_u2(&mut bytes, 0); // this_class
    push_u2(&mut bytes, 0); // super_class
    push_u2(&mut bytes, 0); // interfaces_count
    push_u2(&mut bytes, 0); // fields_count
    push_u2(&mut bytes, 0); // methods_count
    push_u2(&mut bytes, 0); // attributes_count
    bytes
}

#[test]
fn buffer_reads_fixed_widths_big_endian() {
    let mut buffer = Buffer::from(vec![0x12, 0x34, 0x56, 0x78, 0x9A, 0xBC, 0xDE]);
    assert_eq!(buffer.u1(), Ok(0x12));
    assert_eq!(buffer.u2(), Ok(0x3456));
    assert_eq!(buffer.u4(), Ok(0x789ABCDE));
    assert_eq!(buffer.pos, 7);
}

#[test]
fn buffer_bytes_returns_range_verbatim() {
    let mut buffer = Buffer::from(vec![1, 2, 3, 4, 5]);
    let head = buffer.bytes(3).unwrap();
    assert_eq!(head, vec![1, 2, 3]);
    assert_eq!(buffer.pos, 3);
    assert_eq!(buffer.bytes(3), Err(DecodeError::Truncated));
    assert_eq!(buffer.pos, 3);
}

#[test]
fn buffer_truncated_reads_fail_and_hold_position() {
    let mut buffer = Buffer::from(vec![0xAB]);
    assert_eq!(buffer.u2(), Err(DecodeError::Truncated));
    assert_eq!(buffer.u4(), Err(DecodeError::Truncated));
    assert_eq!(buffer.pos, 0);
    assert_eq!(buffer.u1(), Ok(0xAB));
    assert_eq!(buffer.u1(), Err(DecodeError::Truncated));
}

#[test]
fn bytecode_visitor_reads_like_the_buffer() {
    let mut visitor = ByteCodeVisitor::from(vec![0x01, 0x00, 0x02, 0x00, 0x00, 0x00, 0x03]);
    assert_eq!(visitor.u1(), Ok(1));
    assert_eq!(visitor.u2(), Ok(2));
    assert_eq!(visitor.u4(), Ok(3));
    assert_eq!(visitor.u1(), Err(DecodeError::Truncated));
}

#[test]
fn round_trip_minimal_class_file() {
    let bytes = minimal_class_file();
    let classfile = ClassFile::new(bytes).unwrap();
    assert_eq!(classfile.magic, 0xCAFEBABE);
    assert_eq!(classfile.minor_version, 3);
    assert_eq!(classfile.major_version, 45);
    assert_eq!(classfile.constant_pool_count, 1);
    assert_eq!(classfile.constant_pool.len(), 1);
    assert!(matches!(classfile.constant_pool[0], ConstantPoolInfo::Unknown));
    assert_eq!(classfile.access_flags, 0x0021);
    assert_eq!(classfile.this_class, 0);
    assert_eq!(classfile.super_class, 0);
    assert_eq!(classfile.interfaces_count, 0);
    assert_eq!(classfile.interfaces.len(), 0);
    assert_eq!(classfile.fields_count, 0);
    assert_eq!(classfile.fields.len(), 0);
    assert_eq!(classfile.methods_count, 0);
    assert_eq!(classfile.methods.len(), 0);
    assert_eq!(classfile.attributes_count, 0);
    assert_eq!(classfile.attributes.len(), 0);
}

#[test]
fn empty_input_is_truncated() {
    assert!(matches!(ClassFile::new(Vec::new()), Err(DecodeError::Truncated)));
}

#[test]
fn cut_off_pool_is_truncated() {
    let mut bytes = Vec::new();
    push_u4(&mut bytes, 0xCAFEBABE);
    push_u2(&mut bytes, 0);
    push_u2(&mut bytes, 45);
    push_u2(&mut bytes, 2); // one real entry expected, none present
    assert!(matches!(ClassFile::new(bytes), Err(DecodeError::Truncated)));
}

#[test]
fn unknown_constant_tag_fails_fatally() {
    let mut buffer = Buffer::from(vec![99, 0, 1]);
    assert!(matches!(
        ConstantPoolInfo::from(&mut buffer),
        Err(DecodeError::UnknownConstantTag(99))
    ));
}

#[test]
fn unknown_constant_tag_aborts_the_whole_decode() {
    let mut bytes = minimal_class_file();
    bytes[9] = 2; // constant_pool_count = 2: one real entry follows
    bytes.insert(10, 99); // its tag is outside the fixed tag set
    assert!(matches!(
        ClassFile::new(bytes),
        Err(DecodeError::UnknownConstantTag(99))
    ));
}

#[test]
fn constant_pool_decodes_tagged_entries_in_order() {
    let mut bytes = Vec::new();
    bytes.push(7); // Class
    push_u2(&mut bytes, 4);
    bytes.push(3); // Integer
    push_u4(&mut bytes, 0xFFFF_FFFF);
    bytes.push(5); // Long
    push_u4(&mut bytes, 1);
    push_u4(&mut bytes, 2);
    bytes.push(1); // Utf8 "Hi"
    push_u2(&mut bytes, 2);
    bytes.push(b'H');
    bytes.push(b'i');
    let mut buffer = Buffer::from(bytes);
    let pool = ConstantPoolInfo::with_capacity(&mut buffer, 5).unwrap();
    assert_eq!(pool.len(), 5);
    assert!(matches!(pool[0], ConstantPoolInfo::Unknown));
    match &pool[1] {
        ConstantPoolInfo::Class(info) => assert_eq!(info.name_index, 4),
        _ => panic!("expected a class entry"),
    }
    match &pool[2] {
        ConstantPoolInfo::Integer(info) => assert_eq!(info.bytes, 0xFFFF_FFFF),
        _ => panic!("expected an integer entry"),
    }
    match &pool[3] {
        ConstantPoolInfo::Long(info) => {
            assert_eq!(info.high_bytes, 1);
            assert_eq!(info.low_bytes, 2);
        }
        _ => panic!("expected a long entry"),
    }
    match &pool[4] {
        ConstantPoolInfo::Utf8(info) => {
            assert_eq!(info.length, 2);
            assert_eq!(info.bytes, b"Hi".to_vec());
        }
        _ => panic!("expected a utf8 entry"),
    }
}

#[test]
fn code_attribute_with_empty_exception_table() {
    let pool = vec![ConstantPoolInfo::Unknown, utf8_entry("Code")];
    let mut bytes = Vec::new();
    push_u2(&mut bytes, 1); // attribute_name_index -> "Code"
    push_u4(&mut bytes, 12); // attribute_length: the 12 payload bytes below
    push_u2(&mut bytes, 2); // max_stack
    push_u2(&mut bytes, 3); // max_locals
    push_u4(&mut bytes, 0); // code_length
    push_u2(&mut bytes, 0); // exception_table_length
    push_u2(&mut bytes, 0); // attributes_count
    let mut buffer = Buffer::from(bytes);
    let position_before = buffer.pos;
    let attribute = AttributeInfo::from(&mut buffer, &pool).unwrap();
    match attribute {
        AttributeInfo::Code(code) => {
            assert_eq!(code.max_stack, 2);
            assert_eq!(code.max_locals, 3);
            assert_eq!(code.code.len(), 0);
            assert_eq!(code.exception_table_length, 0);
            assert_eq!(code.exception_table.len(), 0);
            assert_eq!(code.attributes.len(), 0);
            // The structural parse consumed exactly the declared
            // attribute_length bytes beyond the six-byte header.
            assert_eq!(buffer.pos, position_before + 6 + code.attribute_length as usize);
        }
        _ => panic!("expected a code attribute"),
    }
}

#[test]
fn unrecognized_attribute_is_skipped_by_declared_length() {
    let pool = vec![ConstantPoolInfo::Unknown, utf8_entry("Deprecated")];
    let mut bytes = Vec::new();
    push_u2(&mut bytes, 1); // attribute_name_index -> "Deprecated"
    push_u4(&mut bytes, 0); // declared length 0
    push_u2(&mut bytes, 0xBEEF); // the next sibling's first bytes
    let mut buffer = Buffer::from(bytes);
    let attribute = AttributeInfo::from(&mut buffer, &pool).unwrap();
    assert!(matches!(attribute, AttributeInfo::Unknown));
    // The cursor stands exactly at the start of the next sibling attribute.
    assert_eq!(buffer.pos, 6);
    assert_eq!(buffer.u2(), Ok(0xBEEF));
}

#[test]
fn unrecognized_attribute_with_payload_keeps_the_cursor_in_step() {
    let pool = vec![ConstantPoolInfo::Unknown, utf8_entry("Synthetic")];
    let mut bytes = Vec::new();
    push_u2(&mut bytes, 1);
    push_u4(&mut bytes, 3); // three payload bytes to discard
    bytes.push(0xAA);
    bytes.push(0xBB);
    bytes.push(0xCC);
    push_u2(&mut bytes, 0x1234);
    let mut buffer = Buffer::from(bytes);
    let attribute = AttributeInfo::from(&mut buffer, &pool).unwrap();
    assert!(matches!(attribute, AttributeInfo::Unknown));
    assert_eq!(buffer.pos, 9);
    assert_eq!(buffer.u2(), Ok(0x1234));
}

#[test]
fn attribute_with_a_non_utf8_name_entry_is_fatal() {
    // The name index points at a Class entry: dereferencing the wrong
    // constant-pool variant aborts the decode.
    let pool = vec![
        ConstantPoolInfo::Unknown,
        ConstantPoolInfo::Class(classfile::constant_pool::ConstantClassInfo { name_index: 1 }),
    ];
    let mut bytes = Vec::new();
    push_u2(&mut bytes, 1);
    push_u4(&mut bytes, 2);
    push_u2(&mut bytes, 0);
    let mut buffer = Buffer::from(bytes);
    assert!(matches!(
        AttributeInfo::from(&mut buffer, &pool),
        Err(DecodeError::WrongConstantKind)
    ));
}

#[test]
fn attribute_with_a_name_index_outside_the_pool_is_fatal() {
    let pool = vec![ConstantPoolInfo::Unknown];
    let mut bytes = Vec::new();
    push_u2(&mut bytes, 9);
    push_u4(&mut bytes, 0);
    let mut buffer = Buffer::from(bytes);
    assert!(matches!(
        AttributeInfo::from(&mut buffer, &pool),
        Err(DecodeError::WrongConstantKind)
    ));
}

#[test]
fn truncated_code_attribute_fails() {
    let pool = vec![ConstantPoolInfo::Unknown, utf8_entry("Code")];
    let mut bytes = Vec::new();
    push_u2(&mut bytes, 1);
    push_u4(&mut bytes, 12);
    push_u2(&mut bytes, 2); // max_stack, then nothing else
    let mut buffer = Buffer::from(bytes);
    assert!(matches!(
        AttributeInfo::from(&mut buffer, &pool),
        Err(DecodeError::Truncated)
    ));
}

#[test]
fn line_number_table_attribute_decodes_its_rows() {
    let pool = vec![ConstantPoolInfo::Unknown, utf8_entry("LineNumberTable")];
    let mut bytes = Vec::new();
    push_u2(&mut bytes, 1);
    push_u4(&mut bytes, 10); // 2 + 2 * 4
    push_u2(&mut bytes, 2); // two rows
    push_u2(&mut bytes, 0);
    push_u2(&mut bytes, 10);
    push_u2(&mut bytes, 5);
    push_u2(&mut bytes, 11);
    let mut buffer = Buffer::from(bytes);
    let attribute = AttributeInfo::from(&mut buffer, &pool).unwrap();
    match attribute {
        AttributeInfo::LineNumberTable(table) => {
            assert_eq!(table.line_number_table_length, 2);
            assert_eq!(table.line_number_table.len(), 2);
            assert_eq!(table.line_number_table[0].start_pc, 0);
            assert_eq!(table.line_number_table[0].line_number, 10);
            assert_eq!(table.line_number_table[1].start_pc, 5);
            assert_eq!(table.line_number_table[1].line_number, 11);
        }
        _ => panic!("expected a line-number table"),
    }
    assert_eq!(buffer.pos, 16);
}

#[test]
fn local_variable_table_attribute_decodes_its_rows() {
    let pool = vec![ConstantPoolInfo::Unknown, utf8_entry("LocalVariableTable")];
    let mut bytes = Vec::new();
    push_u2(&mut bytes, 1);
    push_u4(&mut bytes, 12); // 2 + 1 * 10
    push_u2(&mut bytes, 1); // one row
    push_u2(&mut bytes, 0); // start_pc
    push_u2(&mut bytes, 4); // length
    push_u2(&mut bytes, 3); // name_index
    push_u2(&mut bytes, 4); // descriptor_index
    push_u2(&mut bytes, 0); // index
    let mut buffer = Buffer::from(bytes);
    let attribute = AttributeInfo::from(&mut buffer, &pool).unwrap();
    match attribute {
        AttributeInfo::LocalVariableTable(table) => {
            assert_eq!(table.local_variable_table_length, 1);
            assert_eq!(table.local_variable_table.len(), 1);
            assert_eq!(table.local_variable_table[0].start_pc, 0);
            assert_eq!(table.local_variable_table[0].length, 4);
            assert_eq!(table.local_variable_table[0].name_index, 3);
            assert_eq!(table.local_variable_table[0].descriptor_index, 4);
            assert_eq!(table.local_variable_table[0].index, 0);
        }
        _ => panic!("expected a local-variable table"),
    }
    assert_eq!(buffer.pos, 18);
}

#[test]
fn source_file_attribute_decodes_its_index() {
    let pool = vec![ConstantPoolInfo::Unknown, utf8_entry("SourceFile")];
    let mut bytes = Vec::new();
    push_u2(&mut bytes, 1);
    push_u4(&mut bytes, 2);
    push_u2(&mut bytes, 7);
    let mut buffer = Buffer::from(bytes);
    let attribute = AttributeInfo::from(&mut buffer, &pool).unwrap();
    match attribute {
        AttributeInfo::SourceFile(source) => assert_eq!(source.source_file_index, 7),
        _ => panic!("expected a source-file attribute"),
    }
}

#[test]
fn runtime_visible_annotations_decode_their_typed_payload() {
    let pool = vec![
        ConstantPoolInfo::Unknown,
        utf8_entry("RuntimeVisibleAnnotations"),
    ];
    let mut bytes = Vec::new();
    push_u2(&mut bytes, 1); // attribute_name_index
    push_u4(&mut bytes, 36); // attribute_length: the payload below
    push_u2(&mut bytes, 1); // num_annotations
    push_u2(&mut bytes, 3); // annotation type_index
    push_u2(&mut bytes, 4); // num_element_value_pairs
    push_u2(&mut bytes, 4); // pair 1: element_name_index
    bytes.push(b's'); // tag: constant index
    push_u2(&mut bytes, 5);
    push_u2(&mut bytes, 6); // pair 2: element_name_index
    bytes.push(b'e'); // tag: enum constant
    push_u2(&mut bytes, 7);
    push_u2(&mut bytes, 8);
    push_u2(&mut bytes, 9); // pair 3: element_name_index
    bytes.push(b'@'); // tag: nested annotation
    push_u2(&mut bytes, 10); // nested type_index
    push_u2(&mut bytes, 0); // nested num_element_value_pairs
    push_u2(&mut bytes, 11); // pair 4: element_name_index
    bytes.push(b'['); // tag: array of values
    push_u2(&mut bytes, 2); // num_values
    bytes.push(b'I'); // value 1: constant index
    push_u2(&mut bytes, 12);
    bytes.push(b'c'); // value 2: class descriptor index
    push_u2(&mut bytes, 13);
    let mut buffer = Buffer::from(bytes);
    let attribute = AttributeInfo::from(&mut buffer, &pool).unwrap();
    assert_eq!(buffer.pos, 6 + 36);
    match attribute {
        AttributeInfo::RuntimeVisibleAnnotation(rva) => {
            assert_eq!(rva.num_annotations, 1);
            assert_eq!(rva.annotations.len(), 1);
            let annotation = &rva.annotations[0];
            assert_eq!(annotation.type_index, 3);
            assert_eq!(annotation.num_element_value_pairs, 4);
            assert_eq!(annotation.element_value_pairs.len(), 4);
            let constant = &annotation.element_value_pairs[0];
            assert_eq!(constant.element_name_index, 4);
            assert_eq!(constant.value.tag, b's');
            assert_eq!(constant.value.const_value_index, 5);
            let enum_value = &annotation.element_value_pairs[1];
            assert_eq!(enum_value.element_name_index, 6);
            assert_eq!(enum_value.value.tag, b'e');
            assert_eq!(enum_value.value.enum_const_value.type_name_index, 7);
            assert_eq!(enum_value.value.enum_const_value.const_name_index, 8);
            let nested = &annotation.element_value_pairs[2];
            assert_eq!(nested.element_name_index, 9);
            assert_eq!(nested.value.tag, b'@');
            assert_eq!(nested.value.annotation_value.type_index, 10);
            assert_eq!(nested.value.annotation_value.element_value_pairs.len(), 0);
            let array = &annotation.element_value_pairs[3];
            assert_eq!(array.element_name_index, 11);
            assert_eq!(array.value.tag, b'[');
            assert_eq!(array.value.array_value.num_values, 2);
            assert_eq!(array.value.array_value.values.len(), 2);
            assert_eq!(array.value.array_value.values[0].tag, b'I');
            assert_eq!(array.value.array_value.values[0].const_value_index, 12);
            assert_eq!(array.value.array_value.values[1].tag, b'c');
            assert_eq!(array.value.array_value.values[1].class_info_index, 13);
        }
        _ => panic!("expected a runtime-visible-annotations attribute"),
    }
}

#[test]
fn truncated_annotations_fail() {
    let pool = vec![
        ConstantPoolInfo::Unknown,
        utf8_entry("RuntimeVisibleAnnotations"),
    ];
    let mut bytes = Vec::new();
    push_u2(&mut bytes, 1);
    push_u4(&mut bytes, 6);
    push_u2(&mut bytes, 1); // one annotation promised
    push_u2(&mut bytes, 3); // its type index, then nothing more
    let mut buffer = Buffer::from(bytes);
    assert!(matches!(
        AttributeInfo::from(&mut buffer, &pool),
        Err(DecodeError::Truncated)
    ));
}

#[test]
fn decode_error_messages_name_each_failure() {
    assert_eq!(DecodeError::Truncated.message(), "truncated input");
    assert_eq!(DecodeError::UnknownConstantTag(99).message(), "unknown constant tag");
    assert_eq!(DecodeError::WrongConstantKind.message(), "wrong constant kind");
    assert_eq!(DecodeError::MissingCodeAttribute.message(), "missing code attribute");
    assert_eq!(DecodeError::BadDescriptor.message(), "bad method descriptor");
}
