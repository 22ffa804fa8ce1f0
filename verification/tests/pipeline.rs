use classfile::class_file::ClassFile;
use classfile::types::Class;

fn push_u2(bytes: &mut Vec<u8>, v: u16) {
    bytes.push((v >> 8) as u8);
    bytes.push(v as u8);
}

fn push_u4(bytes: &mut Vec<u8>, v: u32) {
    bytes.push((v >> 24) as u8);
    bytes.push((v >> 16) as u8);
    bytes.push((v >> 8) as u8);
    bytes.push(v as u8);
}

fn push_utf8_entry(bytes: &mut Vec<u8>, text: &str) {
    bytes.push(1);
    push_u2(bytes, text.len() as u16);
    bytes.extend_from_slice(text.as_bytes());
}

fn push_class_entry(bytes: &mut Vec<u8>, name_index: u16) {
    bytes.push(7);
    push_u2(bytes, name_index);
}

/// A hand-assembled class file: one class `Test` extending `java/lang/Object`,
/// with one field carrying an unrecognized attribute, one method `main` whose
/// code attribute carries one exception-table row and a nested line-number
/// table, and one class-level runtime-visible-annotations attribute.
fn synthetic_class_file() -> Vec<u8> {
    let mut b = Vec::new();
    push_u4(&mut b, 0xCAFEBABE);
    push_u2(&mut b, 0); // minor_version
    push_u2(&mut b, 52); // major_version
    push_u2(&mut b, 12); // constant_pool_count: entries 1..11
    push_utf8_entry(&mut b, "Test"); // 1
    push_class_entry(&mut b, 1); // 2
    push_utf8_entry(&mut b, "java/lang/Object"); // 3
    push_class_entry(&mut b, 3); // 4
    push_utf8_entry(&mut b, "main"); // 5
    push_utf8_entry(&mut b, "([Ljava/lang/String;)V"); // 6
    push_utf8_entry(&mut b, "Code"); // 7
    push_utf8_entry(&mut b, "LineNumberTable"); // 8
    push_utf8_entry(&mut b, "ConstantValue"); // 9
    push_utf8_entry(&mut b, "I"); // 10
    push_utf8_entry(&mut b, "RuntimeVisibleAnnotations"); // 11
    push_u2(&mut b, 0x0021); // access_flags
    push_u2(&mut b, 2); // this_class -> Test
    push_u2(&mut b, 4); // super_class -> java/lang/Object
    push_u2(&mut b, 0); // interfaces_count
    push_u2(&mut b, 1); // fields_count
    push_u2(&mut b, 0x0002); // field access_flags
    push_u2(&mut b, 1); // field name_index -> Test
    push_u2(&mut b, 10); // field descriptor_index -> I
    push_u2(&mut b, 1); // field attributes_count
    push_u2(&mut b, 9); // attribute name_index -> ConstantValue (unrecognized)
    push_u4(&mut b, 2); // attribute_length
    push_u2(&mut b, 5); // its two payload bytes, skipped verbatim
    push_u2(&mut b, 1); // methods_count
    push_u2(&mut b, 0x0009); // method access_flags
    push_u2(&mut b, 5); // method name_index -> main
    push_u2(&mut b, 6); // method descriptor_index
    push_u2(&mut b, 1); // method attributes_count
    push_u2(&mut b, 7); // attribute name_index -> Code
    push_u4(&mut b, 35); // attribute_length
    push_u2(&mut b, 2); // max_stack
    push_u2(&mut b, 1); // max_locals
    push_u4(&mut b, 3); // code_length
    b.extend_from_slice(&[0x10, 0x2A, 0xB1]); // code
    push_u2(&mut b, 1); // exception_table_length
    push_u2(&mut b, 0); // start_pc
    push_u2(&mut b, 1); // end_pc
    push_u2(&mut b, 2); // handler_pc
    push_u2(&mut b, 2); // catch_type -> Test
    push_u2(&mut b, 1); // nested attributes_count
    push_u2(&mut b, 8); // nested name_index -> LineNumberTable
    push_u4(&mut b, 6); // nested attribute_length
    push_u2(&mut b, 1); // line_number_table_length
    push_u2(&mut b, 0); // start_pc
    push_u2(&mut b, 7); // line_number
    push_u2(&mut b, 1); // class attributes_count
    push_u2(&mut b, 11); // attribute name_index -> RuntimeVisibleAnnotations
    push_u4(&mut b, 11); // attribute_length
    push_u2(&mut b, 1); // num_annotations
    push_u2(&mut b, 10); // annotation type_index
    push_u2(&mut b, 1); // num_element_value_pairs
    push_u2(&mut b, 5); // element_name_index
    b.push(b'Z'); // element-value tag: constant index
    push_u2(&mut b, 3); // const_value_index
    b
}

#[test]
fn the_whole_pipeline_decodes_and_resolves_a_class() {
    let bytes = synthetic_class_file();
    let total = bytes.len();
    let mut buffer = classfile::class_file::Buffer::from(bytes);
    let container = ClassFile::from(&mut buffer).unwrap();
    // The decode consumed the file exactly.
    assert_eq!(buffer.pos, total);
    assert_eq!(container.magic, 0xCAFEBABE);
    assert_eq!(container.major_version, 52);
    assert_eq!(container.constant_pool.len(), 12);
    assert_eq!(container.fields.len(), 1);
    assert!(matches!(
        container.fields[0].attributes[0],
        classfile::attributes::AttributeInfo::Unknown
    ));
    assert_eq!(container.methods.len(), 1);
    assert_eq!(container.attributes.len(), 1);
    match &container.attributes[0] {
        classfile::attributes::AttributeInfo::RuntimeVisibleAnnotation(rva) => {
            assert_eq!(rva.num_annotations, 1);
            assert_eq!(rva.annotations[0].type_index, 10);
            assert_eq!(rva.annotations[0].element_value_pairs.len(), 1);
            assert_eq!(rva.annotations[0].element_value_pairs[0].element_name_index, 5);
            assert_eq!(rva.annotations[0].element_value_pairs[0].value.tag, b'Z');
            assert_eq!(rva.annotations[0].element_value_pairs[0].value.const_value_index, 3);
        }
        _ => panic!("expected a runtime-visible-annotations attribute"),
    }

    let class = Class::from(&container).unwrap();
    assert_eq!(class.name, "Test");
    assert_eq!(class.super_class_name, "java/lang/Object");
    assert_eq!(class.interface_names.len(), 0);
    assert_eq!(class.access_flags, 0x0021);
    assert_eq!(class.constant_pool.len(), 12);
    assert_eq!(class.fields.len(), 1);
    assert_eq!(class.fields[0].name, "Test");
    assert_eq!(class.fields[0].descriptor, "I");
    assert_eq!(class.fields[0].slot, 0);
    assert_eq!(class.methods.len(), 1);
    let method = &class.methods[0];
    assert_eq!(method.name, "main");
    assert_eq!(method.descriptor, "([Ljava/lang/String;)V");
    assert_eq!(
        method.parameter_descriptors,
        vec!["[Ljava/lang/String;".to_string()]
    );
    assert_eq!(method.return_descriptor, "V");
    assert_eq!(method.max_stack, 2);
    assert_eq!(method.max_locals, 1);
    assert_eq!(method.code, vec![0x10, 0x2A, 0xB1]);
    assert_eq!(method.exceptions.len(), 1);
    assert_eq!(method.exceptions[0].start_pc, 0);
    assert_eq!(method.exceptions[0].end_pc, 1);
    assert_eq!(method.exceptions[0].handler_pc, 2);
    assert_eq!(method.exceptions[0].catch_type, "Test");
    assert_eq!(method.local_vars.len(), 0);
    assert_eq!(method.line_numbers.len(), 1);
    assert_eq!(method.line_numbers[0].start_pc, 0);
    assert_eq!(method.line_numbers[0].line_number, 7);
    assert!(!class.defined);
    assert!(!class.linked);
    assert_eq!(class.initialized, 0);
}

#[test]
fn a_byte_cut_anywhere_makes_the_decode_fail() {
    let bytes = synthetic_class_file();
    for cut in 0..bytes.len() {
        let truncated: Vec<u8> = bytes[..cut].to_vec();
        assert!(ClassFile::new(truncated).is_err());
    }
}
