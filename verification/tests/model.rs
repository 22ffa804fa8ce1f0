use classfile::attributes::{AttributeInfo, CodeAttribute, ExceptionTableEntry};
use classfile::class_file::{ClassFile, FieldInfo, MethodInfo};
use classfile::constant_pool::{
    resolve_class, resolve_name_and_type, resolve_utf8, ConstantClassInfo, ConstantDoubleInfo,
    ConstantFieldRefInfo, ConstantFloatInfo, ConstantIntegerInfo, ConstantInterfaceMethodrefInfo,
    ConstantInvokeDynamicInfo, ConstantLongInfo, ConstantMethodHandleInfo, ConstantMethodRefInfo,
    ConstantMethodTypeInfo, ConstantNameAndTypeInfo, ConstantPoolInfo, ConstantStringInfo,
    ConstantUtf8Info,
};
use classfile::error::DecodeError;
use classfile::types::{split_descriptor, Class, ClassRef, Constant, Type};

fn utf8_entry(text: &str) -> ConstantPoolInfo {
    ConstantPoolInfo::Utf8(ConstantUtf8Info {
        length: text.len() as u16,
        bytes: text.as_bytes().to_vec(),
    })
}

fn class_entry(name_index: u16) -> ConstantPoolInfo {
    ConstantPoolInfo::Class(ConstantClassInfo { name_index })
}

fn hello_pool() -> Vec<ConstantPoolInfo> {
    vec![ConstantPoolInfo::Unknown, utf8_entry("Hello"), class_entry(1)]
}

#[test]
fn resolve_utf8_yields_the_decoded_text() {
    let pool = hello_pool();
    assert_eq!(resolve_utf8(&pool, 1), Ok("Hello".to_string()));
}

#[test]
fn resolve_utf8_is_idempotent_on_a_built_pool() {
    let pool = hello_pool();
    let first = resolve_utf8(&pool, 1).unwrap();
    let second = resolve_utf8(&pool, 1).unwrap();
    assert_eq!(first, second);
    // The same holds of an index that fails: the error is identical too.
    assert_eq!(resolve_utf8(&pool, 2), resolve_utf8(&pool, 2));
}

#[test]
fn resolve_class_follows_the_name_index() {
    let pool = hello_pool();
    assert_eq!(resolve_class(&pool, 2), Ok("Hello".to_string()));
}

#[test]
fn resolution_against_the_wrong_variant_is_fatal() {
    let pool = hello_pool();
    assert_eq!(resolve_utf8(&pool, 2), Err(DecodeError::WrongConstantKind));
    assert_eq!(resolve_class(&pool, 1), Err(DecodeError::WrongConstantKind));
    assert_eq!(resolve_class(&pool, 0), Err(DecodeError::WrongConstantKind));
    assert_eq!(resolve_utf8(&pool, 9), Err(DecodeError::WrongConstantKind));
    assert_eq!(resolve_name_and_type(&pool, 1), Err(DecodeError::WrongConstantKind));
}

#[test]
fn resolve_name_and_type_yields_both_texts() {
    let pool = vec![
        ConstantPoolInfo::Unknown,
        utf8_entry("value"),
        utf8_entry("I"),
        ConstantPoolInfo::NameAndType(ConstantNameAndTypeInfo {
            name_index: 1,
            descriptor_index: 2,
        }),
    ];
    assert_eq!(
        resolve_name_and_type(&pool, 3),
        Ok(("value".to_string(), "I".to_string()))
    );
}

#[test]
fn descriptor_splits_into_parameters_and_return() {
    assert_eq!(
        split_descriptor("(II)V"),
        Ok(("II".to_string(), "V".to_string()))
    );
    assert_eq!(
        split_descriptor("()J"),
        Ok(("".to_string(), "J".to_string()))
    );
    assert_eq!(
        split_descriptor("([Ljava/lang/String;)V"),
        Ok(("[Ljava/lang/String;".to_string(), "V".to_string()))
    );
}

#[test]
fn malformed_descriptors_are_rejected() {
    assert_eq!(split_descriptor(""), Err(DecodeError::BadDescriptor));
    assert_eq!(split_descriptor("II)V"), Err(DecodeError::BadDescriptor));
    assert_eq!(split_descriptor("(IIV"), Err(DecodeError::BadDescriptor));
    assert_eq!(split_descriptor("(I)(J)V"), Err(DecodeError::BadDescriptor));
}

#[test]
fn constants_resolve_numeric_entries_by_reassembly() {
    let pool = vec![
        ConstantPoolInfo::Unknown,
        ConstantPoolInfo::Integer(ConstantIntegerInfo { bytes: 0xFFFF_FFFF }),
        ConstantPoolInfo::Long(ConstantLongInfo { high_bytes: 0, low_bytes: 5 }),
        ConstantPoolInfo::Long(ConstantLongInfo {
            high_bytes: 0xFFFF_FFFF,
            low_bytes: 0xFFFF_FFFF,
        }),
        ConstantPoolInfo::Float(ConstantFloatInfo { bytes: 0x3F80_0000 }),
        ConstantPoolInfo::Double(ConstantDoubleInfo {
            high_bytes: 0x3FF0_0000,
            low_bytes: 0,
        }),
    ];
    assert!(matches!(Constant::from(0, &pool), Ok(Constant::Unknown)));
    assert!(matches!(Constant::from(1, &pool), Ok(Constant::Integer(-1))));
    assert!(matches!(Constant::from(2, &pool), Ok(Constant::Long(5))));
    assert!(matches!(Constant::from(3, &pool), Ok(Constant::Long(-1))));
    // 1.0f and 1.0 keep their IEEE-754 bit patterns.
    assert!(matches!(Constant::from(4, &pool), Ok(Constant::Float(0x3F80_0000))));
    assert!(matches!(
        Constant::from(5, &pool),
        Ok(Constant::Double(0x3FF0_0000_0000_0000))
    ));
}

#[test]
fn constants_resolve_text_and_reference_entries() {
    let pool = vec![
        ConstantPoolInfo::Unknown,
        utf8_entry("value"),
        utf8_entry("I"),
        ConstantPoolInfo::NameAndType(ConstantNameAndTypeInfo {
            name_index: 1,
            descriptor_index: 2,
        }),
        ConstantPoolInfo::String(ConstantStringInfo { string_index: 1 }),
        class_entry(1),
        ConstantPoolInfo::FieldRef(ConstantFieldRefInfo {
            class_index: 5,
            name_and_type_index: 3,
        }),
        ConstantPoolInfo::MethodRef(ConstantMethodRefInfo {
            class_index: 5,
            name_and_type_index: 3,
        }),
        ConstantPoolInfo::MethodType(ConstantMethodTypeInfo { descriptor_index: 2 }),
    ];
    match Constant::from(1, &pool).unwrap() {
        Constant::Utf8(text) => assert_eq!(text, "value"),
        _ => panic!("expected a utf8 constant"),
    }
    match Constant::from(3, &pool).unwrap() {
        Constant::NameAndType { name, descriptor } => {
            assert_eq!(name, "value");
            assert_eq!(descriptor, "I");
        }
        _ => panic!("expected a name-and-type constant"),
    }
    match Constant::from(4, &pool).unwrap() {
        Constant::String(text) => assert_eq!(text, "value"),
        _ => panic!("expected a string constant"),
    }
    match Constant::from(5, &pool).unwrap() {
        Constant::Class(name) => assert_eq!(name, "value"),
        _ => panic!("expected a class constant"),
    }
    match Constant::from(6, &pool).unwrap() {
        Constant::FieldRef(name, descriptor) => {
            assert_eq!(name, "value");
            assert_eq!(descriptor, "I");
        }
        _ => panic!("expected a field reference"),
    }
    match Constant::from(7, &pool).unwrap() {
        Constant::MethodRef(name, descriptor) => {
            assert_eq!(name, "value");
            assert_eq!(descriptor, "I");
        }
        _ => panic!("expected a method reference"),
    }
    match Constant::from(8, &pool).unwrap() {
        Constant::MethodType(descriptor) => assert_eq!(descriptor, "I"),
        _ => panic!("expected a method type"),
    }
}

#[test]
fn unkept_constant_kinds_become_unknown() {
    let pool = vec![
        ConstantPoolInfo::Unknown,
        ConstantPoolInfo::InterfaceMethodRef(ConstantInterfaceMethodrefInfo {
            class_index: 1,
            name_and_type_index: 1,
        }),
        ConstantPoolInfo::MethodHandle(ConstantMethodHandleInfo {
            reference_kind: 5,
            reference_index: 1,
        }),
        ConstantPoolInfo::InvokeDynamic(ConstantInvokeDynamicInfo {
            bootstrap_method_attr_index: 0,
            name_and_type_index: 1,
        }),
    ];
    assert!(matches!(Constant::from(1, &pool), Ok(Constant::Unknown)));
    assert!(matches!(Constant::from(2, &pool), Ok(Constant::Unknown)));
    assert!(matches!(Constant::from(3, &pool), Ok(Constant::Unknown)));
}

#[test]
fn constant_resolution_with_a_bad_index_is_fatal() {
    let pool = vec![
        ConstantPoolInfo::Unknown,
        ConstantPoolInfo::String(ConstantStringInfo { string_index: 9 }),
    ];
    assert!(matches!(Constant::from(1, &pool), Err(DecodeError::WrongConstantKind)));
    assert!(matches!(Constant::from(7, &pool), Err(DecodeError::WrongConstantKind)));
}

fn base_pool() -> Vec<ConstantPoolInfo> {
    vec![
        ConstantPoolInfo::Unknown,
        utf8_entry("Test"),             // 1
        class_entry(1),                 // 2
        utf8_entry("java/lang/Object"), // 3
        class_entry(3),                 // 4
        utf8_entry("main"),             // 5
        utf8_entry("(II)V"),            // 6
        utf8_entry("x"),                // 7
        utf8_entry("I"),                // 8
    ]
}

fn method_with(attributes: Vec<AttributeInfo>, access_flags: u16) -> MethodInfo {
    MethodInfo {
        access_flags,
        name_index: 5,
        descriptor_index: 6,
        attribute_count: attributes.len() as u16,
        attributes,
    }
}

fn empty_code_attribute() -> CodeAttribute {
    CodeAttribute {
        attribute_name_index: 0,
        attribute_length: 12,
        max_stack: 2,
        max_locals: 1,
        code_length: 1,
        code: vec![0xB1],
        exception_table_length: 0,
        exception_table: Vec::new(),
        attributes_count: 0,
        attributes: Vec::new(),
    }
}

fn container_with_methods(methods: Vec<MethodInfo>) -> ClassFile {
    let pool = base_pool();
    ClassFile {
        magic: 0xCAFEBABE,
        minor_version: 0,
        major_version: 52,
        constant_pool_count: pool.len() as u16,
        constant_pool: pool,
        access_flags: 0x0021,
        this_class: 2,
        super_class: 4,
        interfaces_count: 1,
        interfaces: vec![4],
        fields_count: 2,
        fields: vec![
            FieldInfo {
                access_flags: 2,
                name_index: 7,
                descriptor_index: 8,
                attribute_count: 0,
                attributes: Vec::new(),
            },
            FieldInfo {
                access_flags: 2,
                name_index: 5,
                descriptor_index: 8,
                attribute_count: 0,
                attributes: Vec::new(),
            },
        ],
        methods_count: methods.len() as u16,
        methods,
        attributes_count: 0,
        attributes: Vec::new(),
    }
}

#[test]
fn class_builder_resolves_names_and_assigns_dense_slots() {
    let container = container_with_methods(vec![method_with(
        vec![AttributeInfo::Code(empty_code_attribute())],
        0x0009,
    )]);
    let class = Class::from(&container).unwrap();
    assert_eq!(class.name, "Test");
    assert_eq!(class.access_flags, 0x0021);
    assert_eq!(class.super_class_name, "java/lang/Object");
    assert_eq!(class.interface_names, vec!["java/lang/Object".to_string()]);
    assert_eq!(class.fields.len(), 2);
    assert_eq!(class.fields[0].name, "x");
    assert_eq!(class.fields[0].descriptor, "I");
    assert_eq!(class.fields[0].slot, 0);
    assert_eq!(class.fields[0].class, None);
    assert_eq!(class.fields[1].name, "main");
    assert_eq!(class.fields[1].slot, 1);
    assert_eq!(class.methods.len(), 1);
    let method = &class.methods[0];
    assert_eq!(method.name, "main");
    assert_eq!(method.descriptor, "(II)V");
    assert_eq!(method.parameter_descriptors, vec!["II".to_string()]);
    assert_eq!(method.return_descriptor, "V");
    assert_eq!(method.max_stack, 2);
    assert_eq!(method.max_locals, 1);
    assert_eq!(method.code, vec![0xB1]);
    assert_eq!(method.class, None);
    assert!(!class.defined);
    assert!(!class.linked);
    assert_eq!(class.initialized, 0);
    assert_eq!(class.super_class, ClassRef::Unresolved);
    assert_eq!(class.interfaces.len(), 0);
}

#[test]
fn missing_code_attribute_is_fatal_for_a_plain_method() {
    let container = container_with_methods(vec![method_with(Vec::new(), 0x0001)]);
    assert!(matches!(
        Class::from(&container),
        Err(DecodeError::MissingCodeAttribute)
    ));
}

#[test]
fn abstract_and_native_methods_need_no_code_attribute() {
    for flags in [0x0400u16, 0x0100u16] {
        let container = container_with_methods(vec![method_with(Vec::new(), flags)]);
        let class = Class::from(&container).unwrap();
        let method = &class.methods[0];
        assert_eq!(method.name, "main");
        assert_eq!(method.max_stack, 0);
        assert_eq!(method.max_locals, 0);
        assert_eq!(method.code.len(), 0);
        assert_eq!(method.exceptions.len(), 0);
        assert_eq!(method.local_vars.len(), 0);
        assert_eq!(method.line_numbers.len(), 0);
    }
}

#[test]
fn exception_handlers_resolve_their_catch_type() {
    let mut code = empty_code_attribute();
    code.exception_table_length = 1;
    code.exception_table = vec![ExceptionTableEntry {
        start_pc: 0,
        end_pc: 1,
        handle_pc: 2,
        catch_type: 2,
    }];
    let container =
        container_with_methods(vec![method_with(vec![AttributeInfo::Code(code)], 0x0009)]);
    let class = Class::from(&container).unwrap();
    let method = &class.methods[0];
    assert_eq!(method.exceptions.len(), 1);
    assert_eq!(method.exceptions[0].start_pc, 0);
    assert_eq!(method.exceptions[0].end_pc, 1);
    assert_eq!(method.exceptions[0].handler_pc, 2);
    assert_eq!(method.exceptions[0].catch_type, "Test");
}

#[test]
fn local_variables_resolve_their_names_and_descriptors() {
    let mut code = empty_code_attribute();
    code.attributes_count = 1;
    code.attributes = vec![AttributeInfo::LocalVariableTable(
        classfile::attributes::LocalVariableTableAttribute {
            attribute_name_index: 0,
            attribute_length: 12,
            local_variable_table_length: 1,
            local_variable_table: vec![classfile::attributes::LocalVariableTableEntry {
                start_pc: 0,
                length: 4,
                name_index: 7,
                descriptor_index: 8,
                index: 0,
            }],
        },
    )];
    let container =
        container_with_methods(vec![method_with(vec![AttributeInfo::Code(code)], 0x0009)]);
    let class = Class::from(&container).unwrap();
    let method = &class.methods[0];
    assert_eq!(method.local_vars.len(), 1);
    assert_eq!(method.local_vars[0].name, "x");
    assert_eq!(method.local_vars[0].descriptor, "I");
    assert_eq!(method.local_vars[0].start_pc, 0);
    assert_eq!(method.local_vars[0].length, 4);
    assert_eq!(method.local_vars[0].index, 0);
    assert_eq!(method.local_vars[0].method, None);
}

#[test]
fn a_local_variable_with_a_bad_name_index_is_fatal() {
    let mut code = empty_code_attribute();
    code.attributes_count = 1;
    code.attributes = vec![AttributeInfo::LocalVariableTable(
        classfile::attributes::LocalVariableTableAttribute {
            attribute_name_index: 0,
            attribute_length: 12,
            local_variable_table_length: 1,
            local_variable_table: vec![classfile::attributes::LocalVariableTableEntry {
                start_pc: 0,
                length: 4,
                name_index: 2, // a class entry, not text
                descriptor_index: 8,
                index: 0,
            }],
        },
    )];
    let container =
        container_with_methods(vec![method_with(vec![AttributeInfo::Code(code)], 0x0009)]);
    assert!(matches!(
        Class::from(&container),
        Err(DecodeError::WrongConstantKind)
    ));
}

#[test]
fn catch_type_outside_the_class_variant_is_fatal() {
    let mut code = empty_code_attribute();
    code.exception_table_length = 1;
    code.exception_table = vec![ExceptionTableEntry {
        start_pc: 0,
        end_pc: 1,
        handle_pc: 2,
        catch_type: 0,
    }];
    let container =
        container_with_methods(vec![method_with(vec![AttributeInfo::Code(code)], 0x0009)]);
    assert!(matches!(
        Class::from(&container),
        Err(DecodeError::WrongConstantKind)
    ));
}

#[test]
fn bad_method_descriptor_is_fatal() {
    let mut container = container_with_methods(vec![method_with(
        vec![AttributeInfo::Code(empty_code_attribute())],
        0x0009,
    )]);
    container.constant_pool[6] = utf8_entry("II V");
    assert!(matches!(
        Class::from(&container),
        Err(DecodeError::BadDescriptor)
    ));
}

#[test]
fn the_lifecycle_moves_only_forward() {
    let container = container_with_methods(Vec::new());
    let mut class = Class::from(&container).unwrap();
    assert!(!class.defined);
    class.set_defined();
    assert!(class.defined);
    assert!(!class.linked);
    class.set_linked();
    assert!(class.defined);
    assert!(class.linked);
    assert_eq!(class.initialized, 0);
    class.add_initialization();
    assert_eq!(class.initialized, 1);
}

#[test]
fn type_names_and_descriptors_use_the_signature_codes() {
    assert_eq!(Type::Byte.name(), "B");
    assert_eq!(Type::Short.name(), "S");
    assert_eq!(Type::Char.name(), "C");
    assert_eq!(Type::Int.name(), "I");
    assert_eq!(Type::Long.name(), "J");
    assert_eq!(Type::Float.name(), "F");
    assert_eq!(Type::Double.name(), "D");
    assert_eq!(Type::Boolean.name(), "Z");
    assert_eq!(Type::Int.descriptor(), "I");
    let container = container_with_methods(Vec::new());
    let class = Class::from(&container).unwrap();
    assert_eq!(class.name(), "Test");
    assert_eq!(class.descriptor(), "LTest;");
    let class_type = Type::Class(class);
    assert_eq!(class_type.name(), "Test");
    assert_eq!(class_type.descriptor(), "LTest;");
}
