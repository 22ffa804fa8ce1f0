//! Tag bytes and flag masks fixed by the class-file format.

use vstd::prelude::*;

verus! {

pub const JVM_TAG_CLASS: u8 = 7;

pub const JVM_TAG_FIELDREF: u8 = 9;

pub const JVM_TAG_METHODREF: u8 = 10;

pub const JVM_TAG_INTERFACE_METHODREF: u8 = 11;

pub const JVM_TAG_STRING: u8 = 8;

pub const JVM_TAG_INTEGER: u8 = 3;

pub const JVM_TAG_FLOAT: u8 = 4;

pub const JVM_TAG_LONG: u8 = 5;

pub const JVM_TAG_DOUBLE: u8 = 6;

pub const JVM_TAG_NAME_AND_TYPE: u8 = 12;

pub const JVM_TAG_UTF8: u8 = 1;

pub const JVM_TAG_METHOD_HANDLE: u8 = 15;

pub const JVM_TAG_METHOD_TYPE: u8 = 16;

pub const JVM_TAG_INVOKE_DYNAMIC: u8 = 18;

/// Annotation element-value tag: an enum constant (type name and constant name).
pub const JVM_ELEMENT_VALUE_ENUM: u8 = 0x65;

/// Annotation element-value tag: a class descriptor index.
pub const JVM_ELEMENT_VALUE_CLASS: u8 = 0x63;

/// Annotation element-value tag: a nested annotation.
pub const JVM_ELEMENT_VALUE_ANNOTATION: u8 = 0x40;

/// Annotation element-value tag: an array of element values.
pub const JVM_ELEMENT_VALUE_ARRAY: u8 = 0x5B;

/// Method access flag: the method is implemented in native code.
pub const JVM_ACC_NATIVE: u16 = 0x0100;

/// Method access flag: the method has no implementation.
pub const JVM_ACC_ABSTRACT: u16 = 0x0400;

pub const JVM_SIGNATURE_ARRAY: &'static str = "[";

pub const JVM_SIGNATURE_BYTE: &'static str = "B";

pub const JVM_SIGNATURE_CHAR: &'static str = "C";

pub const JVM_SIGNATURE_CLASS: &'static str = "L";

pub const JVM_SIGNATURE_ENDCLASS: &'static str = ";";

pub const JVM_SIGNATURE_ENUM: &'static str = "E";

pub const JVM_SIGNATURE_FLOAT: &'static str = "F";

pub const JVM_SIGNATURE_DOUBLE: &'static str = "D";

pub const JVM_SIGNATURE_FUNC: &'static str = "(";

pub const JVM_SIGNATURE_ENDFUNC: &'static str = ")";

pub const JVM_SIGNATURE_INT: &'static str = "I";

pub const JVM_SIGNATURE_LONG: &'static str = "J";

pub const JVM_SIGNATURE_SHORT: &'static str = "S";

pub const JVM_SIGNATURE_VOID: &'static str = "V";

pub const JVM_SIGNATURE_BOOLEAN: &'static str = "Z";

} // verus!
