//! Protocol buffer descriptors, as far as a configuration is made from them.
use vstd::prelude::*;
use vstd::string::*;
use vstd::utf8::*;

use crate::text;
use crate::text::{ascii_lowered, contains_text, occurs_at};

verus! {

/// A set of files.
pub struct FileDescriptorSet {
    pub file: Vec<FileDescriptor>,
}

/// A file.
pub struct FileDescriptor {
    pub package: Option<String>,
    pub enum_type: Vec<EnumDescriptor>,
    pub message_type: Vec<MessageDescriptor>,
    pub service: Vec<ServiceDescriptor>,
}

/// A message.
pub struct MessageDescriptor {
    pub name: Option<String>,
    pub enum_type: Vec<EnumDescriptor>,
    pub nested_type: Vec<MessageDescriptor>,
    pub field: Vec<FieldDescriptor>,
}

/// A field of a message. The label and the type are numbers of the protocol buffer language; the
/// named type is the one that the field refers to where it has no such number.
pub struct FieldDescriptor {
    pub name: Option<String>,
    pub label: Option<i32>,
    pub field_type: Option<i32>,
    pub named_type: Option<String>,
}

/// An enumeration.
pub struct EnumDescriptor {
    pub name: Option<String>,
    pub value: Vec<EnumValueDescriptor>,
}

/// A value of an enumeration.
pub struct EnumValueDescriptor {
    pub name: Option<String>,
}

/// A service.
pub struct ServiceDescriptor {
    pub name: Option<String>,
    pub method: Vec<MethodDescriptor>,
}

/// A method of a service.
pub struct MethodDescriptor {
    pub name: Option<String>,
    pub input_type: Option<String>,
    pub output_type: Option<String>,
}

/// An optional name, empty where it is missing.
pub open spec fn name_of(name: Option<String>) -> Seq<char> {
    match name {
        Some(s) => s@,
        None => ""@,
    }
}

/// An optional name, empty where it is missing.
pub fn name_or_empty(name: &Option<String>) -> (res: &str)
    ensures
        res@ == name_of(*name),
{
    match name {
        Some(s) => s.as_str(),
        None => "",
    }
}

/// The name of a type by its number; a number that stands for no type counts as that of doubles.
pub open spec fn type_str(number: i32) -> Seq<char> {
    if number == 2 {
        "TYPE_FLOAT"@
    } else if number == 3 {
        "TYPE_INT64"@
    } else if number == 4 {
        "TYPE_UINT64"@
    } else if number == 5 {
        "TYPE_INT32"@
    } else if number == 6 {
        "TYPE_FIXED64"@
    } else if number == 7 {
        "TYPE_FIXED32"@
    } else if number == 8 {
        "TYPE_BOOL"@
    } else if number == 9 {
        "TYPE_STRING"@
    } else if number == 10 {
        "TYPE_GROUP"@
    } else if number == 11 {
        "TYPE_MESSAGE"@
    } else if number == 12 {
        "TYPE_BYTES"@
    } else if number == 13 {
        "TYPE_UINT32"@
    } else if number == 14 {
        "TYPE_ENUM"@
    } else if number == 15 {
        "TYPE_SFIXED32"@
    } else if number == 16 {
        "TYPE_SFIXED64"@
    } else if number == 17 {
        "TYPE_SINT32"@
    } else if number == 18 {
        "TYPE_SINT64"@
    } else {
        "TYPE_DOUBLE"@
    }
}

/// The names of types are ASCII.
pub proof fn lemma_type_str_ascii(number: i32)
    ensures
        is_ascii_chars(type_str(number)),
{
    reveal_strlit("TYPE_FLOAT");
    reveal_strlit("TYPE_INT64");
    reveal_strlit("TYPE_UINT64");
    reveal_strlit("TYPE_INT32");
    reveal_strlit("TYPE_FIXED64");
    reveal_strlit("TYPE_FIXED32");
    reveal_strlit("TYPE_BOOL");
    reveal_strlit("TYPE_STRING");
    reveal_strlit("TYPE_GROUP");
    reveal_strlit("TYPE_MESSAGE");
    reveal_strlit("TYPE_BYTES");
    reveal_strlit("TYPE_UINT32");
    reveal_strlit("TYPE_ENUM");
    reveal_strlit("TYPE_SFIXED32");
    reveal_strlit("TYPE_SFIXED64");
    reveal_strlit("TYPE_SINT32");
    reveal_strlit("TYPE_SINT64");
    reveal_strlit("TYPE_DOUBLE");
}

/// Calls `Type::try_from` of `prost_types::field_descriptor_proto`, takes the default where that
/// fails, and calls `Type::as_str_name`: the name of the type with the number, that of doubles
/// where no type has it.
#[verifier::external_body]
pub(crate) fn type_str_name(number: i32) -> (res: &'static str)
    ensures
        res@ == type_str(number),
{
    prost_reflect::prost_types::field_descriptor_proto::Type::try_from(number)
        .unwrap_or_default()
        .as_str_name()
}

/// The name of a label by its number; a missing number, and one that stands for no label, count as
/// that of optional fields.
pub open spec fn label_str(number: Option<i32>) -> Seq<char> {
    if number == Some(2i32) {
        "LABEL_REQUIRED"@
    } else if number == Some(3i32) {
        "LABEL_REPEATED"@
    } else {
        "LABEL_OPTIONAL"@
    }
}

/// Calls `FieldDescriptorProto::label` of `prost_types` and, on what it gives,
/// `Label::as_str_name`: the name of the label with the number, that of optional fields where the
/// number is missing or no label has it.
#[verifier::external_body]
fn label_str_name(number: Option<i32>) -> (res: &'static str)
    ensures
        res@ == label_str(number),
{
    prost_reflect::prost_types::FieldDescriptorProto { label: number, ..Default::default() }
        .label()
        .as_str_name()
}

proof fn lemma_label_words(number: Option<i32>)
    ensures
        is_ascii_chars(label_str(number)),
        contains_text(ascii_lowered(label_str(number)), "repeated"@) == (number == Some(3i32)),
        contains_text(ascii_lowered(label_str(number)), "required"@) == (number == Some(2i32)),
{
    reveal_strlit("LABEL_REQUIRED");
    reveal_strlit("LABEL_REPEATED");
    reveal_strlit("LABEL_OPTIONAL");
    reveal_strlit("repeated");
    reveal_strlit("required");
    let low = ascii_lowered(label_str(number));
    assert(low.len() == 14);
    if number == Some(3i32) {
        assert(low.subrange(6, 14) =~= "repeated"@);
        assert(occurs_at(low, "repeated"@, 6));
        assert forall|at: int| !occurs_at(low, "required"@, at) by {
            if occurs_at(low, "required"@, at) {
                assert(low.subrange(at, at + 8)[0] == low[at]);
                assert(low.subrange(at, at + 8)[2] == low[at + 2]);
            }
        }
    } else if number == Some(2i32) {
        assert(low.subrange(6, 14) =~= "required"@);
        assert(occurs_at(low, "required"@, 6));
        assert forall|at: int| !occurs_at(low, "repeated"@, at) by {
            if occurs_at(low, "repeated"@, at) {
                assert(low.subrange(at, at + 8)[0] == low[at]);
                assert(low.subrange(at, at + 8)[2] == low[at + 2]);
            }
        }
    } else {
        assert forall|at: int| !occurs_at(low, "repeated"@, at) && !occurs_at(low, "required"@, at) by {
            if occurs_at(low, "repeated"@, at) {
                assert(low.subrange(at, at + 8)[0] == low[at]);
            }
            if occurs_at(low, "required"@, at) {
                assert(low.subrange(at, at + 8)[0] == low[at]);
            }
        }
    }
}

/// Reads off a label whether a field is a list and whether it is required.
pub fn label_flags(label: Option<i32>) -> (res: (bool, bool))
    ensures
        res.0 == (label == Some(3i32)),
        res.1 == (label == Some(2i32)),
{
    proof {
        lemma_label_words(label);
    }
    let name = text::lower(label_str_name(label));
    (text::contains(name.as_str(), "repeated"), text::contains(name.as_str(), "required"))
}

} // verus!
