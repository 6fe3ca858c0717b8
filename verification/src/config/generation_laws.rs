//! What holds of every configuration made from descriptors: what becomes of names, enumerations,
//! messages, fields and methods, and in which order.
use vstd::prelude::*;
use vstd::string::*;

use crate::config::descriptor::{
    name_of, type_str, EnumDescriptor, EnumValueDescriptor, FieldDescriptor, FileDescriptor,
    FileDescriptorSet, MessageDescriptor, MethodDescriptor, ServiceDescriptor,
};
use crate::config::from_proto::{
    all_files, cased, converted, duplicate_message, enums_added, fields_added, file_added, files_added,
    input_args, lemma_enums_grow, lemma_messages_grow, made_from, message_added, message_field, messages_added,
    methods_added, nothing_made, output_type, root_added, scalar, services_added, suffixed,
    value_names, DescriptorType, FieldCollision, Fields, GeneratorModel, HelperModel, LetterCase, Made, Options,
    OptionsModel, ProtoState,
};
use crate::config::types::{
    blank_config, blank_field, blank_type, type_or_blank, Config, Field, FieldModel, Type,
    TypeModel,
};
use crate::text::{ascii_lowered, last_segment, law_begins_and_contains, lowered};

verus! {

/// A string that does not begin with `type_` in lower case names its own type, unless it is the name
/// of a scalar; behind `type_` stands what names the type.
pub proof fn law_types_are_converted(name: Seq<char>, low: Seq<char>, rest: Seq<char>)
    ensures
        converted(name, "type_"@ + rest) == scalar(rest),
        !(exists|r: Seq<char>| low == #[trigger] ("type_"@ + r)) ==> converted(name, low) == scalar(name),
        scalar("double"@) == "Float"@,
        scalar("float"@) == "Float"@,
        scalar("int32"@) == "Int"@,
        scalar("int64"@) == "Int"@,
        scalar("fixed32"@) == "Int"@,
        scalar("fixed64"@) == "Int"@,
        scalar("uint32"@) == "Int"@,
        scalar("uint64"@) == "Int"@,
        scalar("bool"@) == "Boolean"@,
        scalar("string"@) == "String"@,
        scalar("bytes"@) == "String"@,
        name != "double"@ && name != "float"@ && name != "int32"@ && name != "int64"@ && name
            != "fixed32"@ && name != "fixed64"@ && name != "uint32"@ && name != "uint64"@ && name
            != "bool"@ && name != "string"@ && name != "bytes"@ ==> scalar(name) == name,
{
    lemma_words_differ();
    law_begins_and_contains("type_"@ + rest, "type_"@);
    law_begins_and_contains(low, "type_"@);
    let whole = "type_"@ + rest;
    assert(exists|r: Seq<char>| whole == #[trigger] ("type_"@ + r));
    assert(whole.skip("type_"@.len() as int) =~= rest);
}

proof fn lemma_words_differ()
    ensures
        "int32"@ != "double"@ && "int32"@ != "float"@,
        "int64"@ != "double"@ && "int64"@ != "float"@,
        "fixed32"@ != "double"@ && "fixed32"@ != "float"@,
        "fixed64"@ != "double"@ && "fixed64"@ != "float"@,
        "uint32"@ != "double"@ && "uint32"@ != "float"@,
        "uint64"@ != "double"@ && "uint64"@ != "float"@,
        scalar("bool"@) == "Boolean"@,
        scalar("string"@) == "String"@,
        scalar("bytes"@) == "String"@,
        scalar("group"@) == "group"@,
        scalar("message"@) == "message"@,
        scalar("enum"@) == "enum"@,
        scalar("sfixed32"@) == "sfixed32"@,
        scalar("sfixed64"@) == "sfixed64"@,
        scalar("sint32"@) == "sint32"@,
        scalar("sint64"@) == "sint64"@,
{
    reveal_strlit("double");
    reveal_strlit("float");
    reveal_strlit("int32");
    reveal_strlit("int64");
    reveal_strlit("fixed32");
    reveal_strlit("fixed64");
    reveal_strlit("uint32");
    reveal_strlit("uint64");
    reveal_strlit("bool");
    reveal_strlit("string");
    reveal_strlit("bytes");
    reveal_strlit("group");
    reveal_strlit("message");
    reveal_strlit("enum");
    reveal_strlit("sfixed32");
    reveal_strlit("sfixed64");
    reveal_strlit("sint32");
    reveal_strlit("sint64");
    assert("double"@[0] == 'd');
    assert("float"@[0] == 'f');
    assert("int32"@[0] == 'i');
    assert("int64"@[0] == 'i');
    assert("fixed32"@[0] == 'f');
    assert("fixed64"@[0] == 'f');
    assert("uint32"@[0] == 'u');
    assert("uint64"@[0] == 'u');
    assert("bool"@[0] == 'b');
    assert("string"@[0] == 's');
    assert("bytes"@[0] == 'b');
    assert("group"@[0] == 'g');
    assert("message"@[0] == 'm');
    assert("enum"@[0] == 'e');
    assert("sfixed32"@[0] == 's');
    assert("sfixed64"@[0] == 's');
    assert("sint32"@[0] == 's');
    assert("sint64"@[0] == 's');
    assert("float"@.len() == 5);
    assert("bool"@.len() == 4);
    assert("bytes"@.len() == 5);
    assert("fixed32"@.len() == 7);
    assert("fixed64"@.len() == 7);
    assert("string"@[1] == 't');
    assert("sint32"@[1] == 'i');
    assert("sint64"@[1] == 'i');
}

proof fn lemma_number_text(number: i32, full: Seq<char>, rest: Seq<char>)
    requires
        type_str(number) == full,
        ascii_lowered(full) == "type_"@ + rest,
    ensures
        converted(type_str(number), ascii_lowered(type_str(number))) == scalar(rest),
{
    law_types_are_converted(full, full, rest);
}

/// A number of the protocol buffer language stands for the GraphQL type of its scalar, and for its
/// own name in lower case where it is no scalar that has one. A number that stands for nothing counts
/// as that of doubles.
pub proof fn law_type_numbers(f: FieldDescriptor, helper: HelperModel, n: i32)
    requires
        f.field_type == Some(n),
    ensures
        n <= 2 || n > 18 ==> message_field(f, helper).type_of == "Float"@,
        3 <= n <= 7 || n == 13 ==> message_field(f, helper).type_of == "Int"@,
        n == 8 ==> message_field(f, helper).type_of == "Boolean"@,
        n == 9 || n == 12 ==> message_field(f, helper).type_of == "String"@,
        n == 10 ==> message_field(f, helper).type_of == "group"@,
        n == 11 ==> message_field(f, helper).type_of == "message"@,
        n == 14 ==> message_field(f, helper).type_of == "enum"@,
        n == 15 ==> message_field(f, helper).type_of == "sfixed32"@,
        n == 16 ==> message_field(f, helper).type_of == "sfixed64"@,
        n == 17 ==> message_field(f, helper).type_of == "sint32"@,
        n == 18 ==> message_field(f, helper).type_of == "sint64"@,
{
    lemma_words_differ();
    law_types_are_converted(Seq::empty(), Seq::empty(), Seq::empty());
    reveal_strlit("type_");
    if n == 2 {
        reveal_strlit("TYPE_FLOAT");
        reveal_strlit("float");
        assert(ascii_lowered("TYPE_FLOAT"@) =~= "type_"@ + "float"@);
        lemma_number_text(n, "TYPE_FLOAT"@, "float"@);
    } else if n == 3 {
        reveal_strlit("TYPE_INT64");
        reveal_strlit("int64");
        assert(ascii_lowered("TYPE_INT64"@) =~= "type_"@ + "int64"@);
        lemma_number_text(n, "TYPE_INT64"@, "int64"@);
    } else if n == 4 {
        reveal_strlit("TYPE_UINT64");
        reveal_strlit("uint64");
        assert(ascii_lowered("TYPE_UINT64"@) =~= "type_"@ + "uint64"@);
        lemma_number_text(n, "TYPE_UINT64"@, "uint64"@);
    } else if n == 5 {
        reveal_strlit("TYPE_INT32");
        reveal_strlit("int32");
        assert(ascii_lowered("TYPE_INT32"@) =~= "type_"@ + "int32"@);
        lemma_number_text(n, "TYPE_INT32"@, "int32"@);
    } else if n == 6 {
        reveal_strlit("TYPE_FIXED64");
        reveal_strlit("fixed64");
        assert(ascii_lowered("TYPE_FIXED64"@) =~= "type_"@ + "fixed64"@);
        lemma_number_text(n, "TYPE_FIXED64"@, "fixed64"@);
    } else if n == 7 {
        reveal_strlit("TYPE_FIXED32");
        reveal_strlit("fixed32");
        assert(ascii_lowered("TYPE_FIXED32"@) =~= "type_"@ + "fixed32"@);
        lemma_number_text(n, "TYPE_FIXED32"@, "fixed32"@);
    } else if n == 8 {
        reveal_strlit("TYPE_BOOL");
        reveal_strlit("bool");
        assert(ascii_lowered("TYPE_BOOL"@) =~= "type_"@ + "bool"@);
        lemma_number_text(n, "TYPE_BOOL"@, "bool"@);
    } else if n == 9 {
        reveal_strlit("TYPE_STRING");
        reveal_strlit("string");
        assert(ascii_lowered("TYPE_STRING"@) =~= "type_"@ + "string"@);
        lemma_number_text(n, "TYPE_STRING"@, "string"@);
    } else if n == 10 {
        reveal_strlit("TYPE_GROUP");
        reveal_strlit("group");
        assert(ascii_lowered("TYPE_GROUP"@) =~= "type_"@ + "group"@);
        lemma_number_text(n, "TYPE_GROUP"@, "group"@);
    } else if n == 11 {
        reveal_strlit("TYPE_MESSAGE");
        reveal_strlit("message");
        assert(ascii_lowered("TYPE_MESSAGE"@) =~= "type_"@ + "message"@);
        lemma_number_text(n, "TYPE_MESSAGE"@, "message"@);
    } else if n == 12 {
        reveal_strlit("TYPE_BYTES");
        reveal_strlit("bytes");
        assert(ascii_lowered("TYPE_BYTES"@) =~= "type_"@ + "bytes"@);
        lemma_number_text(n, "TYPE_BYTES"@, "bytes"@);
    } else if n == 13 {
        reveal_strlit("TYPE_UINT32");
        reveal_strlit("uint32");
        assert(ascii_lowered("TYPE_UINT32"@) =~= "type_"@ + "uint32"@);
        lemma_number_text(n, "TYPE_UINT32"@, "uint32"@);
    } else if n == 14 {
        reveal_strlit("TYPE_ENUM");
        reveal_strlit("enum");
        assert(ascii_lowered("TYPE_ENUM"@) =~= "type_"@ + "enum"@);
        lemma_number_text(n, "TYPE_ENUM"@, "enum"@);
    } else if n == 15 {
        reveal_strlit("TYPE_SFIXED32");
        reveal_strlit("sfixed32");
        assert(ascii_lowered("TYPE_SFIXED32"@) =~= "type_"@ + "sfixed32"@);
        lemma_number_text(n, "TYPE_SFIXED32"@, "sfixed32"@);
    } else if n == 16 {
        reveal_strlit("TYPE_SFIXED64");
        reveal_strlit("sfixed64");
        assert(ascii_lowered("TYPE_SFIXED64"@) =~= "type_"@ + "sfixed64"@);
        lemma_number_text(n, "TYPE_SFIXED64"@, "sfixed64"@);
    } else if n == 17 {
        reveal_strlit("TYPE_SINT32");
        reveal_strlit("sint32");
        assert(ascii_lowered("TYPE_SINT32"@) =~= "type_"@ + "sint32"@);
        lemma_number_text(n, "TYPE_SINT32"@, "sint32"@);
    } else if n == 18 {
        reveal_strlit("TYPE_SINT64");
        reveal_strlit("sint64");
        assert(ascii_lowered("TYPE_SINT64"@) =~= "type_"@ + "sint64"@);
        lemma_number_text(n, "TYPE_SINT64"@, "sint64"@);
    } else {
        reveal_strlit("TYPE_DOUBLE");
        reveal_strlit("double");
        assert(ascii_lowered("TYPE_DOUBLE"@) =~= "type_"@ + "double"@);
        lemma_number_text(n, "TYPE_DOUBLE"@, "double"@);
    }
}

/// What is added to a name: the separator and the package, in capitals for an enumeration and as one
/// word for anything else, where names are told apart by their package; and else nothing.
pub open spec fn ending(helper: HelperModel, ty: DescriptorType) -> Seq<char> {
    match helper.options {
        OptionsModel::AppendPkgId(separator) => separator + cased(
            helper.package,
            if ty is Enum {
                LetterCase::Upper
            } else {
                LetterCase::UpperCamel
            },
        ),
        _ => Seq::empty(),
    }
}

/// A name that may be added stands for itself with its ending, and for the method of that name in
/// camel case. Nothing else changes: not the configuration, nor what any other name stands for. Only
/// where collisions fail is a name refused, and only one that a name met before ends in.
pub proof fn law_names_stand_for_themselves(
    st: ProtoState,
    name: Seq<char>,
    other: Seq<char>,
    ty: DescriptorType,
)
    ensures
        match st.with_name(name, ty) {
            Ok(after) => {
                &&& after.config == st.config
                &&& after.helper.package == st.helper.package
                &&& after.helper.options == st.helper.options
                &&& after.helper.get(name) == Some(
                    if ty is Method {
                        cased(name, LetterCase::Camel)
                    } else {
                        name
                    } + ending(st.helper, ty),
                )
                &&& after.helper.resolve(name) == after.helper.get(name)->0
                &&& other != name ==> after.helper.get(other) == st.helper.get(other)
                &&& st.helper.options is FailIfCollide ==> forall|k: Seq<char>| #[trigger]
                    st.helper.names.contains_key(k) ==> last_segment(k) != name
            },
            Err(met) => {
                &&& met.name == name
                &&& met.state == st
                &&& st.helper.options is FailIfCollide
                &&& exists|k: Seq<char>| #[trigger]
                    st.helper.names.contains_key(k) && last_segment(k) == name
            },
        },
        st.helper.get(name) is None ==> st.helper.resolve(name) == name,
        st.helper.value(name, ty) == if ty is Method {
            cased(name, LetterCase::Camel)
        } else {
            name
        } + ending(st.helper, ty),
{
    match st.helper.options {
        OptionsModel::AppendPkgId(sep) => {
            let a = st.helper.package + "."@ + name;
            let b = st.helper.package + "."@ + other;
            if a == b {
                let n = (st.helper.package + "."@).len() as int;
                assert(a.skip(n) =~= name);
                assert(b.skip(n) =~= other);
            }
            let word = cased(name, LetterCase::Camel);
            let package = cased(st.helper.package, LetterCase::UpperCamel);
            let capitals = cased(st.helper.package, LetterCase::Upper);
            assert(word + sep + package =~= word + (sep + package));
            assert(name + sep + package =~= name + (sep + package));
            assert(name + sep + capitals =~= name + (sep + capitals));
        },
        _ => {
            assert(name + Seq::<char>::empty() =~= name);
            let word = cased(name, LetterCase::Camel);
            assert(word + Seq::<char>::empty() =~= word);
        },
    }
}

/// Where names are told apart by their package, a name of one package says nothing of the same name
/// in another; where they are not, it stands for the same in every package.
pub proof fn law_packages_tell_names_apart(
    st: ProtoState,
    name: Seq<char>,
    ty: DescriptorType,
    package: Seq<char>,
    after: ProtoState,
)
    requires
        st.with_name(name, ty) == Made::Ok(after),
    ensures
        st.helper.options is AppendPkgId && package != st.helper.package ==> after.helper.in_package(
            package,
        ).get(name) == st.helper.in_package(package).get(name),
        !(st.helper.options is AppendPkgId) ==> after.helper.in_package(package).get(name)
            == after.helper.get(name),
{
    if st.helper.options is AppendPkgId && package != st.helper.package {
        let a = st.helper.package + "."@ + name;
        let b = package + "."@ + name;
        if a == b {
            assert(a.len() == b.len());
            let n = package.len() as int;
            assert(a.take(n) =~= st.helper.package);
            assert(b.take(n) =~= package);
        }
    }
}

proof fn lemma_value_names(values: Seq<EnumValueDescriptor>)
    ensures
        forall|n: Seq<char>| #[trigger]
            value_names(values).contains(n) <==> exists|i: int|
                0 <= i < values.len() && name_of((#[trigger] values[i]).name) == n,
    decreases values.len(),
{
    if values.len() > 0 {
        let rest = values.drop_last();
        lemma_value_names(rest);
        assert forall|n: Seq<char>| #[trigger]
            value_names(values).contains(n) <==> exists|i: int|
                0 <= i < values.len() && name_of((#[trigger] values[i]).name) == n by {
            if value_names(values).contains(n) {
                if n == name_of(values.last().name) {
                    assert(name_of(values[values.len() - 1].name) == n);
                } else {
                    assert(value_names(rest).contains(n));
                    let i = choose|i: int|
                        0 <= i < rest.len() && name_of((#[trigger] rest[i]).name) == n;
                    assert(name_of(values[i].name) == n);
                }
            }
            if exists|i: int| 0 <= i < values.len() && name_of((#[trigger] values[i]).name) == n {
                let i = choose|i: int|
                    0 <= i < values.len() && name_of((#[trigger] values[i]).name) == n;
                if i < rest.len() {
                    assert(rest[i] == values[i]);
                    assert(value_names(rest).contains(n));
                } else {
                    assert(values[i] == values.last());
                }
            }
        }
    }
}

/// An enumeration becomes the type that stands for its name. Its values are variants there, besides
/// those that there were; the fields of the type stay, and so does everything else.
pub proof fn law_enum_becomes_variants(st: ProtoState, e: EnumDescriptor, after: ProtoState)
    requires
        enums_added(st, seq![e]) == Made::Ok(after),
    ensures
        ({
            let target = after.helper.resolve(name_of(e.name));
            let before = st.config.types;
            let types = after.config.types;
            &&& st.with_name(name_of(e.name), DescriptorType::Enum) == Made::Ok(
                ProtoState { config: st.config, helper: after.helper },
            )
            &&& types.contains_key(target)
            &&& types[target].variants is Some
            &&& forall|n: Seq<char>| #[trigger]
                types[target].variants->0.contains(n) <==> (exists|i: int|
                    0 <= i < e.value@.len() && name_of((#[trigger] e.value@[i]).name) == n) || (
                before.contains_key(target) && before[target].variants is Some
                    && before[target].variants->0.contains(n))
            &&& types[target].fields == if before.contains_key(target) {
                before[target].fields
            } else {
                Map::empty()
            }
            &&& types.remove(target) == before.remove(target)
            &&& after.config.query == st.config.query
            &&& after.config.mutation == st.config.mutation
        }),
{
    reveal_with_fuel(enums_added, 2);
    assert(seq![e].drop_last() =~= Seq::empty());
    let name = name_of(e.name);
    law_names_stand_for_themselves(st, name, name, DescriptorType::Enum);
    lemma_value_names(e.value@);
    let target = after.helper.resolve(name);
    assert(after.config.types.remove(target) =~= st.config.types.remove(target));
}

proof fn lemma_field_set(
    fields: Map<Seq<char>, FieldModel>,
    more: Seq<FieldDescriptor>,
    helper: HelperModel,
    i: int,
)
    requires
        0 <= i < more.len(),
        forall|j: int|
            i < j < more.len() ==> name_of((#[trigger] more[j]).name) != name_of(more[i].name),
    ensures
        fields_added(fields, more, helper).contains_key(name_of(more[i].name)),
        fields_added(fields, more, helper)[name_of(more[i].name)] == message_field(more[i], helper),
    decreases more.len(),
{
    let last = more.len() - 1;
    assert(more.last() == more[last]);
    if i < last {
        let rest = more.drop_last();
        assert forall|j: int| i < j < rest.len() implies name_of((#[trigger] rest[j]).name) != name_of(
            rest[i].name,
        ) by {
            assert(rest[j] == more[j]);
        }
        lemma_field_set(fields, rest, helper, i);
    }
}

proof fn lemma_field_kept(
    fields: Map<Seq<char>, FieldModel>,
    more: Seq<FieldDescriptor>,
    helper: HelperModel,
    n: Seq<char>,
)
    requires
        forall|i: int| 0 <= i < more.len() ==> name_of((#[trigger] more[i]).name) != n,
    ensures
        fields_added(fields, more, helper).contains_key(n) == fields.contains_key(n),
        fields.contains_key(n) ==> fields_added(fields, more, helper)[n] == fields[n],
    decreases more.len(),
{
    if more.len() > 0 {
        let rest = more.drop_last();
        assert(more.last() == more[more.len() - 1]);
        assert forall|i: int| 0 <= i < rest.len() implies name_of((#[trigger] rest[i]).name) != n by {
            assert(rest[i] == more[i]);
        }
        lemma_field_kept(fields, rest, helper, n);
    }
}

/// Each field of a message is a field of the type that stands for the message: a list exactly where
/// its label is that of repeated fields, required exactly where its label is that of required ones,
/// whether its type is a scalar or a named type. A named type is what stands for the name. Of fields
/// of one name the last counts.
pub proof fn law_message_fields_become_fields(
    st: ProtoState,
    m: MessageDescriptor,
    after: ProtoState,
    i: int,
)
    requires
        message_added(st, m) == Made::Ok(after),
        0 <= i < m.field@.len(),
        forall|j: int|
            i < j < m.field@.len() ==> name_of((#[trigger] m.field@[j]).name) != name_of(
                m.field@[i].name,
            ),
    ensures
        ({
            let f = m.field@[i];
            let target = after.helper.get(name_of(m.name))->0;
            let fields = after.config.types[target].fields;
            let field = fields[name_of(f.name)];
            &&& after.helper.get(name_of(m.name)) is Some
            &&& after.config.types.contains_key(target)
            &&& fields.contains_key(name_of(f.name))
            &&& field.list <==> f.label == Some(3i32)
            &&& field.required <==> f.label == Some(2i32)
            &&& f.field_type is None ==> field.type_of == after.helper.resolve(
                converted(name_of(f.named_type), lowered(name_of(f.named_type))),
            )
            &&& f.field_type matches Some(n) ==> {
                &&& n <= 2 || n > 18 ==> field.type_of == "Float"@
                &&& 3 <= n <= 7 || n == 13 ==> field.type_of == "Int"@
                &&& n == 8 ==> field.type_of == "Boolean"@
                &&& n == 9 || n == 12 ==> field.type_of == "String"@
                &&& n == 10 ==> field.type_of == "group"@
                &&& n == 11 ==> field.type_of == "message"@
                &&& n == 14 ==> field.type_of == "enum"@
                &&& n == 15 ==> field.type_of == "sfixed32"@
                &&& n == 16 ==> field.type_of == "sfixed64"@
                &&& n == 17 ==> field.type_of == "sint32"@
                &&& n == 18 ==> field.type_of == "sint64"@
            }
            &&& field.args.dom() == Set::<Seq<char>>::empty()
            &&& field.grpc is None
            &&& field.call is None
        }),
{
    let name = name_of(m.name);
    let f = m.field@[i];
    if let Ok(named) = st.with_name(name, DescriptorType::Message) {
        law_names_stand_for_themselves(st, name, name, DescriptorType::Message);
        lemma_enums_grow(named, m.enum_type@);
        if let Ok(with_enums) = enums_added(named, m.enum_type@) {
            lemma_messages_grow(with_enums, m.nested_type@);
            if let Ok(nested) = messages_added(with_enums, m.nested_type@) {
                assert(named.helper.names.contains_key(named.helper.key(name)));
                assert(with_enums.helper.names.contains_key(named.helper.key(name)));
                assert(nested.helper.names.contains_key(nested.helper.key(name)));
                lemma_field_set(nested.type_for(name).fields, m.field@, nested.helper, i);
                if let Some(n) = f.field_type {
                    law_type_numbers(f, nested.helper, n);
                }
                assert(message_field(f, nested.helper).args.dom() =~= Set::<Seq<char>>::empty());
            }
        }
    }
}

/// A message is added after its name, its enumerations and the messages nested in it, in this order.
/// Its fields join those of the type that stands for it; nothing else changes after that. What fails
/// on the way is how it fails.
pub proof fn law_message_comes_after_what_is_nested(st: ProtoState, m: MessageDescriptor)
    ensures
        match st.with_name(name_of(m.name), DescriptorType::Message) {
            Err(met) => message_added(st, m) == Made::Err(met),
            Ok(named) => match enums_added(named, m.enum_type@) {
                Err(met) => message_added(st, m) == Made::Err(met),
                Ok(with_enums) => match messages_added(with_enums, m.nested_type@) {
                    Err(met) => message_added(st, m) == Made::Err(met),
                    Ok(nested) => {
                        let target = nested.helper.get(name_of(m.name))->0;
                        let before = nested.config.types;
                        &&& message_added(st, m) is Ok
                        &&& message_added(st, m)->Ok_0.helper == nested.helper
                        &&& message_added(st, m)->Ok_0.config.query == nested.config.query
                        &&& message_added(st, m)->Ok_0.config.mutation == nested.config.mutation
                        &&& message_added(st, m)->Ok_0.config.types.remove(target) == before.remove(target)
                        &&& message_added(st, m)->Ok_0.config.types.contains_key(target)
                        &&& message_added(st, m)->Ok_0.config.types[target].variants
                            == if before.contains_key(target) {
                            before[target].variants
                        } else {
                            None
                        }
                        &&& forall|n: Seq<char>|
                            (forall|i: int|
                                0 <= i < m.field@.len() ==> name_of((#[trigger] m.field@[i]).name)
                                    != n) ==> (#[trigger] message_added(
                                st,
                                m,
                            )->Ok_0.config.types[target].fields.contains_key(n) == (
                            before.contains_key(target) && before[target].fields.contains_key(n))) && (
                            before.contains_key(target) && before[target].fields.contains_key(n)
                                ==> message_added(st, m)->Ok_0.config.types[target].fields[n]
                                == before[target].fields[n])
                    },
                },
            },
        },
{
    let name = name_of(m.name);
    if let Ok(named) = st.with_name(name, DescriptorType::Message) {
        if let Ok(with_enums) = enums_added(named, m.enum_type@) {
            if let Ok(nested) = messages_added(with_enums, m.nested_type@) {
                let target = nested.helper.get(name)->0;
                let after = message_added(st, m)->Ok_0;
                let before = nested.config.types;
                let fields = after.config.types[target].fields;
                assert forall|n: Seq<char>|
                    (forall|i: int|
                        0 <= i < m.field@.len() ==> name_of((#[trigger] m.field@[i]).name) != n) implies (
                #[trigger] fields.contains_key(n) == (before.contains_key(target)
                    && before[target].fields.contains_key(n))) && (before.contains_key(target)
                    && before[target].fields.contains_key(n) ==> fields[n] == before[target].fields[n]) by {
                    lemma_field_kept(nested.type_for(name).fields, m.field@, nested.helper, n);
                }
                assert(after.config.types.remove(target) =~= nested.config.types.remove(target));
            }
        }
    }
}

/// Enumerations, and messages, are added one after the other, and the first that fails ends it.
pub proof fn law_declarations_are_added_in_order(
    st: ProtoState,
    a: Seq<EnumDescriptor>,
    b: Seq<EnumDescriptor>,
    c: Seq<MessageDescriptor>,
    d: Seq<MessageDescriptor>,
    m: MessageDescriptor,
)
    ensures
        enums_added(st, Seq::empty()) == Made::Ok(st),
        enums_added(st, a + b) == match enums_added(st, a) {
            Ok(before) => enums_added(before, b),
            Err(met) => Made::Err(met),
        },
        messages_added(st, Seq::empty()) == Made::Ok(st),
        messages_added(st, seq![m]) == message_added(st, m),
        messages_added(st, c + d) == match messages_added(st, c) {
            Ok(before) => messages_added(before, d),
            Err(met) => Made::Err(met),
        },
{
    lemma_enums_in_order(st, a, b);
    lemma_messages_in_order(st, c, d);
    reveal_with_fuel(messages_added, 2);
    assert(seq![m].drop_last() =~= Seq::empty());
    assert(seq![m].last() == m);
}

proof fn lemma_enums_in_order(st: ProtoState, a: Seq<EnumDescriptor>, b: Seq<EnumDescriptor>)
    ensures
        enums_added(st, a + b) == match enums_added(st, a) {
            Ok(before) => enums_added(before, b),
            Err(met) => Made::Err(met),
        },
    decreases b.len(),
{
    if b.len() > 0 {
        assert((a + b).drop_last() =~= a + b.drop_last());
        assert((a + b).last() == b.last());
        lemma_enums_in_order(st, a, b.drop_last());
    } else {
        assert(a + b =~= a);
    }
}

proof fn lemma_messages_in_order(
    st: ProtoState,
    a: Seq<MessageDescriptor>,
    b: Seq<MessageDescriptor>,
)
    ensures
        messages_added(st, a + b) == match messages_added(st, a) {
            Ok(before) => messages_added(before, b),
            Err(met) => Made::Err(met),
        },
    decreases b.len(),
{
    if b.len() > 0 {
        assert((a + b).drop_last() =~= a + b.drop_last());
        assert((a + b).last() == b.last());
        lemma_messages_in_order(st, a, b.drop_last());
    } else {
        assert(a + b =~= a);
    }
}

/// A method of the sort that is added becomes a field under the name that stands for it, and calls
/// the method of its service in the package. It has one argument, of what stands for the type that it
/// takes, unless it takes nothing, and gives what stands for the type that it gives, or a string that
/// may be missing where it gives nothing. A method of the other sort changes nothing.
pub proof fn law_method_becomes_a_field(
    fields: Map<Seq<char>, FieldModel>,
    helper: HelperModel,
    service: Seq<char>,
    m: MethodDescriptor,
    gen: GeneratorModel,
    mutations: bool,
    st: ProtoState,
)
    requires
        st.helper == helper,
    ensures
        ({
            let name = name_of(m.name);
            let input = name_of(m.input_type);
            let output = name_of(m.output_type);
            let made = methods_added(fields, helper, service, seq![m], gen, mutations);
            if (gen.mutates)(name) != mutations {
                made == Fields::Ok((fields, helper))
            } else {
                match st.with_name(name, DescriptorType::Method) {
                    Err(_) => made is Err && made->Err_0.name == name && made->Err_0.fields == fields
                        && made->Err_0.helper == helper,
                    Ok(named) => {
                        let key = named.helper.get(name)->0;
                        let field = made->Ok_0.0[key];
                        &&& made is Ok
                        &&& made->Ok_0.1 == named.helper
                        &&& made->Ok_0.0.contains_key(key)
                        &&& made->Ok_0.0.remove(key) == fields.remove(key)
                        &&& field.list == false
                        &&& field.required <==> output != "google.protobuf.Empty"@
                        &&& field.type_of == named.helper.resolve(
                            if output == "google.protobuf.Empty"@ {
                                "String"@
                            } else {
                                output
                            },
                        )
                        &&& field.call is None
                        &&& field.grpc is Some
                        &&& field.grpc->0.method == helper.package + "."@ + service + "."@ + name
                        &&& field.grpc->0.base_url is None
                        &&& field.grpc->0.body is None
                        &&& field.grpc->0.group_by.len() == 0
                        &&& field.grpc->0.headers.len() == 0
                        &&& (input == "google.protobuf.Empty"@ || input.len() == 0)
                            ==> field.args.dom() == Set::<Seq<char>>::empty()
                        &&& !(input == "google.protobuf.Empty"@ || input.len() == 0) ==> {
                            let arg_name = cased(
                                converted(input, lowered(input)),
                                LetterCase::Camel,
                            );
                            &&& field.args.dom() == set![arg_name]
                            &&& field.args[arg_name].type_of == named.helper.resolve(input)
                            &&& field.args[arg_name].required
                            &&& !field.args[arg_name].list
                            &&& field.args[arg_name].doc is None
                            &&& field.args[arg_name].modify is None
                            &&& field.args[arg_name].default_value is None
                        }
                    },
                }
            }
        }),
{
    reveal_with_fuel(methods_added, 2);
    reveal_strlit("");
    assert(seq![m].drop_last() =~= Seq::empty());
    assert(seq![m].last() == m);
    let name = name_of(m.name);
    let input = name_of(m.input_type);
    law_names_stand_for_themselves(st, name, name, DescriptorType::Method);
    if input.len() == 0 {
        assert(input =~= ""@);
    }
    if (gen.mutates)(name) == mutations {
        if let Ok(named) = st.with_name(name, DescriptorType::Method) {
            let key = named.helper.get(name)->0;
            let made = methods_added(fields, helper, service, seq![m], gen, mutations);
            assert(made->Ok_0.0.remove(key) =~= fields.remove(key));
            let args = made->Ok_0.0[key].args;
            let arg_name = cased(converted(input, lowered(input)), LetterCase::Camel);
            if input == "google.protobuf.Empty"@ || input.len() == 0 {
                assert(args.dom() =~= Set::<Seq<char>>::empty());
            } else {
                assert(args.dom() =~= set![arg_name]);
            }
        }
    }
}

/// Methods are added one after the other, service by service, and the first that fails ends it.
pub proof fn law_methods_are_added_in_order(
    fields: Map<Seq<char>, FieldModel>,
    helper: HelperModel,
    service: Seq<char>,
    a: Seq<MethodDescriptor>,
    b: Seq<MethodDescriptor>,
    c: Seq<ServiceDescriptor>,
    d: Seq<ServiceDescriptor>,
    s: ServiceDescriptor,
    gen: GeneratorModel,
    mutations: bool,
)
    ensures
        methods_added(fields, helper, service, Seq::empty(), gen, mutations) == Fields::Ok(
            (fields, helper),
        ),
        methods_added(fields, helper, service, a + b, gen, mutations) == match methods_added(
            fields,
            helper,
            service,
            a,
            gen,
            mutations,
        ) {
            Ok((before, names)) => methods_added(before, names, service, b, gen, mutations),
            Err(met) => Fields::Err(met),
        },
        services_added(fields, helper, Seq::empty(), gen, mutations) == Fields::Ok((fields, helper)),
        services_added(fields, helper, seq![s], gen, mutations) == methods_added(
            fields,
            helper,
            name_of(s.name),
            s.method@,
            gen,
            mutations,
        ),
        services_added(fields, helper, c + d, gen, mutations) == match services_added(
            fields,
            helper,
            c,
            gen,
            mutations,
        ) {
            Ok((before, names)) => services_added(before, names, d, gen, mutations),
            Err(met) => Fields::Err(met),
        },
{
    lemma_methods_in_order(fields, helper, service, a, b, gen, mutations);
    lemma_services_in_order(fields, helper, c, d, gen, mutations);
    reveal_with_fuel(services_added, 2);
    assert(seq![s].drop_last() =~= Seq::empty());
    assert(seq![s].last() == s);
}

proof fn lemma_methods_in_order(
    fields: Map<Seq<char>, FieldModel>,
    helper: HelperModel,
    service: Seq<char>,
    a: Seq<MethodDescriptor>,
    b: Seq<MethodDescriptor>,
    gen: GeneratorModel,
    mutations: bool,
)
    ensures
        methods_added(fields, helper, service, a + b, gen, mutations) == match methods_added(
            fields,
            helper,
            service,
            a,
            gen,
            mutations,
        ) {
            Ok((before, names)) => methods_added(before, names, service, b, gen, mutations),
            Err(met) => Fields::Err(met),
        },
    decreases b.len(),
{
    if b.len() > 0 {
        assert((a + b).drop_last() =~= a + b.drop_last());
        assert((a + b).last() == b.last());
        lemma_methods_in_order(fields, helper, service, a, b.drop_last(), gen, mutations);
    } else {
        assert(a + b =~= a);
    }
}

proof fn lemma_services_in_order(
    fields: Map<Seq<char>, FieldModel>,
    helper: HelperModel,
    a: Seq<ServiceDescriptor>,
    b: Seq<ServiceDescriptor>,
    gen: GeneratorModel,
    mutations: bool,
)
    ensures
        services_added(fields, helper, a + b, gen, mutations) == match services_added(
            fields,
            helper,
            a,
            gen,
            mutations,
        ) {
            Ok((before, names)) => services_added(before, names, b, gen, mutations),
            Err(met) => Fields::Err(met),
        },
    decreases b.len(),
{
    if b.len() > 0 {
        assert((a + b).drop_last() =~= a + b.drop_last());
        assert((a + b).last() == b.last());
        lemma_services_in_order(fields, helper, a, b.drop_last(), gen, mutations);
    } else {
        assert(a + b =~= a);
    }
}

/// Queries join the fields of the type that queries start from, and mutations those of the type that
/// mutations start from. Where that type then has a field or is an enumeration, it is in the
/// configuration and named as that root; else the configuration stays. Without services nothing
/// changes.
pub proof fn law_methods_join_their_root(
    st: ProtoState,
    services: Seq<ServiceDescriptor>,
    gen: GeneratorModel,
    mutations: bool,
    key: Seq<char>,
    fields: Map<Seq<char>, FieldModel>,
    helper: HelperModel,
)
    requires
        key == if mutations {
            gen.mutation
        } else {
            gen.query
        },
        services_added(
            if st.config.types.contains_key(key) {
                st.config.types[key].fields
            } else {
                Map::empty()
            },
            st.helper,
            services,
            gen,
            mutations,
        ) == Fields::Ok((fields, helper)),
        services.len() > 0,
    ensures
        root_added(st, Seq::empty(), gen, mutations) == Made::Ok(st),
        ({
            let made = root_added(st, services, gen, mutations);
            let variants = if st.config.types.contains_key(key) {
                st.config.types[key].variants
            } else {
                None
            };
            &&& made is Ok
            &&& made->Ok_0.helper == helper
            &&& made->Ok_0.config.types.remove(key) == st.config.types.remove(key)
            &&& if (forall|n: Seq<char>| !#[trigger] fields.contains_key(n)) && variants is None {
                made->Ok_0.config == st.config
            } else {
                &&& made->Ok_0.config.types.contains_key(key)
                &&& made->Ok_0.config.types[key].fields == fields
                &&& made->Ok_0.config.types[key].variants == variants
                &&& made->Ok_0.config.query == if mutations {
                    st.config.query
                } else {
                    Some(key)
                }
                &&& made->Ok_0.config.mutation == if mutations {
                    Some(key)
                } else {
                    st.config.mutation
                }
            }
        }),
{
    let made = root_added(st, services, gen, mutations);
    assert(made->Ok_0.config.types.remove(key) =~= st.config.types.remove(key));
    if forall|n: Seq<char>| !#[trigger] fields.contains_key(n) {
        assert(fields =~= Map::empty());
    }
}

/// A file is added in its package: its enumerations, then its messages, then its queries, then its
/// mutations, and the first that fails ends it.
pub proof fn law_files_are_added_part_by_part(
    st: ProtoState,
    file: FileDescriptor,
    gen: GeneratorModel,
    start: ProtoState,
)
    requires
        start.config == st.config,
        start.helper.names == st.helper.names,
        start.helper.options == st.helper.options,
        start.helper.package == name_of(file.package),
    ensures
        file_added(st, file, gen) == match enums_added(start, file.enum_type@) {
            Err(met) => Made::Err(met),
            Ok(with_enums) => match messages_added(with_enums, file.message_type@) {
                Err(met) => Made::Err(met),
                Ok(with_messages) => match root_added(with_messages, file.service@, gen, false) {
                    Err(met) => Made::Err(met),
                    Ok(with_queries) => root_added(with_queries, file.service@, gen, true),
                },
            },
        },
{
    assert(start == ProtoState { helper: st.helper.in_package(name_of(file.package)), ..st });
}

/// Files are added one after the other to a configuration without types or roots, set by set.
pub proof fn law_files_are_added_in_order(
    a: Seq<FileDescriptor>,
    b: Seq<FileDescriptor>,
    file: FileDescriptor,
    st: ProtoState,
    sets: Seq<FileDescriptorSet>,
    more: Seq<FileDescriptorSet>,
    set: FileDescriptorSet,
    gen: GeneratorModel,
    options: OptionsModel,
)
    ensures
        made_from(Seq::empty(), gen, options) is Ok,
        made_from(Seq::empty(), gen, options)->Ok_0.config.query is None,
        made_from(Seq::empty(), gen, options)->Ok_0.config.mutation is None,
        forall|n: Seq<char>|
            !#[trigger] made_from(Seq::empty(), gen, options)->Ok_0.config.types.contains_key(n),
        forall|n: Seq<char>|
            !#[trigger] made_from(Seq::empty(), gen, options)->Ok_0.helper.names.contains_key(n),
        made_from(Seq::empty(), gen, options)->Ok_0.helper.options == options,
        files_added(st, seq![file], gen) == file_added(st, file, gen),
        made_from(a + b, gen, options) == match made_from(a, gen, options) {
            Ok(before) => files_added(before, b, gen),
            Err(met) => Made::Err(met),
        },
        all_files(seq![set]) == set.file@,
        all_files(sets + more) == all_files(sets) + all_files(more),
{
    lemma_files_in_order(nothing_made(options), a, b, gen);
    reveal_with_fuel(files_added, 2);
    assert(seq![file].drop_last() =~= Seq::empty());
    assert(seq![file].last() == file);
    lemma_all_files(sets, more);
    reveal_with_fuel(all_files, 2);
    assert(seq![set].drop_last() =~= Seq::empty());
    assert(all_files(seq![set]) =~= set.file@);
}

proof fn lemma_files_in_order(
    st: ProtoState,
    a: Seq<FileDescriptor>,
    b: Seq<FileDescriptor>,
    gen: GeneratorModel,
)
    ensures
        files_added(st, a + b, gen) == match files_added(st, a, gen) {
            Ok(before) => files_added(before, b, gen),
            Err(met) => Made::Err(met),
        },
    decreases b.len(),
{
    if b.len() > 0 {
        assert((a + b).drop_last() =~= a + b.drop_last());
        assert((a + b).last() == b.last());
        lemma_files_in_order(st, a, b.drop_last(), gen);
    } else {
        assert(a + b =~= a);
    }
}

proof fn lemma_all_files(a: Seq<FileDescriptorSet>, b: Seq<FileDescriptorSet>)
    ensures
        all_files(a + b) == all_files(a) + all_files(b),
    decreases b.len(),
{
    if b.len() > 0 {
        assert((a + b).drop_last() =~= a + b.drop_last());
        assert((a + b).last() == b.last());
        lemma_all_files(a, b.drop_last());
        assert(all_files(a + b) =~= all_files(a) + all_files(b));
    } else {
        assert(a + b =~= a);
        assert(all_files(a) + all_files(b) =~= all_files(a));
    }
}

/// A name that was met before is reported by its message.
pub proof fn law_duplicates_are_reported(name: Seq<char>)
    ensures
        duplicate_message(name) == "Duplicate keys found for: "@ + name,
{
}

/// Moving on to another package changes nothing but the package.
pub proof fn law_package_is_moved_on(helper: HelperModel, package: Seq<char>)
    ensures
        helper.in_package(package).package == package,
        helper.in_package(package).names == helper.names,
        helper.in_package(package).options == helper.options,
{
}

/// A name gets a separator and a package behind it where there is a separator, and stays as it is
/// where there is none.
pub proof fn law_suffix_goes_behind(name: Seq<char>, separator: Seq<char>, package: Seq<char>)
    ensures
        suffixed(name, Some(separator), package) == name + separator + package,
        suffixed(name, None, package) == name,
{
}

/// A method that gives an empty message gives a string that may be missing; any other gives what it
/// says, always. A method takes nothing exactly where it takes an empty message or names no type.
pub proof fn law_inputs_and_outputs(ty: Seq<char>, helper: HelperModel)
    ensures
        output_type("google.protobuf.Empty"@) == ("String"@, false),
        ty != "google.protobuf.Empty"@ ==> output_type(ty) == (ty, true),
        ty == "google.protobuf.Empty"@ || ty.len() == 0 <==> input_args(ty, helper).dom() == Set::<
            Seq<char>,
        >::empty(),
{
    reveal_strlit("");
    if ty.len() == 0 {
        assert(ty =~= ""@);
    }
    if ty == "google.protobuf.Empty"@ || ty.len() == 0 {
        assert(input_args(ty, helper).dom() =~= Set::<Seq<char>>::empty());
    } else {
        let key = cased(converted(ty, lowered(ty)), LetterCase::Camel);
        assert(input_args(ty, helper).dom().contains(key));
    }
}

/// A missing name counts as empty. A field, a type and a configuration have nothing in them by
/// default.
pub proof fn law_nothing_by_default(name: String, types: Map<Seq<char>, TypeModel>, key: Seq<char>)
    ensures
        name_of(Some(name)) == name@,
        name_of(None).len() == 0,
        blank_field().type_of.len() == 0,
        !blank_field().list,
        !blank_field().required,
        blank_field().args.dom() == Set::<Seq<char>>::empty(),
        blank_field().grpc is None,
        blank_field().call is None,
        blank_type().fields.dom() == Set::<Seq<char>>::empty(),
        blank_type().variants is None,
        blank_config().query is None,
        blank_config().mutation is None,
        blank_config().types.dom() == Set::<Seq<char>>::empty(),
        types.contains_key(key) ==> type_or_blank(types, key) == types[key],
        !types.contains_key(key) ==> type_or_blank(types, key) == blank_type(),
{
    reveal_strlit("");
    assert(blank_field().args.dom() =~= Set::<Seq<char>>::empty());
    assert(blank_type().fields.dom() =~= Set::<Seq<char>>::empty());
    assert(blank_config().types.dom() =~= Set::<Seq<char>>::empty());
}

/// Where a method fails, nothing becomes of the root: the configuration stays, and the failure is that
/// of the method.
pub proof fn law_root_fails_as_its_methods(
    st: ProtoState,
    services: Seq<ServiceDescriptor>,
    gen: GeneratorModel,
    mutations: bool,
    key: Seq<char>,
    met: FieldCollision,
)
    requires
        key == if mutations {
            gen.mutation
        } else {
            gen.query
        },
        services_added(
            if st.config.types.contains_key(key) {
                st.config.types[key].fields
            } else {
                Map::empty()
            },
            st.helper,
            services,
            gen,
            mutations,
        ) == Fields::Err(met),
    ensures
        root_added(st, services, gen, mutations) is Err,
        root_added(st, services, gen, mutations)->Err_0.name == met.name,
        root_added(st, services, gen, mutations)->Err_0.state.config == st.config,
        root_added(st, services, gen, mutations)->Err_0.state.helper == met.helper,
{
}

/// What the options, a field, a type and a configuration hold is told by their parts.
pub proof fn law_configurations_hold_their_parts(
    separator: String,
    field: Field,
    ty: Type,
    config: Config,
    key: Seq<char>,
)
    ensures
        Options::AppendPkgId(separator)@ == OptionsModel::AppendPkgId(separator@),
        Options::FailIfCollide@ == OptionsModel::FailIfCollide,
        Options::Merge@ == OptionsModel::Merge,
        field@.type_of == field.type_of@,
        field@.list == field.list,
        field@.required == field.required,
        field@.args.contains_key(key) <==> field.args@.contains_key(key),
        field.args@.contains_key(key) ==> field@.args[key] == field.args@[key]@,
        field.grpc matches Some(grpc) ==> field@.grpc == Some(grpc@),
        field.grpc is None ==> field@.grpc is None,
        field.grpc matches Some(grpc) ==> grpc@.method == grpc.method@,
        field.call matches Some(call) ==> field@.call == Some(
            Seq::new(call.steps@.len(), |i: int| call.steps@[i]@),
        ),
        field.call is None ==> field@.call is None,
        ty@.fields.contains_key(key) <==> ty.fields@.contains_key(key),
        ty.fields@.contains_key(key) ==> ty@.fields[key] == ty.fields@[key]@,
        ty.variants matches Some(names) ==> ty@.variants == Some(names@.dom()),
        ty.variants is None ==> ty@.variants is None,
        config.schema.query matches Some(name) ==> config@.query == Some(name@),
        config.schema.query is None ==> config@.query is None,
        config.schema.mutation matches Some(name) ==> config@.mutation == Some(name@),
        config.schema.mutation is None ==> config@.mutation is None,
        config@.types.contains_key(key) <==> config.types@.contains_key(key),
        config.types@.contains_key(key) ==> config@.types[key] == config.types@[key]@,
{
    if let Some(call) = field.call {
        assert(field@.call->0 =~= Seq::new(call.steps@.len(), |i: int| call.steps@[i]@));
    }
}

} // verus!
