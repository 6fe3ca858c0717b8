//! A configuration made from protocol buffer descriptors.
use convert_case::{Case, Casing};
use vstd::prelude::*;
use vstd::string::*;
use vstd::utf8::*;

use crate::config::descriptor;
use crate::config::descriptor::{
    name_of, type_str, MessageDescriptor, EnumDescriptor, EnumValueDescriptor,
    FieldDescriptor, FileDescriptor, FileDescriptorSet, MethodDescriptor,
    ServiceDescriptor,
};
use crate::config::types::{
    blank_config, blank_field, blank_type, type_or_blank, Arg, ArgModel, Config, ConfigModel, Field,
    FieldModel, Grpc, GrpcModel, Type, TypeModel,
};
use crate::string_map::StringMap;
use crate::text;
use crate::text::{ascii_lowered, begins_with, last_segment, lowered};

verus! {

/// What to do about names that occur more than once.
#[derive(Debug, PartialEq, Eq)]
pub enum Options {
    /// Tell the names apart by adding the separator and the package.
    AppendPkgId(String),
    /// Fail.
    FailIfCollide,
    /// Let what has the same name become one.
    Merge,
}

/// What an [`Options`] holds.
pub enum OptionsModel {
    AppendPkgId(Seq<char>),
    FailIfCollide,
    Merge,
}

impl View for Options {
    type V = OptionsModel;

    open spec fn view(&self) -> OptionsModel {
        match self {
            Options::AppendPkgId(separator) => OptionsModel::AppendPkgId(separator@),
            Options::FailIfCollide => OptionsModel::FailIfCollide,
            Options::Merge => OptionsModel::Merge,
        }
    }
}

/// What a name stands for.
#[derive(Clone, Copy, Debug, PartialEq, Eq)]
pub enum DescriptorType {
    Enum,
    Message,
    Method,
}

/// How the words of a name are put together.
#[derive(Clone, Copy, Debug, PartialEq, Eq)]
pub enum LetterCase {
    /// `TWO WORDS`
    Upper,
    /// `TwoWords`
    UpperCamel,
    /// `twoWords`
    Camel,
}

/// The result of `to_case` of `convert_case`.
pub uninterp spec fn cased(s: Seq<char>, case: LetterCase) -> Seq<char>;

/// Calls `Casing::to_case` of `convert_case`, whose result depends on the string and the case
/// alone.
#[verifier::external_body]
fn to_case(s: &str, case: LetterCase) -> (res: String)
    ensures
        res@ == cased(s@, case),
{
    match case {
        LetterCase::Upper => s.to_case(Case::Upper),
        LetterCase::UpperCamel => s.to_case(Case::UpperCamel),
        LetterCase::Camel => s.to_case(Case::Camel),
    }
}

/// The names that have been met, each under its key.
pub struct Helper {
    map: StringMap<String>,
    package: String,
    options: Options,
}

/// What a [`Helper`] holds.
pub struct HelperModel {
    pub names: Map<Seq<char>, Seq<char>>,
    pub package: Seq<char>,
    pub options: OptionsModel,
}

impl View for Helper {
    type V = HelperModel;

    closed spec fn view(&self) -> HelperModel {
        HelperModel {
            names: self.map@.map_values(|s: String| s@),
            package: self.package@,
            options: self.options@,
        }
    }
}

/// The name that stands in the configuration, put together from the name in its case, and the
/// separator and package in its case where packages are added.
pub open spec fn suffixed(name: Seq<char>, separator: Option<Seq<char>>, package: Seq<char>) -> Seq<char> {
    match separator {
        Some(sep) => name + sep + package,
        None => name,
    }
}

/// Puts a name together with the separator and package, where packages are added.
pub fn with_suffix(name: &str, separator: Option<&str>, package: &str) -> (res: String)
    ensures
        res@ == suffixed(
            name@,
            match separator {
                Some(sep) => Some(sep@),
                None => None,
            },
            package@,
        ),
{
    let mut res = name.to_string();
    if let Some(sep) = separator {
        res.append(sep);
        res.append(package);
    }
    res
}

/// Why no configuration was made.
#[derive(Debug, PartialEq, Eq)]
pub enum FromProtoError {
    /// The name was met before.
    DuplicateKeys(String),
}

/// The message for a name that was met before.
pub open spec fn duplicate_message(name: Seq<char>) -> Seq<char> {
    "Duplicate keys found for: "@ + name
}

impl FromProtoError {
    /// The message of the error.
    pub fn message(&self) -> (res: String)
        ensures
            res@ == duplicate_message(self->DuplicateKeys_0@),
    {
        match self {
            FromProtoError::DuplicateKeys(name) => {
                let mut res = "Duplicate keys found for: ".to_string();
                res.append(name.as_str());
                res
            },
        }
    }
}

impl HelperModel {
    /// The key that a name is kept under.
    pub open spec fn key(self, name: Seq<char>) -> Seq<char> {
        match self.options {
            OptionsModel::AppendPkgId(_) => self.package + "."@ + name,
            _ => name,
        }
    }

    /// The name that stands in the configuration for a name of the given kind.
    pub open spec fn value(self, name: Seq<char>, ty: DescriptorType) -> Seq<char> {
        let separator = match self.options {
            OptionsModel::AppendPkgId(sep) => Some(sep),
            _ => None,
        };
        match ty {
            DescriptorType::Enum => suffixed(name, separator, cased(self.package, LetterCase::Upper)),
            DescriptorType::Message => suffixed(
                name,
                separator,
                cased(self.package, LetterCase::UpperCamel),
            ),
            DescriptorType::Method => suffixed(
                cased(name, LetterCase::Camel),
                separator,
                cased(self.package, LetterCase::UpperCamel),
            ),
        }
    }

    /// What is kept under the key of a name.
    pub open spec fn get(self, name: Seq<char>) -> Option<Seq<char>> {
        if self.names.contains_key(self.key(name)) {
            Some(self.names[self.key(name)])
        } else {
            None
        }
    }

    /// What stands in the configuration for a name: the name itself where it has not been met.
    pub open spec fn resolve(self, name: Seq<char>) -> Seq<char> {
        match self.get(name) {
            Some(s) => s,
            None => name,
        }
    }

    /// Whether one of the keys ends in the segment `name`.
    pub open spec fn met(self, name: Seq<char>) -> bool {
        exists|k: Seq<char>| #[trigger] self.names.contains_key(k) && last_segment(k) == name
    }

    /// Whether the name must not be added.
    pub open spec fn collides(self, name: Seq<char>) -> bool {
        self.options is FailIfCollide && self.met(name)
    }

    /// The names with one more.
    pub open spec fn with_name(self, name: Seq<char>, ty: DescriptorType) -> HelperModel {
        HelperModel {
            names: self.names.insert(self.key(name), self.value(name, ty)),
            ..self
        }
    }

    /// The same names in another package.
    pub open spec fn in_package(self, package: Seq<char>) -> HelperModel {
        HelperModel { package, ..self }
    }
}

impl Helper {
    /// No names, in no package.
    pub fn with_options(options: Options) -> (res: Helper)
        ensures
            res@ == (HelperModel {
                names: Map::empty(),
                package: ""@,
                options: options@,
            }),
    {
        let res = Helper { map: StringMap::new(), package: "".to_string(), options };
        proof {
            assert(res@.names =~= Map::empty());
        }
        res
    }

    /// Moves on to another package.
    pub fn set_package(&mut self, package: &str)
        ensures
            final(self)@ == old(self)@.in_package(package@),
    {
        self.package = package.to_string();
    }

    /// The package.
    pub fn package(&self) -> (res: &str)
        ensures
            res@ == self@.package,
    {
        self.package.as_str()
    }

    /// Whether the name has been met.
    pub fn contains(&self, name: &str) -> (res: bool)
        ensures
            res == (self@.get(name@) is Some),
    {
        self.get(name).is_some()
    }

    fn key(&self, name: &str) -> (res: String)
        ensures
            res@ == self@.key(name@),
    {
        match &self.options {
            Options::AppendPkgId(_) => {
                let mut key = self.package.clone();
                key.append(".");
                key.append(name);
                key
            },
            _ => name.to_string(),
        }
    }

    /// The name that stands in the configuration for a name of the given kind.
    pub fn get_value(&self, name: &str, ty: DescriptorType) -> (res: String)
        ensures
            res@ == self@.value(name@, ty),
    {
        let separator = match &self.options {
            Options::AppendPkgId(separator) => Some(separator.as_str()),
            _ => None,
        };
        match ty {
            DescriptorType::Enum => {
                let package = to_case(self.package.as_str(), LetterCase::Upper);
                with_suffix(name, separator, package.as_str())
            },
            DescriptorType::Message => {
                let package = to_case(self.package.as_str(), LetterCase::UpperCamel);
                with_suffix(name, separator, package.as_str())
            },
            DescriptorType::Method => {
                let method = to_case(name, LetterCase::Camel);
                let package = to_case(self.package.as_str(), LetterCase::UpperCamel);
                with_suffix(method.as_str(), separator, package.as_str())
            },
        }
    }

    /// What is kept under the key of a name.
    pub fn get(&self, name: &str) -> (res: Option<String>)
        ensures
            match res {
                Some(s) => self@.get(name@) == Some(s@),
                None => self@.get(name@) is None,
            },
    {
        match self.map.get(self.key(name).as_str()) {
            Some(s) => Some(s.clone()),
            None => None,
        }
    }

    /// What stands in the configuration for a name: the name itself where it has not been met.
    fn get_or(&self, name: &str) -> (res: String)
        ensures
            res@ == self@.resolve(name@),
    {
        match self.get(name) {
            Some(s) => s,
            None => name.to_string(),
        }
    }

    /// Whether one of the keys ends in the segment `name`.
    fn met(&self, name: &str) -> (res: bool)
        ensures
            res == self@.met(name@),
    {
        let n: usize = self.map.len();
        for i in 0..n
            invariant
                n == self.map.pairs().len(),
                forall|i: int|
                    0 <= i < self.map.pairs().len() ==> self.map@.contains_key(
                        (#[trigger] self.map.pairs()[i]).0@,
                    ),
                forall|k: int|
                    0 <= k < i ==> last_segment((#[trigger] self.map.pairs()[k]).0@) != name@,
        {
            let segment = text::final_segment(self.map.key_at(i).as_str());
            if text::same(segment.as_str(), name) {
                proof {
                    assert(self@.names.contains_key(self.map.pairs()[i as int].0@));
                }
                return true;
            }
        }
        proof {
            assert forall|k: Seq<char>| #[trigger] self@.names.contains_key(k) implies last_segment(k)
                != name@ by {
                assert(self.map@.contains_key(k));
                let i = choose|i: int|
                    0 <= i < self.map.pairs().len() && (#[trigger] self.map.pairs()[i]).0@ == k;
                assert(last_segment(self.map.pairs()[i].0@) != name@);
            }
        }
        false
    }

    /// Adds a name. Where collisions fail, a name that one of the keys ends in is refused.
    pub fn insert(&mut self, name: &str, ty: DescriptorType) -> (res: Result<(), FromProtoError>)
        ensures
            match res {
                Ok(_) => !old(self)@.collides(name@) && final(self)@ == old(self)@.with_name(name@, ty),
                Err(FromProtoError::DuplicateKeys(s)) => old(self)@.collides(name@) && s@ == name@
                    && final(self)@ == old(self)@,
            },
    {
        if let Options::FailIfCollide = &self.options {
            if self.met(name) {
                return Err(FromProtoError::DuplicateKeys(name.to_string()));
            }
        }
        let key = self.key(name);
        let value = self.get_value(name, ty);
        let ghost before = self@;
        let ghost k = key@;
        let ghost v = value@;
        self.map.insert(key, value);
        proof {
            assert(self@.names =~= before.names.insert(k, v));
        }
        Ok(())
    }
}

/// The type that a scalar of the protocol buffer language becomes; any other name as it is.
pub open spec fn scalar(t: Seq<char>) -> Seq<char> {
    if t == "double"@ || t == "float"@ {
        "Float"@
    } else if t == "int32"@ || t == "int64"@ || t == "fixed32"@ || t == "fixed64"@ || t == "uint32"@ || t
        == "uint64"@ {
        "Int"@
    } else if t == "bool"@ {
        "Boolean"@
    } else if t == "string"@ || t == "bytes"@ {
        "String"@
    } else {
        t
    }
}

/// The type for `proto_ty`, whose lower-case form is `lowered`: what follows `type_` there, and
/// `proto_ty` itself where the lower-case form does not begin so, with scalars replaced.
pub open spec fn converted(proto_ty: Seq<char>, lowered: Seq<char>) -> Seq<char> {
    scalar(
        if begins_with(lowered, "type_"@) {
            lowered.skip("type_"@.len() as int)
        } else {
            proto_ty
        },
    )
}

/// Replaces a scalar.
fn scalar_name(t: &str) -> (res: String)
    ensures
        res@ == scalar(t@),
{
    if text::same(t, "double") || text::same(t, "float") {
        "Float".to_string()
    } else if text::same(t, "int32") || text::same(t, "int64") || text::same(t, "fixed32")
        || text::same(t, "fixed64") || text::same(t, "uint32") || text::same(t, "uint64") {
        "Int".to_string()
    } else if text::same(t, "bool") {
        "Boolean".to_string()
    } else if text::same(t, "string") || text::same(t, "bytes") {
        "String".to_string()
    } else {
        t.to_string()
    }
}

/// The type for a name of the protocol buffer language, given the lower-case form of the name.
pub fn convert_lowered(proto_ty: &str, lowered: &str) -> (res: String)
    ensures
        res@ == converted(proto_ty@, lowered@),
{
    match text::strip_prefix(lowered, "type_") {
        Some(rest) => scalar_name(rest.as_str()),
        None => scalar_name(proto_ty),
    }
}

/// The type for a name of the protocol buffer language.
pub fn convert_ty(proto_ty: &str) -> (res: String)
    ensures
        res@ == converted(proto_ty@, lowered(proto_ty@)),
        is_ascii_chars(proto_ty@) ==> res@ == converted(proto_ty@, ascii_lowered(proto_ty@)),
{
    let lowered = text::lower(proto_ty);
    convert_lowered(proto_ty, lowered.as_str())
}

/// The type that stands for an empty message.
pub open spec fn empty_message() -> Seq<char> {
    "google.protobuf.Empty"@
}

/// The type of what a method gives, and whether it always gives something.
pub open spec fn output_type(output_ty: Seq<char>) -> (Seq<char>, bool) {
    if output_ty == empty_message() {
        ("String"@, false)
    } else {
        (output_ty, true)
    }
}

/// The type of what a method gives, and whether it always gives something.
pub fn get_output_ty(output_ty: &str) -> (res: (String, bool))
    ensures
        (res.0@, res.1) == output_type(output_ty@),
{
    if text::same(output_ty, "google.protobuf.Empty") {
        ("String".to_string(), false)
    } else {
        (output_ty.to_string(), true)
    }
}

/// The argument of a method that takes `input_ty`, by its name.
pub open spec fn input_args(input_ty: Seq<char>, helper: HelperModel) -> Map<Seq<char>, ArgModel> {
    if input_ty == empty_message() || input_ty == ""@ {
        Map::empty()
    } else {
        Map::empty().insert(
            cased(converted(input_ty, lowered(input_ty)), LetterCase::Camel),
            ArgModel {
                type_of: helper.resolve(input_ty),
                list: false,
                required: true,
                doc: None,
                modify: None,
                default_value: None,
            },
        )
    }
}

/// The argument of a method that takes `input_ty`, with its name; none where it takes nothing.
pub fn get_arg(input_ty: &str, helper: &Helper) -> (res: Option<(String, Arg)>)
    ensures
        input_args(input_ty@, helper@) == match res {
            Some((name, arg)) => Map::empty().insert(name@, arg@),
            None => Map::empty(),
        },
{
    if text::same(input_ty, "google.protobuf.Empty") || text::same(input_ty, "") {
        return None;
    }
    let key = to_case(convert_ty(input_ty).as_str(), LetterCase::Camel);
    let val = Arg {
        type_of: helper.get_or(input_ty),
        list: false,
        required: true,
        doc: None,
        modify: None,
        default_value: None,
    };
    Some((key, val))
}

/// What has been made so far.
pub struct ProtoState {
    pub config: ConfigModel,
    pub helper: HelperModel,
}

/// A name that was met before, with what had been made up to it.
pub struct Collision {
    pub name: Seq<char>,
    pub state: ProtoState,
}

/// What has been made, or the name that was met before.
pub type Made = Result<ProtoState, Collision>;

/// The names of the values of an enumeration.
pub open spec fn value_names(values: Seq<EnumValueDescriptor>) -> Set<Seq<char>>
    decreases values.len(),
{
    if values.len() == 0 {
        Set::empty()
    } else {
        value_names(values.drop_last()).insert(name_of(values.last().name))
    }
}

/// The variants of a type, none where it is no enumeration.
pub open spec fn variants_of(ty: TypeModel) -> Set<Seq<char>> {
    match ty.variants {
        Some(names) => names,
        None => Set::empty(),
    }
}

impl ProtoState {
    /// The configuration with another type in it.
    pub open spec fn with_type(self, name: Seq<char>, ty: TypeModel) -> ProtoState {
        ProtoState {
            config: ConfigModel { types: self.config.types.insert(name, ty), ..self.config },
            ..self
        }
    }

    /// The state with one more name.
    pub open spec fn with_name(self, name: Seq<char>, ty: DescriptorType) -> Made {
        if self.helper.collides(name) {
            Err(Collision { name, state: self })
        } else {
            Ok(ProtoState { helper: self.helper.with_name(name, ty), ..self })
        }
    }

    /// The type that stands in the configuration for a name.
    pub open spec fn type_for(self, name: Seq<char>) -> TypeModel {
        type_or_blank(self.config.types, self.helper.get(name)->0)
    }
}

/// An enumeration: its values join the variants of the type that stands for it.
pub open spec fn enum_added(st: ProtoState, e: EnumDescriptor) -> Made {
    let name = name_of(e.name);
    match st.with_name(name, DescriptorType::Enum) {
        Err(met) => Err(met),
        Ok(named) => {
            let ty = named.type_for(name);
            Ok(
                named.with_type(
                    named.helper.get(name)->0,
                    TypeModel {
                        variants: Some(value_names(e.value@).union(variants_of(ty))),
                        ..ty
                    },
                ),
            )
        },
    }
}

/// Enumerations, one after the other.
pub open spec fn enums_added(st: ProtoState, enums: Seq<EnumDescriptor>) -> Made
    decreases enums.len(),
{
    if enums.len() == 0 {
        Ok(st)
    } else {
        match enums_added(st, enums.drop_last()) {
            Err(met) => Err(met),
            Ok(before) => enum_added(before, enums.last()),
        }
    }
}

/// A field of a message.
pub open spec fn message_field(f: FieldDescriptor, helper: HelperModel) -> FieldModel {
    FieldModel {
        type_of: match f.field_type {
            Some(number) => converted(type_str(number), ascii_lowered(type_str(number))),
            None => helper.resolve(
                converted(name_of(f.named_type), lowered(name_of(f.named_type))),
            ),
        },
        list: f.label == Some(3i32),
        required: f.label == Some(2i32),
        ..blank_field()
    }
}

/// The fields of a message added to those of a type.
pub open spec fn fields_added(
    fields: Map<Seq<char>, FieldModel>,
    more: Seq<FieldDescriptor>,
    helper: HelperModel,
) -> Map<Seq<char>, FieldModel>
    decreases more.len(),
{
    if more.len() == 0 {
        fields
    } else {
        fields_added(fields, more.drop_last(), helper).insert(
            name_of(more.last().name),
            message_field(more.last(), helper),
        )
    }
}

/// A message: after what is nested in it, its fields join those of the type that stands for it.
pub open spec fn message_added(st: ProtoState, m: MessageDescriptor) -> Made
    decreases m,
{
    let name = name_of(m.name);
    match st.with_name(name, DescriptorType::Message) {
        Err(met) => Err(met),
        Ok(named) => match enums_added(named, m.enum_type@) {
            Err(met) => Err(met),
            Ok(with_enums) => match messages_added(with_enums, m.nested_type@) {
                Err(met) => Err(met),
                Ok(nested) => {
                    let ty = nested.type_for(name);
                    Ok(
                        nested.with_type(
                            nested.helper.get(name)->0,
                            TypeModel {
                                fields: fields_added(ty.fields, m.field@, nested.helper),
                                ..ty
                            },
                        ),
                    )
                },
            },
        },
    }
}

/// Messages, one after the other.
pub open spec fn messages_added(st: ProtoState, messages: Seq<MessageDescriptor>) -> Made
    decreases messages,
{
    if messages.len() == 0 {
        Ok(st)
    } else {
        match messages_added(st, messages.drop_last()) {
            Err(met) => Err(met),
            Ok(before) => message_added(before, messages.last()),
        }
    }
}

/// What has been made so far, as it stands in a configuration and a helper.
pub open spec fn state(config: Config, helper: Helper) -> ProtoState {
    ProtoState { config: config@, helper: helper@ }
}

/// Whether what a function made of a configuration and a helper is what should be made, up to the
/// name that was met before where there is one.
pub open spec fn makes(
    res: Result<(), FromProtoError>,
    config: Config,
    helper: Helper,
    made: Made,
) -> bool {
    match res {
        Ok(_) => made == Made::Ok(state(config, helper)),
        Err(FromProtoError::DuplicateKeys(name)) => made == Made::Err(
            Collision { name: name@, state: state(config, helper) },
        ),
    }
}

/// Whether one state of the names is reached from another by adding names.
pub open spec fn grown(before: HelperModel, after: HelperModel) -> bool {
    &&& after.package == before.package
    &&& after.options == before.options
    &&& forall|k: Seq<char>| #[trigger] before.names.contains_key(k) ==> after.names.contains_key(k)
}

proof fn lemma_grown_twice(a: HelperModel, b: HelperModel, c: HelperModel)
    requires
        grown(a, b),
        grown(b, c),
    ensures
        grown(a, c),
{
    assert forall|k: Seq<char>| #[trigger] a.names.contains_key(k) implies c.names.contains_key(k) by {
        assert(b.names.contains_key(k));
    }
}

pub(crate) proof fn lemma_enums_grow(st: ProtoState, enums: Seq<EnumDescriptor>)
    ensures
        enums_added(st, enums) matches Ok(after) ==> grown(st.helper, after.helper),
    decreases enums.len(),
{
    if enums.len() > 0 {
        lemma_enums_grow(st, enums.drop_last());
    }
}

proof fn lemma_message_grows(st: ProtoState, m: MessageDescriptor)
    ensures
        message_added(st, m) matches Ok(after) ==> grown(st.helper, after.helper),
    decreases m,
{
    let name = name_of(m.name);
    if let Ok(named) = st.with_name(name, DescriptorType::Message) {
        lemma_enums_grow(named, m.enum_type@);
        if let Ok(with_enums) = enums_added(named, m.enum_type@) {
            lemma_messages_grow(with_enums, m.nested_type@);
            assert(grown(st.helper, named.helper));
            lemma_grown_twice(st.helper, named.helper, with_enums.helper);
            if let Ok(nested) = messages_added(with_enums, m.nested_type@) {
                lemma_grown_twice(st.helper, with_enums.helper, nested.helper);
            }
        }
    }
}

pub(crate) proof fn lemma_messages_grow(st: ProtoState, messages: Seq<MessageDescriptor>)
    ensures
        messages_added(st, messages) matches Ok(after) ==> grown(st.helper, after.helper),
    decreases messages,
{
    if messages.len() > 0 {
        lemma_messages_grow(st, messages.drop_last());
        if let Ok(before) = messages_added(st, messages.drop_last()) {
            lemma_message_grows(before, messages.last());
        }
    }
}

proof fn lemma_enums_fail_early(st: ProtoState, enums: Seq<EnumDescriptor>, n: int)
    requires
        0 <= n <= enums.len(),
        enums_added(st, enums.take(n)) is Err,
    ensures
        enums_added(st, enums) == enums_added(st, enums.take(n)),
    decreases enums.len(),
{
    if n < enums.len() {
        assert(enums.drop_last().take(n) =~= enums.take(n));
        lemma_enums_fail_early(st, enums.drop_last(), n);
    } else {
        assert(enums.take(n) =~= enums);
    }
}

proof fn lemma_messages_fail_early(st: ProtoState, messages: Seq<MessageDescriptor>, n: int)
    requires
        0 <= n <= messages.len(),
        messages_added(st, messages.take(n)) is Err,
    ensures
        messages_added(st, messages) == messages_added(st, messages.take(n)),
    decreases messages.len(),
{
    if n < messages.len() {
        assert(messages.drop_last().take(n) =~= messages.take(n));
        lemma_messages_fail_early(st, messages.drop_last(), n);
    } else {
        assert(messages.take(n) =~= messages);
    }
}

/// Collects the names of the values of an enumeration.
fn collect_names(values: &Vec<EnumValueDescriptor>) -> (res: StringMap<()>)
    ensures
        res@.dom() == value_names(values@),
{
    let mut res: StringMap<()> = StringMap::new();
    proof {
        assert(res@.dom() =~= Set::empty());
    }
    for i in 0..values.len()
        invariant
            res@.dom() == value_names(values@.take(i as int)),
    {
        let ghost before = res@;
        res.insert(descriptor::name_or_empty(&values[i].name).to_string(), ());
        proof {
            assert(values@.take(i + 1).drop_last() =~= values@.take(i as int));
            assert(res@.dom() =~= before.dom().insert(name_of(values@[i as int].name)));
        }
    }
    proof {
        assert(values@.take(values@.len() as int) =~= values@);
    }
    res
}

/// Adds the keys of one map to another.
fn extend_names(names: &mut StringMap<()>, more: &StringMap<()>)
    ensures
        final(names)@.dom() == old(names)@.dom().union(more@.dom()),
{
    let ghost before = names@.dom();
    let n: usize = more.len();
    for i in 0..n
        invariant
            n == more.pairs().len(),
            forall|k: Seq<char>|
                #![trigger names@.dom().contains(k)]
                #![trigger before.contains(k)]
                names@.dom().contains(k) <==> before.contains(k) || exists|j: int|
                    0 <= j < i && (#[trigger] more.pairs()[j]).0@ == k,
    {
        let ghost prev = names@.dom();
        names.insert(more.key_at(i).clone(), ());
        proof {
            let key = more.pairs()[i as int].0@;
            assert(names@.dom() =~= prev.insert(key));
            assert forall|k: Seq<char>|
                #![trigger names@.dom().contains(k)]
                #![trigger before.contains(k)]
                names@.dom().contains(k) <==> before.contains(k) || exists|j: int|
                    0 <= j < i + 1 && (#[trigger] more.pairs()[j]).0@ == k by {
                assert(prev.contains(k) <==> before.contains(k) || exists|j: int|
                    0 <= j < i && (#[trigger] more.pairs()[j]).0@ == k);
            }
        }
    }
    proof {
        assert forall|k: Seq<char>| #[trigger]
            names@.dom().contains(k) <==> before.union(more@.dom()).contains(k) by {
            if more@.dom().contains(k) {
                assert(more@.contains_key(k));
            }
            if names@.dom().contains(k) && !before.contains(k) {
                let j = choose|j: int| 0 <= j < n && (#[trigger] more.pairs()[j]).0@ == k;
                assert(more@.contains_key(more.pairs()[j].0@));
            }
        }
        assert(names@.dom() =~= before.union(more@.dom()));
    }
}

/// Adds enumerations.
pub fn append_enums(
    config: &mut Config,
    enums: &Vec<EnumDescriptor>,
    helper: &mut Helper,
) -> (res: Result<(), FromProtoError>)
    ensures
        makes(
            res,
            *final(config),
            *final(helper),
            enums_added(state(*old(config), *old(helper)), enums@),
        ),
{
    let ghost start = state(*config, *helper);
    for i in 0..enums.len()
        invariant
            start == state(*old(config), *old(helper)),
            enums_added(start, enums@.take(i as int)) == Made::Ok(state(*config, *helper)),
    {
        let ghost here = state(*config, *helper);
        let name = descriptor::name_or_empty(&enums[i].name);
        proof {
            assert(enums@.take(i + 1).drop_last() =~= enums@.take(i as int));
            assert(enums@.take(i + 1).last() == enums@[i as int]);
        }
        match helper.insert(name, DescriptorType::Enum) {
            Err(e) => {
                proof {
                    lemma_enums_fail_early(start, enums@, i + 1);
                }
                return Err(e);
            },
            Ok(_) => {},
        }
        let target = helper.get_or(name);
        proof {
            assert(helper@.names.contains_key(helper@.key(name@)));
        }
        let mut ty = config.type_or_default(target.as_str());
        let ghost before = ty@;
        let mut variants = collect_names(&enums[i].value);
        if let Some(vars) = &ty.variants {
            extend_names(&mut variants, vars);
        }
        proof {
            assert(variants@.dom() =~= value_names(enums@[i as int].value@).union(variants_of(before)));
        }
        ty.variants = Some(variants);
        config.insert_type(target, ty);
    }
    proof {
        assert(enums@.take(enums@.len() as int) =~= enums@);
    }
    Ok(())
}

/// Makes a field of a message.
fn field_of(f: &FieldDescriptor, helper: &Helper) -> (res: Field)
    ensures
        res@ == message_field(*f, helper@),
{
    let mut res = Field::default();
    let (list, required) = descriptor::label_flags(f.label);
    res.list = list;
    res.required = required;
    match f.field_type {
        Some(number) => {
            proof {
                descriptor::lemma_type_str_ascii(number);
            }
            res.type_of = convert_ty(descriptor::type_str_name(number));
        },
        None => {
            let type_of = convert_ty(descriptor::name_or_empty(&f.named_type));
            res.type_of = helper.get_or(type_of.as_str());
        },
    }
    res
}

/// Adds messages, each after what is nested in it.
pub fn append_msg_type(
    config: &mut Config,
    messages: &Vec<MessageDescriptor>,
    helper: &mut Helper,
) -> (res: Result<(), FromProtoError>)
    ensures
        makes(
            res,
            *final(config),
            *final(helper),
            messages_added(state(*old(config), *old(helper)), messages@),
        ),
    decreases messages,
{
    let ghost start = state(*config, *helper);
    for i in 0..messages.len()
        invariant
            start == state(*old(config), *old(helper)),
            messages_added(start, messages@.take(i as int)) == Made::Ok(state(*config, *helper)),
        decreases messages.len() - i,
    {
        proof {
            assert(messages@.take(i + 1).drop_last() =~= messages@.take(i as int));
            assert(messages@.take(i + 1).last() == messages@[i as int]);
        }
        assert(decreases_to!(messages => messages@));
        assert(decreases_to!(messages@ => messages@[i as int]));
        match append_message(config, &messages[i], helper) {
            Err(e) => {
                proof {
                    lemma_messages_fail_early(start, messages@, i + 1);
                }
                return Err(e);
            },
            Ok(_) => {},
        }
    }
    proof {
        assert(messages@.take(messages@.len() as int) =~= messages@);
    }
    Ok(())
}

/// Adds a message after what is nested in it.
fn append_message(config: &mut Config, message: &MessageDescriptor, helper: &mut Helper) -> (res: Result<
    (),
    FromProtoError,
>)
    ensures
        makes(
            res,
            *final(config),
            *final(helper),
            message_added(state(*old(config), *old(helper)), *message),
        ),
    decreases message,
{
    let name = descriptor::name_or_empty(&message.name);
    match helper.insert(name, DescriptorType::Message) {
        Err(e) => {
            return Err(e);
        },
        Ok(_) => {},
    }
    let ghost named = state(*config, *helper);
    proof {
        assert(helper@.names.contains_key(helper@.key(name@)));
        lemma_enums_grow(named, message.enum_type@);
    }
    match append_enums(config, &message.enum_type, helper) {
        Err(e) => {
            return Err(e);
        },
        Ok(_) => {},
    }
    let ghost with_enums = state(*config, *helper);
    proof {
        lemma_messages_grow(with_enums, message.nested_type@);
    }
    match append_msg_type(config, &message.nested_type, helper) {
        Err(e) => {
            return Err(e);
        },
        Ok(_) => {},
    }
    let ghost nested = state(*config, *helper);
    proof {
        lemma_grown_twice(named.helper, with_enums.helper, nested.helper);
        assert(helper@.names.contains_key(helper@.key(name@)));
    }
    let target = helper.get_or(name);
    let mut ty = config.type_or_default(target.as_str());
    let ghost before = ty@;
    for i in 0..message.field.len()
        invariant
            helper@ == nested.helper,
            ty@ == (TypeModel {
                fields: fields_added(before.fields, message.field@.take(i as int), nested.helper),
                variants: before.variants,
            }),
    {
        proof {
            assert(message.field@.take(i + 1).drop_last() =~= message.field@.take(i as int));
            assert(message.field@.take(i + 1).last() == message.field@[i as int]);
        }
        let field_name = descriptor::name_or_empty(&message.field[i].name).to_string();
        let field = field_of(&message.field[i], helper);
        ty.insert_field(field_name, field);
    }
    proof {
        assert(message.field@.take(message.field@.len() as int) =~= message.field@);
    }
    config.insert_type(target, ty);
    Ok(())
}

/// The names of the types that queries and mutations start from, and which methods are mutations.
pub struct ProtoGeneratorConfig<F> {
    query: String,
    mutation: String,
    is_mutation_fxn: F,
    rule: Ghost<spec_fn(Seq<char>) -> bool>,
}

/// What a [`ProtoGeneratorConfig`] holds.
pub struct GeneratorModel {
    /// The name of the type that queries start from.
    pub query: Seq<char>,
    /// The name of the type that mutations start from.
    pub mutation: Seq<char>,
    /// Whether the method of a name is a mutation.
    pub mutates: spec_fn(Seq<char>) -> bool,
}

impl<F> View for ProtoGeneratorConfig<F> {
    type V = GeneratorModel;

    closed spec fn view(&self) -> GeneratorModel {
        GeneratorModel {
            query: self.query@,
            mutation: self.mutation@,
            mutates: self.rule@,
        }
    }
}

impl<F: Fn(&str) -> bool> ProtoGeneratorConfig<F> {
    /// Whether the function that tells mutations from queries decides every name, by its characters
    /// alone.
    pub closed spec fn wf(self) -> bool {
        &&& is_rule(self.is_mutation_fxn)
        &&& forall|name: Seq<char>| #[trigger]
            (self.rule@)(name) == rule_says(self.is_mutation_fxn, name)
    }

    /// The generator for the given names; without one, queries start from `Query` and mutations
    /// from `Mutation`.
    pub fn new(query: Option<String>, mutation: Option<String>, is_mutation_fxn: F) -> (res:
        ProtoGeneratorConfig<F>)
        ensures
            res@.query == match query {
                Some(name) => name@,
                None => "Query"@,
            },
            res@.mutation == match mutation {
                Some(name) => name@,
                None => "Mutation"@,
            },
            forall|name: Seq<char>| #[trigger]
                (res@.mutates)(name) == rule_says(is_mutation_fxn, name),
            res.wf() == is_rule(is_mutation_fxn),
    {
        ProtoGeneratorConfig {
            query: match query {
                Some(name) => name,
                None => "Query".to_string(),
            },
            mutation: match mutation {
                Some(name) => name,
                None => "Mutation".to_string(),
            },
            is_mutation_fxn,
            rule: Ghost(|name: Seq<char>| rule_says(is_mutation_fxn, name)),
        }
    }

    /// The name of the type that queries start from.
    pub fn get_query(&self) -> (res: &str)
        ensures
            res@ == self@.query,
    {
        self.query.as_str()
    }

    /// The name of the type that mutations start from.
    pub fn get_mutation(&self) -> (res: &str)
        ensures
            res@ == self@.mutation,
    {
        self.mutation.as_str()
    }

    /// Whether the method of that name is a mutation.
    pub fn is_mutation(&self, name: &str) -> (res: bool)
        requires
            self.wf(),
        ensures
            res == (self@.mutates)(name@),
    {
        (self.is_mutation_fxn)(name)
    }
}

/// Whether a function that tells mutations from queries calls the name a mutation.
pub open spec fn rule_says<F: Fn(&str) -> bool>(rule: F, name: Seq<char>) -> bool {
    exists|s: &str| s@ == name && #[trigger] call_ensures(rule, (s,), true)
}

/// Whether a function decides every name, by its characters alone.
pub open spec fn is_rule<F: Fn(&str) -> bool>(rule: F) -> bool {
    &&& forall|s: &str| #[trigger] call_requires(rule, (s,))
    &&& forall|s: &str, t: &str, a: bool, b: bool|
        s@ == t@ && #[trigger] call_ensures(rule, (s,), a) && #[trigger] call_ensures(rule, (t,), b)
            ==> a == b
}

/// A method of a gRPC service.
pub struct GrpcMethod {
    pub package: String,
    pub service: String,
    pub name: String,
}

/// The full name of a method.
pub open spec fn method_text(package: Seq<char>, service: Seq<char>, name: Seq<char>) -> Seq<char> {
    package + "."@ + service + "."@ + name
}

impl GrpcMethod {
    /// The full name of the method.
    pub fn to_string(&self) -> (res: String)
        ensures
            res@ == method_text(self.package@, self.service@, self.name@),
    {
        let mut res = self.package.clone();
        res.append(".");
        res.append(self.service.as_str());
        res.append(".");
        res.append(self.name.as_str());
        res
    }
}

/// The field that a method becomes.
pub open spec fn method_field(
    service: Seq<char>,
    m: MethodDescriptor,
    helper: HelperModel,
) -> FieldModel {
    let output = output_type(name_of(m.output_type));
    FieldModel {
        type_of: helper.resolve(output.0),
        list: false,
        required: output.1,
        args: input_args(name_of(m.input_type), helper),
        grpc: Some(
            GrpcModel {
                base_url: None,
                body: None,
                group_by: Seq::empty(),
                headers: Seq::empty(),
                method: method_text(helper.package, service, name_of(m.name)),
            },
        ),
        call: None,
    }
}

/// A name that was met before, with the fields and the names up to it.
pub struct FieldCollision {
    pub name: Seq<char>,
    pub fields: Map<Seq<char>, FieldModel>,
    pub helper: HelperModel,
}

/// Fields and the names met so far, or the name that was met before.
pub type Fields = Result<(Map<Seq<char>, FieldModel>, HelperModel), FieldCollision>;

/// A method of a service: it becomes a field under the name that stands for it.
pub open spec fn method_added(
    fields: Map<Seq<char>, FieldModel>,
    helper: HelperModel,
    service: Seq<char>,
    m: MethodDescriptor,
) -> Fields {
    let name = name_of(m.name);
    if helper.collides(name) {
        Err(FieldCollision { name, fields, helper })
    } else {
        let named = helper.with_name(name, DescriptorType::Method);
        Ok((fields.insert(named.get(name)->0, method_field(service, m, named)), named))
    }
}

/// The methods of a service that are mutations, or those that are not, one after the other.
pub open spec fn methods_added(
    fields: Map<Seq<char>, FieldModel>,
    helper: HelperModel,
    service: Seq<char>,
    methods: Seq<MethodDescriptor>,
    gen: GeneratorModel,
    mutations: bool,
) -> Fields
    decreases methods.len(),
{
    if methods.len() == 0 {
        Ok((fields, helper))
    } else {
        match methods_added(fields, helper, service, methods.drop_last(), gen, mutations) {
            Err(met) => Err(met),
            Ok((before, names)) => if (gen.mutates)(name_of(methods.last().name)) == mutations {
                method_added(before, names, service, methods.last())
            } else {
                Ok((before, names))
            },
        }
    }
}

/// The methods of the services that are mutations, or those that are not, one after the other.
pub open spec fn services_added(
    fields: Map<Seq<char>, FieldModel>,
    helper: HelperModel,
    services: Seq<ServiceDescriptor>,
    gen: GeneratorModel,
    mutations: bool,
) -> Fields
    decreases services.len(),
{
    if services.len() == 0 {
        Ok((fields, helper))
    } else {
        match services_added(fields, helper, services.drop_last(), gen, mutations) {
            Err(met) => Err(met),
            Ok((before, names)) => methods_added(
                before,
                names,
                name_of(services.last().name),
                services.last().method@,
                gen,
                mutations,
            ),
        }
    }
}

/// Where there are services, their methods of one sort join the fields of the root type for that
/// sort. The root type takes its place in the schema unless it is blank.
pub open spec fn root_added(
    st: ProtoState,
    services: Seq<ServiceDescriptor>,
    gen: GeneratorModel,
    mutations: bool,
) -> Made {
    let key = if mutations {
        gen.mutation
    } else {
        gen.query
    };
    let root = type_or_blank(st.config.types, key);
    if services.len() == 0 {
        Ok(st)
    } else {
        match services_added(root.fields, st.helper, services, gen, mutations) {
            Err(met) => Err(
                Collision {
                    name: met.name,
                    state: ProtoState { config: st.config, helper: met.helper },
                },
            ),
            Ok((fields, helper)) => {
                let ty = TypeModel { fields, variants: root.variants };
                if ty == blank_type() {
                    Ok(ProtoState { config: st.config, helper })
                } else {
                    Ok(
                        ProtoState {
                            config: ConfigModel {
                                query: if mutations {
                                    st.config.query
                                } else {
                                    Some(key)
                                },
                                mutation: if mutations {
                                    Some(key)
                                } else {
                                    st.config.mutation
                                },
                                types: st.config.types.insert(key, ty),
                            },
                            helper,
                        },
                    )
                }
            },
        }
    }
}

/// A file: its enumerations, its messages, the queries and the mutations of its services.
pub open spec fn file_added(
    st: ProtoState,
    file: FileDescriptor,
    gen: GeneratorModel,
) -> Made {
    let st = ProtoState { helper: st.helper.in_package(name_of(file.package)), ..st };
    match enums_added(st, file.enum_type@) {
        Err(met) => Err(met),
        Ok(with_enums) => match messages_added(with_enums, file.message_type@) {
            Err(met) => Err(met),
            Ok(with_messages) => match root_added(with_messages, file.service@, gen, false) {
                Err(met) => Err(met),
                Ok(with_queries) => root_added(with_queries, file.service@, gen, true),
            },
        },
    }
}

/// Files, one after the other.
pub open spec fn files_added(
    st: ProtoState,
    files: Seq<FileDescriptor>,
    gen: GeneratorModel,
) -> Made
    decreases files.len(),
{
    if files.len() == 0 {
        Ok(st)
    } else {
        match files_added(st, files.drop_last(), gen) {
            Err(met) => Err(met),
            Ok(before) => file_added(before, files.last(), gen),
        }
    }
}

/// The files of all sets in order.
pub open spec fn all_files(sets: Seq<FileDescriptorSet>) -> Seq<FileDescriptor>
    decreases sets.len(),
{
    if sets.len() == 0 {
        Seq::empty()
    } else {
        all_files(sets.drop_last()) + sets.last().file@
    }
}

/// What there is before the first file.
pub open spec fn nothing_made(options: OptionsModel) -> ProtoState {
    ProtoState {
        config: blank_config(),
        helper: HelperModel { names: Map::empty(), package: ""@, options },
    }
}

/// What is made of the files, one after the other.
pub open spec fn made_from(
    files: Seq<FileDescriptor>,
    gen: GeneratorModel,
    options: OptionsModel,
) -> Made {
    files_added(nothing_made(options), files, gen)
}

proof fn lemma_methods_fail_early(
    fields: Map<Seq<char>, FieldModel>,
    helper: HelperModel,
    service: Seq<char>,
    methods: Seq<MethodDescriptor>,
    gen: GeneratorModel,
    mutations: bool,
    n: int,
)
    requires
        0 <= n <= methods.len(),
        methods_added(fields, helper, service, methods.take(n), gen, mutations) is Err,
    ensures
        methods_added(fields, helper, service, methods, gen, mutations) == methods_added(
            fields,
            helper,
            service,
            methods.take(n),
            gen,
            mutations,
        ),
    decreases methods.len(),
{
    if n < methods.len() {
        assert(methods.drop_last().take(n) =~= methods.take(n));
        lemma_methods_fail_early(fields, helper, service, methods.drop_last(), gen, mutations, n);
    } else {
        assert(methods.take(n) =~= methods);
    }
}

proof fn lemma_services_fail_early(
    fields: Map<Seq<char>, FieldModel>,
    helper: HelperModel,
    services: Seq<ServiceDescriptor>,
    gen: GeneratorModel,
    mutations: bool,
    n: int,
)
    requires
        0 <= n <= services.len(),
        services_added(fields, helper, services.take(n), gen, mutations) is Err,
    ensures
        services_added(fields, helper, services, gen, mutations) == services_added(
            fields,
            helper,
            services.take(n),
            gen,
            mutations,
        ),
    decreases services.len(),
{
    if n < services.len() {
        assert(services.drop_last().take(n) =~= services.take(n));
        lemma_services_fail_early(fields, helper, services.drop_last(), gen, mutations, n);
    } else {
        assert(services.take(n) =~= services);
    }
}

proof fn lemma_files_fail_early(
    st: ProtoState,
    files: Seq<FileDescriptor>,
    gen: GeneratorModel,
    n: int,
)
    requires
        0 <= n <= files.len(),
        files_added(st, files.take(n), gen) is Err,
    ensures
        files_added(st, files, gen) == files_added(st, files.take(n), gen),
    decreases files.len(),
{
    if n < files.len() {
        assert(files.drop_last().take(n) =~= files.take(n));
        lemma_files_fail_early(st, files.drop_last(), gen, n);
    } else {
        assert(files.take(n) =~= files);
    }
}

/// Whether what a function made of a type and a helper is what should be made, up to the name that
/// was met before where there is one: the fields given, with the variants as they were.
pub open spec fn makes_fields(
    res: Result<(), FromProtoError>,
    before: TypeModel,
    ty: Type,
    helper: Helper,
    fields: Fields,
) -> bool {
    &&& ty@.variants == before.variants
    &&& match res {
        Ok(_) => fields == Fields::Ok((ty@.fields, helper@)),
        Err(FromProtoError::DuplicateKeys(name)) => fields == Fields::Err(
            FieldCollision { name: name@, fields: ty@.fields, helper: helper@ },
        ),
    }
}

/// Makes the field for a method whose name has been added.
fn method_of(service: &str, method: &MethodDescriptor, helper: &Helper) -> (res: Field)
    ensures
        res@ == method_field(service@, *method, helper@),
{
    let mut res = Field::default();
    if let Some((name, arg)) = get_arg(descriptor::name_or_empty(&method.input_type), helper) {
        res.args.insert(name, arg);
    }
    proof {
        assert(res@.args =~= input_args(name_of(method.input_type), helper@));
    }
    let (output_ty, required) = get_output_ty(descriptor::name_or_empty(&method.output_type));
    res.type_of = helper.get_or(output_ty.as_str());
    res.required = required;
    let grpc_method = GrpcMethod {
        package: helper.package().to_string(),
        service: service.to_string(),
        name: descriptor::name_or_empty(&method.name).to_string(),
    };
    let grpc = Grpc {
        base_url: None,
        body: None,
        group_by: Vec::new(),
        headers: Vec::new(),
        method: grpc_method.to_string(),
    };
    proof {
        assert(grpc@.group_by =~= Seq::empty());
        assert(grpc@.headers =~= Seq::empty());
    }
    res.grpc = Some(grpc);
    res
}

/// Adds the methods of a service that are mutations, or those that are not, to the fields of a
/// type.
fn append_methods<F: Fn(&str) -> bool>(
    ty: &mut Type,
    service: &ServiceDescriptor,
    gen: &ProtoGeneratorConfig<F>,
    mutations: bool,
    helper: &mut Helper,
) -> (res: Result<(), FromProtoError>)
    requires
        gen.wf(),
    ensures
        makes_fields(
            res,
            old(ty)@,
            *final(ty),
            *final(helper),
            methods_added(
                old(ty)@.fields,
                old(helper)@,
                name_of(service.name),
                service.method@,
                gen@,
                mutations,
            ),
        ),
{
    let service_name = descriptor::name_or_empty(&service.name);
    let ghost fields = ty@.fields;
    let ghost names = helper@;
    let methods = &service.method;
    for i in 0..methods.len()
        invariant
            gen.wf(),
            service_name@ == name_of(service.name),
            methods == &service.method,
            fields == old(ty)@.fields,
            names == old(helper)@,
            ty@.variants == old(ty)@.variants,
            methods_added(fields, names, service_name@, methods@.take(i as int), gen@, mutations)
                == Fields::Ok((ty@.fields, helper@)),
    {
        proof {
            assert(methods@.take(i + 1).drop_last() =~= methods@.take(i as int));
            assert(methods@.take(i + 1).last() == methods@[i as int]);
        }
        let name = descriptor::name_or_empty(&methods[i].name);
        if gen.is_mutation(name) == mutations {
            match helper.insert(name, DescriptorType::Method) {
                Err(e) => {
                    proof {
                        lemma_methods_fail_early(
                            fields,
                            names,
                            service_name@,
                            methods@,
                            gen@,
                            mutations,
                            i + 1,
                        );
                    }
                    return Err(e);
                },
                Ok(_) => {},
            }
            proof {
                assert(helper@.names.contains_key(helper@.key(name@)));
            }
            let field = method_of(service_name, &methods[i], helper);
            ty.insert_field(helper.get_or(name), field);
        }
    }
    proof {
        assert(methods@.take(methods@.len() as int) =~= methods@);
    }
    Ok(())
}

/// Adds the methods of the services that are mutations, or those that are not, to the fields of
/// the type called `key`, and hands the type out.
pub fn generate_ty<F: Fn(&str) -> bool>(
    config: &Config,
    services: &Vec<ServiceDescriptor>,
    gen: &ProtoGeneratorConfig<F>,
    mutations: bool,
    helper: &mut Helper,
    key: &str,
) -> (res: Result<Type, FromProtoError>)
    requires
        gen.wf(),
    ensures
        match res {
            Ok(ty) => {
                &&& services_added(
                    type_or_blank(config@.types, key@).fields,
                    old(helper)@,
                    services@,
                    gen@,
                    mutations,
                ) == Fields::Ok((ty@.fields, final(helper)@))
                &&& ty@.variants == type_or_blank(config@.types, key@).variants
            },
            Err(FromProtoError::DuplicateKeys(name)) => services_added(
                type_or_blank(config@.types, key@).fields,
                old(helper)@,
                services@,
                gen@,
                mutations,
            ) matches Err(met) && met.name == name@ && met.helper == final(helper)@,
        },
{
    let mut ty = config.type_or_default(key);
    let ghost root = ty@;
    let ghost names = helper@;
    for i in 0..services.len()
        invariant
            gen.wf(),
            root == type_or_blank(config@.types, key@),
            names == old(helper)@,
            ty@.variants == root.variants,
            services_added(root.fields, names, services@.take(i as int), gen@, mutations)
                == Fields::Ok((ty@.fields, helper@)),
    {
        proof {
            assert(services@.take(i + 1).drop_last() =~= services@.take(i as int));
            assert(services@.take(i + 1).last() == services@[i as int]);
        }
        match append_methods(&mut ty, &services[i], gen, mutations, helper) {
            Err(e) => {
                proof {
                    lemma_services_fail_early(root.fields, names, services@, gen@, mutations, i + 1);
                }
                return Err(e);
            },
            Ok(_) => {},
        }
    }
    proof {
        assert(services@.take(services@.len() as int) =~= services@);
    }
    Ok(ty)
}

/// Adds the queries of services.
pub fn append_query_service<F: Fn(&str) -> bool>(
    config: &mut Config,
    services: &Vec<ServiceDescriptor>,
    gen: &ProtoGeneratorConfig<F>,
    helper: &mut Helper,
) -> (res: Result<(), FromProtoError>)
    requires
        gen.wf(),
    ensures
        makes(
            res,
            *final(config),
            *final(helper),
            root_added(state(*old(config), *old(helper)), services@, gen@, false),
        ),
        res is Err ==> final(config)@ == old(config)@,
{
    if services.len() == 0 {
        return Ok(());
    }
    let query = gen.get_query();
    let ty = match generate_ty(config, services, gen, false, helper, query) {
        Err(e) => {
            return Err(e);
        },
        Ok(ty) => ty,
    };
    if !ty.is_blank() {
        config.schema.query = Some(query.to_string());
        config.insert_type(query.to_string(), ty);
    }
    Ok(())
}

/// Adds the mutations of services.
pub fn append_mutation_service<F: Fn(&str) -> bool>(
    config: &mut Config,
    services: &Vec<ServiceDescriptor>,
    gen: &ProtoGeneratorConfig<F>,
    helper: &mut Helper,
) -> (res: Result<(), FromProtoError>)
    requires
        gen.wf(),
    ensures
        makes(
            res,
            *final(config),
            *final(helper),
            root_added(state(*old(config), *old(helper)), services@, gen@, true),
        ),
        res is Err ==> final(config)@ == old(config)@,
{
    if services.len() == 0 {
        return Ok(());
    }
    let mutation = gen.get_mutation();
    let ty = match generate_ty(config, services, gen, true, helper, mutation) {
        Err(e) => {
            return Err(e);
        },
        Ok(ty) => ty,
    };
    if !ty.is_blank() {
        config.schema.mutation = Some(mutation.to_string());
        config.insert_type(mutation.to_string(), ty);
    }
    Ok(())
}

/// Adds a file.
fn append_file<F: Fn(&str) -> bool>(
    config: &mut Config,
    file: &FileDescriptor,
    gen: &ProtoGeneratorConfig<F>,
    helper: &mut Helper,
) -> (res: Result<(), FromProtoError>)
    requires
        gen.wf(),
    ensures
        makes(
            res,
            *final(config),
            *final(helper),
            file_added(state(*old(config), *old(helper)), *file, gen@),
        ),
{
    helper.set_package(descriptor::name_or_empty(&file.package));
    match append_enums(config, &file.enum_type, helper) {
        Err(e) => {
            return Err(e);
        },
        Ok(_) => {},
    }
    match append_msg_type(config, &file.message_type, helper) {
        Err(e) => {
            return Err(e);
        },
        Ok(_) => {},
    }
    match append_query_service(config, &file.service, gen, helper) {
        Err(e) => {
            return Err(e);
        },
        Ok(_) => {},
    }
    append_mutation_service(config, &file.service, gen, helper)
}

proof fn lemma_files_in_order(sets: Seq<FileDescriptorSet>, i: int, j: int)
    requires
        0 <= i < sets.len(),
        0 <= j < sets[i].file@.len(),
    ensures
        all_files(sets.take(i)).len() + j < all_files(sets).len(),
        all_files(sets).take(all_files(sets.take(i)).len() + j) == all_files(sets.take(i))
            + sets[i].file@.take(j),
        all_files(sets)[all_files(sets.take(i)).len() + j] == sets[i].file@[j],
    decreases sets.len(),
{
    let rest = sets.drop_last();
    if i < rest.len() {
        lemma_files_in_order(rest, i, j);
        assert(rest.take(i) =~= sets.take(i));
        let n = all_files(sets.take(i)).len() + j;
        assert(all_files(sets).take(n as int) =~= all_files(rest).take(n as int));
    } else {
        assert(rest =~= sets.take(i));
        assert(all_files(sets).take(all_files(rest).len() + j) =~= all_files(rest)
            + sets[i].file@.take(j));
    }
}

/// Makes a configuration from the files of all sets, in order.
pub fn from_proto<F: Fn(&str) -> bool>(
    descriptor_sets: Vec<FileDescriptorSet>,
    gen: ProtoGeneratorConfig<F>,
    options: Options,
) -> (res: Result<Config, FromProtoError>)
    requires
        gen.wf(),
    ensures
        match (res, made_from(all_files(descriptor_sets@), gen@, options@)) {
            (Ok(config), Ok(made)) => config@ == made.config,
            (Err(FromProtoError::DuplicateKeys(name)), Err(met)) => name@ == met.name,
            _ => false,
        },
{
    let mut config = Config::default();
    let ghost asked = options@;
    let mut helper = Helper::with_options(options);
    let ghost start = nothing_made(asked);
    let ghost files = all_files(descriptor_sets@);
    for i in 0..descriptor_sets.len()
        invariant
            gen.wf(),
            files == all_files(descriptor_sets@),
            files_added(start, all_files(descriptor_sets@.take(i as int)), gen@) == Made::Ok(
                state(config, helper),
            ),
            start == nothing_made(asked),
            asked == options@,
    {
        let set = &descriptor_sets[i];
        let ghost before = all_files(descriptor_sets@.take(i as int));
        proof {
            assert(before + set.file@.take(0) =~= before);
            assert(descriptor_sets@.take(i + 1).drop_last() =~= descriptor_sets@.take(i as int));
        }
        for j in 0..set.file.len()
            invariant
                gen.wf(),
                files == all_files(descriptor_sets@),
                i < descriptor_sets@.len(),
                *set == descriptor_sets@[i as int],
                before == all_files(descriptor_sets@.take(i as int)),
                files_added(start, before + set.file@.take(j as int), gen@) == Made::Ok(
                    state(config, helper),
                ),
                start == nothing_made(asked),
                asked == options@,
        {
            let ghost next = before + set.file@.take(j + 1);
            proof {
                assert(next.drop_last() =~= before + set.file@.take(j as int));
                assert(next.last() == set.file@[j as int]);
            }
            match append_file(&mut config, &set.file[j], &gen, &mut helper) {
                Err(e) => {
                    proof {
                        lemma_files_in_order(descriptor_sets@, i as int, j as int);
                        let n = before.len() + j;
                        assert(files.take(n + 1) =~= files.take(n as int).push(files[n as int]));
                        assert(files.take(n + 1) =~= next);
                        lemma_files_fail_early(start, files, gen@, n + 1);
                    }
                    return Err(e);
                },
                Ok(_) => {},
            }
        }
        proof {
            assert(set.file@.take(set.file@.len() as int) =~= set.file@);
            assert(all_files(descriptor_sets@.take(i + 1)) == before + set.file@);
        }
    }
    proof {
        assert(descriptor_sets@.take(descriptor_sets@.len() as int) =~= descriptor_sets@);
    }
    Ok(config)
}

} // verus!
