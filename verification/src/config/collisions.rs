//! When a configuration cannot be made from descriptors: which names are declared, and when two of
//! them collide.
use vstd::prelude::*;

use crate::config::descriptor::{
    name_of, MessageDescriptor, EnumDescriptor, FileDescriptor, FileDescriptorSet,
    MethodDescriptor, ServiceDescriptor,
};
use crate::config::from_proto::{
    all_files, enums_added, file_added, files_added, made_from, message_added, messages_added,
    methods_added, nothing_made, root_added, services_added,
    DescriptorType, Fields, GeneratorModel, HelperModel, Made, OptionsModel, ProtoState,
};
use crate::config::types::{type_or_blank, FieldModel};
use crate::text::last_segment;

verus! {

/// The names of enumerations.
pub open spec fn declared_enums(enums: Seq<EnumDescriptor>) -> Seq<Seq<char>> {
    enums.map_values(|e: EnumDescriptor| name_of(e.name))
}

/// The name of a message, followed by those of what is nested in it.
pub open spec fn declared_message(m: MessageDescriptor) -> Seq<Seq<char>>
    decreases m,
{
    seq![name_of(m.name)] + (declared_enums(m.enum_type@) + declared_messages(m.nested_type@))
}

/// The names of messages and of what is nested in them.
pub open spec fn declared_messages(messages: Seq<MessageDescriptor>) -> Seq<Seq<char>>
    decreases messages,
{
    if messages.len() == 0 {
        Seq::empty()
    } else {
        declared_messages(messages.drop_last()) + declared_message(messages.last())
    }
}

/// The names of the methods that are mutations, or of those that are not.
pub open spec fn declared_methods(
    methods: Seq<MethodDescriptor>,
    gen: GeneratorModel,
    mutations: bool,
) -> Seq<Seq<char>>
    decreases methods.len(),
{
    if methods.len() == 0 {
        Seq::empty()
    } else {
        let before = declared_methods(methods.drop_last(), gen, mutations);
        let name = name_of(methods.last().name);
        if (gen.mutates)(name) == mutations {
            before.push(name)
        } else {
            before
        }
    }
}

/// The names of the methods of services that are mutations, or of those that are not.
pub open spec fn declared_services(
    services: Seq<ServiceDescriptor>,
    gen: GeneratorModel,
    mutations: bool,
) -> Seq<Seq<char>>
    decreases services.len(),
{
    if services.len() == 0 {
        Seq::empty()
    } else {
        declared_services(services.drop_last(), gen, mutations) + declared_methods(
            services.last().method@,
            gen,
            mutations,
        )
    }
}

/// All names of a file: those of its enumerations, its messages, its queries and its mutations.
pub open spec fn declared_file(
    file: FileDescriptor,
    gen: GeneratorModel,
) -> Seq<Seq<char>> {
    declared_enums(file.enum_type@) + (declared_messages(file.message_type@) + (declared_services(
        file.service@,
        gen,
        false,
    ) + declared_services(file.service@, gen, true)))
}

/// All names of files, in order.
pub open spec fn declared_files(
    files: Seq<FileDescriptor>,
    gen: GeneratorModel,
) -> Seq<Seq<char>>
    decreases files.len(),
{
    if files.len() == 0 {
        Seq::empty()
    } else {
        declared_files(files.drop_last(), gen) + declared_file(files.last(), gen)
    }
}

/// Whether the name at position `j` is the last segment of one before it.
pub open spec fn repeats_at(names: Seq<Seq<char>>, j: int) -> bool {
    0 <= j < names.len() && exists|i: int| 0 <= i < j && last_segment(#[trigger] names[i]) == names[j]
}

/// Whether a name is the last segment of one of the names given.
pub open spec fn taken(names: Set<Seq<char>>, name: Seq<char>) -> bool {
    exists|k: Seq<char>| #[trigger] names.contains(k) && last_segment(k) == name
}

/// The names with others added one by one, or the first that was taken.
pub open spec fn joined_names(names: Set<Seq<char>>, more: Seq<Seq<char>>) -> Result<
    Set<Seq<char>>,
    Seq<char>,
>
    decreases more.len(),
{
    if more.len() == 0 {
        Ok(names)
    } else {
        match joined_names(names, more.drop_last()) {
            Err(name) => Err(name),
            Ok(before) => if taken(before, more.last()) {
                Err(more.last())
            } else {
                Ok(before.insert(more.last()))
            },
        }
    }
}

proof fn lemma_joined_twice(names: Set<Seq<char>>, a: Seq<Seq<char>>, b: Seq<Seq<char>>)
    ensures
        joined_names(names, a + b) == match joined_names(names, a) {
            Err(name) => Err::<Set<Seq<char>>, Seq<char>>(name),
            Ok(before) => joined_names(before, b),
        },
    decreases b.len(),
{
    if b.len() == 0 {
        assert(a + b =~= a);
    } else {
        lemma_joined_twice(names, a, b.drop_last());
        assert((a + b).drop_last() =~= a + b.drop_last());
    }
}

proof fn lemma_joined_one(names: Set<Seq<char>>, name: Seq<char>)
    ensures
        joined_names(names, seq![name]) == if taken(names, name) {
            Err::<Set<Seq<char>>, Seq<char>>(name)
        } else {
            Ok(names.insert(name))
        },
{
    let one = seq![name];
    assert(one.drop_last() =~= Seq::empty());
    assert(joined_names(names, one.drop_last()) == Ok::<Set<Seq<char>>, Seq<char>>(names));
}

/// Whether adding to the names ended as it should.
pub open spec fn tallies(made: Made, names: Result<Set<Seq<char>>, Seq<char>>) -> bool {
    match (made, names) {
        (Ok(st), Ok(after)) => st.helper.names.dom() == after && st.helper.options is FailIfCollide,
        (Err(met), Err(name)) => met.name == name,
        _ => false,
    }
}

/// Whether adding to the fields and the names ended as it should.
pub open spec fn tallies_fields(made: Fields, names: Result<Set<Seq<char>>, Seq<char>>) -> bool {
    match (made, names) {
        (Ok((fields, helper)), Ok(after)) => helper.names.dom() == after && helper.options is FailIfCollide,
        (Err(met), Err(name)) => met.name == name,
        _ => false,
    }
}

proof fn lemma_name_tallies(helper: HelperModel, name: Seq<char>, ty: DescriptorType)
    requires
        helper.options is FailIfCollide,
    ensures
        helper.collides(name) == taken(helper.names.dom(), name),
        helper.with_name(name, ty).names.dom() == helper.names.dom().insert(name),
{
    if helper.collides(name) {
        let k = choose|k: Seq<char>| #[trigger]
            helper.names.contains_key(k) && last_segment(k) == name;
        assert(helper.names.dom().contains(k));
    }
    if taken(helper.names.dom(), name) {
        let k = choose|k: Seq<char>| #[trigger]
            helper.names.dom().contains(k) && last_segment(k) == name;
        assert(helper.names.contains_key(k));
    }
    assert(helper.with_name(name, ty).names.dom() =~= helper.names.dom().insert(name));
}

proof fn lemma_enums_tally(st: ProtoState, enums: Seq<EnumDescriptor>)
    requires
        st.helper.options is FailIfCollide,
    ensures
        tallies(enums_added(st, enums), joined_names(st.helper.names.dom(), declared_enums(enums))),
    decreases enums.len(),
{
    if enums.len() > 0 {
        lemma_enums_tally(st, enums.drop_last());
        assert(declared_enums(enums).drop_last() =~= declared_enums(enums.drop_last()));
        if let Ok(before) = enums_added(st, enums.drop_last()) {
            lemma_name_tallies(before.helper, name_of(enums.last().name), DescriptorType::Enum);
        }
    }
}

proof fn lemma_message_tallies(st: ProtoState, m: MessageDescriptor)
    requires
        st.helper.options is FailIfCollide,
    ensures
        tallies(message_added(st, m), joined_names(st.helper.names.dom(), declared_message(m))),
    decreases m,
{
    let names = st.helper.names.dom();
    let name = name_of(m.name);
    lemma_name_tallies(st.helper, name, DescriptorType::Message);
    lemma_joined_one(names, name);
    lemma_joined_twice(
        names,
        seq![name],
        declared_enums(m.enum_type@) + declared_messages(m.nested_type@),
    );
    if let Ok(named) = st.with_name(name, DescriptorType::Message) {
        lemma_joined_twice(
            names.insert(name),
            declared_enums(m.enum_type@),
            declared_messages(m.nested_type@),
        );
        lemma_enums_tally(named, m.enum_type@);
        if let Ok(with_enums) = enums_added(named, m.enum_type@) {
            lemma_messages_tally(with_enums, m.nested_type@);
        }
    }
}

proof fn lemma_messages_tally(st: ProtoState, messages: Seq<MessageDescriptor>)
    requires
        st.helper.options is FailIfCollide,
    ensures
        tallies(
            messages_added(st, messages),
            joined_names(st.helper.names.dom(), declared_messages(messages)),
        ),
    decreases messages,
{
    if messages.len() > 0 {
        lemma_messages_tally(st, messages.drop_last());
        lemma_joined_twice(
            st.helper.names.dom(),
            declared_messages(messages.drop_last()),
            declared_message(messages.last()),
        );
        if let Ok(before) = messages_added(st, messages.drop_last()) {
            lemma_message_tallies(before, messages.last());
        }
    }
}

proof fn lemma_methods_tally(
    fields: Map<Seq<char>, FieldModel>,
    helper: HelperModel,
    service: Seq<char>,
    methods: Seq<MethodDescriptor>,
    gen: GeneratorModel,
    mutations: bool,
)
    requires
        helper.options is FailIfCollide,
    ensures
        tallies_fields(
            methods_added(fields, helper, service, methods, gen, mutations),
            joined_names(helper.names.dom(), declared_methods(methods, gen, mutations)),
        ),
    decreases methods.len(),
{
    if methods.len() > 0 {
        let rest = methods.drop_last();
        let name = name_of(methods.last().name);
        lemma_methods_tally(fields, helper, service, rest, gen, mutations);
        if (gen.mutates)(name) == mutations {
            let all = declared_methods(methods, gen, mutations);
            assert(all.drop_last() =~= declared_methods(rest, gen, mutations));
            if let Ok((before, names)) = methods_added(fields, helper, service, rest, gen, mutations) {
                lemma_name_tallies(names, name, DescriptorType::Method);
            }
        }
    }
}

proof fn lemma_services_tally(
    fields: Map<Seq<char>, FieldModel>,
    helper: HelperModel,
    services: Seq<ServiceDescriptor>,
    gen: GeneratorModel,
    mutations: bool,
)
    requires
        helper.options is FailIfCollide,
    ensures
        tallies_fields(
            services_added(fields, helper, services, gen, mutations),
            joined_names(helper.names.dom(), declared_services(services, gen, mutations)),
        ),
    decreases services.len(),
{
    if services.len() > 0 {
        let rest = services.drop_last();
        lemma_services_tally(fields, helper, rest, gen, mutations);
        lemma_joined_twice(
            helper.names.dom(),
            declared_services(rest, gen, mutations),
            declared_methods(services.last().method@, gen, mutations),
        );
        if let Ok((before, names)) = services_added(fields, helper, rest, gen, mutations) {
            lemma_methods_tally(
                before,
                names,
                name_of(services.last().name),
                services.last().method@,
                gen,
                mutations,
            );
        }
    }
}

proof fn lemma_root_tallies(
    st: ProtoState,
    services: Seq<ServiceDescriptor>,
    gen: GeneratorModel,
    mutations: bool,
)
    requires
        st.helper.options is FailIfCollide,
    ensures
        tallies(
            root_added(st, services, gen, mutations),
            joined_names(st.helper.names.dom(), declared_services(services, gen, mutations)),
        ),
{
    let key = if mutations {
        gen.mutation
    } else {
        gen.query
    };
    lemma_services_tally(
        type_or_blank(st.config.types, key).fields,
        st.helper,
        services,
        gen,
        mutations,
    );
}

proof fn lemma_file_tallies(
    st: ProtoState,
    file: FileDescriptor,
    gen: GeneratorModel,
)
    requires
        st.helper.options is FailIfCollide,
    ensures
        tallies(
            file_added(st, file, gen),
            joined_names(st.helper.names.dom(), declared_file(file, gen)),
        ),
{
    let names = st.helper.names.dom();
    let st = ProtoState { helper: st.helper.in_package(name_of(file.package)), ..st };
    let enums = declared_enums(file.enum_type@);
    let messages = declared_messages(file.message_type@);
    let queries = declared_services(file.service@, gen, false);
    let mutations = declared_services(file.service@, gen, true);
    lemma_joined_twice(names, enums, messages + (queries + mutations));
    lemma_enums_tally(st, file.enum_type@);
    if let Ok(with_enums) = enums_added(st, file.enum_type@) {
        let names = with_enums.helper.names.dom();
        lemma_joined_twice(names, messages, queries + mutations);
        lemma_messages_tally(with_enums, file.message_type@);
        if let Ok(with_messages) = messages_added(with_enums, file.message_type@) {
            lemma_joined_twice(with_messages.helper.names.dom(), queries, mutations);
            lemma_root_tallies(with_messages, file.service@, gen, false);
            if let Ok(with_queries) = root_added(with_messages, file.service@, gen, false) {
                lemma_root_tallies(with_queries, file.service@, gen, true);
            }
        }
    }
}

proof fn lemma_files_tally(
    st: ProtoState,
    files: Seq<FileDescriptor>,
    gen: GeneratorModel,
)
    requires
        st.helper.options is FailIfCollide,
    ensures
        tallies(
            files_added(st, files, gen),
            joined_names(st.helper.names.dom(), declared_files(files, gen)),
        ),
    decreases files.len(),
{
    if files.len() > 0 {
        lemma_files_tally(st, files.drop_last(), gen);
        lemma_joined_twice(
            st.helper.names.dom(),
            declared_files(files.drop_last(), gen),
            declared_file(files.last(), gen),
        );
        if let Ok(before) = files_added(st, files.drop_last(), gen) {
            lemma_file_tallies(before, files.last(), gen);
        }
    }
}

proof fn lemma_joined_from_none(names: Seq<Seq<char>>)
    ensures
        match joined_names(Set::empty(), names) {
            Ok(after) => {
                &&& forall|k: Seq<char>| #[trigger] after.contains(k) <==> names.contains(k)
                &&& forall|j: int| !repeats_at(names, j)
            },
            Err(name) => exists|j: int| #[trigger]
                repeats_at(names, j) && names[j] == name && forall|i: int|
                    i < j ==> !repeats_at(names, i),
        },
    decreases names.len(),
{
    if names.len() == 0 {
        assert(forall|k: Seq<char>| !names.contains(k));
    } else {
        let rest = names.drop_last();
        let last = names.len() - 1;
        lemma_joined_from_none(rest);
        assert forall|j: int| j < last implies repeats_at(rest, j) == repeats_at(names, j) by {
            if repeats_at(rest, j) {
                let i = choose|i: int| 0 <= i < j && last_segment(#[trigger] rest[i]) == rest[j];
                assert(names[i] == rest[i]);
            }
            if repeats_at(names, j) {
                let i = choose|i: int| 0 <= i < j && last_segment(#[trigger] names[i]) == names[j];
                assert(names[i] == rest[i]);
            }
        }
        match joined_names(Set::<Seq<char>>::empty(), rest) {
            Err(name) => {
                let j = choose|j: int| #[trigger]
                    repeats_at(rest, j) && rest[j] == name && forall|i: int|
                        i < j ==> !repeats_at(rest, i);
                assert(repeats_at(names, j));
                assert forall|i: int| i < j implies !repeats_at(names, i) by {
                    assert(!repeats_at(rest, i));
                }
            },
            Ok(before) => {
                assert(taken(before, names.last()) == repeats_at(names, last)) by {
                    if taken(before, names.last()) {
                        let k = choose|k: Seq<char>| #[trigger]
                            before.contains(k) && last_segment(k) == names.last();
                        assert(rest.contains(k));
                        let i = choose|i: int| 0 <= i < rest.len() && rest[i] == k;
                        assert(last_segment(names[i]) == names[last]);
                    }
                    if repeats_at(names, last) {
                        let i = choose|i: int|
                            0 <= i < last && last_segment(#[trigger] names[i]) == names[last];
                        assert(rest[i] == names[i]);
                        assert(before.contains(rest[i]));
                    }
                }
                assert forall|i: int| i < last implies !repeats_at(names, i) by {
                    assert(!repeats_at(rest, i));
                }
                if !taken(before, names.last()) {
                    let after = before.insert(names.last());
                    assert forall|k: Seq<char>| #[trigger] after.contains(k) <==> names.contains(k) by {
                        if names.contains(k) {
                            let i = choose|i: int| 0 <= i < names.len() && names[i] == k;
                            if i < last {
                                assert(rest[i] == k);
                                assert(rest.contains(k));
                            }
                        }
                        if rest.contains(k) {
                            let i = choose|i: int| 0 <= i < rest.len() && rest[i] == k;
                            assert(names[i] == k);
                        }
                        if k == names.last() {
                            assert(names[last] == k);
                        }
                    }
                }
            },
        }
    }
}

/// Where collisions fail, a configuration is made exactly where no name that the files declare is
/// the last segment of one declared before it; else the first such name is reported.
pub proof fn law_collisions_fail(
    files: Seq<FileDescriptor>,
    gen: GeneratorModel,
)
    ensures
        match made_from(files, gen, OptionsModel::FailIfCollide) {
            Ok(_) => forall|j: int| !repeats_at(declared_files(files, gen), j),
            Err(met) => exists|j: int| #[trigger]
                repeats_at(declared_files(files, gen), j) && declared_files(files, gen)[j] == met.name
                    && forall|i: int| i < j ==> !repeats_at(declared_files(files, gen), i),
        },
{
    let start = nothing_made(OptionsModel::FailIfCollide);
    lemma_files_tally(start, files, gen);
    assert(start.helper.names.dom() =~= Set::empty());
    lemma_joined_from_none(declared_files(files, gen));
}

/// Whether names can be added without end.
pub open spec fn lenient(options: OptionsModel) -> bool {
    !(options is FailIfCollide)
}

proof fn lemma_enums_never_fail(st: ProtoState, enums: Seq<EnumDescriptor>)
    requires
        lenient(st.helper.options),
    ensures
        enums_added(st, enums) matches Ok(after) && lenient(after.helper.options),
    decreases enums.len(),
{
    if enums.len() > 0 {
        lemma_enums_never_fail(st, enums.drop_last());
    }
}

proof fn lemma_message_never_fails(st: ProtoState, m: MessageDescriptor)
    requires
        lenient(st.helper.options),
    ensures
        message_added(st, m) matches Ok(after) && lenient(after.helper.options),
    decreases m,
{
    if let Ok(named) = st.with_name(name_of(m.name), DescriptorType::Message) {
        lemma_enums_never_fail(named, m.enum_type@);
        if let Ok(with_enums) = enums_added(named, m.enum_type@) {
            lemma_messages_never_fail(with_enums, m.nested_type@);
        }
    }
}

proof fn lemma_messages_never_fail(st: ProtoState, messages: Seq<MessageDescriptor>)
    requires
        lenient(st.helper.options),
    ensures
        messages_added(st, messages) matches Ok(after) && lenient(after.helper.options),
    decreases messages,
{
    if messages.len() > 0 {
        lemma_messages_never_fail(st, messages.drop_last());
        if let Ok(before) = messages_added(st, messages.drop_last()) {
            lemma_message_never_fails(before, messages.last());
        }
    }
}

proof fn lemma_methods_never_fail(
    fields: Map<Seq<char>, FieldModel>,
    helper: HelperModel,
    service: Seq<char>,
    methods: Seq<MethodDescriptor>,
    gen: GeneratorModel,
    mutations: bool,
)
    requires
        lenient(helper.options),
    ensures
        methods_added(fields, helper, service, methods, gen, mutations) matches Ok(after) && lenient(
            after.1.options,
        ),
    decreases methods.len(),
{
    if methods.len() > 0 {
        lemma_methods_never_fail(fields, helper, service, methods.drop_last(), gen, mutations);
    }
}

proof fn lemma_services_never_fail(
    fields: Map<Seq<char>, FieldModel>,
    helper: HelperModel,
    services: Seq<ServiceDescriptor>,
    gen: GeneratorModel,
    mutations: bool,
)
    requires
        lenient(helper.options),
    ensures
        services_added(fields, helper, services, gen, mutations) matches Ok(after) && lenient(
            after.1.options,
        ),
    decreases services.len(),
{
    if services.len() > 0 {
        lemma_services_never_fail(fields, helper, services.drop_last(), gen, mutations);
        if let Ok((before, names)) = services_added(
            fields,
            helper,
            services.drop_last(),
            gen,
            mutations,
        ) {
            lemma_methods_never_fail(
                before,
                names,
                name_of(services.last().name),
                services.last().method@,
                gen,
                mutations,
            );
        }
    }
}

proof fn lemma_root_never_fails(
    st: ProtoState,
    services: Seq<ServiceDescriptor>,
    gen: GeneratorModel,
    mutations: bool,
)
    requires
        lenient(st.helper.options),
    ensures
        root_added(st, services, gen, mutations) matches Ok(after) && lenient(after.helper.options),
{
    let key = if mutations {
        gen.mutation
    } else {
        gen.query
    };
    lemma_services_never_fail(
        type_or_blank(st.config.types, key).fields,
        st.helper,
        services,
        gen,
        mutations,
    );
}

proof fn lemma_files_never_fail(
    st: ProtoState,
    files: Seq<FileDescriptor>,
    gen: GeneratorModel,
)
    requires
        lenient(st.helper.options),
    ensures
        files_added(st, files, gen) matches Ok(after) && lenient(after.helper.options),
    decreases files.len(),
{
    if files.len() > 0 {
        lemma_files_never_fail(st, files.drop_last(), gen);
        if let Ok(before) = files_added(st, files.drop_last(), gen) {
            let file = files.last();
            let moved = ProtoState {
                helper: before.helper.in_package(name_of(file.package)),
                ..before
            };
            lemma_enums_never_fail(moved, file.enum_type@);
            if let Ok(with_enums) = enums_added(moved, file.enum_type@) {
                lemma_messages_never_fail(with_enums, file.message_type@);
                if let Ok(with_messages) = messages_added(with_enums, file.message_type@) {
                    lemma_root_never_fails(with_messages, file.service@, gen, false);
                    if let Ok(with_queries) = root_added(with_messages, file.service@, gen, false) {
                        lemma_root_never_fails(with_queries, file.service@, gen, true);
                    }
                }
            }
        }
    }
}

/// Where names are merged or told apart by their package, a configuration is made of any files.
pub proof fn law_others_never_fail(
    files: Seq<FileDescriptor>,
    gen: GeneratorModel,
    options: OptionsModel,
)
    requires
        !(options is FailIfCollide),
    ensures
        made_from(files, gen, options) is Ok,
{
    lemma_files_never_fail(nothing_made(options), files, gen);
}

/// It does not matter how the files are spread over sets: what is made of the sets is what is made
/// of one set that holds the same files in the same order.
pub proof fn law_sets_do_not_matter(
    sets: Seq<FileDescriptorSet>,
    one: FileDescriptorSet,
    gen: GeneratorModel,
    options: OptionsModel,
)
    requires
        one.file@ == all_files(sets),
    ensures
        made_from(all_files(sets), gen, options) == made_from(all_files(seq![one]), gen, options),
{
    assert(seq![one].drop_last() =~= Seq::empty());
    assert(all_files(seq![one].drop_last()) =~= Seq::empty());
    assert(all_files(seq![one]) =~= one.file@);
}

/// Every method of a service is counted once, as a query or as a mutation, by what the generator
/// says of its name.
pub proof fn law_methods_are_split(methods: Seq<MethodDescriptor>, gen: GeneratorModel)
    ensures
        declared_methods(methods, gen, false).len() + declared_methods(methods, gen, true).len()
            == methods.len(),
        forall|i: int|
            0 <= i < declared_methods(methods, gen, false).len() ==> !(gen.mutates)(
                #[trigger] declared_methods(methods, gen, false)[i],
            ),
        forall|i: int|
            0 <= i < declared_methods(methods, gen, true).len() ==> (gen.mutates)(
                #[trigger] declared_methods(methods, gen, true)[i],
            ),
        forall|i: int|
            0 <= i < methods.len() ==> declared_methods(
                methods,
                gen,
                (gen.mutates)(name_of((#[trigger] methods[i]).name)),
            ).contains(name_of(methods[i].name)),
    decreases methods.len(),
{
    if methods.len() > 0 {
        let rest = methods.drop_last();
        law_methods_are_split(rest, gen);
        assert forall|i: int| 0 <= i < methods.len() implies declared_methods(
            methods,
            gen,
            (gen.mutates)(name_of((#[trigger] methods[i]).name)),
        ).contains(name_of(methods[i].name)) by {
            let name = name_of(methods[i].name);
            let all = declared_methods(methods, gen, (gen.mutates)(name));
            if i < rest.len() {
                let before = declared_methods(rest, gen, (gen.mutates)(name));
                assert(rest[i] == methods[i]);
                assert(before.contains(name));
                let k = choose|k: int| 0 <= k < before.len() && before[k] == name;
                assert(all[k] == name);
            } else {
                assert(all[all.len() - 1] == name);
            }
        }
    }
}

proof fn lemma_no_methods(
    fields: Map<Seq<char>, FieldModel>,
    helper: HelperModel,
    service: Seq<char>,
    methods: Seq<MethodDescriptor>,
    gen: GeneratorModel,
    mutations: bool,
)
    requires
        declared_methods(methods, gen, mutations).len() == 0,
    ensures
        methods_added(fields, helper, service, methods, gen, mutations) == Fields::Ok((fields, helper)),
    decreases methods.len(),
{
    if methods.len() > 0 {
        lemma_no_methods(fields, helper, service, methods.drop_last(), gen, mutations);
    }
}

proof fn lemma_no_services(
    fields: Map<Seq<char>, FieldModel>,
    helper: HelperModel,
    services: Seq<ServiceDescriptor>,
    gen: GeneratorModel,
    mutations: bool,
)
    requires
        declared_services(services, gen, mutations).len() == 0,
    ensures
        services_added(fields, helper, services, gen, mutations) == Fields::Ok((fields, helper)),
    decreases services.len(),
{
    if services.len() > 0 {
        lemma_no_services(fields, helper, services.drop_last(), gen, mutations);
        lemma_no_methods(
            fields,
            helper,
            name_of(services.last().name),
            services.last().method@,
            gen,
            mutations,
        );
    }
}

/// Adding the queries of services, or their mutations, changes no type but the root type for them,
/// and nothing of the other root. A collision leaves the configuration as it was, and so do services
/// that have no method of that sort where there is no type in the place of the root type.
pub proof fn law_services_change_their_root_only(
    st: ProtoState,
    services: Seq<ServiceDescriptor>,
    gen: GeneratorModel,
    mutations: bool,
)
    ensures
        match root_added(st, services, gen, mutations) {
            Err(met) => met.state.config == st.config,
            Ok(after) => {
                let key = if mutations {
                    gen.mutation
                } else {
                    gen.query
                };
                &&& after.config.types.remove(key) == st.config.types.remove(key)
                &&& mutations ==> after.config.query == st.config.query
                &&& !mutations ==> after.config.mutation == st.config.mutation
                &&& declared_services(services, gen, mutations).len() == 0
                    && !st.config.types.contains_key(key) ==> after == st
            },
        },
{
    let key = if mutations {
        gen.mutation
    } else {
        gen.query
    };
    if let Ok(after) = root_added(st, services, gen, mutations) {
        assert(after.config.types.remove(key) =~= st.config.types.remove(key));
        if declared_services(services, gen, mutations).len() == 0 && !st.config.types.contains_key(key) {
            lemma_no_services(
                type_or_blank(st.config.types, key).fields,
                st.helper,
                services,
                gen,
                mutations,
            );
        }
    }
}

} // verus!
