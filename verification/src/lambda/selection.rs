//! Selection sets written out for an upstream.
use vstd::prelude::*;
use vstd::string::*;

use crate::lambda::evaluation_context::EvaluationContext;
use crate::lambda::resolver_context::{ResolverContextLike, SelectionField};
use crate::string_map::StringMap;
use crate::text;
use crate::text::{joined, law_joined, views};
use crate::value::{shown, Value};

verus! {

/// What an upstream knows of the types: which fields it can be asked for, and which identifiers it
/// must always be asked for.
pub struct SelectionSetFilterData {
    /// By the address of the upstream and the name of the type, the fields of the type, each with
    /// the name of its own type.
    pub url_obj_fields: StringMap<StringMap<Vec<(String, String)>>>,
    /// The type whose selection is written.
    pub field_type: String,
    /// The address of the upstream.
    pub url: String,
    /// The identifiers of each type, by the address of the upstream that needs them.
    pub url_obj_ids: Vec<(String, StringMap<Vec<String>>)>,
}

/// The type of the first field called `name`.
pub open spec fn type_in(fields: Seq<(String, String)>, name: Seq<char>) -> Option<Seq<char>>
    decreases fields.len(),
{
    if fields.len() == 0 {
        None
    } else if fields[0].0@ == name {
        Some(fields[0].1@)
    } else {
        type_in(fields.skip(1), name)
    }
}

/// The type of the field `name` of the type `ty`, where the upstream can be asked for it.
pub open spec fn known_type(
    filter: SelectionSetFilterData,
    ty: Seq<char>,
    name: Seq<char>,
) -> Option<Seq<char>> {
    let by_url = filter.url_obj_fields@;
    if !by_url.contains_key(filter.url@) {
        None
    } else {
        let by_type = by_url[filter.url@]@;
        if !by_type.contains_key(ty) {
            None
        } else {
            type_in(by_type[ty]@, name)
        }
    }
}

/// The identifiers of the type `ty`, over all upstreams in turn.
pub open spec fn identifiers(
    by_url: Seq<(String, StringMap<Vec<String>>)>,
    ty: Seq<char>,
) -> Seq<Seq<char>>
    decreases by_url.len(),
{
    if by_url.len() == 0 {
        Seq::empty()
    } else {
        let ids = by_url.last().1@;
        identifiers(by_url.drop_last(), ty) + if ids.contains_key(ty) {
            views(ids[ty]@)
        } else {
            Seq::empty()
        }
    }
}

/// The arguments written one by one.
pub open spec fn shown_arguments(arguments: Seq<(String, Value)>) -> Seq<Seq<char>> {
    arguments.map_values(|a: (String, Value)| a.0@ + ": "@ + shown(a.1@))
}

/// The arguments of a field in brackets; nothing where there are none, or where they could not be
/// resolved.
pub open spec fn arguments_text(field: SelectionField) -> Seq<char> {
    match field.arguments {
        Some(arguments) => if arguments@.len() == 0 {
            ""@
        } else {
            "("@ + joined(shown_arguments(arguments@), ","@) + ")"@
        },
        None => ""@,
    }
}

/// Parts written as a selection set: `None` where there is no part.
pub open spec fn braced(parts: Seq<Seq<char>>) -> Option<Seq<char>> {
    if parts.len() == 0 {
        None
    } else {
        Some("{ "@ + joined(parts, " "@) + " }"@)
    }
}

/// A field with its arguments and, where it has one, its selection set.
pub open spec fn field_text(field: SelectionField, set: Option<Seq<char>>) -> Seq<char> {
    match set {
        Some(text) => field.name@ + arguments_text(field) + " "@ + text,
        None => field.name@ + arguments_text(field),
    }
}

/// Each of the fields written in full.
pub open spec fn unfiltered_parts(fields: Seq<SelectionField>) -> Seq<Seq<char>>
    decreases fields,
{
    if fields.len() == 0 {
        Seq::empty()
    } else {
        let field = fields.last();
        unfiltered_parts(fields.drop_last()).push(
            field_text(field, braced(unfiltered_parts(field.selection_set@))),
        )
    }
}

/// Each of the fields that the upstream knows in the type `ty`, written with what it knows below.
pub open spec fn filtered_parts(
    fields: Seq<SelectionField>,
    filter: SelectionSetFilterData,
    ty: Seq<char>,
) -> Seq<Seq<char>>
    decreases fields,
{
    if fields.len() == 0 {
        Seq::empty()
    } else {
        let field = fields.last();
        let before = filtered_parts(fields.drop_last(), filter, ty);
        match known_type(filter, ty, field.name@) {
            None => before,
            Some(below) => before.push(
                field_text(
                    field,
                    braced(
                        with_identifiers(
                            filtered_parts(field.selection_set@, filter, below),
                            filter,
                            below,
                        ),
                    ),
                ),
            ),
        }
    }
}

/// The parts followed by the identifiers of the type, where there is a part at all.
pub open spec fn with_identifiers(
    parts: Seq<Seq<char>>,
    filter: SelectionSetFilterData,
    ty: Seq<char>,
) -> Seq<Seq<char>> {
    if parts.len() == 0 {
        parts
    } else {
        parts + identifiers(filter.url_obj_ids@, ty)
    }
}

/// A selection set in full.
pub open spec fn unfiltered_set(fields: Seq<SelectionField>) -> Option<Seq<char>> {
    braced(unfiltered_parts(fields))
}

/// A selection set cut down to what the upstream knows in the type `ty`.
pub open spec fn filtered_set(
    fields: Seq<SelectionField>,
    filter: SelectionSetFilterData,
    ty: Seq<char>,
) -> Option<Seq<char>> {
    braced(with_identifiers(filtered_parts(fields, filter, ty), filter, ty))
}

/// Relates an optional string to its contents.
pub open spec fn option_text(s: Option<String>) -> Option<Seq<char>> {
    match s {
        Some(text) => Some(text@),
        None => None,
    }
}

/// Writes parts as a selection set.
fn write_braced(parts: &Vec<String>) -> (res: Option<String>)
    ensures
        option_text(res) == braced(views(parts@)),
{
    if parts.len() == 0 {
        return None;
    }
    let mut res = "{ ".to_string();
    res.append(text::join(parts, " ").as_str());
    res.append(" }");
    Some(res)
}

proof fn lemma_views_push(strings: Seq<String>, s: String)
    ensures
        views(strings.push(s)) == views(strings).push(s@),
{
    assert(views(strings.push(s)) =~= views(strings).push(s@));
}

/// Writes the arguments of a field.
fn format_selection_field_arguments(field: &SelectionField) -> (res: String)
    ensures
        res@ == arguments_text(*field),
{
    match &field.arguments {
        None => "".to_string(),
        Some(arguments) => {
            if arguments.len() == 0 {
                return "".to_string();
            }
            let mut parts: Vec<String> = Vec::new();
            let ghost all = shown_arguments(arguments@);
            for i in 0..arguments.len()
                invariant
                    all == shown_arguments(arguments@),
                    views(parts@) == all.take(i as int),
            {
                let mut part = arguments[i].0.clone();
                part.append(": ");
                part.append(arguments[i].1.to_string().as_str());
                proof {
                    lemma_views_push(parts@, part);
                    assert(all.take(i + 1) =~= all.take(i as int).push(part@));
                }
                parts.push(part);
            }
            proof {
                assert(all.take(arguments.len() as int) =~= all);
            }
            let mut res = "(".to_string();
            res.append(text::join(&parts, ",").as_str());
            res.append(")");
            res
        },
    }
}

/// Writes a field whose selection set is written already.
fn write_field(field: &SelectionField, set: Option<String>) -> (res: String)
    ensures
        res@ == field_text(*field, option_text(set)),
{
    let mut res = field.name.clone();
    res.append(format_selection_field_arguments(field).as_str());
    if let Some(set) = set {
        res.append(" ");
        res.append(set.as_str());
    }
    res
}

/// Writes a selection set in full.
pub fn format_selection_set_unfiltered(selection_set: &Vec<SelectionField>) -> (res: Option<String>)
    ensures
        option_text(res) == unfiltered_set(selection_set@),
    decreases selection_set,
{
    let mut parts: Vec<String> = Vec::new();
    for i in 0..selection_set.len()
        invariant
            views(parts@) == unfiltered_parts(selection_set@.take(i as int)),
        decreases selection_set.len() - i,
    {
        let field = &selection_set[i];
        assert(decreases_to!(selection_set => selection_set@));
        assert(decreases_to!(selection_set@ => selection_set@[i as int]));
        assert(decreases_to!(field => field.selection_set));
        let part = format_selection_field_unfiltered(field);
        proof {
            let next = selection_set@.take(i + 1);
            assert(next.drop_last() =~= selection_set@.take(i as int));
            assert(next.last() == *field);
            lemma_views_push(parts@, part);
        }
        parts.push(part);
    }
    proof {
        assert(selection_set@.take(selection_set.len() as int) =~= selection_set@);
    }
    write_braced(&parts)
}

/// Writes a field in full.
fn format_selection_field_unfiltered(field: &SelectionField) -> (res: String)
    ensures
        res@ == field_text(*field, unfiltered_set(field.selection_set@)),
    decreases field,
{
    let set = format_selection_set_unfiltered(&field.selection_set);
    write_field(field, set)
}

/// Looks up the type of a field.
fn find_known_type<'a>(filter: &'a SelectionSetFilterData, ty: &str, name: &str) -> (res: Option<
    &'a String,
>)
    ensures
        known_type(*filter, ty@, name@) == match res {
            Some(s) => Some(s@),
            None => None,
        },
{
    let fields = match filter.url_obj_fields.get(filter.url.as_str()) {
        None => {
            return None;
        },
        Some(by_type) => match by_type.get(ty) {
            None => {
                return None;
            },
            Some(fields) => fields,
        },
    };
    proof {
        assert(fields@.skip(0) =~= fields@);
    }
    for i in 0..fields.len()
        invariant
            type_in(fields@, name@) == type_in(fields@.skip(i as int), name@),
            known_type(*filter, ty@, name@) == type_in(fields@, name@),
    {
        if text::same(fields[i].0.as_str(), name) {
            return Some(&fields[i].1);
        }
        proof {
            assert(fields@.skip(i as int).skip(1) =~= fields@.skip(i + 1));
        }
    }
    None
}

/// Adds the identifiers of a type to the parts.
fn extend_with_identifiers(
    parts: &mut Vec<String>,
    by_url: &Vec<(String, StringMap<Vec<String>>)>,
    ty: &str,
)
    ensures
        views(final(parts)@) == views(old(parts)@) + identifiers(by_url@, ty@),
{
    let ghost first = views(parts@);
    for i in 0..by_url.len()
        invariant
            views(parts@) == first + identifiers(by_url@.take(i as int), ty@),
    {
        let ghost sofar = views(parts@);
        let ghost ids_map = by_url@[i as int].1@;
        proof {
            assert(by_url@.take(i + 1).drop_last() =~= by_url@.take(i as int));
        }
        if let Some(ids) = by_url[i].1.get(ty) {
            proof {
                assert(views(ids@).take(0) =~= Seq::empty());
                assert(sofar + Seq::empty() =~= sofar);
            }
            for k in 0..ids.len()
                invariant
                    views(parts@) == sofar + views(ids@).take(k as int),
            {
                let id = ids[k].clone();
                proof {
                    lemma_views_push(parts@, id);
                    assert(sofar + views(ids@).take(k + 1) =~= (sofar + views(ids@).take(
                        k as int,
                    )).push(id@));
                }
                parts.push(id);
            }
            proof {
                assert(views(ids@).take(ids@.len() as int) =~= views(ids@));
                assert(first + (identifiers(by_url@.take(i as int), ty@) + views(ids@))
                    =~= sofar + views(ids@));
            }
        } else {
            proof {
                assert(identifiers(by_url@.take(i as int), ty@) + Seq::empty() =~= identifiers(
                    by_url@.take(i as int),
                    ty@,
                ));
            }
        }
    }
    proof {
        assert(by_url@.take(by_url@.len() as int) =~= by_url@);
    }
}

/// Writes a selection set cut down to what the upstream knows of the type `ty`.
pub fn format_selection_set(
    selection_set: &Vec<SelectionField>,
    filter: &SelectionSetFilterData,
    ty: &str,
) -> (res: Option<String>)
    ensures
        option_text(res) == filtered_set(selection_set@, *filter, ty@),
    decreases selection_set,
{
    let mut parts: Vec<String> = Vec::new();
    for i in 0..selection_set.len()
        invariant
            views(parts@) == filtered_parts(selection_set@.take(i as int), *filter, ty@),
        decreases selection_set.len() - i,
    {
        let field = &selection_set[i];
        proof {
            let next = selection_set@.take(i + 1);
            assert(next.drop_last() =~= selection_set@.take(i as int));
            assert(next.last() == *field);
        }
        if let Some(below) = find_known_type(filter, ty, field.name.as_str()) {
            assert(decreases_to!(selection_set => selection_set@));
            assert(decreases_to!(selection_set@ => selection_set@[i as int]));
            assert(decreases_to!(field => field.selection_set));
            let part = format_selection_field(field, filter, below.as_str());
            proof {
                lemma_views_push(parts@, part);
            }
            parts.push(part);
        }
    }
    proof {
        assert(selection_set@.take(selection_set.len() as int) =~= selection_set@);
    }
    if parts.len() > 0 {
        extend_with_identifiers(&mut parts, &filter.url_obj_ids, ty);
    }
    write_braced(&parts)
}

/// Writes a field of the type `ty` with what the upstream knows below it.
fn format_selection_field(field: &SelectionField, filter: &SelectionSetFilterData, ty: &str) -> (res:
    String)
    ensures
        res@ == field_text(*field, filtered_set(field.selection_set@, *filter, ty@)),
    decreases field,
{
    let set = format_selection_set(&field.selection_set, filter, ty);
    write_field(field, set)
}

/// What is written of the selection set of a field, if a field is selected at all.
pub open spec fn operation_set(
    field: Option<SelectionField>,
    filter: Option<SelectionSetFilterData>,
    filtered: bool,
) -> Option<Seq<char>> {
    match field {
        None => None,
        Some(selected) => match filter {
            Some(data) => if filtered {
                filtered_set(selected.selection_set@, data, data.field_type@)
            } else {
                unfiltered_set(selected.selection_set@)
            },
            None => unfiltered_set(selected.selection_set@),
        },
    }
}

impl<'a, Ctx: ResolverContextLike> EvaluationContext<'a, Ctx> {
    /// Writes the selection set of the field that is resolved. It is cut down to what an upstream
    /// knows where that is asked for and the upstream is given, and written in full where not.
    pub fn selection_set(
        &self,
        selection_set_filter: Option<&SelectionSetFilterData>,
        filter_selection_set: bool,
    ) -> (res: Option<String>)
        ensures
            option_text(res) == operation_set(
                self.graphql_ctx.selected(),
                match selection_set_filter {
                    Some(data) => Some(*data),
                    None => None,
                },
                filter_selection_set,
            ),
    {
        let field = match self.graphql_ctx.field() {
            None => {
                return None;
            },
            Some(field) => field,
        };
        match selection_set_filter {
            Some(data) => {
                if filter_selection_set {
                    format_selection_set(&field.selection_set, data, data.field_type.as_str())
                } else {
                    format_selection_set_unfiltered(&field.selection_set)
                }
            },
            None => format_selection_set_unfiltered(&field.selection_set),
        }
    }
}

/// Nothing is asked of an upstream that knows none of the selected fields, not even identifiers.
pub proof fn law_unknown_fields_select_nothing(
    fields: Seq<SelectionField>,
    filter: SelectionSetFilterData,
    ty: Seq<char>,
)
    requires
        forall|i: int|
            0 <= i < fields.len() ==> known_type(filter, ty, (#[trigger] fields[i]).name@) is None,
    ensures
        filtered_set(fields, filter, ty) is None,
{
    lemma_unknown_fields(fields, filter, ty);
}

proof fn lemma_unknown_fields(
    fields: Seq<SelectionField>,
    filter: SelectionSetFilterData,
    ty: Seq<char>,
)
    requires
        forall|i: int|
            0 <= i < fields.len() ==> known_type(filter, ty, (#[trigger] fields[i]).name@) is None,
    ensures
        filtered_parts(fields, filter, ty) == Seq::<Seq<char>>::empty(),
    decreases fields.len(),
{
    if fields.len() > 0 {
        assert(fields[fields.len() - 1] == fields.last());
        assert forall|i: int| 0 <= i < fields.drop_last().len() implies known_type(
            filter,
            ty,
            (#[trigger] fields.drop_last()[i]).name@,
        ) is None by {
            assert(fields.drop_last()[i] == fields[i]);
        }
        lemma_unknown_fields(fields.drop_last(), filter, ty);
    }
}

/// The text of a field, with a selection set below it or without one, is its name followed at once
/// by its arguments in brackets where it has arguments, and then by the selection set where there
/// is one.
pub proof fn law_field_is_name_and_arguments(field: SelectionField, set: Option<Seq<char>>)
    ensures
        field_text(field, set) == field.name@ + (match field.arguments {
            Some(arguments) => if arguments@.len() > 0 {
                "("@ + joined(
                    Seq::new(
                        arguments@.len(),
                        |i: int| arguments@[i].0@ + ": "@ + shown(arguments@[i].1@),
                    ),
                    ","@,
                ) + ")"@
            } else {
                Seq::empty()
            },
            None => Seq::empty(),
        }) + (match set {
            Some(text) => seq![' '] + text,
            None => Seq::empty(),
        }),
{
    reveal_strlit("");
    reveal_strlit(" ");
    assert(""@ =~= Seq::<char>::empty());
    assert(" "@ =~= seq![' ']);
    if let Some(arguments) = field.arguments {
        assert(shown_arguments(arguments@) =~= Seq::new(
            arguments@.len(),
            |i: int| arguments@[i].0@ + ": "@ + shown(arguments@[i].1@),
        ));
    }
    let head = field.name@ + arguments_text(field);
    assert(head + Seq::<char>::empty() =~= head);
    if let Some(text) = set {
        assert(head + (seq![' '] + text) =~= head + " "@ + text);
    }
}

/// A selection set of no fields is none. One of a single field is that field in braces: its name, its
/// arguments in brackets where it has arguments, and its own selection set where it has one.
pub proof fn law_one_field_in_full(field: SelectionField)
    ensures
        unfiltered_set(Seq::empty()) is None,
        unfiltered_set(seq![field]) == Some(
            "{ "@ + (field.name@ + (match field.arguments {
                Some(arguments) => if arguments@.len() > 0 {
                    "("@ + joined(
                        Seq::new(
                            arguments@.len(),
                            |i: int| arguments@[i].0@ + ": "@ + shown(arguments@[i].1@),
                        ),
                        ","@,
                    ) + ")"@
                } else {
                    Seq::empty()
                },
                None => Seq::empty(),
            }) + (match unfiltered_set(field.selection_set@) {
                Some(text) => seq![' '] + text,
                None => Seq::empty(),
            })) + " }"@,
        ),
{
    reveal_with_fuel(unfiltered_parts, 2);
    let fields = seq![field];
    assert(fields.drop_last() =~= Seq::empty());
    assert(fields.last() == field);
    let text = field_text(field, unfiltered_set(field.selection_set@));
    law_field_is_name_and_arguments(field, unfiltered_set(field.selection_set@));
    assert(unfiltered_parts(fields) =~= seq![text]);
    law_joined(seq![text], seq![text], text, " "@);
}

proof fn lemma_unfiltered_parts_join(a: Seq<SelectionField>, b: Seq<SelectionField>)
    ensures
        unfiltered_parts(a + b) == unfiltered_parts(a) + unfiltered_parts(b),
        unfiltered_parts(a).len() == a.len(),
    decreases a.len() + b.len(),
{
    if b.len() > 0 {
        assert((a + b).drop_last() =~= a + b.drop_last());
        assert((a + b).last() == b.last());
        lemma_unfiltered_parts_join(a, b.drop_last());
        assert(unfiltered_parts(a + b) =~= unfiltered_parts(a) + unfiltered_parts(b));
    } else {
        assert(a + b =~= a);
        assert(unfiltered_parts(a) + unfiltered_parts(b) =~= unfiltered_parts(a));
        if a.len() > 0 {
            lemma_unfiltered_parts_join(a.drop_last(), b);
        }
    }
}

proof fn lemma_braced_join(a: Seq<Seq<char>>, b: Seq<Seq<char>>)
    requires
        a.len() > 0,
        b.len() > 0,
    ensures
        braced(a) is Some,
        braced(b) is Some,
        braced(a)->0.len() >= 4,
        braced(b)->0.len() >= 4,
        braced(a + b) == Some(braced(a)->0.drop_last() + braced(b)->0.skip(2)),
{
    law_joined(a, b, Seq::empty(), " "@);
    reveal_strlit("{ ");
    reveal_strlit(" }");
    reveal_strlit(" ");
    assert(" }"@ =~= " "@ + seq!['}']);
    let p = joined(a, " "@);
    let q = joined(b, " "@);
    assert(("{ "@ + p + " }"@).drop_last() =~= "{ "@ + p + " "@);
    assert(("{ "@ + q + " }"@).skip(2) =~= q + " }"@);
    assert("{ "@ + (p + " "@ + q) + " }"@ =~= "{ "@ + p + " "@ + (q + " }"@));
}

/// Fields that stand behind others in a selection set are written behind them: where two selection
/// sets become one, the brace that closes the first and the one that opens the second fall away.
pub proof fn law_sets_in_full_join(a: Seq<SelectionField>, b: Seq<SelectionField>)
    requires
        a.len() > 0,
        b.len() > 0,
    ensures
        unfiltered_set(a) is Some,
        unfiltered_set(b) is Some,
        unfiltered_set(a + b) == Some(
            unfiltered_set(a)->0.drop_last() + unfiltered_set(b)->0.skip(2),
        ),
{
    lemma_unfiltered_parts_join(a, b);
    lemma_unfiltered_parts_join(b, a);
    lemma_braced_join(unfiltered_parts(a), unfiltered_parts(b));
}

/// An upstream knows a field of a type exactly where the fields of that type, at its address, hold
/// one of that name; the type of the field is the one given with the first of them.
pub proof fn law_known_type(filter: SelectionSetFilterData, ty: Seq<char>, name: Seq<char>)
    ensures
        known_type(filter, ty, name) is Some ==> filter.url_obj_fields@.contains_key(filter.url@)
            && filter.url_obj_fields@[filter.url@]@.contains_key(ty),
        filter.url_obj_fields@.contains_key(filter.url@)
            && filter.url_obj_fields@[filter.url@]@.contains_key(ty) ==> {
            let fields = filter.url_obj_fields@[filter.url@]@[ty]@;
            &&& forall|i: int|
                0 <= i < fields.len() && (#[trigger] fields[i]).0@ == name && (forall|j: int|
                    0 <= j < i ==> (#[trigger] fields[j]).0@ != name) ==> known_type(filter, ty, name)
                    == Some(fields[i].1@)
            &&& (forall|i: int| 0 <= i < fields.len() ==> (#[trigger] fields[i]).0@ != name)
                ==> known_type(filter, ty, name) is None
        },
{
    if filter.url_obj_fields@.contains_key(filter.url@)
        && filter.url_obj_fields@[filter.url@]@.contains_key(ty) {
        lemma_type_in(filter.url_obj_fields@[filter.url@]@[ty]@, name);
    }
}

proof fn lemma_type_in(fields: Seq<(String, String)>, name: Seq<char>)
    ensures
        forall|i: int|
            0 <= i < fields.len() && (#[trigger] fields[i]).0@ == name && (forall|j: int|
                0 <= j < i ==> (#[trigger] fields[j]).0@ != name) ==> type_in(fields, name) == Some(
                fields[i].1@,
            ),
        (forall|i: int| 0 <= i < fields.len() ==> (#[trigger] fields[i]).0@ != name) ==> type_in(
            fields,
            name,
        ) is None,
    decreases fields.len(),
{
    if fields.len() > 0 && fields[0].0@ != name {
        let rest = fields.skip(1);
        lemma_type_in(rest, name);
        assert forall|i: int|
            0 <= i < fields.len() && (#[trigger] fields[i]).0@ == name && (forall|j: int|
                0 <= j < i ==> (#[trigger] fields[j]).0@ != name) implies type_in(fields, name) == Some(
            fields[i].1@,
        ) by {
            assert(rest[i - 1] == fields[i]);
            assert forall|j: int| 0 <= j < i - 1 implies (#[trigger] rest[j]).0@ != name by {
                assert(rest[j] == fields[j + 1]);
            }
        }
        if forall|i: int| 0 <= i < fields.len() ==> (#[trigger] fields[i]).0@ != name {
            assert forall|i: int| 0 <= i < rest.len() implies (#[trigger] rest[i]).0@ != name by {
                assert(rest[i] == fields[i + 1]);
            }
        }
    } else if fields.len() > 0 {
        assert forall|i: int|
            0 <= i < fields.len() && (#[trigger] fields[i]).0@ == name && (forall|j: int|
                0 <= j < i ==> (#[trigger] fields[j]).0@ != name) implies i == 0 by {
            if i > 0 {
                assert(fields[0].0@ == name);
            }
        }
    }
}

/// The identifiers of a type are those that each upstream has for it, whatever its address, one
/// upstream after the other.
pub proof fn law_identifiers_of_all_upstreams(
    a: Seq<(String, StringMap<Vec<String>>)>,
    b: Seq<(String, StringMap<Vec<String>>)>,
    one: (String, StringMap<Vec<String>>),
    ty: Seq<char>,
)
    ensures
        identifiers(Seq::empty(), ty).len() == 0,
        identifiers(seq![one], ty) == if one.1@.contains_key(ty) {
            Seq::new(one.1@[ty]@.len(), |i: int| one.1@[ty]@[i]@)
        } else {
            Seq::empty()
        },
        identifiers(a + b, ty) == identifiers(a, ty) + identifiers(b, ty),
    decreases b.len(),
{
    reveal_with_fuel(identifiers, 2);
    assert(seq![one].drop_last() =~= Seq::empty());
    if one.1@.contains_key(ty) {
        assert(identifiers(seq![one], ty) =~= Seq::new(one.1@[ty]@.len(), |i: int| one.1@[ty]@[i]@));
    } else {
        assert(identifiers(seq![one], ty) =~= Seq::empty());
    }
    if b.len() > 0 {
        assert((a + b).drop_last() =~= a + b.drop_last());
        assert((a + b).last() == b.last());
        law_identifiers_of_all_upstreams(a, b.drop_last(), one, ty);
        assert(identifiers(a + b, ty) =~= identifiers(a, ty) + identifiers(b, ty));
    } else {
        assert(a + b =~= a);
        assert(identifiers(a, ty) + identifiers(b, ty) =~= identifiers(a, ty));
    }
}

proof fn lemma_filtered_parts_join(
    a: Seq<SelectionField>,
    b: Seq<SelectionField>,
    filter: SelectionSetFilterData,
    ty: Seq<char>,
)
    ensures
        filtered_parts(a + b, filter, ty) == filtered_parts(a, filter, ty) + filtered_parts(
            b,
            filter,
            ty,
        ),
    decreases b.len(),
{
    if b.len() > 0 {
        assert((a + b).drop_last() =~= a + b.drop_last());
        assert((a + b).last() == b.last());
        lemma_filtered_parts_join(a, b.drop_last(), filter, ty);
        assert(filtered_parts(a + b, filter, ty) =~= filtered_parts(a, filter, ty) + filtered_parts(
            b,
            filter,
            ty,
        ));
    } else {
        assert(a + b =~= a);
        assert(filtered_parts(a, filter, ty) + filtered_parts(b, filter, ty) =~= filtered_parts(
            a,
            filter,
            ty,
        ));
    }
}

/// A field that the upstream does not know leaves no trace.
pub proof fn law_unknown_field_is_left_out(
    a: Seq<SelectionField>,
    field: SelectionField,
    b: Seq<SelectionField>,
    filter: SelectionSetFilterData,
    ty: Seq<char>,
)
    requires
        known_type(filter, ty, field.name@) is None,
    ensures
        filtered_set(a + seq![field] + b, filter, ty) == filtered_set(a + b, filter, ty),
{
    lemma_filtered_parts_join(a + seq![field], b, filter, ty);
    lemma_filtered_parts_join(a, seq![field], filter, ty);
    lemma_filtered_parts_join(a, b, filter, ty);
    lemma_unknown_fields(seq![field], filter, ty);
    assert(filtered_parts(a, filter, ty) + Seq::<Seq<char>>::empty() =~= filtered_parts(a, filter, ty));
}

/// A field that the upstream knows is written in braces with its name, its arguments in brackets
/// where it has arguments, what the upstream knows of its own selection set in the type that it has,
/// and the identifiers of the type that is asked.
pub proof fn law_one_known_field(
    field: SelectionField,
    filter: SelectionSetFilterData,
    ty: Seq<char>,
    below: Seq<char>,
)
    requires
        known_type(filter, ty, field.name@) == Some(below),
    ensures
        filtered_set(seq![field], filter, ty) == Some(
            "{ "@ + joined(
                seq![
                    field.name@ + (match field.arguments {
                        Some(arguments) => if arguments@.len() > 0 {
                            "("@ + joined(
                                Seq::new(
                                    arguments@.len(),
                                    |i: int| arguments@[i].0@ + ": "@ + shown(arguments@[i].1@),
                                ),
                                ","@,
                            ) + ")"@
                        } else {
                            Seq::empty()
                        },
                        None => Seq::empty(),
                    }) + (match filtered_set(field.selection_set@, filter, below) {
                        Some(text) => seq![' '] + text,
                        None => Seq::empty(),
                    }),
                ] + identifiers(filter.url_obj_ids@, ty),
                " "@,
            ) + " }"@,
        ),
{
    reveal_with_fuel(filtered_parts, 2);
    let fields = seq![field];
    assert(fields.drop_last() =~= Seq::empty());
    assert(fields.last() == field);
    let set = filtered_set(field.selection_set@, filter, below);
    law_field_is_name_and_arguments(field, set);
    assert(filtered_parts(fields, filter, ty) =~= seq![field_text(field, set)]);
}

/// Known fields that stand behind others are written behind them, and the identifiers of the type
/// stand once, behind them all.
pub proof fn law_known_fields_join(
    a: Seq<SelectionField>,
    b: Seq<SelectionField>,
    filter: SelectionSetFilterData,
    ty: Seq<char>,
)
    ensures
        filtered_set(Seq::empty(), filter, ty) is None,
        filtered_set(a, filter, ty) is None ==> filtered_set(a + b, filter, ty) == filtered_set(
            b,
            filter,
            ty,
        ),
        filtered_set(b, filter, ty) is None ==> filtered_set(a + b, filter, ty) == filtered_set(
            a,
            filter,
            ty,
        ),
        filtered_set(a, filter, ty) is Some && filtered_set(b, filter, ty) is Some ==> exists|
            first: Seq<Seq<char>>,
            second: Seq<Seq<char>>,
        |
            {
                let ids = identifiers(filter.url_obj_ids@, ty);
                &&& filtered_set(a, filter, ty) == Some(
                    "{ "@ + joined(first + ids, " "@) + " }"@,
                )
                &&& filtered_set(b, filter, ty) == Some(
                    "{ "@ + joined(second + ids, " "@) + " }"@,
                )
                &&& filtered_set(a + b, filter, ty) == Some(
                    "{ "@ + joined(#[trigger] (first + second) + ids, " "@) + " }"@,
                )
                &&& first.len() == known_count(a, filter, ty)
                &&& second.len() == known_count(b, filter, ty)
            },
{
    let first = filtered_parts(a, filter, ty);
    let second = filtered_parts(b, filter, ty);
    lemma_filtered_parts_join(a, b, filter, ty);
    lemma_known_count(a, filter, ty);
    lemma_known_count(b, filter, ty);
    if first.len() == 0 {
        assert(first + second =~= second);
    }
    if second.len() == 0 {
        assert(first + second =~= first);
    }
}

/// How many of the fields the upstream knows.
pub open spec fn known_count(
    fields: Seq<SelectionField>,
    filter: SelectionSetFilterData,
    ty: Seq<char>,
) -> nat {
    fields.filter(|f: SelectionField| known_type(filter, ty, f.name@) is Some).len()
}

proof fn lemma_known_count(
    fields: Seq<SelectionField>,
    filter: SelectionSetFilterData,
    ty: Seq<char>,
)
    ensures
        filtered_parts(fields, filter, ty).len() == known_count(fields, filter, ty),
    decreases fields.len(),
{
    reveal(Seq::filter);
    if fields.len() > 0 {
        lemma_known_count(fields.drop_last(), filter, ty);
    }
}

/// The selection set of the field that is resolved is cut down where that is asked for and an
/// upstream is given, from the type given with the upstream on; it is written in full otherwise, and
/// not at all where no field is resolved.
pub proof fn law_cut_down_where_asked_for(
    field: SelectionField,
    data: SelectionSetFilterData,
    filter: Option<SelectionSetFilterData>,
    filtered: bool,
)
    ensures
        operation_set(None, filter, filtered) is None,
        operation_set(Some(field), Some(data), true) == filtered_set(
            field.selection_set@,
            data,
            data.field_type@,
        ),
        operation_set(Some(field), filter, false) == unfiltered_set(field.selection_set@),
        operation_set(Some(field), None, filtered) == unfiltered_set(field.selection_set@),
{
}

} // verus!
