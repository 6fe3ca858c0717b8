//! GraphQL values: what resolvers hand around.
use vstd::prelude::*;
use vstd::string::*;

use crate::text;
use crate::text::{decimal, digit_char, index_of_text, joined};

verus! {

/// A GraphQL value without variables.
///
/// A number is kept as the text that writes it. The members of an object stand in the order in
/// which they were put in, each name once.
#[derive(Debug, PartialEq, Eq)]
pub enum Value {
    Null,
    Number(String),
    String(String),
    Boolean(bool),
    Binary(Vec<u8>),
    Enum(String),
    List(Vec<Value>),
    Object(Vec<(String, Value)>),
}

/// What a [`Value`] holds.
pub enum ValueModel {
    Null,
    Number(Seq<char>),
    String(Seq<char>),
    Boolean(bool),
    Binary(Seq<u8>),
    Enum(Seq<char>),
    List(Seq<ValueModel>),
    Object(Seq<(Seq<char>, ValueModel)>),
}

/// The model of a value.
pub open spec fn model(v: Value) -> ValueModel
    decreases v,
{
    match v {
        Value::Null => ValueModel::Null,
        Value::Number(n) => ValueModel::Number(n@),
        Value::String(s) => ValueModel::String(s@),
        Value::Boolean(b) => ValueModel::Boolean(b),
        Value::Binary(b) => ValueModel::Binary(b@),
        Value::Enum(n) => ValueModel::Enum(n@),
        Value::List(items) => ValueModel::List(
            Seq::new(
                items@.len(),
                |i: int|
                    if 0 <= i < items@.len() {
                        model(items@[i])
                    } else {
                        ValueModel::Null
                    },
            ),
        ),
        Value::Object(members) => ValueModel::Object(
            Seq::new(
                members@.len(),
                |i: int|
                    if 0 <= i < members@.len() {
                        (members@[i].0@, model(members@[i].1))
                    } else {
                        (Seq::empty(), ValueModel::Null)
                    },
            ),
        ),
    }
}

impl View for Value {
    type V = ValueModel;

    open spec fn view(&self) -> ValueModel {
        model(*self)
    }
}

impl Clone for Value {
    fn clone(&self) -> (res: Value)
        ensures
            res@ == self@,
        decreases self,
    {
        match self {
            Value::Null => Value::Null,
            Value::Number(n) => Value::Number(n.clone()),
            Value::String(s) => Value::String(s.clone()),
            Value::Boolean(b) => Value::Boolean(*b),
            Value::Binary(bytes) => Value::Binary(bytes.clone()),
            Value::Enum(n) => Value::Enum(n.clone()),
            Value::List(items) => {
                let mut copies: Vec<Value> = Vec::new();
                for i in 0..items.len()
                    invariant
                        self == Value::List(*items),
                        copies.len() == i,
                        forall|k: int| 0 <= k < i ==> model(#[trigger] copies@[k]) == model(items@[k]),
                    decreases items.len() - i,
                {
                    assert(decreases_to!(self => self->List_0));
                    copies.push(items[i].clone());
                }
                let res = Value::List(copies);
                assert(res@->List_0 =~= self@->List_0);
                res
            },
            Value::Object(members) => {
                let mut copies: Vec<(String, Value)> = Vec::new();
                for i in 0..members.len()
                    invariant
                        self == Value::Object(*members),
                        copies.len() == i,
                        forall|k: int|
                            0 <= k < i ==> (#[trigger] copies@[k]).0@ == members@[k].0@ && model(
                                copies@[k].1,
                            ) == model(members@[k].1),
                    decreases members.len() - i,
                {
                    assert(decreases_to!(self => self->Object_0));
                    copies.push((members[i].0.clone(), members[i].1.clone()));
                }
                let res = Value::Object(copies);
                assert(res@->Object_0 =~= self@->Object_0);
                res
            },
        }
    }
}

/// The value of the first member called `name`.
pub open spec fn member(members: Seq<(Seq<char>, ValueModel)>, name: Seq<char>) -> Option<ValueModel>
    decreases members.len(),
{
    if members.len() == 0 {
        None
    } else if members[0].0 == name {
        Some(members[0].1)
    } else {
        member(members.skip(1), name)
    }
}

/// One step down: a member of an object by its name, or an item of a list by its index.
pub open spec fn child(v: ValueModel, key: Seq<char>) -> Option<ValueModel> {
    match v {
        ValueModel::Object(members) => member(members, key),
        ValueModel::List(items) => match index_of_text(key) {
            Some(i) => if i < items.len() {
                Some(items[i as int])
            } else {
                None
            },
            None => None,
        },
        _ => None,
    }
}

/// What stands in `v` at the end of `path`.
pub open spec fn at_path(v: ValueModel, path: Seq<Seq<char>>) -> Option<ValueModel>
    decreases path.len(),
{
    if path.len() == 0 {
        Some(v)
    } else {
        match child(v, path[0]) {
            None => None,
            Some(c) => at_path(c, path.skip(1)),
        }
    }
}

/// Relates an optional value to its optional model.
pub open spec fn option_model(v: Option<&Value>) -> Option<ValueModel> {
    match v {
        Some(x) => Some(x@),
        None => None,
    }
}

/// Looks a member up by its name.
pub fn find_member<'a>(members: &'a Vec<(String, Value)>, name: &str) -> (res: Option<&'a Value>)
    ensures
        option_model(res) == member(
            members@.map_values(|m: (String, Value)| (m.0@, m.1@)),
            name@,
        ),
{
    let ghost all = members@.map_values(|m: (String, Value)| (m.0@, m.1@));
    proof {
        assert(all.skip(0) =~= all);
    }
    for i in 0..members.len()
        invariant
            all == members@.map_values(|m: (String, Value)| (m.0@, m.1@)),
            member(all, name@) == member(all.skip(i as int), name@),
    {
        let ghost rest = all.skip(i as int);
        if text::same(members[i].0.as_str(), name) {
            return Some(&members[i].1);
        }
        proof {
            assert(rest.skip(1) =~= all.skip(i + 1));
        }
    }
    None
}

/// Follows `path` down from `input`.
pub fn get_path_value<'a>(input: &'a Value, path: &[String]) -> (res: Option<&'a Value>)
    ensures
        option_model(res) == at_path(input@, text::views(path@)),
{
    let ghost keys = text::views(path@);
    let mut value: &'a Value = input;
    proof {
        assert(keys.skip(0) =~= keys);
    }
    for i in 0..path.len()
        invariant
            keys == text::views(path@),
            at_path(input@, keys) == at_path(value@, keys.skip(i as int)),
    {
        let ghost rest = keys.skip(i as int);
        let ghost here = value@;
        proof {
            assert(rest[0] == path@[i as int]@);
            assert(rest.skip(1) =~= keys.skip(i + 1));
        }
        match value {
            Value::Object(members) => {
                proof {
                    assert(here->Object_0 =~= members@.map_values(
                        |m: (String, Value)| (m.0@, m.1@),
                    ));
                }
                match find_member(members, path[i].as_str()) {
                    Some(next) => {
                        value = next;
                    },
                    None => {
                        return None;
                    },
                }
            },
            Value::List(items) => {
                match text::parse_index(path[i].as_str()) {
                    Some(n) => {
                        if n < items.len() {
                            value = &items[n];
                        } else {
                            return None;
                        }
                    },
                    None => {
                        return None;
                    },
                }
            },
            _ => {
                return None;
            },
        }
    }
    Some(value)
}

/// A number below ten thousand with four digits.
pub open spec fn four_digits(n: int) -> Seq<char> {
    seq![
        digit_char(n / 1000),
        digit_char(n / 100 % 10),
        digit_char(n / 10 % 10),
        digit_char(n % 10),
    ]
}

/// How a character of a string value is written in GraphQL.
pub open spec fn quoted_char(c: char) -> Seq<char> {
    if c == '\r' {
        "\\r"@
    } else if c == '\n' {
        "\\n"@
    } else if c == '\t' {
        "\\t"@
    } else if c == '"' {
        "\\\""@
    } else if c == '\\' {
        "\\\\"@
    } else if (c as int) < 32 || 127 <= (c as int) < 160 {
        "\\u"@ + four_digits(c as int)
    } else {
        seq![c]
    }
}

/// How the characters of a string value are written in GraphQL.
pub open spec fn quoted_chars(s: Seq<char>) -> Seq<char>
    decreases s.len(),
{
    if s.len() == 0 {
        Seq::empty()
    } else {
        quoted_chars(s.drop_last()) + quoted_char(s.last())
    }
}

/// A string value written as GraphQL, in quotes.
pub open spec fn quoted(s: Seq<char>) -> Seq<char> {
    seq!['"'] + quoted_chars(s) + seq!['"']
}

/// Writes a string value as GraphQL: the `Display` of `async_graphql_value::ConstValue` on its
/// `String` variant. The string stands in quotes; line ends, tabs, quotes and backslashes follow a
/// backslash, and other control characters are written as `\u` with their number in decimal, of
/// four digits.
#[verifier::external_body]
fn quote(s: &str) -> (res: String)
    ensures
        res@ == quoted(s@),
{
    async_graphql_value::ConstValue::String(s.to_string()).to_string()
}

/// A value written as GraphQL.
pub open spec fn shown(v: ValueModel) -> Seq<char>
    decreases v,
{
    match v {
        ValueModel::Null => "null"@,
        ValueModel::Number(n) => n,
        ValueModel::String(s) => quoted(s),
        ValueModel::Boolean(b) => if b {
            "true"@
        } else {
            "false"@
        },
        ValueModel::Binary(bytes) => "["@ + joined(
            bytes.map_values(|b: u8| decimal(b as nat)),
            ", "@,
        ) + "]"@,
        ValueModel::Enum(n) => n,
        ValueModel::List(items) => "["@ + joined(shown_items(items), ", "@) + "]"@,
        ValueModel::Object(members) => "{"@ + joined(shown_members(members), ", "@) + "}"@,
    }
}

/// Each of the values written as GraphQL.
pub open spec fn shown_items(items: Seq<ValueModel>) -> Seq<Seq<char>>
    decreases items,
{
    if items.len() == 0 {
        Seq::empty()
    } else {
        shown_items(items.drop_last()).push(shown(items.last()))
    }
}

/// Each of the members written as GraphQL: its name, a colon and its value.
pub open spec fn shown_members(members: Seq<(Seq<char>, ValueModel)>) -> Seq<Seq<char>>
    decreases members,
{
    if members.len() == 0 {
        Seq::empty()
    } else {
        shown_members(members.drop_last()).push(
            members.last().0 + ": "@ + shown(members.last().1),
        )
    }
}

/// Puts `open` before and `close` after the joined parts.
fn bracketed(open: &str, parts: &Vec<String>, close: &str) -> (res: String)
    ensures
        res@ == open@ + joined(text::views(parts@), ", "@) + close@,
{
    let mut res = open.to_string();
    res.append(text::join(parts, ", ").as_str());
    res.append(close);
    res
}

impl Value {
    /// Writes the value as GraphQL.
    pub fn to_string(&self) -> (res: String)
        ensures
            res@ == shown(self@),
        decreases self,
    {
        match self {
            Value::Null => "null".to_string(),
            Value::Number(n) => n.clone(),
            Value::String(s) => quote(s.as_str()),
            Value::Boolean(b) => {
                if *b {
                    "true".to_string()
                } else {
                    "false".to_string()
                }
            },
            Value::Binary(bytes) => {
                let mut parts: Vec<String> = Vec::new();
                for i in 0..bytes.len()
                    invariant
                        text::views(parts@) == bytes@.map_values(|b: u8| decimal(b as nat)).take(
                            i as int,
                        ),
                {
                    let part = text::u64_text(bytes[i] as u64);
                    let ghost before = parts@;
                    parts.push(part);
                    proof {
                        assert(text::views(parts@) =~= text::views(before).push(part@));
                        assert(bytes@.map_values(|b: u8| decimal(b as nat)).take(i + 1)
                            =~= bytes@.map_values(|b: u8| decimal(b as nat)).take(i as int).push(
                            part@,
                        ));
                    }
                }
                proof {
                    assert(text::views(parts@) =~= bytes@.map_values(|b: u8| decimal(b as nat)));
                }
                bracketed("[", &parts, "]")
            },
            Value::Enum(n) => n.clone(),
            Value::List(items) => {
                let mut parts: Vec<String> = Vec::new();
                let ghost models = self@->List_0;
                for i in 0..items.len()
                    invariant
                        self == Value::List(*items),
                        models == self@->List_0,
                        text::views(parts@) == shown_items(models.take(i as int)),
                    decreases items.len() - i,
                {
                    assert(decreases_to!(self => self->List_0));
                    let part = items[i].to_string();
                    let ghost before = parts@;
                    parts.push(part);
                    proof {
                        assert(text::views(parts@) =~= text::views(before).push(part@));
                        assert(models.take(i + 1).drop_last() =~= models.take(i as int));
                    }
                }
                proof {
                    assert(models.take(models.len() as int) =~= models);
                }
                bracketed("[", &parts, "]")
            },
            Value::Object(members) => {
                let mut parts: Vec<String> = Vec::new();
                let ghost models = self@->Object_0;
                for i in 0..members.len()
                    invariant
                        self == Value::Object(*members),
                        models == self@->Object_0,
                        text::views(parts@) == shown_members(models.take(i as int)),
                    decreases members.len() - i,
                {
                    assert(decreases_to!(self => self->Object_0));
                    let mut part = members[i].0.clone();
                    part.append(": ");
                    part.append(members[i].1.to_string().as_str());
                    let ghost before = parts@;
                    parts.push(part);
                    proof {
                        assert(text::views(parts@) =~= text::views(before).push(part@));
                        assert(models.take(i + 1).drop_last() =~= models.take(i as int));
                    }
                }
                proof {
                    assert(models.take(models.len() as int) =~= models);
                }
                bracketed("{", &parts, "}")
            },
        }
    }
}

/// A path leads on from where its first part led.
pub proof fn law_paths_lead_on(v: ValueModel, first: Seq<Seq<char>>, second: Seq<Seq<char>>)
    ensures
        at_path(v, Seq::empty()) == Some(v),
        at_path(v, first + second) == match at_path(v, first) {
            Some(found) => at_path(found, second),
            None => None,
        },
    decreases first.len(),
{
    if first.len() == 0 {
        assert(first + second =~= second);
    } else {
        assert((first + second).skip(1) =~= first.skip(1) + second);
        if let Some(c) = child(v, first[0]) {
            law_paths_lead_on(c, first.skip(1), second);
        }
    }
}

/// One step leads from an object to the first member of the name, from a list to the item at the
/// index, and from anything else nowhere.
pub proof fn law_path_step(v: ValueModel, key: Seq<char>)
    ensures
        match v {
            ValueModel::Object(members) => {
                &&& forall|i: int|
                    0 <= i < members.len() && (#[trigger] members[i]).0 == key && (forall|j: int|
                        0 <= j < i ==> (#[trigger] members[j]).0 != key) ==> at_path(v, seq![key])
                        == Some(members[i].1)
                &&& (forall|i: int| 0 <= i < members.len() ==> (#[trigger] members[i]).0 != key)
                    ==> at_path(v, seq![key]) is None
            },
            ValueModel::List(items) => at_path(v, seq![key]) == match index_of_text(key) {
                Some(n) => if n < items.len() {
                    Some(items[n as int])
                } else {
                    None
                },
                None => None,
            },
            _ => at_path(v, seq![key]) is None,
        },
{
    let path = seq![key];
    assert(path.skip(1) =~= Seq::empty());
    assert(at_path(v, path) == child(v, key)) by {
        if let Some(c) = child(v, key) {
            assert(at_path(c, path.skip(1)) == Some(c));
        }
    }
    if let ValueModel::Object(members) = v {
        lemma_member(members, key);
    }
}

proof fn lemma_member(members: Seq<(Seq<char>, ValueModel)>, key: Seq<char>)
    ensures
        forall|i: int|
            0 <= i < members.len() && (#[trigger] members[i]).0 == key && (forall|j: int|
                0 <= j < i ==> (#[trigger] members[j]).0 != key) ==> member(members, key) == Some(
                members[i].1,
            ),
        (forall|i: int| 0 <= i < members.len() ==> (#[trigger] members[i]).0 != key) ==> member(
            members,
            key,
        ) is None,
    decreases members.len(),
{
    if members.len() > 0 && members[0].0 != key {
        let rest = members.skip(1);
        lemma_member(rest, key);
        assert forall|i: int|
            0 <= i < members.len() && (#[trigger] members[i]).0 == key && (forall|j: int|
                0 <= j < i ==> (#[trigger] members[j]).0 != key) implies member(members, key) == Some(
            members[i].1,
        ) by {
            assert(rest[i - 1] == members[i]);
            assert forall|j: int| 0 <= j < i - 1 implies (#[trigger] rest[j]).0 != key by {
                assert(rest[j] == members[j + 1]);
            }
        }
        if forall|i: int| 0 <= i < members.len() ==> (#[trigger] members[i]).0 != key {
            assert forall|i: int| 0 <= i < rest.len() implies (#[trigger] rest[i]).0 != key by {
                assert(rest[i] == members[i + 1]);
            }
        }
    } else if members.len() > 0 {
        assert forall|i: int|
            0 <= i < members.len() && (#[trigger] members[i]).0 == key && (forall|j: int|
                0 <= j < i ==> (#[trigger] members[j]).0 != key) implies i == 0 by {
            if i > 0 {
                assert(members[0].0 == key);
            }
        }
    }
}

/// Null, truth values, numbers and the names of enumerations are written as they are, strings in
/// quotes, and lists, bytes and objects by their parts in order, with commas in between.
pub proof fn law_values_are_written(v: ValueModel)
    ensures
        shown(v) == match v {
            ValueModel::Null => "null"@,
            ValueModel::Number(n) => n,
            ValueModel::String(s) => seq!['"'] + quoted_chars(s) + seq!['"'],
            ValueModel::Boolean(true) => "true"@,
            ValueModel::Boolean(false) => "false"@,
            ValueModel::Binary(bytes) => "["@ + joined(
                Seq::new(bytes.len(), |i: int| decimal(bytes[i] as nat)),
                ", "@,
            ) + "]"@,
            ValueModel::Enum(n) => n,
            ValueModel::List(items) => "["@ + joined(
                Seq::new(items.len(), |i: int| shown(items[i])),
                ", "@,
            ) + "]"@,
            ValueModel::Object(members) => "{"@ + joined(
                Seq::new(members.len(), |i: int| members[i].0 + ": "@ + shown(members[i].1)),
                ", "@,
            ) + "}"@,
        },
{
    match v {
        ValueModel::Binary(bytes) => {
            assert(bytes.map_values(|b: u8| decimal(b as nat)) =~= Seq::new(
                bytes.len(),
                |i: int| decimal(bytes[i] as nat),
            ));
        },
        ValueModel::List(items) => {
            lemma_shown_items(items);
            assert(shown_items(items) =~= Seq::new(items.len(), |i: int| shown(items[i])));
        },
        ValueModel::Object(members) => {
            lemma_shown_members(members);
            assert(shown_members(members) =~= Seq::new(
                members.len(),
                |i: int| members[i].0 + ": "@ + shown(members[i].1),
            ));
        },
        _ => {},
    }
}

proof fn lemma_shown_items(items: Seq<ValueModel>)
    ensures
        shown_items(items).len() == items.len(),
        forall|i: int| 0 <= i < items.len() ==> #[trigger] shown_items(items)[i] == shown(items[i]),
    decreases items.len(),
{
    if items.len() > 0 {
        lemma_shown_items(items.drop_last());
    }
}

proof fn lemma_shown_members(members: Seq<(Seq<char>, ValueModel)>)
    ensures
        shown_members(members).len() == members.len(),
        forall|i: int|
            0 <= i < members.len() ==> #[trigger] shown_members(members)[i] == members[i].0 + ": "@
                + shown(members[i].1),
    decreases members.len(),
{
    if members.len() > 0 {
        lemma_shown_members(members.drop_last());
    }
}

/// What a value holds is told by its sort and its parts: a list holds what its items hold, in order,
/// and an object what its members hold under their names, in order.
pub proof fn law_values_hold_their_parts(
    text: String,
    flag: bool,
    bytes: Vec<u8>,
    items: Vec<Value>,
    members: Vec<(String, Value)>,
)
    ensures
        Value::Null@ == ValueModel::Null,
        Value::Number(text)@ == ValueModel::Number(text@),
        Value::String(text)@ == ValueModel::String(text@),
        Value::Boolean(flag)@ == ValueModel::Boolean(flag),
        Value::Binary(bytes)@ == ValueModel::Binary(bytes@),
        Value::Enum(text)@ == ValueModel::Enum(text@),
        Value::List(items)@ == ValueModel::List(Seq::new(items@.len(), |i: int| items@[i]@)),
        Value::Object(members)@ == ValueModel::Object(
            Seq::new(members@.len(), |i: int| (members@[i].0@, members@[i].1@)),
        ),
{
    assert(Value::List(items)@->List_0 =~= Seq::new(items@.len(), |i: int| items@[i]@));
    assert(Value::Object(members)@->Object_0 =~= Seq::new(
        members@.len(),
        |i: int| (members@[i].0@, members@[i].1@),
    ));
}

} // verus!
