use tailcall::http::request_context::RequestContext;
use tailcall::lambda::evaluation_context::EvaluationContext;
use tailcall::lambda::resolver_context::{ResolverContext, SelectionField};
use tailcall::lambda::selection::{
    format_selection_set, format_selection_set_unfiltered, SelectionSetFilterData,
};
use tailcall::string_map::StringMap;
use tailcall::value::Value;

fn field(name: &str, selection_set: Vec<SelectionField>) -> SelectionField {
    SelectionField { name: name.to_string(), arguments: Some(vec![]), selection_set }
}

fn pairs(items: &[(&str, &str)]) -> Vec<(String, String)> {
    items.iter().map(|(a, b)| (a.to_string(), b.to_string())).collect()
}

fn selection() -> Vec<SelectionField> {
    let mut user = field("user", vec![field("name", vec![]), field("secret", vec![])]);
    user.arguments = Some(vec![
        ("id".to_string(), Value::Number("1".to_string())),
        ("q".to_string(), Value::String("x".to_string())),
    ]);
    let mut title = field("title", vec![]);
    title.arguments = None;
    vec![user, title, field("other", vec![])]
}

fn filter() -> SelectionSetFilterData {
    let mut by_type = StringMap::new();
    by_type.insert("Post".to_string(), pairs(&[("user", "User"), ("title", "String")]));
    by_type.insert("User".to_string(), pairs(&[("name", "String")]));
    let mut url_obj_fields = StringMap::new();
    url_obj_fields.insert("http://a".to_string(), by_type);
    let mut first = StringMap::new();
    first.insert("Post".to_string(), vec!["postId".to_string()]);
    first.insert("User".to_string(), vec!["userId".to_string(), "key".to_string()]);
    let mut second = StringMap::new();
    second.insert("Post".to_string(), vec!["uuid".to_string()]);
    SelectionSetFilterData {
        url_obj_fields,
        field_type: "Post".to_string(),
        url: "http://a".to_string(),
        url_obj_ids: vec![("http://a".to_string(), first), ("http://b".to_string(), second)],
    }
}

#[test]
fn selection_set_is_written_in_full() {
    assert_eq!(
        format_selection_set_unfiltered(&selection()),
        Some("{ user(id: 1,q: \"x\") { name secret } title other }".to_string())
    );
    assert_eq!(format_selection_set_unfiltered(&vec![]), None);
}

#[test]
fn selection_set_is_cut_down_to_what_is_known() {
    assert_eq!(
        format_selection_set(&selection(), &filter(), "Post"),
        Some("{ user(id: 1,q: \"x\") { name userId key } title postId uuid }".to_string())
    );
}

#[test]
fn unknown_fields_select_nothing() {
    let unknown = vec![field("x", vec![]), field("y", vec![])];
    assert_eq!(format_selection_set(&unknown, &filter(), "Post"), None);
    assert_eq!(format_selection_set(&selection(), &filter(), "Missing"), None);
    let elsewhere = SelectionSetFilterData { url: "http://c".to_string(), ..filter() };
    assert_eq!(format_selection_set(&selection(), &elsewhere, "Post"), None);
}

#[test]
fn selection_set_of_the_context_is_filtered_on_demand() {
    let request = RequestContext::default();
    let resolver =
        ResolverContext { value: None, args: None, field: Some(field("post", selection())) };
    let ctx = EvaluationContext::new(&request, &resolver);
    let full = "{ user(id: 1,q: \"x\") { name secret } title other }";
    let cut = "{ user(id: 1,q: \"x\") { name userId key } title postId uuid }";
    assert_eq!(ctx.selection_set(Some(&filter()), true).as_deref(), Some(cut));
    assert_eq!(ctx.selection_set(Some(&filter()), false).as_deref(), Some(full));
    assert_eq!(ctx.selection_set(None, true).as_deref(), Some(full));
}
