use tailcall::config::descriptor::{
    label_flags, EnumDescriptor, EnumValueDescriptor, FieldDescriptor, FileDescriptor,
    FileDescriptorSet, MessageDescriptor, MethodDescriptor, ServiceDescriptor,
};
use tailcall::config::from_proto::{
    append_msg_type, append_mutation_service, append_query_service, convert_lowered, convert_ty,
    from_proto, get_arg, get_output_ty, with_suffix, DescriptorType, FromProtoError, Helper, Options,
    ProtoGeneratorConfig,
};
use tailcall::config::types::Config;

const OPTIONAL: i32 = 1;
const REQUIRED: i32 = 2;
const REPEATED: i32 = 3;
const INT32: i32 = 5;
const STRING: i32 = 9;

fn some(s: &str) -> Option<String> {
    Some(s.to_string())
}

fn field(name: &str, label: i32, number: Option<i32>, named: &str) -> FieldDescriptor {
    FieldDescriptor {
        name: some(name),
        label: Some(label),
        field_type: number,
        named_type: some(named),
    }
}

fn message(name: &str, fields: Vec<FieldDescriptor>) -> MessageDescriptor {
    MessageDescriptor { name: some(name), enum_type: vec![], nested_type: vec![], field: fields }
}

fn method(name: &str, input: &str, output: &str) -> MethodDescriptor {
    MethodDescriptor { name: some(name), input_type: some(input), output_type: some(output) }
}

fn enumeration(name: &str, values: &[&str]) -> EnumDescriptor {
    EnumDescriptor {
        name: some(name),
        value: values.iter().map(|v| EnumValueDescriptor { name: some(v) }).collect(),
    }
}

fn service(name: &str, methods: Vec<MethodDescriptor>) -> ServiceDescriptor {
    ServiceDescriptor { name: some(name), method: methods }
}

fn news() -> FileDescriptor {
    FileDescriptor {
        package: some("news"),
        enum_type: vec![enumeration("Status", &["PUBLISHED", "DRAFT"])],
        message_type: vec![
            message(
                "News",
                vec![
                    field("id", OPTIONAL, Some(INT32), ""),
                    field("title", OPTIONAL, Some(STRING), ""),
                    field("status", OPTIONAL, None, "Status"),
                ],
            ),
            message("NewsId", vec![field("id", OPTIONAL, Some(INT32), "")]),
            message("MultipleNewsId", vec![field("ids", REPEATED, None, "NewsId")]),
            message("NewsList", vec![field("news", REPEATED, None, "News")]),
        ],
        service: vec![service(
            "NewsService",
            vec![
                method("GetAllNews", "google.protobuf.Empty", "NewsList"),
                method("GetNews", "NewsId", "News"),
                method("GetMultipleNews", "MultipleNewsId", "NewsList"),
                method("EditNews", "News", "News"),
                method("AddNews", "News", "google.protobuf.Empty"),
            ],
        )],
    }
}

fn greetings() -> FileDescriptor {
    FileDescriptor {
        package: some("greetings"),
        enum_type: vec![],
        message_type: vec![
            message("HelloRequest", vec![field("name", OPTIONAL, Some(STRING), "")]),
            message("HelloReply", vec![field("message", OPTIONAL, Some(STRING), "")]),
        ],
        service: vec![service(
            "Greeter",
            vec![method("SayHello", "HelloRequest", "HelloReply")],
        )],
    }
}

fn greetings_dup_methods() -> FileDescriptor {
    FileDescriptor {
        package: some("greetings_dup"),
        enum_type: vec![],
        message_type: vec![message(
            "HelloRequest",
            vec![field("age", OPTIONAL, Some(INT32), "")],
        )],
        service: vec![service(
            "GreeterDup",
            vec![method("SayHello", "HelloRequest", "google.protobuf.Empty")],
        )],
    }
}

fn get_generator_cfg() -> ProtoGeneratorConfig<impl Fn(&str) -> bool> {
    let fxn = |x: &str| !x.starts_with("Get");
    ProtoGeneratorConfig::new(some("Query"), some("Mutation"), fxn)
}

fn one_set() -> Vec<FileDescriptorSet> {
    vec![FileDescriptorSet { file: vec![news(), greetings(), greetings_dup_methods()] }]
}

fn field_names(config: &Config, ty: &str) -> Vec<String> {
    let fields = &config.types.get(ty).unwrap().fields;
    (0..fields.len()).map(|i| fields.key_at(i).clone()).collect()
}

fn type_names(config: &Config) -> Vec<String> {
    (0..config.types.len()).map(|i| config.types.key_at(i).clone()).collect()
}

#[test]
fn test_from_proto() {
    let result =
        from_proto(one_set(), get_generator_cfg(), Options::AppendPkgId("_".to_string())).unwrap();

    assert_eq!(result.schema.query, some("Query"));
    assert_eq!(result.schema.mutation, some("Mutation"));
    assert_eq!(
        type_names(&result),
        vec![
            "HelloReply_Greetings",
            "HelloRequest_Greetings",
            "HelloRequest_GreetingsDup",
            "MultipleNewsId_News",
            "Mutation",
            "NewsId_News",
            "NewsList_News",
            "News_News",
            "Query",
            "Status_NEWS",
        ]
    );
    assert_eq!(
        field_names(&result, "Query"),
        vec!["getAllNews_News", "getMultipleNews_News", "getNews_News"]
    );
    assert_eq!(
        field_names(&result, "Mutation"),
        vec![
            "addNews_News",
            "editNews_News",
            "sayHello_Greetings",
            "sayHello_GreetingsDup"
        ]
    );

    let query = result.types.get("Query").unwrap();
    let all = query.fields.get("getAllNews_News").unwrap();
    assert_eq!(all.type_of, "NewsList_News");
    assert!(all.required && !all.list && all.args.is_empty());
    assert_eq!(all.grpc.as_ref().unwrap().method, "news.NewsService.GetAllNews");
    let one = query.fields.get("getNews_News").unwrap();
    let arg = one.args.get("newsId").unwrap();
    assert_eq!(arg.type_of, "NewsId_News");
    assert!(arg.required && !arg.list);

    let mutation = result.types.get("Mutation").unwrap();
    let add = mutation.fields.get("addNews_News").unwrap();
    assert_eq!(add.type_of, "String");
    assert!(!add.required);
    assert_eq!(
        mutation.fields.get("sayHello_GreetingsDup").unwrap().args.get("helloRequest").unwrap().type_of,
        "HelloRequest_GreetingsDup"
    );

    let item = result.types.get("News_News").unwrap();
    assert_eq!(item.fields.get("id").unwrap().type_of, "Int");
    assert_eq!(item.fields.get("title").unwrap().type_of, "String");
    assert_eq!(item.fields.get("status").unwrap().type_of, "Status_NEWS");
    let list = result.types.get("NewsList_News").unwrap().fields.get("news").unwrap();
    assert!(list.list && !list.required);
    let variants = result.types.get("Status_NEWS").unwrap().variants.as_ref().unwrap();
    assert_eq!(variants.len(), 2);
    assert!(variants.get("DRAFT").is_some() && variants.get("PUBLISHED").is_some());

    let set = FileDescriptorSet { file: vec![news()] };
    let set1 = FileDescriptorSet { file: vec![greetings()] };
    let set2 = FileDescriptorSet { file: vec![greetings_dup_methods()] };
    let result_sets = from_proto(
        vec![set, set1, set2],
        get_generator_cfg(),
        Options::AppendPkgId("_".to_string()),
    )
    .unwrap();

    assert_eq!(result, result_sets);
}

#[test]
fn test_merge() {
    let result = from_proto(one_set(), get_generator_cfg(), Options::Merge).unwrap();
    assert_eq!(
        type_names(&result),
        vec![
            "HelloReply", "HelloRequest", "MultipleNewsId", "Mutation", "News", "NewsId",
            "NewsList", "Query", "Status",
        ]
    );
    assert_eq!(field_names(&result, "HelloRequest"), vec!["age", "name"]);
    assert_eq!(field_names(&result, "Mutation"), vec!["addNews", "editNews", "sayHello"]);
    let hello = result.types.get("Mutation").unwrap().fields.get("sayHello").unwrap();
    assert_eq!(hello.grpc.as_ref().unwrap().method, "greetings_dup.GreeterDup.SayHello");
    assert_eq!(hello.type_of, "String");
}

#[test]
fn test_fail_if_collide() {
    let result = from_proto(one_set(), get_generator_cfg(), Options::FailIfCollide);
    assert!(result.is_err());
    let error = result.err().unwrap();
    assert_eq!(error, FromProtoError::DuplicateKeys("HelloRequest".to_string()));
    assert_eq!(error.message(), "Duplicate keys found for: HelloRequest");
}

#[test]
fn test_required_types() {
    let file = FileDescriptor {
        package: some("person"),
        enum_type: vec![],
        message_type: vec![
            message(
                "Person",
                vec![
                    field("email", OPTIONAL, Some(STRING), ""),
                    field("id", REQUIRED, Some(INT32), ""),
                    field("name", REQUIRED, Some(STRING), ""),
                    field("phone", REPEATED, None, "PhoneNumber"),
                ],
            ),
            message("PhoneNumber", vec![field("number", REQUIRED, Some(STRING), "")]),
        ],
        service: vec![service(
            "PersonService",
            vec![method("GetPerson", "google.protobuf.Empty", "Person")],
        )],
    };
    let sets = vec![FileDescriptorSet { file: vec![file] }];
    let cfg = from_proto(sets, get_generator_cfg(), Options::FailIfCollide).unwrap();
    let fields = &cfg.types.get("Person").unwrap().fields;
    assert!(!fields.get("email").unwrap().required);
    assert!(fields.get("id").unwrap().required);
    assert_eq!(fields.get("id").unwrap().type_of, "Int");
    assert!(fields.get("name").unwrap().required);
    let phone = fields.get("phone").unwrap();
    assert!(phone.list && !phone.required);
    assert_eq!(phone.type_of, "PhoneNumber");
    assert_eq!(cfg.schema.query, some("Query"));
    assert_eq!(cfg.schema.mutation, None);
    assert!(cfg.types.get("Mutation").is_none());
}

#[test]
fn nested_declarations_join_their_message() {
    let mut outer = message("Outer", vec![field("inner", OPTIONAL, None, "Inner")]);
    outer.enum_type = vec![enumeration("Kind", &["A"])];
    outer.nested_type = vec![message("Inner", vec![field("k", OPTIONAL, None, "Kind")])];
    let file = FileDescriptor {
        package: None,
        enum_type: vec![],
        message_type: vec![outer],
        service: vec![],
    };
    let sets = vec![FileDescriptorSet { file: vec![file] }];
    let config = from_proto(sets, get_generator_cfg(), Options::FailIfCollide).unwrap();
    assert_eq!(type_names(&config), vec!["Inner", "Kind", "Outer"]);
    assert_eq!(config.types.get("Inner").unwrap().fields.get("k").unwrap().type_of, "Kind");
    assert_eq!(config.schema.query, None);
}

#[test]
fn enumerations_of_one_name_are_merged() {
    let file = |values: &[&str]| FileDescriptor {
        package: some("p"),
        enum_type: vec![enumeration("E", values)],
        message_type: vec![],
        service: vec![],
    };
    let sets = vec![FileDescriptorSet { file: vec![file(&["A", "B"]), file(&["B", "C"])] }];
    let config = from_proto(sets, get_generator_cfg(), Options::Merge).unwrap();
    let variants = config.types.get("E").unwrap().variants.as_ref().unwrap();
    let names: Vec<String> = (0..variants.len()).map(|i| variants.key_at(i).clone()).collect();
    assert_eq!(names, vec!["A", "B", "C"]);
}

#[test]
fn repeated_methods_collide() {
    let sets = || {
        let file = FileDescriptor {
            package: some("p"),
            enum_type: vec![],
            message_type: vec![],
            service: vec![
                service("A", vec![method("GetX", "", "X")]),
                service("B", vec![method("GetX", "", "X")]),
            ],
        };
        vec![FileDescriptorSet { file: vec![file] }]
    };
    let failed = from_proto(sets(), get_generator_cfg(), Options::FailIfCollide);
    assert_eq!(failed, Err(FromProtoError::DuplicateKeys("GetX".to_string())));
    let merged = from_proto(sets(), get_generator_cfg(), Options::Merge).unwrap();
    let root = merged.types.get("Query").unwrap();
    assert_eq!(root.fields.get("getX").unwrap().grpc.as_ref().unwrap().method, "p.B.GetX");
    assert!(root.fields.get("getX").unwrap().args.is_empty());
}

#[test]
fn colliding_services_leave_the_configuration_alone() {
    let gen = get_generator_cfg();
    let twice = |name: &str| {
        vec![
            service("A", vec![method(name, "", "X")]),
            service("B", vec![method(name, "", "X")]),
        ]
    };
    let mut config = Config::default();
    let mut helper = Helper::with_options(Options::FailIfCollide);
    let queries = append_query_service(&mut config, &twice("GetX"), &gen, &mut helper);
    assert_eq!(queries, Err(FromProtoError::DuplicateKeys("GetX".to_string())));
    assert_eq!(config, Config::default());
    let mutations = append_mutation_service(&mut config, &twice("AddX"), &gen, &mut helper);
    assert_eq!(mutations, Err(FromProtoError::DuplicateKeys("AddX".to_string())));
    assert_eq!(config, Config::default());
    let none = append_query_service(&mut config, &vec![], &gen, &mut helper);
    assert_eq!(none, Ok(()));
    assert_eq!(config, Config::default());
}

#[test]
fn messages_before_a_collision_stay() {
    let mut config = Config::default();
    let mut helper = Helper::with_options(Options::FailIfCollide);
    let messages = vec![
        message("A", vec![field("a", OPTIONAL, Some(INT32), "")]),
        message("B", vec![field("b", OPTIONAL, Some(INT32), "")]),
        message("A", vec![field("c", OPTIONAL, Some(INT32), "")]),
        message("D", vec![field("d", OPTIONAL, Some(INT32), "")]),
    ];
    let result = append_msg_type(&mut config, &messages, &mut helper);
    assert_eq!(result, Err(FromProtoError::DuplicateKeys("A".to_string())));
    assert_eq!(type_names(&config), vec!["A", "B"]);
    assert_eq!(field_names(&config, "A"), vec!["a"]);
    assert!(helper.contains("B") && !helper.contains("D"));
}

#[test]
fn services_without_queries_leave_the_root_alone() {
    let file = FileDescriptor {
        package: some("p"),
        enum_type: vec![],
        message_type: vec![message("Query", vec![field("a", OPTIONAL, Some(INT32), "")])],
        service: vec![service("S", vec![method("Add", "", "Query")])],
    };
    let sets = vec![FileDescriptorSet { file: vec![file] }];
    let config = from_proto(sets, get_generator_cfg(), Options::Merge).unwrap();
    // The message takes the place of the root type, which is then no longer blank.
    assert_eq!(config.schema.query, some("Query"));
    assert_eq!(field_names(&config, "Query"), vec!["a"]);
    assert_eq!(field_names(&config, "Mutation"), vec!["add"]);
}

#[test]
fn roots_have_default_names() {
    let gen = ProtoGeneratorConfig::new(None, None, |_: &str| false);
    assert_eq!(gen.get_query(), "Query");
    assert_eq!(gen.get_mutation(), "Mutation");
    assert!(!gen.is_mutation("x"));
}

#[test]
fn scalars_are_converted() {
    for (ty, expected) in [
        ("TYPE_DOUBLE", "Float"),
        ("TYPE_FLOAT", "Float"),
        ("type_int64", "Int"),
        ("TYPE_FIXED32", "Int"),
        ("uint64", "Int"),
        ("TYPE_BOOL", "Boolean"),
        ("bytes", "String"),
        ("TYPE_SINT32", "sint32"),
        ("BOOL", "BOOL"),
        ("News", "News"),
        ("Type_Foo", "foo"),
    ] {
        assert_eq!(convert_ty(ty), expected, "{ty}");
        assert_eq!(convert_lowered(ty, &ty.to_lowercase()), expected, "{ty}");
    }
    assert_eq!(convert_ty("TYPE_\u{c4}"), "\u{e4}");
}

#[test]
fn labels_give_flags() {
    assert_eq!(label_flags(Some(OPTIONAL)), (false, false));
    assert_eq!(label_flags(Some(REQUIRED)), (false, true));
    assert_eq!(label_flags(Some(REPEATED)), (true, false));
    assert_eq!(label_flags(Some(99)), (false, false));
    assert_eq!(label_flags(None), (false, false));
}

#[test]
fn every_type_number_is_known() {
    let expected = [
        "Float", "Float", "Float", "Int", "Int", "Int", "Int", "Int", "Boolean", "String", "group",
        "message", "String", "Int", "enum", "sfixed32", "sfixed64", "sint32", "sint64", "Float",
    ];
    for (number, ty) in expected.iter().enumerate() {
        let file = FileDescriptor {
            package: None,
            enum_type: vec![],
            message_type: vec![message(
                "M",
                vec![field("f", OPTIONAL, Some(number as i32), "Other")],
            )],
            service: vec![],
        };
        let sets = vec![FileDescriptorSet { file: vec![file] }];
        let config = from_proto(sets, get_generator_cfg(), Options::Merge).unwrap();
        assert_eq!(&config.types.get("M").unwrap().fields.get("f").unwrap().type_of, ty, "{number}");
    }
}

#[test]
fn empty_messages_are_a_nullable_string() {
    assert_eq!(get_output_ty("google.protobuf.Empty"), ("String".to_string(), false));
    assert_eq!(get_output_ty("News"), ("News".to_string(), true));
}

#[test]
fn arguments_are_named_after_their_type() {
    let helper = Helper::with_options(Options::Merge);
    assert_eq!(get_arg("google.protobuf.Empty", &helper), None);
    assert_eq!(get_arg("", &helper), None);
    let (name, arg) = get_arg("NewsId", &helper).unwrap();
    assert_eq!(name, "newsId");
    assert_eq!(arg.type_of, "NewsId");
    assert!(arg.required && !arg.list && arg.doc.is_none());
}

#[test]
fn helper_keeps_names_by_package() {
    let mut helper = Helper::with_options(Options::AppendPkgId("__".to_string()));
    helper.set_package("my.pkg_name");
    assert_eq!(helper.package(), "my.pkg_name");
    assert!(!helper.contains("Foo"));
    assert_eq!(helper.insert("Foo", DescriptorType::Message), Ok(()));
    assert_eq!(helper.get("Foo"), Some("Foo__My.pkgName".to_string()));
    assert_eq!(helper.get_value("Bar", DescriptorType::Enum), "Bar__MY.PKG NAME");
    assert_eq!(helper.get_value("GetBar", DescriptorType::Method), "getBar__My.pkgName");
    helper.set_package("other");
    assert_eq!(helper.get("Foo"), None);

    let mut strict = Helper::with_options(Options::FailIfCollide);
    assert_eq!(strict.insert("a.Foo", DescriptorType::Enum), Ok(()));
    assert_eq!(
        strict.insert("Foo", DescriptorType::Enum),
        Err(FromProtoError::DuplicateKeys("Foo".to_string()))
    );
    assert_eq!(strict.insert("a.Foo", DescriptorType::Enum), Ok(()));
    assert_eq!(strict.get("a.Foo"), Some("a.Foo".to_string()));
}

#[test]
fn suffixes_are_added_where_there_is_a_separator() {
    assert_eq!(with_suffix("a", Some("_"), "B"), "a_B");
    assert_eq!(with_suffix("a", None, "B"), "a");
}
