use schema_rename::config::{ArgInfo, Config, FieldInfo, TypeInfo};
use schema_rename::rename::RenameTypes;

fn field(type_of: &str) -> FieldInfo {
    FieldInfo::new(type_of.to_string())
}

fn field_with_arg(type_of: &str, arg_name: &str, arg_type: &str) -> FieldInfo {
    let mut f = FieldInfo::new(type_of.to_string());
    f.args
        .insert(arg_name.to_string(), ArgInfo::new(arg_type.to_string()));
    f
}

fn ty(fields: Vec<(&str, FieldInfo)>) -> TypeInfo {
    let mut t = TypeInfo::new();
    for (n, f) in fields {
        t.fields.insert(n.to_string(), f);
    }
    t
}

fn pairs(ps: &[(&str, &str)]) -> Vec<(String, String)> {
    ps.iter()
        .map(|(a, b)| (a.to_string(), b.to_string()))
        .collect()
}

fn keys_of(config: &Config) -> Vec<String> {
    let mut out = Vec::new();
    for i in 0..config.types.len() {
        out.push(config.types.key_at(i).clone());
    }
    out
}

/// The configuration of the first scenario: types A, Post, B, Query and
/// Mutation, a query root of Query, a field Query.posts referencing Post,
/// and a field Mutation.createUser taking an argument of B and returning A.
fn scenario_config() -> Config {
    let mut config = Config::new();
    config.types.insert(
        "A".to_string(),
        ty(vec![("id", field("ID")), ("name", field("String"))]),
    );
    config.types.insert(
        "Post".to_string(),
        ty(vec![
            ("id", field("ID")),
            ("title", field("String")),
            ("body", field("String")),
        ]),
    );
    config.types.insert(
        "B".to_string(),
        ty(vec![("name", field("String")), ("username", field("String"))]),
    );
    config
        .types
        .insert("Query".to_string(), ty(vec![("posts", field("Post"))]));
    config.types.insert(
        "Mutation".to_string(),
        ty(vec![("createUser", field_with_arg("A", "user", "B"))]),
    );
    config.schema.query = Some("Query".to_string());
    config
}

#[test]
fn test_rename_type() {
    let config = scenario_config();

    let cfg = RenameTypes::new(pairs(&[
        ("Query", "PostQuery"),
        ("A", "User"),
        ("B", "InputUser"),
        ("Mutation", "UserMutation"),
    ]))
    .transform(config)
    .to_result()
    .ok()
    .unwrap();

    assert_eq!(
        keys_of(&cfg),
        vec!["User", "Post", "InputUser", "PostQuery", "UserMutation"]
    );
    assert_eq!(cfg.schema.query, Some("PostQuery".to_string()));
    assert_eq!(cfg.schema.mutation, None);

    let query_ty = cfg.types.get(&"PostQuery".to_string()).unwrap();
    let posts = query_ty.fields.get(&"posts".to_string()).unwrap();
    assert_eq!(posts.type_of, "Post");

    let mutation_ty = cfg.types.get(&"UserMutation".to_string()).unwrap();
    let create_user = mutation_ty.fields.get(&"createUser".to_string()).unwrap();
    assert_eq!(create_user.type_of, "User");
    let user_arg = create_user.args.get(&"user".to_string()).unwrap();
    assert_eq!(user_arg.type_of, "InputUser");
}

#[test]
fn test_should_raise_error_when_operation_type_name_is_different() {
    let mut config = Config::new();
    config.types.insert(
        "Post".to_string(),
        ty(vec![("id", field("ID")), ("title", field("String"))]),
    );
    config
        .types
        .insert("PostQuery".to_string(), ty(vec![("posts", field("Post"))]));
    config.schema.query = Some("PostQuery".to_string());

    let result = RenameTypes::new(pairs(&[("Query", "PostQuery")]))
        .transform(config)
        .to_result();
    assert!(result.is_err());
}

#[test]
fn test_should_raise_error_when_type_not_found() {
    let mut config = Config::new();
    config.types.insert(
        "A".to_string(),
        ty(vec![("id", field("ID")), ("name", field("String"))]),
    );
    config.types.insert(
        "Post".to_string(),
        ty(vec![
            ("id", field("ID")),
            ("title", field("String")),
            ("body", field("String")),
        ]),
    );
    config
        .types
        .insert("Query".to_string(), ty(vec![("posts", field("Post"))]));
    config.schema.query = Some("Query".to_string());

    let actual = RenameTypes::new(pairs(&[
        ("Query", "PostQuery"),
        ("A", "User"),
        ("B", "User"),
        ("C", "User"),
    ]))
    .transform(config)
    .to_result()
    .err()
    .unwrap();

    let expected = vec![
        "Type 'B' not found in configuration.".to_string(),
        "Type 'C' not found in configuration.".to_string(),
    ];
    assert_eq!(actual, expected);
}

#[test]
fn missing_query_reports_exact_message() {
    let mut config = Config::new();
    config
        .types
        .insert("Post".to_string(), ty(vec![("id", field("ID"))]));

    let errors = RenameTypes::new(pairs(&[("Query", "PostQuery")]))
        .transform(config)
        .to_result()
        .err()
        .unwrap();
    assert_eq!(errors, vec!["Type 'Query' not found in configuration.".to_string()]);
}

#[test]
fn errors_keep_mapping_order_and_skip_existing_names() {
    let mut config = Config::new();
    config.types.insert("Query".to_string(), TypeInfo::new());
    config.types.insert("Post".to_string(), TypeInfo::new());

    let errors = RenameTypes::new(pairs(&[
        ("X", "X2"),
        ("Query", "Query2"),
        ("Y", "Y2"),
        ("Post", "Post2"),
        ("Z", "Z2"),
    ]))
    .transform(config)
    .to_result()
    .err()
    .unwrap();

    assert_eq!(
        errors,
        vec![
            "Type 'X' not found in configuration.".to_string(),
            "Type 'Y' not found in configuration.".to_string(),
            "Type 'Z' not found in configuration.".to_string(),
        ]
    );
}

#[test]
fn empty_rename_returns_configuration_unchanged() {
    let config = scenario_config();
    let cfg = RenameTypes::new(Vec::new())
        .transform(config)
        .to_result()
        .ok()
        .unwrap();

    assert_eq!(keys_of(&cfg), vec!["A", "Post", "B", "Query", "Mutation"]);
    assert_eq!(cfg.schema.query, Some("Query".to_string()));
    let mutation_ty = cfg.types.get(&"Mutation".to_string()).unwrap();
    let create_user = mutation_ty.fields.get(&"createUser".to_string()).unwrap();
    assert_eq!(create_user.type_of, "A");
    assert_eq!(
        create_user.args.get(&"user".to_string()).unwrap().type_of,
        "B"
    );
}

#[test]
fn mutation_root_is_rewritten() {
    let mut config = Config::new();
    config.types.insert("Query".to_string(), TypeInfo::new());
    config.types.insert("Mutation".to_string(), TypeInfo::new());
    config.schema.query = Some("Query".to_string());
    config.schema.mutation = Some("Mutation".to_string());

    let cfg = RenameTypes::new(pairs(&[("Mutation", "UserMutation")]))
        .transform(config)
        .to_result()
        .ok()
        .unwrap();
    assert_eq!(cfg.schema.query, Some("Query".to_string()));
    assert_eq!(cfg.schema.mutation, Some("UserMutation".to_string()));
}

#[test]
fn root_naming_an_unrenamed_type_is_unchanged() {
    let mut config = Config::new();
    config.types.insert("Query".to_string(), TypeInfo::new());
    config.types.insert("Other".to_string(), TypeInfo::new());
    config.schema.query = Some("Query".to_string());

    let cfg = RenameTypes::new(pairs(&[("Other", "Renamed")]))
        .transform(config)
        .to_result()
        .ok()
        .unwrap();
    assert_eq!(cfg.schema.query, Some("Query".to_string()));
}

#[test]
fn references_to_unrenamed_types_are_untouched() {
    let mut config = Config::new();
    config.types.insert("Keep".to_string(), TypeInfo::new());
    config.types.insert(
        "Query".to_string(),
        ty(vec![("a", field("Keep")), ("b", field("Query"))]),
    );

    let cfg = RenameTypes::new(pairs(&[("Query", "Q2")]))
        .transform(config)
        .to_result()
        .ok()
        .unwrap();
    let q = cfg.types.get(&"Q2".to_string()).unwrap();
    assert_eq!(q.fields.get(&"a".to_string()).unwrap().type_of, "Keep");
    assert_eq!(q.fields.get(&"b".to_string()).unwrap().type_of, "Q2");
}

#[test]
fn renamed_entries_keep_their_positions() {
    let mut config = Config::new();
    config.types.insert("First".to_string(), TypeInfo::new());
    config.types.insert("Second".to_string(), TypeInfo::new());
    config.types.insert("Third".to_string(), TypeInfo::new());

    let cfg = RenameTypes::new(pairs(&[("Second", "Middle")]))
        .transform(config)
        .to_result()
        .ok()
        .unwrap();
    assert_eq!(keys_of(&cfg), vec!["First", "Middle", "Third"]);
}

#[test]
fn renaming_onto_an_existing_type_overwrites_it() {
    let mut config = Config::new();
    config
        .types
        .insert("A".to_string(), ty(vec![("a_field", field("String"))]));
    config
        .types
        .insert("B".to_string(), ty(vec![("b_field", field("Int"))]));
    config.types.insert("C".to_string(), TypeInfo::new());

    let cfg = RenameTypes::new(pairs(&[("A", "B")]))
        .transform(config)
        .to_result()
        .ok()
        .unwrap();

    // A's slot disappears; B's slot keeps its position but now holds A's body.
    assert_eq!(keys_of(&cfg), vec!["B", "C"]);
    let b = cfg.types.get(&"B".to_string()).unwrap();
    assert!(b.fields.get(&"a_field".to_string()).is_some());
    assert!(b.fields.get(&"b_field".to_string()).is_none());
}

#[test]
fn duplicate_old_names_use_the_last_pair() {
    let mut config = Config::new();
    config.types.insert("A".to_string(), TypeInfo::new());

    let cfg = RenameTypes::new(pairs(&[("A", "X"), ("A", "Y")]))
        .transform(config)
        .to_result()
        .ok()
        .unwrap();
    assert_eq!(keys_of(&cfg), vec!["Y"]);
}

#[test]
fn chained_renames_follow_mapping_order() {
    // Renaming A onto an existing B, then renaming B: the second pair acts
    // on whatever sits under B when its turn comes.
    let mut config = Config::new();
    config
        .types
        .insert("A".to_string(), ty(vec![("from_a", field("String"))]));
    config
        .types
        .insert("B".to_string(), ty(vec![("from_b", field("String"))]));

    let cfg = RenameTypes::new(pairs(&[("A", "B"), ("B", "C")]))
        .transform(config)
        .to_result()
        .ok()
        .unwrap();
    assert_eq!(keys_of(&cfg), vec!["C"]);
    let c = cfg.types.get(&"C".to_string()).unwrap();
    assert!(c.fields.get(&"from_a".to_string()).is_some());
}

#[test]
fn subscription_root_is_never_touched() {
    let mut config = Config::new();
    config.types.insert("Sub".to_string(), TypeInfo::new());
    config.schema.subscription = Some("Sub".to_string());

    let cfg = RenameTypes::new(pairs(&[("Sub", "Events")]))
        .transform(config)
        .to_result()
        .ok()
        .unwrap();
    assert_eq!(cfg.schema.subscription, Some("Sub".to_string()));
    assert_eq!(keys_of(&cfg), vec!["Events"]);
}
