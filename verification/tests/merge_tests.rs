use rstrouter::parser::Endpoint;
use rstrouter::yaml::{parse_yaml, YamlValue};

fn parse(s: &str) -> YamlValue {
    parse_yaml(s).unwrap()
}

#[test]
fn test_merge_mappings_enum() {
    let left_val = parse(
        r#"
                enum: ["1", "2", "3"]
            "#,
    );

    let right_val = parse(
        r#"
                enum: ["3", "4", "5", "6", "7"]
            "#,
    );

    let mut into = YamlValue::Mapping(Vec::new());

    Endpoint::merge_mappings_enum(&left_val, &right_val, &mut into);

    assert_eq!(into.get("enum").unwrap().as_sequence().unwrap().len(), 7);

    let mut into = YamlValue::Mapping(Vec::new());
    let null = YamlValue::Null;

    Endpoint::merge_mappings_enum(&null, &right_val, &mut into);

    assert_eq!(into.get("enum").unwrap().as_sequence().unwrap().len(), 5);

    let mut into = YamlValue::Mapping(Vec::new());

    Endpoint::merge_mappings_enum(&left_val, &null, &mut into);

    assert_eq!(into.get("enum").unwrap().as_sequence().unwrap().len(), 3);

    let mut into = YamlValue::Mapping(Vec::new());

    Endpoint::merge_mappings_enum(&null, &null, &mut into);

    assert!(into.get("enum").is_none());
}

#[test]
fn test_merge_mappings_descriptions() {
    let left_val = parse(
        r#"
                description: some
            "#,
    );

    let right_val = parse(
        r#"
                description: another
            "#,
    );

    let mut into = YamlValue::Mapping(Vec::new());

    Endpoint::merge_mappings_descriptions(&left_val, &right_val, &mut into);

    assert_eq!(into.get("description").unwrap().as_str().unwrap(), "some; another");

    let mut into = YamlValue::Mapping(Vec::new());
    let null = YamlValue::Null;

    Endpoint::merge_mappings_descriptions(&null, &right_val, &mut into);

    assert_eq!(into.get("description").unwrap().as_str().unwrap(), "another");

    let mut into = YamlValue::Mapping(Vec::new());

    Endpoint::merge_mappings_descriptions(&left_val, &null, &mut into);

    assert_eq!(into.get("description").unwrap().as_str().unwrap(), "some");

    let mut into = YamlValue::Mapping(Vec::new());

    Endpoint::merge_mappings_descriptions(&null, &null, &mut into);

    assert!(into.get("description").is_none());
}

#[test]
fn test_merge_mappings_type_object() {
    let mut into = YamlValue::Mapping(Vec::new());
    let object_left = parse(
        r#"
                fields:
                  - field: test
                    type: string
                  - field: test1
                    type: string
            "#,
    );
    let object_right = parse(
        r#"
                fields:
                  - field: test
                    type: string
                  - field: test2
                    type: string
            "#,
    );

    Endpoint::merge_mappings_type_object(&object_left, &object_right, &mut into);
    assert_eq!(into.get("fields").unwrap().as_sequence().unwrap().len(), 3);
}

#[test]
fn test_merge_mappings_type_array() {
    let mut into = YamlValue::Mapping(Vec::new());
    let object_left = parse(
        r#"
                items:
                  type: object
                  fields:
                    - field: hello
                      type: string
                    - field: world
                      type: string
                      description: hello
                  description: hello
            "#,
    );
    let object_right = parse(
        r#"
                items:
                  type: object
                  description: world
                  fields:
                    - field: hello
                      type: string
                    - field: world
                      type: string
                      description: world
            "#,
    );
    Endpoint::merge_mappings_type_array(&object_left, &object_right, &mut into);
    assert_eq!(
        into.get("items").unwrap().get("description").unwrap().as_str().unwrap(),
        "hello; world"
    );
}

#[test]
fn test_merge_mappings() {
    let object_left = parse(
        r#"
                type: string
                description: hello!
                enum: ['1', '2']
            "#,
    );
    let object_right = parse(
        r#"
                type: string
                description: world!
                enum: ['2', '3']
            "#,
    );
    let res = Endpoint::merge_mappings(&object_left, &object_right);
    assert_eq!(res.get("description").unwrap().as_str().unwrap(), "hello!; world!");
    assert_eq!(res.get("type").unwrap().as_str().unwrap(), "string");
    assert_eq!(res.get("enum").unwrap().as_sequence().unwrap().len(), 3);

    let object_right = parse(
        r#"
                type: number
                description: world!
            "#,
    );
    let res = Endpoint::merge_mappings(&object_left, &object_right);
    assert_eq!(res.get("type").unwrap().as_str().unwrap(), "string");
    assert_eq!(res.get("description").unwrap().as_str().unwrap(), "hello!");

    let object_left = parse(
        r#"
                type: object
                description: hello!
            "#,
    );
    let object_right = parse(
        r#"
                type: object
                description: world!
            "#,
    );
    let res = Endpoint::merge_mappings(&object_left, &object_right);
    assert_eq!(res.get("description").unwrap().as_str().unwrap(), "hello!; world!");

    let object_left = parse(
        r#"
                type: array
                description: hello!
            "#,
    );
    let object_right = parse(
        r#"
                type: array
                description: world!
            "#,
    );
    let res = Endpoint::merge_mappings(&object_left, &object_right);
    assert_eq!(res.get("description").unwrap().as_str().unwrap(), "hello!; world!");
}

#[test]
fn test_merge_sequence() {
    let b_left = parse(
        r#"
                - field: test1
                  type: number
                - field: test2
                  type: string
            "#,
    );
    let b_right = parse(
        r#"
                - field: test2
                  type: string
                - field: test3
                  type: object
            "#,
    );
    let res = Endpoint::merge_sequences(&b_left, &b_right);
    assert_eq!(res.as_sequence().unwrap().len(), 3);
}

#[test]
fn test_merge_seq_with_map() {
    let b_left = parse(
        r#"
                - field: test2
                  type: string
                - field: test3
                  type: object
            "#,
    );
    let b_right = parse(
        r#"
                type: object
                fields:
                  - field: test1
                    type: number
                  - field: test2
                    type: string
            "#,
    );
    let res = Endpoint::merge_seq_with_map(&b_left, &b_right);
    assert_eq!(res.get("fields").unwrap().as_sequence().unwrap().len(), 3);
}

#[test]
fn test_merge_two_types() {
    let null = YamlValue::Null;
    let seq = parse(
        r#"
                - field: test2
                  type: string
                - field: test3
                  type: object
            "#,
    );
    let obj = parse(
        r#"
                type: object
                fields:
                  - field: test1
                    type: number
                  - field: test2
                    type: string
            "#,
    );
    let number = parse("5");

    let res = Endpoint::merge_two_types(&null, &obj);
    assert_eq!(res, obj);

    let res = Endpoint::merge_two_types(&seq, &null);
    assert_eq!(res, seq);

    let res = Endpoint::merge_two_types(&seq, &number);
    assert_eq!(res, seq);

    let res = Endpoint::merge_two_types(&number, &seq);
    assert_eq!(res, number);

    let res = Endpoint::merge_two_types(&number, &null);
    assert_eq!(res, number);

    let res = Endpoint::merge_two_types(&seq, &obj);
    assert_eq!(res.get("fields").unwrap().as_sequence().unwrap().len(), 3);

    let res = Endpoint::merge_two_types(&obj, &seq);
    assert_eq!(res.get("fields").unwrap().as_sequence().unwrap().len(), 3);
}

#[test]
fn test_merge_two_declarations_wraps_declaration() {
    let l = parse(
        r#"
            doc:
              call: declare
              description: left side
              allowlist:
                params:
                  - field: a
                    type: string
        "#,
    );
    let r = parse(
        r#"
            doc:
              call: declare
              description: right side
              allowlist:
                params:
                  - field: a
                    type: string
                  - field: b
                    type: string
        "#,
    );
    let merged = Endpoint::merge_two_declarations(&l, &r);
    let decl = merged.get("declaration").unwrap();
    assert_eq!(decl.get("call").unwrap().as_str().unwrap(), "declare");
    assert_eq!(decl.get("description").unwrap().as_str().unwrap(), "left side; right side");
    let allowlist = decl.get("allowlist").unwrap();
    assert_eq!(allowlist.get("params").unwrap().as_sequence().unwrap().len(), 2);
}

#[test]
fn test_merge_declaration_serializes() {
    let mut endpoint = Endpoint {
        guards: Vec::new(),
        tag: String::from("t"),
        url_path: String::from("/t/x"),
        method: rstrouter::parser::EndpointMethod::Get,
        yml_content: parse(
            r#"
                doc:
                  call: declare
                  description: hello
            "#,
        ),
        merged_declaration: String::new(),
    };
    endpoint.merge_declaration();
    assert!(endpoint.merged_declaration.contains("declaration"));
    assert!(endpoint.merged_declaration.contains("hello"));
}
