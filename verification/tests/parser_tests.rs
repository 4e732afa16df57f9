use rstrouter::json::{json_parse, json_to_string, JsonValue};
use rstrouter::parser::{EndpointMethod, EndpointsCollection, FsNode};
use rstrouter::render::preprocess_obj;
use rstrouter::request::Request;
use rstrouter::text::fill_env_vars;
use rstrouter::yaml::parse_yaml;

fn file(name: &str, content: &str) -> FsNode {
    FsNode::File { name: String::from(name), content: String::from(content) }
}

fn dir(name: &str, entries: Vec<FsNode>) -> FsNode {
    FsNode::Dir { name: String::from(name), entries }
}

#[test]
fn smoke_test_fold_is_parsing() {
    let guard = r#"
        check:
          return: ok
    "#;
    let endpoint = r#"
        test:
          return: ok
    "#;
    let tree = vec![dir(
        "some",
        vec![
            file(".guard", guard),
            dir("POST", vec![file("test.yml", endpoint)]),
            dir("GET", vec![file(".guard.yml", guard), file("test.yml", endpoint)]),
        ],
    )];

    let endp = EndpointsCollection::parse_from_tree(&tree);
    assert_eq!(endp.endpoints.len(), 2);

    let first_endp = &endp.endpoints[0];
    assert_eq!(first_endp.method, EndpointMethod::Post);
    assert_eq!(first_endp.guards.len(), 1);

    let second_endp = &endp.endpoints[1];
    assert_eq!(second_endp.method, EndpointMethod::Get);
    assert_eq!(second_endp.guards.len(), 2);
}

#[test]
fn endpoint_paths_follow_the_tree() {
    let endpoint = r#"
        test:
          return: ok
    "#;
    let tree = vec![dir(
        "proj",
        vec![dir("GET", vec![dir("sub", vec![file("leaf.yml", endpoint)])])],
    )];
    let endp = EndpointsCollection::parse_from_tree(&tree);
    assert_eq!(endp.endpoints.len(), 1);
    assert_eq!(endp.endpoints[0].url_path, "/proj/sub/leaf");
    assert_eq!(endp.endpoints[0].tag, "proj");
    assert_eq!(endp.endpoints[0].get_url_path(), "/proj/sub/leaf");
    assert_eq!(endp.endpoints[0].get_endpoint_tag(), "proj");
}

#[test]
fn unreadable_yaml_is_skipped() {
    let tree = vec![dir("p", vec![dir("GET", vec![file("bad.yml", ": : :")])])];
    let endp = EndpointsCollection::parse_from_tree(&tree);
    assert_eq!(endp.endpoints.len(), 0);
    assert!(parse_yaml(": : :").is_none());
}

#[test]
fn test_request() {
    let request = Request::new(
        vec![(String::from("test"), String::from("1234"))],
        json_parse("{\"obj\": 1234}").unwrap(),
        vec![
            (String::from("a"), String::from("b")),
            (String::from("c"), String::from("d")),
        ],
    );

    let headers = request.headers;
    assert_eq!(headers[0].0, "test");
    assert_eq!(headers[0].1, "1234");

    let query = request.params;
    assert_eq!(query[0], (String::from("a"), String::from("b")));
    assert_eq!(query[1], (String::from("c"), String::from("d")));

    let body = request.body;
    assert_eq!(body.get("obj").unwrap().as_i64().unwrap(), 1234);
}

#[test]
fn test_default() {
    let req = Request::default();
    assert!(req.params.is_empty());
    assert!(req.headers.is_empty());
    assert!(req.body.is_null());
}

#[test]
fn preprocess_obj_test_without_env() {
    let yml = parse_yaml(
        r#"
              test:
                obj:
                  a: b
                arr:
                  - 1
                str: str
            "#,
    )
    .unwrap();
    let env: Vec<(String, String)> = Vec::new();
    let processed_yml = preprocess_obj(&yml, &env);
    assert_eq!(
        processed_yml
            .get("test")
            .and_then(|f| f.get("obj"))
            .and_then(|f| f.get("a"))
            .unwrap()
            .as_str()
            .unwrap(),
        "b"
    );
    assert_eq!(
        processed_yml.get("test").and_then(|f| f.get("str")).unwrap().as_str().unwrap(),
        "str"
    );

    assert_eq!(
        processed_yml
            .get("test")
            .and_then(|f| f.get("arr"))
            .and_then(|f| f.as_sequence())
            .and_then(|f| f.first())
            .unwrap()
            .as_u64()
            .unwrap(),
        1
    );
}

#[test]
fn preprocess_obj_test_env() {
    let yml_text = r#"
              test:
                obj:
                  a: b[#TEST]
                arr:
                  - 1[#TEST]
                str: str[#TEST]
            "#;
    let yml = parse_yaml(yml_text).unwrap();
    let empty_env: Vec<(String, String)> = Vec::new();
    let processed_yml = preprocess_obj(&yml, &empty_env);

    assert_eq!(
        processed_yml
            .get("test")
            .and_then(|f| f.get("obj"))
            .and_then(|f| f.get("a"))
            .unwrap()
            .as_str()
            .unwrap(),
        "b"
    );

    assert_eq!(
        processed_yml.get("test").and_then(|f| f.get("str")).unwrap().as_str().unwrap(),
        "str"
    );

    assert_eq!(
        processed_yml
            .get("test")
            .and_then(|f| f.get("arr"))
            .and_then(|f| f.as_sequence())
            .and_then(|f| f.first())
            .unwrap()
            .as_str()
            .unwrap(),
        "1"
    );

    let env = vec![(String::from("TEST"), String::from("some"))];
    let yml = parse_yaml(yml_text).unwrap();
    let processed_yml = preprocess_obj(&yml, &env);

    assert_eq!(
        processed_yml
            .get("test")
            .and_then(|f| f.get("obj"))
            .and_then(|f| f.get("a"))
            .unwrap()
            .as_str()
            .unwrap(),
        "bsome"
    );

    assert_eq!(
        processed_yml.get("test").and_then(|f| f.get("str")).unwrap().as_str().unwrap(),
        "strsome"
    );

    assert_eq!(
        processed_yml
            .get("test")
            .and_then(|f| f.get("arr"))
            .and_then(|f| f.as_sequence())
            .and_then(|f| f.first())
            .unwrap()
            .as_str()
            .unwrap(),
        "1some"
    );
}

#[test]
fn fill_env_vars_handles_markers() {
    let env = vec![(String::from("NAME"), String::from("value"))];
    assert_eq!(fill_env_vars("pre [#NAME] post", &env), "pre value post");
    assert_eq!(fill_env_vars("no markers", &env), "no markers");
    assert_eq!(fill_env_vars("[#UNSET]x", &env), "x");
    assert_eq!(fill_env_vars("broken [#NAME", &env), "broken [#NAME");
    assert_eq!(fill_env_vars("[#NAME][#NAME]", &env), "valuevalue");
}

#[test]
fn json_round_trip_small_values() {
    assert_eq!(json_to_string(&JsonValue::Int(3)), "3");
    let parsed = json_parse("{\"a\": [1, true, null]}").unwrap();
    let arr = parsed.get("a").unwrap();
    match arr {
        JsonValue::Arr(items) => {
            assert_eq!(items.len(), 3);
            assert_eq!(items[0].as_i64().unwrap(), 1);
            assert_eq!(items[1].as_bool().unwrap(), true);
            assert!(items[2].is_null());
        },
        _ => panic!("expected an array"),
    }
}
