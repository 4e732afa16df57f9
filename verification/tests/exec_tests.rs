use rstrouter::context::Context;
use rstrouter::render::render_obj;
use rstrouter::request::Request;
use rstrouter::tasks::{AssignFactory, DeclarationFactory, MockFactory, RetFactory, Task};
use rstrouter::yaml::parse_yaml;

fn fresh_context() -> Context {
    Context::from_request(Request::default(), "./dsl_root")
}

#[test]
fn test_declaration_task() {
    let factory = DeclarationFactory::new();
    let obj = factory.from_yml(
        "test",
        &parse_yaml(
            r#"
                    test:
                      call: declare
                "#,
        )
        .unwrap(),
    );

    assert!(obj.is_some());
    match obj.unwrap() {
        Task::Declaration(t) => {
            assert!(t.execute().is_none());
        },
        _ => panic!("expected a declaration task"),
    }
}

#[test]
fn test_default_return_status_code() {
    let factory = RetFactory::new();
    let task = factory
        .from_yml(
            "test",
            &parse_yaml(
                r#"
                        test:
                          return: ok

                        some_next_task:
                          return: ok
                    "#,
            )
            .unwrap(),
        )
        .unwrap();

    let mut context = fresh_context();
    let next = match task {
        Task::Ret(t) => t.execute(&mut context),
        _ => panic!("expected a return task"),
    };
    assert_eq!(next.as_deref(), Some("some_next_task"));
    let res_v = context.get_return_value();
    assert_eq!(res_v.status, 200);
}

#[test]
fn test_custom_return_status_code() {
    let factory = RetFactory::new();
    let task = factory
        .from_yml(
            "test",
            &parse_yaml(
                r#"
                        test:
                          return: ok
                          status: 201
                    "#,
            )
            .unwrap(),
        )
        .unwrap();

    let mut context = fresh_context();
    match task {
        Task::Ret(t) => t.execute(&mut context),
        _ => panic!("expected a return task"),
    };
    let res_v = context.get_return_value();
    assert_eq!(res_v.status, 201);
}

#[test]
fn test_return_value() {
    let factory = RetFactory::new();
    let task = factory
        .from_yml(
            "test",
            &parse_yaml(
                r#"
                        test:
                          return: ${some}
                    "#,
            )
            .unwrap(),
        )
        .unwrap();

    let mut context = fresh_context();
    context.evaluate_expr(&Context::wrap_js_code("var some = {a: '123'};"));

    match task {
        Task::Ret(t) => t.execute(&mut context),
        _ => panic!("expected a return task"),
    };
    let res_v = context.get_return_value();
    assert_eq!(res_v.json.get("a").unwrap().as_str().unwrap(), "123");
}

#[test]
fn test_return_complex_value() {
    let factory = RetFactory::new();
    let task = factory
        .from_yml(
            "test",
            &parse_yaml(
                r#"
                        test:
                          return:
                            - ${some}
                            - 2
                            - some: ${some}
                    "#,
            )
            .unwrap(),
        )
        .unwrap();

    let mut context = fresh_context();
    context.evaluate_expr(&Context::wrap_js_code("var some = {a: '123'};"));

    match task {
        Task::Ret(t) => t.execute(&mut context),
        _ => panic!("expected a return task"),
    };
    let res_v = context.get_return_value();
    let arr = match res_v.json {
        rstrouter::json::JsonValue::Arr(items) => items,
        _ => panic!("expected an array"),
    };
    assert_eq!(arr.len(), 3);
    for (i, el) in arr.iter().enumerate() {
        if i == 0 {
            assert_eq!(el.get("a").unwrap().as_str().unwrap(), "123");
        }
        if i == 1 {
            assert_eq!(el.as_i64().unwrap(), 2);
        }
        if i == 2 {
            assert_eq!(
                el.get("some").unwrap().get("a").unwrap().as_str().unwrap(),
                "123"
            );
        }
        if i >= 3 {
            panic!("array had to be smaller");
        }
    }
}

#[test]
fn test_assign_task() {
    let factory = AssignFactory::new();

    let obj = factory.from_yml(
        "test",
        &parse_yaml(
            r#"
                    test:
                      assign:
                        var_name: some string
                        var_rendered: ${1 + 3}
                        var_rendered2: some string ${1 + 3}
                        var_rendered3:
                            a: 5
                "#,
        )
        .unwrap(),
    );

    assert!(obj.is_some());

    let context = fresh_context();
    match obj.unwrap() {
        Task::Assign(t) => t.execute(&context),
        _ => panic!("expected an assignment task"),
    };

    let v = context.evaluate_expr("${var_name}");
    assert_eq!(v.as_str().unwrap(), "some string");
    let v = context.evaluate_expr("${var_rendered}");
    assert_eq!(v.as_i64().unwrap(), 4);
    let v = context.evaluate_expr("${var_rendered2}");
    assert_eq!(v.as_str().unwrap(), "some string 4");
    let v = context.evaluate_expr("${var_rendered3}");
    assert_eq!(v.get("a").unwrap().as_i64().unwrap(), 5);
}

#[test]
fn test_mock_tasks() {
    let factory = MockFactory::new();
    let value = factory.from_yml(
        "test",
        &parse_yaml(
            r#"
                    test:
                      call: reflect.mock
                      sleep: 500
                      args:
                        response:
                          body:
                           some: body
                      result: test
                "#,
        )
        .unwrap(),
    );

    assert!(value.is_some());

    let context = fresh_context();
    let sleep = match value.unwrap() {
        Task::Mock(t) => t.execute(&context),
        _ => panic!("expected a mock task"),
    };
    assert_eq!(sleep, 500);

    let v = context.evaluate_expr("${test}");
    assert_eq!(
        v.get("response").unwrap().get("body").unwrap().get("some").unwrap().as_str().unwrap(),
        "body"
    );
}

#[test]
fn render_obj_test() {
    let context = fresh_context();

    let yml = parse_yaml(
        r#"
                obj:
                  str: ${"some string"}
                  bool: true
                  nullable: null
                  number: 123
                  sequence:
                   - ${1 + 2}
            "#,
    )
    .unwrap();

    let v = render_obj(&yml, &context);
    let obj = v.get("obj").unwrap();
    assert_eq!(obj.get("str").unwrap().as_str().unwrap(), "some string");
    assert_eq!(obj.get("bool").unwrap().as_bool().unwrap(), true);
    assert!(obj.get("nullable").unwrap().is_null());
    assert_eq!(obj.get("number").unwrap().as_i64().unwrap(), 123);
    let seq = obj.get("sequence").unwrap();
    match seq {
        rstrouter::json::JsonValue::Arr(items) => {
            assert_eq!(items.first().unwrap().as_i64().unwrap(), 3);
        },
        _ => panic!("expected an array"),
    }
}
