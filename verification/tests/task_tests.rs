use rstrouter::tasks::{
    produce_task, AssignFactory, DeclarationFactory, HttpFactory, MockFactory, RetFactory,
    SwitchFactory, Task, TemplateFactory,
};
use rstrouter::yaml::parse_yaml;

#[test]
fn assign_test_task_is_not_parsed() {
    let factory = AssignFactory::new();

    let obj = factory.from_yml(
        "test",
        &parse_yaml(
            r#"
                    test:
                      assign:
                        - 1
                        - 2
                        - 3
                "#,
        )
        .unwrap(),
    );

    assert!(obj.is_none());

    let obj = factory.from_yml(
        "test",
        &parse_yaml(
            r#"
                    test:
                      return: 0
                "#,
        )
        .unwrap(),
    );

    assert!(obj.is_none());
}

#[test]
fn declaration_test_task_is_not_parsed() {
    let factory = DeclarationFactory::new();

    let obj = factory.from_yml(
        "test",
        &parse_yaml(
            r#"
                    test:
                      return: ok
                "#,
        )
        .unwrap(),
    );

    assert!(obj.is_none());
}

#[test]
fn declaration_task_is_parsed() {
    let factory = DeclarationFactory::new();
    let obj = factory.from_yml(
        "test",
        &parse_yaml(
            r#"
                    test:
                      call: declare
                "#,
        )
        .unwrap(),
    );

    assert!(obj.is_some());
}

#[test]
fn http_factory_returns_none() {
    let factory = HttpFactory::new();
    let value = factory.from_yml(
        "test",
        &parse_yaml(
            r#"
                    test:
                      assign:
                        a: b
                "#,
        )
        .unwrap(),
    );
    assert!(value.is_none());
}

#[test]
fn http_factory_parses_post() {
    let factory = HttpFactory::new();
    let value = factory.from_yml(
        "test",
        &parse_yaml(
            r#"
                    test:
                      call: http.post
                      args:
                        url: http://localhost:8090/test
                        headers:
                          a: b
                      result: res
                "#,
        )
        .unwrap(),
    );
    match value {
        Some(Task::Http(t)) => {
            assert_eq!(t.args.url, "http://localhost:8090/test");
            assert_eq!(t.args.method, rstrouter::tasks::HttpMethod::Post);
            assert_eq!(t.args.headers.len(), 1);
            assert_eq!(t.result.as_deref(), Some("res"));
        },
        _ => panic!("expected an outbound call task"),
    }
}

#[test]
fn mock_factory_returns_none() {
    let factory = MockFactory::new();
    let value = factory.from_yml(
        "test",
        &parse_yaml(
            r#"
                    test:
                      args:
                        url: https://localhost/none
                "#,
        )
        .unwrap(),
    );

    assert!(value.is_none());
}

#[test]
fn ret_factory_returns_none() {
    let factory = RetFactory::new();
    let value = factory.from_yml(
        "test",
        &parse_yaml(
            r#"
                    test:
                      assign:
                        a: b
                "#,
        )
        .unwrap(),
    );
    assert!(value.is_none());
}

#[test]
fn factory_returns_task() {
    let factory = RetFactory::new();
    let value = factory.from_yml(
        "test",
        &parse_yaml(
            r#"
                    test:
                      return: ok
                "#,
        )
        .unwrap(),
    );
    assert!(value.is_some());
}

#[test]
fn switch_factory_returns_none() {
    let factory = SwitchFactory::new();
    let value = factory.from_yml(
        "test",
        &parse_yaml(
            r#"
                    test:
                      switch:
                        incorrect: condition
                "#,
        )
        .unwrap(),
    );

    assert!(value.is_none())
}

#[test]
fn template_test_task_is_not_parsed() {
    let factory = TemplateFactory::new();
    let obj = factory.from_yml(
        "test",
        &parse_yaml(
            r#"
                    test:
                      return: ok
                "#,
        )
        .unwrap(),
    );

    assert!(obj.is_none());
}

#[test]
fn test_produce_task() {
    let yml = parse_yaml(
        r#"
                test:
                  some: task
            "#,
    )
    .unwrap();
    let t = produce_task("test", &yml);
    assert!(t.is_none());

    let yml = parse_yaml(
        r#"
                test:
                  some: task
            "#,
    )
    .unwrap();
    let t = produce_task("missing", &yml);
    assert!(t.is_none());

    let yml = parse_yaml(
        r#"
                test:
                  return: ok
            "#,
    )
    .unwrap();
    let t = produce_task("test", &yml);
    assert!(t.is_some());
}

#[test]
fn ret_status_defaults_to_two_hundred() {
    let yml = parse_yaml(
        r#"
            test:
              return: ok
            later:
              return: ok
        "#,
    )
    .unwrap();
    match RetFactory::new().from_yml("test", &yml) {
        Some(Task::Ret(t)) => {
            assert_eq!(t.status_code, 200);
            assert_eq!(t.next_task.as_deref(), Some("later"));
        },
        _ => panic!("expected a return task"),
    }
}

#[test]
fn next_end_terminates() {
    let yml = parse_yaml(
        r#"
            test:
              return: ok
              next: end
            later:
              return: ok
        "#,
    )
    .unwrap();
    match RetFactory::new().from_yml("test", &yml) {
        Some(Task::Ret(t)) => {
            assert!(t.next_task.is_none());
        },
        _ => panic!("expected a return task"),
    }
}

#[test]
fn switch_conditions_are_coerced() {
    let yml = parse_yaml(
        r#"
            test:
              switch:
                - condition: ${a === 1}
                  next: one
                - condition: plain
                  next: two
        "#,
    )
    .unwrap();
    match SwitchFactory::new().from_yml("test", &yml) {
        Some(Task::Switch(t)) => {
            assert_eq!(t.conditions.len(), 2);
            assert_eq!(t.conditions[0].condition, "${!!(a === 1)}");
            assert_eq!(t.conditions[0].next_task, "one");
            assert_eq!(t.conditions[1].condition, "plain");
        },
        _ => panic!("expected a switch task"),
    }
}
