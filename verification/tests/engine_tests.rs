use rstrouter::context::Context;
use rstrouter::engine::{Engine, EngineStep, PendingAction, EngineResponse, ResumeBinding};
use rstrouter::json::{json_parse, JsonValue};
use rstrouter::parser::{Endpoint, EndpointMethod, Guard};
use rstrouter::request::Request;
use rstrouter::tasks::{SwitchFactory, Task};
use rstrouter::yaml::parse_yaml;

fn no_env() -> Vec<(String, String)> {
    Vec::new()
}

fn finished(step: EngineStep) -> EngineResponse {
    match step {
        EngineStep::Finished(resp) => resp,
        EngineStep::Paused(_) => panic!("expected the run to finish"),
    }
}

#[test]
fn test_context() {
    let headers = vec![(String::from("test"), String::from("1234"))];
    let query = vec![(String::from("a"), String::from("b"))];
    let mut context = Context::from_request(
        Request::new(headers, json_parse("{\"a\": [\"c\"]}").unwrap(), query),
        "./dsl_root",
    );

    let res = context.evaluate_expr("1 ${incoming.params.a}");
    assert_eq!(res.as_str().unwrap(), "1 b");
    let res = context.evaluate_expr("${incoming.body.a}");
    match res {
        JsonValue::Arr(items) => {
            assert_eq!(items.len(), 1);
            assert_eq!(items[0].as_str().unwrap(), "c");
        },
        _ => panic!("expected an array"),
    }
    let res = context.evaluate_expr("do not modify");
    assert_eq!(res.as_str().unwrap(), "do not modify");
    let res = context.evaluate_expr("${incoming.headers.test}");
    assert_eq!(res.as_str().unwrap(), "1234");

    context.set_return_value(201, json_parse("{\"hello\": \"world\"}").unwrap());
    let res = context.get_return_value();
    assert_eq!(res.json.get("hello").unwrap().as_str().unwrap(), "world");
    assert_eq!(res.status, 201);

    context.evaluate_expr(&Context::wrap_js_code("let someVar = 33;"));
    let res = context.evaluate_expr("${someVar}");
    assert_eq!(res.as_i64().unwrap(), 33);

    let res = context.evaluate_expr("${dsl}");
    assert_eq!(res.as_str().unwrap(), "./dsl_root");
}

#[test]
fn expression_state_persists() {
    let context = Context::from_request(Request::default(), "./dsl_root");
    context.evaluate_expr(&Context::wrap_js_code("var x = 42;"));
    let res = context.evaluate_expr("${x}");
    assert_eq!(res.as_i64().unwrap(), 42);
}

#[test]
fn test_switch_condition() {
    let factory = SwitchFactory::new();
    let task = factory
        .from_yml(
            "test",
            &parse_yaml(
                r#"
                        test:
                          switch:
                            - condition: ${some === 1}
                              next: one
                            - condition: ${some === 2}
                              next: two
                            - condition: ${incorrect}
                          next: third
                    "#,
            )
            .unwrap(),
        )
        .unwrap();
    let switch = match task {
        Task::Switch(t) => t,
        _ => panic!("expected a switch task"),
    };

    let context = Context::from_request(Request::default(), "./dsl_root");

    context.evaluate_expr(&Context::wrap_js_code("var some = 1;"));
    let res = switch.execute(&context);
    assert_eq!(res.as_deref(), Some("one"));

    context.evaluate_expr(&Context::wrap_js_code("var some = 2;"));
    let res = switch.execute(&context);
    assert_eq!(res.as_deref(), Some("two"));

    context.evaluate_expr(&Context::wrap_js_code("var some = 3;"));
    let res = switch.execute(&context);
    assert_eq!(res.as_deref(), Some("third"));
}

#[test]
fn test_from_template() {
    let engine = Engine::from_template(
        &parse_yaml(
            r#"
                    return:
                      return: ok
                "#,
        )
        .unwrap(),
        "./dsl_root",
        &no_env(),
    );

    let res = finished(engine.execute(Request::default()));

    assert_eq!(res.1, 200);
    assert_eq!(res.0.get("response").unwrap().as_str().unwrap(), "ok");
}

#[test]
fn test_from_endpoint_with_guards() {
    let endpoint = Endpoint {
        guards: vec![Guard {
            yml_content: parse_yaml(
                r#"
                        condition:
                          switch:
                            - condition: ${incoming.params.error === "error"}
                              next: error

                        test:
                          return: ok
                          next: end

                        error:
                          return: guard return
                          status: 400
                    "#,
            )
            .unwrap(),
        }],
        tag: String::from("some"),
        url_path: String::from("/some/"),
        method: EndpointMethod::Get,
        yml_content: parse_yaml(
            r#"
                    test:
                      return: ok
                "#,
        )
        .unwrap(),
        merged_declaration: String::new(),
    };

    let engine = Engine::from_endpoint(&endpoint, "./dsl_root", &no_env());

    let res = finished(engine.execute(Request::default()));

    assert_eq!(res.0.get("response").unwrap().as_str().unwrap(), "ok");
    assert_eq!(res.1, 200);

    let res = finished(engine.execute(Request::new(
        Vec::new(),
        JsonValue::Null,
        vec![(String::from("error"), String::from("error"))],
    )));

    assert_eq!(res.0.get("response").unwrap().as_str().unwrap(), "guard return");
    assert_eq!(res.1, 400);
}

#[test]
fn assign_then_return() {
    let engine = Engine::from_template(
        &parse_yaml(
            r#"
                a:
                  assign:
                    x: ${1+2}
                b:
                  return: ${x}
            "#,
        )
        .unwrap(),
        "./dsl_root",
        &no_env(),
    );
    let res = finished(engine.execute(Request::default()));
    assert_eq!(res.1, 200);
    assert_eq!(res.0.get("response").unwrap().as_i64().unwrap(), 3);
}

#[test]
fn mock_task_binds_result() {
    let engine = Engine::from_template(
        &parse_yaml(
            r#"
                mocked:
                  call: reflect.mock
                  args:
                    response:
                      body:
                        some: body
                  result: test
                after:
                  return: ${test.response.body.some}
            "#,
        )
        .unwrap(),
        "./dsl_root",
        &no_env(),
    );
    let res = finished(engine.execute(Request::default()));
    assert_eq!(res.0.get("response").unwrap().as_str().unwrap(), "body");
}

#[test]
fn test_template_task() {
    let engine = Engine::from_template(
        &parse_yaml(
            r#"
                    test:
                      template: test/TEMPLATES/test.yml
                      body:
                        test: ok
                      headers:
                        test: ok
                      query:
                        test: ok
                      result: res
                    after:
                      return: ${res.response}
                "#,
        )
        .unwrap(),
        "./dsl_root",
        &no_env(),
    );

    let step = engine.execute(Request::default());
    let progress = match step {
        EngineStep::Paused(p) => p,
        EngineStep::Finished(_) => panic!("expected the template call to pause the run"),
    };

    let (path, sub_request) = match progress.pause.action {
        PendingAction::TemplateCall { ref path, ref request } => (
            path.clone(),
            Request::new(request.headers.clone(), request.body.deep_copy(), request.params.clone()),
        ),
        _ => panic!("expected a template action"),
    };
    assert_eq!(path, "./dsl_root/test/TEMPLATES/test.yml");

    // play the sub-engine the way the driver would: load the template file
    // and run it on the synthesized request
    let sub_engine = Engine::from_template(
        &parse_yaml(
            r#"
                    reply:
                      return:
                        headers: ${incoming.headers}
                        body: ${incoming.body}
                        params: ${incoming.params}
                "#,
        )
        .unwrap(),
        "./dsl_root",
        &no_env(),
    );
    let sub_res = finished(sub_engine.execute(sub_request));

    let res = finished(engine.resume(progress, Some(sub_res.0)));
    let response = res.0.get("response").unwrap();
    assert_eq!(
        response.get("headers").unwrap().get("test").unwrap().as_str().unwrap(),
        "ok"
    );
    assert_eq!(response.get("body").unwrap().get("test").unwrap().as_str().unwrap(), "ok");
    assert_eq!(response.get("params").unwrap().get("test").unwrap().as_str().unwrap(), "ok");
}

#[test]
fn http_task_pauses_with_request_plan() {
    let engine = Engine::from_template(
        &parse_yaml(
            r#"
                call_out:
                  call: http.get
                  args:
                    url: http://localhost:8090/test
                    headers:
                      test: ${(1 + 3).toString()}
                  result: res
                after:
                  return: ${res.response.body.ok}
            "#,
        )
        .unwrap(),
        "./dsl_root",
        &no_env(),
    );
    let step = engine.execute(Request::default());
    let progress = match step {
        EngineStep::Paused(p) => p,
        EngineStep::Finished(_) => panic!("expected the outbound call to pause the run"),
    };
    match progress.pause.action {
        PendingAction::HttpCall { ref url, ref headers, .. } => {
            assert_eq!(url, "http://localhost:8090/test");
            assert_eq!(headers[0], (String::from("test"), String::from("4")));
        },
        _ => panic!("expected an outbound call action"),
    }
    let body = json_parse("{\"ok\": \"is ok!\"}").unwrap();
    let res = finished(engine.resume(progress, Some(body)));
    assert_eq!(res.0.get("response").unwrap().as_str().unwrap(), "is ok!");
}

#[test]
fn runaway_graph_gets_fatal_status() {
    let engine = Engine::from_template(
        &parse_yaml(
            r#"
                a:
                  return: ok
                  next: b
                b:
                  return: ok
                  next: a
            "#,
        )
        .unwrap(),
        "./dsl_root",
        &no_env(),
    );
    let res = finished(engine.execute(Request::default()));
    assert_eq!(res.1, 500);
}

#[test]
fn failed_exchange_binds_null() {
    let engine = Engine::from_template(
        &parse_yaml(
            r#"
                call_out:
                  call: http.get
                  args:
                    url: http://localhost:8090/test
                  result: res
                after:
                  return: ${res === null}
            "#,
        )
        .unwrap(),
        "./dsl_root",
        &no_env(),
    );
    let step = engine.execute(Request::default());
    let progress = match step {
        EngineStep::Paused(p) => p,
        EngineStep::Finished(_) => panic!("expected the outbound call to pause the run"),
    };
    let res = finished(engine.resume(progress, None));
    assert_eq!(res.0.get("response").unwrap().as_bool().unwrap(), true);
}

#[test]
fn exchange_binds_raw_url() {
    let engine = Engine::from_template(
        &parse_yaml(
            r#"
                call_out:
                  call: http.get
                  args:
                    url: ${"http://localhost:8090/" + "test"}
                  result: res
                after:
                  return: done
            "#,
        )
        .unwrap(),
        "./dsl_root",
        &no_env(),
    );
    let step = engine.execute(Request::default());
    let progress = match step {
        EngineStep::Paused(p) => p,
        EngineStep::Finished(_) => panic!("expected the outbound call to pause the run"),
    };
    match progress.pause.action {
        PendingAction::HttpCall { ref url, .. } => {
            assert_eq!(url, "http://localhost:8090/test");
        },
        _ => panic!("expected an outbound call action"),
    }
    // the binding records the task's configured URL, not the evaluated one
    match progress.pause.binding {
        ResumeBinding::BindHttp { ref var, ref url } => {
            assert_eq!(var, "res");
            assert_eq!(url, "${\"http://localhost:8090/\" + \"test\"}");
        },
        _ => panic!("expected an outbound result binding"),
    }
    let res = finished(engine.resume(progress, Some(JsonValue::Null)));
    assert_eq!(res.0.get("response").unwrap().as_str().unwrap(), "done");
}
