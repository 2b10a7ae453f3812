//! End-to-end scenarios over the library's own boundary: the same inputs
//! the program would read from definition and environment files, checked
//! against the fields a dispatcher would send.

use rhc::environment::Environment;
use rhc::keyvalue::sort_by_name_ascending;
use rhc::keyvalue::upsert_binding;
use rhc::keyvalue::KeyValue;
use rhc::request_definition::Content;
use rhc::request_definition::Headers;
use rhc::request_definition::Method;
use rhc::request_definition::Query;
use rhc::request_definition::Request;
use rhc::request_definition::RequestDefinition;
use rhc::templating::list_unbound_variables;
use rhc::templating::substitute_all;

fn env_vars(pairs: &[(&str, &str)]) -> Vec<KeyValue> {
    pairs.iter().map(|(n, v)| KeyValue::new(n, v)).collect()
}

#[test]
fn test_templating_string() {
    let mut def = RequestDefinition {
        metadata: None,
        request: Request { url: "__base_url__/{var1}".to_owned(), method: Method::POST },
        query: None,
        body: Some(Content::Text("foo{var1}".to_owned())),
        headers: None,
    };
    let vars = env_vars(&[("var1", "bar")]);
    substitute_all(&mut def, &vars);
    assert_eq!(def.request.url, "__base_url__/bar");
    match def.body.as_ref().unwrap() {
        Content::Text(t) => assert_eq!(t, "foobar"),
        _ => panic!("body changed encoding"),
    }
}

#[test]
fn test_templating_json() {
    let body = r#"
    {
        "{var1}": "{var1}",
        "an_object": {
            "inside": "the object",
            "aa{var1}": "___{var1}"
        }
    }
    "#;
    let mut def = RequestDefinition {
        metadata: None,
        request: Request { url: "__base_url__/{var1}".to_owned(), method: Method::POST },
        query: None,
        body: Some(Content::Json(body.to_owned())),
        headers: Some(Headers { headers: vec![KeyValue::new("first", "{header_1}")] }),
    };
    let vars = env_vars(&[("var1", "bar"), ("header_1", "translated")]);
    substitute_all(&mut def, &vars);
    assert_eq!(def.request.url, "__base_url__/bar");
    let headers = def.headers.as_ref().unwrap();
    assert_eq!(headers.headers[0].name, "first");
    assert_eq!(headers.headers[0].value, "translated");
    let expected = r#"
    {
        "bar": "bar",
        "an_object": {
            "inside": "the object",
            "aabar": "___bar"
        }
    }
    "#;
    match def.body.as_ref().unwrap() {
        Content::Json(j) => assert_eq!(j, expected),
        _ => panic!("body changed encoding"),
    }
}

#[test]
fn test_templating_urlencoded() {
    let mut def = RequestDefinition {
        metadata: None,
        request: Request { url: "__base_url__/{var1}".to_owned(), method: Method::POST },
        query: None,
        body: Some(Content::UrlEncoded(vec![KeyValue::new("{var1}", "{var1}")])),
        headers: None,
    };
    let vars = env_vars(&[("var1", "bar")]);
    substitute_all(&mut def, &vars);
    assert_eq!(def.request.url, "__base_url__/bar");
    match def.body.as_ref().unwrap() {
        Content::UrlEncoded(params) => {
            assert_eq!(params[0].name, "bar");
            assert_eq!(params[0].value, "bar");
        }
        _ => panic!("body changed encoding"),
    }
}

#[test]
fn test_bindings_simple() {
    let mut def = RequestDefinition {
        metadata: None,
        request: Request { url: "__base_url__/{var1}".to_owned(), method: Method::GET },
        query: None,
        body: None,
        headers: None,
    };
    let mut vars: Vec<KeyValue> = Vec::new();
    sort_by_name_ascending(&mut vars);
    let binding = KeyValue::parse("var1=bar").unwrap();
    upsert_binding(&mut vars, binding);
    substitute_all(&mut def, &vars);
    assert_eq!(def.request.url, "__base_url__/bar");
    assert!(list_unbound_variables(&def).is_empty());
}

#[test]
fn test_bindings_overwrite() {
    let mut def = RequestDefinition {
        metadata: None,
        request: Request {
            url: "__base_url__/{var1}/{something}/{var3}".to_owned(),
            method: Method::GET,
        },
        query: Some(Query { params: Vec::new() }),
        body: None,
        headers: None,
    };
    let mut vars = env_vars(&[("var1", "original"), ("something", "a_value")]);
    sort_by_name_ascending(&mut vars);
    // Command-line bindings overwrite environment variables of the same
    // name and add missing ones.
    upsert_binding(&mut vars, KeyValue::parse("var1=new").unwrap());
    upsert_binding(&mut vars, KeyValue::parse("var3=aaa").unwrap());
    substitute_all(&mut def, &vars);
    assert_eq!(def.request.url, "__base_url__/new/a_value/aaa");
}

#[test]
fn test_duplicate_vars_in_env() {
    let env = Environment {
        name: "test_env".to_owned(),
        variables: env_vars(&[("var1", "original"), ("var1", "duplicate")]),
    };
    // A corrupt environment is rejected before the picker is ever shown;
    // the error names the duplicated bindings.
    let dupes = env.duplicate_names();
    assert_eq!(dupes, vec!["var1"]);
    let message = format!("contains duplicate bindings for: {}", dupes.join(", "));
    assert_eq!(message, "contains duplicate bindings for: var1");
}
