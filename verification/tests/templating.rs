use rhc::keyvalue::KeyValue;
use rhc::request_definition::Content;
use rhc::request_definition::Metadata;
use rhc::request_definition::Method;
use rhc::request_definition::Query;
use rhc::request_definition::Request;
use rhc::request_definition::RequestDefinition;
use rhc::templating::find_unbound;
use rhc::templating::list_unbound_variables;
use rhc::templating::replace;
use rhc::templating::substitute;
use rhc::templating::substitute_all;
use rhc::templating::unbound_in_string;

fn def_with(
    url: &str,
    query: Option<Vec<KeyValue>>,
    headers: Option<Vec<KeyValue>>,
    body: Option<Content>,
) -> RequestDefinition {
    RequestDefinition {
        metadata: None,
        request: Request { url: url.to_owned(), method: Method::GET },
        query: query.map(|params| Query { params }),
        body,
        headers: headers.map(|headers| rhc::request_definition::Headers { headers }),
    }
}

#[test]
fn test_substitute() {
    let vars = vec![
        KeyValue {
            name: "var1".to_string(),
            value: "value1".to_string(),
        },
        KeyValue {
            name: "var2".to_string(),
            value: "value2".to_string(),
        },
        KeyValue {
            name: "not_present".to_string(),
            value: "unused".to_string(),
        },
    ];
    let base = "a {var2} b {var1} c {var3} d {var2}";

    let (new_string, is_owned) = substitute(base, &vars);

    assert_eq!(new_string, "a value2 b value1 c {var3} d value2");

    assert_eq!(is_owned, true)
}

#[test]
fn test_unbound_in_string() {
    assert_eq!(
        unbound_in_string("one two {three} four {five} six"),
        vec!["three", "five"]
    );

    let blank: Vec<String> = Vec::new();
    assert_eq!(unbound_in_string("no variables"), blank);
}

#[test]
fn substitute_reports_unchanged() {
    let vars = vec![KeyValue::new("missing", "value")];
    let (out, changed) = substitute("nothing to do", &vars);
    assert_eq!(out, "nothing to do");
    assert!(!changed);
}

#[test]
fn substitute_is_single_pass() {
    // A replacement value that itself looks like a token is not rescanned.
    let vars = vec![
        KeyValue::new("a", "{b}"),
        KeyValue::new("b", "boom"),
    ];
    // {a} is replaced before {b} is processed, so the {b} it produced IS
    // then replaced by the later variable; applying the pass again changes
    // nothing further.
    let (first, _) = substitute("x {a} y", &vars);
    assert_eq!(first, "x boom y");
    let (second, changed) = substitute(&first, &vars);
    assert_eq!(second, first);
    assert!(!changed);
}

#[test]
fn substitute_self_token_does_not_expand() {
    // The adversarial binding of a variable to its own token leaves the
    // text unchanged and terminates: no infinite expansion.
    let vars = vec![KeyValue::new("name", "{name}")];
    let (out, changed) = substitute("x {name} y {name}", &vars);
    assert_eq!(out, "x {name} y {name}");
    assert!(!changed);
}

#[test]
fn replace_leftmost_non_overlapping() {
    assert_eq!(replace("aaa", "aa", "b"), "ba");
    assert_eq!(replace("{x}{x}", "{x}", "v"), "vv");
}

#[test]
fn find_unbound_sorted_and_unique() {
    assert_eq!(find_unbound("a {x} b {y} a {x}"), vec!["x", "y"]);
    assert_eq!(find_unbound("{b}{a}{b}"), vec!["a", "b"]);
    let blank: Vec<String> = Vec::new();
    assert_eq!(find_unbound("{}{unclosed"), blank);
}

#[test]
fn list_unbound_variables_scans_all_fields() {
    let def = def_with(
        "http://host/{u}",
        Some(vec![KeyValue::new("{qn}", "{qv}")]),
        Some(vec![KeyValue::new("{hn}", "{hv}")]),
        Some(Content::UrlEncoded(vec![KeyValue::new("{bn}", "{bv}")])),
    );
    assert_eq!(
        list_unbound_variables(&def),
        vec!["bn", "bv", "hn", "hv", "qn", "qv", "u"]
    );
}

#[test]
fn substitute_all_resolves_url_from_environment() {
    // Definition URL `__base__/{var1}` with environment variable
    // var1=bar: afterwards no variable is unbound and the URL is
    // `__base__/bar`.
    let mut def = def_with("__base__/{var1}", None, None, None);
    let vars = vec![KeyValue::new("var1", "bar")];
    substitute_all(&mut def, &vars);
    assert_eq!(def.request.url, "__base__/bar");
    let unbound = list_unbound_variables(&def);
    assert!(unbound.is_empty());
}

#[test]
fn substitute_all_rewrites_every_field() {
    let mut def = RequestDefinition {
        metadata: Some(Metadata { description: "d".to_owned() }),
        request: Request { url: "{v}".to_owned(), method: Method::POST },
        query: Some(Query { params: vec![KeyValue::new("{v}", "{v}")] }),
        body: Some(Content::Text("{v}!".to_owned())),
        headers: Some(rhc::request_definition::Headers {
            headers: vec![KeyValue::new("h{v}", "{v}")],
        }),
    };
    let vars = vec![KeyValue::new("v", "x")];
    substitute_all(&mut def, &vars);
    assert_eq!(def.request.url, "x");
    let q = def.query.as_ref().unwrap();
    assert_eq!(q.params[0].name, "x");
    assert_eq!(q.params[0].value, "x");
    let h = def.headers.as_ref().unwrap();
    assert_eq!(h.headers[0].name, "hx");
    assert_eq!(h.headers[0].value, "x");
    match def.body.as_ref().unwrap() {
        Content::Text(t) => assert_eq!(t, "x!"),
        _ => panic!("body changed encoding"),
    }
}

#[test]
fn substitute_all_rewrites_json_body() {
    let mut def = def_with(
        "u",
        None,
        None,
        Some(Content::Json("{\"k\": \"{v}\"}".to_owned())),
    );
    let vars = vec![KeyValue::new("v", "x")];
    substitute_all(&mut def, &vars);
    match def.body.as_ref().unwrap() {
        Content::Json(j) => assert_eq!(j, "{\"k\": \"x\"}"),
        _ => panic!("body changed encoding"),
    }
}

#[test]
fn empty_text_and_empty_variable_set() {
    let no_vars: Vec<KeyValue> = Vec::new();
    let (out, changed) = substitute("", &no_vars);
    assert_eq!(out, "");
    assert!(!changed);
    let (out, changed) = substitute("a {x} b", &no_vars);
    assert_eq!(out, "a {x} b");
    assert!(!changed);
    let (out, changed) = substitute("", &[KeyValue::new("x", "y")]);
    assert_eq!(out, "");
    assert!(!changed);
    let blank: Vec<String> = Vec::new();
    assert_eq!(find_unbound(""), blank);
}

#[test]
fn empty_variable_value_removes_the_token() {
    let vars = vec![KeyValue::new("x", "")];
    let (out, changed) = substitute("a{x}b", &vars);
    assert_eq!(out, "ab");
    assert!(changed);
}
