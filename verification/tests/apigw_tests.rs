use sheep_shed::apigw::extract_body;
use sheep_shed::apigw::extract_parameters;
use sheep_shed::apigw::CognitoValues;
use sheep_shed::apigw::SimpleRequest;
use sheep_shed::apigw::SimpleError;
use sheep_shed::apigw::SimpleResponse;
use sheep_shed::errors::Error;
use sheep_shed::sheep::Tattoo;
use sheep_shed::text::u64_to_string;
use sheep_shed::wolf::classify_kill_failure;

fn pairs(raw: &[(&str, &str)]) -> Vec<(String, String)> {
    raw.iter().map(|(k, v)| (k.to_string(), v.to_string())).collect()
}

fn lookup<'a>(map: &'a [(String, String)], key: &str) -> Option<&'a str> {
    map.iter().find(|(k, _)| k == key).map(|(_, v)| v.as_str())
}

#[test]
fn numbers_render_in_decimal() {
    assert_eq!(u64_to_string(0), "0");
    assert_eq!(u64_to_string(7), "7");
    assert_eq!(u64_to_string(42), "42");
    assert_eq!(u64_to_string(1000), "1000");
    assert_eq!(u64_to_string(u64::MAX), "18446744073709551615");
}

#[test]
fn shed_errors_print_their_words() {
    assert_eq!(
        Error::SheepNotPresent(Tattoo(4)).message(),
        "Sheep is not in the shed: 4"
    );
    assert_eq!(
        Error::SheepDuplicationError(Tattoo(1)).message(),
        "Sheep already in the shed: 1"
    );
    assert_eq!(
        Error::GenericError("backend on fire".to_string()).message(),
        "Generic error: backend on fire"
    );
}

#[test]
fn shed_errors_classify_for_http() {
    let e = SimpleError::from_shed_error(Error::SheepDuplicationError(Tattoo(1)));
    assert!(matches!(e, SimpleError::InvalidInput(m) if m == "Sheep already in the shed: 1"));
    let e = SimpleError::from_shed_error(Error::SheepNotPresent(Tattoo(4)));
    assert!(
        matches!(e, SimpleError::Custom { code, message } if code == 404 && message == "Sheep is not in the shed: 4")
    );
    let e = SimpleError::from_shed_error(Error::GenericError("detail".to_string()));
    assert!(matches!(e, SimpleError::ServerError(m) if m == "Please try again later"));
}

#[test]
fn post_selection_not_found_is_elevated() {
    // the ordinary classification of a missing sheep is a 404; after
    // selection it signals a concurrent mutation and becomes a 500
    let e = classify_kill_failure(Error::SheepNotPresent(Tattoo(9)));
    assert!(
        matches!(e, SimpleError::Custom { code, message } if code == 500 && message == "Sheep is not in the shed: 9")
    );
    let e = classify_kill_failure(Error::GenericError("detail".to_string()));
    assert!(matches!(e, SimpleError::ServerError(m) if m == "Please try again later"));
}

#[test]
fn responses_carry_the_class_of_their_error() {
    let r = SimpleResponse::from_simple_error(SimpleError::InvalidInput("x".to_string()));
    assert_eq!(r.code, 400);
    assert_eq!(r.message.unwrap(), "Invalid input: x");
    let r = SimpleResponse::from_simple_error(SimpleError::InvalidBody);
    assert_eq!(r.code, 400);
    let r = SimpleResponse::from_simple_error(SimpleError::NotFound {
        object_type: "Sheep".to_string(),
        id: "2".to_string(),
    });
    assert_eq!(r.code, 404);
    assert_eq!(r.message.unwrap(), "Sheep not found with ID: 2");
    let r = SimpleResponse::from_simple_error(SimpleError::Unauthorized);
    assert_eq!(r.code, 401);
    let r = SimpleResponse::from_simple_error(SimpleError::ServerError("down".to_string()));
    assert_eq!(r.code, 500);
    assert_eq!(r.message.unwrap(), "Server error: down");
    let r = SimpleResponse::from_simple_error(SimpleError::InvalidState("odd".to_string()));
    assert_eq!(r.code, 500);
    let r = SimpleResponse::from_simple_error(SimpleError::Custom {
        code: 418,
        message: "teapot".to_string(),
    });
    assert_eq!(r.code, 418);
    assert_eq!(r.message.unwrap(), "teapot");
}

#[test]
fn parameters_merge_with_path_overriding_query() {
    let query = pairs(&[("a", "1"), ("b", "2")]);
    let path = pairs(&[("b", "3"), ("c", "4")]);
    let merged = extract_parameters(&query, &path);
    assert_eq!(merged.len(), 3);
    assert_eq!(lookup(&merged, "a"), Some("1"));
    assert_eq!(lookup(&merged, "b"), Some("3"));
    assert_eq!(lookup(&merged, "c"), Some("4"));
    assert_eq!(lookup(&merged, "d"), None);
}

#[test]
fn later_occurrences_win_within_a_list() {
    let query = pairs(&[("a", "1"), ("a", "2")]);
    let merged = extract_parameters(&query, &Vec::new());
    assert_eq!(merged.len(), 1);
    assert_eq!(lookup(&merged, "a"), Some("2"));
}

#[test]
fn body_extraction_defaults_to_empty() {
    assert_eq!(extract_body(&Some("payload".to_string())), "payload");
    assert_eq!(extract_body(&None), "");
}

#[test]
fn requests_distill_to_plain_values() {
    let query = pairs(&[("m", "2")]);
    let path = pairs(&[("n", "3")]);
    let request = SimpleRequest {
        cognito_values: Some(CognitoValues {
            user_id: "user-1".to_string(),
            email: Some("someone@example.com".to_string()),
            username: None,
        }),
        parameters: extract_parameters(&query, &path),
        body: extract_body(&None).to_string(),
    };
    assert_eq!(lookup(&request.parameters, "m"), Some("2"));
    assert_eq!(lookup(&request.parameters, "n"), Some("3"));
    assert_eq!(request.body, "");
    let claims = request.cognito_values.unwrap();
    assert_eq!(claims.user_id, "user-1");
    assert_eq!(claims.email.as_deref(), Some("someone@example.com"));
    assert!(claims.username.is_none());
}
