use linear_cli::client::{classify, Client, Envelope, RequestError};

#[test]
fn last_application_error_wins_and_all_are_logged() {
    let env = Envelope {
        data: Some(7u32),
        errors: Some(vec!["A".to_string(), "B".to_string()]),
    };
    let mut log: Vec<String> = vec!["earlier".to_string()];
    let got = classify(env, &mut log);
    assert_eq!(got, Err(RequestError::Application("B".to_string())));
    assert_eq!(log, vec!["earlier".to_string(), "A".to_string(), "B".to_string()]);
}

#[test]
fn single_application_error_is_surfaced() {
    let env: Envelope<u32> = Envelope {
        data: None,
        errors: Some(vec!["rate limited".to_string()]),
    };
    let mut log: Vec<String> = Vec::new();
    let got = classify(env, &mut log);
    assert_eq!(got, Err(RequestError::Application("rate limited".to_string())));
    assert_eq!(log, vec!["rate limited".to_string()]);
}

#[test]
fn payload_without_errors_is_returned() {
    let env = Envelope { data: Some("payload".to_string()), errors: None };
    let mut log: Vec<String> = Vec::new();
    let got = classify(env, &mut log);
    assert_eq!(got, Ok("payload".to_string()));
    assert!(log.is_empty());
}

#[test]
fn empty_error_list_counts_as_no_errors() {
    let env = Envelope { data: Some(1u8), errors: Some(Vec::new()) };
    let mut log: Vec<String> = Vec::new();
    let got = classify(env, &mut log);
    assert_eq!(got, Ok(1u8));
    assert!(log.is_empty());
}

#[test]
fn missing_payload_is_a_contract_violation() {
    let env: Envelope<u32> = Envelope { data: None, errors: None };
    let mut log: Vec<String> = Vec::new();
    let got = classify(env, &mut log);
    assert_eq!(got, Err(RequestError::NoData));
    assert!(log.is_empty());
}

#[test]
fn empty_error_list_without_payload_is_still_no_data() {
    let env: Envelope<u32> = Envelope { data: None, errors: Some(Vec::new()) };
    let mut log: Vec<String> = Vec::new();
    let got = classify(env, &mut log);
    assert_eq!(got, Err(RequestError::NoData));
    assert!(log.is_empty());
}

#[test]
fn client_keeps_the_credential_verbatim() {
    let client = Client::new("SECRET-REDACTED".to_string());
    assert_eq!(client.api_key().as_str(), "SECRET-REDACTED");
}
