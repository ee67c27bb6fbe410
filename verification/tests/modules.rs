use modular_agent_jev::error::Error;
use modular_agent_jev::modules::{
    check_choice_criteria, check_questions, check_score_criteria, convert_error,
    instructions_from, invalid_questions_error, model_or_default, noul_criteria_included,
    resolve_api_base, resolve_api_key, single_answer, DEFAULT_API_BASE, DEFAULT_MODEL,
};

#[test]
fn model_defaults_when_empty() {
    assert_eq!(model_or_default(String::new()), "jev-latest");
    assert_eq!(model_or_default(String::new()), DEFAULT_MODEL);
    assert_eq!(model_or_default("jev-1".to_string()), "jev-1");
}

#[test]
fn blank_instructions_are_omitted() {
    assert_eq!(instructions_from(String::new()), None);
    assert_eq!(instructions_from(" \n\t\u{3000}".to_string()), None);
    assert_eq!(instructions_from(" Is this spam? ".to_string()), Some(" Is this spam? ".to_string()));
}

#[test]
fn api_key_falls_back_to_environment() {
    assert_eq!(resolve_api_key(Some("g".into()), Some("e".into())), Ok("g".to_string()));
    assert_eq!(resolve_api_key(Some(String::new()), Some("e".into())), Ok("e".to_string()));
    assert_eq!(resolve_api_key(None, Some(String::new())), Ok(String::new()));
    assert_eq!(
        resolve_api_key(Some(String::new()), None),
        Err(Error::InvalidConfig(
            "TypeSafe API key is not set (global config or TYPESAFE_API_KEY)".to_string()
        ))
    );
}

#[test]
fn api_base_defaults() {
    assert_eq!(resolve_api_base(None), "https://api.typesafe.ai");
    assert_eq!(resolve_api_base(Some(String::new())), DEFAULT_API_BASE);
    assert_eq!(resolve_api_base(Some("http://localhost:8080".into())), "http://localhost:8080");
}

#[test]
fn configuration_checks() {
    assert_eq!(check_questions(0), Err(Error::InvalidConfig("questions is empty".to_string())));
    assert_eq!(check_questions(3), Ok(()));
    assert_eq!(
        check_choice_criteria(0),
        Err(Error::InvalidConfig("criteria must list at least one label".to_string()))
    );
    assert_eq!(check_choice_criteria(1), Ok(()));
    assert!(!noul_criteria_included(0));
    assert!(noul_criteria_included(2));
    assert_eq!(check_score_criteria(2), Ok(()));
    assert_eq!(check_score_criteria(10), Ok(()));
    assert_eq!(
        check_score_criteria(1),
        Err(Error::InvalidConfig("criteria must have 2 to 10 entries, got 1".to_string()))
    );
    assert_eq!(
        check_score_criteria(11),
        Err(Error::InvalidConfig("criteria must have 2 to 10 entries, got 11".to_string()))
    );
    assert_eq!(
        check_score_criteria(0),
        Err(Error::InvalidConfig("criteria must have 2 to 10 entries, got 0".to_string()))
    );
}

#[test]
fn error_messages() {
    assert_eq!(
        invalid_questions_error("missing field `type`"),
        Error::InvalidConfig("Invalid questions: missing field `type`".to_string())
    );
    assert_eq!(
        convert_error("x"),
        Error::IoError("Failed to convert answer: x".to_string())
    );
    assert_eq!(single_answer(Some(5)), Ok(5));
    assert_eq!(
        single_answer::<u8>(None),
        Err(Error::IoError("System One response has no \"answer\" answer".to_string()))
    );
}
