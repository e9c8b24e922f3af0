use agent_memory::json::{Json, JsonError, Member};
use agent_memory::personality::PersonalityProfile;

#[test]
fn a_profile_is_read_from_json() {
    let profile = PersonalityProfile::from_json(
        "{\"description\": \"a mathematician\", \"name\": \"Ada\", \"traits\": [\"curious\"]}",
    )
    .unwrap();
    assert_eq!(profile.name, "Ada");
    assert_eq!(profile.get_str("description"), Some("a mathematician"));
    assert_eq!(profile.get_str("name"), None);
    assert_eq!(profile.get_str("traits"), None);
    assert_eq!(profile.get_str("absent"), None);
    assert_eq!(profile.get_array("traits").map(|items| items.len()), Some(1));
    assert!(profile.get_array("description").is_none());
    assert!(profile.get_object("traits").is_none());
}

#[test]
fn a_profile_needs_a_name() {
    assert!(matches!(PersonalityProfile::from_json("{oops"), Err(JsonError::Malformed(_))));
    assert!(matches!(PersonalityProfile::from_json("{}"), Err(JsonError::WrongShape)));
    assert!(matches!(PersonalityProfile::from_json("{\"name\": 7}"), Err(JsonError::WrongShape)));
    assert!(matches!(PersonalityProfile::from_json("[\"Ada\"]"), Err(JsonError::WrongShape)));
    assert!(PersonalityProfile::from_json("{\"name\": \"\"}").is_ok());
}

#[test]
fn an_object_attribute_is_found() {
    let profile = PersonalityProfile::from_json(
        "{\"name\": \"Ada\", \"communication_preferences\": {\"primary_style\": \"direct\"}}",
    )
    .unwrap();
    let preferences = profile.get_object("communication_preferences").unwrap();
    assert_eq!(preferences.len(), 1);
    assert_eq!(preferences[0].key, "primary_style");
    assert!(matches!(&preferences[0].value, Json::Text(text) if text == "direct"));
}

#[test]
fn the_prompt_of_a_bare_profile() {
    let profile = PersonalityProfile::from_json("{\"name\": \"Bob\"}").unwrap();
    assert_eq!(
        profile.generate_system_prompt(),
        "You are Bob, an AI assistant. Your communication style is helpful and professional.\n\
         Always stay in character and respond as this personality would."
    );
}

#[test]
fn the_prompt_of_a_full_profile() {
    let profile = PersonalityProfile::from_json(
        "{\"name\": \"Ada\", \"description\": \"a mathematician\", \"style\": \"precise\", \
          \"motto\": \"Think\", \"traits\": [\"curious\", 3, \"bold\"], \
          \"interests\": [\"engines\"], \"emoji\": \"🧮\"}",
    )
    .unwrap();
    assert_eq!(
        profile.generate_system_prompt(),
        "You are Ada 🧮 , a mathematician. Your communication style is precise.\n\
         Your motto is: \"Think\"\nYour key traits are: curious, bold\n\
         Your interests include: engines\n\
         Always stay in character and respond as this personality would."
    );
}

#[test]
fn lists_without_strings_are_left_out() {
    let profile = PersonalityProfile {
        name: "Eve".to_string(),
        attributes: Json::Object(vec![
            Member { key: "traits".to_string(), value: Json::Array(vec![Json::Null]) },
            Member { key: "interests".to_string(), value: Json::Text("none".to_string()) },
            Member { key: "motto".to_string(), value: Json::Bool(true) },
        ]),
    };
    assert_eq!(
        profile.generate_system_prompt(),
        "You are Eve, an AI assistant. Your communication style is helpful and professional.\n\
         Always stay in character and respond as this personality would."
    );
}
