use praxec_core::json::{Json, JsonMap, Number};
use praxec_core::skills::{assemble_system_message, system_message_cache_key, SkillAssemblyError};

fn convert(v: &serde_json::Value) -> Json {
    match v {
        serde_json::Value::Null => Json::Null,
        serde_json::Value::Bool(b) => Json::Bool(*b),
        serde_json::Value::Number(n) => {
            if let Some(u) = n.as_u64() {
                Json::Number(Number::PosInt(u))
            } else if let Some(i) = n.as_i64() {
                Json::Number(Number::NegInt(i))
            } else {
                Json::Number(Number::Float(n.to_string()))
            }
        }
        serde_json::Value::String(s) => Json::Str(s.clone()),
        serde_json::Value::Array(a) => Json::Array(a.iter().map(convert).collect()),
        serde_json::Value::Object(m) => {
            let mut out = JsonMap::new();
            for (k, v) in m {
                out.insert(k.clone(), convert(v));
            }
            Json::Object(out)
        }
    }
}

fn json(text: &str) -> Json {
    convert(&serde_json::from_str::<serde_json::Value>(text).unwrap())
}

fn def(skills: &str, library: &str) -> Json {
    json(&format!(
        r#"{{ "initialState": "s", "skills": {skills}, "states": {{ "s": {{}} }}, "_skillsLibrary": {library} }}"#
    ))
}

#[test]
fn none_when_no_skills_in_scope() {
    let d = json(r#"{ "initialState": "s", "states": { "s": {} } }"#);
    assert!(matches!(assemble_system_message(&d, "s", None), Ok(None)));
}

#[test]
fn assembles_body_with_header() {
    let d = def(
        r#"["review.tone"]"#,
        r#"{ "review.tone": { "verb": "review", "lifecycle": "stable", "body": "Be terse." } }"#,
    );
    let out = assemble_system_message(&d, "s", None).ok().unwrap().unwrap();
    assert!(out.contains("## review.review.tone"));
    assert!(out.contains("Be terse."));
}

#[test]
fn unknown_subject_fails_loud() {
    let d = def(r#"["ghost"]"#, "{}");
    assert!(matches!(
        assemble_system_message(&d, "s", None),
        Err(SkillAssemblyError::SubjectUnknown(s)) if s == "ghost"
    ));
}

#[test]
fn empty_body_fails_loud() {
    let d = def(
        r#"["x"]"#,
        r#"{ "x": { "verb": "review", "lifecycle": "stable", "body": "  " } }"#,
    );
    assert!(matches!(
        assemble_system_message(&d, "s", None),
        Err(SkillAssemblyError::BodyMissing(s)) if s == "x"
    ));
}

#[test]
fn cache_key_is_sha256_prefixed() {
    assert!(system_message_cache_key("persona").starts_with("sha256:"));
}

#[test]
fn cache_key_is_64_hex_chars() {
    let key = system_message_cache_key("persona");
    assert_eq!(key.trim_start_matches("sha256:").len(), 64);
}

#[test]
fn cache_key_is_stable_for_identical_content() {
    assert_eq!(
        system_message_cache_key("same skill body"),
        system_message_cache_key("same skill body")
    );
}

#[test]
fn cache_key_differs_for_different_content() {
    assert_ne!(
        system_message_cache_key("skill A"),
        system_message_cache_key("skill B")
    );
}

#[test]
fn cache_key_is_the_digest_of_the_text() {
    assert_eq!(
        system_message_cache_key("abc"),
        "sha256:ba7816bf8f01cfea414140de5dae2223b00361a396177a9cb410ff61f20015ad"
    );
}
