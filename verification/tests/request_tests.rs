use rustyai::request::{
    build_request_body, streaming_request_body, u32_to_dec, ChatCompletionParams, Message,
};

fn msg(role: &str, content: &str) -> Message {
    Message {
        role: role.to_string(),
        content: content.to_string(),
    }
}

fn keys_of(body: &str) -> Vec<String> {
    let v: serde_json::Value = serde_json::from_str(body).unwrap();
    v.as_object().unwrap().keys().cloned().collect()
}

#[test]
fn only_temperature_set_serializes_only_temperature() {
    let params = ChatCompletionParams {
        temperature: Some("0.7".to_string()),
        ..Default::default()
    };
    let body = build_request_body("gpt-4", &vec![msg("user", "hi")], &params);
    assert!(body.contains("\"temperature\":0.7"));
    assert!(!body.contains("max_tokens"));
    assert!(!body.contains("top_p"));
    assert!(!body.contains("frequency_penalty"));
    assert!(!body.contains("presence_penalty"));
    assert!(!body.contains("stream"));
    let mut keys = keys_of(&body);
    keys.sort();
    assert_eq!(keys, vec!["messages", "model", "temperature"]);
}

#[test]
fn no_optional_params_leaves_only_model_and_messages() {
    let body = build_request_body(
        "gpt-3.5-turbo",
        &vec![msg("user", "hello")],
        &ChatCompletionParams::default(),
    );
    assert_eq!(
        body,
        "{\"model\":\"gpt-3.5-turbo\",\"messages\":[{\"role\":\"user\",\"content\":\"hello\"}]}"
    );
}

#[test]
fn all_params_set_appear_exactly_once_each() {
    let params = ChatCompletionParams {
        max_tokens: Some(100),
        temperature: Some("0.7".to_string()),
        top_p: Some("0.9".to_string()),
        frequency_penalty: Some("0.0".to_string()),
        presence_penalty: Some("0.0".to_string()),
        stream: Some(false),
    };
    let body = build_request_body("gpt-4", &vec![msg("user", "q")], &params);
    let v: serde_json::Value = serde_json::from_str(&body).unwrap();
    assert_eq!(v["max_tokens"], serde_json::Value::from(100u32));
    assert_eq!(v["temperature"].as_f64().unwrap(), 0.7);
    assert_eq!(v["top_p"].as_f64().unwrap(), 0.9);
    assert_eq!(v["stream"], serde_json::Value::from(false));
    let mut keys = keys_of(&body);
    keys.sort();
    assert_eq!(
        keys,
        vec![
            "frequency_penalty",
            "max_tokens",
            "messages",
            "model",
            "presence_penalty",
            "stream",
            "temperature",
            "top_p"
        ]
    );
}

#[test]
fn streaming_body_forces_stream_true() {
    let body = streaming_request_body(
        "gpt-4",
        &vec![msg("user", "q")],
        &ChatCompletionParams::default(),
    );
    let v: serde_json::Value = serde_json::from_str(&body).unwrap();
    assert_eq!(v["stream"], serde_json::Value::from(true));

    let off = ChatCompletionParams {
        stream: Some(false),
        ..Default::default()
    };
    let body2 = streaming_request_body("gpt-4", &vec![msg("user", "q")], &off);
    let v2: serde_json::Value = serde_json::from_str(&body2).unwrap();
    assert_eq!(v2["stream"], serde_json::Value::from(true));
}

#[test]
fn message_order_is_preserved_verbatim() {
    let ms = vec![msg("user", "first"), msg("assistant", "second"), msg("user", "third")];
    let body = build_request_body("m", &ms, &ChatCompletionParams::default());
    let v: serde_json::Value = serde_json::from_str(&body).unwrap();
    let arr = v["messages"].as_array().unwrap();
    assert_eq!(arr.len(), 3);
    assert_eq!(arr[0]["content"], serde_json::Value::from("first"));
    assert_eq!(arr[1]["role"], serde_json::Value::from("assistant"));
    assert_eq!(arr[2]["content"], serde_json::Value::from("third"));
}

#[test]
fn content_is_escaped_and_round_trips() {
    let tricky = "a\"b\\c\nd\te\rf\u{8}g\u{c}h\u{1}i";
    let ms = vec![msg("user", tricky)];
    let body = build_request_body("m", &ms, &ChatCompletionParams::default());
    let v: serde_json::Value = serde_json::from_str(&body).unwrap();
    assert_eq!(v["messages"][0]["content"].as_str().unwrap(), tricky);
}

#[test]
fn multibyte_content_is_kept_as_is() {
    let ms = vec![msg("user", "héllo → 🌍")];
    let body = build_request_body("m", &ms, &ChatCompletionParams::default());
    let v: serde_json::Value = serde_json::from_str(&body).unwrap();
    assert_eq!(
        v["messages"][0]["content"].as_str().unwrap(),
        "héllo → 🌍"
    );
}

#[test]
fn decimal_rendering_is_exact() {
    let as_string = |n: u32| -> String { u32_to_dec(n).into_iter().collect() };
    assert_eq!(as_string(0), "0");
    assert_eq!(as_string(7), "7");
    assert_eq!(as_string(100), "100");
    assert_eq!(as_string(4294967295), "4294967295");
}
