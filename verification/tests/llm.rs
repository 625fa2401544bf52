use serde_json::Value;
use sol_li_ni::llm::{
    check_status, stream_item, Choice, Chunk, Delta, Llm, Message, StreamEvent,
};

#[test]
fn the_completions_path_is_appended_to_the_base_url() {
    let endpoint = |base: &str| Llm::new(base, "k".to_owned(), "m".to_owned()).url;
    assert_eq!(endpoint("https://api.openai.com/v1"), "https://api.openai.com/v1/chat/completions");
    // A trailing slash is a natural thing to paste; it must not double up.
    assert_eq!(endpoint("http://localhost:11434/v1/"), "http://localhost:11434/v1/chat/completions");
    assert_eq!(endpoint("http://h//"), "http://h/chat/completions");
    assert_eq!(endpoint(""), "/chat/completions");
}

/// A chunk as the API writes it.
fn chunk(json: &str) -> Chunk {
    let value: Value = serde_json::from_str(json).unwrap();
    let choices = value["choices"]
        .as_array()
        .map(|choices| {
            choices
                .iter()
                .map(|choice| Choice {
                    delta: Delta {
                        content: choice["delta"]["content"].as_str().map(str::to_owned),
                    },
                })
                .collect()
        })
        .unwrap_or_default();
    Chunk { choices }
}

#[test]
fn a_chunk_yields_its_token() {
    let chunk = chunk(r#"{"choices":[{"delta":{"content":"Hello"},"index":0}]}"#);
    assert_eq!(chunk.token().as_deref(), Some("Hello"));
}

#[test]
fn chunks_without_content_are_skipped() {
    // The first chunk of a reply carries only the role, and the last carries a finish reason.
    for json in [
        r#"{"choices":[{"delta":{"role":"assistant"},"index":0}]}"#,
        r#"{"choices":[{"delta":{},"finish_reason":"stop","index":0}]}"#,
        r#"{"choices":[]}"#,
    ] {
        let chunk = chunk(json);
        assert!(chunk.token().is_none(), "{json}");
    }
}

#[test]
fn only_the_first_choice_counts_and_an_empty_one_is_nothing() {
    assert!(chunk(r#"{"choices":[{"delta":{"content":""}}]}"#).token().is_none());
    assert!(chunk(r#"{"choices":[{"delta":{}},{"delta":{"content":"b"}}]}"#).token().is_none());
    let two = chunk(r#"{"choices":[{"delta":{"content":"a"}},{"delta":{"content":"b"}}]}"#);
    assert_eq!(two.token().as_deref(), Some("a"));
}

fn data(text: &str, chunk: Option<Chunk>) -> StreamEvent {
    StreamEvent::Data { data: text.to_owned(), chunk }
}

#[test]
fn a_stream_yields_tokens_and_failures_only() {
    let json = r#"{"choices":[{"delta":{"content":"Hi"}}]}"#;
    assert_eq!(stream_item(data(json, Some(chunk(json)))), Some(Ok("Hi".to_owned())));
    assert_eq!(stream_item(data("[DONE]", None)), None);
    assert_eq!(stream_item(data("[DONE]", Some(chunk(json)))), None);
    assert_eq!(stream_item(data("no chunk", None)), None);
    assert_eq!(
        stream_item(StreamEvent::Failed("reset".to_owned())),
        Some(Err("OpenAI stream failed: reset".to_owned()))
    );
}

#[test]
fn a_bad_status_is_surfaced_with_its_body() {
    assert_eq!(check_status(true, "200 OK", "ignored"), Ok(()));
    assert_eq!(
        check_status(false, "401 Unauthorized", "bad key"),
        Err("OpenAI returned 401 Unauthorized: bad key".to_owned())
    );
}

#[test]
fn a_request_carries_the_model_and_every_message() {
    let llm = Llm::new("http://h", "k".to_owned(), "m".to_owned());
    let llm = llm.clone();
    assert_eq!((llm.url.as_str(), llm.api_key.as_str()), ("http://h/chat/completions", "k"));
    let messages = vec![
        Message::system("s".to_owned()),
        Message::user("u".to_owned()),
        Message::assistant("a".to_owned()),
    ];
    let request = llm.request(&messages);
    assert_eq!(request.model, "m");
    assert!(request.stream);
    let seen: Vec<(&str, &str)> =
        request.messages.iter().map(|m| (m.role.as_str(), m.content.as_str())).collect();
    assert_eq!(seen, [("system", "s"), ("user", "u"), ("assistant", "a")]);
}

#[test]
fn a_message_is_copied_whole() {
    let copy = Message::user("hi".to_owned()).clone();
    assert_eq!(copy.role, "user");
    assert_eq!(copy.content, "hi");
}
