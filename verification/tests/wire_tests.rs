use keel::adapters::trim_endpoint;
use keel::errors::KeelError;
use keel::types::{Content, Effort, Message, Role};
use keel::wire::{
    anthropic_body, anthropic_message, anthropic_reply, base_body, deepseek_body, image_block, local_body, map_content,
    reply_model, AnthBlock, AnthContent, AnthImage, AnthReplyBlock, AnthUsage, OaiContent, OaiPart,
};

fn msg(role: Role, text: &str) -> Message {
    Message { role, content: vec![Content::Text { text: text.into() }], name: None, reasoning_content: None, tool_call_id: None }
}

fn effort(thinking: Option<&str>) -> Effort {
    Effort { n: 1, thinking: thinking.map(str::to_string) }
}

fn plain(c: &OaiContent) -> Option<&str> {
    match c {
        OaiContent::Plain(s) => Some(s.as_str()),
        _ => None,
    }
}

fn other_message(e: &KeelError) -> &str {
    match e {
        KeelError::Other(m) => m.as_str(),
        _ => panic!("expected KeelError::Other"),
    }
}

#[test]
fn single_text_maps_to_a_string() {
    let body = base_body(&vec![msg(Role::User, "hi")], "qwen", 256).unwrap();
    assert_eq!(body.messages[0].role, "user");
    assert_eq!(plain(&body.messages[0].content), Some("hi"));
    assert_eq!(body.model, "qwen");
    assert_eq!(body.max_tokens, 256);
}

#[test]
fn image_maps_to_image_url_part() {
    let m = Message {
        role: Role::User,
        content: vec![
            Content::Text { text: "what is this".into() },
            Content::Image { source: "data:image/png;base64,AAAA".into() },
        ],
        name: None,
        reasoning_content: None,
        tool_call_id: None,
    };
    let body = base_body(&vec![m], "qwen", 256).unwrap();
    match &body.messages[0].content {
        OaiContent::Parts(parts) => {
            assert!(matches!(&parts[0], OaiPart::Text { text } if text == "what is this"));
            assert!(matches!(&parts[1], OaiPart::ImageUrl { url } if url == "data:image/png;base64,AAAA"));
        }
        _ => panic!("expected parts"),
    }
}

#[test]
fn audio_content_is_rejected() {
    let m = Message {
        role: Role::User,
        content: vec![Content::Audio { source: "mic.wav".into() }],
        name: None,
        reasoning_content: None,
        tool_call_id: None,
    };
    assert!(base_body(&vec![m], "qwen", 256).is_err());
}

#[test]
fn empty_content_is_the_empty_string_and_optional_fields_carry() {
    assert_eq!(plain(&map_content(&vec![]).unwrap()), Some(""));
    let m = Message {
        role: Role::Tool,
        content: vec![Content::Text { text: "42".into() }],
        name: Some("calc".into()),
        reasoning_content: Some("why".into()),
        tool_call_id: Some("c1".into()),
    };
    let body = base_body(&vec![m], "m", 8).unwrap();
    let w = &body.messages[0];
    assert_eq!(w.role, "tool");
    assert_eq!(w.name.as_deref(), Some("calc"));
    assert_eq!(w.tool_call_id.as_deref(), Some("c1"));
    assert_eq!(w.reasoning_content.as_deref(), Some("why"));
}

#[test]
fn clip_refusal_names_the_preprocessing_rule() {
    let e = map_content(&vec![Content::Text { text: "x".into() }, Content::Clip { video: "v".into(), frames: "1".into() }])
        .err()
        .unwrap();
    assert_eq!(
        other_message(&e),
        "clip/audio must be pre-processed to frames/text before the cognition tier (canon §12)"
    );
}

#[test]
fn thinking_block_only_when_enabled() {
    let on = deepseek_body(&vec![msg(Role::User, "x")], "deepseek", 64, &effort(Some("high"))).unwrap();
    assert_eq!(on.reasoning_effort.as_deref(), Some("high"));
    let off = deepseek_body(&vec![msg(Role::User, "x")], "deepseek", 64, &Effort::default()).unwrap();
    assert!(off.reasoning_effort.is_none());
}

#[test]
fn body_carries_thinking_and_endpoint_is_trimmed() {
    assert_eq!(trim_endpoint("http://127.0.0.1:8080/"), "http://127.0.0.1:8080");
    let body = local_body(&vec![msg(Role::User, "hi")], "qwen", 64, &effort(Some("low"))).unwrap();
    assert_eq!(body.enable_thinking, Some(false));
    let plain_body = local_body(&vec![msg(Role::User, "hi")], "qwen", 64, &Effort::default()).unwrap();
    assert!(plain_body.enable_thinking.is_none());
}

#[test]
fn system_is_hoisted_top_level_and_user_is_a_string() {
    let body =
        anthropic_body(&vec![msg(Role::System, "be terse"), msg(Role::User, "hi")], "opus-4-8", 4096, &effort(None))
            .unwrap();
    assert_eq!(body.system.as_deref(), Some("be terse"));
    assert_eq!(body.messages.len(), 1);
    assert_eq!(body.messages[0].role, "user");
    assert!(matches!(&body.messages[0].content, AnthContent::Plain(s) if s == "hi"));
    assert_eq!(body.max_tokens, 4096);
    assert!(body.thinking_budget.is_none());
}

#[test]
fn thinking_high_enables_with_budget_and_bumps_max_tokens() {
    let body = anthropic_body(&vec![msg(Role::User, "hard")], "opus-4-8", 4096, &effort(Some("high"))).unwrap();
    assert_eq!(body.thinking_budget, Some(8192));
    assert_eq!(body.max_tokens, 8192 + 4096);
    let roomy = anthropic_body(&vec![msg(Role::User, "hard")], "m", 20000, &effort(Some("max"))).unwrap();
    assert_eq!(roomy.max_tokens, 20000);
}

#[test]
fn image_data_uri_becomes_a_base64_block() {
    match image_block("data:image/png;base64,AAAA").unwrap() {
        AnthImage::Base64 { media_type, data } => {
            assert_eq!(media_type, "image/png");
            assert_eq!(data, "AAAA");
        }
        _ => panic!("expected base64"),
    }
    assert!(image_block("/local/path.png").is_err());
}

#[test]
fn image_urls_stay_urls_and_bare_data_is_refused() {
    assert!(matches!(image_block("https://x.test/a.png").unwrap(), AnthImage::Url { url } if url == "https://x.test/a.png"));
    assert!(matches!(image_block("http://x.test/a.png").unwrap(), AnthImage::Url { .. }));
    let e = image_block("data:image/png").err().unwrap();
    assert_eq!(other_message(&e), "anthropic: image must be a data-uri or http(s) url");
    match image_block("data:image/gif,R0lG").unwrap() {
        AnthImage::Base64 { media_type, data } => {
            assert_eq!(media_type, "image/gif");
            assert_eq!(data, "R0lG");
        }
        _ => panic!("expected base64"),
    }
}

#[test]
fn system_messages_join_and_roles_map() {
    let ms = vec![
        msg(Role::System, "one"),
        msg(Role::User, "q"),
        msg(Role::System, "two"),
        msg(Role::Assistant, "a"),
        msg(Role::Tool, "t"),
    ];
    let body = anthropic_body(&ms, "m", 100, &effort(Some("low"))).unwrap();
    assert_eq!(body.system.as_deref(), Some("one\ntwo"));
    let roles: Vec<&str> = body.messages.iter().map(|m| m.role.as_str()).collect();
    assert_eq!(roles, vec!["user", "assistant", "user"]);
    assert!(body.thinking_budget.is_none());
    let nosys = anthropic_body(&vec![msg(Role::User, "q")], "m", 100, &effort(None)).unwrap();
    assert!(nosys.system.is_none());
}

#[test]
fn anthropic_refuses_the_first_bad_part() {
    let m = Message {
        role: Role::User,
        content: vec![
            Content::Text { text: "look".into() },
            Content::Image { source: "/local.png".into() },
            Content::Audio { source: "a.wav".into() },
        ],
        name: None,
        reasoning_content: None,
        tool_call_id: None,
    };
    let e = anthropic_body(&vec![m], "m", 10, &effort(None)).err().unwrap();
    assert_eq!(other_message(&e), "anthropic: image must be a data-uri or http(s) url");
    let clip = anthropic_message("user", &vec![Content::Clip { video: "v".into(), frames: "f".into() }]).err().unwrap();
    assert_eq!(other_message(&clip), "anthropic: clip/audio must be pre-processed before cognition");
    let ok = anthropic_message(
        "user",
        &vec![Content::Text { text: "see".into() }, Content::Image { source: "https://i.test/p.png".into() }],
    )
    .unwrap();
    match ok.content {
        AnthContent::Blocks(b) => {
            assert!(matches!(&b[0], AnthBlock::Text { text } if text == "see"));
            assert!(matches!(&b[1], AnthBlock::Image { image: AnthImage::Url { .. } }));
        }
        _ => panic!("expected blocks"),
    }
}

#[test]
fn anthropic_reply_reads_content_blocks() {
    let blocks = vec![
        AnthReplyBlock::Thinking { thinking: Some("hmm".into()) },
        AnthReplyBlock::Text { text: Some("Hello.".into()) },
        AnthReplyBlock::ToolUse { id: Some("t1".into()), name: Some("read".into()), input: Some("{\"path\":\"x\"}".into()) },
        AnthReplyBlock::Other,
    ];
    let r = anthropic_reply(&blocks, &AnthUsage { input_tokens: 1000, output_tokens: 500, cache_read_input_tokens: 0 });
    assert_eq!(r.content, "Hello.");
    assert_eq!(r.reasoning_content.as_deref(), Some("hmm"));
    assert_eq!(r.tool_calls.len(), 1);
    assert_eq!(r.tool_calls[0].name, "read");
    assert_eq!(r.tool_calls[0].kind, "function");
    assert_eq!(r.tool_calls[0].arguments, "{\"path\":\"x\"}");
    assert_eq!(r.usage.input_tokens, 1000);
    assert_eq!(r.usage.cache_hit_tokens, 0);
    let empty = anthropic_reply(&vec![AnthReplyBlock::Text { text: None }], &AnthUsage { input_tokens: 0, output_tokens: 0, cache_read_input_tokens: 7 });
    assert_eq!(empty.content, "");
    assert!(empty.reasoning_content.is_none());
    assert_eq!(empty.usage.cache_hit_tokens, 7);
}

#[test]
fn reply_model_falls_back_to_the_configured_model() {
    assert_eq!(reply_model("", "opus-4-8"), "opus-4-8");
    assert_eq!(reply_model("opus-x", "opus-4-8"), "opus-x");
}
