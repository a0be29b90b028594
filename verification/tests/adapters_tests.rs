use keel::adapters::{
    wav_i16_bytes,
    clean_segments, deepseek_chat_url, local_chat_url, reasoning_effort, reply_of, role_str, text_of, thinking_budget,
    thinking_enabled, trim_endpoint, OaiChoice, OaiFunction, OaiMessage, OaiResponse, OaiToolCall, OaiUsage, RawSegment,
    Segment, Whisper,
};
use keel::types::{Content, Effort, Role};

#[test]
fn reasoning_effort_mapping() {
    assert_eq!(reasoning_effort(&Effort { n: 1, thinking: Some("high".into()) }), Some("high".to_string()));
    assert_eq!(reasoning_effort(&Effort { n: 1, thinking: Some("low".into()) }), None);
    assert_eq!(reasoning_effort(&Effort { n: 1, thinking: None }), None);
}

#[test]
fn thinking_toggle_mapping() {
    assert_eq!(thinking_enabled(&Effort { n: 1, thinking: Some("high".into()) }), Some(true));
    assert_eq!(thinking_enabled(&Effort { n: 1, thinking: Some("low".into()) }), Some(false));
    assert_eq!(thinking_enabled(&Effort { n: 1, thinking: None }), None);
}

#[test]
fn thinking_budget_only_at_high_or_max() {
    assert_eq!(thinking_budget(&Effort { n: 1, thinking: Some("high".into()) }), Some(8192));
    assert_eq!(thinking_budget(&Effort { n: 1, thinking: Some("max".into()) }), Some(8192));
    assert_eq!(thinking_budget(&Effort { n: 1, thinking: Some("low".into()) }), None);
    assert_eq!(thinking_budget(&Effort { n: 1, thinking: None }), None);
}

#[test]
fn parse_transcript_cleans_and_joins() {
    let raw = "\n  And so my fellow Americans  \n   ask not what your country can do for you \n\n";
    assert_eq!(
        Whisper::parse_transcript(raw),
        "And so my fellow Americans ask not what your country can do for you"
    );
    assert_eq!(Whisper::parse_transcript("   \n\n  "), "");
}

#[test]
fn args_pin_model_and_audio_and_request_a_clean_transcript() {
    let a = Whisper::args("M.bin", "a.wav");
    assert!(a.windows(2).any(|w| w[0] == "-m" && w[1] == "M.bin"), "model pinned");
    assert!(a.windows(2).any(|w| w[0] == "-f" && w[1] == "a.wav"), "audio pinned");
    assert!(a.contains(&"--no-timestamps".to_string()), "timestamp-free transcript");
}

#[test]
fn args_json_request_the_timestamped_json() {
    let a = Whisper::args_json("M.bin", "a.wav", "out");
    assert!(a.contains(&"-oj".to_string()), "JSON output");
    assert!(a.windows(2).any(|w| w[0] == "-of" && w[1] == "out"), "output base pinned");
}

#[test]
fn parse_segments_pulls_ms_offsets_and_drops_blanks() {
    let raw = vec![
        RawSegment { from_ms: Some(0), to_ms: Some(2500), text: Some(" Hello there. ".into()) },
        RawSegment { from_ms: Some(2500), to_ms: Some(2600), text: Some("   ".into()) },
        RawSegment { from_ms: Some(2600), to_ms: Some(5000), text: Some("Second segment.".into()) },
        RawSegment { from_ms: None, to_ms: None, text: None },
    ];
    let segs = clean_segments(&raw);
    assert_eq!(segs.len(), 2, "blank segments dropped");
    assert_eq!(segs[0], Segment { start_ms: 0, end_ms: 2500, text: "Hello there.".into() });
    assert_eq!(segs[1].start_ms, 2600);
    let defaulted = clean_segments(&vec![RawSegment { from_ms: None, to_ms: None, text: Some("x".into()) }]);
    assert_eq!(defaulted, vec![Segment { start_ms: 0, end_ms: 0, text: "x".into() }]);
}

#[test]
fn whisper_holds_its_paths() {
    let w = Whisper::new("cli".into(), "model.bin".into());
    assert_eq!(w.cli, "cli");
    assert_eq!(w.model, "model.bin");
}

#[test]
fn chat_url_has_no_v1() {
    assert_eq!(deepseek_chat_url(&trim_endpoint("https://api.deepseek.com/")), "https://api.deepseek.com/chat/completions");
    assert_eq!(local_chat_url(&trim_endpoint("http://127.0.0.1:8080//")), "http://127.0.0.1:8080/v1/chat/completions");
}

#[test]
fn roles_have_wire_names_and_text_parts_join() {
    assert_eq!(role_str(Role::System), "system");
    assert_eq!(role_str(Role::Tool), "tool");
    let c = vec![
        Content::Text { text: "a".into() },
        Content::Image { source: "i".into() },
        Content::Text { text: "b".into() },
    ];
    assert_eq!(text_of(&c), "a\nb");
    assert_eq!(text_of(&vec![]), "");
}

#[test]
fn parses_response_without_cost() {
    let oai = OaiResponse {
        choices: vec![OaiChoice {
            message: OaiMessage {
                content: Some("hi".into()),
                reasoning_content: Some("because".into()),
                tool_calls: vec![OaiToolCall {
                    id: "c1".into(),
                    kind: String::new(),
                    function: OaiFunction { name: "read_file".into(), arguments: "{}".into() },
                }],
            },
        }],
        usage: OaiUsage { prompt_tokens: 10, completion_tokens: 5, prompt_cache_hit_tokens: 4 },
    };
    let r = reply_of(oai);
    assert_eq!(r.content, "hi");
    assert_eq!(r.reasoning_content.as_deref(), Some("because"));
    assert_eq!(r.tool_calls.len(), 1);
    assert_eq!(r.tool_calls[0].kind, "function", "an empty kind reads as function");
    assert_eq!(r.usage.input_tokens, 10);
    assert_eq!(r.usage.cache_hit_tokens, 4);
    let empty = reply_of(OaiResponse {
        choices: vec![],
        usage: OaiUsage { prompt_tokens: 0, completion_tokens: 0, prompt_cache_hit_tokens: 0 },
    });
    assert_eq!(empty.content, "");
    assert!(empty.tool_calls.is_empty());
}

#[test]
fn writes_a_canonical_riff_wave_header() {
    let b = wav_i16_bytes(&vec![0i16, 100, -100, 32767, -32768], 16000, 1);
    assert_eq!(&b[0..4], b"RIFF");
    assert_eq!(&b[8..12], b"WAVE");
    assert_eq!(&b[12..16], b"fmt ");
    assert_eq!(&b[36..40], b"data");
    assert_eq!(u32::from_le_bytes([b[24], b[25], b[26], b[27]]), 16000, "sample rate at offset 24");
    assert_eq!(u16::from_le_bytes([b[22], b[23]]), 1, "mono");
    assert_eq!(b.len(), 44 + 5 * 2, "44-byte header + 5 i16 samples");
}

#[test]
fn wav_samples_are_little_endian_twos_complement() {
    let b = wav_i16_bytes(&vec![-100i16, 32767, -32768], 8000, 2);
    assert_eq!(u32::from_le_bytes([b[4], b[5], b[6], b[7]]), 36 + 6, "RIFF size = 36 + data");
    assert_eq!(u32::from_le_bytes([b[28], b[29], b[30], b[31]]), 8000 * 4, "byte rate");
    assert_eq!(u16::from_le_bytes([b[32], b[33]]), 4, "block align");
    assert_eq!(u16::from_le_bytes([b[34], b[35]]), 16, "bits per sample");
    assert_eq!(u32::from_le_bytes([b[40], b[41], b[42], b[43]]), 6, "data length");
    assert_eq!(i16::from_le_bytes([b[44], b[45]]), -100);
    assert_eq!(i16::from_le_bytes([b[46], b[47]]), 32767);
    assert_eq!(i16::from_le_bytes([b[48], b[49]]), -32768);
}
