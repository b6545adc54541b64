use codez_llm_switch::connector::anthropic_sse::AnthropicSseState;
use codez_llm_switch::protocol::{ApiError, ResponseEvent};
use codez_llm_switch::sse::{is_success, status_error, take_record, Arrival, Outcome, SseReader};
use codez_llm_switch::testing::chat_translator;
use codez_llm_switch::SseTranslator;

type Item = Result<ResponseEvent, ApiError>;

fn deliver<T: SseTranslator>(translator: T, arrivals: Vec<Arrival>) -> Vec<Item> {
    let mut reader = SseReader::new(translator);
    let mut all = Vec::new();
    for got in arrivals {
        all.append(&mut reader.receive(got));
    }
    all
}

fn read<T: SseTranslator>(translator: T, chunks: &[&[u8]]) -> (Vec<ResponseEvent>, Option<ApiError>) {
    let mut arrivals: Vec<Arrival> = chunks.iter().map(|c| Arrival::Bytes(c)).collect();
    arrivals.push(Arrival::End);
    let mut events = Vec::new();
    let mut error = None;
    for item in deliver(translator, arrivals) {
        assert!(error.is_none(), "nothing follows an error");
        match item {
            Ok(e) => events.push(e),
            Err(e) => error = Some(e),
        }
    }
    (events, error)
}

fn kinds(body: &str) -> Vec<String> {
    let (events, error) = read(chat_translator(), &[body.as_bytes()]);
    assert!(error.is_none(), "{error:?}");
    events.iter().map(|e| format!("{e:?}")).collect()
}

#[test]
fn non_2xx_returns_err_synchronously() {
    assert!(!is_success(401));
    match status_error(401, "nope".into()) {
        ApiError::Api { status, message } => {
            assert_eq!(status, 401);
            assert_eq!(message, "nope");
        }
        other => panic!("unexpected error {other:?}"),
    }
    assert!(!is_success(199));
    assert!(is_success(200));
    assert!(is_success(299));
    assert!(!is_success(300));
}

#[test]
fn happy_path_streams_events() {
    let sse = "data: {\"id\":\"r\",\"choices\":[{\"index\":0,\"delta\":{\"content\":\"hi\"},\"finish_reason\":\"stop\"}],\"usage\":{\"prompt_tokens\":1,\"completion_tokens\":1,\"total_tokens\":2}}\n\ndata: [DONE]\n\n";
    let kinds = kinds(sse);
    assert!(kinds.iter().any(|k| k.contains("OutputTextDelta")));
    assert!(kinds.iter().any(|k| k.contains("Completed")));
}

#[test]
fn happy_path_chinese_content_not_corrupted() {
    let sse = "data: {\"id\":\"r\",\"choices\":[{\"index\":0,\"delta\":{\"content\":\"你好世界\"},\"finish_reason\":\"stop\"}],\"usage\":{\"prompt_tokens\":1,\"completion_tokens\":4,\"total_tokens\":5}}\n\ndata: [DONE]\n\n";
    let kinds = kinds(sse);
    assert!(kinds.iter().any(|k| k.contains("OutputTextDelta")));
    assert!(kinds.iter().any(|k| k.contains("你好")), "text must pass unchanged: {kinds:?}");
}

#[test]
fn cuts_make_no_difference() {
    let sse = "event: x\ndata: {\"id\":\"r\",\"choices\":[{\"delta\":{\"content\":\"你好\"}}]}\n\n: comment\n\ndata:{\"choices\":[{\"delta\":{\"content\":\" ok\"},\"finish_reason\":\"stop\"}]}\n\ndata: [DONE]\n\n";
    let bytes = sse.as_bytes();
    let (whole, _) = read(chat_translator(), &[bytes]);
    let whole = format!("{whole:?}");
    for i in 0..bytes.len() {
        let (cut, error) = read(chat_translator(), &[&bytes[..i], &bytes[i..]]);
        assert!(error.is_none());
        assert_eq!(format!("{cut:?}"), whole, "cut at {i}");
    }
    let single: Vec<&[u8]> = bytes.chunks(1).collect();
    let (cut, _) = read(chat_translator(), &single);
    assert_eq!(format!("{cut:?}"), whole);
}

#[test]
fn nothing_behind_the_mark_is_looked_at() {
    let sse = "data: [DONE]\ndata: nonsense\n\ndata: nonsense\n\n";
    let (events, error) = read(chat_translator(), &[sse.as_bytes(), b"data: nonsense\n\n"]);
    assert!(error.is_none());
    assert_eq!(events.len(), 1);
}

#[test]
fn stream_without_mark_ends_with_its_bytes() {
    let sse = "data: {\"id\":\"r\",\"choices\":[{\"delta\":{\"content\":\"a\"}}]}\n\ndata: {\"choices\":[{\"delta\":{\"content\":\"b\"}}]}\n";
    let (events, error) = read(chat_translator(), &[sse.as_bytes()]);
    assert!(error.is_none());
    assert_eq!(events.len(), 3);
    assert!(matches!(&events[0], ResponseEvent::OutputTextDelta(t) if t == "a"));
    assert!(matches!(&events[1], ResponseEvent::OutputItemDone(_)));
    assert!(matches!(
        &events[2],
        ResponseEvent::Completed { response_id, token_usage: None, end_turn: None } if response_id == "r"
    ));
}

#[test]
fn bad_json_breaks_the_stream() {
    let (events, error) = read(chat_translator(), &[b"data: {oops\n\n"]);
    assert!(events.is_empty());
    match error {
        Some(ApiError::Stream(m)) => {
            assert_eq!(m, "bad SSE json: key must be a string at line 1 column 2");
        }
        other => panic!("unexpected {other:?}"),
    }
}

#[test]
fn bad_bytes_break_the_stream() {
    let (events, error) = read(chat_translator(), &[b"data: \xff\n\n"]);
    assert!(events.is_empty());
    match error {
        Some(ApiError::Stream(m)) => assert_eq!(
            m,
            "SSE frame UTF-8 error: invalid utf-8 sequence of 1 bytes from index 6"
        ),
        other => panic!("unexpected {other:?}"),
    }
}

#[test]
fn upstream_error_fails_without_completion() {
    let sse = "data: {\"choices\":[{\"delta\":{\"content\":\"a\"}}]}\n\ndata: {\"error\":{\"b\":1,\"a\":\"x\"}}\n\ndata: [DONE]\n\n";
    let (events, error) = read(chat_translator(), &[sse.as_bytes()]);
    assert_eq!(events.len(), 1);
    match error {
        Some(ApiError::InvalidRequest { message }) => {
            assert_eq!(message, "upstream error in SSE chunk: {\"a\":\"x\",\"b\":1}");
        }
        other => panic!("unexpected {other:?}"),
    }
}

#[test]
fn white_space_and_carriage_returns_do_not_matter() {
    let sse = "\u{a0}\tdata:   {\"id\":\"r\",\"choices\":[{\"delta\":{\"content\":\"a\"}}]}\u{2003}\r\ndata:\r\ndata\n\n";
    let (events, error) = read(chat_translator(), &[sse.as_bytes()]);
    assert!(error.is_none());
    assert!(matches!(&events[0], ResponseEvent::OutputTextDelta(t) if t == "a"));
}

#[test]
fn carriage_returns_end_no_frame() {
    let mut reader = SseReader::new(chat_translator());
    assert!(reader.receive(Arrival::Bytes(b"data: [DONE]\r\n\r\n")).is_empty());
    assert!(reader.is_open());
    assert_eq!(reader.receive(Arrival::Bytes(b"\n")).len(), 1);
    assert!(!reader.is_open());
}

#[test]
fn record_is_taken_by_what_it_parses_to() {
    let mut translator = chat_translator();
    let (events, outcome) = take_record(&mut translator, Err("why".into()));
    assert!(events.is_empty());
    assert!(matches!(outcome, Outcome::Failed(ApiError::Stream(m)) if m == "bad SSE json: why"));
    let record = serde_json::from_str("{\"choices\":[{\"delta\":{\"content\":\"z\"}}]}").unwrap();
    let (events, outcome) = take_record(&mut translator, Ok(record));
    assert_eq!(events.len(), 1);
    assert!(matches!(outcome, Outcome::More));
}

const TEXT: &[u8] = b"data: {\"id\":\"r\",\"choices\":[{\"delta\":{\"content\":\"a\"}}]}\n\n";
const DONE: &[u8] = b"data: [DONE]\n\n";

#[test]
fn fault_on_the_way_is_the_last_item() {
    let items = deliver(
        chat_translator(),
        vec![
            Arrival::Bytes(TEXT),
            Arrival::Broken("reset".into()),
            Arrival::Bytes(TEXT),
            Arrival::Bytes(DONE),
            Arrival::Broken("again".into()),
            Arrival::End,
        ],
    );
    assert_eq!(items.len(), 2);
    assert!(matches!(&items[0], Ok(ResponseEvent::OutputTextDelta(t)) if t == "a"));
    assert!(matches!(&items[1], Err(ApiError::Stream(m)) if m == "stream error: reset"));
}

#[test]
fn nothing_is_completed_behind_a_failure() {
    for bad in [&b"data: {oops\n\n"[..], b"\xff\n\n", b"data: {\"error\":1}\n\n"] {
        let mut reader = SseReader::new(chat_translator());
        assert_eq!(reader.receive(Arrival::Bytes(TEXT)).len(), 1);
        let items = reader.receive(Arrival::Bytes(bad));
        assert_eq!(items.len(), 1);
        assert!(items[0].is_err());
        assert!(!reader.is_open());
        assert!(reader.receive(Arrival::Bytes(DONE)).is_empty());
        assert!(reader.receive(Arrival::End).is_empty());
    }
}

#[test]
fn response_is_completed_once() {
    let items = deliver(
        chat_translator(),
        vec![
            Arrival::Bytes(TEXT),
            Arrival::Bytes(DONE),
            Arrival::Bytes(DONE),
            Arrival::Broken("late".into()),
            Arrival::End,
        ],
    );
    assert_eq!(items.len(), 3);
    assert!(items.iter().all(|i| i.is_ok()));
    assert!(matches!(&items[2], Ok(ResponseEvent::Completed { .. })));
}

#[test]
fn anthropic_stream_is_read() {
    let sse = "event: message_start\ndata: {\"type\":\"message_start\",\"message\":{\"id\":\"m\",\"usage\":{\"input_tokens\":2}}}\n\nevent: content_block_delta\ndata: {\"type\":\"content_block_delta\",\"index\":0,\"delta\":{\"type\":\"text_delta\",\"text\":\"hey\"}}\n\nevent: message_stop\ndata: {\"type\":\"message_stop\"}\n\n";
    let (events, error) = read(AnthropicSseState::new(), &[sse.as_bytes()]);
    assert!(error.is_none());
    assert_eq!(events.len(), 3);
    assert!(matches!(&events[0], ResponseEvent::OutputTextDelta(t) if t == "hey"));
    assert!(matches!(&events[2], ResponseEvent::Completed { response_id, .. } if response_id == "m"));
}
