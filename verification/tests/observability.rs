use rusty_gpt::observability::{shape_text, EventLogger, LogFormat, RuntimeEvent};
use std::cell::RefCell;

#[test]
fn parses_supported_log_formats() {
    assert_eq!(LogFormat::Plain, LogFormat::parse("plain").unwrap());
    assert_eq!(LogFormat::Json, LogFormat::parse("json").unwrap());
}

#[test]
fn rejects_unsupported_log_format() {
    let err = LogFormat::parse("xml").unwrap_err();

    assert!(err.to_text().contains("unsupported log format"));
}

fn completed() -> RuntimeEvent {
    RuntimeEvent::GenerateRequestCompleted {
        status: 200,
        prompt_tokens: 3,
        generated_tokens: 5,
        elapsed_ms: 7,
    }
}

#[test]
fn json_lines_go_to_the_sink_as_they_are() {
    let lines = RefCell::new(Vec::new());
    let logger = EventLogger::with_sink(LogFormat::Json, |line: String| {
        lines.borrow_mut().push(line);
    });

    logger.log(&completed(), &Ok("{\"event\":\"generate_request_completed\"}".to_string()));

    assert_eq!(LogFormat::Json, logger.format());
    assert_eq!(
        vec!["{\"event\":\"generate_request_completed\"}".to_string()],
        *lines.borrow()
    );
}

#[test]
fn an_event_that_cannot_be_written_as_json_is_still_logged() {
    let line = completed().render(LogFormat::Json, &Err("broken".to_string()));
    let parsed: serde_json::Value = serde_json::from_str(&line).unwrap();

    assert!(parsed["error"].as_str().unwrap().contains("broken"));
}

#[test]
fn plain_lines_do_not_look_at_the_json() {
    let line = completed().render(LogFormat::Plain, &Err("broken".to_string()));

    assert_eq!(completed().to_plain(), line);
}

#[test]
fn training_progress_is_told_in_one_line() {
    let event = RuntimeEvent::TrainingProgress {
        backend: "cpu".to_string(),
        model: "minigpt".to_string(),
        step: 9,
        total_steps: 100,
        training_loss: "1.2500".to_string(),
        value_loss: "1.5000".to_string(),
        value_perplexity: "4.4817".to_string(),
        learning_rate: "0.000500".to_string(),
        elapsed_ms: 250,
        tokens_per_second: "8192.00".to_string(),
        steps_per_second: "40.0000".to_string(),
        step_ms_mean: "25.00".to_string(),
    };

    let line = event.to_plain();
    for part in ["9", "1.2500", "1.5000", "4.4817", "8192.00", "40.0000", "25.00"] {
        assert!(line.contains(part), "{line} should tell {part}");
    }
}

#[test]
fn shapes_are_told_in_brackets() {
    assert_eq!("[1, 2, 3]", shape_text(&vec![1, 2, 3]));
    assert_eq!("[]", shape_text(&Vec::new()));
}

#[test]
fn formats_name_themselves() {
    assert_eq!("plain", LogFormat::Plain.as_str());
    assert_eq!("json", LogFormat::Json.as_str());
}
