//! End-to-end scenarios: the coordinator drives a fake capture, a stubbed
//! transcription client, a tray log and an injection log, exactly as the
//! surrounding process would.

use rimay_type::application::{text_to_inject, Action, AppEvent, Coordinator, TrayCommand};
use rimay_type::audio::{encode_wav, SAMPLE_UNIT};
use rimay_type::groq_client::TranscribeOpts;

const RATE: u32 = 16000;

struct Harness {
    coordinator: Coordinator,
    captured: Vec<i64>,
    tray: Vec<bool>,
    transcribe_calls: Vec<Vec<u8>>,
    injected: Vec<String>,
    /// What the stubbed transcription client answers, `None` for failure.
    reply: Option<String>,
}

impl Harness {
    fn new(reply: Option<&str>) -> Harness {
        Harness {
            coordinator: Coordinator::new(),
            captured: Vec::new(),
            tray: Vec::new(),
            transcribe_calls: Vec::new(),
            injected: Vec::new(),
            reply: reply.map(|s| s.to_string()),
        }
    }

    fn feed_audio(&mut self, seconds_tenths: u32) {
        let n = (RATE * seconds_tenths / 10) as usize;
        self.captured.extend(std::iter::repeat(SAMPLE_UNIT / 2).take(n));
    }

    fn send(&mut self, event: AppEvent) {
        let action = self.coordinator.handle_event(event);
        match action.tray_command() {
            Some(TrayCommand::SetActive(active)) => self.tray.push(active),
            None => {},
        }
        match action {
            Action::Ignore => {},
            Action::Start => {
                self.captured.clear();
            },
            Action::Finish(_opts) => {
                let samples = std::mem::take(&mut self.captured);
                if let Some(clip) = encode_wav(&samples, RATE, 1) {
                    self.transcribe_calls.push(clip);
                    let outcome = self.reply.clone();
                    if let Some(text) = text_to_inject(outcome) {
                        self.injected.push(text);
                    }
                }
            },
        }
    }
}

fn opts() -> TranscribeOpts {
    TranscribeOpts {
        model: "m1".to_string(),
        language: Some("en".to_string()),
        prompt: None,
    }
}

#[test]
fn full_session_transcribes_and_injects() {
    let mut h = Harness::new(Some("hello"));
    h.send(AppEvent::KeyPressed(1, opts()));
    assert_eq!(h.tray, vec![true]);
    h.feed_audio(10); // one second of constant amplitude
    h.send(AppEvent::KeyReleased(1));
    assert_eq!(h.tray, vec![true, false]);
    assert_eq!(h.transcribe_calls.len(), 1);
    assert!(h.transcribe_calls[0].len() > 44);
    assert_eq!(h.injected, vec!["hello".to_string()]);
}

#[test]
fn short_session_never_reaches_the_client() {
    let mut h = Harness::new(Some("hello"));
    h.send(AppEvent::KeyPressed(1, opts()));
    h.feed_audio(2); // 0.2 seconds: below the half-second threshold
    h.send(AppEvent::KeyReleased(1));
    assert_eq!(h.tray, vec![true, false]);
    assert!(h.transcribe_calls.is_empty());
    assert!(h.injected.is_empty());
}

#[test]
fn failed_transcription_injects_nothing_and_recovers() {
    let mut h = Harness::new(None);
    h.send(AppEvent::KeyPressed(1, opts()));
    h.feed_audio(10);
    h.send(AppEvent::KeyReleased(1));
    assert_eq!(h.transcribe_calls.len(), 1);
    assert!(h.injected.is_empty());
    // The coordinator still accepts further presses afterwards.
    h.send(AppEvent::KeyPressed(2, opts()));
    assert_eq!(h.tray, vec![true, false, true]);
    assert!(!h.coordinator.is_idle());
}
