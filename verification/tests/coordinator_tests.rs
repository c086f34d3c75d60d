use rimay_type::application::{
    text_to_inject, Action, AppEvent, ControlEvent, Coordinator, LoopStep, TrayCommand,
};
use rimay_type::groq_client::TranscribeOpts;

fn opts(model: &str) -> TranscribeOpts {
    TranscribeOpts {
        model: model.to_string(),
        language: None,
        prompt: None,
    }
}

#[test]
fn release_without_press_is_ignored() {
    let mut coordinator = Coordinator::new();
    let action = coordinator.handle_event(AppEvent::KeyReleased(1));
    assert!(matches!(action, Action::Ignore));
    assert!(coordinator.is_idle());
}

#[test]
fn press_while_active_is_ignored() {
    let mut coordinator = Coordinator::new();
    assert!(matches!(
        coordinator.handle_event(AppEvent::KeyPressed(1, opts("m1"))),
        Action::Start
    ));
    // A second key while one is active.
    assert!(matches!(
        coordinator.handle_event(AppEvent::KeyPressed(2, opts("m2"))),
        Action::Ignore
    ));
    // A double press of the active key itself.
    assert!(matches!(
        coordinator.handle_event(AppEvent::KeyPressed(1, opts("m1"))),
        Action::Ignore
    ));
    assert!(!coordinator.is_idle());
}

#[test]
fn foreign_release_is_ignored() {
    let mut coordinator = Coordinator::new();
    coordinator.handle_event(AppEvent::KeyPressed(1, opts("m1")));
    assert!(matches!(
        coordinator.handle_event(AppEvent::KeyReleased(2)),
        Action::Ignore
    ));
    assert!(!coordinator.is_idle());
}

#[test]
fn press_then_release_returns_to_idle() {
    let mut coordinator = Coordinator::new();
    assert!(matches!(
        coordinator.handle_event(AppEvent::KeyPressed(1, opts("m1"))),
        Action::Start
    ));
    match coordinator.handle_event(AppEvent::KeyReleased(1)) {
        Action::Finish(finish_opts) => assert_eq!(finish_opts.model, "m1"),
        other => panic!("expected the session to finish, got {other:?}"),
    }
    assert!(coordinator.is_idle());
    // The coordinator accepts a fresh session afterwards.
    assert!(matches!(
        coordinator.handle_event(AppEvent::KeyPressed(3, opts("m3"))),
        Action::Start
    ));
}

#[test]
fn tray_commands_follow_the_actions() {
    assert_eq!(Action::Ignore.tray_command(), None);
    assert_eq!(Action::Start.tray_command(), Some(TrayCommand::SetActive(true)));
    assert_eq!(
        Action::Finish(opts("m")).tray_command(),
        Some(TrayCommand::SetActive(false))
    );
}

#[test]
fn control_loop_steps() {
    let mut coordinator = Coordinator::new();
    assert!(matches!(
        coordinator.step(ControlEvent::Hotkey(AppEvent::KeyPressed(1, opts("m")))),
        LoopStep::Continue(Action::Start)
    ));
    // A supervised thread failure is always fatal and leaves state alone.
    assert!(matches!(
        coordinator.step(ControlEvent::ThreadFailed),
        LoopStep::FailStop
    ));
    assert!(!coordinator.is_idle());
    // Shutdown stops cleanly.
    assert!(matches!(
        coordinator.step(ControlEvent::Shutdown),
        LoopStep::CleanStop
    ));
}

#[test]
fn injection_only_for_nonempty_success() {
    assert_eq!(text_to_inject(Some("hello".to_string())), Some("hello".to_string()));
    assert_eq!(text_to_inject(Some(String::new())), None);
    assert_eq!(text_to_inject(None), None);
}

#[test]
fn event_display_names_variant_and_key() {
    assert_eq!(AppEvent::KeyPressed(12, opts("m")).display(), "KeyPressed(12)");
    assert_eq!(AppEvent::KeyReleased(4005).display(), "KeyReleased(4005)");
}

#[test]
fn opts_display_truncates_the_prompt() {
    let full = TranscribeOpts {
        model: "whisper-large-v3".to_string(),
        language: Some("en".to_string()),
        prompt: Some("spell Ada Lovelace right".to_string()),
    };
    assert_eq!(
        full.display(),
        "model=whisper-large-v3, language=en, preview=spell Ada ..."
    );
    let bare = TranscribeOpts {
        model: "m1".to_string(),
        language: None,
        prompt: Some("short".to_string()),
    };
    assert_eq!(bare.display(), "model=m1, preview=short...");
}
