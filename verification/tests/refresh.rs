use calendar_refresh::refresh::{
    blank, white_space, Credentials, Phase, RefreshAction, RefreshLoop, SelectionError,
    NUMBER_OF_CONCURRENT_SCRAPES, PAUSE_SECS, SELECTION_RETRY_SECS,
};
use calendar_refresh::scheduler::RateLimiter;
use calendar_refresh::selector::{Candidate, SelectorConfig};
use calendar_refresh::token::{AuthError, AuthToken, TokenManager, TOKEN_RETRY_SECS};

const NOW: i64 = 1_700_000_000;

fn some(text: &str) -> Option<String> {
    Some(text.to_string())
}

fn batch(n: usize) -> Vec<Candidate> {
    (0..n)
        .map(|i| Candidate { entity_key: format!("e{}", i), external_ref: i as i32, priority_score: 0 })
        .collect()
}

fn token(expires_at: i64) -> AuthToken {
    AuthToken { value: "SECRET-REDACTED".to_string(), expires_at }
}

fn started() -> RefreshLoop {
    let (refresh, action) =
        RefreshLoop::start(some("id"), some("secret"), SelectorConfig::default(), RateLimiter::default());
    assert!(matches!(action, RefreshAction::Select { limit: 30 }));
    refresh
}

fn key_of(action: RefreshAction) -> String {
    match action {
        RefreshAction::Start { candidate, delay_ms } => {
            assert_eq!(delay_ms, 50);
            candidate.entity_key
        }
        other => panic!("expected a start, got {:?}", other),
    }
}

#[test]
fn white_space_is_what_unicode_says() {
    for c in [' ', '\t', '\n', '\r', '\u{0B}', '\u{0C}', '\u{85}', '\u{A0}', '\u{1680}', '\u{2000}', '\u{200A}', '\u{2028}', '\u{2029}', '\u{202F}', '\u{205F}', '\u{3000}'] {
        assert!(white_space(c), "{:?}", c);
        assert!(c.is_whitespace());
    }
    for c in ['a', '0', '\u{08}', '\u{0E}', '\u{1F}', '\u{200B}', '\u{180E}', '\u{FEFF}', '\u{2060}', '_'] {
        assert!(!white_space(c), "{:?}", c);
        assert!(!c.is_whitespace());
    }
}

#[test]
fn white_space_agrees_with_std_on_every_character() {
    for n in 0..=0x10FFFFu32 {
        if let Some(c) = char::from_u32(n) {
            assert_eq!(white_space(c), c.is_whitespace(), "U+{:04X}", n);
        }
    }
}

#[test]
fn blank_text() {
    assert!(blank(""));
    assert!(blank("   "));
    assert!(blank(" \t\r\n\u{A0}\u{3000}"));
    assert!(!blank("a"));
    assert!(!blank("  a  "));
    assert!(!blank("\u{200B}"));
    for text in ["", " ", "x", " x", "\u{2003}", "\u{2003}\u{FEFF}"] {
        assert_eq!(blank(text), text.trim().is_empty());
    }
}

#[test]
fn credentials_are_accepted_when_both_are_given() {
    let credentials = Credentials::check(some("id"), some(" secret ")).unwrap();
    assert_eq!(credentials.client_id, "id");
    assert_eq!(credentials.client_secret, " secret ");
}

#[test]
fn credentials_are_refused_when_one_is_missing_or_blank() {
    assert_eq!(Credentials::check(None, some("s")).unwrap_err(), AuthError::MissingClientId);
    assert_eq!(Credentials::check(some(""), some("s")).unwrap_err(), AuthError::MissingClientId);
    assert_eq!(Credentials::check(some(" \t"), some("s")).unwrap_err(), AuthError::MissingClientId);
    assert_eq!(Credentials::check(some("i"), None).unwrap_err(), AuthError::MissingClientSecret);
    assert_eq!(Credentials::check(some("i"), some("\n")).unwrap_err(), AuthError::MissingClientSecret);
    assert_eq!(Credentials::check(None, None).unwrap_err(), AuthError::MissingClientId);
}

#[test]
fn credentials_unset_is_fatal_and_nothing_is_fetched() {
    let (mut refresh, action) =
        RefreshLoop::start(None, None, SelectorConfig::default(), RateLimiter::default());
    assert!(matches!(action, RefreshAction::Fatal { error: AuthError::MissingClientId }));
    assert_eq!(refresh.phase(), Phase::Halted);
    assert!(refresh.credentials().is_none());
    assert!(matches!(refresh.on_selection(Ok(batch(25)), NOW), RefreshAction::Ignored));
    assert!(matches!(refresh.on_wake(NOW), RefreshAction::Ignored));
    assert!(matches!(refresh.on_token(Ok(token(NOW + 60)), NOW), RefreshAction::Ignored));
    assert!(matches!(refresh.on_completion(NOW), RefreshAction::Ignored));
    assert!(matches!(refresh.next(NOW), RefreshAction::Ignored));
    assert_eq!(refresh.phase(), Phase::Halted);
    assert_eq!(refresh.in_flight(), 0);
    assert!(refresh.token(NOW).is_none());
}

#[test]
fn blank_secret_is_fatal() {
    let (refresh, action) =
        RefreshLoop::start(some("id"), some("  "), SelectorConfig::default(), RateLimiter::default());
    assert!(matches!(action, RefreshAction::Fatal { error: AuthError::MissingClientSecret }));
    assert_eq!(refresh.phase(), Phase::Halted);
}

#[test]
fn loop_begins_with_a_selection() {
    let refresh = started();
    assert_eq!(refresh.phase(), Phase::Selecting);
    assert_eq!(refresh.credentials().unwrap().client_id, "id");
    assert_eq!(refresh.credentials().unwrap().client_secret, "secret");
}

#[test]
fn failed_selection_is_tried_again_after_a_short_wait() {
    let mut refresh = started();
    match refresh.on_selection(Err(SelectionError::StoreUnreachable), NOW) {
        RefreshAction::Sleep { secs } => assert_eq!(secs, SELECTION_RETRY_SECS),
        other => panic!("expected a sleep, got {:?}", other),
    }
    assert_eq!(refresh.phase(), Phase::RetryingSelection);
    assert!(matches!(refresh.on_wake(NOW + 1), RefreshAction::Select { limit: 30 }));
    assert_eq!(refresh.phase(), Phase::Selecting);
}

#[test]
fn small_batch_is_followed_by_a_pause() {
    let mut refresh = started();
    match refresh.on_selection(Ok(batch(19)), NOW) {
        RefreshAction::Sleep { secs } => {
            assert_eq!(secs, 60);
            assert_eq!(secs, PAUSE_SECS);
        }
        other => panic!("expected a sleep, got {:?}", other),
    }
    assert_eq!(refresh.phase(), Phase::Pausing);
    assert!(matches!(refresh.on_wake(NOW + 60), RefreshAction::Exchange));
    assert_eq!(refresh.phase(), Phase::Authorizing);
}

#[test]
fn plentiful_batch_is_fetched_without_a_pause() {
    let mut refresh = started();
    assert!(matches!(refresh.on_selection(Ok(batch(20)), NOW), RefreshAction::Exchange));
    assert_eq!(refresh.phase(), Phase::Authorizing);
}

#[test]
fn failed_exchange_is_tried_again_every_ten_seconds() {
    let mut refresh = started();
    refresh.on_selection(Ok(batch(20)), NOW);
    for round in 0..5 {
        match refresh.on_token(Err(AuthError::Rejected), NOW + round * 10) {
            RefreshAction::Sleep { secs } => {
                assert_eq!(secs, 10);
                assert_eq!(secs, TOKEN_RETRY_SECS);
            }
            other => panic!("expected a sleep, got {:?}", other),
        }
        assert_eq!(refresh.phase(), Phase::RetryingToken);
        assert_eq!(refresh.in_flight(), 0);
        assert!(matches!(refresh.on_wake(NOW + round * 10 + 10), RefreshAction::Exchange));
    }
    assert_eq!(key_of(refresh.on_token(Ok(token(NOW + 3_600)), NOW + 50)), "e19");
}

#[test]
fn expired_token_from_the_provider_is_tried_again() {
    let mut refresh = started();
    refresh.on_selection(Ok(batch(20)), NOW);
    assert!(matches!(refresh.on_token(Ok(token(NOW)), NOW), RefreshAction::Sleep { secs: 10 }));
    assert!(refresh.token(NOW).is_none());
}

#[test]
fn batch_is_fetched_three_at_a_time_and_then_the_next_is_selected() {
    let mut refresh = started();
    assert_eq!(NUMBER_OF_CONCURRENT_SCRAPES, 3);
    refresh.on_selection(Ok(batch(20)), NOW);
    let mut order = vec![key_of(refresh.on_token(Ok(token(NOW + 3_600)), NOW))];
    assert_eq!(refresh.token(NOW).unwrap(), "SECRET-REDACTED");
    order.push(key_of(refresh.next(NOW)));
    order.push(key_of(refresh.next(NOW)));
    assert!(matches!(refresh.next(NOW), RefreshAction::Await));
    assert_eq!(refresh.in_flight(), 3);
    for _ in 0..17 {
        order.push(key_of(refresh.on_completion(NOW)));
        assert_eq!(refresh.in_flight(), 3);
        assert!(matches!(refresh.next(NOW), RefreshAction::Await));
    }
    assert!(matches!(refresh.on_completion(NOW), RefreshAction::Await));
    assert!(matches!(refresh.on_completion(NOW), RefreshAction::Await));
    assert_eq!(refresh.in_flight(), 1);
    assert!(matches!(refresh.on_completion(NOW), RefreshAction::Select { limit: 30 }));
    assert_eq!(refresh.phase(), Phase::Selecting);
    assert_eq!(refresh.in_flight(), 0);
    let expected: Vec<String> = (0..20).rev().map(|i| format!("e{}", i)).collect();
    assert_eq!(order, expected);
}

#[test]
fn valid_token_is_used_again_in_the_next_cycle() {
    let mut refresh = started();
    refresh.on_selection(Ok(batch(20)), NOW);
    refresh.on_token(Ok(token(NOW + 3_600)), NOW);
    for _ in 0..19 {
        refresh.on_completion(NOW);
    }
    assert!(matches!(refresh.on_completion(NOW), RefreshAction::Select { .. }));
    assert_eq!(key_of(refresh.on_selection(Ok(batch(25)), NOW + 100)), "e24");
    assert_eq!(refresh.phase(), Phase::Fetching);
}

#[test]
fn expired_token_is_exchanged_before_the_next_batch() {
    let mut refresh = started();
    refresh.on_selection(Ok(batch(20)), NOW);
    refresh.on_token(Ok(token(NOW + 50)), NOW);
    for _ in 0..20 {
        refresh.on_completion(NOW);
    }
    assert!(matches!(refresh.on_selection(Ok(batch(25)), NOW + 50), RefreshAction::Exchange));
}

#[test]
fn no_fetch_starts_once_the_token_has_run_out() {
    let mut refresh = started();
    refresh.on_selection(Ok(batch(20)), NOW);
    assert_eq!(key_of(refresh.on_token(Ok(token(NOW + 50)), NOW)), "e19");
    assert_eq!(key_of(refresh.next(NOW + 49)), "e18");
    assert!(refresh.token(NOW + 49).is_some());
    assert!(matches!(refresh.next(NOW + 50), RefreshAction::Await));
    assert!(refresh.token(NOW + 50).is_none());
    assert_eq!(refresh.in_flight(), 2);
    assert!(matches!(refresh.on_completion(NOW + 60), RefreshAction::Await));
    assert_eq!(refresh.phase(), Phase::Fetching);
    assert!(matches!(refresh.on_completion(NOW + 60), RefreshAction::Exchange));
    assert_eq!(refresh.phase(), Phase::Authorizing);
    assert_eq!(refresh.in_flight(), 0);
    assert!(matches!(refresh.on_token(Err(AuthError::Rejected), NOW + 61), RefreshAction::Sleep { secs: 10 }));
    assert!(matches!(refresh.on_wake(NOW + 71), RefreshAction::Exchange));
    assert_eq!(key_of(refresh.on_token(Ok(token(NOW + 4_000)), NOW + 72)), "e17");
    assert_eq!(key_of(refresh.next(NOW + 72)), "e16");
    assert_eq!(key_of(refresh.next(NOW + 72)), "e15");
    assert!(matches!(refresh.next(NOW + 72), RefreshAction::Await));
}

#[test]
fn empty_batch_pauses_and_then_selects_again() {
    let mut refresh = started();
    assert!(matches!(refresh.on_selection(Ok(batch(0)), NOW), RefreshAction::Sleep { secs: 60 }));
    assert!(matches!(refresh.on_wake(NOW + 60), RefreshAction::Exchange));
    assert!(matches!(refresh.on_token(Ok(token(NOW + 3_600)), NOW + 60), RefreshAction::Select { limit: 30 }));
    assert_eq!(refresh.phase(), Phase::Selecting);
}

#[test]
fn reports_out_of_turn_are_ignored() {
    let mut refresh = started();
    assert!(matches!(refresh.on_wake(NOW), RefreshAction::Ignored));
    assert!(matches!(refresh.on_token(Ok(token(NOW + 10)), NOW), RefreshAction::Ignored));
    assert!(matches!(refresh.on_completion(NOW), RefreshAction::Ignored));
    assert!(matches!(refresh.next(NOW), RefreshAction::Ignored));
    assert_eq!(refresh.phase(), Phase::Selecting);
    assert!(refresh.token(NOW).is_none());
    refresh.on_selection(Ok(batch(20)), NOW);
    assert!(matches!(refresh.on_selection(Ok(batch(20)), NOW), RefreshAction::Ignored));
    refresh.on_token(Ok(token(NOW + 10)), NOW);
    refresh.on_completion(NOW);
    assert!(matches!(refresh.on_token(Ok(token(NOW + 10)), NOW), RefreshAction::Ignored));
}

#[test]
fn token_manager_holds_a_token_while_it_is_valid() {
    let mut tokens = TokenManager::new();
    assert_eq!(tokens.ensure_valid(NOW), Err(AuthError::Expired));
    assert!(tokens.value(NOW).is_none());
    assert_eq!(tokens.install(Ok(token(NOW + 100)), NOW), Ok(()));
    assert_eq!(tokens.ensure_valid(NOW), Ok(()));
    assert_eq!(tokens.ensure_valid(NOW + 99), Ok(()));
    assert_eq!(tokens.ensure_valid(NOW + 100), Err(AuthError::Expired));
    assert_eq!(tokens.value(NOW + 99).unwrap(), "SECRET-REDACTED");
    assert!(tokens.value(NOW + 100).is_none());
}

#[test]
fn token_manager_keeps_its_token_when_the_exchange_fails() {
    let mut tokens = TokenManager::new();
    tokens.install(Ok(token(NOW + 100)), NOW).unwrap();
    assert_eq!(tokens.install(Err(AuthError::Rejected), NOW + 10), Err(AuthError::Rejected));
    assert_eq!(tokens.ensure_valid(NOW + 10), Ok(()));
    assert_eq!(tokens.install(Ok(token(NOW + 5)), NOW + 10), Err(AuthError::Expired));
    assert_eq!(tokens.ensure_valid(NOW + 10), Ok(()));
    assert_eq!(tokens.ensure_valid(NOW + 100), Err(AuthError::Expired));
    let newer = AuthToken { value: "newer".to_string(), expires_at: NOW + 500 };
    assert_eq!(tokens.install(Ok(newer), NOW + 10), Ok(()));
    assert_eq!(tokens.value(NOW + 400).unwrap(), "newer");
}

#[test]
fn only_a_missing_configuration_is_fatal() {
    assert!(AuthError::MissingClientId.is_fatal());
    assert!(AuthError::MissingClientSecret.is_fatal());
    assert!(!AuthError::Rejected.is_fatal());
    assert!(!AuthError::Expired.is_fatal());
    assert_eq!(TOKEN_RETRY_SECS, 10);
}
