use songbattle::error::AppError;
use songbattle::kick::{
    chatroom_id_in, classify_chat, event_name, frame_event, next_backoff, parse_frame,
    parse_frame_at, subscribe_frame, validate_channel, ChatAction, KickProvider, ProviderEvent,
    CHAT_EVENT, INITIAL_BACKOFF_SECS, MAX_BACKOFF_SECS, SUBSCRIBE_ACK,
};
use songbattle::snapshot::ConnectionState;
use songbattle::vote::VoteChoice;

// A recorded ChatMessageSentEvent frame: note `data` is an escaped JSON string.
const FRAME: &str = r#"{"event":"App\\Events\\ChatMessageSentEvent","data":"{\"id\":\"abc-123\",\"chatroom_id\":456,\"content\":\"!vote 1\",\"sender\":{\"id\":789,\"username\":\"voter_bob\",\"identity\":{\"badges\":[{\"type\":\"moderator\",\"text\":\"Mod\"},{\"type\":\"subscriber\",\"text\":\"Sub\"}]}}}","channel":"chatroom.456"}"#;

#[test]
fn parses_golden_frame() {
    let m = parse_frame(FRAME).expect("should parse");
    assert_eq!(m.id, "abc-123");
    assert_eq!(m.text, "!vote 1");
    assert_eq!(m.user.user_id, "789");
    assert_eq!(m.user.username, "voter_bob");
    assert_eq!(m.user.display_name, "voter_bob");
    assert!(m.user.is_mod);
    assert!(m.user.is_sub);
    assert!(!m.user.is_vip);
}

#[test]
fn ignores_non_chat_and_malformed() {
    assert!(parse_frame(r#"{"event":"pusher:pong","data":"{}"}"#).is_none());
    assert!(parse_frame("not json").is_none());
    assert!(parse_frame(r#"{"event":"App\\Events\\ChatMessageSentEvent"}"#).is_none());
}

#[test]
fn event_name_extracted() {
    assert_eq!(event_name(FRAME).as_deref(), Some(CHAT_EVENT));
    assert_eq!(
        event_name(r#"{"event":"pusher_internal:subscription_succeeded","data":"{}"}"#)
            .as_deref(),
        Some(SUBSCRIBE_ACK)
    );
    assert_eq!(event_name("garbage"), None);
}

#[test]
fn backoff_grows_on_error_and_is_bounded() {
    // exponential on errors, never below initial, capped at MAX
    let mut b = INITIAL_BACKOFF_SECS;
    let mut seen = vec![b];
    for _ in 0..10 {
        b = next_backoff(b, false);
        seen.push(b);
    }
    assert!(seen.windows(2).all(|w| w[1] >= w[0]), "monotonic: {seen:?}");
    assert!(seen.windows(2).take(4).all(|w| w[1] > w[0]), "grows early");
    assert_eq!(*seen.last().unwrap(), MAX_BACKOFF_SECS);
    assert!(seen.iter().all(|&x| x <= MAX_BACKOFF_SECS));
}

#[test]
fn backoff_still_grows_on_clean_close() {
    // a clean close must NOT reset to ~1s (anti-bot disconnect loop)
    assert!(next_backoff(1, true) > 1);
    assert!(next_backoff(5, true) > 5);
    assert_eq!(next_backoff(MAX_BACKOFF_SECS, true), MAX_BACKOFF_SECS);
}

#[test]
fn channel_slug_validation() {
    for ok in ["xqc", "Train_wreckstv", "some-channel-9"] {
        assert!(validate_channel(ok).is_ok(), "{ok}");
    }
    for bad in ["", "has space", "drop;table", "a/b", "../x", "name?x=1"] {
        assert!(validate_channel(bad).is_err(), "{bad}");
    }
}

// ── further cases ──────────────────────────────────────────────────────────
#[test]
fn parse_frame_at_stamps_the_given_time() {
    let m = parse_frame_at(FRAME, 42).unwrap();
    assert_eq!(m.ts, 42);
    assert_eq!(m.id, "abc-123");
}

#[test]
fn string_ids_and_vip_and_broadcaster_badges() {
    let frame = r#"{"event":"App\\Events\\ChatMessageSentEvent","data":"{\"id\":7,\"content\":\"hi\",\"sender\":{\"id\":\"u-1\",\"username\":\"amy\",\"identity\":{\"badges\":[{\"type\":\"broadcaster\"},{\"type\":\"vip\"},{\"type\":\"founder\"}]}}}"}"#;
    let m = parse_frame_at(frame, 0).unwrap();
    assert_eq!(m.id, "7");
    assert_eq!(m.user.user_id, "u-1");
    assert!(m.user.is_mod && m.user.is_sub && m.user.is_vip);
}

#[test]
fn missing_fields_are_empty_not_fatal() {
    let frame = r#"{"event":"App\\Events\\ChatMessageSentEvent","data":"{\"sender\":{}}"}"#;
    let m = parse_frame_at(frame, 0).unwrap();
    assert_eq!(m.id, "");
    assert_eq!(m.text, "");
    assert_eq!(m.user.user_id, "");
    assert_eq!(m.user.username, "");
    assert!(!m.user.is_mod && !m.user.is_sub && !m.user.is_vip);
}

#[test]
fn frame_event_dispatch() {
    match frame_event(r#"{"event":"pusher_internal:subscription_succeeded","data":"{}"}"#) {
        Some(ProviderEvent::Connection(s)) => assert_eq!(s, ConnectionState::Connected),
        other => panic!("unexpected {other:?}"),
    }
    match frame_event(FRAME) {
        Some(ProviderEvent::Message(m)) => assert_eq!(m.text, "!vote 1"),
        other => panic!("unexpected {other:?}"),
    }
    assert!(frame_event(r#"{"event":"pusher:connection_established"}"#).is_none());
    assert!(frame_event("][").is_none());
}

#[test]
fn invalid_channel_error_names_the_channel() {
    match validate_channel("a b") {
        Err(AppError::Invalid(m)) => assert_eq!(m, "invalid kick channel: a b"),
        other => panic!("unexpected {other:?}"),
    }
}

#[test]
fn provider_trims_the_channel_and_builds_the_api_url() {
    let p = KickProvider::new("  xqc \n".into());
    assert_eq!(p.channel_slug(), "xqc");
    assert_eq!(p.chatroom(), None);
    assert_eq!(p.channel_api_url().unwrap(), "https://kick.com/api/v2/channels/xqc");
    let p = KickProvider::new("xqc".into()).with_chatroom(Some(12));
    assert_eq!(p.chatroom(), Some(12));
    assert!(KickProvider::new("bad slug".into()).channel_api_url().is_err());
}

#[test]
fn chatroom_id_is_read_from_the_channel_response() {
    assert_eq!(chatroom_id_in(r#"{"chatroom":{"id":456,"slug":"x"}}"#).unwrap(), 456);
    match chatroom_id_in(r#"{"chatroom":{"id":"456"}}"#) {
        Err(AppError::Other(m)) => assert_eq!(m, "kick: no chatroom id in channel response"),
        other => panic!("unexpected {other:?}"),
    }
    match chatroom_id_in("<html>challenge</html>") {
        Err(AppError::Other(m)) => assert_eq!(m, "kick: channel response is not JSON"),
        other => panic!("unexpected {other:?}"),
    }
    assert_eq!(chatroom_id_in(r#"{"chatroom":{"id":-9223372036854775808}}"#).unwrap(), i64::MIN);
    assert!(chatroom_id_in(r#"{"chatroom":{"id":18446744073709551615}}"#).is_err());
}

#[test]
fn subscribe_frame_names_the_chatroom() {
    assert_eq!(
        subscribe_frame(456),
        r#"{"event":"pusher:subscribe","data":{"channel":"chatroom.456"}}"#
    );
    assert_eq!(
        subscribe_frame(-3),
        r#"{"event":"pusher:subscribe","data":{"channel":"chatroom.-3"}}"#
    );
}

#[test]
fn classify_chat_commands() {
    assert!(matches!(classify_chat(false, " !VOTE 2 "), ChatAction::Vote(VoteChoice::B)));
    match classify_chat(false, "!submit  https://youtu.be/x ") {
        ChatAction::Submit(u) => assert_eq!(u, "https://youtu.be/x"),
        other => panic!("unexpected {other:?}"),
    }
    match classify_chat(false, "!ADD https://youtu.be/y") {
        ChatAction::Submit(u) => assert_eq!(u, "https://youtu.be/y"),
        other => panic!("unexpected {other:?}"),
    }
    assert!(matches!(classify_chat(false, "!submit "), ChatAction::Ignore));
    assert!(matches!(classify_chat(true, "!reset"), ChatAction::ResetVotes));
    assert!(matches!(classify_chat(false, "!reset"), ChatAction::Ignore));
    assert!(matches!(classify_chat(true, "!SKIP"), ChatAction::Skip));
    assert!(matches!(classify_chat(false, "!skip"), ChatAction::Ignore));
    assert!(matches!(classify_chat(true, "hello"), ChatAction::Ignore));
}

