use songbattle::kick::ProviderEvent;
use songbattle::sim::SimChatProvider;
use songbattle::snapshot::ConnectionState;

#[test]
fn emits_connected_then_n_messages() {
    let events = SimChatProvider { count: 4 }.events();
    let mut msgs = 0;
    let mut connected = false;
    for ev in events {
        match ev {
            ProviderEvent::Connection(ConnectionState::Connected) => connected = true,
            ProviderEvent::Message(_) => msgs += 1,
            _ => {}
        }
    }
    assert!(connected);
    assert_eq!(msgs, 4);
}

// ── further cases ──────────────────────────────────────────────────────────
#[test]
fn synthetic_messages_alternate_votes() {
    let events = SimChatProvider { count: 3 }.events();
    let texts: Vec<String> = events
        .iter()
        .filter_map(|e| match e {
            ProviderEvent::Message(m) => Some(format!("{}:{}:{}", m.id, m.user.user_id, m.text)),
            _ => None,
        })
        .collect();
    assert_eq!(texts, vec!["0:u0:1", "1:u1:2", "2:u2:1"]);
    match &events[3] {
        ProviderEvent::Message(m) => assert_eq!(m.user.username, "user2"),
        _ => panic!("expected a message"),
    }
}
