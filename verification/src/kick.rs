//! Kick chat: channel-slug validation, the reconnect schedule, reading chat
//! frames, and classifying chat messages into actions.

use vstd::prelude::*;

use crate::error::{msg, AppError};
use crate::clock::now_ms;
use crate::json::{json_parsed, parse_json, spec_as_str, spec_get, Json, JsonValue};
use crate::song::opt_view;
use crate::snapshot::ConnectionState;
use crate::text::{
    ascii_lower, chars_eq, chars_of, chars_of_string, decimal_i64, lower_all, push_all, push_str,
    lead_ws, lemma_trim_is_slice, signed_decimal, string_of, trim, trim_chars,
};
use crate::vote::{parse_vote, spec_parse_vote, VoteChoice};

verus! {

pub const INITIAL_BACKOFF_SECS: u64 = 1;

pub const MAX_BACKOFF_SECS: u64 = 30;

/// The Pusher event name of a chat message.
pub const CHAT_EVENT: &'static str = "App\\Events\\ChatMessageSentEvent";

/// The public channel API (the channel slug is appended).
pub const KICK_CHANNEL_API: &'static str = "https://kick.com/api/v2/channels";

/// The Pusher socket for Kick chat.
pub const PUSHER_URL: &'static str =
    "wss://ws-us2.pusher.com/app/32cbd69e4b950bf97679?protocol=7&client=js&version=8.4.0-rc2&flash=false";

/// The Pusher event name of a subscription acknowledgement.
pub const SUBSCRIBE_ACK: &'static str = "pusher_internal:subscription_succeeded";

#[derive(Debug, Clone)]
pub struct ChatUser {
    pub user_id: String,
    pub username: String,
    pub display_name: String,
    pub is_mod: bool,
    pub is_sub: bool,
    pub is_vip: bool,
}

#[derive(Debug, Clone)]
pub struct ChatMessage {
    pub id: String,
    pub user: ChatUser,
    pub text: String,
    pub ts: u64,
}

/// What a chat provider reports.
#[derive(Debug, Clone)]
pub enum ProviderEvent {
    Connection(ConnectionState),
    Message(ChatMessage),
}

pub open spec fn slug_char(c: char) -> bool {
    ('a' <= c && c <= 'z') || ('A' <= c && c <= 'Z') || ('0' <= c && c <= '9') || c == '_' || c
        == '-'
}

/// A Kick channel slug: non-empty, ASCII letters, digits, `_` and `-` only.
pub open spec fn valid_slug(s: Seq<char>) -> bool {
    s.len() > 0 && forall|i: int| 0 <= i < s.len() ==> slug_char(#[trigger] s[i])
}

/// Check a channel slug (`^[A-Za-z0-9_-]+$`) before it goes into a URL;
/// refused with `invalid kick channel: <channel>`.
pub fn validate_channel(channel: &str) -> (r: Result<(), AppError>)
    ensures
        r is Ok <==> valid_slug(channel@),
        r matches Err(e) ==> e matches AppError::Invalid(m) && m@ == "invalid kick channel: "@
            + channel@,
{
    let c = chars_of(channel);
    let mut ok = c.len() > 0;
    let n = c.len();
    for k in 0..n
        invariant
            n == c@.len(),
            c@ == channel@,
            ok == (n > 0 && forall|i: int| 0 <= i < k ==> slug_char(#[trigger] c@[i])),
    {
        let ch = c[k];
        let good = ('a' <= ch && ch <= 'z') || ('A' <= ch && ch <= 'Z') || ('0' <= ch && ch <= '9')
            || ch == '_' || ch == '-';
        ok = ok && good;
    }
    if ok {
        Ok(())
    } else {
        let mut m = chars_of("invalid kick channel: ");
        let ghost prefix = m@;
        for k in 0..n
            invariant
                n == c@.len(),
                c@ == channel@,
                m@ == prefix + c@.take(k as int),
        {
            m.push(c[k]);
            assert(prefix + c@.take(k + 1) =~= prefix + c@.take(k as int) + seq![c@[k as int]]);
        }
        assert(c@.take(n as int) =~= c@);
        Err(AppError::Invalid(string_of(m.as_slice())))
    }
}

/// The next reconnect delay: doubles after an error, grows by one second
/// even after a clean close, always within
/// `INITIAL_BACKOFF_SECS..=MAX_BACKOFF_SECS`.
pub open spec fn spec_next_backoff(prev: u64, clean_close: bool) -> u64 {
    let next = if clean_close {
        prev + 1
    } else {
        prev * 2
    };
    if next < INITIAL_BACKOFF_SECS {
        INITIAL_BACKOFF_SECS
    } else if next > MAX_BACKOFF_SECS {
        MAX_BACKOFF_SECS
    } else {
        next as u64
    }
}

/// Pure reconnect schedule (see `spec_next_backoff`).
pub fn next_backoff(prev: u64, clean_close: bool) -> (r: u64)
    requires
        clean_close ==> prev < u64::MAX,
        !clean_close ==> prev <= u64::MAX / 2,
    ensures
        r == spec_next_backoff(prev, clean_close),
{
    let next = if clean_close {
        prev + 1
    } else {
        prev * 2
    };
    if next < INITIAL_BACKOFF_SECS {
        INITIAL_BACKOFF_SECS
    } else if next > MAX_BACKOFF_SECS {
        MAX_BACKOFF_SECS
    } else {
        next
    }
}

/// The delay never leaves its bounds, never shrinks below the previous one
/// while that is in bounds, and strictly grows until it reaches the cap.
pub proof fn law_backoff_bounded(prev: u64, clean_close: bool)
    requires
        clean_close ==> prev < u64::MAX,
        !clean_close ==> prev <= u64::MAX / 2,
    ensures
        INITIAL_BACKOFF_SECS <= spec_next_backoff(prev, clean_close) <= MAX_BACKOFF_SECS,
        INITIAL_BACKOFF_SECS <= prev < MAX_BACKOFF_SECS ==> spec_next_backoff(prev, clean_close)
            > prev,
        prev == MAX_BACKOFF_SECS ==> spec_next_backoff(prev, clean_close) == MAX_BACKOFF_SECS,
{
}

/// A chat provider for one Kick channel.
pub struct KickProvider {
    channel: String,
    chatroom_id: Option<i64>,
}

impl KickProvider {
    /// A provider for `channel` (surrounding whitespace removed), looking its
    /// chatroom up by slug.
    pub fn new(channel: String) -> (p: Self)
        ensures
            p.channel()@ == trim(channel@),
            p.chatroom_id() is None,
    {
        let c = chars_of_string(&channel);
        let t = trim_chars(c.as_slice());
        Self { channel: string_of(t.as_slice()), chatroom_id: None }
    }

    /// Use this chatroom id instead of looking it up.
    pub fn with_chatroom(self, chatroom_id: Option<i64>) -> (p: Self)
        ensures
            p.channel() == self.channel(),
            p.chatroom_id() == chatroom_id,
    {
        Self { channel: self.channel, chatroom_id }
    }

    pub closed spec fn channel(&self) -> String {
        self.channel
    }

    pub closed spec fn chatroom_id(&self) -> Option<i64> {
        self.chatroom_id
    }

    /// The channel slug.
    pub fn channel_slug(&self) -> (r: &String)
        ensures
            *r == self.channel(),
    {
        &self.channel
    }

    /// The chatroom id override, if any.
    pub fn chatroom(&self) -> (r: Option<i64>)
        ensures
            r == self.chatroom_id(),
    {
        self.chatroom_id
    }

    /// The public channel API URL for this channel, after re-checking the
    /// slug (refused as `validate_channel` refuses it).
    pub fn channel_api_url(&self) -> (r: Result<String, AppError>)
        ensures
            r is Ok <==> valid_slug(self.channel()@),
            r matches Ok(u) ==> u@ == KICK_CHANNEL_API@ + seq!['/'] + self.channel()@,
            r matches Err(e) ==> e matches AppError::Invalid(m) && m@
                == "invalid kick channel: "@ + self.channel()@,
    {
        match validate_channel(self.channel.as_str()) {
            Ok(()) => {},
            Err(e) => return Err(e),
        }
        let mut v = chars_of(KICK_CHANNEL_API);
        v.push('/');
        let c = chars_of_string(&self.channel);
        push_all(&mut v, c.as_slice());
        Ok(string_of(v.as_slice()))
    }
}

/// The chatroom id in a channel API response: `chatroom.id` when it is an
/// integer that fits `i64`.
pub open spec fn spec_chatroom_id(v: Json) -> Option<i64> {
    match spec_get(v, "chatroom"@) {
        Some(c) => match spec_get(c, "id"@) {
            Some(i) => match i.value {
                JsonValue::Number(Some(n)) => Some(n),
                _ => None,
            },
            None => None,
        },
        None => None,
    }
}

/// Read the chatroom id out of a channel API response; refused with
/// `kick: no chatroom id in channel response` when it is missing.
pub fn chatroom_id_of(v: &Json) -> (r: Result<i64, AppError>)
    ensures
        r matches Ok(i) ==> spec_chatroom_id(*v) == Some(i),
        r is Err ==> spec_chatroom_id(*v) is None,
        r matches Err(e) ==> e matches AppError::Other(m) && m@
            == "kick: no chatroom id in channel response"@,
{
    let id = match v.get("chatroom") {
        Some(c) => match c.get("id") {
            Some(i) => match &i.value {
                JsonValue::Number(Some(n)) => Some(*n),
                _ => None,
            },
            None => None,
        },
        None => None,
    };
    match id {
        Some(n) => Ok(n),
        None => Err(AppError::Other(msg("kick: no chatroom id in channel response"))),
    }
}

/// Read the chatroom id out of a channel API response body: refused with
/// `kick: channel response is not JSON` when the body does not parse, else
/// as `chatroom_id_of` decides.
pub fn chatroom_id_in(body: &str) -> (r: Result<i64, AppError>)
    ensures
        match json_parsed(body@) {
            None => r matches Err(e) && e matches AppError::Other(m) && m@
                == "kick: channel response is not JSON"@,
            Some(v) => match spec_chatroom_id(v) {
                Some(i) => r matches Ok(j) && j == i,
                None => r matches Err(e) && e matches AppError::Other(m) && m@
                    == "kick: no chatroom id in channel response"@,
            },
        },
{
    match parse_json(body) {
        Some(v) => chatroom_id_of(&v),
        None => Err(AppError::Other(msg("kick: channel response is not JSON"))),
    }
}

/// The Pusher subscribe frame for a chatroom:
/// `{"event":"pusher:subscribe","data":{"channel":"chatroom.<id>"}}`.
pub open spec fn spec_subscribe_frame(chatroom_id: i64) -> Seq<char> {
    "{\"event\":\"pusher:subscribe\",\"data\":{\"channel\":\"chatroom."@ + signed_decimal(
        chatroom_id as int,
    ) + "\"}}"@
}

/// The frame that subscribes to a chatroom's messages.
pub fn subscribe_frame(chatroom_id: i64) -> (r: String)
    ensures
        r@ == spec_subscribe_frame(chatroom_id),
{
    let mut v = chars_of("{\"event\":\"pusher:subscribe\",\"data\":{\"channel\":\"chatroom.");
    let d = decimal_i64(chatroom_id);
    push_all(&mut v, d.as_slice());
    push_str(&mut v, "\"}}");
    string_of(v.as_slice())
}

// ── frames ──────────────────────────────────────────────────────────────────
/// The Pusher `event` field of a frame.
pub open spec fn spec_event_name(frame: Json) -> Option<Seq<char>> {
    match spec_get(frame, "event"@) {
        Some(e) => spec_as_str(e),
        None => None,
    }
}

/// The Pusher `event` field of a parsed frame, if it is a string.
pub fn frame_event_name(frame: &Json) -> (r: Option<String>)
    ensures
        match r {
            Some(s) => spec_event_name(*frame) == Some(s@),
            None => spec_event_name(*frame) is None,
        },
{
    match frame.get("event") {
        Some(e) => match e.as_str() {
            Some(s) => Some(s.clone()),
            None => None,
        },
        None => None,
    }
}

/// The chat payload of a frame: the `data` string of a chat-message event
/// (the payload is JSON text, parsed again by the caller).
pub open spec fn spec_chat_data(frame: Json) -> Option<Seq<char>> {
    if spec_event_name(frame) == Some(CHAT_EVENT@) {
        match spec_get(frame, "data"@) {
            Some(d) => spec_as_str(d),
            None => None,
        }
    } else {
        None
    }
}

/// The `data` text of a chat-message frame; `None` for any other frame.
pub fn chat_data(frame: &Json) -> (r: Option<String>)
    ensures
        match r {
            Some(s) => spec_chat_data(*frame) == Some(s@),
            None => spec_chat_data(*frame) is None,
        },
{
    let ev = match frame_event_name(frame) {
        Some(e) => e,
        None => return None,
    };
    let ec = chars_of_string(&ev);
    if !chars_eq(ec.as_slice(), CHAT_EVENT) {
        return None;
    }
    match frame.get("data") {
        Some(d) => match d.as_str() {
            Some(s) => Some(s.clone()),
            None => None,
        },
        None => None,
    }
}

/// An id that may be a JSON string or any other value (a number): the
/// string's text, else the value's JSON text.
pub open spec fn spec_id_str(j: Json) -> Seq<char> {
    match spec_as_str(j) {
        Some(s) => s,
        None => j.text@,
    }
}

fn id_str(j: &Json) -> (r: String)
    ensures
        r@ == spec_id_str(*j),
{
    match j.as_str() {
        Some(s) => s.clone(),
        None => j.text.clone(),
    }
}

/// The `id` (or any other) member as an id string, empty when absent.
pub open spec fn spec_id_of(j: Json, key: Seq<char>) -> Seq<char> {
    match spec_get(j, key) {
        Some(v) => spec_id_str(v),
        None => Seq::empty(),
    }
}

/// A string member, empty when absent or not a string.
pub open spec fn spec_str_of(j: Json, key: Seq<char>) -> Seq<char> {
    match spec_get(j, key) {
        Some(v) => match spec_as_str(v) {
            Some(s) => s,
            None => Seq::empty(),
        },
        None => Seq::empty(),
    }
}

/// The badges array of a sender (`identity.badges`), empty when absent.
pub open spec fn spec_badges(sender: Json) -> Seq<Json> {
    match spec_get(sender, "identity"@) {
        Some(i) => match spec_get(i, "badges"@) {
            Some(b) => match b.value {
                JsonValue::Array(v) => v@,
                _ => Seq::empty(),
            },
            None => Seq::empty(),
        },
        None => Seq::empty(),
    }
}

/// Some badge's `type` is one of `kinds`.
pub open spec fn has_badge(badges: Seq<Json>, k1: Seq<char>, k2: Seq<char>) -> bool {
    exists|i: int|
        0 <= i < badges.len() && (#[trigger] spec_get(badges[i], "type"@) matches Some(t) && (
        spec_as_str(t) == Some(k1) || spec_as_str(t) == Some(k2)))
}

/// The chat message a payload describes: `None` without a `sender`; the
/// ids normalized to strings; moderator for a `moderator` or `broadcaster`
/// badge, subscriber for `subscriber` or `founder`, VIP for `vip`; missing
/// text fields empty.
pub open spec fn spec_chat_message(data: Json, ts: u64) -> Option<
    (Seq<char>, Seq<char>, Seq<char>, bool, bool, bool, Seq<char>),
> {
    match spec_get(data, "sender"@) {
        None => None,
        Some(sender) => {
            let b = spec_badges(sender);
            Some(
                (
                    spec_id_of(data, "id"@),
                    spec_id_of(sender, "id"@),
                    spec_str_of(sender, "username"@),
                    has_badge(b, "moderator"@, "broadcaster"@),
                    has_badge(b, "subscriber"@, "founder"@),
                    has_badge(b, "vip"@, "vip"@),
                    spec_str_of(data, "content"@),
                ),
            )
        },
    }
}

/// The fields of a message, for comparison with `spec_chat_message`.
pub open spec fn message_fields(m: ChatMessage) -> (
    Seq<char>,
    Seq<char>,
    Seq<char>,
    bool,
    bool,
    bool,
    Seq<char>,
) {
    (m.id@, m.user.user_id@, m.user.username@, m.user.is_mod, m.user.is_sub, m.user.is_vip, m.text@)
}

fn id_of(j: &Json, key: &str) -> (r: String)
    ensures
        r@ == spec_id_of(*j, key@),
{
    match j.get(key) {
        Some(v) => id_str(v),
        None => String::new(),
    }
}

fn str_of(j: &Json, key: &str) -> (r: String)
    ensures
        r@ == spec_str_of(*j, key@),
{
    match j.get(key) {
        Some(v) => match v.as_str() {
            Some(s) => s.clone(),
            None => String::new(),
        },
        None => String::new(),
    }
}

fn badge_is(badge: &Json, k1: &str, k2: &str) -> (r: bool)
    ensures
        r == (spec_get(*badge, "type"@) matches Some(t) && (spec_as_str(t) == Some(k1@)
            || spec_as_str(t) == Some(k2@))),
{
    match badge.get("type") {
        Some(t) => match t.as_str() {
            Some(s) => {
                let c = chars_of_string(s);
                chars_eq(c.as_slice(), k1) || chars_eq(c.as_slice(), k2)
            },
            None => false,
        },
        None => false,
    }
}

fn scan_badges(badges: &Vec<Json>, k1: &str, k2: &str) -> (r: bool)
    ensures
        r == has_badge(badges@, k1@, k2@),
{
    let n = badges.len();
    for k in 0..n
        invariant
            n == badges@.len(),
            forall|i: int|
                0 <= i < k ==> !(#[trigger] spec_get(badges@[i], "type"@) matches Some(t) && (
                spec_as_str(t) == Some(k1@) || spec_as_str(t) == Some(k2@))),
    {
        if badge_is(&badges[k], k1, k2) {
            return true;
        }
    }
    false
}

/// Read one chat payload into a `ChatMessage` stamped `ts` (see
/// `spec_chat_message`); untrusting: nothing is unwrapped.
pub fn chat_message_from(data: &Json, ts: u64) -> (r: Option<ChatMessage>)
    ensures
        match r {
            Some(m) => spec_chat_message(*data, ts) == Some(message_fields(m)) && m.ts == ts
                && m.user.display_name == m.user.username,
            None => spec_chat_message(*data, ts) is None,
        },
{
    let sender = match data.get("sender") {
        Some(s) => s,
        None => return None,
    };
    let user_id = id_of(sender, "id");
    let username = str_of(sender, "username");
    let empty: Vec<Json> = Vec::new();
    let badges: &Vec<Json> = match sender.get("identity") {
        Some(i) => match i.get("badges") {
            Some(b) => match &b.value {
                JsonValue::Array(v) => v,
                _ => &empty,
            },
            None => &empty,
        },
        None => &empty,
    };
    assert(badges@ == crate::kick::spec_badges(*sender));
    let is_mod = scan_badges(badges, "moderator", "broadcaster");
    let is_sub = scan_badges(badges, "subscriber", "founder");
    let is_vip = scan_badges(badges, "vip", "vip");
    let id = id_of(data, "id");
    let text = str_of(data, "content");
    let display_name = username.clone();
    Some(
        ChatMessage {
            id,
            user: ChatUser { user_id, username, display_name, is_mod, is_sub, is_vip },
            text,
            ts,
        },
    )
}

// ── raw frames ──────────────────────────────────────────────────────────────
/// The `event` of a raw frame: `None` unless it is JSON with a string
/// `event` member.
pub open spec fn spec_raw_event(raw: Seq<char>) -> Option<Seq<char>> {
    match json_parsed(raw) {
        Some(f) => spec_event_name(f),
        None => None,
    }
}

/// The chat message a raw frame carries (stamped `ts`): the frame must be
/// JSON, a chat-message event, and its `data` string JSON again.
pub open spec fn spec_frame_message(raw: Seq<char>, ts: u64) -> Option<
    (Seq<char>, Seq<char>, Seq<char>, bool, bool, bool, Seq<char>),
> {
    match json_parsed(raw) {
        Some(f) => match spec_chat_data(f) {
            Some(d) => match json_parsed(d) {
                Some(dj) => spec_chat_message(dj, ts),
                None => None,
            },
            None => None,
        },
        None => None,
    }
}

/// The Pusher `event` field of a raw frame, if any.
pub fn event_name(frame: &str) -> (r: Option<String>)
    ensures
        opt_view(r) == spec_raw_event(frame@),
{
    match parse_json(frame) {
        Some(f) => frame_event_name(&f),
        None => None,
    }
}

/// Parse one Pusher frame into a `ChatMessage` stamped `ts` (see
/// `spec_frame_message`). The chat payload is a JSON string inside the
/// frame, so it is parsed twice; anything else gives `None`.
pub fn parse_frame_at(frame: &str, ts: u64) -> (r: Option<ChatMessage>)
    ensures
        match r {
            Some(m) => spec_frame_message(frame@, ts) == Some(message_fields(m)) && m.ts == ts
                && m.user.display_name == m.user.username,
            None => spec_frame_message(frame@, ts) is None,
        },
{
    let f = match parse_json(frame) {
        Some(f) => f,
        None => return None,
    };
    let d = match chat_data(&f) {
        Some(d) => d,
        None => return None,
    };
    let dj = match parse_json(d.as_str()) {
        Some(dj) => dj,
        None => return None,
    };
    chat_message_from(&dj, ts)
}

/// Parse one Pusher frame into a `ChatMessage` stamped with the current time
/// (see `parse_frame_at`).
pub fn parse_frame(frame: &str) -> (r: Option<ChatMessage>)
    ensures
        r is Some <==> spec_frame_message(frame@, 0) is Some,
        r matches Some(m) ==> spec_frame_message(frame@, m.ts) == Some(message_fields(m))
            && m.user.display_name == m.user.username,
{
    parse_frame_at(frame, now_ms())
}

/// What a received frame means for the provider: the subscription ack is
/// `Connected`, a chat frame that parses is a `Message`, anything else is
/// ignored (`None`).
pub fn frame_event(frame: &str) -> (r: Option<ProviderEvent>)
    ensures
        match r {
            Some(ProviderEvent::Connection(s)) => spec_raw_event(frame@) == Some(SUBSCRIBE_ACK@)
                && s == ConnectionState::Connected,
            Some(ProviderEvent::Message(m)) => spec_raw_event(frame@) == Some(CHAT_EVENT@)
                && spec_frame_message(frame@, m.ts) == Some(message_fields(m)),
            None => spec_raw_event(frame@) != Some(SUBSCRIBE_ACK@) && (spec_raw_event(frame@)
                == Some(CHAT_EVENT@) ==> spec_frame_message(frame@, 0) is None),
        },
{
    let ev = match event_name(frame) {
        Some(e) => e,
        None => return None,
    };
    let ec = chars_of_string(&ev);
    if chars_eq(ec.as_slice(), SUBSCRIBE_ACK) {
        return Some(ProviderEvent::Connection(ConnectionState::Connected));
    }
    if chars_eq(ec.as_slice(), CHAT_EVENT) {
        return match parse_frame(frame) {
            Some(m) => Some(ProviderEvent::Message(m)),
            None => None,
        };
    }
    None
}

// ── chat commands ───────────────────────────────────────────────────────────
/// What a chat message asks for.
#[derive(Debug, Clone)]
pub enum ChatAction {
    Vote(VoteChoice),
    /// `!submit <url>` / `!add <url>`, with the URL.
    Submit(String),
    /// Moderator `!reset`.
    ResetVotes,
    /// Moderator `!skip`.
    Skip,
    Ignore,
}

/// `s` starts with `p`.
pub open spec fn starts_with(s: Seq<char>, p: Seq<char>) -> bool {
    p.len() <= s.len() && s.subrange(0, p.len() as int) == p
}

/// The action of a chat message: one of the six vote forms; else a
/// `!submit ` / `!add ` command (case-insensitive) followed by a non-empty
/// URL; else, for moderators only, `!reset` or `!skip`; else nothing.
pub open spec fn spec_classify(is_mod: bool, text: Seq<char>) -> ChatActionModel {
    let t = trim(text);
    let l = ascii_lower(t);
    match spec_parse_vote(text) {
        Some(c) => ChatActionModel::Vote(c),
        None => if starts_with(l, "!submit "@) && trim(t.subrange(8, t.len() as int)).len() > 0 {
            ChatActionModel::Submit(trim(t.subrange(8, t.len() as int)))
        } else if starts_with(l, "!add "@) && trim(t.subrange(5, t.len() as int)).len() > 0 {
            ChatActionModel::Submit(trim(t.subrange(5, t.len() as int)))
        } else if is_mod && l == "!reset"@ {
            ChatActionModel::ResetVotes
        } else if is_mod && l == "!skip"@ {
            ChatActionModel::Skip
        } else {
            ChatActionModel::Ignore
        },
    }
}

/// A submission carries the URL as the viewer typed it: the command word
/// is matched without regard to case, but the URL is a non-empty piece of
/// the message itself, case kept: the text after `!submit ` (or `!add `),
/// trimmed.
pub proof fn law_submit_keeps_the_url(is_mod: bool, text: Seq<char>)
    ensures
        spec_classify(is_mod, text) matches ChatActionModel::Submit(u) ==> u.len() > 0 && exists|
            k: int,
        |
            0 <= k && k + u.len() <= text.len() && #[trigger] text.subrange(k, k + u.len()) == u,
        ({
            let t = trim(text);
            spec_parse_vote(text) is None && starts_with(ascii_lower(t), "!submit "@) && trim(
                t.subrange(8, t.len() as int),
            ).len() > 0 ==> spec_classify(is_mod, text) == ChatActionModel::Submit(
                trim(t.subrange(8, t.len() as int)),
            )
        }),
        ({
            let t = trim(text);
            spec_parse_vote(text) is None && starts_with(ascii_lower(t), "!add "@) && trim(
                t.subrange(5, t.len() as int),
            ).len() > 0 ==> spec_classify(is_mod, text) == ChatActionModel::Submit(
                trim(t.subrange(5, t.len() as int)),
            )
        }),
{
    reveal_strlit("!submit ");
    reveal_strlit("!add ");
    let t = trim(text);
    lemma_trim_is_slice(text);
    let a = lead_ws(text) as int;
    let l = ascii_lower(t);
    if starts_with(l, "!add "@) {
        assert(l.subrange(0, 5)[1] == 'a');
        assert(l[1] == 'a');
        if l.len() >= 8 {
            assert(l.subrange(0, 8)[1] == l[1]);
            assert("!submit "@[1] == 's');
        }
        assert(!starts_with(l, "!submit "@));
    }
    if let ChatActionModel::Submit(u) = spec_classify(is_mod, text) {
        let skip: int = if starts_with(ascii_lower(t), "!submit "@) && trim(
            t.subrange(8, t.len() as int),
        ).len() > 0 {
            8
        } else {
            5
        };
        assert(ascii_lower(t).len() == t.len());
        assert(skip <= t.len());
        let rest = t.subrange(skip, t.len() as int);
        assert(u == trim(rest));
        lemma_trim_is_slice(rest);
        let c = lead_ws(rest) as int;
        let k = a + skip + c;
        assert(u.len() > 0);
        assert(c + u.len() <= rest.len());
        assert forall|x: int| 0 <= x < u.len() implies text.subrange(k, k + u.len())[x] == u[x] by {
            assert(u[x] == rest[c + x]);
            assert(rest[c + x] == t[skip + c + x]);
            assert(t[skip + c + x] == text[a + skip + c + x]);
        }
        assert(text.subrange(k, k + u.len()) =~= u);
    }
}

/// `ChatAction` with the URL as its chars.
pub enum ChatActionModel {
    Vote(VoteChoice),
    Submit(Seq<char>),
    ResetVotes,
    Skip,
    Ignore,
}

pub open spec fn action_model(a: ChatAction) -> ChatActionModel {
    match a {
        ChatAction::Vote(c) => ChatActionModel::Vote(c),
        ChatAction::Submit(u) => ChatActionModel::Submit(u@),
        ChatAction::ResetVotes => ChatActionModel::ResetVotes,
        ChatAction::Skip => ChatActionModel::Skip,
        ChatAction::Ignore => ChatActionModel::Ignore,
    }
}

fn prefixed(l: &[char], p: &str) -> (r: bool)
    ensures
        r == starts_with(l@, p@),
{
    let pc = chars_of(p);
    if pc.len() > l.len() {
        return false;
    }
    let n = pc.len();
    for k in 0..n
        invariant
            n == pc@.len(),
            n <= l@.len(),
            pc@ == p@,
            forall|i: int| 0 <= i < k ==> l@[i] == pc@[i],
    {
        if l[k] != pc[k] {
            return false;
        }
    }
    assert(l@.subrange(0, n as int) =~= pc@);
    true
}

fn tail_trimmed(t: &[char], from: usize) -> (r: Vec<char>)
    requires
        from <= t@.len(),
    ensures
        r@ == trim(t@.subrange(from as int, t@.len() as int)),
{
    let mut rest: Vec<char> = Vec::new();
    let n = t.len();
    for k in from..n
        invariant
            from <= n,
            n == t@.len(),
            rest@ =~= t@.subrange(from as int, k as int),
    {
        rest.push(t[k]);
    }
    trim_chars(rest.as_slice())
}

/// Classify a chat message (see `spec_classify`).
pub fn classify_chat(is_mod: bool, text: &str) -> (r: ChatAction)
    ensures
        action_model(r) == spec_classify(is_mod, text@),
{
    if let Some(c) = parse_vote(text) {
        return ChatAction::Vote(c);
    }
    let raw = chars_of(text);
    let t = trim_chars(raw.as_slice());
    let l = lower_all(t.as_slice());
    proof {
        reveal_strlit("!submit ");
        reveal_strlit("!add ");
    }
    if prefixed(l.as_slice(), "!submit ") {
        let u = tail_trimmed(t.as_slice(), 8);
        if u.len() > 0 {
            return ChatAction::Submit(string_of(u.as_slice()));
        }
    }
    if prefixed(l.as_slice(), "!add ") {
        let u = tail_trimmed(t.as_slice(), 5);
        if u.len() > 0 {
            return ChatAction::Submit(string_of(u.as_slice()));
        }
    }
    if is_mod && chars_eq(l.as_slice(), "!reset") {
        return ChatAction::ResetVotes;
    }
    if is_mod && chars_eq(l.as_slice(), "!skip") {
        return ChatAction::Skip;
    }
    ChatAction::Ignore
}

} // verus!
