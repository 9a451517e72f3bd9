//! The text forms of the library's enums as stored in the database. Unknown
//! text decodes to the first variant, so a damaged row still loads.

use vstd::prelude::*;

use crate::battle::{BattleMode, BattleStatus};
use crate::bracket::{MatchGroup, MatchState};
use crate::song::Source;
use crate::text::{chars_eq, chars_of};
use crate::vote::VoteChoice;

verus! {

pub open spec fn spec_source_str(s: Source) -> Seq<char> {
    match s {
        Source::Youtube => "youtube"@,
        Source::Spotify => "spotify"@,
        Source::Soundcloud => "soundcloud"@,
    }
}

pub fn source_str(s: Source) -> (r: &'static str)
    ensures
        r@ == spec_source_str(s),
{
    match s {
        Source::Youtube => "youtube",
        Source::Spotify => "spotify",
        Source::Soundcloud => "soundcloud",
    }
}

pub open spec fn spec_source_from(t: Seq<char>) -> Source {
    if t == "spotify"@ {
        Source::Spotify
    } else if t == "soundcloud"@ {
        Source::Soundcloud
    } else {
        Source::Youtube
    }
}

pub fn source_from(s: &str) -> (r: Source)
    ensures
        r == spec_source_from(s@),
{
    let c = chars_of(s);
    if chars_eq(c.as_slice(), "spotify") {
        Source::Spotify
    } else if chars_eq(c.as_slice(), "soundcloud") {
        Source::Soundcloud
    } else {
        Source::Youtube
    }
}

pub open spec fn spec_status_str(s: BattleStatus) -> Seq<char> {
    match s {
        BattleStatus::Idle => "idle"@,
        BattleStatus::Running => "running"@,
        BattleStatus::Finished => "finished"@,
    }
}

pub fn status_str(s: BattleStatus) -> (r: &'static str)
    ensures
        r@ == spec_status_str(s),
{
    match s {
        BattleStatus::Idle => "idle",
        BattleStatus::Running => "running",
        BattleStatus::Finished => "finished",
    }
}

pub open spec fn spec_status_from(t: Seq<char>) -> BattleStatus {
    if t == "running"@ {
        BattleStatus::Running
    } else if t == "finished"@ {
        BattleStatus::Finished
    } else {
        BattleStatus::Idle
    }
}

pub fn status_from(s: &str) -> (r: BattleStatus)
    ensures
        r == spec_status_from(s@),
{
    let c = chars_of(s);
    if chars_eq(c.as_slice(), "running") {
        BattleStatus::Running
    } else if chars_eq(c.as_slice(), "finished") {
        BattleStatus::Finished
    } else {
        BattleStatus::Idle
    }
}

pub open spec fn spec_mode_str(m: BattleMode) -> Seq<char> {
    match m {
        BattleMode::Single => "single"@,
        BattleMode::Double => "double"@,
        BattleMode::Bo3 => "bo3"@,
    }
}

pub fn mode_str(m: BattleMode) -> (r: &'static str)
    ensures
        r@ == spec_mode_str(m),
{
    match m {
        BattleMode::Single => "single",
        BattleMode::Double => "double",
        BattleMode::Bo3 => "bo3",
    }
}

pub open spec fn spec_mode_from(t: Seq<char>) -> BattleMode {
    if t == "double"@ {
        BattleMode::Double
    } else if t == "bo3"@ {
        BattleMode::Bo3
    } else {
        BattleMode::Single
    }
}

pub fn mode_from(s: &str) -> (r: BattleMode)
    ensures
        r == spec_mode_from(s@),
{
    let c = chars_of(s);
    if chars_eq(c.as_slice(), "double") {
        BattleMode::Double
    } else if chars_eq(c.as_slice(), "bo3") {
        BattleMode::Bo3
    } else {
        BattleMode::Single
    }
}

pub open spec fn spec_group_str(g: MatchGroup) -> Seq<char> {
    match g {
        MatchGroup::Main => "main"@,
        MatchGroup::Winners => "winners"@,
        MatchGroup::Losers => "losers"@,
        MatchGroup::Grand => "grand"@,
    }
}

pub fn group_str(g: MatchGroup) -> (r: &'static str)
    ensures
        r@ == spec_group_str(g),
{
    match g {
        MatchGroup::Main => "main",
        MatchGroup::Winners => "winners",
        MatchGroup::Losers => "losers",
        MatchGroup::Grand => "grand",
    }
}

pub open spec fn spec_group_from(t: Seq<char>) -> MatchGroup {
    if t == "winners"@ {
        MatchGroup::Winners
    } else if t == "losers"@ {
        MatchGroup::Losers
    } else if t == "grand"@ {
        MatchGroup::Grand
    } else {
        MatchGroup::Main
    }
}

pub fn group_from(s: &str) -> (r: MatchGroup)
    ensures
        r == spec_group_from(s@),
{
    let c = chars_of(s);
    if chars_eq(c.as_slice(), "winners") {
        MatchGroup::Winners
    } else if chars_eq(c.as_slice(), "losers") {
        MatchGroup::Losers
    } else if chars_eq(c.as_slice(), "grand") {
        MatchGroup::Grand
    } else {
        MatchGroup::Main
    }
}

pub open spec fn spec_state_str(s: MatchState) -> Seq<char> {
    match s {
        MatchState::Pending => "pending"@,
        MatchState::Active => "active"@,
        MatchState::Done => "done"@,
    }
}

pub fn state_str(s: MatchState) -> (r: &'static str)
    ensures
        r@ == spec_state_str(s),
{
    match s {
        MatchState::Pending => "pending",
        MatchState::Active => "active",
        MatchState::Done => "done",
    }
}

pub open spec fn spec_state_from(t: Seq<char>) -> MatchState {
    if t == "active"@ {
        MatchState::Active
    } else if t == "done"@ {
        MatchState::Done
    } else {
        MatchState::Pending
    }
}

pub fn state_from(s: &str) -> (r: MatchState)
    ensures
        r == spec_state_from(s@),
{
    let c = chars_of(s);
    if chars_eq(c.as_slice(), "active") {
        MatchState::Active
    } else if chars_eq(c.as_slice(), "done") {
        MatchState::Done
    } else {
        MatchState::Pending
    }
}

pub open spec fn spec_winner_str(w: Option<VoteChoice>) -> Option<Seq<char>> {
    match w {
        Some(VoteChoice::A) => Some("a"@),
        Some(VoteChoice::B) => Some("b"@),
        None => None,
    }
}

pub fn winner_str(w: Option<VoteChoice>) -> (r: Option<&'static str>)
    ensures
        match r {
            Some(t) => spec_winner_str(w) == Some(t@),
            None => spec_winner_str(w) is None,
        },
{
    match w {
        Some(VoteChoice::A) => Some("a"),
        Some(VoteChoice::B) => Some("b"),
        None => None,
    }
}

pub open spec fn spec_winner_from(t: Option<Seq<char>>) -> Option<VoteChoice> {
    match t {
        Some(s) => if s == "a"@ {
            Some(VoteChoice::A)
        } else if s == "b"@ {
            Some(VoteChoice::B)
        } else {
            None
        },
        None => None,
    }
}

pub fn winner_from(s: Option<&str>) -> (r: Option<VoteChoice>)
    ensures
        r == spec_winner_from(match s {
            Some(t) => Some(t@),
            None => None,
        }),
{
    match s {
        Some(t) => {
            let c = chars_of(t);
            if chars_eq(c.as_slice(), "a") {
                Some(VoteChoice::A)
            } else if chars_eq(c.as_slice(), "b") {
                Some(VoteChoice::B)
            } else {
                None
            }
        },
        None => None,
    }
}

/// Decoding the stored text gives back the value: `source_from` undoes
/// `source_str`, and likewise for status, mode, group, state and winner.
pub proof fn law_codec_round_trip(
    s: Source,
    st: BattleStatus,
    m: BattleMode,
    g: MatchGroup,
    ms: MatchState,
    w: Option<VoteChoice>,
)
    ensures
        spec_source_from(spec_source_str(s)) == s,
        spec_status_from(spec_status_str(st)) == st,
        spec_mode_from(spec_mode_str(m)) == m,
        spec_group_from(spec_group_str(g)) == g,
        spec_state_from(spec_state_str(ms)) == ms,
        spec_winner_from(spec_winner_str(w)) == w,
{
    reveal_strlit("youtube");
    reveal_strlit("spotify");
    reveal_strlit("soundcloud");
    reveal_strlit("idle");
    reveal_strlit("running");
    reveal_strlit("finished");
    reveal_strlit("single");
    reveal_strlit("double");
    reveal_strlit("bo3");
    reveal_strlit("main");
    reveal_strlit("winners");
    reveal_strlit("losers");
    reveal_strlit("grand");
    reveal_strlit("pending");
    reveal_strlit("active");
    reveal_strlit("done");
    reveal_strlit("a");
    reveal_strlit("b");
    assert("spotify"@[0] != "youtube"@[0]);
    assert("soundcloud"@.len() != "youtube"@.len());
    assert("soundcloud"@.len() != "spotify"@.len());
    assert("idle"@.len() != "running"@.len());
    assert("finished"@.len() != "idle"@.len());
    assert("finished"@.len() != "running"@.len());
    assert("double"@[0] != "single"@[0]);
    assert("bo3"@.len() != "single"@.len());
    assert("bo3"@.len() != "double"@.len());
    assert("main"@.len() != "winners"@.len());
    assert("losers"@.len() != "main"@.len());
    assert("losers"@.len() != "winners"@.len());
    assert("grand"@.len() != "main"@.len());
    assert("grand"@.len() != "winners"@.len());
    assert("grand"@.len() != "losers"@.len());
    assert("active"@.len() != "pending"@.len());
    assert("active"@.len() != "done"@.len());
    assert("done"@.len() != "pending"@.len());
    assert("a"@[0] != "b"@[0]);
}

} // verus!
