//! A chat provider that needs no network: it reports `Connected`, then
//! `count` synthetic vote messages alternating `1` / `2`. For tests and
//! offline runs.

use vstd::prelude::*;

use crate::kick::{ChatMessage, ChatUser, ProviderEvent};
use crate::snapshot::ConnectionState;
use crate::text::{decimal, decimal_u64, push_all, string_of};

verus! {

pub struct SimChatProvider {
    pub count: usize,
}

/// The vote text of synthetic message `i`.
pub open spec fn sim_text(i: nat) -> Seq<char> {
    if i % 2 == 0 {
        "1"@
    } else {
        "2"@
    }
}

/// Synthetic message `i`: id `i`, user `u<i>` named `user<i>` with no
/// badges, text `sim_text(i)`, timestamp 0.
pub open spec fn sim_message(e: ProviderEvent, i: nat) -> bool {
    match e {
        ProviderEvent::Message(m) => {
            &&& m.id@ == decimal(i)
            &&& m.user.user_id@ == "u"@ + decimal(i)
            &&& m.user.username@ == "user"@ + decimal(i)
            &&& m.user.display_name@ == "user"@ + decimal(i)
            &&& !m.user.is_mod && !m.user.is_sub && !m.user.is_vip
            &&& m.text@ == sim_text(i)
            &&& m.ts == 0
        },
        _ => false,
    }
}

/// `prefix` followed by the decimal text of `i`.
fn numbered(prefix: char, rest: &[char], i: u64) -> (r: String)
    ensures
        r@ == seq![prefix] + rest@ + decimal(i as nat),
{
    let mut v: Vec<char> = Vec::new();
    v.push(prefix);
    push_all(&mut v, rest);
    let d = decimal_u64(i);
    push_all(&mut v, d.as_slice());
    string_of(v.as_slice())
}

impl SimChatProvider {
    /// Everything one run reports, in order: `Connected`, then synthetic
    /// message `i` (see `sim_message`) for each `i < count`.
    pub fn events(&self) -> (r: Vec<ProviderEvent>)
        requires
            self.count <= u64::MAX,
        ensures
            r@.len() == self.count + 1,
            r@[0] == ProviderEvent::Connection(ConnectionState::Connected),
            forall|i: int|
                0 <= i < self.count ==> sim_message(#[trigger] r@[i + 1], i as nat),
    {
        let mut r: Vec<ProviderEvent> = Vec::new();
        r.push(ProviderEvent::Connection(ConnectionState::Connected));
        let ser: Vec<char> = vec!['s', 'e', 'r'];
        let none: Vec<char> = Vec::new();
        proof {
            reveal_strlit("u");
            reveal_strlit("user");
            reveal_strlit("1");
            reveal_strlit("2");
        }
        for i in 0..self.count
            invariant
                self.count <= u64::MAX,
                ser@ == seq!['s', 'e', 'r'],
                none@ == Seq::<char>::empty(),
                r@.len() == i + 1,
                r@[0] == ProviderEvent::Connection(ConnectionState::Connected),
                forall|k: int|
                    0 <= k < i ==> sim_message(#[trigger] r@[k + 1], k as nat),
        {
            let n = i as u64;
            let d = decimal_u64(n);
            let tc: Vec<char> = if i % 2 == 0 {
                vec!['1']
            } else {
                vec!['2']
            };
            let text = string_of(tc.as_slice());
            let m = ChatMessage {
                id: string_of(d.as_slice()),
                user: ChatUser {
                    user_id: numbered('u', none.as_slice(), n),
                    username: numbered('u', ser.as_slice(), n),
                    display_name: numbered('u', ser.as_slice(), n),
                    is_mod: false,
                    is_sub: false,
                    is_vip: false,
                },
                text,
                ts: 0,
            };
            proof {
                reveal_strlit("u");
                reveal_strlit("user");
                reveal_strlit("1");
                reveal_strlit("2");
            }
            assert(seq!['u'] + ser@ =~= "user"@);
            assert(seq!['u'] + none@ =~= "u"@);
            assert(text@ == sim_text(i as nat));
            r.push(ProviderEvent::Message(m));
            assert(sim_message(r@[i + 1], i as nat));
        }
        r
    }
}

} // verus!
