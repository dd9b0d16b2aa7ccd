//! The leaderboard client handle: one session against one leaderboard.
//! Network I/O stays with the embedding application; the handle builds the
//! request bodies, signs submissions, and interprets response bodies.

use vstd::prelude::*;
use crate::uid::{Uid, is_valid_uuid_str, uuid_bytes_of_str};
use crate::model::{Player, Score, ScoreInput};
use crate::auth;
use crate::wire;

verus! {

/// Why an operation against the server produced no result.
#[derive(Debug, Clone, Copy, PartialEq, Eq, Structural)]
pub enum LeaderboardError {
    /// The transport handed back no response at all.
    NoResponse,
    /// The response body could not be understood.
    BadResponse,
}

/// The host used when none is configured.
pub open spec fn default_host() -> Seq<char> {
    "https://jornet.vleue.com"@
}

/// A handle on one leaderboard: its id, its secret key, the host to talk
/// to, and the current player once one is set.
pub struct Leaderboard {
    /// The leaderboard's public identifier.
    pub id: Uid,
    /// The leaderboard's secret key, part of every signed submission.
    pub key: Uid,
    /// Base URL of the server.
    pub host: String,
    /// The active player; score submissions need one.
    pub player: Option<Player>,
}

impl Leaderboard {
    /// Identifiers hold sixteen bytes, also the player's when one is set.
    pub open spec fn wf(&self) -> bool {
        &&& self.id.wf()
        &&& self.key.wf()
        &&& (self.player matches Some(p) ==> p.wf())
    }

    /// A fresh handle with no player set; `host` falls back to the
    /// production URL when absent.
    pub fn with_host_and_leaderboard(host: Option<String>, id: Uid, key: Uid) -> (r: Leaderboard)
        requires
            id.wf(),
            key.wf(),
        ensures
            r.wf(),
            r.id@ == id@,
            r.key@ == key@,
            r.player is None,
            match host {
                Option::Some(h) => r.host@ == h@,
                Option::None => r.host@ == default_host(),
            },
    {
        let h = match host {
            Option::Some(h) => h,
            Option::None => {
                let d = "https://jornet.vleue.com".to_owned();
                proof {
                    reveal_strlit("https://jornet.vleue.com");
                    assert(d@ =~= default_host());
                }
                d
            },
        };
        Leaderboard { id, key, host: h, player: None }
    }

    /// A handle from textual configuration, against the default host.
    /// Both identifiers must be well-formed hyphenated UUIDs; a malformed
    /// one is a configuration error and yields no handle.
    pub fn with_leaderboard(id: &str, key: &str) -> (r: Option<Leaderboard>)
        ensures
            r is Some <==> is_valid_uuid_str(id@) && is_valid_uuid_str(key@),
            r matches Some(b) ==> {
                &&& b.wf()
                &&& b.id@ == uuid_bytes_of_str(id@)
                &&& b.key@ == uuid_bytes_of_str(key@)
                &&& b.player is None
                &&& b.host@ == default_host()
            },
    {
        match (Uid::parse_str(id), Uid::parse_str(key)) {
            (Option::Some(i), Option::Some(k)) => Some(
                Leaderboard::with_host_and_leaderboard(None, i, k),
            ),
            _ => None,
        }
    }

    /// The same handle pointed at another host.
    pub fn with_host(self, host: &str) -> (r: Leaderboard)
        ensures
            r.host@ == host@,
            r.id == self.id,
            r.key == self.key,
            r.player == self.player,
    {
        Leaderboard { id: self.id, key: self.key, host: host.to_owned(), player: self.player }
    }

    /// The current player, to read the generated name or save the identity
    /// for a later session.
    pub fn get_player(&self) -> (r: Option<&Player>)
        ensures
            match r {
                Option::Some(p) => self.player matches Some(q) && *p == q,
                Option::None => self.player is None,
            },
    {
        self.player.as_ref()
    }

    /// Resume as a returning player; no network traffic, takes effect at
    /// once and overwrites any current player.
    pub fn as_player(&mut self, player: Player)
        ensures
            final(self).player == Some(player),
            final(self).id == old(self).id,
            final(self).key == old(self).key,
            final(self).host == old(self).host,
    {
        self.player = Some(player);
    }

    /// Interpret the server's answer to a player-creation request (the
    /// request body comes from `wire::player_input_to_json`).  On success
    /// the new player becomes current; on any failure the handle is left
    /// unchanged.
    pub fn create_player(&mut self, response: Option<&str>) -> (r: Result<
        Player,
        LeaderboardError,
    >)
        ensures
            final(self).id == old(self).id,
            final(self).key == old(self).key,
            final(self).host == old(self).host,
            r is Err ==> final(self).player == old(self).player,
            response is None ==> r == Err::<Player, LeaderboardError>(LeaderboardError::NoResponse),
            (r matches Err(e) && e == LeaderboardError::BadResponse) ==> response is Some,
            r matches Ok(p) ==> {
                &&& p.wf()
                &&& response matches Some(s) && s@ == wire::player_json(p.id@, p.key@, p.name@)
                &&& final(self).player matches Some(q) && q.wf() && q.id@ == p.id@ && q.key@
                    == p.key@ && q.name@ == p.name@
            },
            response matches Some(s) ==> (forall|id: Seq<u8>, key: Seq<u8>, name: Seq<char>|
                id.len() == 16 && key.len() == 16 && s@ == #[trigger] wire::player_json(
                    id,
                    key,
                    name,
                ) ==> (r matches Ok(p) && p.id@ == id && p.key@ == key && p.name@ == name)),
    {
        match response {
            Option::None => Err(LeaderboardError::NoResponse),
            Option::Some(s) => {
                match wire::parse_player(s) {
                    Option::None => Err(LeaderboardError::BadResponse),
                    Option::Some(p) => {
                        let q = p.dup();
                        self.player = Some(q);
                        Ok(p)
                    },
                }
            },
        }
    }

    /// Build the signed submission for a score, or nothing when no player
    /// is set: without a player there is no key to sign with, so nothing
    /// must reach the network.
    pub fn send_score(&self, score_bits: u32, timestamp: u64) -> (r: Option<ScoreInput>)
        requires
            self.wf(),
        ensures
            r is Some <==> self.player is Some,
            self.player matches Some(p) ==> (r matches Some(si) && si.wf() && si.score_bits
                == score_bits && si.player@ == p.id@ && si.timestamp == timestamp && si.meta
                is None && si.k@ == auth::tag_for(
                p.key@,
                timestamp,
                self.key@,
                p.id@,
                score_bits,
                Option::None,
            )),
    {
        match &self.player {
            Option::None => None,
            Option::Some(p) => Some(ScoreInput::new(&self.key, score_bits, p, None, timestamp)),
        }
    }

    /// As `send_score`, with metadata that is signed along with the rest.
    pub fn send_score_with_meta(&self, score_bits: u32, meta: &str, timestamp: u64) -> (r: Option<
        ScoreInput,
    >)
        requires
            self.wf(),
        ensures
            r is Some <==> self.player is Some,
            self.player matches Some(p) ==> (r matches Some(si) && si.wf() && si.score_bits
                == score_bits && si.player@ == p.id@ && si.timestamp == timestamp && (
            si.meta matches Some(m) && m@ == meta@) && si.k@ == auth::tag_for(
                p.key@,
                timestamp,
                self.key@,
                p.id@,
                score_bits,
                Option::Some(meta@),
            )),
    {
        match &self.player {
            Option::None => None,
            Option::Some(p) => {
                let m = meta.to_owned();
                Some(ScoreInput::new(&self.key, score_bits, p, Some(m), timestamp))
            },
        }
    }

    /// Interpret the server's answer to a leaderboard fetch.  A successful
    /// result is exactly the entries the server sent, in the server's
    /// order: nothing is re-sorted or dropped.
    pub fn get_leaderboard(&self, response: Option<&str>) -> (r: Result<
        Vec<Score>,
        LeaderboardError,
    >)
        ensures
            response is None ==> r == Err::<Vec<Score>, LeaderboardError>(
                LeaderboardError::NoResponse,
            ),
            (r matches Err(e) && e == LeaderboardError::BadResponse) ==> response is Some,
            r matches Ok(v) ==> response matches Some(s) && s@ == wire::scores_json(v@) && (
            forall|i: int| 0 <= i < v@.len() ==> wire::score_text_wf(#[trigger] v@[i])),
            response matches Some(s) ==> (forall|ss: Seq<Score>|
                s@ == #[trigger] wire::scores_json(ss) && wire::all_wf(ss) ==> (r matches Ok(v)
                    && wire::views_match(v@, ss))),
    {
        match response {
            Option::None => Err(LeaderboardError::NoResponse),
            Option::Some(s) => {
                match wire::parse_scores(s) {
                    Option::None => Err(LeaderboardError::BadResponse),
                    Option::Some(v) => Ok(v),
                }
            },
        }
    }
}

} // verus!
