//! The data model: players, scores as returned by the server, and signed
//! score submissions.

use vstd::prelude::*;
use crate::uid::Uid;
use crate::auth;
use crate::hexfmt::is_lower_hex_char;

verus! {

/// A player identity as issued by the server.  `key` is the secret used
/// only to sign score submissions; it never leaves the client except inside
/// the signature computation.
#[derive(Debug)]
pub struct Player {
    /// Public identifier.
    pub id: Uid,
    /// Secret signing key.
    pub key: Uid,
    /// Display name; may have been generated by the server.
    pub name: String,
}

impl Player {
    /// Both identifiers hold sixteen bytes.
    pub open spec fn wf(&self) -> bool {
        self.id.wf() && self.key.wf()
    }

    /// A copy of this player.
    pub fn dup(&self) -> (r: Player)
        ensures
            r.id@ == self.id@,
            r.key@ == self.key@,
            r.name@ == self.name@,
            r.wf() <==> self.wf(),
    {
        Player { id: self.id.dup(), key: self.key.dup(), name: self.name.clone() }
    }
}

/// A score entry as returned by the server.  The numeric score is held as
/// the decimal literal that stood on the wire; the embedding application
/// turns it into a number if it needs one.
#[derive(Debug)]
pub struct Score {
    /// The score, as its wire literal.
    pub score: String,
    /// The scoring player's display name.
    pub player: String,
    /// Optional metadata recorded with the score.
    pub meta: Option<String>,
    /// Server-assigned timestamp text.
    pub timestamp: String,
}

/// The view of an optional string, as an optional character sequence.
pub open spec fn opt_view(m: Option<String>) -> Option<Seq<char>> {
    match m {
        Option::Some(s) => Option::Some(s@),
        Option::None => Option::None,
    }
}

/// A signed score submission, the write-only wire value sent to the server.
/// It is built fresh for each submission and carries the authentication tag.
#[derive(Debug)]
pub struct ScoreInput {
    /// The IEEE-754 bit pattern of the 32-bit score value.
    pub score_bits: u32,
    /// The submitting player's public id.
    pub player: Uid,
    /// Optional metadata, signed along with the rest when present.
    pub meta: Option<String>,
    /// Unix timestamp in whole seconds, part of the signed message.
    pub timestamp: u64,
    /// The authentication tag: 64 lowercase hexadecimal characters.
    pub k: String,
}

impl ScoreInput {
    /// The player id holds sixteen bytes.
    pub open spec fn wf(&self) -> bool {
        self.player.wf()
    }

    /// Build a signed submission.  The tag authenticates exactly the
    /// timestamp, leaderboard key, player id, score bits and metadata, keyed
    /// by the player's secret key.
    pub fn new(
        leaderboard_key: &Uid,
        score_bits: u32,
        player: &Player,
        meta: Option<String>,
        timestamp: u64,
    ) -> (r: ScoreInput)
        requires
            leaderboard_key.wf(),
            player.wf(),
        ensures
            r.wf(),
            r.score_bits == score_bits,
            r.player@ == player.id@,
            r.timestamp == timestamp,
            opt_view(r.meta) == opt_view(meta),
            r.k@ == auth::tag_for(
                player.key@,
                timestamp,
                leaderboard_key@,
                player.id@,
                score_bits,
                opt_view(meta),
            ),
            r.k@.len() == 64,
            forall|i: int| 0 <= i < r.k@.len() ==> is_lower_hex_char(#[trigger] r.k@[i]),
    {
        let tag = auth::compute_signature(
            &player.key,
            timestamp,
            leaderboard_key,
            &player.id,
            score_bits,
            match &meta {
                Option::Some(m) => Option::Some(m.as_str()),
                Option::None => Option::None,
            },
        );
        ScoreInput {
            score_bits,
            player: player.id.dup(),
            meta,
            timestamp,
            k: tag,
        }
    }
}

} // verus!
