use hmac::Mac;
use jornet::auth::compute_signature;
use jornet::board::{Leaderboard, LeaderboardError};
use jornet::model::{Player, ScoreInput};
use jornet::slot::ScoreSlot;
use jornet::uid::Uid;
use jornet::wire::{parse_player, player_input_to_json, player_to_json};

fn uid(s: &str) -> Uid {
    Uid::parse_str(s).expect("valid uuid")
}

fn sample_player() -> Player {
    Player {
        id: uid("33333333-3333-3333-3333-333333333333"),
        key: uid("44444444-4444-4444-4444-444444444444"),
        name: "Ada".to_string(),
    }
}

#[test]
fn uuid_parse_and_format_round_trip() {
    let u = uid("0a1b2c3d-4e5f-6071-8293-a4b5c6d7e8f9");
    assert_eq!(u.hyphenated(), "0a1b2c3d-4e5f-6071-8293-a4b5c6d7e8f9");
    // Uppercase digits are accepted and rendered back lowercase.
    let v = uid("0A1B2C3D-4E5F-6071-8293-A4B5C6D7E8F9");
    assert!(u.same_as(&v));
}

#[test]
fn configuration_is_validated_at_construction() {
    let board = Leaderboard::with_leaderboard(
        "11111111-1111-1111-1111-111111111111",
        "22222222-2222-2222-2222-222222222222",
    )
    .expect("well-formed configuration");
    assert_eq!(board.host, "https://jornet.vleue.com");
    let moved = board.with_host("http://localhost:8080");
    assert_eq!(moved.host, "http://localhost:8080");
    assert!(Leaderboard::with_leaderboard("not-a-uuid", "22222222-2222-2222-2222-222222222222")
        .is_none());
    assert!(Leaderboard::with_leaderboard("11111111-1111-1111-1111-111111111111", "nope")
        .is_none());
}

#[test]
fn uuid_rejects_malformed_text() {
    assert!(Uid::parse_str("").is_none());
    assert!(Uid::parse_str("0a1b2c3d4e5f60718293a4b5c6d7e8f9").is_none());
    assert!(Uid::parse_str("0a1b2c3d-4e5f-6071-8293-a4b5c6d7e8fg").is_none());
    assert!(Uid::parse_str("0a1b2c3d_4e5f_6071_8293_a4b5c6d7e8f9").is_none());
    assert!(Uid::parse_str("0a1b2c3d-4e5f-6071-8293-a4b5c6d7e8f99").is_none());
}

#[test]
fn signature_is_deterministic_and_input_sensitive() {
    let p = sample_player();
    let lkey = uid("22222222-2222-2222-2222-222222222222");
    let bits = 42.0f32.to_bits();
    let t1 = compute_signature(&p.key, 1_700_000_000, &lkey, &p.id, bits, None);
    let t2 = compute_signature(&p.key, 1_700_000_000, &lkey, &p.id, bits, None);
    assert_eq!(t1, t2);
    let other_score = compute_signature(&p.key, 1_700_000_000, &lkey, &p.id, 7.0f32.to_bits(), None);
    assert_ne!(t1, other_score);
    let other_time = compute_signature(&p.key, 1_700_000_001, &lkey, &p.id, bits, None);
    assert_ne!(t1, other_time);
    let with_meta = compute_signature(&p.key, 1_700_000_000, &lkey, &p.id, bits, Some("boss"));
    assert_ne!(t1, with_meta);
}

#[test]
fn signature_matches_independent_computation() {
    let p = sample_player();
    let lkey = uid("22222222-2222-2222-2222-222222222222");
    let score = 42.5f32;
    let ts: u64 = 1_700_000_123;
    let got = compute_signature(&p.key, ts, &lkey, &p.id, score.to_bits(), Some("m1"));

    let mut mac = hmac::Hmac::<sha2::Sha256>::new_from_slice(&p.key.bytes).unwrap();
    mac.update(&ts.to_le_bytes());
    mac.update(&lkey.bytes);
    mac.update(&p.id.bytes);
    mac.update(&score.to_le_bytes());
    mac.update("m1".as_bytes());
    let want = hex::encode(&mac.finalize().into_bytes()[..]);
    assert_eq!(got, want);
}

#[test]
fn send_score_without_player_yields_no_request() {
    let board = Leaderboard::with_host_and_leaderboard(
        None,
        uid("11111111-1111-1111-1111-111111111111"),
        uid("22222222-2222-2222-2222-222222222222"),
    );
    // No submission value exists, so nothing can reach a transport.
    assert!(board.send_score(10.0f32.to_bits(), 1_700_000_000).is_none());
    assert!(board.send_score_with_meta(10.0f32.to_bits(), "m", 1_700_000_000).is_none());
}

#[test]
fn create_player_from_stub_yields_named_player() {
    let mut board = Leaderboard::with_host_and_leaderboard(
        None,
        uid("11111111-1111-1111-1111-111111111111"),
        uid("22222222-2222-2222-2222-222222222222"),
    );
    // The request body the server would have answered:
    assert_eq!(player_input_to_json(None), "{\"name\":null}");
    let stub = "{\"id\":\"33333333-3333-3333-3333-333333333333\",\"key\":\"44444444-4444-4444-4444-444444444444\",\"name\":\"Bravo\"}";
    let created = board.create_player(Some(stub)).expect("created");
    assert_eq!(created.name, "Bravo");
    let current = board.get_player().expect("player set");
    assert!(!current.name.is_empty());
    assert_eq!(current.name, "Bravo");
}

#[test]
fn create_player_failures_leave_state_unchanged() {
    let mut board = Leaderboard::with_host_and_leaderboard(
        None,
        uid("11111111-1111-1111-1111-111111111111"),
        uid("22222222-2222-2222-2222-222222222222"),
    );
    assert_eq!(board.create_player(None).unwrap_err(), LeaderboardError::NoResponse);
    assert_eq!(
        board.create_player(Some("not json")).unwrap_err(),
        LeaderboardError::BadResponse
    );
    assert!(board.get_player().is_none());
}

#[test]
fn player_wire_round_trip() {
    let p = sample_player();
    let text = player_to_json(&p);
    let q = parse_player(&text).expect("round trip parses");
    assert!(q.id.same_as(&p.id));
    assert!(q.key.same_as(&p.key));
    assert_eq!(q.name, p.name);
}

#[test]
fn player_wire_round_trip_with_escapes() {
    let p = Player {
        id: uid("33333333-3333-3333-3333-333333333333"),
        key: uid("44444444-4444-4444-4444-444444444444"),
        name: "A\"d\\a".to_string(),
    };
    let text = player_to_json(&p);
    let q = parse_player(&text).expect("round trip parses");
    assert_eq!(q.name, "A\"d\\a");
}

#[test]
fn player_input_body_carries_requested_name() {
    assert_eq!(player_input_to_json(Some("Ada")), "{\"name\":\"Ada\"}");
    assert_eq!(player_input_to_json(None), "{\"name\":null}");
}

#[test]
fn leaderboard_preserves_server_order() {
    let board = Leaderboard::with_host_and_leaderboard(
        None,
        uid("11111111-1111-1111-1111-111111111111"),
        uid("22222222-2222-2222-2222-222222222222"),
    );
    let stub = "[{\"score\":10,\"player\":\"a\",\"meta\":null,\"timestamp\":\"t1\"},{\"score\":5,\"player\":\"b\",\"meta\":\"boss\",\"timestamp\":\"t2\"}]";
    let scores = board.get_leaderboard(Some(stub)).expect("parses");
    assert_eq!(scores.len(), 2);
    assert_eq!(scores[0].score, "10");
    assert_eq!(scores[0].player, "a");
    assert!(scores[0].meta.is_none());
    assert_eq!(scores[1].score, "5");
    assert_eq!(scores[1].meta.as_deref(), Some("boss"));
    assert_eq!(scores[1].timestamp, "t2");
    // Not re-sorted: the lower score stays last because the server put it there.
    let a: f32 = scores[0].score.parse().unwrap();
    let b: f32 = scores[1].score.parse().unwrap();
    assert!(a > b);
}

#[test]
fn leaderboard_failures_are_reported() {
    let board = Leaderboard::with_host_and_leaderboard(
        None,
        uid("11111111-1111-1111-1111-111111111111"),
        uid("22222222-2222-2222-2222-222222222222"),
    );
    assert_eq!(board.get_leaderboard(None).unwrap_err(), LeaderboardError::NoResponse);
    assert_eq!(
        board.get_leaderboard(Some("[{\"score\":}]")).unwrap_err(),
        LeaderboardError::BadResponse
    );
}

#[test]
fn full_submission_scenario() {
    let mut board = Leaderboard::with_host_and_leaderboard(
        None,
        uid("11111111-1111-1111-1111-111111111111"),
        uid("22222222-2222-2222-2222-222222222222"),
    );
    let stub = "{\"id\":\"33333333-3333-3333-3333-333333333333\",\"key\":\"44444444-4444-4444-4444-444444444444\",\"name\":\"Ada\"}";
    let created = board.create_player(Some(stub)).expect("created");
    assert_eq!(created.name, "Ada");
    let submission: ScoreInput = board
        .send_score(42.0f32.to_bits(), 1_700_000_000)
        .expect("player is set");
    assert!(submission.player.same_as(&created.id));
    assert_eq!(submission.timestamp, 1_700_000_000);
    assert_eq!(submission.k.len(), 64);
    assert!(submission
        .k
        .chars()
        .all(|c| c.is_ascii_digit() || ('a'..='f').contains(&c)));
}

#[test]
fn slot_never_delivers_twice() {
    let mut slot = ScoreSlot::new();
    assert!(!slot.is_filled());
    assert!(slot.take().is_none());
    let board = Leaderboard::with_host_and_leaderboard(
        None,
        uid("11111111-1111-1111-1111-111111111111"),
        uid("22222222-2222-2222-2222-222222222222"),
    );
    let stub = "[{\"score\":10,\"player\":\"a\",\"meta\":null,\"timestamp\":\"t1\"}]";
    let scores = board.get_leaderboard(Some(stub)).expect("parses");
    slot.put(scores);
    assert!(slot.is_filled());
    let first = slot.take();
    assert!(first.is_some());
    assert_eq!(first.unwrap().len(), 1);
    // Drained twice in a row: nothing comes out the second time.
    assert!(slot.take().is_none());
    assert!(!slot.is_filled());
}
