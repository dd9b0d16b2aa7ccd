//! The score-submission authentication tag: an HMAC-SHA-256 over a fixed
//! concatenation of the submission's fields, keyed by the player's secret
//! key, rendered as lowercase hexadecimal.

use vstd::prelude::*;
use vstd::string::StrSliceExecFns;
use vstd::string::StringSliceAdditionalSpecFns;
use hmac::Mac;
use crate::hexfmt::{hex_of, hex_encode, is_lower_hex_char, lemma_hex_of_len, lemma_hex_of_is_lower_hex};
use crate::uid::Uid;

verus! {

/// The HMAC-SHA-256 tag of a message under a key.  The tag is a function of
/// the key and message bytes alone; its definition is left to the outside
/// implementation.
pub uninterp spec fn hmac_sha256_of(key: Seq<u8>, msg: Seq<u8>) -> Seq<u8>;

/// Relies on hmac's `Hmac<Sha256>` (HMAC over SHA-256): the tag depends on
/// the key and message bytes alone, and a SHA-256 tag is 32 bytes.  HMAC
/// accepts keys of any length, so `new_from_slice` cannot fail here.
#[verifier::external_body]
fn hmac_sha256(key: &Vec<u8>, msg: &Vec<u8>) -> (r: Vec<u8>)
    ensures
        r@ == hmac_sha256_of(key@, msg@),
        r@.len() == 32,
{
    let mut mac = <hmac::Hmac<sha2::Sha256> as Mac>::new_from_slice(key.as_slice()).unwrap();
    mac.update(msg.as_slice());
    mac.finalize().into_bytes().to_vec()
}

/// The eight bytes of `x`, least significant first.
pub open spec fn le_u64(x: u64) -> Seq<u8> {
    seq![
        (x & 0xff) as u8,
        ((x >> 8) & 0xff) as u8,
        ((x >> 16) & 0xff) as u8,
        ((x >> 24) & 0xff) as u8,
        ((x >> 32) & 0xff) as u8,
        ((x >> 40) & 0xff) as u8,
        ((x >> 48) & 0xff) as u8,
        ((x >> 56) & 0xff) as u8,
    ]
}

/// The four bytes of `x`, least significant first.
pub open spec fn le_u32(x: u32) -> Seq<u8> {
    seq![(x & 0xff) as u8, ((x >> 8) & 0xff) as u8, ((x >> 16) & 0xff) as u8, ((x >> 24) & 0xff) as u8]
}

/// The byte string that is authenticated for a score submission, in this
/// exact order: little-endian 8-byte timestamp, the leaderboard key's 16 raw
/// bytes, the player id's 16 raw bytes, the 4-byte little-endian score bit
/// pattern, then the metadata bytes if there are any.
pub open spec fn signed_message(
    timestamp: u64,
    lkey: Seq<u8>,
    pid: Seq<u8>,
    score_bits: u32,
    meta: Option<Seq<u8>>,
) -> Seq<u8> {
    le_u64(timestamp) + lkey + pid + le_u32(score_bits) + (match meta {
        Option::Some(m) => m,
        Option::None => Seq::empty(),
    })
}

/// The authentication tag, as lowercase hexadecimal characters.
pub open spec fn tag_chars(
    player_key: Seq<u8>,
    timestamp: u64,
    lkey: Seq<u8>,
    pid: Seq<u8>,
    score_bits: u32,
    meta: Option<Seq<u8>>,
) -> Seq<char> {
    hex_of(hmac_sha256_of(player_key, signed_message(timestamp, lkey, pid, score_bits, meta)))
}

/// The metadata bytes signed for an optional metadata string: its UTF-8
/// encoding when present.
pub open spec fn meta_bytes_of(meta: Option<Seq<char>>) -> Option<Seq<u8>> {
    match meta {
        Option::Some(m) => Option::Some(vstd::utf8::encode_utf8(m)),
        Option::None => Option::None,
    }
}

/// The authentication tag for an optional metadata string.
pub open spec fn tag_for(
    player_key: Seq<u8>,
    timestamp: u64,
    lkey: Seq<u8>,
    pid: Seq<u8>,
    score_bits: u32,
    meta: Option<Seq<char>>,
) -> Seq<char> {
    tag_chars(player_key, timestamp, lkey, pid, score_bits, meta_bytes_of(meta))
}

fn le_bytes_u64(x: u64) -> (r: Vec<u8>)
    ensures
        r@ == le_u64(x),
{
    let mut v: Vec<u8> = Vec::new();
    v.push((x & 0xff) as u8);
    v.push(((x >> 8) & 0xff) as u8);
    v.push(((x >> 16) & 0xff) as u8);
    v.push(((x >> 24) & 0xff) as u8);
    v.push(((x >> 32) & 0xff) as u8);
    v.push(((x >> 40) & 0xff) as u8);
    v.push(((x >> 48) & 0xff) as u8);
    v.push(((x >> 56) & 0xff) as u8);
    proof {
        assert(v@ =~= le_u64(x));
    }
    v
}

fn le_bytes_u32(x: u32) -> (r: Vec<u8>)
    ensures
        r@ == le_u32(x),
{
    let mut v: Vec<u8> = Vec::new();
    v.push((x & 0xff) as u8);
    v.push(((x >> 8) & 0xff) as u8);
    v.push(((x >> 16) & 0xff) as u8);
    v.push(((x >> 24) & 0xff) as u8);
    proof {
        assert(v@ =~= le_u32(x));
    }
    v
}

/// Compute the authentication tag for a score submission: 64 lowercase
/// hexadecimal characters over the exact signed byte string.
pub fn compute_signature(
    player_key: &Uid,
    timestamp: u64,
    leaderboard_key: &Uid,
    player_id: &Uid,
    score_bits: u32,
    meta: Option<&str>,
) -> (r: String)
    ensures
        r@ == tag_for(
            player_key@,
            timestamp,
            leaderboard_key@,
            player_id@,
            score_bits,
            match meta {
                Option::Some(m) => Option::Some(m@),
                Option::None => Option::None,
            },
        ),
        r@.len() == 64,
        forall|i: int| 0 <= i < r@.len() ==> is_lower_hex_char(#[trigger] r@[i]),
{
    let mut msg = le_bytes_u64(timestamp);
    let mut lk = leaderboard_key.as_bytes();
    msg.append(&mut lk);
    let mut pb = player_id.as_bytes();
    msg.append(&mut pb);
    let mut sb = le_bytes_u32(score_bits);
    msg.append(&mut sb);
    if let Option::Some(m) = meta {
        let mut mb = m.as_bytes_vec();
        msg.append(&mut mb);
    }
    let ghost mbytes: Option<Seq<u8>> = match meta {
        Option::Some(m) => Option::Some(m.spec_bytes()),
        Option::None => Option::None,
    };
    proof {
        assert(msg@ =~= signed_message(timestamp, leaderboard_key@, player_id@, score_bits, mbytes));
    }
    let key = player_key.as_bytes();
    let tag = hmac_sha256(&key, &msg);
    proof {
        lemma_hex_of_len(tag@);
        lemma_hex_of_is_lower_hex(tag@);
    }
    hex_encode(&tag)
}

/// Law: the tag is deterministic.  Two tags computed over the same player
/// key, timestamp, leaderboard key, player id, score bits and metadata are
/// the same character string.
pub proof fn lemma_signature_deterministic(
    player_key: Seq<u8>,
    timestamp: u64,
    lkey: Seq<u8>,
    pid: Seq<u8>,
    score_bits: u32,
    meta: Option<Seq<u8>>,
    t1: Seq<char>,
    t2: Seq<char>,
)
    requires
        t1 == tag_chars(player_key, timestamp, lkey, pid, score_bits, meta),
        t2 == tag_chars(player_key, timestamp, lkey, pid, score_bits, meta),
    ensures
        t1 == t2,
{
}

/// Law: the signed byte string is free of concatenation ambiguity.  Two
/// submissions build the same signed message only if every field agrees,
/// provided metadata, when present, is non-empty (an absent metadata and an
/// empty one sign the same bytes, so empty metadata is left out here).
pub proof fn lemma_signed_message_injective(
    ts1: u64,
    k1: Seq<u8>,
    p1: Seq<u8>,
    s1: u32,
    m1: Option<Seq<u8>>,
    ts2: u64,
    k2: Seq<u8>,
    p2: Seq<u8>,
    s2: u32,
    m2: Option<Seq<u8>>,
)
    requires
        k1.len() == 16,
        p1.len() == 16,
        k2.len() == 16,
        p2.len() == 16,
        m1 matches Option::Some(m) ==> m.len() > 0,
        m2 matches Option::Some(m) ==> m.len() > 0,
        signed_message(ts1, k1, p1, s1, m1) == signed_message(ts2, k2, p2, s2, m2),
    ensures
        ts1 == ts2,
        k1 == k2,
        p1 == p2,
        s1 == s2,
        m1 == m2,
{
    let a = signed_message(ts1, k1, p1, s1, m1);
    let b = signed_message(ts2, k2, p2, s2, m2);
    let mb1 = match m1 {
        Option::Some(m) => m,
        Option::None => Seq::empty(),
    };
    let mb2 = match m2 {
        Option::Some(m) => m,
        Option::None => Seq::empty(),
    };
    assert(a.len() == 44 + mb1.len());
    assert(b.len() == 44 + mb2.len());
    assert(forall|i: int| 0 <= i < a.len() ==> a[i] == b[i]);
    assert(a[0] == (ts1 & 0xff) as u8 && b[0] == (ts2 & 0xff) as u8);
    assert(a[1] == ((ts1 >> 8) & 0xff) as u8 && b[1] == ((ts2 >> 8) & 0xff) as u8);
    assert(a[2] == ((ts1 >> 16) & 0xff) as u8 && b[2] == ((ts2 >> 16) & 0xff) as u8);
    assert(a[3] == ((ts1 >> 24) & 0xff) as u8 && b[3] == ((ts2 >> 24) & 0xff) as u8);
    assert(a[4] == ((ts1 >> 32) & 0xff) as u8 && b[4] == ((ts2 >> 32) & 0xff) as u8);
    assert(a[5] == ((ts1 >> 40) & 0xff) as u8 && b[5] == ((ts2 >> 40) & 0xff) as u8);
    assert(a[6] == ((ts1 >> 48) & 0xff) as u8 && b[6] == ((ts2 >> 48) & 0xff) as u8);
    assert(a[7] == ((ts1 >> 56) & 0xff) as u8 && b[7] == ((ts2 >> 56) & 0xff) as u8);
    assert(ts1 == ts2) by (bit_vector)
        requires
            (ts1 & 0xff) as u8 == (ts2 & 0xff) as u8,
            ((ts1 >> 8) & 0xff) as u8 == ((ts2 >> 8) & 0xff) as u8,
            ((ts1 >> 16) & 0xff) as u8 == ((ts2 >> 16) & 0xff) as u8,
            ((ts1 >> 24) & 0xff) as u8 == ((ts2 >> 24) & 0xff) as u8,
            ((ts1 >> 32) & 0xff) as u8 == ((ts2 >> 32) & 0xff) as u8,
            ((ts1 >> 40) & 0xff) as u8 == ((ts2 >> 40) & 0xff) as u8,
            ((ts1 >> 48) & 0xff) as u8 == ((ts2 >> 48) & 0xff) as u8,
            ((ts1 >> 56) & 0xff) as u8 == ((ts2 >> 56) & 0xff) as u8,
    ;
    assert forall|j: int| 0 <= j < 16 implies k1[j] == k2[j] by {
        assert(a[8 + j] == k1[j]);
        assert(b[8 + j] == k2[j]);
    }
    assert(k1 =~= k2);
    assert forall|j: int| 0 <= j < 16 implies p1[j] == p2[j] by {
        assert(a[24 + j] == p1[j]);
        assert(b[24 + j] == p2[j]);
    }
    assert(p1 =~= p2);
    assert(a[40] == (s1 & 0xff) as u8 && b[40] == (s2 & 0xff) as u8);
    assert(a[41] == ((s1 >> 8) & 0xff) as u8 && b[41] == ((s2 >> 8) & 0xff) as u8);
    assert(a[42] == ((s1 >> 16) & 0xff) as u8 && b[42] == ((s2 >> 16) & 0xff) as u8);
    assert(a[43] == ((s1 >> 24) & 0xff) as u8 && b[43] == ((s2 >> 24) & 0xff) as u8);
    assert(s1 == s2) by (bit_vector)
        requires
            (s1 & 0xff) as u8 == (s2 & 0xff) as u8,
            ((s1 >> 8) & 0xff) as u8 == ((s2 >> 8) & 0xff) as u8,
            ((s1 >> 16) & 0xff) as u8 == ((s2 >> 16) & 0xff) as u8,
            ((s1 >> 24) & 0xff) as u8 == ((s2 >> 24) & 0xff) as u8,
    ;
    assert(mb1.len() == mb2.len());
    if m1 is None && m2 is None {
        assert(m1 == m2);
    } else if m1 is Some && m2 is Some {
        assert forall|j: int| 0 <= j < mb1.len() implies mb1[j] == mb2[j] by {
            assert(a[44 + j] == mb1[j]);
            assert(b[44 + j] == mb2[j]);
        }
        assert(mb1 =~= mb2);
    } else {
        assert(false);
    }
}

} // verus!
