//! The JSON wire format: rendering the bodies this client sends and parsing
//! the bodies the server returns.  Rendering is exact; the parsers accept
//! the canonical renderings and state which text they accepted.

use vstd::prelude::*;
use vstd::string::StrSliceExecFns;
use vstd::string::StringExecFns;
use crate::hexfmt::push_char;
use crate::uid::{Uid, uuid_chars, canon_uuid_at, lemma_uuid_round_trip, lemma_canon_at_from_chars};
use crate::model::Player;

verus! {

/// How one character is written inside a JSON string: quotes and
/// backslashes take a backslash escape, everything else stands as itself.
pub open spec fn esc_char(c: char) -> Seq<char> {
    if c == '"' {
        seq!['\\', '"']
    } else if c == '\\' {
        seq!['\\', '\\']
    } else {
        seq![c]
    }
}

/// The escaped form of a whole string.
pub open spec fn json_escape(s: Seq<char>) -> Seq<char>
    decreases s.len(),
{
    if s.len() == 0 {
        Seq::empty()
    } else {
        esc_char(s[0]) + json_escape(s.drop_first())
    }
}

pub proof fn lemma_json_escape_single(c: char)
    ensures
        json_escape(seq![c]) == esc_char(c),
{
    assert(seq![c].len() == 1);
    assert(seq![c][0] == c);
    assert(seq![c].drop_first() =~= Seq::<char>::empty());
    assert(json_escape(seq![c].drop_first()) =~= Seq::<char>::empty());
    assert(json_escape(seq![c]) =~= esc_char(c));
}

pub proof fn lemma_json_escape_append(a: Seq<char>, b: Seq<char>)
    ensures
        json_escape(a + b) == json_escape(a) + json_escape(b),
    decreases a.len(),
{
    if a.len() == 0 {
        assert(a + b =~= b);
        assert(json_escape(a) + json_escape(b) =~= json_escape(b));
    } else {
        assert((a + b).drop_first() =~= a.drop_first() + b);
        lemma_json_escape_append(a.drop_first(), b);
        assert((a + b)[0] == a[0]);
        assert(json_escape(a + b) =~= json_escape(a) + json_escape(b));
    }
}

/// Append the escaped form of `s` to `out`.
pub fn escape_into(out: &mut String, s: &str)
    ensures
        final(out)@ == old(out)@ + json_escape(s@),
{
    let n = s.unicode_len();
    let mut i: usize = 0;
    while i < n
        invariant
            n == s@.len(),
            i <= n,
            out@ == old(out)@ + json_escape(s@.subrange(0, i as int)),
        decreases n - i,
    {
        let c = s.get_char(i);
        proof {
            assert(s@.subrange(0, i as int + 1) =~= s@.subrange(0, i as int) + seq![s@[i as int]]);
            lemma_json_escape_append(s@.subrange(0, i as int), seq![s@[i as int]]);
            lemma_json_escape_single(s@[i as int]);
        }
        if c == '"' {
            push_char(out, '\\');
            push_char(out, '"');
        } else if c == '\\' {
            push_char(out, '\\');
            push_char(out, '\\');
        } else {
            push_char(out, c);
        }
        proof {
            assert(out@ =~= old(out)@ + json_escape(s@.subrange(0, i as int + 1)));
        }
        i += 1;
    }
    proof {
        assert(s@.subrange(0, n as int) =~= s@);
    }
}

/// The deterministic scan of a JSON string body starting at `pos`: the
/// decoded characters up to an unescaped closing quote, and the position
/// just past that quote.  Only quote and backslash escapes are understood.
pub open spec fn scan_jstring(s: Seq<char>, pos: int) -> Option<(Seq<char>, int)>
    decreases s.len() - pos,
{
    if pos < 0 || pos >= s.len() {
        None
    } else if s[pos] == '"' {
        Some((Seq::empty(), pos + 1))
    } else if s[pos] == '\\' {
        if pos + 2 <= s.len() && (s[pos + 1] == '"' || s[pos + 1] == '\\') {
            match scan_jstring(s, pos + 2) {
                Some(te) => Some((seq![s[pos + 1]] + te.0, te.1)),
                None => None,
            }
        } else {
            None
        }
    } else {
        match scan_jstring(s, pos + 1) {
            Some(te) => Some((seq![s[pos]] + te.0, te.1)),
            None => None,
        }
    }
}

/// What a successful scan consumed: exactly the escaped form of its result,
/// followed by the closing quote.
pub proof fn lemma_scan_jstring_sound(s: Seq<char>, pos: int)
    requires
        0 <= pos <= s.len(),
    ensures
        scan_jstring(s, pos) matches Some(te) ==> pos < te.1 <= s.len() && s.subrange(pos, te.1)
            == json_escape(te.0) + seq!['"'],
    decreases s.len() - pos,
{
    if pos < s.len() {
        if s[pos] == '"' {
            assert(s.subrange(pos, pos + 1) =~= json_escape(Seq::empty()) + seq!['"']);
        } else if s[pos] == '\\' {
            if pos + 2 <= s.len() && (s[pos + 1] == '"' || s[pos + 1] == '\\') {
                lemma_scan_jstring_sound(s, pos + 2);
                match scan_jstring(s, pos + 2) {
                    Some(te) => {
                        let full = seq![s[pos + 1]] + te.0;
                        assert(full.drop_first() =~= te.0);
                        assert(json_escape(full) =~= esc_char(s[pos + 1]) + json_escape(te.0));
                        assert(esc_char(s[pos + 1]) =~= seq![s[pos], s[pos + 1]]);
                        assert(s.subrange(pos, te.1) =~= seq![s[pos], s[pos + 1]] + s.subrange(
                            pos + 2,
                            te.1,
                        ));
                        assert(s.subrange(pos, te.1) =~= json_escape(full) + seq!['"']);
                    },
                    None => {},
                }
            }
        } else {
            lemma_scan_jstring_sound(s, pos + 1);
            match scan_jstring(s, pos + 1) {
                Some(te) => {
                    let full = seq![s[pos]] + te.0;
                    assert(full.drop_first() =~= te.0);
                    assert(json_escape(full) =~= esc_char(s[pos]) + json_escape(te.0));
                    assert(esc_char(s[pos]) =~= seq![s[pos]]);
                    assert(s.subrange(pos, te.1) =~= seq![s[pos]] + s.subrange(pos + 1, te.1));
                    assert(s.subrange(pos, te.1) =~= json_escape(full) + seq!['"']);
                },
                None => {},
            }
        }
    }
}

/// Where the text holds an escaped string followed by its closing quote,
/// the scan finds exactly that string.
pub proof fn lemma_scan_jstring_complete(s: Seq<char>, pos: int, n: Seq<char>)
    requires
        0 <= pos,
        pos + json_escape(n).len() + 1 <= s.len(),
        s.subrange(pos, pos + json_escape(n).len() + 1) == json_escape(n) + seq!['"'],
    ensures
        scan_jstring(s, pos) == Some((n, pos + json_escape(n).len() + 1)),
    decreases n.len(),
{
    let e = json_escape(n);
    let sub = s.subrange(pos, pos + e.len() + 1);
    if n.len() == 0 {
        assert(e =~= Seq::<char>::empty());
        assert(s[pos] == sub[0]);
        assert(s[pos] == '"');
    } else {
        let c = n[0];
        let rest = n.drop_first();
        assert(e == esc_char(c) + json_escape(rest));
        let er = json_escape(rest);
        if c == '"' || c == '\\' {
            assert(esc_char(c) =~= seq!['\\', c]);
            assert(sub[0] == s[pos] && sub[1] == s[pos + 1]);
            assert(s[pos] == '\\');
            assert(s[pos + 1] == c);
            assert forall|i: int| 0 <= i < er.len() + 1 implies s[pos + 2 + i] == (er
                + seq!['"'])[i] by {
                assert(sub[2 + i] == s[pos + 2 + i]);
                assert(sub[2 + i] == (e + seq!['"'])[2 + i]);
            }
            assert(s.subrange(pos + 2, pos + 2 + er.len() as int + 1) =~= er + seq!['"']);
            lemma_scan_jstring_complete(s, pos + 2, rest);
            assert(scan_jstring(s, pos + 2) == Some((rest, pos + 2 + er.len() + 1)));
            assert(seq![s[pos + 1]] + rest =~= n);
            assert(pos + 2 + er.len() + 1 == pos + e.len() + 1);
        } else {
            assert(esc_char(c) =~= seq![c]);
            assert(sub[0] == s[pos]);
            assert(s[pos] == c);
            assert forall|i: int| 0 <= i < er.len() + 1 implies s[pos + 1 + i] == (er
                + seq!['"'])[i] by {
                assert(sub[1 + i] == s[pos + 1 + i]);
                assert(sub[1 + i] == (e + seq!['"'])[1 + i]);
            }
            assert(s.subrange(pos + 1, pos + 1 + er.len() as int + 1) =~= er + seq!['"']);
            lemma_scan_jstring_complete(s, pos + 1, rest);
            assert(seq![s[pos]] + rest =~= n);
            assert(pos + 1 + er.len() + 1 == pos + e.len() + 1);
        }
    }
}

/// Scan a JSON string body starting at `pos`; `n` is the text's length.
pub fn scan_jstring_x(s: &str, pos: usize, n: usize) -> (r: Option<(String, usize)>)
    requires
        n == s@.len(),
        pos <= n,
    ensures
        match r {
            Some(te) => scan_jstring(s@, pos as int) == Some((te.0@, te.1 as int)) && te.1 <= n,
            None => scan_jstring(s@, pos as int) is None,
        },
    decreases n - pos,
{
    if pos >= n {
        return None;
    }
    let c = s.get_char(pos);
    if c == '"' {
        return Some((String::new(), pos + 1));
    }
    if c == '\\' {
        if n - pos >= 2 {
            let c2 = s.get_char(pos + 1);
            if c2 == '"' || c2 == '\\' {
                match scan_jstring_x(s, pos + 2, n) {
                    Some((t, e)) => {
                        let mut out = String::new();
                        push_char(&mut out, c2);
                        out.append(t.as_str());
                        proof {
                            assert(out@ =~= seq![s@[pos as int + 1]] + t@);
                        }
                        return Some((out, e));
                    },
                    None => {
                        return None;
                    },
                }
            } else {
                return None;
            }
        } else {
            return None;
        }
    }
    match scan_jstring_x(s, pos + 1, n) {
        Some((t, e)) => {
            let mut out = String::new();
            push_char(&mut out, c);
            out.append(t.as_str());
            proof {
                assert(out@ =~= seq![s@[pos as int]] + t@);
            }
            Some((out, e))
        },
        None => None,
    }
}

/// Whether the text of `lit` stands in `s` at position `pos`.
pub fn matches_at(s: &str, pos: usize, lit: &str) -> (r: bool)
    requires
        pos <= s@.len(),
    ensures
        r <==> (pos + lit@.len() <= s@.len() && s@.subrange(
            pos as int,
            pos as int + lit@.len() as int,
        ) == lit@),
{
    let n = s.unicode_len();
    let m = lit.unicode_len();
    if n - pos < m {
        return false;
    }
    let mut i: usize = 0;
    while i < m
        invariant
            n == s@.len(),
            m == lit@.len(),
            pos + m <= n,
            i <= m,
            forall|j: int| 0 <= j < i ==> s@[pos + j] == lit@[j],
        decreases m - i,
    {
        if s.get_char(pos + i) != lit.get_char(i) {
            proof {
                let sub = s@.subrange(pos as int, pos as int + m as int);
                assert(sub[i as int] == s@[pos + i]);
            }
            return false;
        }
        i += 1;
    }
    proof {
        assert(s@.subrange(pos as int, pos as int + m as int) =~= lit@);
    }
    true
}

/// The literal before the id value.
pub open spec fn lit_id() -> Seq<char> {
    seq!['{', '"', 'i', 'd', '"', ':', '"']
}

/// The literal between the id and key values.
pub open spec fn lit_key() -> Seq<char> {
    seq!['"', ',', '"', 'k', 'e', 'y', '"', ':', '"']
}

/// The literal between the key and name values.
pub open spec fn lit_name() -> Seq<char> {
    seq!['"', ',', '"', 'n', 'a', 'm', 'e', '"', ':', '"']
}

/// The literal closing a player object.
pub open spec fn lit_endobj() -> Seq<char> {
    seq!['"', '}']
}

/// The wire rendering of a player: its id and key in canonical hyphenated
/// form and its escaped name, in that fixed field order.
pub open spec fn player_json(id: Seq<u8>, key: Seq<u8>, name: Seq<char>) -> Seq<char> {
    lit_id() + uuid_chars(id) + lit_key() + uuid_chars(key) + lit_name() + json_escape(name)
        + lit_endobj()
}

/// Sizes and segment positions of a player rendering.
pub proof fn lemma_player_json_layout(id: Seq<u8>, key: Seq<u8>, name: Seq<char>)
    ensures
        player_json(id, key, name).len() == 100 + json_escape(name).len(),
        player_json(id, key, name).subrange(0, 7) == lit_id(),
        player_json(id, key, name).subrange(7, 43) == uuid_chars(id),
        player_json(id, key, name).subrange(43, 52) == lit_key(),
        player_json(id, key, name).subrange(52, 88) == uuid_chars(key),
        player_json(id, key, name).subrange(88, 98) == lit_name(),
        player_json(id, key, name).subrange(98, 98 + json_escape(name).len() as int)
            == json_escape(name),
        player_json(id, key, name)[player_json(id, key, name).len() - 2] == '"',
        player_json(id, key, name)[player_json(id, key, name).len() - 1] == '}',
{
    let s = player_json(id, key, name);
    assert(uuid_chars(id).len() == 36);
    assert(uuid_chars(key).len() == 36);
    assert(s.subrange(0, 7) =~= lit_id());
    assert(s.subrange(7, 43) =~= uuid_chars(id));
    assert(s.subrange(43, 52) =~= lit_key());
    assert(s.subrange(52, 88) =~= uuid_chars(key));
    assert(s.subrange(88, 98) =~= lit_name());
    assert(s.subrange(98, 98 + json_escape(name).len() as int) =~= json_escape(name));
}

/// Splitting a subrange at an interior point.
pub proof fn lemma_subrange_concat(s: Seq<char>, a: int, b: int, c: int)
    requires
        0 <= a <= b <= c <= s.len(),
    ensures
        s.subrange(a, c) == s.subrange(a, b) + s.subrange(b, c),
{
    assert(s.subrange(a, c) =~= s.subrange(a, b) + s.subrange(b, c));
}

/// Render a player to the wire format.
pub fn player_to_json(p: &Player) -> (r: String)
    requires
        p.wf(),
    ensures
        r@ == player_json(p.id@, p.key@, p.name@),
{
    let mut out = String::new();
    out.append("{\"id\":\"");
    let ids = p.id.hyphenated();
    out.append(ids.as_str());
    out.append("\",\"key\":\"");
    let keys = p.key.hyphenated();
    out.append(keys.as_str());
    out.append("\",\"name\":\"");
    escape_into(&mut out, p.name.as_str());
    out.append("\"}");
    proof {
        reveal_strlit("{\"id\":\"");
        reveal_strlit("\",\"key\":\"");
        reveal_strlit("\",\"name\":\"");
        reveal_strlit("\"}");
        assert("{\"id\":\""@ =~= lit_id());
        assert("\",\"key\":\""@ =~= lit_key());
        assert("\",\"name\":\""@ =~= lit_name());
        assert("\"}"@ =~= lit_endobj());
        assert(out@ =~= player_json(p.id@, p.key@, p.name@));
    }
    out
}

/// The body sent to create a player: the optional requested name, or null.
pub open spec fn player_input_json(name: Option<Seq<char>>) -> Seq<char> {
    match name {
        Option::Some(m) => seq!['{', '"', 'n', 'a', 'm', 'e', '"', ':', '"'] + json_escape(m)
            + seq!['"', '}'],
        Option::None => seq!['{', '"', 'n', 'a', 'm', 'e', '"', ':', 'n', 'u', 'l', 'l', '}'],
    }
}

/// Render the body of a player-creation request.
pub fn player_input_to_json(name: Option<&str>) -> (r: String)
    ensures
        r@ == player_input_json(match name {
            Option::Some(m) => Option::Some(m@),
            Option::None => Option::None,
        }),
{
    let mut out = String::new();
    match name {
        Option::Some(m) => {
            out.append("{\"name\":\"");
            escape_into(&mut out, m);
            out.append("\"}");
            proof {
                reveal_strlit("{\"name\":\"");
                reveal_strlit("\"}");
                assert("{\"name\":\""@ =~= seq!['{', '"', 'n', 'a', 'm', 'e', '"', ':', '"']);
                assert("\"}"@ =~= seq!['"', '}']);
                assert(out@ =~= player_input_json(Option::Some(m@)));
            }
        },
        Option::None => {
            out.append("{\"name\":null}");
            proof {
                reveal_strlit("{\"name\":null}");
                assert(out@ =~= player_input_json(Option::<Seq<char>>::None));
            }
        },
    }
    out
}

/// Parse a player object.  A successful parse accepted exactly the wire
/// rendering of the returned player; and any text that is the rendering of
/// a player parses back to that player, which makes render-then-parse the
/// identity on `id`, `key` and `name`.
#[verifier::rlimit(100)]
pub fn parse_player(s: &str) -> (r: Option<Player>)
    ensures
        r matches Some(p) ==> p.wf() && s@ == player_json(p.id@, p.key@, p.name@),
        forall|id: Seq<u8>, key: Seq<u8>, name: Seq<char>|
            id.len() == 16 && key.len() == 16 && s@ == #[trigger] player_json(id, key, name)
                ==> (r matches Some(p) && p.id@ == id && p.key@ == key && p.name@ == name),
{
    let n = s.unicode_len();
    proof {
        reveal_strlit("{\"id\":\"");
        reveal_strlit("\",\"key\":\"");
        reveal_strlit("\",\"name\":\"");
        assert("{\"id\":\""@ =~= lit_id());
        assert("\",\"key\":\""@ =~= lit_key());
        assert("\",\"name\":\""@ =~= lit_name());
        assert forall|id: Seq<u8>, key: Seq<u8>, name: Seq<char>|
            s@ == #[trigger] player_json(id, key, name) implies s@.len() == 100 + json_escape(
            name,
        ).len() by {
            lemma_player_json_layout(id, key, name);
        }
    }
    if n < 100 {
        return None;
    }
    if !matches_at(s, 0, "{\"id\":\"") {
        proof {
            assert forall|id: Seq<u8>, key: Seq<u8>, name: Seq<char>|
                !(id.len() == 16 && key.len() == 16 && s@ == #[trigger] player_json(
                    id,
                    key,
                    name,
                )) by {
                if id.len() == 16 && key.len() == 16 && s@ == player_json(id, key, name) {
                    lemma_player_json_layout(id, key, name);
                }
            }
        }
        return None;
    }
    let rid = Uid::parse_canon(s, 7);
    let uid_id = match rid {
        Some(u) => u,
        None => {
            proof {
                assert forall|id: Seq<u8>, key: Seq<u8>, name: Seq<char>|
                    !(id.len() == 16 && key.len() == 16 && s@ == #[trigger] player_json(
                        id,
                        key,
                        name,
                    )) by {
                    if id.len() == 16 && key.len() == 16 && s@ == player_json(id, key, name) {
                        lemma_player_json_layout(id, key, name);
                        lemma_canon_at_from_chars(s@, 7, id);
                        assert(canon_uuid_at(s@, 7));
                    }
                }
            }
            return None;
        },
    };
    if !matches_at(s, 43, "\",\"key\":\"") {
        proof {
            assert forall|id: Seq<u8>, key: Seq<u8>, name: Seq<char>|
                !(id.len() == 16 && key.len() == 16 && s@ == #[trigger] player_json(
                    id,
                    key,
                    name,
                )) by {
                if id.len() == 16 && key.len() == 16 && s@ == player_json(id, key, name) {
                    lemma_player_json_layout(id, key, name);
                }
            }
        }
        return None;
    }
    let rkey = Uid::parse_canon(s, 52);
    let uid_key = match rkey {
        Some(u) => u,
        None => {
            proof {
                assert forall|id: Seq<u8>, key: Seq<u8>, name: Seq<char>|
                    !(id.len() == 16 && key.len() == 16 && s@ == #[trigger] player_json(
                        id,
                        key,
                        name,
                    )) by {
                    if id.len() == 16 && key.len() == 16 && s@ == player_json(id, key, name) {
                        lemma_player_json_layout(id, key, name);
                        lemma_canon_at_from_chars(s@, 52, key);
                        assert(canon_uuid_at(s@, 52));
                    }
                }
            }
            return None;
        },
    };
    if !matches_at(s, 88, "\",\"name\":\"") {
        proof {
            assert forall|id: Seq<u8>, key: Seq<u8>, name: Seq<char>|
                !(id.len() == 16 && key.len() == 16 && s@ == #[trigger] player_json(
                    id,
                    key,
                    name,
                )) by {
                if id.len() == 16 && key.len() == 16 && s@ == player_json(id, key, name) {
                    lemma_player_json_layout(id, key, name);
                }
            }
        }
        return None;
    }
    let scanned = scan_jstring_x(s, 98, n);
    match scanned {
        Some((nm, e)) => {
            proof {
                lemma_scan_jstring_sound(s@, 98);
            }
            if e < n && n - e == 1 {
                let cb = s.get_char(e);
                if cb == '}' {
                    proof {
                        // Soundness: the consumed pieces tile the whole text.
                        lemma_subrange_concat(s@, 0, 7, 43);
                        lemma_subrange_concat(s@, 0, 43, 52);
                        lemma_subrange_concat(s@, 0, 52, 88);
                        lemma_subrange_concat(s@, 0, 88, 98);
                        lemma_subrange_concat(s@, 0, 98, e as int);
                        lemma_subrange_concat(s@, 0, e as int, n as int);
                        assert(s@.subrange(e as int, n as int) =~= seq!['}']);
                        assert(s@.subrange(0, n as int) =~= s@);
                        assert(json_escape(nm@) + seq!['"'] + seq!['}'] =~= json_escape(nm@)
                            + lit_endobj());
                        assert(s@ =~= lit_id() + uuid_chars(uid_id@) + lit_key() + uuid_chars(
                            uid_key@,
                        ) + lit_name() + json_escape(nm@) + lit_endobj());
                        // Completeness: any rendering equal to s has these fields.
                        assert forall|id: Seq<u8>, key: Seq<u8>, name: Seq<char>|
                            id.len() == 16 && key.len() == 16 && s@ == #[trigger] player_json(
                                id,
                                key,
                                name,
                            ) implies uuid_chars(id) == uuid_chars(uid_id@) && uuid_chars(key)
                            == uuid_chars(uid_key@) && name == nm@ by {
                            lemma_player_json_layout(id, key, name);
                            lemma_subrange_concat(s@, 98, 98 + json_escape(name).len() as int, n as int);
                            assert(s@.subrange(98 + json_escape(name).len() as int, n as int)
                                =~= lit_endobj());
                            assert(s@.subrange(98, 98 + json_escape(name).len() as int + 1) =~= json_escape(
                                name,
                            ) + seq!['"']);
                            lemma_scan_jstring_complete(s@, 98, name);
                            assert(scan_jstring(s@, 98) == Some((name, 98 + json_escape(name).len() as int + 1)));
                            assert(name == nm@);
                        }
                        assert forall|id: Seq<u8>, key: Seq<u8>, name: Seq<char>|
                            id.len() == 16 && key.len() == 16 && s@ == #[trigger] player_json(
                                id,
                                key,
                                name,
                            ) implies id == uid_id@ && key == uid_key@ && name == nm@ by {
                            lemma_uuid_injective(id, uid_id@);
                            lemma_uuid_injective(key, uid_key@);
                        }
                    }
                    return Some(Player { id: uid_id, key: uid_key, name: nm });
                }
                proof {
                    assert forall|id: Seq<u8>, key: Seq<u8>, name: Seq<char>|
                        !(id.len() == 16 && key.len() == 16 && s@ == #[trigger] player_json(
                            id,
                            key,
                            name,
                        )) by {
                        if id.len() == 16 && key.len() == 16 && s@ == player_json(id, key, name) {
                            lemma_player_json_layout(id, key, name);
                            lemma_subrange_concat(s@, 98, 98 + json_escape(name).len() as int, n as int);
                            assert(s@.subrange(98, 98 + json_escape(name).len() as int + 1) =~= json_escape(
                                name,
                            ) + seq!['"']);
                            lemma_scan_jstring_complete(s@, 98, name);
                            assert(e as int == 98 + json_escape(name).len() as int + 1);
                            assert(s@[e as int] == '}');
                        }
                    }
                }
                return None;
            }
            proof {
                assert forall|id: Seq<u8>, key: Seq<u8>, name: Seq<char>|
                    !(id.len() == 16 && key.len() == 16 && s@ == #[trigger] player_json(
                        id,
                        key,
                        name,
                    )) by {
                    if id.len() == 16 && key.len() == 16 && s@ == player_json(id, key, name) {
                        lemma_player_json_layout(id, key, name);
                        lemma_subrange_concat(s@, 98, 98 + json_escape(name).len() as int, n as int);
                        assert(s@.subrange(98, 98 + json_escape(name).len() as int + 1) =~= json_escape(
                            name,
                        ) + seq!['"']);
                        lemma_scan_jstring_complete(s@, 98, name);
                        assert(e as int == 98 + json_escape(name).len() as int + 1);
                    }
                }
            }
            None
        },
        None => {
            proof {
                assert forall|id: Seq<u8>, key: Seq<u8>, name: Seq<char>|
                    !(id.len() == 16 && key.len() == 16 && s@ == #[trigger] player_json(
                        id,
                        key,
                        name,
                    )) by {
                    if id.len() == 16 && key.len() == 16 && s@ == player_json(id, key, name) {
                        lemma_player_json_layout(id, key, name);
                        lemma_subrange_concat(s@, 98, 98 + json_escape(name).len() as int, n as int);
                        assert(s@.subrange(98, 98 + json_escape(name).len() as int + 1) =~= json_escape(
                            name,
                        ) + seq!['"']);
                        lemma_scan_jstring_complete(s@, 98, name);
                    }
                }
            }
            None
        },
    }
}

/// A character that may stand in a JSON number literal.
pub open spec fn num_char(c: char) -> bool {
    (48 <= c as u32 && c as u32 <= 57) || c == '.' || c == '-' || c == '+' || c == 'e' || c == 'E'
}

/// A plausible score literal: non-empty, made of number characters.
pub open spec fn score_text_wf(sc: crate::model::Score) -> bool {
    sc.score@.len() > 0 && forall|i: int| 0 <= i < sc.score@.len() ==> num_char(#[trigger] sc.score@[i])
}

/// The literal before the score value.
pub open spec fn lit_score() -> Seq<char> {
    seq!['{', '"', 's', 'c', 'o', 'r', 'e', '"', ':']
}

/// The literal between the score and player values.
pub open spec fn lit_player() -> Seq<char> {
    seq![',', '"', 'p', 'l', 'a', 'y', 'e', 'r', '"', ':', '"']
}

/// The literal between the player value and an absent metadata field, up to
/// the opening quote of the timestamp.
pub open spec fn lit_meta_null() -> Seq<char> {
    seq![',', '"', 'm', 'e', 't', 'a', '"', ':', 'n', 'u', 'l', 'l', ',', '"', 't', 'i', 'm', 'e', 's', 't', 'a', 'm', 'p', '"', ':', '"']
}

/// The literal opening a present metadata string.
pub open spec fn lit_meta_open() -> Seq<char> {
    seq![',', '"', 'm', 'e', 't', 'a', '"', ':', '"']
}

/// The literal between the metadata and timestamp values.
pub open spec fn lit_ts() -> Seq<char> {
    seq![',', '"', 't', 'i', 'm', 'e', 's', 't', 'a', 'm', 'p', '"', ':', '"']
}

/// The wire rendering of one score entry, in the server's fixed field
/// order: score, player, meta (a string or null), timestamp.
pub open spec fn score_json(sc: crate::model::Score) -> Seq<char> {
    lit_score() + sc.score@ + lit_player() + json_escape(sc.player@) + seq!['"'] + (match sc.meta {
        Option::None => lit_meta_null(),
        Option::Some(m) => lit_meta_open() + json_escape(m@) + seq!['"'] + lit_ts(),
    }) + json_escape(sc.timestamp@) + lit_endobj()
}

/// Offset of the end of the score literal inside a rendered entry.
pub open spec fn sj_num_end(sc: crate::model::Score) -> int {
    9 + sc.score@.len() as int
}

/// Offset just past the player string's closing quote.
pub open spec fn sj_player_end(sc: crate::model::Score) -> int {
    sj_num_end(sc) + 11 + json_escape(sc.player@).len() as int + 1
}

/// Offset of the first character of the escaped timestamp.
pub open spec fn sj_ts_start(sc: crate::model::Score) -> int {
    match sc.meta {
        Option::None => sj_player_end(sc) + 26,
        Option::Some(m) => sj_player_end(sc) + 9 + json_escape(m@).len() as int + 1 + 14,
    }
}

/// The segments of a rendered entry found at position `pos` of a text.
#[verifier::rlimit(100)]
pub proof fn lemma_score_json_at(s: Seq<char>, pos: int, sc: crate::model::Score)
    requires
        0 <= pos,
        pos + score_json(sc).len() <= s.len(),
        s.subrange(pos, pos + score_json(sc).len() as int) == score_json(sc),
    ensures
        score_json(sc).len() == sj_ts_start(sc) + json_escape(sc.timestamp@).len() as int + 2,
        s.subrange(pos, pos + 9) == lit_score(),
        s.subrange(pos + 9, pos + sj_num_end(sc)) == sc.score@,
        s.subrange(pos + sj_num_end(sc), pos + sj_num_end(sc) + 11) == lit_player(),
        s.subrange(pos + sj_num_end(sc) + 11, pos + sj_player_end(sc)) == json_escape(sc.player@)
            + seq!['"'],
        sc.meta is None ==> s.subrange(pos + sj_player_end(sc), pos + sj_player_end(sc) + 26)
            == lit_meta_null(),
        sc.meta matches Some(m) ==> {
            &&& s.subrange(pos + sj_player_end(sc), pos + sj_player_end(sc) + 9) == lit_meta_open()
            &&& s.subrange(
                pos + sj_player_end(sc) + 9,
                pos + sj_player_end(sc) + 9 + json_escape(m@).len() as int + 1,
            ) == json_escape(m@) + seq!['"']
            &&& s.subrange(
                pos + sj_player_end(sc) + 9 + json_escape(m@).len() as int + 1,
                pos + sj_ts_start(sc),
            ) == lit_ts()
        },
        s.subrange(pos + sj_ts_start(sc), pos + sj_ts_start(sc) + json_escape(
            sc.timestamp@,
        ).len() as int + 1) == json_escape(sc.timestamp@) + seq!['"'],
        s[pos + score_json(sc).len() - 1] == '}',
{
    let t = score_json(sc);
    assert(forall|i: int| 0 <= i < t.len() ==> s[pos + i] == #[trigger] t[i]);
    assert forall|a: int, b: int|
        0 <= a && a <= b && b <= t.len() implies s.subrange(pos + a, pos + b) =~= t.subrange(
        a,
        b,
    ) by {
        assert forall|i: int| 0 <= i < b - a implies s.subrange(pos + a, pos + b)[i] == t.subrange(
            a,
            b,
        )[i] by {
            assert(s[pos + a + i] == t[a + i]);
        }
    }
    match sc.meta {
        Option::None => {
            assert(t.subrange(0, 9) =~= lit_score());
            assert(t.subrange(9, sj_num_end(sc)) =~= sc.score@);
            assert(t.subrange(sj_num_end(sc), sj_num_end(sc) + 11) =~= lit_player());
            assert(t.subrange(sj_num_end(sc) + 11, sj_player_end(sc)) =~= json_escape(sc.player@)
                + seq!['"']);
            assert(t.subrange(sj_player_end(sc), sj_player_end(sc) + 26) =~= lit_meta_null());
            assert(t.subrange(sj_ts_start(sc), sj_ts_start(sc) + json_escape(
                sc.timestamp@,
            ).len() as int + 1) =~= json_escape(sc.timestamp@) + seq!['"']);
            assert(t[t.len() - 1] == '}');
        },
        Option::Some(m) => {
            assert(t.subrange(0, 9) =~= lit_score());
            assert(t.subrange(9, sj_num_end(sc)) =~= sc.score@);
            assert(t.subrange(sj_num_end(sc), sj_num_end(sc) + 11) =~= lit_player());
            assert(t.subrange(sj_num_end(sc) + 11, sj_player_end(sc)) =~= json_escape(sc.player@)
                + seq!['"']);
            assert(t.subrange(sj_player_end(sc), sj_player_end(sc) + 9) =~= lit_meta_open());
            assert(t.subrange(
                sj_player_end(sc) + 9,
                sj_player_end(sc) + 9 + json_escape(m@).len() as int + 1,
            ) =~= json_escape(m@) + seq!['"']);
            assert(t.subrange(
                sj_player_end(sc) + 9 + json_escape(m@).len() as int + 1,
                sj_ts_start(sc),
            ) =~= lit_ts());
            assert(t.subrange(sj_ts_start(sc), sj_ts_start(sc) + json_escape(
                sc.timestamp@,
            ).len() as int + 1) =~= json_escape(sc.timestamp@) + seq!['"']);
            assert(t[t.len() - 1] == '}');
        },
    }
    assert(s[pos + t.len() - 1] == t[t.len() - 1]);
}

/// Whether the rendering of `sc` stands at position `pos` of `s`.
pub open spec fn obj_at(s: Seq<char>, pos: int, sc: crate::model::Score) -> bool {
    &&& score_text_wf(sc)
    &&& 0 <= pos
    &&& pos + score_json(sc).len() <= s.len()
    &&& s.subrange(pos, pos + score_json(sc).len() as int) == score_json(sc)
}

/// Where the opening literal is absent, no entry stands here.
proof fn lemma_obj_no_lit_score(s: Seq<char>, pos: int)
    requires
        !(pos + 9 <= s.len() && s.subrange(pos, pos + 9) == lit_score()),
        0 <= pos,
    ensures
        forall|sc: crate::model::Score| !obj_at(s, pos, sc),
{
    assert forall|sc: crate::model::Score| !obj_at(s, pos, sc) by {
        if obj_at(s, pos, sc) {
            lemma_score_json_at(s, pos, sc);
        }
    }
}

/// Where no number literal starts after the opening literal, no entry
/// stands here.
proof fn lemma_obj_no_num(s: Seq<char>, pos: int)
    requires
        0 <= pos,
        pos + 9 == s.len() || !num_char(s[pos + 9]),
    ensures
        forall|sc: crate::model::Score| !obj_at(s, pos, sc),
{
    assert forall|sc: crate::model::Score| !obj_at(s, pos, sc) by {
        if obj_at(s, pos, sc) {
            lemma_score_json_at(s, pos, sc);
            assert(s.subrange(pos + 9, pos + sj_num_end(sc))[0] == s[pos + 9]);
            assert(s[pos + 9] == sc.score@[0]);
            assert(num_char(sc.score@[0]));
            assert(pos + 9 < pos + sj_num_end(sc) <= s.len());
        }
    }
}

/// The maximal number scan inside a rendered entry stops exactly at the end
/// of its score literal.
proof fn lemma_obj_pin_num(
    s: Seq<char>,
    pos: int,
    sc: crate::model::Score,
    numv: Seq<char>,
    p2: int,
)
    requires
        obj_at(s, pos, sc),
        pos + 9 < p2 <= s.len(),
        numv.len() == p2 - (pos + 9),
        s.subrange(pos + 9, p2) == numv,
        forall|i: int| 0 <= i < numv.len() ==> num_char(#[trigger] numv[i]),
        p2 == s.len() || !num_char(s[p2]),
    ensures
        p2 == pos + sj_num_end(sc),
        numv == sc.score@,
{
    lemma_score_json_at(s, pos, sc);
    let q2 = pos + sj_num_end(sc);
    assert forall|j: int| pos + 9 <= j < q2 implies num_char(s[j]) by {
        assert(s.subrange(pos + 9, q2)[j - (pos + 9)] == s[j]);
        assert(s[j] == sc.score@[j - (pos + 9)]);
    }
    assert(s.subrange(pos + sj_num_end(sc), pos + sj_num_end(sc) + 11)[0] == s[q2]);
    assert(s[q2] == ',');
    assert(!num_char(','));
    if p2 < q2 {
        assert(num_char(s[p2]));
        assert(false);
    }
    if p2 > q2 {
        assert(numv[q2 - (pos + 9)] == s[q2]);
        assert(num_char(s[q2]));
        assert(false);
    }
    assert(numv =~= sc.score@);
}

/// The player scan inside a rendered entry finds the player name.
proof fn lemma_obj_pin_player(s: Seq<char>, pos: int, sc: crate::model::Score)
    requires
        obj_at(s, pos, sc),
    ensures
        s.subrange(pos + sj_num_end(sc), pos + sj_num_end(sc) + 11) == lit_player(),
        scan_jstring(s, pos + sj_num_end(sc) + 11) == Some(
            (sc.player@, pos + sj_player_end(sc)),
        ),
{
    lemma_score_json_at(s, pos, sc);
    lemma_scan_jstring_complete(s, pos + sj_num_end(sc) + 11, sc.player@);
}

/// The tail of a rendered entry: the meta field decides which literal
/// stands after the player, and the timestamp scan ends just before the
/// closing brace.
proof fn lemma_obj_pin_tail(s: Seq<char>, pos: int, sc: crate::model::Score)
    requires
        obj_at(s, pos, sc),
    ensures
        sc.meta is None ==> s.subrange(pos + sj_player_end(sc), pos + sj_player_end(sc) + 26)
            == lit_meta_null(),
        sc.meta matches Some(m) ==> {
            &&& s[pos + sj_player_end(sc) + 8] == '"'
            &&& s.subrange(pos + sj_player_end(sc), pos + sj_player_end(sc) + 9) == lit_meta_open()
            &&& scan_jstring(s, pos + sj_player_end(sc) + 9) == Some(
                (m@, pos + sj_player_end(sc) + 9 + json_escape(m@).len() as int + 1),
            )
            &&& s.subrange(
                pos + sj_player_end(sc) + 9 + json_escape(m@).len() as int + 1,
                pos + sj_ts_start(sc),
            ) == lit_ts()
        },
        scan_jstring(s, pos + sj_ts_start(sc)) == Some(
            (sc.timestamp@, pos + score_json(sc).len() - 1),
        ),
        s[pos + score_json(sc).len() - 1] == '}',
{
    lemma_score_json_at(s, pos, sc);
    match sc.meta {
        Option::None => {
            lemma_scan_jstring_complete(s, pos + sj_ts_start(sc), sc.timestamp@);
        },
        Option::Some(m) => {
            assert(s.subrange(pos + sj_player_end(sc), pos + sj_player_end(sc) + 9)[8] == s[pos
                + sj_player_end(sc) + 8]);
            lemma_scan_jstring_complete(s, pos + sj_player_end(sc) + 9, m@);
            lemma_scan_jstring_complete(s, pos + sj_ts_start(sc), sc.timestamp@);
        },
    }
}

/// The comma-separated renderings of a sequence of scores.
pub open spec fn scores_json_inner(ss: Seq<crate::model::Score>) -> Seq<char>
    decreases ss.len(),
{
    if ss.len() == 0 {
        Seq::empty()
    } else if ss.len() == 1 {
        score_json(ss[0])
    } else {
        score_json(ss[0]) + seq![','] + scores_json_inner(ss.drop_first())
    }
}

/// The wire rendering of a leaderboard snapshot: the entries, in order,
/// inside one array.
pub open spec fn scores_json(ss: Seq<crate::model::Score>) -> Seq<char> {
    seq!['['] + scores_json_inner(ss) + seq![']']
}

/// Appending an entry appends its rendering, after a comma when the list
/// was not empty.
pub proof fn lemma_inner_push(ss: Seq<crate::model::Score>, sc: crate::model::Score)
    ensures
        scores_json_inner(ss.push(sc)) == if ss.len() == 0 {
            score_json(sc)
        } else {
            scores_json_inner(ss) + seq![','] + score_json(sc)
        },
    decreases ss.len(),
{
    let p = ss.push(sc);
    if ss.len() == 0 {
        assert(p.len() == 1);
        assert(p[0] == sc);
    } else {
        assert(p.len() == ss.len() + 1);
        assert(p[0] == ss[0]);
        assert(p.drop_first() =~= ss.drop_first().push(sc));
        lemma_inner_push(ss.drop_first(), sc);
        if ss.len() == 1 {
            assert(scores_json_inner(p) =~= scores_json_inner(ss) + seq![','] + score_json(sc));
        } else {
            assert(scores_json_inner(p) =~= scores_json_inner(ss) + seq![','] + score_json(sc));
        }
    }
}

/// Every entry has a plausible score literal.
pub open spec fn all_wf(ss: Seq<crate::model::Score>) -> bool {
    forall|j: int| 0 <= j < ss.len() ==> score_text_wf(#[trigger] ss[j])
}

/// Entry-wise agreement of the observable fields of two score sequences.
pub open spec fn views_match(a: Seq<crate::model::Score>, b: Seq<crate::model::Score>) -> bool {
    &&& a.len() == b.len()
    &&& forall|j: int|
        0 <= j < a.len() ==> {
            &&& (#[trigger] a[j]).score@ == b[j].score@
            &&& a[j].player@ == b[j].player@
            &&& crate::model::opt_view(a[j].meta) == crate::model::opt_view(b[j].meta)
            &&& a[j].timestamp@ == b[j].timestamp@
        }
}

/// Where entry `k` starts inside a rendered snapshot.
pub open spec fn entry_pos(ss: Seq<crate::model::Score>, k: int) -> int
    decreases k,
{
    if k <= 0 {
        1
    } else {
        entry_pos(ss, k - 1) + score_json(ss[k - 1]).len() as int + 1
    }
}

proof fn lemma_entry_shift(ss: Seq<crate::model::Score>, k: int)
    requires
        1 <= k < ss.len(),
    ensures
        entry_pos(ss, k) == entry_pos(ss.drop_first(), k - 1) + score_json(ss[0]).len() + 1,
    decreases k,
{
    if k == 1 {
        assert(entry_pos(ss, 0) == 1);
        assert(entry_pos(ss.drop_first(), 0) == 1);
        assert(entry_pos(ss, 1) == 1 + score_json(ss[0]).len() + 1);
    } else {
        lemma_entry_shift(ss, k - 1);
        assert(ss[k - 1] == ss.drop_first()[k - 2]);
        assert(entry_pos(ss, k) == entry_pos(ss, k - 1) + score_json(ss[k - 1]).len() + 1);
        assert(entry_pos(ss.drop_first(), k - 1) == entry_pos(ss.drop_first(), k - 2) + score_json(
            ss.drop_first()[k - 2],
        ).len() + 1);
    }
}

/// Entry `k` of a rendered snapshot stands at `entry_pos`, followed by a
/// comma, or by the closing bracket at the very end.
proof fn lemma_scores_json_entries(ss: Seq<crate::model::Score>, k: int)
    requires
        0 <= k < ss.len(),
    ensures
        ({
            let t = scores_json(ss);
            let p = entry_pos(ss, k);
            let l = score_json(ss[k]).len() as int;
            &&& 1 <= p
            &&& p + l + 1 <= t.len()
            &&& t.subrange(p, p + l) == score_json(ss[k])
            &&& (k + 1 < ss.len() ==> t[p + l] == ',')
            &&& (k + 1 == ss.len() ==> p + l + 1 == t.len() && t[p + l] == ']')
        }),
    decreases k,
{
    let t = scores_json(ss);
    let u = scores_json_inner(ss);
    let l0 = score_json(ss[0]).len() as int;
    if k == 0 {
        if ss.len() == 1 {
            assert(u == score_json(ss[0]));
            assert(t.subrange(1, 1 + l0) =~= score_json(ss[0]));
            assert(t[1 + l0] == ']');
        } else {
            assert(u == score_json(ss[0]) + seq![','] + scores_json_inner(ss.drop_first()));
            assert(t.subrange(1, 1 + l0) =~= score_json(ss[0]));
            assert(t[1 + l0] == ',');
        }
    } else {
        lemma_scores_json_entries(ss.drop_first(), k - 1);
        lemma_entry_shift(ss, k);
        let dd = ss.drop_first();
        let td = scores_json(dd);
        let ud = scores_json_inner(dd);
        assert(u == score_json(ss[0]) + seq![','] + ud);
        assert forall|j: int| 1 <= j <= td.len() - 1 implies t[l0 + 1 + j] == td[j] by {
            if j < td.len() - 1 {
                assert(td[j] == ud[j - 1]);
                assert(t[l0 + 1 + j] == u[l0 + j]);
                assert(u[l0 + j] == ud[j - 1]);
            } else {
                assert(td[j] == ']');
                assert(l0 + 1 + j == t.len() - 1);
            }
        }
        let pd = entry_pos(dd, k - 1);
        let p = entry_pos(ss, k);
        let l = score_json(ss[k]).len() as int;
        assert(ss[k] == dd[k - 1]);
        assert(p == pd + l0 + 1);
        assert(t.len() == td.len() + l0 + 1);
        assert forall|m: int| 0 <= m < l implies t.subrange(p, p + l)[m] == score_json(ss[k])[m] by {
            assert(t[p + m] == td[pd + m]);
            assert(td.subrange(pd, pd + l)[m] == td[pd + m]);
        }
        assert(t.subrange(p, p + l) =~= score_json(ss[k]));
        assert(t[p + l] == td[pd + l]);
    }
}

/// Scan a number literal starting at `pos`; `n` is the text's length.
pub fn scan_number(s: &str, pos: usize, n: usize) -> (r: Option<(String, usize)>)
    requires
        n == s@.len(),
        pos <= n,
    ensures
        r matches Some(te) ==> {
            &&& pos < te.1 <= n
            &&& te.0@.len() == te.1 - pos
            &&& s@.subrange(pos as int, te.1 as int) == te.0@
            &&& forall|i: int| 0 <= i < te.0@.len() ==> num_char(#[trigger] te.0@[i])
            &&& (te.1 == n || !num_char(s@[te.1 as int]))
        },
        r is None ==> pos == n || !num_char(s@[pos as int]),
{
    let mut out = String::new();
    let mut i: usize = pos;
    while i < n && num_char_x(s.get_char(i))
        invariant
            n == s@.len(),
            pos <= i <= n,
            out@ == s@.subrange(pos as int, i as int),
            forall|j: int| 0 <= j < out@.len() ==> num_char(#[trigger] out@[j]),
        decreases n - i,
    {
        push_char(&mut out, s.get_char(i));
        proof {
            assert(out@ =~= s@.subrange(pos as int, i as int + 1));
        }
        i += 1;
    }
    if i == pos {
        None
    } else {
        Some((out, i))
    }
}

/// Whether `c` may stand in a JSON number literal.
fn num_char_x(c: char) -> (r: bool)
    ensures
        r == num_char(c),
{
    let v = c as u32;
    (48 <= v && v <= 57) || c == '.' || c == '-' || c == '+' || c == 'e' || c == 'E'
}

/// Parse one score object starting at `pos`.  A successful parse accepted
/// exactly the wire rendering of the returned entry.
#[verifier::rlimit(100)]
pub fn parse_score_obj(s: &str, pos: usize, n: usize) -> (r: Option<(crate::model::Score, usize)>)
    requires
        n == s@.len(),
        pos <= n,
    ensures
        r matches Some(te) ==> pos < te.1 <= n && s@.subrange(pos as int, te.1 as int)
            == score_json(te.0) && score_text_wf(te.0),
        forall|sc: crate::model::Score|
            obj_at(s@, pos as int, sc) ==> (r matches Some(te) && te.1 == pos + score_json(
                sc,
            ).len() && te.0.score@ == sc.score@ && te.0.player@ == sc.player@
                && crate::model::opt_view(te.0.meta) == crate::model::opt_view(sc.meta)
                && te.0.timestamp@ == sc.timestamp@),
{
    proof {
        reveal_strlit("{\"score\":");
        reveal_strlit(",\"player\":\"");
        reveal_strlit(",\"meta\":null,\"timestamp\":\"");
        reveal_strlit(",\"meta\":\"");
        reveal_strlit(",\"timestamp\":\"");
        assert("{\"score\":"@ =~= lit_score());
        assert(",\"player\":\""@ =~= lit_player());
        assert(",\"meta\":null,\"timestamp\":\""@ =~= lit_meta_null());
        assert(",\"meta\":\""@ =~= lit_meta_open());
        assert(",\"timestamp\":\""@ =~= lit_ts());
    }
    if !matches_at(s, pos, "{\"score\":") {
        proof {
            lemma_obj_no_lit_score(s@, pos as int);
        }
        return None;
    }
    let p1 = pos + 9;
    let (num, p2) = match scan_number(s, p1, n) {
        Some(te) => te,
        None => {
            proof {
                lemma_obj_no_num(s@, pos as int);
            }
            return None;
        },
    };
    if !matches_at(s, p2, ",\"player\":\"") {
        proof {
            assert forall|sc: crate::model::Score| !obj_at(s@, pos as int, sc) by {
                if obj_at(s@, pos as int, sc) {
                    lemma_obj_pin_num(s@, pos as int, sc, num@, p2 as int);
                    lemma_obj_pin_player(s@, pos as int, sc);
                }
            }
        }
        return None;
    }
    let p3 = p2 + 11;
    let (pl, p4) = match scan_jstring_x(s, p3, n) {
        Some(te) => te,
        None => {
            proof {
                assert forall|sc: crate::model::Score| !obj_at(s@, pos as int, sc) by {
                    if obj_at(s@, pos as int, sc) {
                        lemma_obj_pin_num(s@, pos as int, sc, num@, p2 as int);
                        lemma_obj_pin_player(s@, pos as int, sc);
                    }
                }
            }
            return None;
        },
    };
    proof {
        lemma_scan_jstring_sound(s@, p3 as int);
    }
    if matches_at(s, p4, ",\"meta\":null,\"timestamp\":\"") {
        let p5 = p4 + 26;
        let (ts, p6) = match scan_jstring_x(s, p5, n) {
            Some(te) => te,
            None => {
                proof {
                    assert forall|sc: crate::model::Score| !obj_at(s@, pos as int, sc) by {
                        if obj_at(s@, pos as int, sc) {
                            lemma_obj_pin_num(s@, pos as int, sc, num@, p2 as int);
                            lemma_obj_pin_player(s@, pos as int, sc);
                            lemma_obj_pin_tail(s@, pos as int, sc);
                        }
                    }
                }
                return None;
            },
        };
        proof {
            lemma_scan_jstring_sound(s@, p5 as int);
        }
        if p6 < n && s.get_char(p6) == '}' {
            let sc = crate::model::Score { score: num, player: pl, meta: None, timestamp: ts };
            proof {
                lemma_subrange_concat(s@, pos as int, p1 as int, p2 as int);
                lemma_subrange_concat(s@, pos as int, p2 as int, p3 as int);
                lemma_subrange_concat(s@, pos as int, p3 as int, p4 as int);
                lemma_subrange_concat(s@, pos as int, p4 as int, p5 as int);
                lemma_subrange_concat(s@, pos as int, p5 as int, p6 as int);
                lemma_subrange_concat(s@, pos as int, p6 as int, p6 as int + 1);
                assert(s@.subrange(p6 as int, p6 as int + 1) =~= seq!['}']);
                assert(s@.subrange(p3 as int, p4 as int) == json_escape(pl@) + seq!['"']);
                assert(s@.subrange(p5 as int, p6 as int) == json_escape(ts@) + seq!['"']);
                assert(s@.subrange(pos as int, p6 as int + 1) =~= score_json(sc));
                assert forall|sc2: crate::model::Score|
                    obj_at(s@, pos as int, sc2) implies p6 + 1 == pos + score_json(sc2).len()
                    && sc.score@ == sc2.score@ && sc.player@ == sc2.player@
                    && crate::model::opt_view(sc.meta) == crate::model::opt_view(sc2.meta)
                    && sc.timestamp@ == sc2.timestamp@ by {
                    lemma_obj_pin_num(s@, pos as int, sc2, num@, p2 as int);
                    lemma_obj_pin_player(s@, pos as int, sc2);
                    lemma_obj_pin_tail(s@, pos as int, sc2);
                    if sc2.meta is Some {
                        assert(s@.subrange(p4 as int, p4 as int + 26)[8] == s@[p4 + 8]);
                        assert(false);
                    }
                }
            }
            return Some((sc, p6 + 1));
        }
        proof {
            assert forall|sc: crate::model::Score| !obj_at(s@, pos as int, sc) by {
                if obj_at(s@, pos as int, sc) {
                    lemma_obj_pin_num(s@, pos as int, sc, num@, p2 as int);
                    lemma_obj_pin_player(s@, pos as int, sc);
                    lemma_obj_pin_tail(s@, pos as int, sc);
                    if sc.meta is Some {
                        assert(s@.subrange(p4 as int, p4 as int + 26)[8] == s@[p4 + 8]);
                        assert(false);
                    }
                }
            }
        }
        return None;
    }
    if matches_at(s, p4, ",\"meta\":\"") {
        let p5 = p4 + 9;
        let (mt, p6) = match scan_jstring_x(s, p5, n) {
            Some(te) => te,
            None => {
                proof {
                    assert forall|sc: crate::model::Score| !obj_at(s@, pos as int, sc) by {
                        if obj_at(s@, pos as int, sc) {
                            lemma_obj_pin_num(s@, pos as int, sc, num@, p2 as int);
                            lemma_obj_pin_player(s@, pos as int, sc);
                            lemma_obj_pin_tail(s@, pos as int, sc);
                        }
                    }
                }
                return None;
            },
        };
        proof {
            lemma_scan_jstring_sound(s@, p5 as int);
        }
        if !matches_at(s, p6, ",\"timestamp\":\"") {
            proof {
                assert forall|sc: crate::model::Score| !obj_at(s@, pos as int, sc) by {
                    if obj_at(s@, pos as int, sc) {
                        lemma_obj_pin_num(s@, pos as int, sc, num@, p2 as int);
                        lemma_obj_pin_player(s@, pos as int, sc);
                        lemma_obj_pin_tail(s@, pos as int, sc);
                    }
                }
            }
            return None;
        }
        let p7 = p6 + 14;
        let (ts, p8) = match scan_jstring_x(s, p7, n) {
            Some(te) => te,
            None => {
                proof {
                    assert forall|sc: crate::model::Score| !obj_at(s@, pos as int, sc) by {
                        if obj_at(s@, pos as int, sc) {
                            lemma_obj_pin_num(s@, pos as int, sc, num@, p2 as int);
                            lemma_obj_pin_player(s@, pos as int, sc);
                            lemma_obj_pin_tail(s@, pos as int, sc);
                        }
                    }
                }
                return None;
            },
        };
        proof {
            lemma_scan_jstring_sound(s@, p7 as int);
        }
        if p8 < n && s.get_char(p8) == '}' {
            let sc = crate::model::Score { score: num, player: pl, meta: Some(mt), timestamp: ts };
            proof {
                lemma_subrange_concat(s@, pos as int, p1 as int, p2 as int);
                lemma_subrange_concat(s@, pos as int, p2 as int, p3 as int);
                lemma_subrange_concat(s@, pos as int, p3 as int, p4 as int);
                lemma_subrange_concat(s@, pos as int, p4 as int, p5 as int);
                lemma_subrange_concat(s@, pos as int, p5 as int, p6 as int);
                lemma_subrange_concat(s@, pos as int, p6 as int, p7 as int);
                lemma_subrange_concat(s@, pos as int, p7 as int, p8 as int);
                lemma_subrange_concat(s@, pos as int, p8 as int, p8 as int + 1);
                assert(s@.subrange(p8 as int, p8 as int + 1) =~= seq!['}']);
                assert(s@.subrange(p3 as int, p4 as int) == json_escape(pl@) + seq!['"']);
                assert(s@.subrange(p5 as int, p6 as int) == json_escape(mt@) + seq!['"']);
                assert(s@.subrange(p7 as int, p8 as int) == json_escape(ts@) + seq!['"']);
                assert(s@.subrange(pos as int, p8 as int + 1) =~= score_json(sc));
                assert forall|sc2: crate::model::Score|
                    obj_at(s@, pos as int, sc2) implies p8 + 1 == pos + score_json(sc2).len()
                    && sc.score@ == sc2.score@ && sc.player@ == sc2.player@
                    && crate::model::opt_view(sc.meta) == crate::model::opt_view(sc2.meta)
                    && sc.timestamp@ == sc2.timestamp@ by {
                    lemma_obj_pin_num(s@, pos as int, sc2, num@, p2 as int);
                    lemma_obj_pin_player(s@, pos as int, sc2);
                    lemma_obj_pin_tail(s@, pos as int, sc2);
                }
            }
            return Some((sc, p8 + 1));
        }
        proof {
            assert forall|sc: crate::model::Score| !obj_at(s@, pos as int, sc) by {
                if obj_at(s@, pos as int, sc) {
                    lemma_obj_pin_num(s@, pos as int, sc, num@, p2 as int);
                    lemma_obj_pin_player(s@, pos as int, sc);
                    lemma_obj_pin_tail(s@, pos as int, sc);
                }
            }
        }
        return None;
    }
    proof {
        assert forall|sc: crate::model::Score| !obj_at(s@, pos as int, sc) by {
            if obj_at(s@, pos as int, sc) {
                lemma_obj_pin_num(s@, pos as int, sc, num@, p2 as int);
                lemma_obj_pin_player(s@, pos as int, sc);
                lemma_obj_pin_tail(s@, pos as int, sc);
                if sc.meta is Some {
                    assert(s@.subrange(p4 as int, p4 as int + 26)[8] == s@[p4 + 8]);
                }
            }
        }
    }
    None
}

/// Parse a leaderboard snapshot.  A successful parse accepted exactly the
/// wire rendering of the returned entries, in their order: what comes back
/// is the server's sequence, unchanged and unsorted.
#[verifier::rlimit(100)]
pub fn parse_scores(s: &str) -> (r: Option<Vec<crate::model::Score>>)
    ensures
        r matches Some(v) ==> s@ == scores_json(v@) && (forall|i: int|
            0 <= i < v@.len() ==> score_text_wf(#[trigger] v@[i])),
        forall|ss: Seq<crate::model::Score>|
            s@ == #[trigger] scores_json(ss) && all_wf(ss) ==> (r matches Some(v) && views_match(
                v@,
                ss,
            )),
{
    let n = s.unicode_len();
    if n < 2 {
        proof {
            assert forall|ss: Seq<crate::model::Score>|
                !(s@ == #[trigger] scores_json(ss) && all_wf(ss)) by {
                assert(scores_json(ss).len() >= 2);
            }
        }
        return None;
    }
    if s.get_char(0) != '[' {
        proof {
            assert forall|ss: Seq<crate::model::Score>|
                !(s@ == #[trigger] scores_json(ss) && all_wf(ss)) by {
                assert(scores_json(ss)[0] == '[');
            }
        }
        return None;
    }
    if s.get_char(1) == ']' {
        if n == 2 {
            let v: Vec<crate::model::Score> = Vec::new();
            proof {
                assert(scores_json_inner(v@) =~= Seq::<char>::empty());
                assert(s@ =~= scores_json(v@));
                assert forall|ss: Seq<crate::model::Score>|
                    s@ == #[trigger] scores_json(ss) && all_wf(ss) implies views_match(
                    v@,
                    ss,
                ) by {
                    if ss.len() > 0 {
                        lemma_scores_json_entries(ss, 0);
                        assert(scores_json(ss).subrange(1, 1 + score_json(ss[0]).len() as int)[0]
                            == scores_json(ss)[1]);
                        assert(score_json(ss[0])[0] == '{');
                        assert(false);
                    }
                }
            }
            return Some(v);
        }
        proof {
            assert forall|ss: Seq<crate::model::Score>|
                !(s@ == #[trigger] scores_json(ss) && all_wf(ss)) by {
                if s@ == scores_json(ss) && all_wf(ss) {
                    if ss.len() == 0 {
                        assert(scores_json_inner(ss) =~= Seq::<char>::empty());
                        assert(scores_json(ss).len() == 2);
                    } else {
                        lemma_scores_json_entries(ss, 0);
                        assert(scores_json(ss).subrange(1, 1 + score_json(ss[0]).len() as int)[0]
                            == scores_json(ss)[1]);
                        assert(score_json(ss[0])[0] == '{');
                    }
                }
            }
        }
        return None;
    }
    let mut acc: Vec<crate::model::Score> = Vec::new();
    let mut i: usize = 1;
    proof {
        assert forall|ss: Seq<crate::model::Score>|
            s@ == #[trigger] scores_json(ss) && all_wf(ss) implies ss.len() > 0 by {
            if ss.len() == 0 {
                assert(scores_json_inner(ss) =~= Seq::<char>::empty());
                assert(scores_json(ss)[1] == ']');
            }
        }
    }
    loop
        invariant
            n == s@.len(),
            1 <= i <= n,
            s@[0] == '[',
            acc@.len() > 0 ==> s@.subrange(0, i as int) == seq!['['] + scores_json_inner(acc@)
                + seq![','],
            acc@.len() == 0 ==> i == 1,
            forall|j: int| 0 <= j < acc@.len() ==> score_text_wf(#[trigger] acc@[j]),
            forall|ss: Seq<crate::model::Score>|
                s@ == #[trigger] scores_json(ss) && all_wf(ss) ==> {
                    &&& acc@.len() < ss.len()
                    &&& views_match(acc@, ss.subrange(0, acc@.len() as int))
                    &&& i as int == entry_pos(ss, acc@.len() as int)
                },
        decreases n - i,
    {
        let (sc, e) = match parse_score_obj(s, i, n) {
            Some(te) => te,
            None => {
                proof {
                    assert forall|ss: Seq<crate::model::Score>|
                        !(s@ == #[trigger] scores_json(ss) && all_wf(ss)) by {
                        if s@ == scores_json(ss) && all_wf(ss) {
                            let k = acc@.len() as int;
                            lemma_scores_json_entries(ss, k);
                            assert(obj_at(s@, i as int, ss[k]));
                        }
                    }
                }
                return None;
            },
        };
        proof {
            lemma_inner_push(acc@, sc);
            lemma_subrange_concat(s@, 0, i as int, e as int);
            assert forall|ss: Seq<crate::model::Score>|
                s@ == #[trigger] scores_json(ss) && all_wf(ss) implies {
                let k = acc@.len() as int;
                &&& obj_at(s@, i as int, ss[k])
                &&& e as int == i + score_json(ss[k]).len()
                &&& sc.score@ == ss[k].score@ && sc.player@ == ss[k].player@
                    && crate::model::opt_view(sc.meta) == crate::model::opt_view(ss[k].meta)
                    && sc.timestamp@ == ss[k].timestamp@
                &&& (k + 1 < ss.len() ==> s@[e as int] == ',')
                &&& (k + 1 == ss.len() ==> e as int + 1 == n && s@[e as int] == ']')
            } by {
                let k = acc@.len() as int;
                lemma_scores_json_entries(ss, k);
                assert(obj_at(s@, i as int, ss[k]));
            }
        }
        let ghost old_acc = acc@;
        acc.push(sc);
        proof {
            if old_acc.len() == 0 {
                assert(s@.subrange(0, 1) =~= seq!['[']);
                assert(s@.subrange(0, e as int) =~= seq!['['] + scores_json_inner(acc@));
            } else {
                assert(s@.subrange(0, e as int) =~= seq!['['] + scores_json_inner(acc@));
            }
        }
        if e < n && s.get_char(e) == ']' {
            if e + 1 == n {
                proof {
                    lemma_subrange_concat(s@, 0, e as int, n as int);
                    assert(s@.subrange(e as int, n as int) =~= seq![']']);
                    assert(s@.subrange(0, n as int) =~= s@);
                    assert(s@ =~= scores_json(acc@));
                    assert forall|ss: Seq<crate::model::Score>|
                        s@ == #[trigger] scores_json(ss) && all_wf(ss) implies views_match(
                        acc@,
                        ss,
                    ) by {
                        let k = old_acc.len() as int;
                        if k + 1 < ss.len() {
                            assert(s@[e as int] == ',');
                            assert(false);
                        }
                        assert(k + 1 == ss.len());
                        assert(ss.subrange(0, k) =~= ss.subrange(0, ss.len() as int - 1));
                        assert forall|j: int| 0 <= j < acc@.len() implies {
                            &&& (#[trigger] acc@[j]).score@ == ss[j].score@
                            &&& acc@[j].player@ == ss[j].player@
                            &&& crate::model::opt_view(acc@[j].meta) == crate::model::opt_view(
                                ss[j].meta,
                            )
                            &&& acc@[j].timestamp@ == ss[j].timestamp@
                        } by {
                            if j < k {
                                assert(old_acc[j] == acc@[j]);
                                assert(ss.subrange(0, k)[j] == ss[j]);
                            }
                        }
                    }
                }
                return Some(acc);
            }
            proof {
                assert forall|ss: Seq<crate::model::Score>|
                    !(s@ == #[trigger] scores_json(ss) && all_wf(ss)) by {
                    if s@ == scores_json(ss) && all_wf(ss) {
                        let k = old_acc.len() as int;
                        if k + 1 < ss.len() {
                            assert(s@[e as int] == ',');
                        } else {
                            assert(e as int + 1 == n);
                        }
                    }
                }
            }
            return None;
        }
        if e < n && s.get_char(e) == ',' {
            proof {
                lemma_subrange_concat(s@, 0, e as int, e as int + 1);
                assert(s@.subrange(e as int, e as int + 1) =~= seq![',']);
                assert(s@.subrange(0, e as int + 1) =~= seq!['['] + scores_json_inner(acc@)
                    + seq![',']);
                assert forall|ss: Seq<crate::model::Score>|
                    s@ == #[trigger] scores_json(ss) && all_wf(ss) implies {
                    &&& acc@.len() < ss.len()
                    &&& views_match(acc@, ss.subrange(0, acc@.len() as int))
                    &&& e as int + 1 == entry_pos(ss, acc@.len() as int)
                } by {
                    let k = old_acc.len() as int;
                    if k + 1 == ss.len() {
                        assert(s@[e as int] == ']');
                        assert(false);
                    }
                    assert(entry_pos(ss, k + 1) == entry_pos(ss, k) + score_json(ss[k]).len()
                        + 1);
                    assert forall|j: int| 0 <= j < acc@.len() implies {
                        &&& (#[trigger] acc@[j]).score@ == ss.subrange(0, k + 1)[j].score@
                        &&& acc@[j].player@ == ss.subrange(0, k + 1)[j].player@
                        &&& crate::model::opt_view(acc@[j].meta) == crate::model::opt_view(
                            ss.subrange(0, k + 1)[j].meta,
                        )
                        &&& acc@[j].timestamp@ == ss.subrange(0, k + 1)[j].timestamp@
                    } by {
                        assert(ss.subrange(0, k + 1)[j] == ss[j]);
                        if j < k {
                            assert(old_acc[j] == acc@[j]);
                            assert(ss.subrange(0, k)[j] == ss[j]);
                        }
                    }
                }
            }
            i = e + 1;
        } else {
            proof {
                assert forall|ss: Seq<crate::model::Score>|
                    !(s@ == #[trigger] scores_json(ss) && all_wf(ss)) by {
                    if s@ == scores_json(ss) && all_wf(ss) {
                        let k = old_acc.len() as int;
                        lemma_scores_json_entries(ss, k);
                        assert(obj_at(s@, i as int, ss[k]));
                        assert(e as int == i + score_json(ss[k]).len());
                        if k + 1 < ss.len() {
                            assert(s@[e as int] == ',');
                            assert((e as int) < n);
                        } else {
                            assert(s@[e as int] == ']');
                            assert((e as int) + 1 == n);
                        }
                        assert(false);
                    }
                }
            }
            return None;
        }
    }
}

/// Equal renderings come from equal bytes.
pub proof fn lemma_uuid_injective(a: Seq<u8>, b: Seq<u8>)
    requires
        a.len() == 16,
        b.len() == 16,
        uuid_chars(a) == uuid_chars(b),
    ensures
        a == b,
{
    lemma_uuid_round_trip(a);
    lemma_uuid_round_trip(b);
    assert(a =~= b);
}

} // verus!
