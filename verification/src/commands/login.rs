//! `glctl login`: percent-encoding, the browser login URL and the decision
//! on each request that reaches the local callback server.

use vstd::prelude::*;
use vstd::utf8::{
    decode_utf8, encode_utf8, encode_utf8_decode_utf8, encode_utf8_valid_utf8, is_ascii_chars,
    is_ascii_chars_encode_utf8, valid_utf8,
};
use crate::text::{
    chars_of, concat, decimal, is_unicode_whitespace, is_whitespace, lemma_split_nonempty,
    first_index_of, split_on, split_once, split_once_chars, string_of, usize_to_string, find_char,
    slice_chars,
};

verus! {

/// Options of `glctl login`.
#[derive(Debug, Clone, PartialEq, Eq)]
pub struct LoginArgs {
    /// The glhub base URL.
    pub remote: Option<String>,
}

/// A byte that percent-encoding leaves as it is: an ASCII letter or digit,
/// `-`, `_`, `.` or `~`.
pub open spec fn unreserved(b: u8) -> bool {
    (65 <= b <= 90) || (97 <= b <= 122) || (48 <= b <= 57) || b == 45 || b == 95 || b == 46 || b == 126
}

/// The upper-case hexadecimal digit of `d` (below 16).
pub open spec fn hex_upper(d: int) -> char {
    if d < 10 {
        (d + 48) as char
    } else {
        (d + 55) as char
    }
}

/// The encoding of one byte: itself, or `%` and two upper-case hex digits.
pub open spec fn encoded_byte(b: u8) -> Seq<char> {
    if unreserved(b) {
        seq![b as char]
    } else {
        seq!['%', hex_upper(b as int / 16), hex_upper(b as int % 16)]
    }
}

/// The percent-encoding of a byte string.
pub open spec fn pct_encode(bs: Seq<u8>) -> Seq<char>
    decreases bs.len(),
{
    if bs.len() == 0 {
        seq![]
    } else {
        encoded_byte(bs[0]) + pct_encode(bs.drop_first())
    }
}

/// The percent-encoding of the UTF-8 bytes of `s`.
pub open spec fn spec_percent_encode(s: Seq<char>) -> Seq<char> {
    pct_encode(encode_utf8(s))
}

/// The value of an ASCII hexadecimal digit of either case.
pub open spec fn hex_digit(b: u8) -> Option<int> {
    if 48 <= b <= 57 {
        Some(b - 48)
    } else if 97 <= b <= 102 {
        Some(b - 87)
    } else if 65 <= b <= 70 {
        Some(b - 55)
    } else {
        None
    }
}

/// What `u8::from_str_radix(.., 16)` gives for the two bytes `a b`: two hex
/// digits, or a `+` sign and one hex digit.
pub open spec fn hex_pair(a: u8, b: u8) -> Option<u8> {
    match (hex_digit(a), hex_digit(b)) {
        (Some(x), Some(y)) => Some((16 * x + y) as u8),
        (None, Some(y)) => if a == 43 {
            Some(y as u8)
        } else {
            None
        },
        _ => None,
    }
}

/// Percent-decoding of a byte string: `%` and a hex pair become that byte,
/// `+` becomes a space, everything else stays.
pub open spec fn pct_decode(bs: Seq<u8>) -> Seq<u8>
    decreases bs.len(),
{
    if bs.len() == 0 {
        seq![]
    } else if bs[0] == 37 && bs.len() > 2 && hex_pair(bs[1], bs[2]) is Some {
        seq![hex_pair(bs[1], bs[2])->0] + pct_decode(bs.skip(3))
    } else if bs[0] == 43 {
        seq![32u8] + pct_decode(bs.skip(1))
    } else {
        seq![bs[0]] + pct_decode(bs.skip(1))
    }
}

/// The text of a byte string read as UTF-8 with every invalid sequence
/// replaced by U+FFFD (`String::from_utf8_lossy`).
pub uninterp spec fn utf8_lossy_text(bytes: Seq<u8>) -> Seq<char>;

/// Wraps `String::from_utf8_lossy`: valid UTF-8 is decoded as it is; the
/// replacements made in invalid input are named, not spelled out.
#[verifier::external_body]
fn from_utf8_lossy(bytes: &[u8]) -> (s: String)
    ensures
        s@ == utf8_lossy_text(bytes@),
        valid_utf8(bytes@) ==> s@ == decode_utf8(bytes@),
{
    String::from_utf8_lossy(bytes).into_owned()
}

/// The text that percent-decoding `s` gives: the decoded bytes read as
/// UTF-8, lossily.
pub open spec fn spec_percent_decode(s: Seq<char>) -> Seq<char> {
    let bytes = pct_decode(encode_utf8(s));
    if valid_utf8(bytes) {
        decode_utf8(bytes)
    } else {
        utf8_lossy_text(bytes)
    }
}

/// The upper-case hex digit of `d`.
fn hex_upper_char(d: u8) -> (c: char)
    requires
        d < 16,
    ensures
        c == hex_upper(d as int),
{
    if d < 10 {
        (d + 48) as char
    } else {
        (d + 55) as char
    }
}

/// Percent-encodes the UTF-8 bytes of `s`, keeping only ASCII letters,
/// digits, `-`, `_`, `.` and `~`.
pub fn percent_encode(s: &str) -> (r: String)
    ensures
        r@ == spec_percent_encode(s@),
{
    let bytes = s.as_bytes();
    let ghost bs = bytes@;
    let mut out: Vec<char> = Vec::new();
    proof {
        assert(bs.skip(0) =~= bs);
    }
    for i in 0..bytes.len()
        invariant
            bs == bytes@,
            pct_encode(bs) == out@ + pct_encode(bs.skip(i as int)),
    {
        let b = bytes[i];
        if (65 <= b && b <= 90) || (97 <= b && b <= 122) || (48 <= b && b <= 57) || b == 45 || b
            == 95 || b == 46 || b == 126 {
            out.push(b as char);
        } else {
            out.push('%');
            out.push(hex_upper_char(b / 16));
            out.push(hex_upper_char(b % 16));
        }
        proof {
            assert(bs.skip(i as int).drop_first() =~= bs.skip(i + 1));
            assert(out@ =~= (out@.take(out@.len() - encoded_byte(b).len())) + encoded_byte(b));
        }
    }
    proof {
        assert(bs.skip(bytes.len() as int) =~= Seq::<u8>::empty());
        assert(out@ =~= out@ + pct_encode(Seq::<u8>::empty()));
    }
    string_of(out.as_slice())
}

/// The value of an ASCII hex digit.
fn hex_digit_value(b: u8) -> (r: Option<u8>)
    ensures
        match hex_digit(b) {
            Some(v) => r == Some(v as u8),
            None => r is None,
        },
{
    if 48 <= b && b <= 57 {
        Some(b - 48)
    } else if 97 <= b && b <= 102 {
        Some(b - 87)
    } else if 65 <= b && b <= 70 {
        Some(b - 55)
    } else {
        None
    }
}

/// `u8::from_str_radix` in base 16 on the two bytes `a b`.
fn hex_pair_value(a: u8, b: u8) -> (r: Option<u8>)
    ensures
        r == hex_pair(a, b),
{
    match (hex_digit_value(a), hex_digit_value(b)) {
        (Some(x), Some(y)) => Some(16 * x + y),
        (None, Some(y)) => if a == 43 {
            Some(y)
        } else {
            None
        },
        _ => None,
    }
}

/// Percent-decodes the UTF-8 bytes of `s` (`%XX` to a byte, `+` to a
/// space) and reads the result as UTF-8, replacing invalid sequences.
pub fn percent_decode(s: &str) -> (r: String)
    ensures
        r@ == spec_percent_decode(s@),
{
    let bytes = s.as_bytes();
    let ghost bs = bytes@;
    let mut out: Vec<u8> = Vec::new();
    let mut i: usize = 0;
    proof {
        assert(bs.skip(0) =~= bs);
    }
    while i < bytes.len()
        invariant
            bs == bytes@,
            i <= bytes.len(),
            pct_decode(bs) == out@ + pct_decode(bs.skip(i as int)),
        decreases bytes.len() - i,
    {
        let ghost rest = bs.skip(i as int);
        if bytes[i] == 37 && bytes.len() - i > 2 {
            match hex_pair_value(bytes[i + 1], bytes[i + 2]) {
                Some(v) => {
                    out.push(v);
                    proof {
                        assert(rest.skip(3) =~= bs.skip(i + 3));
                        assert(pct_decode(rest) == seq![v] + pct_decode(rest.skip(3)));
                        assert(out@ + pct_decode(bs.skip(i + 3)) =~= out@.drop_last() + (seq![v] + pct_decode(rest.skip(3))));
                    }
                    i = i + 3;
                    continue;
                },
                None => {},
            }
        }
        if bytes[i] == 43 {
            out.push(32);
        } else {
            out.push(bytes[i]);
        }
        proof {
            assert(rest.skip(1) =~= bs.skip(i + 1));
            assert(out@ + pct_decode(bs.skip(i + 1)) =~= out@.drop_last() + (seq![out@.last()] + pct_decode(rest.skip(1))));
        }
        i = i + 1;
    }
    proof {
        assert(bs.skip(i as int) =~= Seq::<u8>::empty());
        assert(out@ =~= out@ + pct_decode(Seq::<u8>::empty()));
    }
    from_utf8_lossy(out.as_slice())
}

/// The bytes of ASCII characters.
pub open spec fn ascii_bytes(cs: Seq<char>) -> Seq<u8> {
    Seq::new(cs.len(), |i: int| cs[i] as u8)
}

/// Percent-encoding yields ASCII characters only.
proof fn lemma_pct_encode_ascii(bs: Seq<u8>)
    ensures
        is_ascii_chars(pct_encode(bs)),
    decreases bs.len(),
{
    if bs.len() > 0 {
        lemma_pct_encode_ascii(bs.drop_first());
        let head = encoded_byte(bs[0]);
        let tail = pct_encode(bs.drop_first());
        assert(pct_encode(bs) == head + tail);
        assert forall|i: int| 0 <= i < pct_encode(bs).len() implies '\0' <= #[trigger] pct_encode(
            bs,
        )[i] <= '\u{7f}' by {
            if i < head.len() {
                assert(pct_encode(bs)[i] == head[i]);
            } else {
                assert(pct_encode(bs)[i] == tail[i - head.len()]);
            }
        }
    }
}

/// Decoding the bytes of an encoding gives back the encoded bytes.
proof fn lemma_pct_decode_encode(bs: Seq<u8>)
    ensures
        pct_decode(ascii_bytes(pct_encode(bs))) == bs,
    decreases bs.len(),
{
    if bs.len() == 0 {
        assert(ascii_bytes(pct_encode(bs)) =~= Seq::<u8>::empty());
    } else {
        let b = bs[0];
        let rest = bs.drop_first();
        lemma_pct_decode_encode(rest);
        let head = ascii_bytes(encoded_byte(b));
        let tail = ascii_bytes(pct_encode(rest));
        let all = ascii_bytes(pct_encode(bs));
        assert(all =~= head + tail);
        if unreserved(b) {
            assert(all[0] == b);
            assert(all.skip(1) =~= tail);
        } else {
            let hi = (b as int) / 16;
            let lo = (b as int) % 16;
            assert(0 <= hi < 16 && 0 <= lo < 16);
            assert(16 * hi + lo == b as int);
            assert(all[0] == 37u8);
            assert(all[1] == hex_upper(hi) as u8);
            assert(all[2] == hex_upper(lo) as u8);
            assert(hex_digit(all[1]) == Some(hi));
            assert(hex_digit(all[2]) == Some(lo));
            assert(hex_pair(all[1], all[2]) == Some(b));
            assert(all.skip(3) =~= tail);
        }
        assert(seq![b] + rest =~= bs);
    }
}

/// Percent-decoding undoes percent-encoding: for every string `s`,
/// decoding the encoding of `s` gives `s` back.
pub proof fn law_percent_roundtrip(s: Seq<char>)
    ensures
        spec_percent_decode(spec_percent_encode(s)) == s,
{
    let e = encode_utf8(s);
    let enc = pct_encode(e);
    lemma_pct_encode_ascii(e);
    is_ascii_chars_encode_utf8(enc);
    assert(encode_utf8(enc) =~= ascii_bytes(enc));
    lemma_pct_decode_encode(e);
    encode_utf8_valid_utf8(s);
    encode_utf8_decode_utf8(s);
}

/// The pairs of a query string, in order: for each `&`-separated part that
/// holds a `=`, the percent-decoded text before and after the first `=`.
pub open spec fn query_pairs(parts: Seq<Seq<char>>) -> Seq<(Seq<char>, Seq<char>)>
    decreases parts.len(),
{
    if parts.len() == 0 {
        seq![]
    } else {
        query_pairs(parts.drop_last()) + match split_once(parts.last(), '=') {
            Some((k, v)) => seq![(spec_percent_decode(k), spec_percent_decode(v))],
            None => seq![],
        }
    }
}

/// The pairs that parsing the query string `q` records.
pub open spec fn spec_parse_query(q: Seq<char>) -> Seq<(Seq<char>, Seq<char>)> {
    query_pairs(split_on(q, '&'))
}

/// The character views of a list of string pairs.
pub open spec fn pair_views(ps: Seq<(String, String)>) -> Seq<(Seq<char>, Seq<char>)> {
    Seq::new(ps.len(), |i: int| (ps[i].0@, ps[i].1@))
}

/// The value of `key` among the pairs: the last one recorded under it, as
/// a map filled in order keeps it.
pub open spec fn spec_query_get(ps: Seq<(Seq<char>, Seq<char>)>, key: Seq<char>) -> Option<Seq<char>>
    decreases ps.len(),
{
    if ps.len() == 0 {
        None
    } else if ps.last().0 == key {
        Some(ps.last().1)
    } else {
        spec_query_get(ps.drop_last(), key)
    }
}

/// Appends the pair of one query part, where it holds a `=`.
fn push_query_part(pairs: &mut Vec<(String, String)>, part: &Vec<char>)
    ensures
        pair_views(final(pairs)@) == pair_views(old(pairs)@) + match split_once(part@, '=') {
            Some((k, v)) => seq![(spec_percent_decode(k), spec_percent_decode(v))],
            None => seq![],
        },
{
    match split_once_chars(part.as_slice(), '=') {
        Some((k, v)) => {
            let ks = string_of(k.as_slice());
            let vs = string_of(v.as_slice());
            pairs.push((percent_decode(&ks), percent_decode(&vs)));
        },
        None => {},
    }
    proof {
        assert(pair_views(pairs@) =~= pair_views(old(pairs)@) + match split_once(part@, '=') {
            Some((k, v)) => seq![(spec_percent_decode(k), spec_percent_decode(v))],
            None => seq![],
        });
    }
}

/// Parses a query string into its pairs, in order (`k=v` parts separated
/// by `&`, both sides percent-decoded; parts without `=` are skipped).
pub fn parse_query(query: &str) -> (pairs: Vec<(String, String)>)
    ensures
        pair_views(pairs@) == spec_parse_query(query@),
{
    let cs = chars_of(query);
    let mut pairs: Vec<(String, String)> = Vec::new();
    let mut cur: Vec<char> = Vec::new();
    let ghost mut done: Seq<Seq<char>> = seq![];
    for i in 0..cs.len()
        invariant
            cs@ == query@,
            split_on(cs@.take(i as int), '&') == done.push(cur@),
            pair_views(pairs@) == query_pairs(done),
    {
        proof {
            assert(cs@.take(i + 1).drop_last() =~= cs@.take(i as int));
            assert(cs@.take(i + 1).last() == cs@[i as int]);
        }
        if cs[i] == '&' {
            push_query_part(&mut pairs, &cur);
            proof {
                assert(done.push(cur@).drop_last() =~= done);
                done = done.push(cur@);
            }
            cur = Vec::new();
        } else {
            cur.push(cs[i]);
            proof {
                assert(done.push(cur@.drop_last()).update(done.len() as int, cur@) =~= done.push(cur@));
            }
        }
    }
    push_query_part(&mut pairs, &cur);
    proof {
        assert(cs@.take(cs.len() as int) =~= cs@);
        assert(done.push(cur@).drop_last() =~= done);
    }
    pairs
}

/// Whether two character lists are equal.
fn same_chars(a: &Vec<char>, b: &Vec<char>) -> (r: bool)
    ensures
        r == (a@ == b@),
{
    if a.len() != b.len() {
        return false;
    }
    for i in 0..a.len()
        invariant
            a.len() == b.len(),
            forall|k: int| 0 <= k < i ==> a@[k] == b@[k],
    {
        if a[i] != b[i] {
            return false;
        }
    }
    proof {
        assert(a@ =~= b@);
    }
    true
}

/// The value recorded last under `key`.
pub fn query_get(pairs: &Vec<(String, String)>, key: &str) -> (r: Option<String>)
    ensures
        match spec_query_get(pair_views(pairs@), key@) {
            Some(v) => r matches Some(s) && s@ == v,
            None => r is None,
        },
{
    let mut i = pairs.len();
    proof {
        assert(pair_views(pairs@).take(i as int) =~= pair_views(pairs@));
    }
    while i > 0
        invariant
            i <= pairs.len(),
            spec_query_get(pair_views(pairs@), key@) == spec_query_get(pair_views(pairs@).take(i as int), key@),
        decreases i,
    {
        proof {
            assert(pair_views(pairs@).take(i as int).drop_last() =~= pair_views(pairs@).take(i - 1));
            assert(pair_views(pairs@).take(i as int).last() == (pairs@[i - 1].0@, pairs@[i - 1].1@));
        }
        let k = chars_of(pairs[i - 1].0.as_str());
        let kk = chars_of(key);
        if k.len() == kk.len() && same_chars(&k, &kk) {
            return Some(pairs[i - 1].1.clone());
        }
        i = i - 1;
    }
    None
}

/// Wraps `std::str::from_utf8(..).unwrap_or("")`: the text of the bytes
/// where they are valid UTF-8, else the empty string.
#[verifier::external_body]
fn utf8_or_empty(bytes: &[u8]) -> (s: String)
    ensures
        s@ == (if valid_utf8(bytes@) {
            decode_utf8(bytes@)
        } else {
            Seq::<char>::empty()
        }),
{
    std::str::from_utf8(bytes).unwrap_or("").to_string()
}

/// The first line of `t` (`str::lines().next()`, or the empty string): the
/// text before the first line feed, without a carriage return that ends
/// it; the whole text when it has no line feed.
pub open spec fn first_line(t: Seq<char>) -> Seq<char> {
    match first_index_of(t, '\n') {
        Some(k) => {
            let l = t.take(k);
            if l.len() > 0 && l.last() == '\r' {
                l.drop_last()
            } else {
                l
            }
        },
        None => t,
    }
}

/// The words of `s` (`str::split_whitespace`): the non-empty runs of
/// characters that are not Unicode whitespace.
pub open spec fn words(s: Seq<char>) -> Seq<Seq<char>>
    decreases s.len(),
{
    if s.len() == 0 {
        seq![]
    } else {
        let r = words(s.drop_last());
        let c = s.last();
        if is_unicode_whitespace(c) {
            r
        } else if s.len() >= 2 && !is_unicode_whitespace(s[s.len() - 2]) && r.len() > 0 {
            r.update(r.len() - 1, r.last().push(c))
        } else {
            r.push(seq![c])
        }
    }
}

/// The request target of a request line: its second word, or the empty
/// string.
pub open spec fn request_target(line: Seq<char>) -> Seq<char> {
    let ws = words(line);
    if ws.len() > 1 {
        ws[1]
    } else {
        seq![]
    }
}

/// A non-whitespace character that follows another one extends the last
/// word.
proof fn lemma_words_nonempty(s: Seq<char>)
    requires
        s.len() > 0,
        !is_unicode_whitespace(s.last()),
    ensures
        words(s).len() > 0,
        words(s).last().len() > 0,
{
}

/// The first line of a text.
fn first_line_of(t: &Vec<char>) -> (l: Vec<char>)
    ensures
        l@ == first_line(t@),
{
    match find_char(t.as_slice(), '\n') {
        Some(k) => {
            let mut l = slice_chars(t.as_slice(), 0, k);
            proof {
                assert(l@ =~= t@.take(k as int));
            }
            if l.len() > 0 && l[l.len() - 1] == '\r' {
                l.pop();
                proof {
                    assert(l@ =~= t@.take(k as int).drop_last());
                }
            }
            l
        },
        None => t.clone(),
    }
}

/// The second word of a line, or nothing.
fn second_word(line: &Vec<char>) -> (w: Vec<char>)
    ensures
        w@ == request_target(line@),
{
    let mut done: Vec<Vec<char>> = Vec::new();
    let mut cur: Vec<char> = Vec::new();
    let ghost mut done_v: Seq<Seq<char>> = seq![];
    for i in 0..line.len()
        invariant
            done@.len() == done_v.len(),
            forall|k: int| 0 <= k < done_v.len() ==> (#[trigger] done@[k])@ == done_v[k],
            words(line@.take(i as int)) == if cur.len() > 0 {
                done_v.push(cur@)
            } else {
                done_v
            },
            cur.len() > 0 <==> (i > 0 && !is_unicode_whitespace(line@[i - 1])),
    {
        let c = line[i];
        proof {
            assert(line@.take(i + 1).drop_last() =~= line@.take(i as int));
            assert(line@.take(i + 1).last() == c);
            if i > 0 {
                assert(line@.take(i + 1)[i - 1] == line@[i - 1]);
            }
        }
        if is_whitespace(c) {
            if cur.len() > 0 {
                let w = cur;
                proof {
                    done_v = done_v.push(w@);
                }
                done.push(w);
                cur = Vec::new();
            }
        } else {
            let ghost before = cur@;
            cur.push(c);
            proof {
                if before.len() > 0 {
                    assert(done_v.push(before).update(done_v.len() as int, before.push(c)) =~= done_v.push(cur@));
                } else {
                    assert(cur@ =~= seq![c]);
                }
            }
        }
    }
    proof {
        assert(line@.take(line.len() as int) =~= line@);
    }
    if done.len() > 1 {
        done[1].clone()
    } else if done.len() == 1 && cur.len() > 0 {
        cur
    } else {
        Vec::new()
    }
}

/// What the callback server does with one request.
#[derive(Debug, Clone, PartialEq, Eq)]
pub enum CallbackDecision {
    /// The path is not `/callback`: answer 404 and keep waiting.
    NotFound,
    /// The `state` parameter is not the expected one: answer 400 and keep
    /// waiting.
    StateMismatch,
    /// No token, or an empty one: answer 400 and keep waiting.
    MissingToken,
    /// A token for the expected state: answer 200 and log in with it.
    Accepted(String),
}

/// The path and the query of a request target.
pub open spec fn target_parts(target: Seq<char>) -> (Seq<char>, Seq<char>) {
    match split_once(target, '?') {
        Some((p, q)) => (p, q),
        None => (target, seq![]),
    }
}

/// The text of a request as the server reads it.
pub open spec fn request_text(bytes: Seq<u8>) -> Seq<char> {
    if valid_utf8(bytes) {
        decode_utf8(bytes)
    } else {
        seq![]
    }
}

/// The query pairs of a request.
pub open spec fn request_query(bytes: Seq<u8>) -> Seq<(Seq<char>, Seq<char>)> {
    spec_parse_query(target_parts(request_target(first_line(request_text(bytes)))).1)
}

/// The path of a request.
pub open spec fn request_path(bytes: Seq<u8>) -> Seq<char> {
    target_parts(request_target(first_line(request_text(bytes)))).0
}

/// Decides what to do with a request that reached the callback server:
/// only `GET /callback?...&state=<expected>&token=<token>` with a
/// non-empty token logs in.
pub fn callback_decision(request: &[u8], expected_state: &str) -> (d: CallbackDecision)
    ensures
        ({
            let path = request_path(request@);
            let q = request_query(request@);
            let state = spec_query_get(q, "state"@);
            let token = spec_query_get(q, "token"@);
            &&& (path != "/callback"@ <==> d is NotFound)
            &&& (path == "/callback"@ && state != Some(expected_state@) <==> d is StateMismatch)
            &&& (d is MissingToken <==> path == "/callback"@ && state == Some(expected_state@) && (
            token is None || token->0.len() == 0))
            &&& (d matches CallbackDecision::Accepted(t) ==> token == Some(t@) && t@.len() > 0)
        }),
{
    let text = utf8_or_empty(request);
    let tc = chars_of(&text);
    let line = first_line_of(&tc);
    let target = second_word(&line);
    let (path, query) = match split_once_chars(target.as_slice(), '?') {
        Some((p, q)) => (p, q),
        None => (target, Vec::new()),
    };
    proof {
        assert(path@ == request_path(request@));
        assert(query@ == target_parts(request_target(first_line(request_text(request@)))).1);
    }
    let cb = chars_of("/callback");
    if !same_chars(&path, &cb) {
        return CallbackDecision::NotFound;
    }
    let params = parse_query(&string_of(query.as_slice()));
    let token = query_get(&params, "token");
    let state = query_get(&params, "state");
    let state_ok = match &state {
        Some(s) => same_chars(&chars_of(s), &chars_of(expected_state)),
        None => false,
    };
    if !state_ok {
        return CallbackDecision::StateMismatch;
    }
    match token {
        Some(t) => {
            if t.as_str().is_empty() {
                CallbackDecision::MissingToken
            } else {
                CallbackDecision::Accepted(t)
            }
        },
        None => CallbackDecision::MissingToken,
    }
}

/// The page skeleton around the HTML of a callback answer.
pub open spec fn page_of(html_body: Seq<char>) -> Seq<char> {
    "<!DOCTYPE html><html><head><meta charset=utf-8><title>glctl</title><style>body{font-family:sans-serif;max-width:480px;margin:4rem auto;padding:0 1rem}</style></head><body>"@
        + html_body + "</body></html>"@
}

/// The HTTP response with status `code` and `reason` whose body is the page
/// around `html_body`; `Content-Length` counts the UTF-8 bytes of the body.
pub open spec fn spec_http_response(code: u16, reason: Seq<char>, html_body: Seq<char>) -> Seq<char> {
    let body = page_of(html_body);
    "HTTP/1.1 "@ + decimal(code as nat) + " "@ + reason
        + "\r\nContent-Type: text/html; charset=utf-8\r\nContent-Length: "@ + decimal(
        encode_utf8(body).len(),
    ) + "\r\nConnection: close\r\n\r\n"@ + body
}

/// The text of an HTTP response of the callback server.
pub fn http_response(code: u16, reason: &str, html_body: &str) -> (r: String)
    ensures
        r@ == spec_http_response(code, reason@, html_body@),
{
    let body = concat(
        &concat(
            "<!DOCTYPE html><html><head><meta charset=utf-8><title>glctl</title><style>body{font-family:sans-serif;max-width:480px;margin:4rem auto;padding:0 1rem}</style></head><body>",
            html_body,
        ),
        "</body></html>",
    );
    let len = body.as_str().as_bytes().len();
    let head = concat(
        &concat(
            &concat(&concat(&concat("HTTP/1.1 ", &usize_to_string(code as usize)), " "), reason),
            "\r\nContent-Type: text/html; charset=utf-8\r\nContent-Length: ",
        ),
        &usize_to_string(len),
    );
    concat(&concat(&head, "\r\nConnection: close\r\n\r\n"), &body)
}

/// The status code, reason and HTML of the answer to a decision.
pub fn response_for(d: &CallbackDecision) -> (r: (u16, String, String))
    ensures
        match d {
            CallbackDecision::NotFound => r.0 == 404 && r.1@ == "Not Found"@ && r.2@ == ""@,
            CallbackDecision::StateMismatch => r.0 == 400 && r.1@ == "Bad Request"@ && r.2@
                == "<h2>Authentication failed</h2><p>State mismatch \u{2014} please try again.</p>"@,
            CallbackDecision::MissingToken => r.0 == 400 && r.1@ == "Bad Request"@ && r.2@
                == "<h2>Authentication failed</h2><p>No token received \u{2014} please try again.</p>"@,
            CallbackDecision::Accepted(_) => r.0 == 200 && r.1@ == "OK"@ && r.2@
                == "<h2>Authentication successful!</h2><p>You can close this tab and return to your terminal.</p>"@,
        },
{
    match d {
        CallbackDecision::NotFound => (404, "Not Found".to_string(), "".to_string()),
        CallbackDecision::StateMismatch => (
            400,
            "Bad Request".to_string(),
            "<h2>Authentication failed</h2><p>State mismatch \u{2014} please try again.</p>".to_string(),
        ),
        CallbackDecision::MissingToken => (
            400,
            "Bad Request".to_string(),
            "<h2>Authentication failed</h2><p>No token received \u{2014} please try again.</p>".to_string(),
        ),
        CallbackDecision::Accepted(_) => (
            200,
            "OK".to_string(),
            "<h2>Authentication successful!</h2><p>You can close this tab and return to your terminal.</p>".to_string(),
        ),
    }
}

/// The default glhub URL of `login`.
pub open spec fn default_login_remote() -> Seq<char> {
    "https://glhub.baryon.ai"@
}

/// The local address that the browser is sent back to.
pub open spec fn redirect_uri(port: u16) -> Seq<char> {
    "http://localhost:"@ + decimal(port as nat) + "/callback"@
}

/// The browser login URL: the CLI login page of `base` with the
/// percent-encoded redirect address and the state token.
pub open spec fn spec_login_url(base: Seq<char>, port: u16, state: Seq<char>) -> Seq<char> {
    base + "/login/cli?redirect_uri="@ + spec_percent_encode(redirect_uri(port)) + "&state="@ + state
}

/// The browser login URL for the callback server on `port`.
pub fn login_url(base: &str, port: u16, state: &str) -> (u: String)
    ensures
        u@ == spec_login_url(base@, port, state@),
{
    let redirect = concat(&concat("http://localhost:", &usize_to_string(port as usize)), "/callback");
    let enc = percent_encode(&redirect);
    concat(&concat(&concat(&concat(base, "/login/cli?redirect_uri="), &enc), "&state="), state)
}

/// The token that ends the wait for the browser, if the decision is to
/// log in; otherwise the server keeps waiting.
pub fn accepted_token(d: CallbackDecision) -> (t: Option<String>)
    ensures
        match d {
            CallbackDecision::Accepted(tok) => t == Some(tok),
            _ => t is None,
        },
{
    match d {
        CallbackDecision::Accepted(tok) => Some(tok),
        _ => None,
    }
}

/// The error when no browser callback arrives in time.
pub fn login_timeout_message() -> (m: String)
    ensures
        m@ == "login timed out \u{2014} no browser callback received"@,
{
    "login timed out \u{2014} no browser callback received".to_string()
}

} // verus!
