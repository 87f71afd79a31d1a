//! HTTP/1.1 messages: requests, responses, and the framing of both.
use vstd::prelude::*;
use vstd::utf8::*;

use crate::dav::ascii_lower;
use crate::text::{
    chars_of, decimal, decimal_string, find, find_in, is_space, is_space_exec, owned,
    parse_unsigned, parse_unsigned_range, push_char, push_str, same_text, string_of_range, trim,
    trim_bounds, trim_end, trim_start,
};

verus! {

// ---------------------------------------------------------------------------
// Header table
// ---------------------------------------------------------------------------

/// Request headers by (lower-case) name; a later value for a name replaces the earlier one.
pub struct Headers {
    entries: Vec<(String, String)>,
}

/// The table that a list of distinct-named entries denotes.
pub open spec fn entries_map(s: Seq<(String, String)>) -> Map<Seq<char>, Seq<char>>
    decreases s.len(),
{
    if s.len() == 0 {
        Map::empty()
    } else {
        entries_map(s.drop_last()).insert(s.last().0@, s.last().1@)
    }
}

pub open spec fn distinct_names(s: Seq<(String, String)>) -> bool {
    forall|i: int, j: int| 0 <= i < j < s.len() ==> #[trigger] s[i].0@ != #[trigger] s[j].0@
}

proof fn lemma_entries_map_lookup(s: Seq<(String, String)>, i: int)
    requires
        distinct_names(s),
        0 <= i < s.len(),
    ensures
        entries_map(s).contains_key(s[i].0@),
        entries_map(s)[s[i].0@] == s[i].1@,
    decreases s.len(),
{
    if i < s.len() - 1 {
        assert(distinct_names(s.drop_last()));
        lemma_entries_map_lookup(s.drop_last(), i);
        assert(s[i].0@ != s.last().0@);
    }
}

proof fn lemma_entries_map_absent(s: Seq<(String, String)>, k: Seq<char>)
    requires
        forall|i: int| 0 <= i < s.len() ==> (#[trigger] s[i]).0@ != k,
    ensures
        !entries_map(s).contains_key(k),
    decreases s.len(),
{
    if s.len() > 0 {
        assert forall|i: int| 0 <= i < s.drop_last().len() implies (
        #[trigger] s.drop_last()[i]).0@ != k by {
            assert(s.drop_last()[i] == s[i]);
        }
        lemma_entries_map_absent(s.drop_last(), k);
        assert(s[s.len() - 1].0@ != k);
    }
}

proof fn lemma_entries_map_update(s: Seq<(String, String)>, i: int, e: (String, String))
    requires
        distinct_names(s),
        0 <= i < s.len(),
        e.0@ == s[i].0@,
    ensures
        entries_map(s.update(i, e)) == entries_map(s).insert(e.0@, e.1@),
    decreases s.len(),
{
    let t = s.update(i, e);
    if i == s.len() - 1 {
        assert(t.drop_last() =~= s.drop_last());
        assert(entries_map(s.drop_last()).insert(e.0@, e.1@) =~= entries_map(s).insert(
            e.0@,
            e.1@,
        ));
    } else {
        assert(t.drop_last() =~= s.drop_last().update(i, e));
        assert(distinct_names(s.drop_last()));
        lemma_entries_map_update(s.drop_last(), i, e);
        assert(s[i].0@ != s.last().0@);
        assert(entries_map(t) =~= entries_map(s).insert(e.0@, e.1@));
    }
}

impl Headers {
    pub closed spec fn view(&self) -> Map<Seq<char>, Seq<char>> {
        entries_map(self.entries@)
    }

    /// No name occurs twice.
    #[verifier::type_invariant]
    spec fn names_distinct(&self) -> bool {
        distinct_names(self.entries@)
    }

    /// An empty table.
    pub fn new() -> (h: Headers)
        ensures
            h.view() == Map::<Seq<char>, Seq<char>>::empty(),
    {
        Headers { entries: Vec::new() }
    }

    /// Sets `name` to `value`, replacing an earlier value.
    pub fn insert(&mut self, name: String, value: String)
        ensures
            final(self).view() == old(self).view().insert(name@, value@),
    {
        proof {
            use_type_invariant(&*self);
        }
        let mut entries: Vec<(String, String)> = Vec::new();
        std::mem::swap(&mut entries, &mut self.entries);
        let ghost before = entries@;
        assert(before == old(self).entries@);
        let mut i: usize = 0;
        while i < entries.len()
            invariant
                entries@ == before,
                before == old(self).entries@,
                distinct_names(before),
                0 <= i <= entries.len(),
                forall|j: int| 0 <= j < i ==> (#[trigger] entries@[j]).0@ != name@,
            decreases entries.len() - i,
        {
            if same_text(entries[i].0.as_str(), name.as_str()) {
                proof {
                    lemma_entries_map_update(before, i as int, (name, value));
                }
                entries.set(i, (name, value));
                proof {
                    assert(entries@ == before.update(i as int, (name, value)));
                    assert forall|a: int, b: int|
                        0 <= a < b < entries@.len() implies #[trigger] entries@[a].0@
                        != #[trigger] entries@[b].0@ by {
                        assert(before[a].0@ != before[b].0@);
                    }
                }
                self.entries = entries;
                return;
            }
            i += 1;
        }
        entries.push((name, value));
        proof {
            assert(entries@.drop_last() =~= before);
            assert forall|a: int, b: int|
                0 <= a < b < entries@.len() implies #[trigger] entries@[a].0@
                != #[trigger] entries@[b].0@ by {
                if b == before.len() {
                    assert(before[a].0@ != name@);
                } else {
                    assert(before[a].0@ != before[b].0@);
                }
            }
        }
        self.entries = entries;
    }

    /// The value stored under `name`.
    pub fn get(&self, name: &str) -> (r: Option<&String>)
        ensures
            match r {
                Some(v) => self.view().contains_key(name@) && v@ == self.view()[name@],
                None => !self.view().contains_key(name@),
            },
    {
        proof {
            use_type_invariant(self);
        }
        let mut i: usize = 0;
        while i < self.entries.len()
            invariant
                distinct_names(self.entries@),
                0 <= i <= self.entries.len(),
                forall|j: int| 0 <= j < i ==> (#[trigger] self.entries@[j]).0@ != name@,
            decreases self.entries.len() - i,
        {
            if same_text(self.entries[i].0.as_str(), name) {
                proof {
                    lemma_entries_map_lookup(self.entries@, i as int);
                }
                return Some(&self.entries[i].1);
            }
            i += 1;
        }
        proof {
            lemma_entries_map_absent(self.entries@, name@);
        }
        None
    }
}

// ---------------------------------------------------------------------------
// Requests and responses
// ---------------------------------------------------------------------------

/// A parsed HTTP request.
pub struct Request {
    pub method: String,
    pub path: String,
    pub headers: Headers,
    pub body: Vec<u8>,
}

/// An HTTP response before framing.
pub struct Response {
    pub status: u16,
    pub reason: &'static str,
    pub headers: Vec<(String, String)>,
    pub body: Vec<u8>,
}

/// Header names and values as character sequences.
pub open spec fn header_pairs(h: Seq<(String, String)>) -> Seq<(Seq<char>, Seq<char>)> {
    h.map_values(|p: (String, String)| (p.0@, p.1@))
}

impl Response {
    /// A response with a status line and nothing else.
    pub fn new(status: u16, reason: &'static str) -> (r: Response)
        ensures
            r.status == status,
            r.reason == reason,
            r.headers@.len() == 0,
            r.body@.len() == 0,
    {
        Response { status, reason, headers: Vec::new(), body: Vec::new() }
    }

    /// A plain-text response carrying `text` as its body.
    pub fn text(status: u16, reason: &'static str, text: &str) -> (r: Response)
        ensures
            r.status == status,
            r.reason == reason,
            header_pairs(r.headers@) == seq![
                ("Content-Type"@, "text/plain; charset=utf-8"@),
            ],
            r.body@ == encode_utf8(text@),
    {
        let body = bytes_of(text);
        let r = Response::new(status, reason).with_header(
            "Content-Type",
            "text/plain; charset=utf-8",
        ).with_body(body);
        assert(header_pairs(r.headers@) =~= seq![("Content-Type"@, "text/plain; charset=utf-8"@)]);
        r
    }

    /// The response with one more header at the end.
    pub fn with_header(self, name: &str, value: &str) -> (r: Response)
        ensures
            r.status == self.status,
            r.reason == self.reason,
            r.body == self.body,
            header_pairs(r.headers@) == header_pairs(self.headers@).push((name@, value@)),
    {
        let mut r = self;
        let ghost before = r.headers@;
        r.headers.push((owned(name), owned(value)));
        assert(header_pairs(r.headers@) =~= header_pairs(before).push((name@, value@)));
        r
    }

    /// The response with its body replaced.
    pub fn with_body(self, body: Vec<u8>) -> (r: Response)
        ensures
            r.status == self.status,
            r.reason == self.reason,
            r.headers == self.headers,
            r.body == body,
    {
        let mut r = self;
        r.body = body;
        r
    }
}

/// The UTF-8 bytes of a string slice.
pub fn bytes_of(s: &str) -> (out: Vec<u8>)
    ensures
        out@ == encode_utf8(s@),
{
    let b = s.as_bytes();
    let mut out: Vec<u8> = Vec::new();
    let mut i: usize = 0;
    while i < b.len()
        invariant
            b@ == encode_utf8(s@),
            0 <= i <= b@.len(),
            out@ == b@.subrange(0, i as int),
        decreases b@.len() - i,
    {
        out.push(b[i]);
        assert(b@.subrange(0, i + 1) =~= b@.subrange(0, i as int).push(b@[i as int]));
        i += 1;
    }
    assert(b@.subrange(0, b@.len() as int) =~= b@);
    out
}

/// `String::from_utf8`: the text that `bytes` encode, when they are valid UTF-8.
#[verifier::external_body]
pub(crate) fn utf8_text(bytes: Vec<u8>) -> (r: Option<String>)
    ensures
        r is Some <==> valid_utf8(bytes@),
        r matches Some(s) ==> s@ == decode_utf8(bytes@),
{
    String::from_utf8(bytes).ok()
}

// ---------------------------------------------------------------------------
// Percent decoding
// ---------------------------------------------------------------------------

pub open spec fn hex_value(b: u8) -> Option<u8> {
    if 48 <= b <= 57 {
        Some((b - 48) as u8)
    } else if 97 <= b <= 102 {
        Some((b - 87) as u8)
    } else if 65 <= b <= 70 {
        Some((b - 55) as u8)
    } else {
        None
    }
}

/// What `u8::from_str_radix(_, 16)` makes of the two characters after a `%`:
/// an optional `+` sign followed by hexadecimal digits.
pub open spec fn escape_value(b1: u8, b2: u8) -> Option<u8> {
    if b1 == 43 {
        hex_value(b2)
    } else {
        match (hex_value(b1), hex_value(b2)) {
            (Some(h), Some(l)) => Some((h * 16 + l) as u8),
            _ => None,
        }
    }
}

/// The bytes that percent-decoding `b` produces, or `None` for a malformed escape.
pub open spec fn percent_decode_bytes(b: Seq<u8>) -> Option<Seq<u8>>
    decreases b.len(),
{
    if b.len() == 0 {
        Some(Seq::empty())
    } else if b[0] == 37 {
        if b.len() < 3 {
            None
        } else {
            match (escape_value(b[1], b[2]), percent_decode_bytes(b.skip(3))) {
                (Some(x), Some(rest)) => Some(seq![x] + rest),
                _ => None,
            }
        }
    } else {
        match percent_decode_bytes(b.skip(1)) {
            Some(rest) => Some(seq![b[0]] + rest),
            None => None,
        }
    }
}

/// The bytes of `b` before its first `?`.
pub open spec fn before_query(b: Seq<u8>) -> Seq<u8>
    decreases b.len(),
{
    if b.len() == 0 || b[0] == 63 {
        Seq::empty()
    } else {
        seq![b[0]] + before_query(b.skip(1))
    }
}

/// The decoded path of a request target: the part before `?`, percent-decoded,
/// read as UTF-8.
pub open spec fn percent_decode_spec(input: Seq<char>) -> Result<Seq<char>, Seq<char>> {
    match percent_decode_bytes(before_query(encode_utf8(input))) {
        None => Err("Invalid percent encoding"@),
        Some(out) => if valid_utf8(out) {
            Ok(decode_utf8(out))
        } else {
            Err("Path is not valid UTF-8"@)
        },
    }
}

/// The hexadecimal digits: `0`-`9` are worth 0 to 9, `a`-`f` and `A`-`F`
/// 10 to 15; no other byte is a digit.
pub proof fn lemma_hex_digits(b: u8)
    ensures
        48 <= b <= 57 ==> hex_value(b) == Some((b - 48) as u8),
        97 <= b <= 102 ==> hex_value(b) == Some((b - 87) as u8),
        65 <= b <= 70 ==> hex_value(b) == Some((b - 55) as u8),
        !(48 <= b <= 57 || 97 <= b <= 102 || 65 <= b <= 70) ==> hex_value(b) is None,
        hex_value(b) matches Some(v) ==> v < 16,
{
}

/// Bytes without a `%` decode to themselves: only escapes change anything.
pub proof fn lemma_unescaped_bytes_unchanged(b: Seq<u8>)
    requires
        forall|i: int| 0 <= i < b.len() ==> b[i] != 37,
    ensures
        percent_decode_bytes(b) == Some(b),
    decreases b.len(),
{
    if b.len() > 0 {
        lemma_unescaped_bytes_unchanged(b.skip(1));
        assert(seq![b[0]] + b.skip(1) =~= b);
    }
}

/// Each escape `%XX` decodes to the byte the two hex digits spell, and the
/// bytes around it are decoded on their own.
pub proof fn lemma_escape_decodes(pre: Seq<u8>, h: u8, l: u8, post: Seq<u8>)
    requires
        forall|i: int| 0 <= i < pre.len() ==> pre[i] != 37,
        hex_value(h) is Some,
        hex_value(l) is Some,
        h != 43,
    ensures
        percent_decode_bytes(pre + seq![37u8, h, l] + post) == match percent_decode_bytes(post) {
            Some(rest) => Some(
                pre + seq![(hex_value(h)->0 * 16 + hex_value(l)->0) as u8] + rest,
            ),
            None => None,
        },
    decreases pre.len(),
{
    let all = pre + seq![37u8, h, l] + post;
    if pre.len() == 0 {
        assert(all =~= seq![37u8, h, l] + post);
        assert(all.skip(3) =~= post);
        assert(all[1] == h && all[2] == l);
    } else {
        lemma_escape_decodes(pre.skip(1), h, l, post);
        assert(all.skip(1) =~= pre.skip(1) + seq![37u8, h, l] + post);
        assert(all[0] == pre[0]);
        match percent_decode_bytes(post) {
            Some(rest) => {
                let x = (hex_value(h)->0 * 16 + hex_value(l)->0) as u8;
                assert(seq![pre[0]] + (pre.skip(1) + seq![x] + rest) =~= pre + seq![x] + rest);
            },
            None => {},
        }
    }
}

/// The UTF-8 bytes of a character are `%` or `?` only for that character.
proof fn lemma_scalar_bytes_plain(c: char)
    ensures
        forall|i: int|
            0 <= i < encode_scalar(c as u32).len() ==> (#[trigger] encode_scalar(c as u32)[i] == 37 ==> c
                == '%') && (encode_scalar(c as u32)[i] == 63 ==> c == '?'),
{
    let v = c as u32;
    if has_width_1_encoding(v) {
        assert(leading_byte_width_1(v) == v) by (bit_vector)
            requires
                v <= 0x7F,
        ;
    } else if has_width_2_encoding(v) {
        let x = ((v >> 6) & 0x1F) as u8;
        let y = (v & 0x3F) as u8;
        assert(0xC0 | x >= 0x80) by (bit_vector);
        assert(0x80 | y >= 0x80) by (bit_vector);
    } else if has_width_3_encoding(v) {
        let x = ((v >> 12) & 0x0F) as u8;
        let y = ((v >> 6) & 0x3F) as u8;
        let z = (v & 0x3F) as u8;
        assert(0xE0 | x >= 0x80) by (bit_vector);
        assert(0x80 | y >= 0x80) by (bit_vector);
        assert(0x80 | z >= 0x80) by (bit_vector);
    } else {
        let x = ((v >> 18) & 0x7) as u8;
        let w = ((v >> 12) & 0x3F) as u8;
        let y = ((v >> 6) & 0x3F) as u8;
        let z = (v & 0x3F) as u8;
        assert(0xF0 | x >= 0x80) by (bit_vector);
        assert(0x80 | w >= 0x80) by (bit_vector);
        assert(0x80 | y >= 0x80) by (bit_vector);
        assert(0x80 | z >= 0x80) by (bit_vector);
    }
}

/// The UTF-8 bytes of text without `%` and `?` hold neither.
proof fn lemma_encoded_plain(chars: Seq<char>)
    requires
        forall|i: int| 0 <= i < chars.len() ==> chars[i] != '%' && chars[i] != '?',
    ensures
        forall|i: int|
            0 <= i < encode_utf8(chars).len() ==> encode_utf8(chars)[i] != 37
                && encode_utf8(chars)[i] != 63,
    decreases chars.len(),
{
    if chars.len() > 0 {
        let first = encode_scalar(chars[0] as u32);
        let rest = chars.drop_first();
        lemma_scalar_bytes_plain(chars[0]);
        lemma_encoded_plain(rest);
        assert(encode_utf8(chars) == first + encode_utf8(rest));
        assert forall|i: int| 0 <= i < encode_utf8(chars).len() implies encode_utf8(chars)[i] != 37
            && encode_utf8(chars)[i] != 63 by {
            if i < first.len() {
                assert(encode_utf8(chars)[i] == first[i]);
            } else {
                assert(encode_utf8(chars)[i] == encode_utf8(rest)[i - first.len()]);
            }
        }
    }
}

/// A request path without `%` and without `?` decodes to itself: every
/// character, `+` and spaces included, is kept as it is.
pub proof fn lemma_plain_path_decodes_to_itself(input: Seq<char>)
    requires
        forall|i: int| 0 <= i < input.len() ==> input[i] != '%' && input[i] != '?',
    ensures
        percent_decode_spec(input) == Ok::<Seq<char>, Seq<char>>(input),
{
    broadcast use encode_utf8_valid_utf8, encode_utf8_decode_utf8;

    let b = encode_utf8(input);
    lemma_encoded_plain(input);
    lemma_before_query_prefix(b, b.len() as int);
    assert(b.subrange(0, b.len() as int) =~= b);
    lemma_unescaped_bytes_unchanged(b);
}

/// The query string is dropped: whatever follows the first `?` does not
/// change the decoded path.
pub proof fn lemma_query_is_ignored(path: Seq<char>, query: Seq<char>)
    requires
        forall|i: int| 0 <= i < path.len() ==> path[i] != '?',
    ensures
        percent_decode_spec(path + "?"@ + query) == percent_decode_spec(path),
{
    reveal_strlit("?");
    let b = encode_utf8(path);
    let full = path + "?"@ + query;
    let q = encode_utf8("?"@ + query);
    lemma_encode_concat(path, "?"@ + query);
    assert(full =~= path + ("?"@ + query));
    lemma_encoded_plain_query(path);
    assert(("?"@ + query)[0] == '?');
    assert(("?"@ + query).len() > 0);
    assert(q[0] == 63) by {
        assert(encode_utf8("?"@ + query) == encode_scalar('?' as u32) + encode_utf8(
            ("?"@ + query).drop_first(),
        ));
        assert(('?' as u32) == 63);
        assert(leading_byte_width_1(63) == 63) by (bit_vector);
    }
    lemma_before_query_prefix(b + q, b.len() as int);
    lemma_before_query_prefix(b, b.len() as int);
    assert((b + q).subrange(0, b.len() as int) =~= b);
    assert(b.subrange(0, b.len() as int) =~= b);
}

/// The UTF-8 bytes of text without `?` hold no `?` byte.
proof fn lemma_encoded_plain_query(chars: Seq<char>)
    requires
        forall|i: int| 0 <= i < chars.len() ==> chars[i] != '?',
    ensures
        forall|i: int| 0 <= i < encode_utf8(chars).len() ==> encode_utf8(chars)[i] != 63,
    decreases chars.len(),
{
    if chars.len() > 0 {
        let first = encode_scalar(chars[0] as u32);
        let rest = chars.drop_first();
        lemma_scalar_bytes_plain(chars[0]);
        lemma_encoded_plain_query(rest);
        assert forall|i: int| 0 <= i < encode_utf8(chars).len() implies encode_utf8(chars)[i]
            != 63 by {
            if i < first.len() {
                assert(encode_utf8(chars)[i] == first[i]);
            } else {
                assert(encode_utf8(chars)[i] == encode_utf8(rest)[i - first.len()]);
            }
        }
    }
}

/// Encoding a concatenation concatenates the encodings.
proof fn lemma_encode_concat(a: Seq<char>, b: Seq<char>)
    ensures
        encode_utf8(a + b) == encode_utf8(a) + encode_utf8(b),
    decreases a.len(),
{
    if a.len() == 0 {
        assert(a + b =~= b);
    } else {
        lemma_encode_concat(a.drop_first(), b);
        assert((a + b).drop_first() =~= a.drop_first() + b);
        assert((a + b)[0] == a[0]);
    }
}

/// `before_query` is the prefix up to the first `?`.
pub proof fn lemma_before_query_prefix(b: Seq<u8>, k: int)
    requires
        0 <= k <= b.len(),
        forall|j: int| 0 <= j < k ==> b[j] != 63,
        k == b.len() || b[k] == 63,
    ensures
        before_query(b) == b.subrange(0, k),
    decreases k,
{
    if k > 0 {
        lemma_before_query_prefix(b.skip(1), k - 1);
        assert(b.subrange(0, k) =~= seq![b[0]] + b.skip(1).subrange(0, k - 1));
    } else {
        assert(b.subrange(0, 0) =~= Seq::<u8>::empty());
    }
}

fn hex_value_exec(b: u8) -> (r: Option<u8>)
    ensures
        r == hex_value(b),
{
    if 48 <= b && b <= 57 {
        Some(b - 48)
    } else if 97 <= b && b <= 102 {
        Some(b - 87)
    } else if 65 <= b && b <= 70 {
        Some(b - 55)
    } else {
        None
    }
}

fn escape_value_exec(b1: u8, b2: u8) -> (r: Option<u8>)
    ensures
        r == escape_value(b1, b2),
{
    if b1 == 43 {
        hex_value_exec(b2)
    } else {
        match (hex_value_exec(b1), hex_value_exec(b2)) {
            (Some(h), Some(l)) => Some(h * 16 + l),
            _ => None,
        }
    }
}

/// Decodes the path of a request target: drops the query, undoes `%XX` escapes,
/// and reads the result as UTF-8.
pub fn percent_decode_path(input: &str) -> (r: Result<String, String>)
    ensures
        match (r, percent_decode_spec(input@)) {
            (Ok(s), Ok(t)) => s@ == t,
            (Err(e), Err(t)) => e@ == t,
            _ => false,
        },
{
    let b = input.as_bytes();
    let mut end: usize = 0;
    while end < b.len() && b[end] != 63
        invariant
            0 <= end <= b@.len(),
            forall|j: int| 0 <= j < end ==> b@[j] != 63,
        decreases b@.len() - end,
    {
        end += 1;
    }
    proof {
        lemma_before_query_prefix(b@, end as int);
    }
    let ghost p = b@.subrange(0, end as int);
    let mut out: Vec<u8> = Vec::new();
    let mut i: usize = 0;
    proof {
        assert(p.skip(0) =~= p);
        match percent_decode_bytes(p) {
            Some(r0) => {
                assert(out@ + r0 =~= r0);
            },
            None => {},
        }
    }
    while i < end
        invariant
            b@ == encode_utf8(input@),
            before_query(b@) == p,
            end <= b@.len(),
            p == b@.subrange(0, end as int),
            0 <= i <= end,
            percent_decode_bytes(p) == match percent_decode_bytes(p.skip(i as int)) {
                Some(rest) => Some(out@ + rest),
                None => None::<Seq<u8>>,
            },
        decreases end - i,
    {
        let ghost rest = p.skip(i as int);
        if b[i] == 37 {
            if end - i <= 2 {
                assert(rest.len() < 3);
                return Err(owned("Invalid percent encoding"));
            }
            match escape_value_exec(b[i + 1], b[i + 2]) {
                Some(x) => {
                    proof {
                        assert(rest[1] == b@[i + 1] && rest[2] == b@[i + 2]);
                        assert(rest.skip(3) =~= p.skip(i + 3));
                        match percent_decode_bytes(p.skip(i + 3)) {
                            Some(r2) => {
                                assert(out@.push(x) + r2 =~= out@ + (seq![x] + r2));
                            },
                            None => {},
                        }
                    }
                    out.push(x);
                    i += 3;
                },
                None => {
                    assert(rest[1] == b@[i + 1] && rest[2] == b@[i + 2]);
                    return Err(owned("Invalid percent encoding"));
                },
            }
        } else {
            let c = b[i];
            proof {
                assert(rest[0] == c);
                assert(rest.skip(1) =~= p.skip(i + 1));
                match percent_decode_bytes(p.skip(i + 1)) {
                    Some(r2) => {
                        assert(out@.push(c) + r2 =~= out@ + (seq![c] + r2));
                    },
                    None => {},
                }
            }
            out.push(c);
            i += 1;
        }
    }
    proof {
        assert(p.skip(end as int) =~= Seq::<u8>::empty());
        assert(out@ + Seq::<u8>::empty() =~= out@);
    }
    match utf8_text(out) {
        Some(s) => Ok(s),
        None => Err(owned("Path is not valid UTF-8")),
    }
}

// ---------------------------------------------------------------------------
// XML escaping
// ---------------------------------------------------------------------------

/// The XML entity for a markup character, or the character itself.
pub open spec fn xml_escape_char(c: char) -> Seq<char> {
    if c == '&' {
        "&amp;"@
    } else if c == '<' {
        "&lt;"@
    } else if c == '>' {
        "&gt;"@
    } else if c == '"' {
        "&quot;"@
    } else if c == '\'' {
        "&apos;"@
    } else {
        seq![c]
    }
}

/// `s` with each markup character replaced by its entity.
pub open spec fn xml_escape_spec(s: Seq<char>) -> Seq<char>
    decreases s.len(),
{
    if s.len() == 0 {
        Seq::empty()
    } else {
        xml_escape_spec(s.drop_last()) + xml_escape_char(s.last())
    }
}

/// Escapes `&`, `<`, `>`, `"` and `'` for use in XML text and attributes.
pub fn xml_escape(input: &str) -> (out: String)
    ensures
        out@ == xml_escape_spec(input@),
{
    let cs = chars_of(input);
    let mut out = String::new();
    let mut i: usize = 0;
    while i < cs.len()
        invariant
            cs@ == input@,
            0 <= i <= cs.len(),
            out@ == xml_escape_spec(cs@.subrange(0, i as int)),
        decreases cs.len() - i,
    {
        let c = cs[i];
        let ghost before = out@;
        if c == '&' {
            push_str(&mut out, "&amp;");
        } else if c == '<' {
            push_str(&mut out, "&lt;");
        } else if c == '>' {
            push_str(&mut out, "&gt;");
        } else if c == '"' {
            push_str(&mut out, "&quot;");
        } else if c == '\'' {
            push_str(&mut out, "&apos;");
        } else {
            push_char(&mut out, c);
        }
        proof {
            let pre = cs@.subrange(0, i + 1);
            assert(pre.drop_last() =~= cs@.subrange(0, i as int));
            assert(pre.last() == c);
            if !(c == '&' || c == '<' || c == '>' || c == '"' || c == '\'') {
                assert(before.push(c) =~= before + seq![c]);
            }
        }
        i += 1;
    }
    assert(cs@.subrange(0, cs@.len() as int) =~= cs@);
    out
}

// ---------------------------------------------------------------------------
// Reading requests
// ---------------------------------------------------------------------------

/// The length of the run of non-whitespace characters that starts `s`.
pub open spec fn word_len(s: Seq<char>) -> nat
    decreases s.len(),
{
    if s.len() == 0 || is_space(s[0]) {
        0
    } else {
        1 + word_len(s.drop_first())
    }
}

/// The first whitespace-separated word of `s`; empty when there is none.
pub open spec fn first_word(s: Seq<char>) -> Seq<char> {
    let t = trim_start(s);
    t.subrange(0, word_len(t) as int)
}

/// What follows the first word of `s`.
pub open spec fn after_first_word(s: Seq<char>) -> Seq<char> {
    let t = trim_start(s);
    t.subrange(word_len(t) as int, t.len() as int)
}

/// Method and target of a request line: its first two whitespace-separated words.
pub open spec fn request_line_spec(line: Seq<char>) -> Option<(Seq<char>, Seq<char>)> {
    let m = first_word(line);
    let p = first_word(after_first_word(line));
    if m.len() == 0 || p.len() == 0 {
        None
    } else {
        Some((m, p))
    }
}

proof fn lemma_word_len_bound(s: Seq<char>)
    ensures
        word_len(s) <= s.len(),
        forall|j: int| 0 <= j < word_len(s) ==> !is_space(#[trigger] s[j]),
        word_len(s) < s.len() ==> is_space(s[word_len(s) as int]),
    decreases s.len(),
{
    if s.len() > 0 && !is_space(s[0]) {
        lemma_word_len_bound(s.drop_first());
        assert forall|j: int| 0 <= j < word_len(s) implies !is_space(#[trigger] s[j]) by {
            if j > 0 {
                assert(s[j] == s.drop_first()[j - 1]);
            }
        }
    }
}

proof fn lemma_word_len_exact(s: Seq<char>, k: int)
    requires
        0 <= k <= s.len(),
        forall|j: int| 0 <= j < k ==> !is_space(#[trigger] s[j]),
        k == s.len() || is_space(s[k]),
    ensures
        word_len(s) == k,
    decreases k,
{
    if k > 0 {
        lemma_word_len_exact(s.drop_first(), k - 1);
    }
}

/// Bounds of the first word of `v[lo..hi]`.
fn first_word_bounds(v: &Vec<char>, lo: usize, hi: usize) -> (r: (usize, usize))
    requires
        lo <= hi <= v.len(),
    ensures
        lo <= r.0 <= r.1 <= hi,
        v@.subrange(r.0 as int, r.1 as int) == first_word(v@.subrange(lo as int, hi as int)),
        v@.subrange(r.1 as int, hi as int) == after_first_word(v@.subrange(lo as int, hi as int)),
{
    let ghost s = v@.subrange(lo as int, hi as int);
    let mut a = lo;
    while a < hi && is_space_exec(v[a])
        invariant
            lo <= a <= hi <= v.len(),
            forall|j: int| lo <= j < a ==> is_space(#[trigger] v@[j]),
        decreases hi - a,
    {
        a += 1;
    }
    proof {
        assert forall|j: int| 0 <= j < a - lo implies is_space(#[trigger] s[j]) by {
            assert(s[j] == v@[lo + j]);
        }
        crate::text::lemma_trim_start_skip(s, a - lo);
        assert(s.subrange(a - lo, s.len() as int) =~= v@.subrange(a as int, hi as int));
        if a < hi {
            assert(trim_start(v@.subrange(a as int, hi as int)) == v@.subrange(a as int, hi as int));
        }
    }
    let ghost t = v@.subrange(a as int, hi as int);
    assert(trim_start(s) == t);
    let mut b = a;
    while b < hi && !is_space_exec(v[b])
        invariant
            a <= b <= hi <= v.len(),
            forall|j: int| a <= j < b ==> !is_space(#[trigger] v@[j]),
        decreases hi - b,
    {
        b += 1;
    }
    proof {
        assert forall|j: int| 0 <= j < b - a implies !is_space(#[trigger] t[j]) by {
            assert(t[j] == v@[a + j]);
        }
        if b < hi {
            assert(t[b - a] == v@[b as int]);
        }
        lemma_word_len_exact(t, b - a);
        assert(t.subrange(0, b - a) =~= v@.subrange(a as int, b as int));
        assert(t.subrange(b - a, t.len() as int) =~= v@.subrange(b as int, hi as int));
    }
    (a, b)
}

/// Method and target of a request line, or `None` when it has fewer than two words.
pub fn parse_request_line(line: &str) -> (r: Option<(String, String)>)
    ensures
        match (r, request_line_spec(line@)) {
            (Some((m, p)), Some((ms, ps))) => m@ == ms && p@ == ps,
            (None, None) => true,
            _ => false,
        },
{
    let v = chars_of(line);
    assert(v@.subrange(0, v@.len() as int) =~= v@);
    let (a, b) = first_word_bounds(&v, 0, v.len());
    let (c, d) = first_word_bounds(&v, b, v.len());
    if a == b || c == d {
        return None;
    }
    Some((string_of_range(&v, a, b), string_of_range(&v, c, d)))
}

/// A header line: the name before the first `:`, trimmed and lower-cased, and
/// the trimmed value after it; `None` for a line without `:`.
pub open spec fn header_line_spec(line: Seq<char>) -> Option<(Seq<char>, Seq<char>)> {
    let t = trim_end(line);
    let k = find(t, ':');
    if k < 0 {
        None
    } else {
        Some((ascii_lower(trim(t.subrange(0, k))), trim(t.subrange(k + 1, t.len() as int))))
    }
}

/// The blank line that ends the headers (line endings and other trailing
/// whitespace aside).
pub open spec fn is_blank_line_spec(line: Seq<char>) -> bool {
    trim_end(line).len() == 0
}

/// Whether a line read from the connection ends the headers.
pub fn is_blank_line(line: &str) -> (b: bool)
    ensures
        b == is_blank_line_spec(line@),
{
    let v = chars_of(line);
    let (a, e) = trim_bounds(&v, 0, v.len());
    assert(v@.subrange(0, v@.len() as int) =~= v@);
    proof {
        crate::text::lemma_trim_empty(v@);
    }
    a == e
}

/// Splits a header line into its lower-case name and its value.
pub fn parse_header_line(line: &str) -> (r: Option<(String, String)>)
    ensures
        match (r, header_line_spec(line@)) {
            (Some((n, x)), Some((ns, xs))) => n@ == ns && x@ == xs,
            (None, None) => true,
            _ => false,
        },
{
    let v = chars_of(line);
    let mut e = v.len();
    while e > 0 && is_space_exec(v[e - 1])
        invariant
            0 <= e <= v.len(),
            forall|j: int| e <= j < v.len() ==> is_space(#[trigger] v@[j]),
        decreases e,
    {
        e -= 1;
    }
    proof {
        crate::text::lemma_trim_end_skip(v@, e as int);
        if e > 0 {
            assert(v@.subrange(0, e as int).last() == v@[e - 1]);
        }
        assert(trim_end(v@) == v@.subrange(0, e as int));
    }
    let ghost t = v@.subrange(0, e as int);
    let k = match find_in(&v, 0, e, ':') {
        Some(k) => k,
        None => {
            return None;
        },
    };
    assert(t.subrange(0, k as int) =~= v@.subrange(0, k as int));
    assert(t.subrange(k + 1, t.len() as int) =~= v@.subrange(k + 1, e as int));
    let (na, nb) = trim_bounds(&v, 0, k);
    let (va, vb) = trim_bounds(&v, k + 1, e);
    let mut name = String::new();
    let mut i = na;
    while i < nb
        invariant
            na <= i <= nb <= v.len(),
            name@ == ascii_lower(v@.subrange(na as int, i as int)),
        decreases nb - i,
    {
        let c = v[i];
        let l = if 'A' <= c && c <= 'Z' {
            ((c as u32 + 32) as u8) as char
        } else {
            c
        };
        push_char(&mut name, l);
        assert(ascii_lower(v@.subrange(na as int, i + 1)) =~= ascii_lower(
            v@.subrange(na as int, i as int),
        ).push(l));
        i += 1;
    }
    Some((name, string_of_range(&v, va, vb)))
}

/// The body length a request announces: its `Content-Length` when that is a
/// number that fits a `usize`, else zero.
pub open spec fn content_length_spec(h: Map<Seq<char>, Seq<char>>) -> nat {
    if h.contains_key("content-length"@) {
        match parse_unsigned(h["content-length"@], usize::MAX as nat) {
            Some(n) => n,
            None => 0,
        }
    } else {
        0
    }
}

/// The body length that `Content-Length` gives; zero when it is absent or no number.
pub fn content_length(headers: &Headers) -> (n: usize)
    ensures
        n == content_length_spec(headers.view()),
{
    match headers.get("content-length") {
        Some(v) => {
            let vc = chars_of(v.as_str());
            assert(vc@.subrange(0, vc@.len() as int) =~= vc@);
            match parse_unsigned_range(&vc, 0, vc.len(), usize::MAX as u64) {
                Some(n) => n as usize,
                None => 0,
            }
        },
        None => 0,
    }
}

// ---------------------------------------------------------------------------
// Writing responses
// ---------------------------------------------------------------------------

/// `name: value` lines, each ending in CRLF.
pub open spec fn header_lines(h: Seq<(Seq<char>, Seq<char>)>) -> Seq<char>
    decreases h.len(),
{
    if h.len() == 0 {
        Seq::empty()
    } else {
        header_lines(h.drop_last()) + h.last().0 + ": "@ + h.last().1 + "\r\n"@
    }
}

/// The status line and headers of a response on the wire: its own headers,
/// then `Content-Length` and `Connection: close`, then a blank line.
pub open spec fn response_head(r: Response) -> Seq<char> {
    "HTTP/1.1 "@ + decimal(r.status as nat) + " "@ + r.reason@ + "\r\n"@ + header_lines(
        header_pairs(r.headers@),
    ) + "Content-Length: "@ + decimal(r.body@.len()) + "\r\n"@ + "Connection: close\r\n"@
        + "\r\n"@
}

/// The bytes sent for a response to a request with this method: the head,
/// then the body unless the method is `HEAD`.
pub open spec fn response_bytes(method: Seq<char>, r: Response) -> Seq<u8> {
    encode_utf8(response_head(r)) + if method == "HEAD"@ {
        Seq::empty()
    } else {
        r.body@
    }
}

/// Frames a response for the wire.
pub fn encode_response(method: &str, response: &Response) -> (out: Vec<u8>)
    ensures
        out@ == response_bytes(method@, *response),
{
    let mut head = owned("HTTP/1.1 ");
    let st = decimal_string(response.status as u128);
    push_str(&mut head, st.as_str());
    push_str(&mut head, " ");
    push_str(&mut head, response.reason);
    push_str(&mut head, "\r\n");
    let mut i: usize = 0;
    let ghost prefix = head@;
    while i < response.headers.len()
        invariant
            0 <= i <= response.headers@.len(),
            head@ == prefix + header_lines(header_pairs(response.headers@.subrange(0, i as int))),
        decreases response.headers@.len() - i,
    {
        push_str(&mut head, response.headers[i].0.as_str());
        push_str(&mut head, ": ");
        push_str(&mut head, response.headers[i].1.as_str());
        push_str(&mut head, "\r\n");
        proof {
            let pre = header_pairs(response.headers@.subrange(0, i + 1));
            assert(pre.drop_last() =~= header_pairs(response.headers@.subrange(0, i as int)));
        }
        i += 1;
    }
    assert(response.headers@.subrange(0, response.headers@.len() as int) =~= response.headers@);
    push_str(&mut head, "Content-Length: ");
    let len = decimal_string(response.body.len() as u128);
    push_str(&mut head, len.as_str());
    push_str(&mut head, "\r\n");
    push_str(&mut head, "Connection: close\r\n");
    push_str(&mut head, "\r\n");
    let mut out = bytes_of(head.as_str());
    if !same_text(method, "HEAD") {
        let mut j: usize = 0;
        let ghost base = out@;
        while j < response.body.len()
            invariant
                0 <= j <= response.body@.len(),
                out@ == base + response.body@.subrange(0, j as int),
            decreases response.body@.len() - j,
        {
            out.push(response.body[j]);
            assert(response.body@.subrange(0, j + 1) =~= response.body@.subrange(0, j as int).push(
                response.body@[j as int],
            ));
            j += 1;
        }
        assert(response.body@.subrange(0, response.body@.len() as int) =~= response.body@);
    } else {
        assert(out@ + Seq::<u8>::empty() =~= out@);
    }
    out
}

} // verus!
