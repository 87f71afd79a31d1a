//! WebDAV responses: `OPTIONS`, `PROPFIND` multistatus documents, and file
//! reads with byte ranges.
use vstd::prelude::*;
use vstd::utf8::*;

use crate::fs_backend::FsEntry;
use crate::http::{
    bytes_of, escape_value, header_pairs, hex_value, lemma_before_query_prefix, percent_decode_bytes,
    percent_decode_spec, xml_escape, xml_escape_spec, Request, Response,
};
use crate::text::{
    chars_of, decimal, decimal_string, ends_with, find, find_in, owned, parse_unsigned,
    parse_unsigned_range, push_char, push_str, range_equals, range_starts_with, starts_with,
    string_of_range,
};

verus! {

/// An inclusive span of bytes within a file.
#[derive(Debug, Clone, Copy, PartialEq, Eq, Structural)]
pub struct ByteRange {
    pub start: u64,
    pub end: u64,
}

/// What a `Range` header selects from a file of `size` bytes: `bytes=a-b`,
/// `bytes=a-` or the suffix form `bytes=-n`. The end is clamped to the file;
/// an empty or unsatisfiable selection, or anything else, selects nothing.
pub open spec fn parse_range_spec(h: Seq<char>, size: u64) -> Option<ByteRange> {
    if !starts_with(h, "bytes="@) {
        None
    } else {
        let v = h.subrange(6, h.len() as int);
        let k = find(v, '-');
        if k < 0 {
            None
        } else {
            let left = v.subrange(0, k);
            let right = v.subrange(k + 1, v.len() as int);
            if left.len() == 0 {
                match parse_unsigned(right, u64::MAX as nat) {
                    None => None,
                    Some(suffix) => if suffix == 0 || size == 0 {
                        None
                    } else {
                        Some(
                            ByteRange {
                                start: if suffix >= size {
                                    0
                                } else {
                                    (size - suffix) as u64
                                },
                                end: (size - 1) as u64,
                            },
                        )
                    },
                }
            } else {
                match parse_unsigned(left, u64::MAX as nat) {
                    None => None,
                    Some(start) => {
                        let end_opt: Option<nat> = if size == 0 {
                            None
                        } else if right.len() == 0 {
                            Some((size - 1) as nat)
                        } else {
                            match parse_unsigned(right, u64::MAX as nat) {
                                None => None,
                                Some(e) => Some(
                                    if e < size - 1 {
                                        e
                                    } else {
                                        (size - 1) as nat
                                    },
                                ),
                            }
                        };
                        match end_opt {
                            None => None,
                            Some(end) => if start > end || start >= size {
                                None
                            } else {
                                Some(ByteRange { start: start as u64, end: end as u64 })
                            },
                        }
                    },
                }
            }
        }
    }
}

/// Interprets a `Range` header for a file of `size` bytes.
pub fn parse_range(header: &str, size: u64) -> (r: Option<ByteRange>)
    ensures
        r == parse_range_spec(header@, size),
        r matches Some(b) ==> b.start <= b.end < size,
{
    let h = chars_of(header);
    proof {
        reveal_strlit("bytes=");
        assert(h@.subrange(0, h@.len() as int) =~= h@);
    }
    if !range_starts_with(&h, 0, h.len(), "bytes=") {
        return None;
    }
    let n = h.len();
    let ghost v = h@.subrange(6, n as int);
    let k = match find_in(&h, 6, n, '-') {
        Some(k) => k,
        None => {
            return None;
        },
    };
    let dash = 6 + k;
    proof {
        assert(h@.subrange(6, dash as int) =~= v.subrange(0, k as int));
        assert(h@.subrange(dash + 1, n as int) =~= v.subrange(k + 1, v.len() as int));
    }
    if k == 0 {
        let suffix = match parse_unsigned_range(&h, dash + 1, n, u64::MAX) {
            Some(s) => s,
            None => {
                return None;
            },
        };
        if suffix == 0 || size == 0 {
            return None;
        }
        return Some(ByteRange { start: size.saturating_sub(suffix), end: size - 1 });
    }
    let start = match parse_unsigned_range(&h, 6, dash, u64::MAX) {
        Some(s) => s,
        None => {
            return None;
        },
    };
    if size == 0 {
        if dash + 1 < n {
            let _ = parse_unsigned_range(&h, dash + 1, n, u64::MAX);
        }
        return None;
    }
    let end = if dash + 1 == n {
        size - 1
    } else {
        match parse_unsigned_range(&h, dash + 1, n, u64::MAX) {
            Some(e) => if e < size - 1 {
                e
            } else {
                size - 1
            },
            None => {
                return None;
            },
        }
    };
    if start > end || start >= size {
        return None;
    }
    Some(ByteRange { start, end })
}

// ---------------------------------------------------------------------------
// File metadata as the responses see it
// ---------------------------------------------------------------------------

/// What the responses need to know of a file or folder.
#[derive(Debug, Clone, Copy, PartialEq, Eq, Structural)]
pub struct ResourceInfo {
    pub is_dir: bool,
    /// Length in bytes.
    pub len: u64,
    /// Modification time in seconds since the Unix epoch; zero when unknown.
    pub modified: u64,
}


// ---------------------------------------------------------------------------
// Encoding and decoding paths
// ---------------------------------------------------------------------------

/// The bytes of a text whose characters are all ASCII.
pub open spec fn ascii_bytes(e: Seq<char>) -> Seq<u8> {
    e.map_values(|c: char| c as u8)
}

/// The bytes that one byte of a name becomes in a path segment.
pub open spec fn encode_byte_raw(x: u8) -> Seq<u8> {
    if is_unreserved(x) {
        seq![x]
    } else {
        seq![37u8, hex_upper(x / 16) as u8, hex_upper(x % 16) as u8]
    }
}

/// The bytes that a name's bytes become in a path segment.
pub open spec fn encode_bytes_raw(b: Seq<u8>) -> Seq<u8>
    decreases b.len(),
{
    if b.len() == 0 {
        Seq::empty()
    } else {
        encode_bytes_raw(b.drop_last()) + encode_byte_raw(b.last())
    }
}

proof fn lemma_hex_upper(d: u8)
    requires
        d < 16,
    ensures
        hex_upper(d) as u8 != 43,
        hex_upper(d) as u8 != 63,
        '\0' <= hex_upper(d) <= '\u{7f}',
        hex_value(hex_upper(d) as u8) == Some(d),
{
}

proof fn lemma_encode_byte_ascii(x: u8)
    ensures
        is_ascii_chars(encode_byte(x)),
        ascii_bytes(encode_byte(x)) == encode_byte_raw(x),
{
    if is_unreserved(x) {
        assert(ascii_bytes(encode_byte(x)) =~= encode_byte_raw(x));
    } else {
        lemma_hex_upper(x / 16);
        lemma_hex_upper(x % 16);
        assert(ascii_bytes(encode_byte(x)) =~= encode_byte_raw(x));
    }
}

proof fn lemma_encode_bytes_ascii(b: Seq<u8>)
    ensures
        is_ascii_chars(encode_bytes(b)),
        ascii_bytes(encode_bytes(b)) == encode_bytes_raw(b),
    decreases b.len(),
{
    if b.len() > 0 {
        lemma_encode_bytes_ascii(b.drop_last());
        lemma_encode_byte_ascii(b.last());
        let pre = encode_bytes(b.drop_last());
        let last = encode_byte(b.last());
        assert(is_ascii_chars(pre + last)) by {
            assert forall|i: int| 0 <= i < (pre + last).len() implies '\0' <= #[trigger] (pre
                + last)[i] <= '\u{7f}' by {
                if i < pre.len() {
                    assert((pre + last)[i] == pre[i]);
                } else {
                    assert((pre + last)[i] == last[i - pre.len()]);
                }
            }
        }
        assert(ascii_bytes(pre + last) =~= ascii_bytes(pre) + ascii_bytes(last));
    } else {
        assert(ascii_bytes(encode_bytes(b)) =~= encode_bytes_raw(b));
    }
}

/// Decoding runs left to right: after a text that decodes completely, the
/// rest decodes on its own.
proof fn lemma_decode_concat(x: Seq<u8>, y: Seq<u8>)
    requires
        percent_decode_bytes(x) is Some,
    ensures
        percent_decode_bytes(x + y) == match percent_decode_bytes(y) {
            Some(q) => Some(percent_decode_bytes(x)->0 + q),
            None => None::<Seq<u8>>,
        },
    decreases x.len(),
{
    if x.len() == 0 {
        assert(x + y =~= y);
        match percent_decode_bytes(y) {
            Some(q) => {
                assert(percent_decode_bytes(x)->0 + q =~= q);
            },
            None => {},
        }
    } else if x[0] == 37 {
        assert((x + y).skip(3) =~= x.skip(3) + y);
        lemma_decode_concat(x.skip(3), y);
        match percent_decode_bytes(y) {
            Some(q) => {
                let p = percent_decode_bytes(x.skip(3))->0;
                let v = escape_value(x[1], x[2])->0;
                assert(seq![v] + (p + q) =~= (seq![v] + p) + q);
            },
            None => {},
        }
    } else {
        assert((x + y).skip(1) =~= x.skip(1) + y);
        lemma_decode_concat(x.skip(1), y);
        match percent_decode_bytes(y) {
            Some(q) => {
                let p = percent_decode_bytes(x.skip(1))->0;
                assert(seq![x[0]] + (p + q) =~= (seq![x[0]] + p) + q);
            },
            None => {},
        }
    }
}

proof fn lemma_decode_encode_byte(x: u8)
    ensures
        percent_decode_bytes(encode_byte_raw(x)) == Some(seq![x]),
{
    let r = encode_byte_raw(x);
    assert(percent_decode_bytes(Seq::<u8>::empty()) == Some(Seq::<u8>::empty()));
    if is_unreserved(x) {
        assert(r.skip(1) =~= Seq::<u8>::empty());
        assert(seq![x] + Seq::<u8>::empty() =~= seq![x]);
    } else {
        lemma_hex_upper(x / 16);
        lemma_hex_upper(x % 16);
        assert(r.skip(3) =~= Seq::<u8>::empty());
        assert(escape_value(r[1], r[2]) == Some(x));
        assert(seq![x] + Seq::<u8>::empty() =~= seq![x]);
    }
}

proof fn lemma_decode_encode_bytes(b: Seq<u8>)
    ensures
        percent_decode_bytes(encode_bytes_raw(b)) == Some(b),
        forall|i: int| 0 <= i < encode_bytes_raw(b).len() ==> #[trigger] encode_bytes_raw(b)[i] != 63,
    decreases b.len(),
{
    if b.len() > 0 {
        lemma_decode_encode_bytes(b.drop_last());
        lemma_decode_encode_byte(b.last());
        lemma_decode_concat(encode_bytes_raw(b.drop_last()), encode_byte_raw(b.last()));
        assert(b.drop_last() + seq![b.last()] =~= b);
        let pre = encode_bytes_raw(b.drop_last());
        let last = encode_byte_raw(b.last());
        if !is_unreserved(b.last()) {
            lemma_hex_upper(b.last() / 16);
            lemma_hex_upper(b.last() % 16);
        }
        assert forall|i: int| 0 <= i < (pre + last).len() implies #[trigger] (pre + last)[i] != 63 by {
            if i < pre.len() {
                assert((pre + last)[i] == pre[i]);
            } else {
                assert((pre + last)[i] == last[i - pre.len()]);
            }
        }
    }
}

/// A name written into a PROPFIND href decodes back to the same name:
/// percent-decoding the encoded segment gives the name back.
pub proof fn lemma_path_segment_round_trip(name: Seq<char>)
    ensures
        percent_decode_spec(encode_path_segment_spec(name)) == Ok::<Seq<char>, Seq<char>>(name),
{
    let b = encode_utf8(name);
    let e = encode_bytes(b);
    lemma_encode_bytes_ascii(b);
    is_ascii_chars_encode_utf8(e);
    assert(encode_utf8(e) =~= ascii_bytes(e));
    lemma_decode_encode_bytes(b);
    let raw = encode_bytes_raw(b);
    lemma_before_query_prefix(raw, raw.len() as int);
    assert(raw.subrange(0, raw.len() as int) =~= raw);
    encode_utf8_valid_utf8(name);
    encode_utf8_decode_utf8(name);
}


/// `Last-Modified` as this server writes it: seconds since the epoch.
pub open spec fn http_date_spec(md: ResourceInfo) -> Seq<char> {
    decimal(md.modified as nat)
}

/// The `Last-Modified` value: seconds since the Unix epoch.
pub fn http_date(md: &ResourceInfo) -> (s: String)
    ensures
        s@ == http_date_spec(*md),
{
    decimal_string(md.modified as u128)
}

// ---------------------------------------------------------------------------
// OPTIONS
// ---------------------------------------------------------------------------

/// The answer to `OPTIONS`: DAV compliance classes and the supported methods.
pub fn options() -> (r: Response)
    ensures
        r.status == 204,
        r.reason == "No Content",
        header_pairs(r.headers@) == seq![
            ("DAV"@, "1,2"@),
            ("Allow"@, "OPTIONS, PROPFIND, GET, HEAD, PUT, DELETE, MKCOL, COPY, MOVE"@),
        ],
        r.body@.len() == 0,
{
    let r = Response::new(204, "No Content").with_header("DAV", "1,2").with_header(
        "Allow",
        "OPTIONS, PROPFIND, GET, HEAD, PUT, DELETE, MKCOL, COPY, MOVE",
    );
    assert(header_pairs(r.headers@) =~= seq![
        ("DAV"@, "1,2"@),
        ("Allow"@, "OPTIONS, PROPFIND, GET, HEAD, PUT, DELETE, MKCOL, COPY, MOVE"@),
    ]);
    r
}

// ---------------------------------------------------------------------------
// PROPFIND
// ---------------------------------------------------------------------------

/// A byte that needs no escaping in a path segment.
pub open spec fn is_unreserved(b: u8) -> bool {
    (65 <= b <= 90) || (97 <= b <= 122) || (48 <= b <= 57) || b == 46 || b == 45 || b == 95
}

/// Upper-case hexadecimal digit for a value below sixteen.
pub open spec fn hex_upper(d: u8) -> char {
    if d < 10 {
        ((d + 48) as u8) as char
    } else {
        ((d + 55) as u8) as char
    }
}

/// One byte of a name as it appears in a URL path segment.
pub open spec fn encode_byte(b: u8) -> Seq<char> {
    if is_unreserved(b) {
        seq![b as char]
    } else {
        seq!['%', hex_upper(b / 16), hex_upper(b % 16)]
    }
}

pub open spec fn encode_bytes(b: Seq<u8>) -> Seq<char>
    decreases b.len(),
{
    if b.len() == 0 {
        Seq::empty()
    } else {
        encode_bytes(b.drop_last()) + encode_byte(b.last())
    }
}

/// A name as a URL path segment: letters, digits, `.`, `-` and `_` stay, every
/// other byte of its UTF-8 form becomes `%XX`.
pub open spec fn encode_path_segment_spec(s: Seq<char>) -> Seq<char> {
    encode_bytes(encode_utf8(s))
}

/// A name as a URL path segment.
pub fn encode_path_segment(input: &str) -> (out: String)
    ensures
        out@ == encode_path_segment_spec(input@),
{
    let b = bytes_of(input);
    let mut out = String::new();
    let mut i: usize = 0;
    while i < b.len()
        invariant
            b@ == encode_utf8(input@),
            0 <= i <= b.len(),
            out@ == encode_bytes(b@.subrange(0, i as int)),
        decreases b.len() - i,
    {
        let x = b[i];
        let ghost before = out@;
        if (65 <= x && x <= 90) || (97 <= x && x <= 122) || (48 <= x && x <= 57) || x == 46 || x
            == 45 || x == 95 {
            push_char(&mut out, x as char);
            assert(out@ =~= before + encode_byte(x));
        } else {
            push_char(&mut out, '%');
            push_char(&mut out, hex_upper_exec(x / 16));
            push_char(&mut out, hex_upper_exec(x % 16));
            assert(out@ =~= before + encode_byte(x));
        }
        proof {
            let pre = b@.subrange(0, i + 1);
            assert(pre.drop_last() =~= b@.subrange(0, i as int));
        }
        i += 1;
    }
    assert(b@.subrange(0, b@.len() as int) =~= b@);
    out
}

fn hex_upper_exec(d: u8) -> (c: char)
    requires
        d < 16,
    ensures
        c == hex_upper(d),
{
    if d < 10 {
        (d + 48) as char
    } else {
        (d + 55) as char
    }
}

/// One `<D:response>` element of a multistatus document.
pub open spec fn response_xml(href: Seq<char>, md: ResourceInfo) -> Seq<char> {
    "  <D:response>\n    <D:href>"@ + xml_escape_spec(href)
        + "</D:href>\n    <D:propstat>\n      <D:prop>\n        <D:resourcetype>"@ + (if md.is_dir {
        "<D:collection/>"@
    } else {
        ""@
    }) + "</D:resourcetype>\n        <D:getcontentlength>"@ + decimal(
        if md.is_dir {
            0
        } else {
            md.len as nat
        },
    ) + "</D:getcontentlength>\n        <D:getlastmodified>"@ + xml_escape_spec(
        http_date_spec(md),
    )
        + "</D:getlastmodified>\n      </D:prop>\n      <D:status>HTTP/1.1 200 OK</D:status>\n    </D:propstat>\n  </D:response>"@
}

fn render_response_with_href(href: &str, md: &ResourceInfo) -> (s: String)
    ensures
        s@ == response_xml(href@, *md),
{
    let mut s = owned("  <D:response>\n    <D:href>");
    let esc = xml_escape(href);
    push_str(&mut s, esc.as_str());
    push_str(&mut s, "</D:href>\n    <D:propstat>\n      <D:prop>\n        <D:resourcetype>");
    if md.is_dir {
        push_str(&mut s, "<D:collection/>");
    } else {
        push_str(&mut s, "");
    }
    push_str(&mut s, "</D:resourcetype>\n        <D:getcontentlength>");
    let len = if md.is_dir {
        0
    } else {
        md.len
    };
    let len_text = decimal_string(len as u128);
    push_str(&mut s, len_text.as_str());
    push_str(&mut s, "</D:getcontentlength>\n        <D:getlastmodified>");
    let date = http_date(md);
    let date_esc = xml_escape(date.as_str());
    push_str(&mut s, date_esc.as_str());
    push_str(
        &mut s,
        "</D:getlastmodified>\n      </D:prop>\n      <D:status>HTTP/1.1 200 OK</D:status>\n    </D:propstat>\n  </D:response>",
    );
    s
}

/// The href of the requested resource itself: a folder gets a trailing `/`.
pub open spec fn self_href(path: Seq<char>, md: ResourceInfo) -> Seq<char> {
    if md.is_dir && !ends_with(path, "/"@) {
        path + "/"@
    } else {
        path
    }
}

fn render_response(path: &str, md: &ResourceInfo) -> (s: String)
    ensures
        s@ == response_xml(self_href(path@, *md), *md),
{
    let pc = chars_of(path);
    let ends = pc.len() > 0 && pc[pc.len() - 1] == '/';
    proof {
        reveal_strlit("/");
        if pc@.len() > 0 {
            assert(ends_with(pc@, "/"@) == (pc@.last() == '/')) by {
                let t = pc@.subrange(pc@.len() - 1, pc@.len() as int);
                if pc@.last() == '/' {
                    assert(t =~= "/"@);
                } else {
                    assert(t[0] != "/"@[0]);
                }
            }
        }
    }
    if md.is_dir && !ends {
        let mut href = owned(path);
        push_str(&mut href, "/");
        render_response_with_href(href.as_str(), md)
    } else {
        render_response_with_href(path, md)
    }
}

/// `s` without its trailing `/` characters.
pub open spec fn trim_trailing_slashes(s: Seq<char>) -> Seq<char>
    decreases s.len(),
{
    if s.len() > 0 && s.last() == '/' {
        trim_trailing_slashes(s.drop_last())
    } else {
        s
    }
}

/// The href of a child of `parent`: the parent with a `/`, the escaped name,
/// and a trailing `/` that only folders keep.
pub open spec fn child_href(parent: Seq<char>, name: Seq<char>, md: ResourceInfo) -> Seq<char> {
    let base = if ends_with(parent, "/"@) {
        parent
    } else {
        parent + "/"@
    };
    let href = base + encode_path_segment_spec(name) + "/"@;
    if md.is_dir {
        href
    } else {
        trim_trailing_slashes(href)
    }
}

fn render_child_response(parent: &str, entry: &FsEntry) -> (s: String)
    ensures
        s@ == response_xml(child_href(parent@, entry.name@, entry.metadata), entry.metadata),
{
    let pc = chars_of(parent);
    proof {
        reveal_strlit("/");
        if pc@.len() > 0 {
            let t = pc@.subrange(pc@.len() - 1, pc@.len() as int);
            if pc@.last() == '/' {
                assert(t =~= "/"@);
            } else {
                assert(t[0] != "/"@[0]);
            }
        }
    }
    let mut href = owned(parent);
    if !(pc.len() > 0 && pc[pc.len() - 1] == '/') {
        push_str(&mut href, "/");
    }
    let enc = encode_path_segment(entry.name.as_str());
    push_str(&mut href, enc.as_str());
    push_str(&mut href, "/");
    if entry.metadata.is_dir {
        render_response_with_href(href.as_str(), &entry.metadata)
    } else {
        let hc = chars_of(href.as_str());
        let mut end = hc.len();
        proof {
            assert(hc@.subrange(0, hc@.len() as int) =~= hc@);
        }
        while end > 0 && hc[end - 1] == '/'
            invariant
                0 <= end <= hc.len(),
                trim_trailing_slashes(hc@) == trim_trailing_slashes(hc@.subrange(0, end as int)),
            decreases end,
        {
            assert(hc@.subrange(0, end as int).drop_last() =~= hc@.subrange(0, end - 1));
            end -= 1;
        }
        proof {
            assert(hc@.subrange(0, hc@.len() as int) =~= hc@);
        }
        let trimmed = string_of_range(&hc, 0, end);
        render_response_with_href(trimmed.as_str(), &entry.metadata)
    }
}

/// The `Depth` a PROPFIND asks for; `1` when the header is absent.
pub open spec fn propfind_depth(request: Request) -> Seq<char> {
    if request.headers.view().contains_key("depth"@) {
        request.headers.view()["depth"@]
    } else {
        "1"@
    }
}

/// Whether a PROPFIND of this resource lists the folder's entries.
pub open spec fn propfind_lists_children_spec(request: Request, md: ResourceInfo) -> bool {
    md.is_dir && propfind_depth(request) != "0"@
}

/// Whether a PROPFIND of this resource lists the folder's entries: the
/// resource is a folder and the depth is not `0`.
pub fn propfind_lists_children(request: &Request, md: &ResourceInfo) -> (b: bool)
    ensures
        b == propfind_lists_children_spec(*request, *md),
{
    if !md.is_dir {
        return false;
    }
    match request.headers.get("depth") {
        Some(d) => {
            let z = crate::text::same_text(d.as_str(), "0");
            assert(propfind_depth(*request) == d@);
            !z
        },
        None => {
            proof {
                reveal_strlit("1");
                reveal_strlit("0");
                assert("1"@[0] != "0"@[0]);
                assert(propfind_depth(*request) == "1"@);
            }
            true
        },
    }
}

pub open spec fn join_lines(parts: Seq<Seq<char>>) -> Seq<char>
    decreases parts.len(),
{
    if parts.len() == 0 {
        Seq::empty()
    } else if parts.len() == 1 {
        parts[0]
    } else {
        join_lines(parts.drop_last()) + "\n"@ + parts.last()
    }
}

/// The `<D:response>` elements of a PROPFIND answer: the resource itself, then
/// each listed entry.
pub open spec fn propfind_parts(
    request: Request,
    md: ResourceInfo,
    children: Seq<FsEntry>,
) -> Seq<Seq<char>> {
    seq![response_xml(self_href(request.path@, md), md)] + if propfind_lists_children_spec(
        request,
        md,
    ) {
        children.map_values(
            |e: FsEntry| response_xml(child_href(request.path@, e.name@, e.metadata), e.metadata),
        )
    } else {
        Seq::empty()
    }
}

/// A PROPFIND document holds one response for the resource itself (its href
/// ending in `/` for a folder), then, for a folder unless the depth is `0`,
/// one per listed entry in the order given, each named by its encoded name
/// under the folder's path; a file gives exactly one.
pub proof fn lemma_propfind_responses(request: Request, md: ResourceInfo, children: Seq<FsEntry>)
    ensures
        propfind_parts(request, md, children).len() == if md.is_dir && propfind_depth(request)
            != "0"@ {
            children.len() + 1
        } else {
            1
        },
        propfind_parts(request, md, children)[0] == response_xml(self_href(request.path@, md), md),
        md.is_dir && propfind_depth(request) != "0"@ ==> forall|i: int|
            0 <= i < children.len() ==> propfind_parts(request, md, children)[i + 1]
                == response_xml(
                child_href(request.path@, (#[trigger] children[i]).name@, children[i].metadata),
                children[i].metadata,
            ),
        !md.is_dir ==> propfind_parts(request, md, children).len() == 1,
{
}

/// How the `Depth` header decides a folder's listing: without the header, or
/// with any depth other than `0`, every entry is listed after the folder
/// itself; `Depth: 0` lists the folder alone. A file is always alone.
pub proof fn lemma_propfind_depth_rules(request: Request, md: ResourceInfo, children: Seq<FsEntry>)
    ensures
        md.is_dir && !request.headers.view().contains_key("depth"@) ==> propfind_parts(
            request,
            md,
            children,
        ).len() == children.len() + 1,
        md.is_dir && request.headers.view().contains_key("depth"@)
            && request.headers.view()["depth"@] != "0"@ ==> propfind_parts(
            request,
            md,
            children,
        ).len() == children.len() + 1,
        md.is_dir && request.headers.view().contains_key("depth"@)
            && request.headers.view()["depth"@] == "0"@ ==> propfind_parts(
            request,
            md,
            children,
        ).len() == 1,
        !md.is_dir ==> propfind_parts(request, md, children).len() == 1,
{
    reveal_strlit("1");
    reveal_strlit("0");
    assert("1"@ != "0"@) by {
        assert("1"@[0] != "0"@[0]);
    }
}

/// The multistatus document of a PROPFIND answer.
pub open spec fn propfind_xml(request: Request, md: ResourceInfo, children: Seq<FsEntry>) -> Seq<
    char,
> {
    "<?xml version=\"1.0\" encoding=\"utf-8\"?>\n<D:multistatus xmlns:D=\"DAV:\">\n"@ + join_lines(
        propfind_parts(request, md, children),
    ) + "\n</D:multistatus>"@
}

/// The multistatus document for a resource with metadata `md`; `children`
/// are the folder's visible entries, listed when the depth asks for them.
pub fn build_propfind_xml(request: &Request, md: &ResourceInfo, children: &Vec<FsEntry>) -> (s:
    String)
    ensures
        s@ == propfind_xml(*request, *md, children@),
{
    let ghost parts = propfind_parts(*request, *md, children@);
    let mut body = owned(
        "<?xml version=\"1.0\" encoding=\"utf-8\"?>\n<D:multistatus xmlns:D=\"DAV:\">\n",
    );
    let first = render_response(request.path.as_str(), md);
    let mut joined = first;
    let lists = propfind_lists_children(request, md);
    proof {
        assert(parts[0] == joined@);
        assert(join_lines(parts.subrange(0, 1)) == joined@) by {
            assert(parts.subrange(0, 1).len() == 1);
        }
    }
    if lists {
        let mut i: usize = 0;
        while i < children.len()
            invariant
                lists == propfind_lists_children_spec(*request, *md),
                lists,
                parts == propfind_parts(*request, *md, children@),
                parts.len() == children@.len() + 1,
                0 <= i <= children.len(),
                joined@ == join_lines(parts.subrange(0, i + 1)),
            decreases children.len() - i,
        {
            let child = render_child_response(request.path.as_str(), &children[i]);
            push_str(&mut joined, "\n");
            push_str(&mut joined, child.as_str());
            proof {
                let pre = parts.subrange(0, i + 2);
                assert(pre.drop_last() =~= parts.subrange(0, i + 1));
                assert(pre.last() == child@);
            }
            i += 1;
        }
        assert(parts.subrange(0, parts.len() as int) =~= parts);
    } else {
        assert(parts.len() == 1);
        assert(parts.subrange(0, 1) =~= parts);
    }
    push_str(&mut body, joined.as_str());
    push_str(&mut body, "\n</D:multistatus>");
    body
}

/// The `207 Multi-Status` answer to a PROPFIND of a resource with metadata `md`
/// and, for a folder, the entries `children` (listed unless `Depth` is `0`).
pub fn propfind(request: &Request, md: &ResourceInfo, children: &Vec<FsEntry>) -> (r: Response)
    ensures
        r.status == 207,
        r.reason == "Multi-Status",
        header_pairs(r.headers@) == seq![("Content-Type"@, "application/xml; charset=utf-8"@)],
        r.body@ == encode_utf8(propfind_xml(*request, *md, children@)),
{
    let body = build_propfind_xml(request, md, children);
    let bytes = bytes_of(body.as_str());
    let r = Response::new(207, "Multi-Status").with_header(
        "Content-Type",
        "application/xml; charset=utf-8",
    ).with_body(bytes);
    assert(header_pairs(r.headers@) =~= seq![
        ("Content-Type"@, "application/xml; charset=utf-8"@),
    ]);
    r
}

} // verus!

verus! {

// ---------------------------------------------------------------------------
// GET and HEAD
// ---------------------------------------------------------------------------

/// The last component of a path, as `Path::file_name` finds it: trailing `/`
/// and `.` components are skipped, and `..` has no file name.
pub open spec fn file_name_spec(p: Seq<char>) -> Option<Seq<char>>
    decreases p.len(),
{
    let t = trim_trailing_slashes(p);
    if t.len() == 0 {
        None
    } else {
        let seg = after_last_slash(t);
        let rest = t.subrange(0, t.len() - seg.len());
        if seg == "."@ && rest.len() < p.len() {
            file_name_spec(rest)
        } else if seg == "."@ || seg == ".."@ {
            None
        } else {
            Some(seg)
        }
    }
}

/// The characters after the last `/`.
pub open spec fn after_last_slash(s: Seq<char>) -> Seq<char>
    decreases s.len(),
{
    if s.len() == 0 || s.last() == '/' {
        Seq::empty()
    } else {
        after_last_slash(s.drop_last()).push(s.last())
    }
}

/// Index of the last occurrence of `c`, or `-1`.
pub open spec fn rfind(s: Seq<char>, c: char) -> int
    decreases s.len(),
{
    if s.len() == 0 {
        -1
    } else if s.last() == c {
        s.len() - 1
    } else {
        rfind(s.drop_last(), c)
    }
}

/// The extension of a file name, as `Path::extension` finds it: the text after
/// the last `.`, unless that dot starts the name.
pub open spec fn extension_spec(name: Seq<char>) -> Option<Seq<char>> {
    let k = rfind(name, '.');
    if k <= 0 {
        None
    } else {
        Some(name.subrange(k + 1, name.len() as int))
    }
}

pub open spec fn ascii_lower_char(c: char) -> char {
    if 'A' <= c && c <= 'Z' {
        ((c as u32 + 32) as u8) as char
    } else {
        c
    }
}

/// `str::to_ascii_lowercase`.
pub open spec fn ascii_lower(s: Seq<char>) -> Seq<char> {
    s.map_values(|c: char| ascii_lower_char(c))
}

/// The media type for a (lower-case) extension.
pub open spec fn media_type(ext: Seq<char>) -> Seq<char> {
    if ext == "html"@ {
        "text/html; charset=utf-8"@
    } else if ext == "txt"@ {
        "text/plain; charset=utf-8"@
    } else if ext == "json"@ {
        "application/json"@
    } else if ext == "xml"@ {
        "application/xml"@
    } else if ext == "jpg"@ || ext == "jpeg"@ {
        "image/jpeg"@
    } else if ext == "png"@ {
        "image/png"@
    } else if ext == "gif"@ {
        "image/gif"@
    } else if ext == "mp4"@ {
        "video/mp4"@
    } else if ext == "mkv"@ {
        "video/x-matroska"@
    } else if ext == "mp3"@ {
        "audio/mpeg"@
    } else if ext == "pdf"@ {
        "application/pdf"@
    } else {
        "application/octet-stream"@
    }
}

/// The `Content-Type` for a file path, chosen by its extension, case-insensitively.
pub open spec fn content_type_spec(path: Seq<char>) -> Seq<char> {
    let ext = match file_name_spec(path) {
        Some(name) => match extension_spec(name) {
            Some(e) => e,
            None => ""@,
        },
        None => ""@,
    };
    media_type(ascii_lower(ext))
}

proof fn lemma_trim_trailing_prefix(s: Seq<char>, k: int)
    requires
        0 <= k <= s.len(),
        forall|j: int| k <= j < s.len() ==> s[j] == '/',
    ensures
        trim_trailing_slashes(s) == trim_trailing_slashes(s.subrange(0, k)),
    decreases s.len() - k,
{
    if k < s.len() {
        assert(s.drop_last().subrange(0, k) =~= s.subrange(0, k));
        lemma_trim_trailing_prefix(s.drop_last(), k);
    } else {
        assert(s.subrange(0, k) =~= s);
    }
}

proof fn lemma_after_last_slash(s: Seq<char>, a: int)
    requires
        0 <= a <= s.len(),
        forall|j: int| a <= j < s.len() ==> s[j] != '/',
        a == 0 || s[a - 1] == '/',
    ensures
        after_last_slash(s) == s.subrange(a, s.len() as int),
    decreases s.len(),
{
    if s.len() > a {
        lemma_after_last_slash(s.drop_last(), a);
        assert(s.drop_last().subrange(a, s.len() - 1).push(s.last()) =~= s.subrange(
            a,
            s.len() as int,
        ));
    } else if a > 0 {
        assert(s.last() == '/');
    }
}

proof fn lemma_rfind(s: Seq<char>, c: char, k: int)
    requires
        -1 <= k < s.len(),
        k >= 0 ==> s[k] == c,
        forall|j: int| k < j < s.len() ==> s[j] != c,
    ensures
        rfind(s, c) == k,
    decreases s.len(),
{
    if s.len() > 0 && s.len() - 1 != k {
        lemma_rfind(s.drop_last(), c, k);
    }
}

/// The file name of a path (see `file_name_spec`), as bounds into `p`.
fn file_name_bounds(p: &Vec<char>) -> (r: Option<(usize, usize)>)
    ensures
        match r {
            Some((a, b)) => a <= b <= p.len() && file_name_spec(p@) == Some(
                p@.subrange(a as int, b as int),
            ),
            None => file_name_spec(p@) is None,
        },
{
    proof {
        reveal_strlit(".");
        reveal_strlit("..");
    }
    let mut end = p.len();
    assert(p@.subrange(0, end as int) =~= p@);
    loop
        invariant
            0 <= end <= p.len(),
            file_name_spec(p@) == file_name_spec(p@.subrange(0, end as int)),
        decreases end,
    {
        let ghost q = p@.subrange(0, end as int);
        let mut e = end;
        while e > 0 && p[e - 1] == '/'
            invariant
                0 <= e <= end <= p.len(),
                forall|j: int| e <= j < end ==> p@[j] == '/',
            decreases e,
        {
            e -= 1;
        }
        proof {
            lemma_trim_trailing_prefix(q, e as int);
            assert(q.subrange(0, e as int) =~= p@.subrange(0, e as int));
            if e > 0 {
                assert(p@.subrange(0, e as int).last() != '/');
            }
        }
        let ghost t = p@.subrange(0, e as int);
        assert(trim_trailing_slashes(q) == t);
        if e == 0 {
            return None;
        }
        let mut a = e;
        while a > 0 && p[a - 1] != '/'
            invariant
                0 <= a <= e <= p.len(),
                forall|j: int| a <= j < e ==> p@[j] != '/',
            decreases a,
        {
            a -= 1;
        }
        proof {
            lemma_after_last_slash(t, a as int);
            assert(t.subrange(a as int, e as int) =~= p@.subrange(a as int, e as int));
            assert(t.subrange(0, a as int) =~= p@.subrange(0, a as int));
        }
        let is_dot = e - a == 1 && p[a] == '.';
        let is_dotdot = e - a == 2 && p[a] == '.' && p[a + 1] == '.';
        proof {
            reveal_strlit(".");
            reveal_strlit("..");
            let seg = p@.subrange(a as int, e as int);
            if is_dot {
                assert(seg =~= "."@);
            } else if seg.len() == 1 {
                assert(seg[0] != "."@[0]);
            } else {
                assert(seg.len() != "."@.len());
            }
            if is_dotdot {
                assert(seg =~= ".."@);
            } else if seg.len() == 2 {
                assert(seg[0] != ".."@[0] || seg[1] != ".."@[1]);
            } else {
                assert(seg.len() != ".."@.len());
            }
        }
        if is_dot {
            end = a;
        } else if is_dotdot {
            return None;
        } else {
            return Some((a, e));
        }
    }
}

/// The `Content-Type` for the file at `path`.
pub fn content_type(path: &str) -> (t: &'static str)
    ensures
        t@ == content_type_spec(path@),
{
    let pc = chars_of(path);
    let mut ext: Vec<char> = Vec::new();
    let ghost ext_spec: Seq<char> = match file_name_spec(path@) {
        Some(name) => match extension_spec(name) {
            Some(e) => e,
            None => ""@,
        },
        None => ""@,
    };
    proof {
        reveal_strlit("");
    }
    match file_name_bounds(&pc) {
        Some((a, b)) => {
            let ghost name = pc@.subrange(a as int, b as int);
            let mut k = b;
            while k > a && pc[k - 1] != '.'
                invariant
                    a <= k <= b <= pc.len(),
                    forall|j: int| k <= j < b ==> pc@[j] != '.',
                decreases k,
            {
                k -= 1;
            }
            proof {
                let kk = if k > a {
                    k - 1 - a
                } else {
                    -1
                };
                assert forall|j: int| kk < j < name.len() implies name[j] != '.' by {
                    assert(name[j] == pc@[a + j]);
                }
                lemma_rfind(name, '.', kk);
            }
            if k > a && k - a > 1 {
                let mut i = k;
                while i < b
                    invariant
                        k <= i <= b <= pc.len(),
                        ext@ == ascii_lower(pc@.subrange(k as int, i as int)),
                    decreases b - i,
                {
                    let c = pc[i];
                    let l = if 'A' <= c && c <= 'Z' {
                        ((c as u32 + 32) as u8) as char
                    } else {
                        c
                    };
                    ext.push(l);
                    assert(ascii_lower(pc@.subrange(k as int, i + 1)) =~= ascii_lower(
                        pc@.subrange(k as int, i as int),
                    ).push(l));
                    i += 1;
                }
                assert(name.subrange(k - a, name.len() as int) =~= pc@.subrange(k as int, b as int));
            }
        },
        None => {},
    }
    assert(ext@ == ascii_lower(ext_spec));
    media_type_exec(&ext)
}

fn media_type_exec(ext: &Vec<char>) -> (t: &'static str)
    ensures
        t@ == media_type(ext@),
{
    let n = ext.len();
    proof {
        reveal_strlit("html");
        reveal_strlit("txt");
        reveal_strlit("json");
        reveal_strlit("xml");
        reveal_strlit("jpg");
        reveal_strlit("jpeg");
        reveal_strlit("png");
        reveal_strlit("gif");
        reveal_strlit("mp4");
        reveal_strlit("mkv");
        reveal_strlit("mp3");
        reveal_strlit("pdf");
        assert(ext@.subrange(0, n as int) =~= ext@);
    }
    if range_equals(ext, 0, n, "html") {
        "text/html; charset=utf-8"
    } else if range_equals(ext, 0, n, "txt") {
        "text/plain; charset=utf-8"
    } else if range_equals(ext, 0, n, "json") {
        "application/json"
    } else if range_equals(ext, 0, n, "xml") {
        "application/xml"
    } else if range_equals(ext, 0, n, "jpg") || range_equals(ext, 0, n, "jpeg") {
        "image/jpeg"
    } else if range_equals(ext, 0, n, "png") {
        "image/png"
    } else if range_equals(ext, 0, n, "gif") {
        "image/gif"
    } else if range_equals(ext, 0, n, "mp4") {
        "video/mp4"
    } else if range_equals(ext, 0, n, "mkv") {
        "video/x-matroska"
    } else if range_equals(ext, 0, n, "mp3") {
        "audio/mpeg"
    } else if range_equals(ext, 0, n, "pdf") {
        "application/pdf"
    } else {
        proof {
            assert(ext@.subrange(0, n as int) =~= ext@);
        }
        "application/octet-stream"
    }
}

} // verus!

verus! {

/// The byte range a GET or HEAD answers with: the range the `Range` header
/// selects (206), or the whole file (200).
#[derive(Debug, Clone, Copy, PartialEq, Eq, Structural)]
pub struct ReadPlan {
    pub status: u16,
    pub start: u64,
    pub end: u64,
}

/// The range that the request's `Range` header selects from a file of `size` bytes.
pub open spec fn requested_range(request: Request, size: u64) -> Option<ByteRange> {
    if request.headers.view().contains_key("range"@) {
        parse_range_spec(request.headers.view()["range"@], size)
    } else {
        None
    }
}

pub open spec fn read_plan_spec(request: Request, size: u64) -> ReadPlan {
    match requested_range(request, size) {
        Some(r) => ReadPlan { status: 206, start: r.start, end: r.end },
        None => ReadPlan { status: 200, start: 0, end: if size == 0 {
            0
        } else {
            (size - 1) as u64
        } },
    }
}

/// Chooses what a GET or HEAD of a file of `size` bytes sends.
pub fn plan_read(request: &Request, size: u64) -> (p: ReadPlan)
    ensures
        p == read_plan_spec(*request, size),
        p.start <= p.end,
        size > 0 ==> p.end < size,
{
    match request.headers.get("range") {
        Some(v) => match parse_range(v.as_str(), size) {
            Some(r) => ReadPlan { status: 206, start: r.start, end: r.end },
            None => ReadPlan { status: 200, start: 0, end: size.saturating_sub(1) },
        },
        None => ReadPlan { status: 200, start: 0, end: size.saturating_sub(1) },
    }
}

/// The bytes of the file that a GET or HEAD needs, as an offset and a length;
/// `None` for a folder or an empty file.
pub fn read_window(request: &Request, md: &ResourceInfo) -> (w: Option<(u64, u64)>)
    ensures
        match w {
            Some((offset, len)) => !md.is_dir && md.len > 0 && offset == read_plan_spec(
                *request,
                md.len,
            ).start && len == read_plan_spec(*request, md.len).end - read_plan_spec(
                *request,
                md.len,
            ).start + 1 && offset + len <= md.len,
            None => md.is_dir || md.len == 0,
        },
{
    if md.is_dir || md.len == 0 {
        return None;
    }
    let plan = plan_read(request, md.len);
    Some((plan.start, plan.end - plan.start + 1))
}

/// `Content-Range` for a partial answer: `bytes start-end/size`.
pub open spec fn content_range_spec(start: u64, end: u64, size: u64) -> Seq<char> {
    "bytes "@ + decimal(start as nat) + "-"@ + decimal(end as nat) + "/"@ + decimal(size as nat)
}

/// The headers of an answer to GET or HEAD for a file.
pub open spec fn file_headers(path: Seq<char>, md: ResourceInfo, plan: ReadPlan) -> Seq<
    (Seq<char>, Seq<char>),
> {
    seq![
        ("Content-Type"@, content_type_spec(path)),
        ("Accept-Ranges"@, "bytes"@),
        ("Last-Modified"@, http_date_spec(md)),
    ] + if plan.status == 206 {
        seq![("Content-Range"@, content_range_spec(plan.start, plan.end, md.len))]
    } else {
        Seq::empty()
    }
}

/// Answers GET or HEAD for the resource at `path` with metadata `md`; `body`
/// holds the bytes that `read_window` asks for. A folder is refused: its
/// listing goes through PROPFIND.
pub fn get_or_head(request: &Request, path: &str, md: &ResourceInfo, body: Vec<u8>) -> (r:
    Response)
    ensures
        md.is_dir ==> {
            &&& r.status == 403
            &&& r.reason == "Forbidden"
            &&& header_pairs(r.headers@) == seq![
                ("Content-Type"@, "text/plain; charset=utf-8"@),
            ]
            &&& r.body@ == encode_utf8("Directory listing is available via PROPFIND"@)
        },
        !md.is_dir ==> {
            let plan = read_plan_spec(*request, md.len);
            &&& r.status == plan.status
            &&& r.reason == (if plan.status == 206 {
                "Partial Content"
            } else {
                "OK"
            })
            &&& header_pairs(r.headers@) == file_headers(path@, *md, plan)
            &&& r.body == body
        },
{
    if md.is_dir {
        return Response::text(403, "Forbidden", "Directory listing is available via PROPFIND");
    }
    let plan = plan_read(request, md.len);
    let reason = if plan.status == 206 {
        "Partial Content"
    } else {
        "OK"
    };
    let date = http_date(md);
    let mut response = Response::new(plan.status, reason).with_header(
        "Content-Type",
        content_type(path),
    ).with_header("Accept-Ranges", "bytes").with_header("Last-Modified", date.as_str()).with_body(
        body,
    );
    if plan.status == 206 {
        let mut range = owned("bytes ");
        let a = decimal_string(plan.start as u128);
        push_str(&mut range, a.as_str());
        push_str(&mut range, "-");
        let b = decimal_string(plan.end as u128);
        push_str(&mut range, b.as_str());
        push_str(&mut range, "/");
        let c = decimal_string(md.len as u128);
        push_str(&mut range, c.as_str());
        response = response.with_header("Content-Range", range.as_str());
    }
    assert(header_pairs(response.headers@) =~= file_headers(path@, *md, plan));
    response
}

} // verus!
