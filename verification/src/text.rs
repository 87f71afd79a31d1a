//! Character-level helpers shared by the parsers and renderers: whitespace
//! trimming, searching, decimal numbers, and building strings.
use vstd::prelude::*;

verus! {

// ---------------------------------------------------------------------------
// Specifications
// ---------------------------------------------------------------------------

/// The Unicode `White_Space` property, which is what `char::is_whitespace` tests.
pub open spec fn is_space(c: char) -> bool {
    ||| ('\u{9}' <= c && c <= '\u{d}')
    ||| c == ' '
    ||| c == '\u{85}'
    ||| c == '\u{a0}'
    ||| c == '\u{1680}'
    ||| ('\u{2000}' <= c && c <= '\u{200a}')
    ||| c == '\u{2028}'
    ||| c == '\u{2029}'
    ||| c == '\u{202f}'
    ||| c == '\u{205f}'
    ||| c == '\u{3000}'
}

/// `s` with its leading whitespace removed.
pub open spec fn trim_start(s: Seq<char>) -> Seq<char>
    decreases s.len(),
{
    if s.len() > 0 && is_space(s[0]) {
        trim_start(s.drop_first())
    } else {
        s
    }
}

/// `s` with its trailing whitespace removed.
pub open spec fn trim_end(s: Seq<char>) -> Seq<char>
    decreases s.len(),
{
    if s.len() > 0 && is_space(s.last()) {
        trim_end(s.drop_last())
    } else {
        s
    }
}

/// `s` with whitespace removed at both ends, as `str::trim` does.
pub open spec fn trim(s: Seq<char>) -> Seq<char> {
    trim_end(trim_start(s))
}

/// Index of the first occurrence of `c` in `s`, or `-1`.
pub open spec fn find(s: Seq<char>, c: char) -> int
    decreases s.len(),
{
    if s.len() == 0 {
        -1
    } else if s[0] == c {
        0
    } else {
        let r = find(s.drop_first(), c);
        if r < 0 {
            -1
        } else {
            r + 1
        }
    }
}

/// `p` is a prefix of `s`.
pub open spec fn starts_with(s: Seq<char>, p: Seq<char>) -> bool {
    p.len() <= s.len() && s.subrange(0, p.len() as int) == p
}

/// `p` is a suffix of `s`.
pub open spec fn ends_with(s: Seq<char>, p: Seq<char>) -> bool {
    p.len() <= s.len() && s.subrange(s.len() - p.len(), s.len() as int) == p
}

/// The ASCII digit for a value below ten.
pub open spec fn digit_char(d: nat) -> char {
    ((d + 48) as u8) as char
}

/// Decimal notation of `n`, without sign or leading zeros.
pub open spec fn decimal(n: nat) -> Seq<char>
    decreases n,
{
    if n < 10 {
        seq![digit_char(n)]
    } else {
        decimal(n / 10).push(digit_char(n % 10))
    }
}

pub open spec fn is_digit(c: char) -> bool {
    '0' <= c && c <= '9'
}

pub open spec fn digit_value(c: char) -> nat {
    (c as int - 48) as nat
}

/// The number that a non-empty run of decimal digits denotes.
pub open spec fn digits_value(s: Seq<char>) -> nat
    decreases s.len(),
{
    if s.len() == 0 {
        0
    } else {
        digits_value(s.drop_last()) * 10 + digit_value(s.last())
    }
}

pub open spec fn all_digits(s: Seq<char>) -> bool {
    forall|i: int| 0 <= i < s.len() ==> is_digit(#[trigger] s[i])
}

/// What `str::parse` yields for an unsigned integer type whose largest value is
/// `max`: an optional `+`, then at least one decimal digit, and a value in range.
pub open spec fn parse_unsigned(s: Seq<char>, max: nat) -> Option<nat> {
    let digits = if s.len() > 0 && s[0] == '+' {
        s.drop_first()
    } else {
        s
    };
    if digits.len() > 0 && all_digits(digits) && digits_value(digits) <= max {
        Some(digits_value(digits))
    } else {
        None
    }
}

// ---------------------------------------------------------------------------
// Lemmas
// ---------------------------------------------------------------------------

/// Dropping leading whitespace one character at a time does not change `trim_start`.
pub proof fn lemma_trim_start_skip(s: Seq<char>, i: int)
    requires
        0 <= i <= s.len(),
        forall|j: int| 0 <= j < i ==> is_space(#[trigger] s[j]),
    ensures
        trim_start(s) == trim_start(s.subrange(i, s.len() as int)),
    decreases i,
{
    if i > 0 {
        assert(s.drop_first().subrange(i - 1, s.drop_first().len() as int) =~= s.subrange(
            i,
            s.len() as int,
        ));
        lemma_trim_start_skip(s.drop_first(), i - 1);
    } else {
        assert(s.subrange(0, s.len() as int) =~= s);
    }
}

pub proof fn lemma_trim_end_skip(s: Seq<char>, k: int)
    requires
        0 <= k <= s.len(),
        forall|j: int| k <= j < s.len() ==> is_space(#[trigger] s[j]),
    ensures
        trim_end(s) == trim_end(s.subrange(0, k)),
    decreases s.len() - k,
{
    if k < s.len() {
        assert(s.drop_last().subrange(0, k) =~= s.subrange(0, k));
        lemma_trim_end_skip(s.drop_last(), k);
    } else {
        assert(s.subrange(0, k) =~= s);
    }
}

/// Trimming leaves nothing exactly when `s` is all whitespace.
pub proof fn lemma_trim_empty(s: Seq<char>)
    ensures
        (trim(s).len() == 0) == (trim_end(s).len() == 0),
    decreases s.len(),
{
    lemma_trim_end_of_trim_start(s);
}

pub open spec fn all_space(s: Seq<char>) -> bool {
    forall|j: int| 0 <= j < s.len() ==> is_space(#[trigger] s[j])
}

proof fn lemma_all_space_trim_start(s: Seq<char>)
    ensures
        all_space(trim_start(s)) == all_space(s),
    decreases s.len(),
{
    if s.len() > 0 && is_space(s[0]) {
        lemma_all_space_trim_start(s.drop_first());
        if all_space(s.drop_first()) {
            assert forall|j: int| 0 <= j < s.len() implies is_space(#[trigger] s[j]) by {
                if j > 0 {
                    assert(s[j] == s.drop_first()[j - 1]);
                }
            }
        }
        if all_space(s) {
            assert forall|j: int| 0 <= j < s.drop_first().len() implies is_space(
                #[trigger] s.drop_first()[j],
            ) by {
                assert(s.drop_first()[j] == s[j + 1]);
            }
        }
    }
}

proof fn lemma_trim_end_of_trim_start(s: Seq<char>)
    ensures
        (trim_end(trim_start(s)).len() == 0) == (trim_end(s).len() == 0),
{
    lemma_all_space_trim_start(s);
    lemma_trim_end_all_space(s);
    lemma_trim_end_all_space(trim_start(s));
}

/// `trim_end` empties `s` exactly when every character of `s` is whitespace.
proof fn lemma_trim_end_all_space(s: Seq<char>)
    ensures
        (trim_end(s).len() == 0) == (forall|j: int| 0 <= j < s.len() ==> is_space(#[trigger] s[j])),
    decreases s.len(),
{
    if s.len() > 0 {
        lemma_trim_end_all_space(s.drop_last());
        if is_space(s.last()) {
            assert forall|j: int| 0 <= j < s.len() && (forall|i: int| 0 <= i < s.drop_last().len() ==> is_space(#[trigger] s.drop_last()[i])) implies is_space(#[trigger] s[j]) by {
                if j < s.len() - 1 {
                    assert(s[j] == s.drop_last()[j]);
                }
            }
            assert((forall|j: int| 0 <= j < s.len() ==> is_space(#[trigger] s[j])) ==> (forall|i: int| 0 <= i < s.drop_last().len() ==> is_space(#[trigger] s.drop_last()[i]))) by {
                assert forall|i: int| 0 <= i < s.drop_last().len() && (forall|j: int| 0 <= j < s.len() ==> is_space(#[trigger] s[j])) implies is_space(#[trigger] s.drop_last()[i]) by {
                    assert(s.drop_last()[i] == s[i]);
                }
            }
        } else {
            assert(!is_space(s[s.len() - 1]));
        }
    }
}

pub proof fn lemma_find_first(s: Seq<char>, c: char, i: int)
    requires
        0 <= i < s.len(),
        s[i] == c,
        forall|j: int| 0 <= j < i ==> s[j] != c,
    ensures
        find(s, c) == i,
    decreases i,
{
    if i > 0 {
        lemma_find_first(s.drop_first(), c, i - 1);
    }
}

pub proof fn lemma_find_none(s: Seq<char>, c: char)
    requires
        forall|j: int| 0 <= j < s.len() ==> s[j] != c,
    ensures
        find(s, c) == -1,
    decreases s.len(),
{
    if s.len() > 0 {
        lemma_find_none(s.drop_first(), c);
    }
}

/// What `find` says about the sequence.
pub proof fn lemma_find_facts(s: Seq<char>, c: char)
    ensures
        -1 <= find(s, c) < s.len(),
        find(s, c) >= 0 ==> s[find(s, c)] == c,
        forall|j: int| 0 <= j < s.len() && (find(s, c) < 0 || j < find(s, c)) ==> s[j] != c,
    decreases s.len(),
{
    if s.len() > 0 {
        lemma_find_facts(s.drop_first(), c);
        if s[0] != c {
            assert forall|j: int|
                0 <= j < s.len() && (find(s, c) < 0 || j < find(s, c)) implies s[j] != c by {
                if j > 0 {
                    assert(s[j] == s.drop_first()[j - 1]);
                }
            }
        }
    }
}

/// The lines of a text, as `str::lines` yields them: split at `\n`, a `\r`
/// before the `\n` dropped, and no empty line after a final `\n`.
pub open spec fn lines(s: Seq<char>) -> Seq<Seq<char>>
    decreases s.len(),
{
    if s.len() == 0 {
        Seq::empty()
    } else {
        let k = find(s, '\n');
        if k < 0 {
            seq![s]
        } else {
            proof {
                lemma_find_facts(s, '\n');
            }
            seq![strip_cr(s.subrange(0, k))] + lines(s.subrange(k + 1, s.len() as int))
        }
    }
}

pub open spec fn strip_cr(s: Seq<char>) -> Seq<char> {
    if s.len() > 0 && s.last() == '\r' {
        s.drop_last()
    } else {
        s
    }
}

/// One step of splitting `v[pos..]` into lines.
pub proof fn lemma_lines_step(v: Seq<char>, pos: int, k: int)
    requires
        0 <= pos < v.len(),
        k == find(v.subrange(pos, v.len() as int), '\n'),
    ensures
        lines(v.subrange(pos, v.len() as int)) == if k < 0 {
            seq![v.subrange(pos, v.len() as int)]
        } else {
            seq![strip_cr(v.subrange(pos, pos + k))] + lines(v.subrange(pos + k + 1, v.len() as int))
        },
{
    let rest = v.subrange(pos, v.len() as int);
    lemma_find_facts(rest, '\n');
    if k >= 0 {
        assert(rest.subrange(0, k) =~= v.subrange(pos, pos + k));
        assert(rest.subrange(k + 1, rest.len() as int) =~= v.subrange(pos + k + 1, v.len() as int));
    }
}

/// How many times `c` occurs in `s`.
pub open spec fn count_char(s: Seq<char>, c: char) -> nat
    decreases s.len(),
{
    if s.len() == 0 {
        0
    } else {
        count_char(s.drop_last(), c) + if s.last() == c {
            1nat
        } else {
            0nat
        }
    }
}

/// Occurrences add up over a concatenation.
pub proof fn lemma_count_concat(a: Seq<char>, b: Seq<char>, c: char)
    ensures
        count_char(a + b, c) == count_char(a, c) + count_char(b, c),
    decreases b.len(),
{
    if b.len() == 0 {
        assert(a + b =~= a);
    } else {
        assert((a + b).drop_last() =~= a + b.drop_last());
        lemma_count_concat(a, b.drop_last(), c);
    }
}

/// A sequence without `c` has no occurrence of it.
pub proof fn lemma_count_none(s: Seq<char>, c: char)
    requires
        forall|i: int| 0 <= i < s.len() ==> s[i] != c,
    ensures
        count_char(s, c) == 0,
    decreases s.len(),
{
    if s.len() > 0 {
        lemma_count_none(s.drop_last(), c);
    }
}

/// Decimal digits hold no newline.
pub proof fn lemma_decimal_no_newline(n: nat)
    ensures
        count_char(decimal(n), '\n') == 0,
    decreases n,
{
    let d = digit_char(n % 10);
    assert(d != '\n') by {
        assert((n % 10) < 10);
    }
    if n >= 10 {
        lemma_decimal_no_newline(n / 10);
        assert(decimal(n).drop_last() =~= decimal(n / 10));
        assert(decimal(n).last() == d);
    } else {
        assert(decimal(n).drop_last() =~= Seq::<char>::empty());
        assert(decimal(n).last() == d);
        assert(count_char(Seq::<char>::empty(), '\n') == 0);
    }
    assert(count_char(decimal(n), '\n') == count_char(decimal(n).drop_last(), '\n'));
}

/// A text that ends in a newline has as many lines as newlines.
pub proof fn lemma_lines_count(s: Seq<char>)
    requires
        s.len() == 0 || s.last() == '\n',
    ensures
        lines(s).len() == count_char(s, '\n'),
    decreases s.len(),
{
    if s.len() > 0 {
        lemma_find_facts(s, '\n');
        let k = find(s, '\n');
        assert(k >= 0);
        let rest = s.subrange(k + 1, s.len() as int);
        assert(s =~= s.subrange(0, k) + seq!['\n'] + rest);
        lemma_count_concat(s.subrange(0, k) + seq!['\n'], rest, '\n');
        lemma_count_concat(s.subrange(0, k), seq!['\n'], '\n');
        lemma_count_none(s.subrange(0, k), '\n');
        assert(seq!['\n'].drop_last() =~= Seq::<char>::empty());
        assert(count_char(Seq::<char>::empty(), '\n') == 0);
        assert(count_char(seq!['\n'], '\n') == 1);
        if rest.len() > 0 {
            assert(rest.last() == s.last());
        }
        lemma_lines_count(rest);
        assert(lines(s) == seq![strip_cr(s.subrange(0, k))] + lines(rest));
        assert(count_char(s, '\n') == 1 + count_char(rest, '\n'));
    }
}

/// A text that does not end in a newline has one line more than it has newlines.
pub proof fn lemma_lines_count_unterminated(s: Seq<char>)
    requires
        s.len() > 0,
        s.last() != '\n',
    ensures
        lines(s).len() == count_char(s, '\n') + 1,
    decreases s.len(),
{
    lemma_find_facts(s, '\n');
    let k = find(s, '\n');
    if k < 0 {
        lemma_count_none(s, '\n');
    } else {
        let rest = s.subrange(k + 1, s.len() as int);
        assert(k < s.len() - 1);
        assert(s =~= s.subrange(0, k) + seq!['\n'] + rest);
        lemma_count_concat(s.subrange(0, k) + seq!['\n'], rest, '\n');
        lemma_count_concat(s.subrange(0, k), seq!['\n'], '\n');
        lemma_count_none(s.subrange(0, k), '\n');
        assert(seq!['\n'].drop_last() =~= Seq::<char>::empty());
        assert(count_char(Seq::<char>::empty(), '\n') == 0);
        assert(count_char(seq!['\n'], '\n') == 1);
        assert(rest.last() == s.last());
        lemma_lines_count_unterminated(rest);
        assert(lines(s) == seq![strip_cr(s.subrange(0, k))] + lines(rest));
    }
}

// ---------------------------------------------------------------------------
// Executable helpers
// ---------------------------------------------------------------------------

/// Appends one character: `String::push`.
#[verifier::external_body]
pub(crate) fn push_char(s: &mut String, c: char)
    ensures
        final(s)@ == old(s)@.push(c),
{
    s.push(c);
}

/// The characters of a string slice, in order.
pub fn chars_of(s: &str) -> (out: Vec<char>)
    ensures
        out@ == s@,
{
    let mut out: Vec<char> = Vec::new();
    for c in it: s.chars()
        invariant
            it.seq() == s@,
            out@ == it.seq().take(it.index() as int),
    {
        out.push(c);
    }
    out
}

/// A string made of the characters `v[lo..hi]`.
pub fn string_of_range(v: &Vec<char>, lo: usize, hi: usize) -> (out: String)
    requires
        lo <= hi <= v.len(),
    ensures
        out@ == v@.subrange(lo as int, hi as int),
{
    let mut out = String::new();
    let mut i = lo;
    while i < hi
        invariant
            lo <= i <= hi <= v.len(),
            out@ == v@.subrange(lo as int, i as int),
        decreases hi - i,
    {
        push_char(&mut out, v[i]);
        assert(v@.subrange(lo as int, i + 1) =~= v@.subrange(lo as int, i as int).push(v@[i as int]));
        i += 1;
    }
    out
}

/// The lines of `s`, as `str::lines` yields them.
pub fn lines_of(s: &str) -> (out: Vec<String>)
    ensures
        out@.len() == lines(s@).len(),
        forall|i: int| 0 <= i < out@.len() ==> #[trigger] out@[i]@ == lines(s@)[i],
{
    let v = chars_of(s);
    let n = v.len();
    let mut out: Vec<String> = Vec::new();
    let ghost mut done: Seq<Seq<char>> = Seq::empty();
    let mut pos: usize = 0;
    assert(v@.subrange(0, n as int) =~= v@);
    while pos < n
        invariant
            v@ == s@,
            n == v@.len(),
            pos <= n,
            out@.len() == done.len(),
            forall|i: int| 0 <= i < out@.len() ==> #[trigger] out@[i]@ == done[i],
            lines(s@) == done + lines(v@.subrange(pos as int, n as int)),
        decreases n - pos,
    {
        match find_in(&v, pos, n, '\n') {
            None => {
                proof {
                    lemma_lines_step(v@, pos as int, -1);
                }
                let line = string_of_range(&v, pos, n);
                proof {
                    assert(lines(v@.subrange(n as int, n as int)) =~= Seq::<Seq<char>>::empty());
                    assert(done + seq![line@] =~= done.push(line@));
                    done = done.push(line@);
                }
                out.push(line);
                pos = n;
            },
            Some(k) => {
                proof {
                    lemma_lines_step(v@, pos as int, k as int);
                }
                let end = if k > 0 && v[pos + k - 1] == '\r' {
                    pos + k - 1
                } else {
                    pos + k
                };
                let line = string_of_range(&v, pos, end);
                proof {
                    assert(line@ =~= strip_cr(v@.subrange(pos as int, pos + k)));
                    assert((done + seq![line@]) + lines(v@.subrange(pos + k + 1, n as int)) =~= done
                        + (seq![line@] + lines(v@.subrange(pos + k + 1, n as int))));
                    done = done.push(line@);
                }
                out.push(line);
                pos = pos + k + 1;
            },
        }
    }
    assert(lines(v@.subrange(n as int, n as int)) =~= Seq::<Seq<char>>::empty());
    assert(done + Seq::<Seq<char>>::empty() =~= done);
    out
}

/// Appends a string slice.
pub fn push_str(s: &mut String, t: &str)
    ensures
        final(s)@ == old(s)@ + t@,
{
    let cs = chars_of(t);
    let mut i: usize = 0;
    while i < cs.len()
        invariant
            cs@ == t@,
            0 <= i <= cs.len(),
            s@ == old(s)@ + t@.subrange(0, i as int),
        decreases cs.len() - i,
    {
        push_char(s, cs[i]);
        assert(t@.subrange(0, i + 1) =~= t@.subrange(0, i as int).push(t@[i as int]));
        i += 1;
    }
    assert(t@.subrange(0, t@.len() as int) =~= t@);
}

/// An owned copy of a string slice.
pub fn owned(t: &str) -> (out: String)
    ensures
        out@ == t@,
{
    t.to_owned()
}

/// Whether two string slices hold the same characters.
pub fn same_text(a: &str, b: &str) -> (res: bool)
    ensures
        res == (a@ == b@),
{
    let x = a.to_owned();
    let y = b.to_owned();
    x == y
}

/// Bounds `(a, b)` such that `v[a..b]` is `v[lo..hi]` with whitespace trimmed.
pub fn trim_bounds(v: &Vec<char>, lo: usize, hi: usize) -> (r: (usize, usize))
    requires
        lo <= hi <= v.len(),
    ensures
        lo <= r.0 <= r.1 <= hi,
        v@.subrange(r.0 as int, r.1 as int) == trim(v@.subrange(lo as int, hi as int)),
{
    let ghost s = v@.subrange(lo as int, hi as int);
    let mut a = lo;
    while a < hi && is_space_exec(v[a])
        invariant
            lo <= a <= hi <= v.len(),
            s == v@.subrange(lo as int, hi as int),
            forall|j: int| lo <= j < a ==> is_space(#[trigger] v@[j]),
        decreases hi - a,
    {
        a += 1;
    }
    proof {
        assert forall|j: int| 0 <= j < a - lo implies is_space(#[trigger] s[j]) by {
            assert(s[j] == v@[lo + j]);
        }
        lemma_trim_start_skip(s, a - lo);
        assert(s.subrange(a - lo, s.len() as int) =~= v@.subrange(a as int, hi as int));
        if a < hi {
            assert(!is_space(v@[a as int]));
            assert(trim_start(v@.subrange(a as int, hi as int)) == v@.subrange(a as int, hi as int));
        } else {
            assert(v@.subrange(a as int, hi as int).len() == 0);
        }
    }
    let ghost t = v@.subrange(a as int, hi as int);
    let mut b = hi;
    while b > a && is_space_exec(v[b - 1])
        invariant
            lo <= a <= b <= hi <= v.len(),
            t == v@.subrange(a as int, hi as int),
            forall|j: int| b <= j < hi ==> is_space(#[trigger] v@[j]),
        decreases b - a,
    {
        b -= 1;
    }
    proof {
        assert forall|j: int| b - a <= j < t.len() implies is_space(#[trigger] t[j]) by {
            assert(t[j] == v@[a + j]);
        }
        lemma_trim_end_skip(t, b - a);
        assert(t.subrange(0, b - a) =~= v@.subrange(a as int, b as int));
        if b > a {
            assert(!is_space(v@[b - 1]));
            let u = v@.subrange(a as int, b as int);
            assert(u.last() == v@[b - 1]);
        }
    }
    (a, b)
}

/// `char::is_whitespace`.
pub fn is_space_exec(c: char) -> (res: bool)
    ensures
        res == is_space(c),
{
    ('\u{9}' <= c && c <= '\u{d}') || c == ' ' || c == '\u{85}' || c == '\u{a0}' || c
        == '\u{1680}' || ('\u{2000}' <= c && c <= '\u{200a}') || c == '\u{2028}' || c
        == '\u{2029}' || c == '\u{202f}' || c == '\u{205f}' || c == '\u{3000}'
}

/// First index of `c` in `v[lo..hi]`, relative to `lo`, as `find` gives it.
pub fn find_in(v: &Vec<char>, lo: usize, hi: usize, c: char) -> (r: Option<usize>)
    requires
        lo <= hi <= v.len(),
    ensures
        match r {
            Some(i) => i < hi - lo && find(v@.subrange(lo as int, hi as int), c) == i,
            None => find(v@.subrange(lo as int, hi as int), c) == -1,
        },
{
    let ghost s = v@.subrange(lo as int, hi as int);
    let mut i = lo;
    while i < hi
        invariant
            lo <= i <= hi <= v.len(),
            s == v@.subrange(lo as int, hi as int),
            forall|j: int| lo <= j < i ==> v@[j] != c,
        decreases hi - i,
    {
        if v[i] == c {
            proof {
                assert forall|j: int| 0 <= j < i - lo implies s[j] != c by {
                    assert(s[j] == v@[lo + j]);
                }
                lemma_find_first(s, c, i - lo);
            }
            return Some(i - lo);
        }
        i += 1;
    }
    proof {
        assert forall|j: int| 0 <= j < s.len() implies s[j] != c by {
            assert(s[j] == v@[lo + j]);
        }
        lemma_find_none(s, c);
    }
    None
}

/// Whether `v[lo..hi]` starts with the characters of `p`.
pub fn range_starts_with(v: &Vec<char>, lo: usize, hi: usize, p: &str) -> (res: bool)
    requires
        lo <= hi <= v.len(),
    ensures
        res == starts_with(v@.subrange(lo as int, hi as int), p@),
{
    let pc = chars_of(p);
    if pc.len() > hi - lo {
        return false;
    }
    let mut i: usize = 0;
    while i < pc.len()
        invariant
            pc@ == p@,
            pc.len() <= hi - lo,
            lo <= hi <= v.len(),
            0 <= i <= pc.len(),
            forall|j: int| 0 <= j < i ==> v@[lo + j] == pc@[j],
        decreases pc.len() - i,
    {
        if v[lo + i] != pc[i] {
            proof {
                let s = v@.subrange(lo as int, hi as int);
                assert(s.subrange(0, p@.len() as int)[i as int] != p@[i as int]);
            }
            return false;
        }
        i += 1;
    }
    proof {
        let s = v@.subrange(lo as int, hi as int);
        assert(s.subrange(0, p@.len() as int) =~= p@);
    }
    true
}

/// Whether `v[lo..hi]` is exactly the characters of `p`.
pub fn range_equals(v: &Vec<char>, lo: usize, hi: usize, p: &str) -> (res: bool)
    requires
        lo <= hi <= v.len(),
    ensures
        res == (v@.subrange(lo as int, hi as int) == p@),
{
    let n = p.unicode_len();
    if n != hi - lo {
        return false;
    }
    let sw = range_starts_with(v, lo, hi, p);
    proof {
        let s = v@.subrange(lo as int, hi as int);
        assert(s.subrange(0, p@.len() as int) =~= s);
    }
    sw
}

/// Decimal notation of `n`.
pub fn decimal_string(n: u128) -> (out: String)
    ensures
        out@ == decimal(n as nat),
{
    let mut digits: Vec<char> = Vec::new();
    let mut m = n;
    let ghost mut rest: Seq<char> = Seq::empty();
    // digits holds the low-order digits, most significant last
    while m >= 10
        invariant
            decimal(n as nat) == decimal(m as nat) + digits@.reverse(),
        decreases m,
    {
        let d = (m % 10) as u8;
        assert(decimal(m as nat) == decimal((m / 10) as nat).push(digit_char((m % 10) as nat)));
        digits.push(((d + 48) as u8) as char);
        proof {
            assert(digits@.reverse() =~= seq![digit_char((m % 10) as nat)] + digits@.drop_last().reverse());
        }
        m = m / 10;
    }
    let first = (((m as u8) + 48) as u8) as char;
    digits.push(first);
    assert(digits@.reverse() =~= seq![first] + digits@.drop_last().reverse());
    let mut out = String::new();
    let mut i = digits.len();
    while i > 0
        invariant
            0 <= i <= digits.len(),
            out@ == digits@.reverse().subrange(0, digits.len() - i),
        decreases i,
    {
        i -= 1;
        push_char(&mut out, digits[i]);
        assert(digits@.reverse().subrange(0, digits.len() - i) =~= digits@.reverse().subrange(
            0,
            digits.len() - i - 1,
        ).push(digits@[i as int]));
    }
    assert(digits@.reverse().subrange(0, digits.len() as int) =~= digits@.reverse());
    assert(decimal(m as nat) == seq![first]);
    out
}

/// Parses `v[lo..hi]` as an unsigned number no greater than `max`, as `str::parse` does.
pub fn parse_unsigned_range(v: &Vec<char>, lo: usize, hi: usize, max: u64) -> (r: Option<u64>)
    requires
        lo <= hi <= v.len(),
        max >= 9,
    ensures
        match parse_unsigned(v@.subrange(lo as int, hi as int), max as nat) {
            Some(x) => r == Some(x as u64),
            None => r is None,
        },
{
    let ghost s = v@.subrange(lo as int, hi as int);
    let start = if lo < hi && v[lo] == '+' {
        lo + 1
    } else {
        lo
    };
    let ghost digits = v@.subrange(start as int, hi as int);
    assert(digits =~= (if s.len() > 0 && s[0] == '+' {
        s.drop_first()
    } else {
        s
    }));
    if start == hi {
        return None;
    }
    let mut value: u64 = 0;
    let mut i = start;
    while i < hi
        invariant
            lo <= start <= i <= hi <= v.len(),
            max >= 9,
            s == v@.subrange(lo as int, hi as int),
            digits == (if s.len() > 0 && s[0] == '+' {
                s.drop_first()
            } else {
                s
            }),
            digits.len() > 0,
            digits == v@.subrange(start as int, hi as int),
            all_digits(v@.subrange(start as int, i as int)),
            value == digits_value(v@.subrange(start as int, i as int)),
            value <= max,
        decreases hi - i,
    {
        let c = v[i];
        let ghost pre = v@.subrange(start as int, i as int);
        let ghost next = v@.subrange(start as int, i + 1);
        assert(next.drop_last() =~= pre);
        if !('0' <= c && c <= '9') {
            assert(!all_digits(digits)) by {
                assert(digits[i - start] == c);
                assert(!is_digit(digits[i - start]));
            }
            assert(parse_unsigned(s, max as nat) is None);
            return None;
        }
        let d = (c as u32 - 48) as u64;
        assert(d <= 9);
        assert(d == digit_value(c));
        if value > (max - d) / 10 {
            // the value is already too large; the full number only grows
            proof {
                assert(value * 10 + d > max) by (nonlinear_arith)
                    requires
                        value > (max - d) / 10,
                        d <= 9,
                        d <= max,
                ;
                lemma_digits_prefix_monotone(digits, i + 1 - start);
                assert(digits.subrange(0, i + 1 - start) =~= next);
                assert(next.last() == c);
                assert(digits_value(next) == value * 10 + d);
            }
            assert(parse_unsigned(s, max as nat) is None);
            return None;
        }
        assert(all_digits(next)) by {
            assert forall|j: int| 0 <= j < next.len() implies is_digit(#[trigger] next[j]) by {
                if j < pre.len() {
                    assert(next[j] == pre[j]);
                }
            }
        }
        assert(value * 10 + d <= max) by (nonlinear_arith)
            requires
                value <= (max - d) / 10,
                d <= max,
        ;
        value = value * 10 + d;
        i += 1;
    }
    assert(v@.subrange(start as int, hi as int) =~= digits);
    Some(value)
}

/// A prefix of a run of digits never denotes more than the whole run.
pub proof fn lemma_digits_prefix_monotone(s: Seq<char>, k: int)
    requires
        0 <= k <= s.len(),
    ensures
        all_digits(s) ==> digits_value(s.subrange(0, k)) <= digits_value(s),
    decreases s.len() - k,
{
    if k < s.len() && all_digits(s) {
        assert(all_digits(s.drop_last()));
        assert(s.drop_last().subrange(0, k) =~= s.subrange(0, k));
        lemma_digits_prefix_monotone(s.drop_last(), k);
    } else if k == s.len() {
        assert(s.subrange(0, k) =~= s);
    }
}

} // verus!
