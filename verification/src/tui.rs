//! The console dashboard: ANSI-coloured text, the logo header, and the
//! endpoint panel. What it prints and when it redraws stays with the caller.
use vstd::prelude::*;

use crate::events::{duration_nanos, duration_nanos_of, ActivityEntry, Counters, Metrics};
use crate::fs_backend::string_views;
use crate::server::ServerInfo;
use crate::text::{
    count_char, find, lemma_count_concat, lemma_count_none, lemma_decimal_no_newline,
    lemma_find_facts, lemma_lines_count, lemma_lines_count_unterminated, strip_cr,
    chars_of, decimal, decimal_string, lines, lines_of, owned, push_char, push_str,
    string_of_range,
};

verus! {

// ---------------------------------------------------------------------------
// Text styling
// ---------------------------------------------------------------------------

/// `v` in the ANSI foreground colour `code`, reset afterwards.
pub open spec fn color_spec(v: Seq<char>, code: nat) -> Seq<char> {
    "\x1b["@ + decimal(code) + "m"@ + v + "\x1b[0m"@
}

/// `v` in bold, reset afterwards.
pub open spec fn bold_spec(v: Seq<char>) -> Seq<char> {
    "\x1b[1m"@ + v + "\x1b[0m"@
}

/// A dashboard line: the text, clear to the end of the row, newline.
pub open spec fn line_spec(v: Seq<char>) -> Seq<char> {
    v + "\x1b[K\n"@
}

/// An empty dashboard line.
pub open spec fn blank_line_spec() -> Seq<char> {
    "\x1b[K\n"@
}

/// The dashboard lines `ls`, one after the other.
pub open spec fn joined_lines(ls: Seq<Seq<char>>) -> Seq<char>
    decreases ls.len(),
{
    if ls.len() == 0 {
        Seq::empty()
    } else {
        joined_lines(ls.drop_last()) + line_spec(ls.last())
    }
}

/// Each line of `v` as a dashboard line.
pub open spec fn compact_block_spec(v: Seq<char>) -> Seq<char> {
    joined_lines(lines(v))
}

/// Each line of `v` as a dashboard line, then an empty one.
pub open spec fn block_spec(v: Seq<char>) -> Seq<char> {
    compact_block_spec(v) + blank_line_spec()
}

/// `s` cut to at most `max` characters, the last one an ellipsis where it was cut.
pub open spec fn truncate_spec(s: Seq<char>, max: nat) -> Seq<char> {
    if s.len() <= max {
        s
    } else {
        s.take(if max == 0 { 0 } else { max - 1 }) + seq!['…']
    }
}

/// `n` spaces.
pub open spec fn spaces(n: nat) -> Seq<char> {
    Seq::new(n, |i: int| ' ')
}

/// `s` padded with spaces on the right to `width` characters, as `{:<width}` does.
pub open spec fn pad_right_spec(s: Seq<char>, width: nat) -> Seq<char> {
    if s.len() >= width {
        s
    } else {
        s + spaces((width - s.len()) as nat)
    }
}

/// A section title: a yellow marker and the name in bold.
pub open spec fn section_spec(v: Seq<char>) -> Seq<char> {
    color_spec("▸"@, 33) + " "@ + bold_spec(v)
}

/// A labelled row of the endpoint panel; the value is cut to 72 characters.
pub open spec fn kv_spec(label: Seq<char>, value: Seq<char>) -> Seq<char> {
    "  "@ + color_spec("•"@, 36) + " "@ + pad_right_spec(color_spec(label, 90), 10) + " "@
        + truncate_spec(value, 72)
}

/// A labelled row of the telemetry panel.
pub open spec fn metric_spec(label: Seq<char>, value: Seq<char>) -> Seq<char> {
    "  "@ + color_spec("◆"@, 32) + " "@ + pad_right_spec(color_spec(label, 90), 10) + " "@ + value
}

/// `value` in the ANSI foreground colour `code`.
pub fn color(value: &str, code: u8) -> (out: String)
    ensures
        out@ == color_spec(value@, code as nat),
{
    let mut out = owned("\x1b[");
    let d = decimal_string(code as u128);
    push_str(&mut out, d.as_str());
    push_str(&mut out, "m");
    push_str(&mut out, value);
    push_str(&mut out, "\x1b[0m");
    out
}

/// `value` in bold.
pub fn bold(value: &str) -> (out: String)
    ensures
        out@ == bold_spec(value@),
{
    let mut out = owned("\x1b[1m");
    push_str(&mut out, value);
    push_str(&mut out, "\x1b[0m");
    out
}

/// `value` in grey.
pub fn dim(value: &str) -> (out: String)
    ensures
        out@ == color_spec(value@, 90),
{
    color(value, 90)
}

/// `value` in cyan.
pub fn cyan(value: &str) -> (out: String)
    ensures
        out@ == color_spec(value@, 36),
{
    color(value, 36)
}

/// `value` in green.
pub fn green(value: &str) -> (out: String)
    ensures
        out@ == color_spec(value@, 32),
{
    color(value, 32)
}

/// `value` in yellow.
pub fn yellow(value: &str) -> (out: String)
    ensures
        out@ == color_spec(value@, 33),
{
    color(value, 33)
}

/// `value` in magenta.
pub fn magenta(value: &str) -> (out: String)
    ensures
        out@ == color_spec(value@, 35),
{
    color(value, 35)
}

/// `value` in red.
pub fn red(value: &str) -> (out: String)
    ensures
        out@ == color_spec(value@, 31),
{
    color(value, 31)
}

/// `value` as one dashboard line.
pub fn line(value: &str) -> (out: String)
    ensures
        out@ == line_spec(value@),
{
    let mut out = owned(value);
    push_str(&mut out, "\x1b[K\n");
    out
}

/// An empty dashboard line.
pub fn blank_line() -> (out: String)
    ensures
        out@ == blank_line_spec(),
{
    owned("\x1b[K\n")
}

/// Each line of `value` as a dashboard line.
pub fn compact_block(value: &str) -> (out: String)
    ensures
        out@ == compact_block_spec(value@),
{
    let ls = lines_of(value);
    let ghost all = lines(value@);
    let mut out = String::new();
    let mut i: usize = 0;
    while i < ls.len()
        invariant
            all == lines(value@),
            ls@.len() == all.len(),
            forall|j: int| 0 <= j < ls@.len() ==> #[trigger] ls@[j]@ == all[j],
            i <= ls.len(),
            out@ == joined_lines(all.take(i as int)),
        decreases ls.len() - i,
    {
        let l = line(ls[i].as_str());
        push_str(&mut out, l.as_str());
        proof {
            assert(all.take(i + 1).drop_last() =~= all.take(i as int));
        }
        i += 1;
    }
    assert(all.take(ls.len() as int) =~= all);
    out
}

/// Each line of `value` as a dashboard line, then an empty one.
pub fn block(value: &str) -> (out: String)
    ensures
        out@ == block_spec(value@),
{
    let mut out = compact_block(value);
    let b = blank_line();
    push_str(&mut out, b.as_str());
    out
}

/// `input` cut to at most `max` characters, ending in `…` where it was cut.
pub fn truncate(input: &str, max: usize) -> (out: String)
    ensures
        out@ == truncate_spec(input@, max as nat),
{
    let v = chars_of(input);
    if v.len() <= max {
        return owned(input);
    }
    let keep = if max == 0 {
        0
    } else {
        max - 1
    };
    let mut out = string_of_range(&v, 0, keep);
    push_char(&mut out, '…');
    assert(v@.subrange(0, keep as int) =~= input@.take(keep as int));
    out
}

/// `s` padded with spaces on the right to `width` characters.
pub fn pad_right(s: &str, width: usize) -> (out: String)
    ensures
        out@ == pad_right_spec(s@, width as nat),
{
    let v = chars_of(s);
    let mut out = owned(s);
    let mut n = v.len();
    while n < width
        invariant
            v@ == s@,
            v@.len() <= n <= width || (n == v@.len() && n >= width),
            out@ == s@ + spaces((n - v@.len()) as nat),
        decreases width - n,
    {
        push_char(&mut out, ' ');
        assert(spaces((n + 1 - v@.len()) as nat) =~= spaces((n - v@.len()) as nat).push(' '));
        n += 1;
    }
    assert(s@ + spaces(0) =~= s@);
    out
}

/// A section title.
pub fn section(value: &str) -> (out: String)
    ensures
        out@ == section_spec(value@),
{
    let mut out = yellow("▸");
    push_str(&mut out, " ");
    let b = bold(value);
    push_str(&mut out, b.as_str());
    out
}

/// A labelled row of the endpoint panel.
pub fn kv(label: &str, value: &str) -> (out: String)
    ensures
        out@ == kv_spec(label@, value@),
{
    let mut out = owned("  ");
    let dot = cyan("•");
    push_str(&mut out, dot.as_str());
    push_str(&mut out, " ");
    let l = dim(label);
    let padded = pad_right(l.as_str(), 10);
    push_str(&mut out, padded.as_str());
    push_str(&mut out, " ");
    let t = truncate(value, 72);
    push_str(&mut out, t.as_str());
    out
}

/// A labelled row of the telemetry panel.
pub fn metric(label: &str, value: &str) -> (out: String)
    ensures
        out@ == metric_spec(label@, value@),
{
    let mut out = owned("  ");
    let dot = green("◆");
    push_str(&mut out, dot.as_str());
    push_str(&mut out, " ");
    let l = dim(label);
    let padded = pad_right(l.as_str(), 10);
    push_str(&mut out, padded.as_str());
    push_str(&mut out, " ");
    push_str(&mut out, value);
    out
}

// ---------------------------------------------------------------------------
// The header
// ---------------------------------------------------------------------------

/// Which terminal the dashboard draws for.
#[derive(Clone, Copy, Debug, PartialEq, Eq, Structural)]
pub enum Platform {
    Windows,
    Other,
}

/// How much of the logo the header shows.
#[derive(Clone, Copy, Debug, PartialEq, Eq, Structural)]
pub enum HeaderStyle {
    Full,
    Compact,
}

/// How many rows the dashboard body takes.
#[derive(Clone, Copy, Debug, PartialEq, Eq, Structural)]
pub enum DashboardDensity {
    Full,
    Compact,
}

/// The large block-letter logo.
pub open spec fn full_logo_spec() -> Seq<Seq<char>> {
    seq![
        "██████╗   █████╗  ██╗   ██╗ ██████╗   ██████╗  ██╗  ██╗"@,
        "██╔══██╗ ██╔══██╗ ██║   ██║ ██╔══██╗ ██╔═══██╗ ╚██╗██╔╝"@,
        "██║  ██║ ███████║ ██║   ██║ ██████╔╝ ██║   ██║  ╚███╔╝ "@,
        "██║  ██║ ██╔══██║ ╚██╗ ██╔╝ ██╔══██╗ ██║   ██║  ██╔██╗ "@,
        "██████╔╝ ██║  ██║  ╚████╔╝  ██████╔╝ ╚██████╔╝ ██╔╝ ██╗"@,
        "╚═════╝  ╚═╝  ╚═╝   ╚═══╝   ╚═════╝   ╚═════╝  ╚═╝  ╚═╝"@,
    ]
}

/// The short block-letter logo.
pub open spec fn compact_logo_spec() -> Seq<Seq<char>> {
    seq![
        "████▄    █████   ██╗  ██╗ █████▄   █████   ██╗  ██╗"@,
        "██╔═██╗ ██╔══██╗ ██║  ██║ ██╔═██╗ ██╔══██╗ ╚██╗██╔╝"@,
        "█████╔╝ ██║  ██║ ╚████╔╝  █████╔╝ ╚█████╔╝ ██╔╝ ██╗"@,
    ]
}

/// The pixel logo drawn on Windows consoles, `#` for a lit cell.
pub open spec fn pixel_rows_spec() -> Seq<Seq<char>> {
    seq![
        "####   ###  #   # ####   ###  #   #"@,
        "#   # #   # #   # #   # #   # #   #"@,
        "#   # ##### #   # ####  #   #  # # "@,
        "#   # #   #  # #  #   # #   # #   #"@,
        "####  #   #   #   ####   ###  #   #"@,
    ]
}

/// The characters of each string.
pub open spec fn str_views(v: Seq<&str>) -> Seq<Seq<char>> {
    v.map_values(|s: &str| s@)
}

/// The colour of logo line `i`: the colours repeat every six lines.
pub open spec fn logo_color(i: nat) -> nat {
    let k = i % 6;
    if k <= 1 {
        36
    } else if k == 2 {
        32
    } else if k == 3 {
        33
    } else {
        35
    }
}

/// Logo lines, each coloured and drawn as a dashboard line.
pub open spec fn text_logo_spec(ls: Seq<Seq<char>>) -> Seq<char>
    decreases ls.len(),
{
    if ls.len() == 0 {
        Seq::empty()
    } else {
        text_logo_spec(ls.drop_last()) + line_spec(
            color_spec(ls.last(), logo_color((ls.len() - 1) as nat)),
        )
    }
}

/// The large logo's lines.
pub fn full_logo_lines() -> (out: Vec<&'static str>)
    ensures
        str_views(out@) == full_logo_spec(),
{
    let out = vec![
        "██████╗   █████╗  ██╗   ██╗ ██████╗   ██████╗  ██╗  ██╗",
        "██╔══██╗ ██╔══██╗ ██║   ██║ ██╔══██╗ ██╔═══██╗ ╚██╗██╔╝",
        "██║  ██║ ███████║ ██║   ██║ ██████╔╝ ██║   ██║  ╚███╔╝ ",
        "██║  ██║ ██╔══██║ ╚██╗ ██╔╝ ██╔══██╗ ██║   ██║  ██╔██╗ ",
        "██████╔╝ ██║  ██║  ╚████╔╝  ██████╔╝ ╚██████╔╝ ██╔╝ ██╗",
        "╚═════╝  ╚═╝  ╚═╝   ╚═══╝   ╚═════╝   ╚═════╝  ╚═╝  ╚═╝",
    ];
    assert(str_views(out@) =~= full_logo_spec());
    out
}

/// The short logo's lines.
pub fn compact_logo_lines() -> (out: Vec<&'static str>)
    ensures
        str_views(out@) == compact_logo_spec(),
{
    let out = vec![
        "████▄    █████   ██╗  ██╗ █████▄   █████   ██╗  ██╗",
        "██╔═██╗ ██╔══██╗ ██║  ██║ ██╔═██╗ ██╔══██╗ ╚██╗██╔╝",
        "█████╔╝ ██║  ██║ ╚████╔╝  █████╔╝ ╚█████╔╝ ██╔╝ ██╗",
    ];
    assert(str_views(out@) =~= compact_logo_spec());
    out
}

/// The pixel logo's rows.
pub fn pixel_logo_rows() -> (out: Vec<&'static str>)
    ensures
        str_views(out@) == pixel_rows_spec(),
{
    let out = vec![
        "####   ###  #   # ####   ###  #   #",
        "#   # #   # #   # #   # #   # #   #",
        "#   # ##### #   # ####  #   #  # # ",
        "#   # #   #  # #  #   # #   # #   #",
        "####  #   #   #   ####   ###  #   #",
    ];
    assert(str_views(out@) =~= pixel_rows_spec());
    out
}

/// The text logo lines for a header style.
pub fn render_logo_lines(style: HeaderStyle) -> (out: Vec<&'static str>)
    ensures
        str_views(out@) == (match style {
            HeaderStyle::Full => full_logo_spec(),
            HeaderStyle::Compact => compact_logo_spec(),
        }),
{
    match style {
        HeaderStyle::Full => full_logo_lines(),
        HeaderStyle::Compact => compact_logo_lines(),
    }
}

/// The colour of logo line `i`.
fn logo_line_color(i: usize) -> (c: u8)
    ensures
        c == logo_color(i as nat),
{
    let k = i % 6;
    if k <= 1 {
        36
    } else if k == 2 {
        32
    } else if k == 3 {
        33
    } else {
        35
    }
}

/// Logo lines, each in its colour, as dashboard lines.
pub fn render_text_logo_lines(lines: &Vec<&str>) -> (out: String)
    ensures
        out@ == text_logo_spec(str_views(lines@)),
{
    let ghost all = str_views(lines@);
    let mut out = String::new();
    let mut i: usize = 0;
    while i < lines.len()
        invariant
            all == str_views(lines@),
            i <= lines.len(),
            out@ == text_logo_spec(all.take(i as int)),
        decreases lines.len() - i,
    {
        let code = logo_line_color(i);
        let colored = color(lines[i], code);
        let l = line(colored.as_str());
        push_str(&mut out, l.as_str());
        proof {
            assert(all.take(i + 1).drop_last() =~= all.take(i as int));
        }
        i += 1;
    }
    assert(all.take(lines.len() as int) =~= all);
    out
}

/// The colour of a lit cell in column `column` of the pixel logo.
pub open spec fn pixel_color_spec(column: nat) -> nat {
    seq![39nat, 45, 82, 118, 226, 214, 207, 171, 129, 201, 196][(column * 11 / 35) as int]
}

/// The shadow colour below a lit cell in column `column`.
pub open spec fn pixel_shadow_spec(column: nat) -> nat {
    seq![24nat, 25, 28, 58, 94, 95, 54, 90, 89, 125, 52][(column * 11 / 35) as int]
}

/// A two-column cell of the pixel logo in ANSI background colour `code`.
pub open spec fn pixel_cell_in(code: nat) -> Seq<char> {
    "\x1b[48;5;"@ + decimal(code) + "m  \x1b[0m"@
}

/// Cell `c` of a pixel-logo row: lit, in the shadow of a lit cell of the row
/// above, or blank.
pub open spec fn pixel_cell(row: Seq<char>, above: Option<Seq<char>>, c: int) -> Seq<char> {
    if row[c] == '#' {
        pixel_cell_in(pixel_color_spec(c as nat))
    } else if above matches Some(a) && 0 <= c < a.len() && a[c] == '#' {
        pixel_cell_in(pixel_shadow_spec(c as nat))
    } else {
        "  "@
    }
}

/// The first `n` cells of a pixel-logo row.
pub open spec fn pixel_cells(row: Seq<char>, above: Option<Seq<char>>, n: nat) -> Seq<char>
    decreases n,
{
    if n == 0 {
        Seq::empty()
    } else {
        pixel_cells(row, above, (n - 1) as nat) + pixel_cell(row, above, n - 1)
    }
}

/// A whole pixel-logo row, cleared to the end of the line.
pub open spec fn pixel_row_spec(row: Seq<char>, above: Option<Seq<char>>) -> Seq<char> {
    pixel_cells(row, above, row.len()) + "\x1b[K\n"@
}

/// The first `n` rows of the pixel logo `rows`.
pub open spec fn pixel_logo_upto(rows: Seq<Seq<char>>, n: nat) -> Seq<char>
    decreases n,
{
    if n == 0 {
        Seq::empty()
    } else {
        let i = n - 1;
        pixel_logo_upto(rows, i as nat) + pixel_row_spec(
            rows[i],
            if i == 0 {
                None
            } else {
                Some(rows[i - 1])
            },
        )
    }
}

/// The pixel logo.
pub open spec fn pixel_logo_spec() -> Seq<char> {
    pixel_logo_upto(pixel_rows_spec(), 5)
}

/// Colour of a lit pixel-logo cell in `column`.
pub fn windows_logo_color(column: usize) -> (c: u8)
    requires
        column < 35,
    ensures
        c == pixel_color_spec(column as nat),
{
    let k = column * 11 / 35;
    if k == 0 {
        39
    } else if k == 1 {
        45
    } else if k == 2 {
        82
    } else if k == 3 {
        118
    } else if k == 4 {
        226
    } else if k == 5 {
        214
    } else if k == 6 {
        207
    } else if k == 7 {
        171
    } else if k == 8 {
        129
    } else if k == 9 {
        201
    } else {
        196
    }
}

/// Colour of the shadow below a lit pixel-logo cell in `column`.
pub fn windows_logo_shadow_color(column: usize) -> (c: u8)
    requires
        column < 35,
    ensures
        c == pixel_shadow_spec(column as nat),
{
    let k = column * 11 / 35;
    if k == 0 {
        24
    } else if k == 1 {
        25
    } else if k == 2 {
        28
    } else if k == 3 {
        58
    } else if k == 4 {
        94
    } else if k == 5 {
        95
    } else if k == 6 {
        54
    } else if k == 7 {
        90
    } else if k == 8 {
        89
    } else if k == 9 {
        125
    } else {
        52
    }
}

/// A pixel-logo cell in background colour `code`.
fn pixel_cell_text(code: u8) -> (out: String)
    ensures
        out@ == pixel_cell_in(code as nat),
{
    let mut out = owned("\x1b[48;5;");
    let d = decimal_string(code as u128);
    push_str(&mut out, d.as_str());
    push_str(&mut out, "m  \x1b[0m");
    out
}

/// One row of the pixel logo, with the shadow cast by the row above.
pub fn render_pixel_logo_row(row: &str, above: Option<&str>) -> (out: String)
    requires
        row@.len() <= 35,
    ensures
        out@ == pixel_row_spec(
            row@,
            match above {
                Some(a) => Some(a@),
                None => None,
            },
        ),
{
    let ghost up: Option<Seq<char>> = match above {
        Some(a) => Some(a@),
        None => None,
    };
    let cells = chars_of(row);
    let prev: Vec<char> = match above {
        Some(a) => chars_of(a),
        None => Vec::new(),
    };
    let mut out = String::new();
    let mut column: usize = 0;
    while column < cells.len()
        invariant
            cells@ == row@,
            row@.len() <= 35,
            up == (match above {
                Some(a) => Some(a@),
                None => None::<Seq<char>>,
            }),
            above is Some ==> prev@ == up->0,
            above is None ==> prev@.len() == 0,
            column <= cells.len(),
            out@ == pixel_cells(row@, up, column as nat),
        decreases cells.len() - column,
    {
        if cells[column] == '#' {
            let c = windows_logo_color(column);
            let t = pixel_cell_text(c);
            push_str(&mut out, t.as_str());
        } else if column < prev.len() && prev[column] == '#' {
            let c = windows_logo_shadow_color(column);
            let t = pixel_cell_text(c);
            push_str(&mut out, t.as_str());
        } else {
            push_str(&mut out, "  ");
        }
        column += 1;
    }
    push_str(&mut out, "\x1b[K\n");
    out
}

/// The pixel logo drawn on Windows consoles.
pub fn render_windows_pixel_logo() -> (out: String)
    ensures
        out@ == pixel_logo_spec(),
{
    let rows = pixel_logo_rows();
    proof {
        reveal_strlit("####   ###  #   # ####   ###  #   #");
        reveal_strlit("#   # #   # #   # #   # #   # #   #");
        reveal_strlit("#   # ##### #   # ####  #   #  # # ");
        reveal_strlit("#   # #   #  # #  #   # #   # #   #");
        reveal_strlit("####  #   #   #   ####   ###  #   #");
    }
    let ghost all = pixel_rows_spec();
    let mut out = String::new();
    let mut i: usize = 0;
    while i < rows.len()
        invariant
            str_views(rows@) == all,
            all == pixel_rows_spec(),
            forall|k: int| 0 <= k < all.len() ==> (#[trigger] all[k]).len() == 35,
            i <= rows.len(),
            out@ == pixel_logo_upto(all, i as nat),
        decreases rows.len() - i,
    {
        assert(rows@[i as int]@ == all[i as int]);
        let above = if i == 0 {
            None
        } else {
            assert(rows@[i - 1]@ == all[i - 1]);
            Some(rows[i - 1])
        };
        let r = render_pixel_logo_row(rows[i], above);
        push_str(&mut out, r.as_str());
        i += 1;
    }
    out
}

/// The colour of cell `i` of a rainbow rule `width` cells wide.
pub open spec fn rule_color(i: nat, width: nat) -> nat {
    seq![36nat, 32, 33, 35, 31][(i * 5 / width) as int]
}

/// The first `n` cells of a rainbow rule `width` cells wide.
pub open spec fn rule_cells(n: nat, width: nat) -> Seq<char>
    decreases n,
{
    if n == 0 {
        Seq::empty()
    } else {
        rule_cells((n - 1) as nat, width) + color_spec("━"@, rule_color((n - 1) as nat, width))
    }
}

/// The glyph a rule is drawn with.
pub fn rule_glyph() -> (g: &'static str)
    ensures
        g@ == "━"@,
{
    "━"
}

/// The escape sequence that clears from the cursor to the end of the screen.
pub fn clear_to_screen_end_sequence() -> (s: &'static str)
    ensures
        s@ == "\x1b[J"@,
{
    "\x1b[J"
}

/// A horizontal rule `width` cells wide that runs through five colours.
pub fn rainbow_rule(width: usize) -> (out: String)
    requires
        width <= usize::MAX / 5 + 1,
    ensures
        out@ == rule_cells(width as nat, width as nat),
{
    let mut out = String::new();
    let mut i: usize = 0;
    while i < width
        invariant
            width <= usize::MAX / 5 + 1,
            i <= width,
            out@ == rule_cells(i as nat, width as nat),
        decreases width - i,
    {
        assert(i * 5 <= usize::MAX) by (nonlinear_arith)
            requires
                i < width,
                width <= usize::MAX / 5 + 1,
        ;
        let k = i * 5 / width;
        assert(k < 5) by (nonlinear_arith)
            requires
                i < width,
                k == (i * 5) as int / width as int,
        ;
        let code: u8 = if k == 0 {
            36
        } else if k == 1 {
            32
        } else if k == 2 {
            33
        } else if k == 3 {
            35
        } else {
            31
        };
        let cell = color(rule_glyph(), code);
        push_str(&mut out, cell.as_str());
        i += 1;
    }
    out
}

/// The tag line under the logo.
pub open spec fn tagline_spec() -> Seq<char> {
    "             local folder uplink // WebDAV over LAN"@
}

/// The logo a header shows: on Windows the compact header uses the pixel logo.
pub open spec fn logo_for_style_spec(style: HeaderStyle, platform: Platform) -> Seq<char> {
    match style {
        HeaderStyle::Full => text_logo_spec(full_logo_spec()),
        HeaderStyle::Compact => if platform == Platform::Windows {
            pixel_logo_spec()
        } else {
            text_logo_spec(compact_logo_spec())
        },
    }
}

/// The empty row that ends a full header; a compact one has none.
pub open spec fn header_trailing_spec(style: HeaderStyle) -> Seq<char> {
    match style {
        HeaderStyle::Full => "\x1b[K\n"@,
        HeaderStyle::Compact => Seq::empty(),
    }
}

/// The header: logo, tag line in magenta, a rainbow rule 96 cells wide, and
/// for the full style an empty row.
pub open spec fn static_header_spec(style: HeaderStyle, platform: Platform) -> Seq<char> {
    logo_for_style_spec(style, platform) + line_spec(color_spec(tagline_spec(), 35)) + line_spec(
        rule_cells(96, 96),
    ) + header_trailing_spec(style)
}

/// How many rows the logo of a header takes.
pub open spec fn logo_rows(style: HeaderStyle, platform: Platform) -> nat {
    match style {
        HeaderStyle::Full => 6,
        HeaderStyle::Compact => if platform == Platform::Windows {
            5
        } else {
            3
        },
    }
}

/// The logo for a header style on a platform.
pub fn render_logo_for_style(style: HeaderStyle, platform: Platform) -> (out: String)
    ensures
        out@ == logo_for_style_spec(style, platform),
{
    match platform {
        Platform::Windows => match style {
            HeaderStyle::Full => render_text_logo_lines(&full_logo_lines()),
            HeaderStyle::Compact => render_windows_pixel_logo(),
        },
        Platform::Other => render_text_logo_lines(&render_logo_lines(style)),
    }
}

/// What ends the header: an empty row for the full style, nothing for the compact one.
pub fn header_trailing_space(style: HeaderStyle) -> (out: &'static str)
    ensures
        out@ == header_trailing_spec(style),
{
    proof {
        reveal_strlit("\x1b[K\n");
        reveal_strlit("");
    }
    match style {
        HeaderStyle::Full => "\x1b[K\n",
        HeaderStyle::Compact => "",
    }
}

/// The header drawn once above the dashboard.
pub fn render_static_header(style: HeaderStyle, platform: Platform) -> (out: String)
    ensures
        out@ == static_header_spec(style, platform),
{
    let mut out = render_logo_for_style(style, platform);
    let tag = magenta("             local folder uplink // WebDAV over LAN");
    let l = line(tag.as_str());
    push_str(&mut out, l.as_str());
    let rule = rainbow_rule(96);
    let r = line(rule.as_str());
    push_str(&mut out, r.as_str());
    push_str(&mut out, header_trailing_space(style));
    out
}

// ---------------------------------------------------------------------------
// Counting header rows
// ---------------------------------------------------------------------------

/// Colouring adds no row.
proof fn lemma_color_newlines(v: Seq<char>, code: nat)
    ensures
        count_char(color_spec(v, code), '\n') == count_char(v, '\n'),
{
    reveal_strlit("\x1b[");
    reveal_strlit("m");
    reveal_strlit("\x1b[0m");
    lemma_count_none("\x1b["@, '\n');
    lemma_count_none("m"@, '\n');
    lemma_count_none("\x1b[0m"@, '\n');
    lemma_decimal_no_newline(code);
    lemma_count_concat("\x1b["@, decimal(code), '\n');
    lemma_count_concat("\x1b["@ + decimal(code), "m"@, '\n');
    lemma_count_concat("\x1b["@ + decimal(code) + "m"@, v, '\n');
    lemma_count_concat("\x1b["@ + decimal(code) + "m"@ + v, "\x1b[0m"@, '\n');
}

/// A dashboard line adds exactly one row, and ends in a newline.
proof fn lemma_line_newlines(v: Seq<char>)
    ensures
        count_char(line_spec(v), '\n') == count_char(v, '\n') + 1,
        line_spec(v).last() == '\n',
{
    reveal_strlit("\x1b[K\n");
    let e = "\x1b[K\n"@;
    lemma_count_none(e.drop_last(), '\n');
    lemma_count_concat(v, e, '\n');
}

/// Text logo lines without newlines give one row each.
proof fn lemma_text_logo_newlines(ls: Seq<Seq<char>>)
    requires
        forall|i: int| 0 <= i < ls.len() ==> count_char(#[trigger] ls[i], '\n') == 0,
    ensures
        count_char(text_logo_spec(ls), '\n') == ls.len(),
        ls.len() > 0 ==> text_logo_spec(ls).last() == '\n',
    decreases ls.len(),
{
    if ls.len() > 0 {
        let c = color_spec(ls.last(), logo_color((ls.len() - 1) as nat));
        lemma_text_logo_newlines(ls.drop_last());
        lemma_color_newlines(ls.last(), logo_color((ls.len() - 1) as nat));
        lemma_line_newlines(c);
        lemma_count_concat(text_logo_spec(ls.drop_last()), line_spec(c), '\n');
    } else {
        assert(count_char(Seq::<char>::empty(), '\n') == 0);
    }
}

/// A rainbow rule holds no newline.
proof fn lemma_rule_newlines(n: nat, width: nat)
    ensures
        count_char(rule_cells(n, width), '\n') == 0,
    decreases n,
{
    if n > 0 {
        lemma_rule_newlines((n - 1) as nat, width);
        reveal_strlit("━");
        lemma_count_none("━"@, '\n');
        lemma_color_newlines("━"@, rule_color((n - 1) as nat, width));
        lemma_count_concat(
            rule_cells((n - 1) as nat, width),
            color_spec("━"@, rule_color((n - 1) as nat, width)),
            '\n',
        );
    } else {
        assert(count_char(Seq::<char>::empty(), '\n') == 0);
    }
}

/// A pixel-logo cell holds no newline.
proof fn lemma_pixel_cell_newlines(row: Seq<char>, above: Option<Seq<char>>, c: int)
    ensures
        count_char(pixel_cell(row, above, c), '\n') == 0,
{
    reveal_strlit("\x1b[48;5;");
    reveal_strlit("m  \x1b[0m");
    reveal_strlit("  ");
    lemma_count_none("\x1b[48;5;"@, '\n');
    lemma_count_none("m  \x1b[0m"@, '\n');
    lemma_count_none("  "@, '\n');
    lemma_decimal_no_newline(pixel_color_spec(c as nat));
    lemma_decimal_no_newline(pixel_shadow_spec(c as nat));
    lemma_count_concat("\x1b[48;5;"@, decimal(pixel_color_spec(c as nat)), '\n');
    lemma_count_concat(
        "\x1b[48;5;"@ + decimal(pixel_color_spec(c as nat)),
        "m  \x1b[0m"@,
        '\n',
    );
    lemma_count_concat("\x1b[48;5;"@, decimal(pixel_shadow_spec(c as nat)), '\n');
    lemma_count_concat(
        "\x1b[48;5;"@ + decimal(pixel_shadow_spec(c as nat)),
        "m  \x1b[0m"@,
        '\n',
    );
}

/// The cells of a pixel-logo row hold no newline.
proof fn lemma_pixel_cells_newlines(row: Seq<char>, above: Option<Seq<char>>, n: nat)
    ensures
        count_char(pixel_cells(row, above, n), '\n') == 0,
    decreases n,
{
    if n > 0 {
        lemma_pixel_cells_newlines(row, above, (n - 1) as nat);
        lemma_pixel_cell_newlines(row, above, n - 1);
        lemma_count_concat(
            pixel_cells(row, above, (n - 1) as nat),
            pixel_cell(row, above, n - 1),
            '\n',
        );
    } else {
        assert(count_char(Seq::<char>::empty(), '\n') == 0);
    }
}

/// Each pixel-logo row is one row of text.
proof fn lemma_pixel_logo_newlines(rows: Seq<Seq<char>>, n: nat)
    requires
        n <= rows.len(),
    ensures
        count_char(pixel_logo_upto(rows, n), '\n') == n,
        n > 0 ==> pixel_logo_upto(rows, n).last() == '\n',
    decreases n,
{
    if n > 0 {
        let i = n - 1;
        let above = if i == 0 {
            None
        } else {
            Some(rows[i - 1])
        };
        lemma_pixel_logo_newlines(rows, i as nat);
        lemma_pixel_cells_newlines(rows[i], above, rows[i].len());
        reveal_strlit("\x1b[K\n");
        let e = "\x1b[K\n"@;
        lemma_count_none(e.drop_last(), '\n');
        lemma_count_concat(pixel_cells(rows[i], above, rows[i].len()), e, '\n');
        lemma_count_concat(pixel_logo_upto(rows, i as nat), pixel_row_spec(rows[i], above), '\n');
    } else {
        assert(count_char(Seq::<char>::empty(), '\n') == 0);
    }
}

/// The logo lines are single rows.
proof fn lemma_logo_lines_single()
    ensures
        forall|i: int|
            0 <= i < full_logo_spec().len() ==> count_char(#[trigger] full_logo_spec()[i], '\n')
                == 0,
        forall|i: int|
            0 <= i < compact_logo_spec().len() ==> count_char(
                #[trigger] compact_logo_spec()[i],
                '\n',
            ) == 0,
{
    reveal_strlit("██████╗   █████╗  ██╗   ██╗ ██████╗   ██████╗  ██╗  ██╗");
    reveal_strlit("██╔══██╗ ██╔══██╗ ██║   ██║ ██╔══██╗ ██╔═══██╗ ╚██╗██╔╝");
    reveal_strlit("██║  ██║ ███████║ ██║   ██║ ██████╔╝ ██║   ██║  ╚███╔╝ ");
    reveal_strlit("██║  ██║ ██╔══██║ ╚██╗ ██╔╝ ██╔══██╗ ██║   ██║  ██╔██╗ ");
    reveal_strlit("██████╔╝ ██║  ██║  ╚████╔╝  ██████╔╝ ╚██████╔╝ ██╔╝ ██╗");
    reveal_strlit("╚═════╝  ╚═╝  ╚═╝   ╚═══╝   ╚═════╝   ╚═════╝  ╚═╝  ╚═╝");
    reveal_strlit("████▄    █████   ██╗  ██╗ █████▄   █████   ██╗  ██╗");
    reveal_strlit("██╔═██╗ ██╔══██╗ ██║  ██║ ██╔═██╗ ██╔══██╗ ╚██╗██╔╝");
    reveal_strlit("█████╔╝ ██║  ██║ ╚████╔╝  █████╔╝ ╚█████╔╝ ██╔╝ ██╗");
    assert forall|i: int| 0 <= i < full_logo_spec().len() implies count_char(#[trigger] full_logo_spec()[i], '\n') == 0 by {
        lemma_count_none(full_logo_spec()[i], '\n');
    }
    assert forall|i: int| 0 <= i < compact_logo_spec().len() implies count_char(#[trigger] compact_logo_spec()[i], '\n') == 0 by {
        lemma_count_none(compact_logo_spec()[i], '\n');
    }
}

/// The header has as many rows as its logo, plus the tag line and the rule,
/// plus the empty row that ends a full header.
pub proof fn lemma_static_header_rows(style: HeaderStyle, platform: Platform)
    ensures
        lines(static_header_spec(style, platform)).len() == logo_rows(style, platform) + match style {
            HeaderStyle::Full => 3nat,
            HeaderStyle::Compact => 2nat,
        },
        count_char(static_header_spec(style, platform), '\n') == lines(
            static_header_spec(style, platform),
        ).len(),
        static_header_spec(style, platform).last() == '\n',
{
    let logo = logo_for_style_spec(style, platform);
    let tag = line_spec(color_spec(tagline_spec(), 35));
    let rule = line_spec(rule_cells(96, 96));
    let trail = header_trailing_spec(style);
    lemma_logo_lines_single();
    match style {
        HeaderStyle::Full => {
            lemma_text_logo_newlines(full_logo_spec());
        },
        HeaderStyle::Compact => {
            if platform == Platform::Windows {
                lemma_pixel_logo_newlines(pixel_rows_spec(), 5);
            } else {
                lemma_text_logo_newlines(compact_logo_spec());
            }
        },
    }
    reveal_strlit("             local folder uplink // WebDAV over LAN");
    lemma_count_none(tagline_spec(), '\n');
    lemma_color_newlines(tagline_spec(), 35);
    lemma_line_newlines(color_spec(tagline_spec(), 35));
    lemma_rule_newlines(96, 96);
    lemma_line_newlines(rule_cells(96, 96));
    reveal_strlit("\x1b[K\n");
    let e = "\x1b[K\n"@;
    lemma_count_none(e.drop_last(), '\n');
    lemma_count_concat(e.drop_last(), seq!['\n'], '\n');
    assert(e =~= e.drop_last() + seq!['\n']);
    assert(count_char(Seq::<char>::empty(), '\n') == 0);
    assert(count_char(seq!['\n'], '\n') == 1) by {
        assert(seq!['\n'].drop_last() =~= Seq::<char>::empty());
    }
    lemma_count_concat(logo, tag, '\n');
    lemma_count_concat(logo + tag, rule, '\n');
    lemma_count_concat(logo + tag + rule, trail, '\n');
    let h = static_header_spec(style, platform);
    match style {
        HeaderStyle::Full => {
            assert(h.last() == '\n');
        },
        HeaderStyle::Compact => {
            assert(h =~= logo + tag + rule);
            assert(h.last() == '\n');
        },
    }
    lemma_lines_count(h);
}

/// The number of rows of the full header.
pub fn static_header_rows() -> (r: usize)
    ensures
        r == lines(static_header_spec(HeaderStyle::Full, Platform::Other)).len(),
        r == 9,
{
    let h = render_static_header(HeaderStyle::Full, Platform::Other);
    proof {
        lemma_static_header_rows(HeaderStyle::Full, Platform::Other);
    }
    lines_of(h.as_str()).len()
}

/// The row where the dashboard body starts, just below the full header.
pub fn dynamic_start_row() -> (r: usize)
    ensures
        r == lines(static_header_spec(HeaderStyle::Full, Platform::Other)).len() + 1,
        r == 10,
{
    static_header_rows() + 1
}

// ---------------------------------------------------------------------------
// What each platform draws
// ---------------------------------------------------------------------------

/// Windows consoles redraw the whole frame, header included, each time.
pub fn redraw_static_header_each_frame(platform: Platform) -> (r: bool)
    ensures
        r == (platform == Platform::Windows),
{
    match platform {
        Platform::Windows => true,
        Platform::Other => false,
    }
}

/// The header style of the first frame: compact on Windows, full elsewhere.
pub fn windows_header_style(platform: Platform) -> (s: HeaderStyle)
    ensures
        s == (if platform == Platform::Windows {
            HeaderStyle::Compact
        } else {
            HeaderStyle::Full
        }),
{
    match platform {
        Platform::Windows => HeaderStyle::Compact,
        Platform::Other => HeaderStyle::Full,
    }
}

/// The body density that goes with a header style: on Windows it follows the
/// header, elsewhere the body is always full.
pub fn windows_dashboard_density(style: HeaderStyle, platform: Platform) -> (d: DashboardDensity)
    ensures
        d == (if platform == Platform::Windows && style == HeaderStyle::Compact {
            DashboardDensity::Compact
        } else {
            DashboardDensity::Full
        }),
{
    match platform {
        Platform::Windows => match style {
            HeaderStyle::Full => DashboardDensity::Full,
            HeaderStyle::Compact => DashboardDensity::Compact,
        },
        Platform::Other => DashboardDensity::Full,
    }
}

// ---------------------------------------------------------------------------
// Dashboard text
// ---------------------------------------------------------------------------

/// Product name, version, licence and owner.
pub open spec fn product_meta_spec() -> Seq<char> {
    "Davbox 0.1.3 · MIT · © 2026 stigachen"@
}

/// The help line under the activity list.
pub open spec fn help_line_spec(density: DashboardDensity) -> Seq<char> {
    match density {
        DashboardDensity::Full => color_spec(
            "Press Enter or Ctrl+C to stop.  Use --no-tui for plain output.\n\n"@
                + product_meta_spec(),
            90,
        ),
        DashboardDensity::Compact => color_spec(
            "Enter/Ctrl+C stop · "@ + product_meta_spec(),
            90,
        ),
    }
}

/// Product name, version, licence and owner.
pub fn product_meta_line() -> (out: String)
    ensures
        out@ == product_meta_spec(),
{
    let mut out = owned("Davbox ");
    push_str(&mut out, crate::cli::VERSION);
    push_str(&mut out, " · ");
    push_str(&mut out, "MIT");
    push_str(&mut out, " · © ");
    push_str(&mut out, "2026");
    push_str(&mut out, " ");
    push_str(&mut out, "stigachen");
    proof {
        reveal_strlit("Davbox ");
        reveal_strlit("0.1.3");
        reveal_strlit(" · ");
        reveal_strlit("MIT");
        reveal_strlit(" · © ");
        reveal_strlit("2026");
        reveal_strlit(" ");
        reveal_strlit("stigachen");
        reveal_strlit("Davbox 0.1.3 · MIT · © 2026 stigachen");
        assert(out@ =~= product_meta_spec());
    }
    out
}

/// The help line under the activity list.
pub fn render_help_line(density: DashboardDensity) -> (out: String)
    ensures
        out@ == help_line_spec(density),
{
    let meta = product_meta_line();
    match density {
        DashboardDensity::Full => {
            let mut t = owned("Press Enter or Ctrl+C to stop.  Use --no-tui for plain output.\n\n");
            push_str(&mut t, meta.as_str());
            dim(t.as_str())
        },
        DashboardDensity::Compact => {
            let mut t = owned("Enter/Ctrl+C stop · ");
            push_str(&mut t, meta.as_str());
            dim(t.as_str())
        },
    }
}

/// An uptime of `total` seconds: hours, minutes and seconds, leaving out
/// leading zero units.
pub open spec fn duration_text(total: nat) -> Seq<char> {
    let hours = total / 3600;
    let minutes = (total % 3600) / 60;
    let seconds = total % 60;
    if hours > 0 {
        decimal(hours) + "h "@ + decimal(minutes) + "m "@ + decimal(seconds) + "s"@
    } else if minutes > 0 {
        decimal(minutes) + "m "@ + decimal(seconds) + "s"@
    } else {
        decimal(seconds) + "s"@
    }
}

/// An uptime of `total_secs` seconds, as `1h 2m 3s`, `2m 3s` or `3s`.
pub fn format_duration(total_secs: u64) -> (out: String)
    ensures
        out@ == duration_text(total_secs as nat),
{
    let hours = total_secs / 3600;
    let minutes = (total_secs % 3600) / 60;
    let seconds = total_secs % 60;
    let mut out = String::new();
    if hours > 0 {
        let h = decimal_string(hours as u128);
        push_str(&mut out, h.as_str());
        push_str(&mut out, "h ");
    }
    if hours > 0 || minutes > 0 {
        let m = decimal_string(minutes as u128);
        push_str(&mut out, m.as_str());
        push_str(&mut out, "m ");
    }
    let s = decimal_string(seconds as u128);
    push_str(&mut out, s.as_str());
    push_str(&mut out, "s");
    proof {
        assert(out@ =~= duration_text(total_secs as nat));
    }
    out
}

/// The colour of a status code in the activity list: red for server errors,
/// yellow for client errors, cyan for redirects, green otherwise.
pub open spec fn status_color(status: nat) -> nat {
    if status >= 500 {
        31
    } else if status >= 400 {
        33
    } else if status >= 300 {
        36
    } else {
        32
    }
}

/// A status code in its colour.
pub fn status_label(status: u16) -> (out: String)
    ensures
        out@ == color_spec(decimal(status as nat), status_color(status as nat)),
{
    let digits = decimal_string(status as u128);
    if status >= 500 {
        red(digits.as_str())
    } else if status >= 400 {
        yellow(digits.as_str())
    } else if status >= 300 {
        cyan(digits.as_str())
    } else {
        green(digits.as_str())
    }
}

/// `s` padded with spaces on the left to `width` characters, as `{:>width}` does.
pub open spec fn pad_left_spec(s: Seq<char>, width: nat) -> Seq<char> {
    if s.len() >= width {
        s
    } else {
        spaces((width - s.len()) as nat) + s
    }
}

/// `s` padded with spaces on the left to `width` characters.
pub fn pad_left(s: &str, width: usize) -> (out: String)
    ensures
        out@ == pad_left_spec(s@, width as nat),
{
    let v = chars_of(s);
    let mut out = String::new();
    let mut n = v.len();
    while n < width
        invariant
            v@ == s@,
            v@.len() <= n <= width || (n == v@.len() && n >= width),
            out@ == spaces((n - v@.len()) as nat),
        decreases width - n,
    {
        push_char(&mut out, ' ');
        assert(spaces((n + 1 - v@.len()) as nat) =~= spaces((n - v@.len()) as nat).push(' '));
        n += 1;
    }
    push_str(&mut out, s);
    assert(spaces(0) + s@ =~= s@);
    out
}

/// One row of the activity list: method, status, path, bytes moved and time taken.
pub open spec fn activity_row_spec(
    method: Seq<char>,
    status: nat,
    path: Seq<char>,
    size: Seq<char>,
    millis: nat,
) -> Seq<char> {
    "  "@ + color_spec("›"@, 90) + "  "@ + pad_right_spec(color_spec(truncate_spec(method, 8), 35), 8)
        + " "@ + color_spec(decimal(status), status_color(status)) + "  "@ + pad_right_spec(
        truncate_spec(path, 34),
        34,
    ) + " "@ + pad_left_spec(size, 9) + " "@ + pad_left_spec(decimal(millis), 6) + "ms"@
}

/// The row that stands for an empty slot of the activity list.
pub open spec fn activity_placeholder_spec() -> Seq<char> {
    "  "@ + color_spec("·"@, 90)
}

/// One row of the activity list; `size` is the formatted number of bytes moved.
pub fn format_activity_row(method: &str, status: u16, path: &str, size: &str, millis: u128) -> (out:
    String)
    ensures
        out@ == activity_row_spec(method@, status as nat, path@, size@, millis as nat),
{
    let mut out = owned("  ");
    let arrow = dim("›");
    push_str(&mut out, arrow.as_str());
    push_str(&mut out, "  ");
    let m = truncate(method, 8);
    let mm = magenta(m.as_str());
    let mp = pad_right(mm.as_str(), 8);
    push_str(&mut out, mp.as_str());
    push_str(&mut out, " ");
    let st = status_label(status);
    push_str(&mut out, st.as_str());
    push_str(&mut out, "  ");
    let p = truncate(path, 34);
    let pp = pad_right(p.as_str(), 34);
    push_str(&mut out, pp.as_str());
    push_str(&mut out, " ");
    let sp = pad_left(size, 9);
    push_str(&mut out, sp.as_str());
    push_str(&mut out, " ");
    let ms = decimal_string(millis);
    let msp = pad_left(ms.as_str(), 6);
    push_str(&mut out, msp.as_str());
    push_str(&mut out, "ms");
    out
}

/// The rows joined by newlines.
pub open spec fn join_newlines(rows: Seq<Seq<char>>) -> Seq<char>
    decreases rows.len(),
{
    if rows.len() == 0 {
        Seq::empty()
    } else if rows.len() == 1 {
        rows[0]
    } else {
        join_newlines(rows.drop_last()) + "\n"@ + rows.last()
    }
}

/// The activity row of `e`, with `size` for the bytes it moved and `millis`
/// for the time it took.
pub open spec fn entry_row_spec(e: ActivityEntry, size: Seq<char>, millis: nat) -> Seq<char> {
    activity_row_spec(e.method@, e.status as nat, e.path@, size, millis)
}

/// The first `count` rows of the activity list: the newest entries of
/// `recent` in order, then placeholders for the empty slots. `sizes[i]` is
/// the formatted byte count of `recent[i]` and `millis[i]` the milliseconds
/// it took.
pub open spec fn activity_list_rows(
    recent: Seq<ActivityEntry>,
    sizes: Seq<Seq<char>>,
    millis: Seq<nat>,
    count: nat,
) -> Seq<Seq<char>> {
    Seq::new(
        count,
        |i: int|
            if i < recent.len() {
                entry_row_spec(recent[i], sizes[i], millis[i])
            } else {
                activity_placeholder_spec()
            },
    )
}

/// The whole milliseconds each request took, as `Duration::as_millis`
/// gives them: its whole nanoseconds divided by a million, rounded down.
pub open spec fn recent_millis(recent: Seq<ActivityEntry>) -> Seq<nat> {
    recent.map_values(|e: ActivityEntry| (duration_nanos_of(e.duration) / 1_000_000) as nat)
}

/// The activity list, `rows` lines: the newest requests of `metrics` in
/// order, then placeholders. `sizes[i]` is the formatted byte count of the
/// `i`-th newest request; each row shows the whole milliseconds it took.
pub fn format_activity(metrics: &Metrics, rows: usize, sizes: &Vec<String>) -> (out: String)
    requires
        sizes@.len() == metrics.recent_view().len(),
    ensures
        out@ == join_newlines(
            activity_list_rows(
                metrics.recent_view(),
                string_views(sizes@),
                recent_millis(metrics.recent_view()),
                rows as nat,
            ),
        ),
{
    let ghost recent = metrics.recent_view();
    let ghost size_views = string_views(sizes@);
    let n = metrics.recent_len();
    let mut millis: Vec<u128> = Vec::new();
    let mut j: usize = 0;
    while j < n
        invariant
            j <= n,
            recent == metrics.recent_view(),
            n == recent.len(),
            millis@.len() == j,
            forall|k: int|
                0 <= k < j ==> #[trigger] millis@[k] == duration_nanos_of(recent[k].duration)
                    / 1_000_000,
        decreases n - j,
    {
        let e = metrics.recent_at(j);
        let nanos = duration_nanos(&e.duration);
        millis.push(nanos / 1_000_000);
        j += 1;
    }
    let ghost ms = millis@.map_values(|m: u128| m as nat);
    assert(ms =~= recent_millis(recent));
    let ghost want = activity_list_rows(recent, size_views, ms, rows as nat);
    let mut out = String::new();
    let mut i: usize = 0;
    while i < rows
        invariant
            recent == metrics.recent_view(),
            size_views == string_views(sizes@),
            sizes@.len() == recent.len(),
            n == recent.len(),
            millis@.len() == n,
            ms == millis@.map_values(|m: u128| m as nat),
            want == activity_list_rows(recent, size_views, ms, rows as nat),
            i <= rows,
            out@ == join_newlines(want.take(i as int)),
        decreases rows - i,
    {
        if i > 0 {
            push_str(&mut out, "\n");
        }
        if i < n {
            let e = metrics.recent_at(i);
            let row = format_activity_row(
                e.method.as_str(),
                e.status,
                e.path.as_str(),
                sizes[i].as_str(),
                millis[i],
            );
            assert(row@ == want[i as int]);
            push_str(&mut out, row.as_str());
        } else {
            let dot = dim("·");
            let mut ph = owned("  ");
            push_str(&mut ph, dot.as_str());
            push_str(&mut out, ph.as_str());
        }
        proof {
            assert(want.take(i + 1).drop_last() =~= want.take(i as int));
            if i == 0 {
                assert(want.take(1)[0] == want[0]);
            }
        }
        i += 1;
    }
    assert(want.take(rows as int) =~= want);
    out
}

/// The endpoint panel: name, folder, URL, bind address, mode and credentials.
pub open spec fn endpoint_block_spec(
    name: Seq<char>,
    folder: Seq<char>,
    url: Seq<char>,
    bind: Seq<char>,
    mode: Seq<char>,
    auth: Seq<char>,
) -> Seq<char> {
    join_newlines(
        seq![
            kv_spec("Name"@, name),
            kv_spec("Folder"@, folder),
            kv_spec("WebDAV"@, url),
            kv_spec("Bind"@, bind),
            kv_spec("Mode"@, mode),
            kv_spec("Auth"@, auth),
        ],
    )
}

/// The endpoint panel.
pub fn render_endpoint_block(
    name: &str,
    folder: &str,
    url: &str,
    bind: &str,
    mode: &str,
    auth: &str,
) -> (out: String)
    ensures
        out@ == endpoint_block_spec(name@, folder@, url@, bind@, mode@, auth@),
{
    let mut out = kv("Name", name);
    push_str(&mut out, "\n");
    let b = kv("Folder", folder);
    push_str(&mut out, b.as_str());
    push_str(&mut out, "\n");
    let c = kv("WebDAV", url);
    push_str(&mut out, c.as_str());
    push_str(&mut out, "\n");
    let d = kv("Bind", bind);
    push_str(&mut out, d.as_str());
    push_str(&mut out, "\n");
    let e = kv("Mode", mode);
    push_str(&mut out, e.as_str());
    push_str(&mut out, "\n");
    let f = kv("Auth", auth);
    push_str(&mut out, f.as_str());
    proof {
        let rows = seq![
            kv_spec("Name"@, name@),
            kv_spec("Folder"@, folder@),
            kv_spec("WebDAV"@, url@),
            kv_spec("Bind"@, bind@),
            kv_spec("Mode"@, mode@),
            kv_spec("Auth"@, auth@),
        ];
        assert(rows.drop_last().drop_last().drop_last().drop_last().drop_last() =~= seq![
            rows[0],
        ]);
        assert(rows.drop_last().drop_last().drop_last().drop_last() =~= seq![rows[0], rows[1]]);
        assert(rows.drop_last().drop_last().drop_last() =~= seq![rows[0], rows[1], rows[2]]);
        assert(rows.drop_last().drop_last() =~= seq![rows[0], rows[1], rows[2], rows[3]]);
        assert(rows.drop_last() =~= seq![rows[0], rows[1], rows[2], rows[3], rows[4]]);
        reveal_with_fuel(join_newlines, 7);
        assert(out@ =~= join_newlines(rows));
    }
    out
}

/// The telemetry panel. The byte amounts come formatted: `up_rate` and
/// `down_rate` per second over the rate window, `total_in` and `total_out`
/// since start.
pub open spec fn metrics_block_spec(
    uptime_secs: nat,
    active: nat,
    connections: nat,
    requests: nat,
    up_rate: Seq<char>,
    down_rate: Seq<char>,
    total_in: Seq<char>,
    total_out: Seq<char>,
) -> Seq<char> {
    join_newlines(
        seq![
            metric_spec("Uptime"@, duration_text(uptime_secs)),
            metric_spec("Active req"@, decimal(active)),
            metric_spec("Conn total"@, decimal(connections)),
            metric_spec("Requests"@, decimal(requests)),
            metric_spec("Traffic"@, "up "@ + up_rate + "/s   down "@ + down_rate + "/s"@),
            metric_spec("Totals"@, "in "@ + total_in + "   out "@ + total_out),
        ],
    )
}

/// The telemetry panel for `metrics`, `uptime_secs` seconds after start.
pub fn render_metrics_block(
    metrics: &Metrics,
    uptime_secs: u64,
    up_rate: &str,
    down_rate: &str,
    total_in: &str,
    total_out: &str,
) -> (out: String)
    ensures
        out@ == metrics_block_spec(
            uptime_secs as nat,
            metrics.counters().active_requests as nat,
            metrics.counters().total_connections as nat,
            metrics.counters().total_requests as nat,
            up_rate@,
            down_rate@,
            total_in@,
            total_out@,
        ),
{
    let up = format_duration(uptime_secs);
    let mut out = metric("Uptime", up.as_str());
    push_str(&mut out, "\n");
    let a = decimal_string(metrics.active_requests() as u128);
    let b = metric("Active req", a.as_str());
    push_str(&mut out, b.as_str());
    push_str(&mut out, "\n");
    let c = decimal_string(metrics.total_connections() as u128);
    let d = metric("Conn total", c.as_str());
    push_str(&mut out, d.as_str());
    push_str(&mut out, "\n");
    let e = decimal_string(metrics.total_requests() as u128);
    let f = metric("Requests", e.as_str());
    push_str(&mut out, f.as_str());
    push_str(&mut out, "\n");
    let mut traffic = owned("up ");
    push_str(&mut traffic, up_rate);
    push_str(&mut traffic, "/s   down ");
    push_str(&mut traffic, down_rate);
    push_str(&mut traffic, "/s");
    let g = metric("Traffic", traffic.as_str());
    push_str(&mut out, g.as_str());
    push_str(&mut out, "\n");
    let mut totals = owned("in ");
    push_str(&mut totals, total_in);
    push_str(&mut totals, "   out ");
    push_str(&mut totals, total_out);
    let h = metric("Totals", totals.as_str());
    push_str(&mut out, h.as_str());
    proof {
        let rows = seq![
            metric_spec("Uptime"@, duration_text(uptime_secs as nat)),
            metric_spec("Active req"@, decimal(metrics.counters().active_requests as nat)),
            metric_spec("Conn total"@, decimal(metrics.counters().total_connections as nat)),
            metric_spec("Requests"@, decimal(metrics.counters().total_requests as nat)),
            metric_spec("Traffic"@, "up "@ + up_rate@ + "/s   down "@ + down_rate@ + "/s"@),
            metric_spec("Totals"@, "in "@ + total_in@ + "   out "@ + total_out@),
        ];
        assert(rows.drop_last().drop_last().drop_last().drop_last().drop_last() =~= seq![
            rows[0],
        ]);
        assert(rows.drop_last().drop_last().drop_last().drop_last() =~= seq![rows[0], rows[1]]);
        assert(rows.drop_last().drop_last().drop_last() =~= seq![rows[0], rows[1], rows[2]]);
        assert(rows.drop_last().drop_last() =~= seq![rows[0], rows[1], rows[2], rows[3]]);
        assert(rows.drop_last() =~= seq![rows[0], rows[1], rows[2], rows[3], rows[4]]);
        reveal_with_fuel(join_newlines, 7);
        assert(out@ =~= join_newlines(rows));
    }
    out
}

/// How many activity rows a dashboard body shows.
pub open spec fn activity_count_spec(density: DashboardDensity) -> nat {
    match density {
        DashboardDensity::Full => 8,
        DashboardDensity::Compact => 1,
    }
}

/// How many activity rows a dashboard body shows: eight, or one when compact.
pub fn activity_row_count(density: DashboardDensity) -> (n: usize)
    ensures
        n == activity_count_spec(density),
{
    match density {
        DashboardDensity::Full => 8,
        DashboardDensity::Compact => 1,
    }
}

/// The dashboard body: the endpoint, telemetry and activity panels under their
/// titles, the help line below the activity list. The full body leaves an
/// empty row after each panel and before the help line; the compact one none.
pub open spec fn dashboard_body_spec(
    endpoint: Seq<char>,
    telemetry: Seq<char>,
    activity: Seq<char>,
    density: DashboardDensity,
) -> Seq<char> {
    match density {
        DashboardDensity::Full => line_spec(section_spec("UPLINK"@)) + block_spec(endpoint)
            + line_spec(section_spec("TELEMETRY"@)) + block_spec(telemetry) + line_spec(
            section_spec("RECENT ACTIVITY"@),
        ) + block_spec(activity + "\n\n"@ + help_line_spec(density)),
        DashboardDensity::Compact => line_spec(section_spec("UPLINK"@)) + compact_block_spec(
            endpoint,
        ) + line_spec(section_spec("TELEMETRY"@)) + compact_block_spec(telemetry) + line_spec(
            section_spec("RECENT ACTIVITY"@),
        ) + compact_block_spec(activity + "\n"@ + help_line_spec(density)),
    }
}

/// The dashboard body from its three panels.
pub fn render_dashboard_body(
    endpoint: &str,
    telemetry: &str,
    activity: &str,
    density: DashboardDensity,
) -> (out: String)
    ensures
        out@ == dashboard_body_spec(endpoint@, telemetry@, activity@, density),
{
    let help = render_help_line(density);
    let mut act = owned(activity);
    match density {
        DashboardDensity::Full => push_str(&mut act, "\n\n"),
        DashboardDensity::Compact => push_str(&mut act, "\n"),
    }
    push_str(&mut act, help.as_str());
    let s1 = section("UPLINK");
    let mut out = line(s1.as_str());
    let e = match density {
        DashboardDensity::Full => block(endpoint),
        DashboardDensity::Compact => compact_block(endpoint),
    };
    push_str(&mut out, e.as_str());
    let s2 = section("TELEMETRY");
    let l2 = line(s2.as_str());
    push_str(&mut out, l2.as_str());
    let t = match density {
        DashboardDensity::Full => block(telemetry),
        DashboardDensity::Compact => compact_block(telemetry),
    };
    push_str(&mut out, t.as_str());
    let s3 = section("RECENT ACTIVITY");
    let l3 = line(s3.as_str());
    push_str(&mut out, l3.as_str());
    let a = match density {
        DashboardDensity::Full => block(act.as_str()),
        DashboardDensity::Compact => compact_block(act.as_str()),
    };
    push_str(&mut out, a.as_str());
    out
}

// ---------------------------------------------------------------------------
// The console
// ---------------------------------------------------------------------------

/// The address the dashboard shows: `http://host:port/`.
pub open spec fn url_spec(info: ServerInfo) -> Seq<char> {
    "http://"@ + info.display_host@ + ":"@ + decimal(info.port as nat) + "/"@
}

/// The credentials line: `disabled`, or the user name and the password, or
/// `<hidden>` when the password is not known.
pub open spec fn auth_line_spec(info: ServerInfo) -> Seq<char> {
    if !info.auth_enabled {
        "disabled"@
    } else {
        info.username@ + " / "@ + match info.password {
            Some(p) => p@,
            None => "<hidden>"@,
        }
    }
}

/// Whether the share takes writes.
pub open spec fn mode_spec(info: ServerInfo) -> Seq<char> {
    if info.read_only {
        "read-only"@
    } else {
        "read-write"@
    }
}

/// The bind address: `host:port`.
pub open spec fn bind_spec(info: ServerInfo) -> Seq<char> {
    info.bind_host@ + ":"@ + decimal(info.port as nat)
}

/// The console that shows a running server.
pub struct ConsoleUi {
    info: ServerInfo,
}

impl ConsoleUi {
    /// The server that the console shows.
    pub closed spec fn server(&self) -> ServerInfo {
        self.info
    }

    /// A console for the server `info` describes.
    pub fn new(info: ServerInfo) -> (ui: Self)
        ensures
            ui.server() == info,
    {
        ConsoleUi { info }
    }

    /// The server that the console shows.
    pub fn info(&self) -> (i: &ServerInfo)
        ensures
            *i == self.server(),
    {
        &self.info
    }

    /// The WebDAV address.
    pub fn url(&self) -> (out: String)
        ensures
            out@ == url_spec(self.server()),
    {
        let mut out = owned("http://");
        push_str(&mut out, self.info.display_host.as_str());
        push_str(&mut out, ":");
        let p = decimal_string(self.info.port as u128);
        push_str(&mut out, p.as_str());
        push_str(&mut out, "/");
        out
    }

    /// `read-only` or `read-write`.
    pub fn mode(&self) -> (out: &'static str)
        ensures
            out@ == mode_spec(self.server()),
    {
        if self.info.read_only {
            "read-only"
        } else {
            "read-write"
        }
    }

    /// The bind address.
    pub fn bind(&self) -> (out: String)
        ensures
            out@ == bind_spec(self.server()),
    {
        let mut out = owned(self.info.bind_host.as_str());
        push_str(&mut out, ":");
        let p = decimal_string(self.info.port as u128);
        push_str(&mut out, p.as_str());
        out
    }

    /// The credentials line.
    pub fn auth_line(&self) -> (out: String)
        ensures
            out@ == auth_line_spec(self.server()),
    {
        if !self.info.auth_enabled {
            return owned("disabled");
        }
        let mut out = owned(self.info.username.as_str());
        push_str(&mut out, " / ");
        match &self.info.password {
            Some(p) => push_str(&mut out, p.as_str()),
            None => push_str(&mut out, "<hidden>"),
        }
        out
    }

    /// The endpoint panel for this server.
    pub fn endpoint_block(&self) -> (out: String)
        ensures
            out@ == endpoint_block_spec(
                self.server().name@,
                self.server().folder@,
                url_spec(self.server()),
                bind_spec(self.server()),
                mode_spec(self.server()),
                auth_line_spec(self.server()),
            ),
    {
        let url = self.url();
        let bind = self.bind();
        let auth = self.auth_line();
        render_endpoint_block(
            self.info.name.as_str(),
            self.info.folder.as_str(),
            url.as_str(),
            bind.as_str(),
            self.mode(),
            auth.as_str(),
        )
    }

    /// What the console prints when the dashboard is off.
    pub fn plain_text(&self) -> (out: String)
        ensures
            out@ == "davbox online: "@ + url_spec(self.server()) + "\n"@ + product_meta_spec()
                + "\n"@ + "Press Enter or Ctrl+C to stop.\n"@,
    {
        let mut out = owned("davbox online: ");
        let url = self.url();
        push_str(&mut out, url.as_str());
        push_str(&mut out, "\n");
        let meta = product_meta_line();
        push_str(&mut out, meta.as_str());
        push_str(&mut out, "\n");
        push_str(&mut out, "Press Enter or Ctrl+C to stop.\n");
        out
    }

    /// The dashboard body for this server: its endpoint, the telemetry of
    /// `metrics` with the figures that come formatted, and as many recent
    /// requests as the density shows, filled up with placeholders.
    pub fn render_dynamic_dashboard_content(
        &self,
        metrics: &Metrics,
        figures: &DashboardFigures,
        density: DashboardDensity,
    ) -> (out: String)
        requires
            figures.sizes@.len() == metrics.recent_view().len(),
        ensures
            out@ == dashboard_content_spec(
                self.server(),
                metrics.counters(),
                metrics.recent_view(),
                *figures,
                recent_millis(metrics.recent_view()),
                density,
            ),
    {
        let endpoint = self.endpoint_block();
        let telemetry = render_metrics_block(
            metrics,
            figures.uptime_secs,
            figures.up_rate.as_str(),
            figures.down_rate.as_str(),
            figures.total_in.as_str(),
            figures.total_out.as_str(),
        );
        let activity = format_activity(metrics, activity_row_count(density), &figures.sizes);
        let out = render_dashboard_body(endpoint.as_str(), telemetry.as_str(), activity.as_str(), density);
        out
    }

    /// A whole frame as Windows consoles redraw it: the header in the style the
    /// platform uses, then the body at the matching density.
    pub fn render_dashboard_frame(
        &self,
        metrics: &Metrics,
        figures: &DashboardFigures,
        platform: Platform,
    ) -> (out: String)
        requires
            figures.sizes@.len() == metrics.recent_view().len(),
        ensures
            out@ == frame_spec(
                self.server(),
                metrics.counters(),
                metrics.recent_view(),
                *figures,
                recent_millis(metrics.recent_view()),
                platform,
            ),
    {
        let style = windows_header_style(platform);
        let density = windows_dashboard_density(style, platform);
        let mut out = render_static_header(style, platform);
        let body = self.render_dynamic_dashboard_content(metrics, figures, density);
        push_str(&mut out, body.as_str());
        out
    }
}

/// The figures of the dashboard that come formatted from elsewhere: the
/// uptime in whole seconds, the transfer rates and totals as byte amounts,
/// and for each recent request, newest first, the bytes it moved.
pub struct DashboardFigures {
    pub uptime_secs: u64,
    pub up_rate: String,
    pub down_rate: String,
    pub total_in: String,
    pub total_out: String,
    pub sizes: Vec<String>,
}

/// The telemetry panel for the counters `c` and the formatted figures.
pub open spec fn telemetry_spec(c: Counters, figures: DashboardFigures) -> Seq<char> {
    metrics_block_spec(
        figures.uptime_secs as nat,
        c.active_requests as nat,
        c.total_connections as nat,
        c.total_requests as nat,
        figures.up_rate@,
        figures.down_rate@,
        figures.total_in@,
        figures.total_out@,
    )
}

/// The activity list a body at `density` shows.
pub open spec fn activity_list_spec(
    recent: Seq<ActivityEntry>,
    figures: DashboardFigures,
    millis: Seq<nat>,
    density: DashboardDensity,
) -> Seq<char> {
    join_newlines(
        activity_list_rows(recent, string_views(figures.sizes@), millis, activity_count_spec(density)),
    )
}

/// The dashboard body of the server `info` for the counters `c`, the recent
/// requests `recent` (which took `millis[i]` milliseconds each), and the
/// formatted figures.
pub open spec fn dashboard_content_spec(
    info: ServerInfo,
    c: Counters,
    recent: Seq<ActivityEntry>,
    figures: DashboardFigures,
    millis: Seq<nat>,
    density: DashboardDensity,
) -> Seq<char> {
    dashboard_body_spec(
        endpoint_block_spec(
            info.name@,
            info.folder@,
            url_spec(info),
            bind_spec(info),
            mode_spec(info),
            auth_line_spec(info),
        ),
        telemetry_spec(c, figures),
        activity_list_spec(recent, figures, millis, density),
        density,
    )
}

/// The header style a platform's frame uses: compact on Windows.
pub open spec fn frame_style_spec(platform: Platform) -> HeaderStyle {
    if platform == Platform::Windows {
        HeaderStyle::Compact
    } else {
        HeaderStyle::Full
    }
}

/// The body density a platform's frame uses: compact on Windows.
pub open spec fn frame_density_spec(platform: Platform) -> DashboardDensity {
    if platform == Platform::Windows {
        DashboardDensity::Compact
    } else {
        DashboardDensity::Full
    }
}

/// A whole frame: the header, then the body.
pub open spec fn frame_spec(
    info: ServerInfo,
    c: Counters,
    recent: Seq<ActivityEntry>,
    figures: DashboardFigures,
    millis: Seq<nat>,
    platform: Platform,
) -> Seq<char> {
    static_header_spec(frame_style_spec(platform), platform) + dashboard_content_spec(
        info,
        c,
        recent,
        figures,
        millis,
        frame_density_spec(platform),
    )
}

/// Rows without newlines, joined by newlines, hold one newline fewer than rows.
proof fn lemma_join_newlines_count(rows: Seq<Seq<char>>)
    requires
        rows.len() > 0,
        forall|i: int| 0 <= i < rows.len() ==> (#[trigger] rows[i]).len() > 0 && count_char(
            rows[i],
            '\n',
        ) == 0,
    ensures
        count_char(join_newlines(rows), '\n') == rows.len() - 1,
        join_newlines(rows).len() > 0,
        join_newlines(rows).last() == rows.last().last(),
    decreases rows.len(),
{
    if rows.len() > 1 {
        let pre = rows.drop_last();
        assert forall|i: int| 0 <= i < pre.len() implies (#[trigger] pre[i]).len() > 0 && count_char(
            pre[i],
            '\n',
        ) == 0 by {
            assert(pre[i] == rows[i]);
        }
        lemma_join_newlines_count(pre);
        reveal_strlit("\n");
        let j = join_newlines(pre);
        assert(count_char("\n"@, '\n') == 1) by {
            assert("\n"@.drop_last() =~= Seq::<char>::empty());
            assert(count_char(Seq::<char>::empty(), '\n') == 0);
        }
        lemma_count_concat(j, "\n"@, '\n');
        lemma_count_concat(j + "\n"@, rows.last(), '\n');
        assert(rows.last() == rows[rows.len() - 1]);
    }
}

/// Cutting a text adds no newline.
proof fn lemma_truncate_newlines(s: Seq<char>, max: nat)
    requires
        count_char(s, '\n') == 0,
    ensures
        count_char(truncate_spec(s, max), '\n') == 0,
{
    if s.len() > max {
        let k: int = if max == 0 {
            0
        } else {
            max - 1
        };
        assert(s =~= s.take(k) + s.skip(k));
        lemma_count_concat(s.take(k), s.skip(k), '\n');
        lemma_count_none(seq!['…'], '\n');
        lemma_count_concat(s.take(k), seq!['…'], '\n');
    }
}

/// Padding with spaces adds no newline.
proof fn lemma_pad_newlines(s: Seq<char>, width: nat)
    ensures
        count_char(pad_right_spec(s, width), '\n') == count_char(s, '\n'),
        count_char(pad_left_spec(s, width), '\n') == count_char(s, '\n'),
{
    if s.len() < width {
        let sp = spaces((width - s.len()) as nat);
        lemma_count_none(sp, '\n');
        lemma_count_concat(s, sp, '\n');
        lemma_count_concat(sp, s, '\n');
    }
}

/// An activity row is one line when its method, path and size are.
proof fn lemma_entry_row_newlines(e: ActivityEntry, size: Seq<char>, millis: nat)
    requires
        count_char(e.method@, '\n') == 0,
        count_char(e.path@, '\n') == 0,
        count_char(size, '\n') == 0,
    ensures
        count_char(entry_row_spec(e, size, millis), '\n') == 0,
        entry_row_spec(e, size, millis).len() > 0,
{
    reveal_strlit("  ");
    reveal_strlit("›");
    reveal_strlit(" ");
    reveal_strlit("ms");
    let status = e.status as nat;
    let a = "  "@;
    let b = color_spec("›"@, 90);
    let c = " "@;
    let d = pad_right_spec(color_spec(truncate_spec(e.method@, 8), 35), 8);
    let f = color_spec(decimal(status), status_color(status));
    let g = pad_right_spec(truncate_spec(e.path@, 34), 34);
    let h = pad_left_spec(size, 9);
    let k = pad_left_spec(decimal(millis), 6);
    let m = "ms"@;
    lemma_count_none(a, '\n');
    lemma_count_none("›"@, '\n');
    lemma_color_newlines("›"@, 90);
    lemma_count_none(c, '\n');
    lemma_truncate_newlines(e.method@, 8);
    lemma_color_newlines(truncate_spec(e.method@, 8), 35);
    lemma_pad_newlines(color_spec(truncate_spec(e.method@, 8), 35), 8);
    lemma_decimal_no_newline(status);
    lemma_color_newlines(decimal(status), status_color(status));
    lemma_truncate_newlines(e.path@, 34);
    lemma_pad_newlines(truncate_spec(e.path@, 34), 34);
    lemma_pad_newlines(size, 9);
    lemma_decimal_no_newline(millis);
    lemma_pad_newlines(decimal(millis), 6);
    lemma_count_none(m, '\n');
    lemma_count_concat(a, b, '\n');
    lemma_count_concat(a + b, a, '\n');
    lemma_count_concat(a + b + a, d, '\n');
    lemma_count_concat(a + b + a + d, c, '\n');
    lemma_count_concat(a + b + a + d + c, f, '\n');
    lemma_count_concat(a + b + a + d + c + f, a, '\n');
    lemma_count_concat(a + b + a + d + c + f + a, g, '\n');
    lemma_count_concat(a + b + a + d + c + f + a + g, c, '\n');
    lemma_count_concat(a + b + a + d + c + f + a + g + c, h, '\n');
    lemma_count_concat(a + b + a + d + c + f + a + g + c + h, c, '\n');
    lemma_count_concat(a + b + a + d + c + f + a + g + c + h + c, k, '\n');
    lemma_count_concat(a + b + a + d + c + f + a + g + c + h + c + k, m, '\n');
    assert(entry_row_spec(e, size, millis) == a + b + a + d + c + f + a + g + c + h + c + k + m);
}

/// The placeholder row is one line.
proof fn lemma_placeholder_newlines()
    ensures
        count_char(activity_placeholder_spec(), '\n') == 0,
        activity_placeholder_spec().len() > 0,
{
    reveal_strlit("  ");
    reveal_strlit("·");
    lemma_count_none("  "@, '\n');
    lemma_color_newlines("·"@, 90);
    lemma_count_none("·"@, '\n');
    lemma_count_concat("  "@, color_spec("·"@, 90), '\n');
}

/// The first `shown` requests have a method, path and formatted size without
/// a newline.
pub open spec fn single_line_entries(
    recent: Seq<ActivityEntry>,
    sizes: Seq<Seq<char>>,
    shown: nat,
) -> bool {
    forall|i: int|
        #![trigger recent[i]]
        0 <= i < recent.len() && i < shown ==> count_char(recent[i].method@, '\n') == 0
            && count_char(recent[i].path@, '\n') == 0 && count_char(sizes[i], '\n') == 0
}

/// The activity list has exactly the requested number of lines, whatever
/// the requests and their durations, as long as each request it shows has a
/// method, path and size on a single line.
pub proof fn lemma_activity_line_count(
    recent: Seq<ActivityEntry>,
    sizes: Seq<Seq<char>>,
    millis: Seq<nat>,
    count: nat,
)
    requires
        count >= 1,
        sizes.len() == recent.len(),
        millis.len() == recent.len(),
        single_line_entries(recent, sizes, count),
    ensures
        lines(join_newlines(activity_list_rows(recent, sizes, millis, count))).len() == count,
{
    let all = activity_list_rows(recent, sizes, millis, count);
    lemma_placeholder_newlines();
    assert forall|i: int| 0 <= i < all.len() implies (#[trigger] all[i]).len() > 0 && count_char(
        all[i],
        '\n',
    ) == 0 by {
        if i < recent.len() {
            lemma_entry_row_newlines(recent[i], sizes[i], millis[i]);
            assert(all[i] == entry_row_spec(recent[i], sizes[i], millis[i]));
        } else {
            assert(all[i] == activity_placeholder_spec());
        }
    }
    lemma_join_newlines_count(all);
    let last = all.last();
    assert(last.len() > 0);
    assert(last.last() != '\n') by {
        if last.last() == '\n' {
            assert(last.drop_last() + seq!['\n'] =~= last);
            lemma_count_concat(last.drop_last(), seq!['\n'], '\n');
            assert(seq!['\n'].drop_last() =~= Seq::<char>::empty());
            assert(count_char(Seq::<char>::empty(), '\n') == 0);
            assert(count_char(seq!['\n'], '\n') == 1);
        }
    }
    lemma_lines_count_unterminated(join_newlines(all));
}

/// With no recent requests the activity list is all placeholders: eight
/// rows in the full body, one in the compact body, whatever the figures.
pub proof fn lemma_empty_activity_list(
    figures: DashboardFigures,
    millis: Seq<nat>,
    density: DashboardDensity,
)
    ensures
        activity_list_spec(Seq::empty(), figures, millis, density) == join_newlines(
            Seq::new(activity_count_spec(density), |i: int| activity_placeholder_spec()),
        ),
        lines(activity_list_spec(Seq::empty(), figures, millis, density)).len()
            == activity_count_spec(density),
        density == DashboardDensity::Full ==> activity_count_spec(density) == 8,
        density == DashboardDensity::Compact ==> activity_count_spec(density) == 1,
{
    let n = activity_count_spec(density);
    let sizes = string_views(figures.sizes@);
    assert(activity_list_rows(Seq::empty(), sizes, millis, n) =~= Seq::new(
        n,
        |i: int| activity_placeholder_spec(),
    ));
    lemma_activity_line_count(Seq::empty(), Seq::empty(), Seq::empty(), n);
    assert(activity_list_rows(Seq::empty(), sizes, millis, n) =~= activity_list_rows(
        Seq::empty(),
        Seq::empty(),
        Seq::empty(),
        n,
    ));
}

/// A text without a newline.
pub open spec fn single_line(s: Seq<char>) -> bool {
    count_char(s, '\n') == 0
}

/// The server texts the dashboard shows are single lines.
pub open spec fn single_line_server(info: ServerInfo) -> bool {
    &&& single_line(info.name@)
    &&& single_line(info.folder@)
    &&& single_line(info.display_host@)
    &&& single_line(info.bind_host@)
    &&& single_line(info.username@)
    &&& (info.password matches Some(p) ==> single_line(p@))
}

/// The formatted rates and totals are single lines.
pub open spec fn single_line_figures(figures: DashboardFigures) -> bool {
    &&& single_line(figures.up_rate@)
    &&& single_line(figures.down_rate@)
    &&& single_line(figures.total_in@)
    &&& single_line(figures.total_out@)
}

/// No line of a text holds a newline.
proof fn lemma_lines_single(s: Seq<char>)
    ensures
        forall|i: int| 0 <= i < lines(s).len() ==> count_char(#[trigger] lines(s)[i], '\n') == 0,
    decreases s.len(),
{
    if s.len() > 0 {
        lemma_find_facts(s, '\n');
        let k = find(s, '\n');
        if k < 0 {
            lemma_count_none(s, '\n');
            assert(lines(s) == seq![s]);
        } else {
            let head = strip_cr(s.subrange(0, k));
            let rest = s.subrange(k + 1, s.len() as int);
            lemma_lines_single(rest);
            assert forall|j: int| 0 <= j < head.len() implies head[j] != '\n' by {
                assert(head[j] == s[j]);
            }
            lemma_count_none(head, '\n');
            assert(lines(s) == seq![head] + lines(rest));
            assert forall|i: int| 0 <= i < lines(s).len() implies count_char(
                #[trigger] lines(s)[i],
                '\n',
            ) == 0 by {
                if i > 0 {
                    assert(lines(s)[i] == lines(rest)[i - 1]);
                }
            }
        }
    }
}

/// Dashboard lines without newlines end in one newline each.
proof fn lemma_joined_lines_count(ls: Seq<Seq<char>>)
    requires
        forall|i: int| 0 <= i < ls.len() ==> count_char(#[trigger] ls[i], '\n') == 0,
    ensures
        count_char(joined_lines(ls), '\n') == ls.len(),
        ls.len() > 0 ==> joined_lines(ls).last() == '\n',
    decreases ls.len(),
{
    if ls.len() == 0 {
        assert(count_char(Seq::<char>::empty(), '\n') == 0);
    } else {
        let pre = ls.drop_last();
        assert forall|i: int| 0 <= i < pre.len() implies count_char(#[trigger] pre[i], '\n') == 0 by {
            assert(pre[i] == ls[i]);
        }
        lemma_joined_lines_count(pre);
        assert(count_char(ls.last(), '\n') == 0) by {
            assert(ls.last() == ls[ls.len() - 1]);
        }
        lemma_line_newlines(ls.last());
        lemma_count_concat(joined_lines(pre), line_spec(ls.last()), '\n');
    }
}

/// A compact block has one row per line of its text.
proof fn lemma_compact_block_rows(v: Seq<char>)
    ensures
        count_char(compact_block_spec(v), '\n') == lines(v).len(),
        lines(v).len() > 0 ==> compact_block_spec(v).last() == '\n',
{
    lemma_lines_single(v);
    lemma_joined_lines_count(lines(v));
}

/// Single-line rows joined by newlines make one line each.
proof fn lemma_join_newlines_lines(rows: Seq<Seq<char>>)
    requires
        rows.len() > 0,
        forall|i: int| 0 <= i < rows.len() ==> (#[trigger] rows[i]).len() > 0 && count_char(
            rows[i],
            '\n',
        ) == 0,
    ensures
        lines(join_newlines(rows)).len() == rows.len(),
        count_char(join_newlines(rows), '\n') == rows.len() - 1,
        join_newlines(rows).last() != '\n',
{
    lemma_join_newlines_count(rows);
    let last = rows.last();
    assert(last.len() > 0 && count_char(last, '\n') == 0) by {
        assert(last == rows[rows.len() - 1]);
    }
    lemma_lines_count_unterminated(join_newlines(rows));
}

/// A string literal holds no newline.
proof fn lemma_literal_line(s: Seq<char>)
    requires
        forall|i: int| 0 <= i < s.len() ==> s[i] != '\n',
    ensures
        single_line(s),
{
    lemma_count_none(s, '\n');
}

/// A panel row of either kind is one non-empty line.
proof fn lemma_panel_row_lines(label: Seq<char>, value: Seq<char>)
    requires
        single_line(label),
        single_line(value),
    ensures
        single_line(kv_spec(label, value)),
        single_line(metric_spec(label, value)),
        kv_spec(label, value).len() > 0,
        metric_spec(label, value).len() > 0,
{
    reveal_strlit("  ");
    reveal_strlit("•");
    reveal_strlit("◆");
    reveal_strlit(" ");
    lemma_literal_line("  "@);
    lemma_literal_line("•"@);
    lemma_literal_line("◆"@);
    lemma_literal_line(" "@);
    lemma_color_newlines("•"@, 36);
    lemma_color_newlines("◆"@, 32);
    lemma_color_newlines(label, 90);
    lemma_pad_newlines(color_spec(label, 90), 10);
    lemma_truncate_newlines(value, 72);
    let p = pad_right_spec(color_spec(label, 90), 10);
    let a = "  "@;
    let sp = " "@;
    let k = color_spec("•"@, 36);
    let m = color_spec("◆"@, 32);
    lemma_count_concat(a, k, '\n');
    lemma_count_concat(a + k, sp, '\n');
    lemma_count_concat(a + k + sp, p, '\n');
    lemma_count_concat(a + k + sp + p, sp, '\n');
    lemma_count_concat(a + k + sp + p + sp, truncate_spec(value, 72), '\n');
    lemma_count_concat(a, m, '\n');
    lemma_count_concat(a + m, sp, '\n');
    lemma_count_concat(a + m + sp, p, '\n');
    lemma_count_concat(a + m + sp + p, sp, '\n');
    lemma_count_concat(a + m + sp + p + sp, value, '\n');
}

/// The endpoint panel of a server with single-line texts has six lines.
proof fn lemma_endpoint_lines(info: ServerInfo)
    requires
        single_line_server(info),
    ensures
        lines(
            endpoint_block_spec(
                info.name@,
                info.folder@,
                url_spec(info),
                bind_spec(info),
                mode_spec(info),
                auth_line_spec(info),
            ),
        ).len() == 6,
{
    reveal_strlit("Name");
    reveal_strlit("Folder");
    reveal_strlit("WebDAV");
    reveal_strlit("Bind");
    reveal_strlit("Mode");
    reveal_strlit("Auth");
    reveal_strlit("http://");
    reveal_strlit(":");
    reveal_strlit("/");
    reveal_strlit("read-only");
    reveal_strlit("read-write");
    reveal_strlit("disabled");
    reveal_strlit(" / ");
    reveal_strlit("<hidden>");
    lemma_literal_line("Name"@);
    lemma_literal_line("Folder"@);
    lemma_literal_line("WebDAV"@);
    lemma_literal_line("Bind"@);
    lemma_literal_line("Mode"@);
    lemma_literal_line("Auth"@);
    lemma_literal_line("http://"@);
    lemma_literal_line(":"@);
    lemma_literal_line("/"@);
    lemma_literal_line("read-only"@);
    lemma_literal_line("read-write"@);
    lemma_literal_line("disabled"@);
    lemma_literal_line(" / "@);
    lemma_literal_line("<hidden>"@);
    lemma_decimal_no_newline(info.port as nat);
    let port = decimal(info.port as nat);
    lemma_count_concat("http://"@, info.display_host@, '\n');
    lemma_count_concat("http://"@ + info.display_host@, ":"@, '\n');
    lemma_count_concat("http://"@ + info.display_host@ + ":"@, port, '\n');
    lemma_count_concat("http://"@ + info.display_host@ + ":"@ + port, "/"@, '\n');
    lemma_count_concat(info.bind_host@, ":"@, '\n');
    lemma_count_concat(info.bind_host@ + ":"@, port, '\n');
    let pw = match info.password {
        Some(p) => p@,
        None => "<hidden>"@,
    };
    lemma_count_concat(info.username@, " / "@, '\n');
    lemma_count_concat(info.username@ + " / "@, pw, '\n');
    assert(single_line(url_spec(info)));
    assert(single_line(bind_spec(info)));
    assert(single_line(mode_spec(info)));
    assert(single_line(auth_line_spec(info)));
    let rows = seq![
        kv_spec("Name"@, info.name@),
        kv_spec("Folder"@, info.folder@),
        kv_spec("WebDAV"@, url_spec(info)),
        kv_spec("Bind"@, bind_spec(info)),
        kv_spec("Mode"@, mode_spec(info)),
        kv_spec("Auth"@, auth_line_spec(info)),
    ];
    lemma_panel_row_lines("Name"@, info.name@);
    lemma_panel_row_lines("Folder"@, info.folder@);
    lemma_panel_row_lines("WebDAV"@, url_spec(info));
    lemma_panel_row_lines("Bind"@, bind_spec(info));
    lemma_panel_row_lines("Mode"@, mode_spec(info));
    lemma_panel_row_lines("Auth"@, auth_line_spec(info));
    assert forall|i: int| 0 <= i < rows.len() implies (#[trigger] rows[i]).len() > 0 && count_char(
        rows[i],
        '\n',
    ) == 0 by {}
    lemma_join_newlines_lines(rows);
}

/// An uptime is one line.
proof fn lemma_duration_line(total: nat)
    ensures
        single_line(duration_text(total)),
{
    reveal_strlit("h ");
    reveal_strlit("m ");
    reveal_strlit("s");
    lemma_literal_line("h "@);
    lemma_literal_line("m "@);
    lemma_literal_line("s"@);
    let h = decimal(total / 3600);
    let m = decimal((total % 3600) / 60);
    let sec = decimal(total % 60);
    lemma_decimal_no_newline(total / 3600);
    lemma_decimal_no_newline((total % 3600) / 60);
    lemma_decimal_no_newline(total % 60);
    lemma_count_concat(h, "h "@, '\n');
    lemma_count_concat(h + "h "@, m, '\n');
    lemma_count_concat(h + "h "@ + m, "m "@, '\n');
    lemma_count_concat(h + "h "@ + m + "m "@, sec, '\n');
    lemma_count_concat(h + "h "@ + m + "m "@ + sec, "s"@, '\n');
    lemma_count_concat(m, "m "@, '\n');
    lemma_count_concat(m + "m "@, sec, '\n');
    lemma_count_concat(m + "m "@ + sec, "s"@, '\n');
    lemma_count_concat(sec, "s"@, '\n');
}

/// The telemetry panel with single-line figures has six lines.
proof fn lemma_telemetry_lines(c: Counters, figures: DashboardFigures)
    requires
        single_line_figures(figures),
    ensures
        lines(telemetry_spec(c, figures)).len() == 6,
{
    reveal_strlit("Uptime");
    reveal_strlit("Active req");
    reveal_strlit("Conn total");
    reveal_strlit("Requests");
    reveal_strlit("Traffic");
    reveal_strlit("Totals");
    reveal_strlit("up ");
    reveal_strlit("/s   down ");
    reveal_strlit("/s");
    reveal_strlit("in ");
    reveal_strlit("   out ");
    lemma_literal_line("Uptime"@);
    lemma_literal_line("Active req"@);
    lemma_literal_line("Conn total"@);
    lemma_literal_line("Requests"@);
    lemma_literal_line("Traffic"@);
    lemma_literal_line("Totals"@);
    lemma_literal_line("up "@);
    lemma_literal_line("/s   down "@);
    lemma_literal_line("/s"@);
    lemma_literal_line("in "@);
    lemma_literal_line("   out "@);
    lemma_duration_line(figures.uptime_secs as nat);
    lemma_decimal_no_newline(c.active_requests as nat);
    lemma_decimal_no_newline(c.total_connections as nat);
    lemma_decimal_no_newline(c.total_requests as nat);
    let t = "up "@ + figures.up_rate@ + "/s   down "@ + figures.down_rate@ + "/s"@;
    lemma_count_concat("up "@, figures.up_rate@, '\n');
    lemma_count_concat("up "@ + figures.up_rate@, "/s   down "@, '\n');
    lemma_count_concat("up "@ + figures.up_rate@ + "/s   down "@, figures.down_rate@, '\n');
    lemma_count_concat(
        "up "@ + figures.up_rate@ + "/s   down "@ + figures.down_rate@,
        "/s"@,
        '\n',
    );
    let o = "in "@ + figures.total_in@ + "   out "@ + figures.total_out@;
    lemma_count_concat("in "@, figures.total_in@, '\n');
    lemma_count_concat("in "@ + figures.total_in@, "   out "@, '\n');
    lemma_count_concat("in "@ + figures.total_in@ + "   out "@, figures.total_out@, '\n');
    let rows = seq![
        metric_spec("Uptime"@, duration_text(figures.uptime_secs as nat)),
        metric_spec("Active req"@, decimal(c.active_requests as nat)),
        metric_spec("Conn total"@, decimal(c.total_connections as nat)),
        metric_spec("Requests"@, decimal(c.total_requests as nat)),
        metric_spec("Traffic"@, t),
        metric_spec("Totals"@, o),
    ];
    lemma_panel_row_lines("Uptime"@, duration_text(figures.uptime_secs as nat));
    lemma_panel_row_lines("Active req"@, decimal(c.active_requests as nat));
    lemma_panel_row_lines("Conn total"@, decimal(c.total_connections as nat));
    lemma_panel_row_lines("Requests"@, decimal(c.total_requests as nat));
    lemma_panel_row_lines("Traffic"@, t);
    lemma_panel_row_lines("Totals"@, o);
    assert forall|i: int| 0 <= i < rows.len() implies (#[trigger] rows[i]).len() > 0 && count_char(
        rows[i],
        '\n',
    ) == 0 by {}
    lemma_join_newlines_lines(rows);
}

/// A section title line is one row.
proof fn lemma_section_line(v: Seq<char>)
    requires
        single_line(v),
    ensures
        count_char(line_spec(section_spec(v)), '\n') == 1,
        line_spec(section_spec(v)).last() == '\n',
{
    reveal_strlit("▸");
    reveal_strlit(" ");
    reveal_strlit("\x1b[1m");
    reveal_strlit("\x1b[0m");
    lemma_literal_line("▸"@);
    lemma_literal_line(" "@);
    lemma_literal_line("\x1b[1m"@);
    lemma_literal_line("\x1b[0m"@);
    lemma_color_newlines("▸"@, 33);
    lemma_count_concat("\x1b[1m"@, v, '\n');
    lemma_count_concat("\x1b[1m"@ + v, "\x1b[0m"@, '\n');
    lemma_count_concat(color_spec("▸"@, 33), " "@, '\n');
    lemma_count_concat(color_spec("▸"@, 33) + " "@, bold_spec(v), '\n');
    lemma_line_newlines(section_spec(v));
}

/// The compact body has seventeen rows when the texts it shows are single
/// lines, and ends a row.
proof fn lemma_compact_body_rows(
    info: ServerInfo,
    c: Counters,
    recent: Seq<ActivityEntry>,
    figures: DashboardFigures,
    millis: Seq<nat>,
)
    requires
        single_line_server(info),
        single_line_figures(figures),
        figures.sizes@.len() == recent.len(),
        millis.len() == recent.len(),
        recent.len() > 0 ==> single_line(recent[0].method@) && single_line(recent[0].path@)
            && single_line(figures.sizes@[0]@),
    ensures
        count_char(
            dashboard_content_spec(info, c, recent, figures, millis, DashboardDensity::Compact),
            '\n',
        ) == 17,
        dashboard_content_spec(info, c, recent, figures, millis, DashboardDensity::Compact).last()
            == '\n',
{
    let endpoint = endpoint_block_spec(
        info.name@,
        info.folder@,
        url_spec(info),
        bind_spec(info),
        mode_spec(info),
        auth_line_spec(info),
    );
    let telemetry = telemetry_spec(c, figures);
    let sizes = string_views(figures.sizes@);
    assert(single_line_entries(recent, sizes, 1)) by {
        if recent.len() > 0 {
            assert(sizes[0] == figures.sizes@[0]@);
        }
    }
    lemma_activity_line_count(recent, sizes, millis, 1);
    let activity = activity_list_spec(recent, figures, millis, DashboardDensity::Compact);
    let rows = activity_list_rows(recent, sizes, millis, 1);
    lemma_placeholder_newlines();
    assert(rows[0].len() > 0 && count_char(rows[0], '\n') == 0) by {
        if recent.len() > 0 {
            lemma_entry_row_newlines(recent[0], sizes[0], millis[0]);
        }
    }
    lemma_join_newlines_lines(rows);
    let help = help_line_spec(DashboardDensity::Compact);
    reveal_strlit("Enter/Ctrl+C stop · ");
    reveal_strlit("Davbox 0.1.3 · MIT · © 2026 stigachen");
    reveal_strlit("\n");
    lemma_literal_line("Enter/Ctrl+C stop · "@);
    lemma_literal_line(product_meta_spec());
    lemma_count_concat("Enter/Ctrl+C stop · "@, product_meta_spec(), '\n');
    lemma_color_newlines("Enter/Ctrl+C stop · "@ + product_meta_spec(), 90);
    let tail = activity + "\n"@ + help;
    assert(count_char("\n"@, '\n') == 1) by {
        assert("\n"@.drop_last() =~= Seq::<char>::empty());
        assert(count_char(Seq::<char>::empty(), '\n') == 0);
    }
    lemma_count_concat(activity, "\n"@, '\n');
    lemma_count_concat(activity + "\n"@, help, '\n');
    assert(help.last() != '\n') by {
        reveal_strlit("\x1b[0m");
        assert(help.last() == 'm');
    }
    assert(tail.last() == help.last());
    lemma_lines_count_unterminated(tail);
    lemma_endpoint_lines(info);
    lemma_telemetry_lines(c, figures);
    lemma_compact_block_rows(endpoint);
    lemma_compact_block_rows(telemetry);
    lemma_compact_block_rows(tail);
    reveal_strlit("UPLINK");
    reveal_strlit("TELEMETRY");
    reveal_strlit("RECENT ACTIVITY");
    lemma_literal_line("UPLINK"@);
    lemma_literal_line("TELEMETRY"@);
    lemma_literal_line("RECENT ACTIVITY"@);
    lemma_section_line("UPLINK"@);
    lemma_section_line("TELEMETRY"@);
    lemma_section_line("RECENT ACTIVITY"@);
    let s1 = line_spec(section_spec("UPLINK"@));
    let s2 = line_spec(section_spec("TELEMETRY"@));
    let s3 = line_spec(section_spec("RECENT ACTIVITY"@));
    let b1 = compact_block_spec(endpoint);
    let b2 = compact_block_spec(telemetry);
    let b3 = compact_block_spec(tail);
    lemma_count_concat(s1, b1, '\n');
    lemma_count_concat(s1 + b1, s2, '\n');
    lemma_count_concat(s1 + b1 + s2, b2, '\n');
    lemma_count_concat(s1 + b1 + s2 + b2, s3, '\n');
    lemma_count_concat(s1 + b1 + s2 + b2 + s3, b3, '\n');
    assert(dashboard_content_spec(info, c, recent, figures, millis, DashboardDensity::Compact)
        == s1 + b1 + s2 + b2 + s3 + b3);
}

/// A compact frame fits a terminal of 24 rows: the compact header (five rows
/// with the text logo, seven with the pixel logo), then seventeen rows of
/// body, when the server texts, the figures and the request shown are single
/// lines.
pub proof fn lemma_compact_frame_fits(
    info: ServerInfo,
    c: Counters,
    recent: Seq<ActivityEntry>,
    figures: DashboardFigures,
    millis: Seq<nat>,
    platform: Platform,
)
    requires
        single_line_server(info),
        single_line_figures(figures),
        figures.sizes@.len() == recent.len(),
        millis.len() == recent.len(),
        recent.len() > 0 ==> single_line(recent[0].method@) && single_line(recent[0].path@)
            && single_line(figures.sizes@[0]@),
    ensures
        lines(
            static_header_spec(HeaderStyle::Compact, platform) + dashboard_content_spec(
                info,
                c,
                recent,
                figures,
                millis,
                DashboardDensity::Compact,
            ),
        ).len() == logo_rows(HeaderStyle::Compact, platform) + 19,
        lines(
            static_header_spec(HeaderStyle::Compact, platform) + dashboard_content_spec(
                info,
                c,
                recent,
                figures,
                millis,
                DashboardDensity::Compact,
            ),
        ).len() <= 24,
{
    let h = static_header_spec(HeaderStyle::Compact, platform);
    let b = dashboard_content_spec(info, c, recent, figures, millis, DashboardDensity::Compact);
    lemma_static_header_rows(HeaderStyle::Compact, platform);
    lemma_compact_body_rows(info, c, recent, figures, millis);
    lemma_count_concat(h, b, '\n');
    assert(b.len() > 0);
    assert((h + b).last() == b.last());
    lemma_lines_count(h + b);
}

} // verus!
