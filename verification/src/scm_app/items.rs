//! What the rows of the source control view say.

use vstd::prelude::*;

use crate::cells::{text_width, width_of};
use crate::change_tree::{Row as TreeRow, RowView};
use crate::git::{DiffStat, EntryView, FileEntry};
use crate::input::{least, monus, most, smaller, take_off, Platform};
use crate::paths::{native, native_path};
use crate::scan::{digits, digits_of, utf8_len};
use crate::scm_app::app::opt_entry;
use crate::scm_app::drawers::Drawer;
use crate::scm_app::layout::{
    change_tail_width, inline_field_width, message_placeholder, message_rows, message_window,
    placeholder_for, section_action_start, sign_column, tail_columns, wrap_message,
    MESSAGE_MAX_ROWS,
};
use crate::style::{
    fg_style, lines_view, no_style, push_line, push_span, spans_view, Color, Line, LineView,
    RowStep, RowStepView, Span, SpanView, Style,
};
use crate::syntax::{push_spaces, spaces};
use crate::text::{cat, cat3, chars_of, opt_text, push_text, rfind, text_of, text_slice, texts};

verus! {

pub const BUTTON_BLUE: u32 = 0x0078d4;

pub const BUTTON_BLUE_FOCUS: u32 = 0x028af0;

pub const BADGE_BLUE: u32 = 0x0078d4;

pub const MODIFIED: u32 = 0xe2c08d;

pub const UNTRACKED: u32 = 0x73c991;

pub const ADDED: u32 = 0x81b88b;

pub const RENAMED: u32 = 0x73c991;

pub const DELETED: u32 = 0xc74e39;

pub const CONFLICT: u32 = 0xe4676b;

pub const HOVER_BG: u32 = 0x30343c;

/// The color of a change's letter.
pub open spec fn color_of_letter(letter: char) -> Color {
    if letter == 'M' {
        Color::Rgb(MODIFIED)
    } else if letter == 'U' {
        Color::Rgb(UNTRACKED)
    } else if letter == 'A' {
        Color::Rgb(ADDED)
    } else if letter == 'R' || letter == 'C' {
        Color::Rgb(RENAMED)
    } else if letter == 'D' {
        Color::Rgb(DELETED)
    } else if letter == '!' {
        Color::Rgb(CONFLICT)
    } else {
        Color::Reset
    }
}

pub fn letter_color(letter: char) -> (r: Color)
    ensures
        r == color_of_letter(letter),
{
    match letter {
        'M' => Color::Rgb(MODIFIED),
        'U' => Color::Rgb(UNTRACKED),
        'A' => Color::Rgb(ADDED),
        'R' => Color::Rgb(RENAMED),
        'C' => Color::Rgb(RENAMED),
        'D' => Color::Rgb(DELETED),
        '!' => Color::Rgb(CONFLICT),
        _ => Color::Reset,
    }
}

// ---- Building rows ----

pub open spec fn bold() -> Style {
    Style { bold: true, ..no_style() }
}

pub open spec fn dim() -> Style {
    Style { dim: true, ..no_style() }
}

pub open spec fn span(text: Seq<char>, style: Style) -> SpanView {
    SpanView { text, style }
}

pub open spec fn row_of(spans: Seq<SpanView>) -> LineView {
    LineView { spans, style: no_style() }
}

/// `n` times the same character.
pub open spec fn copies(c: char, n: nat) -> Seq<char> {
    Seq::new(n, |i: int| c)
}

pub fn copies_of(c: char, n: usize) -> (r: String)
    ensures
        r@ == copies(c, n as nat),
{
    let mut v: Vec<char> = Vec::new();
    let mut i: usize = 0;
    while i < n
        invariant
            i <= n,
            v@ =~= copies(c, i as nat),
        decreases n - i,
    {
        v.push(c);
        i += 1;
    }
    text_of(&v)
}

pub(crate) fn blank_text(n: usize) -> (r: String)
    ensures
        r@ == spaces(n as nat),
{
    let mut v: Vec<char> = Vec::new();
    push_spaces(&mut v, n);
    assert(v@ =~= spaces(n as nat));
    text_of(&v)
}

pub(crate) fn blank(n: usize) -> (r: Span)
    ensures
        r@ == span(spaces(n as nat), no_style()),
{
    Span { text: blank_text(n), style: Style::default() }
}

pub(crate) fn text_in(text: &str, style: Style) -> (r: Span)
    ensures
        r@ == span(text@, style),
{
    Span { text: text.to_string(), style }
}

pub(crate) fn plain(text: &str) -> (r: Span)
    ensures
        r@ == span(text@, no_style()),
{
    Span { text: text.to_string(), style: Style::default() }
}

pub(crate) fn row(spans: Vec<Span>) -> (r: Line)
    ensures
        r@ == row_of(spans_view(spans@)),
{
    Line { spans, style: Style::default() }
}

pub(crate) fn single(s: Span) -> (r: Line)
    ensures
        r@ == row_of(seq![s@]),
{
    let mut v: Vec<Span> = Vec::new();
    v.push(s);
    assert(spans_view(v@) =~= seq![s@]);
    row(v)
}

pub(crate) fn no_spans() -> (r: Vec<Span>)
    ensures
        spans_view(r@) == Seq::<SpanView>::empty(),
{
    let r: Vec<Span> = Vec::new();
    assert(spans_view(r@) =~= Seq::empty());
    r
}

/// How many columns spans take.
pub open spec fn cells_in(spans: Seq<SpanView>) -> nat
    decreases spans.len(),
{
    if spans.len() == 0 {
        0
    } else {
        cells_in(spans.drop_last()) + width_of(spans.last().text)
    }
}

/// How many of `width` columns spans leave.
pub fn room_after(width: usize, spans: &Vec<Span>) -> (r: usize)
    ensures
        r == monus(width as int, cells_in(spans_view(spans@)) as int),
{
    let ghost all = spans_view(spans@);
    let mut left = width;
    let mut i: usize = 0;
    while i < spans.len()
        invariant
            i <= spans@.len(),
            all == spans_view(spans@),
            left == monus(width as int, cells_in(all.take(i as int)) as int),
        decreases spans@.len() - i,
    {
        proof {
            assert(all.take(i + 1).drop_last() =~= all.take(i as int));
            assert(all.take(i + 1).last() == spans@[i as int]@);
        }
        left = take_off(left, text_width(spans[i].text.as_str()));
        i += 1;
    }
    assert(all.take(i as int) =~= all);
    left
}

/// An arrow that points down where something is open, and else to the right.
pub open spec fn arrow_of(expanded: bool) -> Seq<char> {
    if expanded {
        "▾"@
    } else {
        "▸"@
    }
}

pub fn arrow_text(expanded: bool) -> (r: &'static str)
    ensures
        r@ == arrow_of(expanded),
{
    if expanded {
        "▾"
    } else {
        "▸"
    }
}

// ---- Sections and drawers ----

/// The head of a section: its arrow and its title in bold.
pub open spec fn section_head(title: Seq<char>, collapsed: bool) -> SpanView {
    span(" "@ + arrow_of(!collapsed) + " "@ + title, bold())
}

/// A section's row. Its count stands at the right, and before it, under the mouse,
/// the sign that stages or unstages the whole section.
pub open spec fn section_row(
    title: Seq<char>,
    collapsed: bool,
    count: Option<usize>,
    width: int,
    action: Option<char>,
) -> LineView {
    let left = section_head(title, collapsed);
    match count {
        None => row_of(seq![left]),
        Some(n) => {
            let badge = span(
                " "@ + digits(n as nat) + " "@,
                Style {
                    bg: Some(Color::Rgb(BADGE_BLUE)),
                    fg: Some(Color::White),
                    ..no_style()
                },
            );
            let head = width_of(left.text) as int;
            row_of(
                match action {
                    Some(a) => seq![
                        left,
                        span(
                            spaces(monus(sign_column(title, width, n as nat), head) as nat),
                            no_style(),
                        ),
                        span(seq![a] + " "@, bold()),
                        badge,
                        span(" "@, no_style()),
                    ],
                    None => seq![
                        left,
                        span(
                            spaces(
                                most(
                                    monus(width, head + width_of(badge.text) + 1),
                                    1,
                                ) as nat,
                            ),
                            no_style(),
                        ),
                        badge,
                        span(" "@, no_style()),
                    ],
                },
            )
        },
    }
}

fn section_left(title: &str, collapsed: bool) -> (r: Span)
    ensures
        r@ == section_head(title@, collapsed),
{
    let head = cat3(" ", arrow_text(!collapsed), " ");
    Span { text: cat(head.as_str(), title), style: Style::default().bold() }
}

fn badge_of(n: usize) -> (r: Span)
    ensures
        r@ == span(
            " "@ + digits(n as nat) + " "@,
            Style { bg: Some(Color::Rgb(BADGE_BLUE)), fg: Some(Color::White), ..no_style() },
        ),
{
    let d = digits_of(n);
    let text = text_of(&d);
    Span {
        text: cat3(" ", text.as_str(), " "),
        style: Style::default().bg(Color::Rgb(BADGE_BLUE)).fg(Color::White),
    }
}

fn sign_of(a: char) -> (r: Span)
    ensures
        r@ == span(seq![a] + " "@, bold()),
{
    let mut v: Vec<char> = Vec::new();
    v.push(a);
    push_text(&mut v, " ");
    assert(v@ =~= seq![a] + " "@);
    Span { text: text_of(&v), style: Style::default().bold() }
}

/// A section's row: its arrow and title, and at the right its count.
pub fn section_item(
    title: &str,
    collapsed: bool,
    count: Option<usize>,
    width: usize,
    action: Option<char>,
) -> (r: Line)
    requires
        utf8_len(title@) + 4 <= usize::MAX,
    ensures
        r@ == section_row(title@, collapsed, count, width as int, action),
{
    let left = section_left(title, collapsed);
    let n = match count {
        Some(n) => n,
        None => {
            return single(left);
        },
    };
    let badge = badge_of(n);
    let head = text_width(left.text.as_str());
    let mut spans = no_spans();
    push_span(&mut spans, left);
    match action {
        Some(a) => {
            let at = section_action_start(title, width, n);
            push_span(&mut spans, blank(take_off(at, head)));
            push_span(&mut spans, sign_of(a));
        },
        None => {
            let room = take_off(take_off(take_off(width, head), text_width(badge.text.as_str())), 1);
            push_span(
                &mut spans,
                blank(
                    if room > 1 {
                        room
                    } else {
                        1
                    },
                ),
            );
        },
    }
    push_span(&mut spans, badge);
    push_span(&mut spans, plain(" "));
    assert(spans_view(spans@) =~= section_row(
        title@,
        collapsed,
        count,
        width as int,
        action,
    ).spans);
    row(spans)
}

/// The head of the drawer that follows a file, with the file's name.
pub open spec fn history_head(collapsed: bool, file: Seq<char>) -> LineView {
    row_of(
        seq![
            span(" "@ + arrow_of(!collapsed) + " File History"@, bold()),
            span("  "@ + file, dim()),
        ],
    )
}

pub fn file_history_header(collapsed: bool, file: &str) -> (r: Line)
    ensures
        r@ == history_head(collapsed, file@),
{
    let mut spans = no_spans();
    push_span(
        &mut spans,
        Span {
            text: cat3(" ", arrow_text(!collapsed), " File History"),
            style: Style::default().bold(),
        },
    );
    push_span(&mut spans, Span { text: cat("  ", file), style: Style::default().dim() });
    assert(spans_view(spans@) =~= history_head(collapsed, file@).spans);
    row(spans)
}

/// A drawer's line before it is cut to the row's width.
pub open spec fn drawer_text(text: Seq<char>, expanded: Option<bool>) -> Seq<char> {
    (match expanded {
        None => "   "@,
        Some(e) => "   "@ + arrow_of(e) + " "@,
    }) + text
}

pub fn drawer_line_text(text: &str, expanded: Option<bool>) -> (r: String)
    ensures
        r@ == drawer_text(text@, expanded),
{
    let prefix = match expanded {
        None => "   ".to_string(),
        Some(e) => cat3("   ", arrow_text(e), " "),
    };
    cat(prefix.as_str(), text)
}

/// The current branch is green.
pub open spec fn drawer_style(kind: Drawer, text: Seq<char>) -> Style {
    if kind == Drawer::Branches && text.len() > 0 && text[0] == '*' {
        Style { fg: Some(Color::Rgb(UNTRACKED)), bold: true, ..no_style() }
    } else {
        no_style()
    }
}

/// A drawer's line: what is left of its text after it was cut to the row's width.
pub fn drawer_line(kind: Drawer, text: &str, cut: String) -> (r: Line)
    ensures
        r@ == row_of(seq![span(cut@, drawer_style(kind, text@))]),
{
    let starred = text.unicode_len() > 0 && text.get_char(0) == '*';
    let style = if kind == Drawer::Branches && starred {
        Style::default().fg(Color::Rgb(UNTRACKED)).bold()
    } else {
        Style::default()
    };
    single(Span { text: cut, style })
}

/// The line between two repositories.
pub fn repo_separator_line(width: usize) -> (r: Line)
    ensures
        r@ == row_of(seq![span(copies('━', width as nat), fg_style(Color::Gray))]),
{
    single(Span { text: copies_of('━', width), style: Style::default().fg(Color::Gray) })
}

/// What stands below a line that has no files to show.
pub fn history_notice(error: &Option<String>) -> (r: Line)
    ensures
        r@ == row_of(
            seq![
                span(
                    "   "@ + match *error {
                        Some(e) => e@,
                        None => "No changed files"@,
                    },
                    dim(),
                ),
            ],
        ),
{
    let text = match error {
        Some(e) => cat("   ", e.as_str()),
        None => cat("   ", "No changed files"),
    };
    single(Span { text, style: Style::default().dim() })
}

// ---- Message boxes and buttons ----

pub open spec fn box_border(focused: bool) -> Style {
    if focused {
        fg_style(Color::Rgb(BUTTON_BLUE))
    } else {
        dim()
    }
}

pub fn border_style(focused: bool) -> (r: Style)
    ensures
        r == box_border(focused),
{
    if focused {
        Style::default().fg(Color::Rgb(BUTTON_BLUE))
    } else {
        Style::default().dim()
    }
}

/// The upper or lower edge of a box.
pub open spec fn edge(left: Seq<char>, right: Seq<char>, width: int, border: Style) -> LineView {
    row_of(seq![span(left + copies('─', monus(width, 2) as nat) + right, border)])
}

fn edge_line(left: &str, right: &str, width: usize, border: Style) -> (r: Line)
    ensures
        r@ == edge(left@, right@, width as int, border),
{
    let middle = copies_of('─', take_off(width, 2));
    single(Span { text: cat3(left, middle.as_str(), right), style: border })
}

/// A line of a box: text, what fills it up, and what stands at its end.
pub open spec fn box_line(
    text: SpanView,
    field: int,
    tail: Seq<char>,
    border: Style,
) -> LineView {
    row_of(
        seq![
            span("│"@, border),
            text,
            span(spaces(monus(field, width_of(text.text) as int) as nat), no_style()),
            span(tail, no_style()),
            span("│"@, border),
        ],
    )
}

fn boxed_line(text: Span, field: usize, tail: &str, border: Style) -> (r: Line)
    ensures
        r@ == box_line(text@, field as int, tail@, border),
{
    let pad = take_off(field, text_width(text.text.as_str()));
    let mut spans = no_spans();
    push_span(&mut spans, text_in("│", border));
    push_span(&mut spans, text);
    push_span(&mut spans, blank(pad));
    push_span(&mut spans, plain(tail));
    push_span(&mut spans, text_in("│", border));
    assert(spans_view(spans@) =~= box_line(text@, field as int, tail@, border).spans);
    row(spans)
}

/// The first `n` of the shown rows of a message; the button stands at the end of
/// the first.
pub open spec fn box_rows(
    rows: Seq<Seq<char>>,
    top: int,
    n: int,
    field: int,
    sparkle: Seq<char>,
    border: Style,
) -> Seq<LineView>
    decreases n,
{
    if n <= 0 {
        Seq::empty()
    } else {
        box_rows(rows, top, n - 1, field, sparkle, border).push(
            box_line(
                span(rows[top + n - 1], no_style()),
                field,
                if n == 1 {
                    sparkle
                } else {
                    "   "@
                },
                border,
            ),
        )
    }
}

/// How many of the rows from `top` on are shown.
pub open spec fn shown_of(rows: int, top: int, visible: int) -> int {
    least(visible, monus(rows, top))
}

/// The lines between the edges of a message box.
pub open spec fn box_body(
    message: Seq<char>,
    cursor: int,
    branch: Seq<char>,
    focused: bool,
    sparkle: Seq<char>,
    field: int,
) -> Seq<LineView> {
    let border = box_border(focused);
    if message.len() == 0 && !focused {
        seq![
            box_line(
                span(
                    placeholder_for(branch, field),
                    Style { dim: true, italic: true, ..no_style() },
                ),
                field,
                sparkle,
                border,
            ),
        ]
    } else {
        let rows = message_rows(message, cursor, field);
        let visible = least(rows.len() as int, MESSAGE_MAX_ROWS as int);
        let top = if focused {
            monus(cursor / most(field, 1) + 1, visible)
        } else {
            0
        };
        box_rows(rows, top, shown_of(rows.len() as int, top, visible), field, sparkle, border)
    }
}

/// A message box: a border round the message, with the button that suggests one.
pub open spec fn message_box(
    message: Seq<char>,
    cursor: int,
    branch: Seq<char>,
    focused: bool,
    sparkle: Seq<char>,
    width: int,
) -> Seq<LineView> {
    let border = box_border(focused);
    seq![edge("┌"@, "┐"@, width, border)] + box_body(
        message,
        cursor,
        branch,
        focused,
        sparkle,
        monus(width as u16 as int, 5),
    ) + seq![edge("└"@, "┘"@, width, border)]
}

fn push_box_rows(
    out: &mut Vec<Line>,
    rows: &Vec<String>,
    top: usize,
    n: usize,
    field: usize,
    sparkle: &str,
    border: Style,
)
    requires
        n == 0 || top + n <= rows@.len(),
    ensures
        lines_view(final(out)@) == lines_view(old(out)@) + box_rows(
            texts(rows@),
            top as int,
            n as int,
            field as int,
            sparkle@,
            border,
        ),
{
    let ghost all = texts(rows@);
    let ghost first = lines_view(out@);
    let mut i: usize = 0;
    let total = rows.len();
    assert(first + box_rows(all, top as int, 0, field as int, sparkle@, border) =~= first);
    while i < n
        invariant
            i <= n,
            total == rows@.len(),
            n == 0 || top + n <= total,
            all == texts(rows@),
            lines_view(out@) == first + box_rows(
                all,
                top as int,
                i as int,
                field as int,
                sparkle@,
                border,
            ),
        decreases n - i,
    {
        assert(all[top + i] == rows@[top + i]@);
        let tail = if i == 0 {
            sparkle
        } else {
            "   "
        };
        let line = boxed_line(plain(rows[top + i].as_str()), field, tail, border);
        push_line(out, line);
        assert(lines_view(out@) =~= first + box_rows(
            all,
            top as int,
            i + 1,
            field as int,
            sparkle@,
            border,
        ));
        i += 1;
    }
}

/// A repository's message box in the list.
pub fn message_box_item(
    message: &[char],
    cursor: usize,
    branch: &str,
    focused: bool,
    sparkle: &str,
    width: usize,
) -> (r: Vec<Line>)
    requires
        cursor < usize::MAX,
        width <= u16::MAX,
    ensures
        lines_view(r@) == message_box(
            message@,
            cursor as int,
            branch@,
            focused,
            sparkle@,
            width as int,
        ),
{
    let border = border_style(focused);
    let field = inline_field_width(width as u16) as usize;
    let mut lines: Vec<Line> = Vec::new();
    assert(lines_view(lines@) =~= Seq::empty());
    let ghost body = box_body(message@, cursor as int, branch@, focused, sparkle@, field as int);
    let first = edge_line("┌", "┐", width, border);
    push_line(&mut lines, first);
    let ghost head = lines_view(lines@);
    assert(head =~= seq![first@]);
    if message.len() == 0 && !focused {
        let hint = message_placeholder(branch, field);
        let line = boxed_line(
            Span { text: hint, style: Style::default().dim().italic() },
            field,
            sparkle,
            border,
        );
        push_line(&mut lines, line);
        assert(lines_view(lines@) =~= head + body);
    } else {
        let (rows, cursor_row, _) = wrap_message(message, cursor, field);
        assert(texts(rows@).len() == rows@.len());
        proof {
            assert(cursor as int / most(field as int, 1) <= cursor) by (nonlinear_arith)
                requires
                    cursor >= 0,
                    most(field as int, 1) >= 1,
            ;
        }
        let (top, visible) = message_window(rows.len(), cursor_row, focused);
        let n = smaller(visible, take_off(rows.len(), top));
        push_box_rows(&mut lines, &rows, top, n, field, sparkle, border);
        assert(lines_view(lines@) =~= head + body);
    }
    let last = edge_line("└", "┘", width, border);
    push_line(&mut lines, last);
    assert(lines_view(lines@) =~= message_box(
        message@,
        cursor as int,
        branch@,
        focused,
        sparkle@,
        width as int,
    ));
    lines
}

/// How a commit button looks: only the active repository's is fully lit.
pub open spec fn commit_style(active: bool, focused: bool) -> Style {
    Style {
        bg: Some(
            if !active {
                Color::Rgb(0x24455c)
            } else if focused {
                Color::Rgb(BUTTON_BLUE_FOCUS)
            } else {
                Color::Rgb(BUTTON_BLUE)
            },
        ),
        fg: Some(
            if active {
                Color::White
            } else {
                Color::Rgb(0x9ab2c2)
            },
        ),
        bold: focused,
        ..no_style()
    }
}

/// A commit button, centered.
pub open spec fn commit_row(active: bool, focused: bool, width: int) -> LineView {
    let label = "✓ Commit"@;
    let w = width_of(label) as int;
    let left = monus(width, w) / 2;
    row_of(
        seq![
            span(
                spaces(left as nat) + label + spaces(monus(width, left + w) as nat),
                commit_style(active, focused),
            ),
        ],
    )
}

pub fn commit_button_style(active: bool, focused: bool) -> (r: Style)
    ensures
        r == commit_style(active, focused),
{
    let bg = if !active {
        Color::Rgb(0x24455c)
    } else if focused {
        Color::Rgb(BUTTON_BLUE_FOCUS)
    } else {
        Color::Rgb(BUTTON_BLUE)
    };
    let fg = if active {
        Color::White
    } else {
        Color::Rgb(0x9ab2c2)
    };
    let style = Style::default().bg(bg).fg(fg);
    if focused {
        style.bold()
    } else {
        style
    }
}

pub fn commit_button_item(active: bool, focused: bool, width: usize) -> (r: Line)
    ensures
        r@ == commit_row(active, focused, width as int),
{
    let w = text_width("✓ Commit");
    let left = take_off(width, w) / 2;
    let right = take_off(take_off(width, left), w);
    let text = cat3(
        blank_text(left).as_str(),
        "✓ Commit",
        blank_text(right).as_str(),
    );
    single(Span { text, style: commit_button_style(active, focused) })
}

// ---- Changes ----

/// The counts of a change, added and deleted, without those that are 0.
pub open spec fn stat_spans(stat: DiffStat) -> Seq<SpanView> {
    let added = match stat.added {
        Some(n) => if n > 0 {
            seq![span("+"@ + digits(n as nat), fg_style(Color::Rgb(ADDED)))]
        } else {
            Seq::empty()
        },
        None => Seq::empty(),
    };
    match stat.deleted {
        Some(n) => if n > 0 {
            let gap = if added.len() > 0 {
                seq![span(" "@, no_style())]
            } else {
                Seq::empty()
            };
            added + gap + seq![span("-"@ + digits(n as nat), fg_style(Color::Rgb(DELETED)))]
        } else {
            added
        },
        None => added,
    }
}

fn count_span(sign: &str, n: usize, color: u32) -> (r: Span)
    ensures
        r@ == span(sign@ + digits(n as nat), fg_style(Color::Rgb(color))),
{
    let d = digits_of(n);
    let text = text_of(&d);
    Span { text: cat(sign, text.as_str()), style: Style::default().fg(Color::Rgb(color)) }
}

pub fn diff_stat_spans(stat: DiffStat) -> (r: Vec<Span>)
    ensures
        spans_view(r@) == stat_spans(stat),
{
    let mut spans = no_spans();
    if let Some(n) = stat.added {
        if n > 0 {
            push_span(&mut spans, count_span("+", n, ADDED));
        }
    }
    let ghost added = spans_view(spans@);
    assert(added.len() == spans@.len());
    if let Some(n) = stat.deleted {
        if n > 0 {
            if spans.len() > 0 {
                push_span(&mut spans, plain(" "));
            }
            push_span(&mut spans, count_span("-", n, DELETED));
        }
    }
    assert(spans_view(spans@) =~= stat_spans(stat));
    spans
}

/// What stands at the end of a change's row.
#[derive(Clone, Copy, PartialEq, Eq, Debug, Structural)]
pub enum ChangeTail {
    /// The letter, and under the mouse the sign that stages or unstages it and its
    /// menu.
    Status { action: Option<char>, menu: bool },
    /// The letter, and under the mouse its menu.
    History { menu: bool },
}

pub open spec fn tail_slot(tail: ChangeTail) -> bool {
    tail is Status
}

pub open spec fn tail_action(tail: ChangeTail) -> Option<char> {
    match tail {
        ChangeTail::Status { action, .. } => action,
        ChangeTail::History { .. } => None,
    }
}

pub open spec fn tail_menu(tail: ChangeTail) -> bool {
    match tail {
        ChangeTail::Status { menu, .. } => menu,
        ChangeTail::History { menu } => menu,
    }
}

/// Whether there are buttons.
pub open spec fn tail_buttons(tail: ChangeTail) -> bool {
    tail_menu(tail) || tail_action(tail) is Some
}

impl ChangeTail {
    fn parts(self) -> (r: (bool, Option<char>, bool, bool))
        ensures
            r == (tail_slot(self), tail_action(self), tail_menu(self), tail_buttons(self)),
    {
        match self {
            ChangeTail::Status { action, menu } => (true, action, menu, menu || action.is_some()),
            ChangeTail::History { menu } => (false, None, menu, menu),
        }
    }
}

/// The buttons, three columns each.
pub open spec fn button_spans(tail: ChangeTail) -> Seq<SpanView> {
    if !tail_buttons(tail) {
        Seq::empty()
    } else {
        let menu = if tail_menu(tail) {
            span(" ⋯ "@, bold())
        } else {
            span("   "@, no_style())
        };
        if tail_slot(tail) {
            seq![
                menu,
                match tail_action(tail) {
                    Some(a) => span(" "@ + seq![a] + " "@, bold()),
                    None => span("   "@, no_style()),
                },
            ]
        } else {
            seq![menu]
        }
    }
}

fn push_buttons(out: &mut Vec<Span>, tail: ChangeTail)
    ensures
        spans_view(final(out)@) == spans_view(old(out)@) + button_spans(tail),
{
    let ghost first = spans_view(out@);
    let (slot, action, menu, buttons) = tail.parts();
    if !buttons {
        assert(first + button_spans(tail) =~= first);
        return;
    }
    if menu {
        push_span(out, text_in(" ⋯ ", Style::default().bold()));
    } else {
        push_span(out, plain("   "));
    }
    if slot {
        match action {
            Some(a) => {
                let mut v: Vec<char> = Vec::new();
                push_text(&mut v, " ");
                v.push(a);
                push_text(&mut v, " ");
                assert(v@ =~= " "@ + seq![a] + " "@);
                push_span(out, Span { text: text_of(&v), style: Style::default().bold() });
            },
            None => {
                push_span(out, plain("   "));
            },
        }
    }
    assert(spans_view(out@) =~= first + button_spans(tail));
}

/// How far a row is indented, as far as can be counted.
pub open spec fn indent_of(own: int, base: int, depth: int) -> int {
    least(own + base + 2 * depth, usize::MAX as int)
}

fn indent_by(own: usize, base: usize, depth: usize) -> (r: usize)
    ensures
        r == indent_of(own as int, base as int, depth as int),
{
    let a = own.saturating_add(base);
    let b = depth.saturating_add(depth);
    a.saturating_add(b)
}

/// What stands before a directory's icon.
pub open spec fn directory_prefix(depth: int, base: int, expanded: bool) -> Seq<char> {
    spaces(indent_of(1, base, depth) as nat) + arrow_of(expanded) + " "@
}

/// The columns of a directory's row that its buttons take.
pub open spec fn directory_tail(tail: ChangeTail) -> int {
    tail_columns(tail_slot(tail), tail_buttons(tail), tail_slot(tail) && tail_buttons(tail))
}

/// How many columns are left for a directory's name.
pub open spec fn directory_room(
    depth: int,
    base: int,
    expanded: bool,
    icon: Seq<char>,
    tail: ChangeTail,
    width: int,
) -> int {
    let t = directory_tail(tail);
    most(
        monus(
            width,
            width_of(directory_prefix(depth, base, expanded)) + width_of(icon) + t + if t > 0 {
                1int
            } else {
                0
            },
        ),
        1,
    )
}

fn directory_start(depth: usize, base: usize, expanded: bool) -> (r: String)
    ensures
        r@ == directory_prefix(depth as int, base as int, expanded),
{
    cat3(blank_text(indent_by(1, base, depth)).as_str(), arrow_text(expanded), " ")
}

/// How many columns are left for a directory's name.
fn directory_name_room(
    depth: usize,
    base: usize,
    expanded: bool,
    icon: &str,
    tail: ChangeTail,
    width: usize,
) -> (r: usize)
    ensures
        r == directory_room(depth as int, base as int, expanded, icon@, tail, width as int),
{
    let (slot, _, _, buttons) = tail.parts();
    let t = change_tail_width(slot, buttons, slot && buttons);
    let gap: usize = if t > 0 {
        1
    } else {
        0
    };
    let start = directory_start(depth, base, expanded);
    let left = take_off(take_off(width, text_width(start.as_str())), text_width(icon));
    let room = take_off(left, t + gap);
    if room > 1 {
        room
    } else {
        1
    }
}

/// A directory's row.
pub open spec fn directory_row(
    depth: int,
    base: int,
    expanded: bool,
    icon: SpanView,
    name: Seq<char>,
    tail: ChangeTail,
    width: int,
) -> LineView {
    let left = seq![
        span(directory_prefix(depth, base, expanded), no_style()),
        icon,
        span(name, no_style()),
    ];
    let pad = monus(width, cells_in(left) + directory_tail(tail));
    let filled = if pad > 0 {
        left.push(span(spaces(pad as nat), no_style()))
    } else {
        left
    };
    let ended = filled + button_spans(tail);
    row_of(
        if tail_slot(tail) && tail_buttons(tail) {
            ended.push(span("  "@, no_style()))
        } else {
            ended
        },
    )
}

/// A directory's row, from its name as far as it fits.
fn directory_item(
    depth: usize,
    base: usize,
    expanded: bool,
    icon: Span,
    name: String,
    tail: ChangeTail,
    width: usize,
) -> (r: Line)
    ensures
        r@ == directory_row(
            depth as int,
            base as int,
            expanded,
            icon@,
            name@,
            tail,
            width as int,
        ),
{
    let (slot, _, _, buttons) = tail.parts();
    let t = change_tail_width(slot, buttons, slot && buttons);
    let mut spans = no_spans();
    push_span(
        &mut spans,
        Span { text: directory_start(depth, base, expanded), style: Style::default() },
    );
    push_span(&mut spans, icon);
    push_span(&mut spans, Span { text: name, style: Style::default() });
    let ghost left = spans_view(spans@);
    assert(left =~= seq![
        span(directory_prefix(depth as int, base as int, expanded), no_style()),
        icon@,
        span(name@, no_style()),
    ]);
    let pad = take_off(room_after(width, &spans), t);
    if pad > 0 {
        push_span(&mut spans, blank(pad));
    }
    push_buttons(&mut spans, tail);
    if slot && buttons {
        push_span(&mut spans, plain("  "));
    }
    row(spans)
}

/// The columns of a file's row that its buttons and its letter take.
pub open spec fn file_tail(tail: ChangeTail) -> int {
    tail_columns(tail_slot(tail), tail_buttons(tail), true)
}

/// How many columns stand before those.
pub open spec fn file_left(tail: ChangeTail, width: int) -> int {
    monus(width, file_tail(tail) + 1)
}

/// How far a file's row is indented; less where there is no room.
pub open spec fn file_indent(
    depth: int,
    base: int,
    tree: bool,
    icon: Seq<char>,
    tail: ChangeTail,
    width: int,
) -> int {
    least(
        indent_of(
            3,
            base,
            if tree {
                depth
            } else {
                0
            },
        ),
        monus(file_left(tail, width), width_of(icon) as int),
    )
}

/// The start of a file's row: the icon and the name.
pub open spec fn file_start(
    depth: int,
    base: int,
    tree: bool,
    icon: SpanView,
    name: Seq<char>,
    letter: char,
    tail: ChangeTail,
    width: int,
) -> Seq<SpanView> {
    seq![
        span(
            spaces(file_indent(depth, base, tree, icon.text, tail, width) as nat),
            no_style(),
        ),
        icon,
        span(name, fg_style(color_of_letter(letter))),
    ]
}

/// A further text of a row, dimmed, where any of it fits.
pub open spec fn with_note(spans: Seq<SpanView>, text: Seq<char>) -> Seq<SpanView> {
    if text.len() > 0 {
        spans.push(span(text, dim()))
    } else {
        spans
    }
}

/// The end of a row: what fills it up, its buttons, and its letter.
pub open spec fn file_end(
    left: Seq<SpanView>,
    letter: char,
    tail: ChangeTail,
    width: int,
) -> LineView {
    row_of(
        left.push(span(spaces(monus(width, cells_in(left) + file_tail(tail)) as nat), no_style()))
            + button_spans(tail) + seq![
            span(seq![letter], Style { bold: true, ..fg_style(color_of_letter(letter)) }),
            span(" "@, no_style()),
        ],
    )
}

fn file_limits(
    depth: usize,
    base: usize,
    tree: bool,
    icon: &str,
    tail: ChangeTail,
    width: usize,
) -> (r: (usize, usize))
    ensures
        r.0 == file_left(tail, width as int),
        r.1 == file_indent(depth as int, base as int, tree, icon@, tail, width as int),
{
    let (slot, _, _, buttons) = tail.parts();
    let t = change_tail_width(slot, buttons, true);
    let left = take_off(width, t + 1);
    let wanted = indent_by(
        3,
        base,
        if tree {
            depth
        } else {
            0
        },
    );
    (left, smaller(wanted, take_off(left, text_width(icon))))
}

/// How many columns are left for a file's name.
fn file_name_room(
    depth: usize,
    base: usize,
    tree: bool,
    icon: &str,
    tail: ChangeTail,
    width: usize,
) -> (r: usize)
    ensures
        r == monus(
            file_left(tail, width as int),
            file_indent(depth as int, base as int, tree, icon@, tail, width as int) + width_of(
                icon@,
            ),
        ),
{
    let (left, indent) = file_limits(depth, base, tree, icon, tail, width);
    take_off(take_off(left, indent), text_width(icon))
}

/// The start of a file's row: the icon, and the name as far as it fits.
fn file_item_start(
    depth: usize,
    base: usize,
    tree: bool,
    icon: Span,
    name: String,
    letter: char,
    tail: ChangeTail,
    width: usize,
) -> (r: Vec<Span>)
    ensures
        spans_view(r@) == file_start(
            depth as int,
            base as int,
            tree,
            icon@,
            name@,
            letter,
            tail,
            width as int,
        ),
{
    let (_, indent) = file_limits(depth, base, tree, icon.text.as_str(), tail, width);
    let mut spans = no_spans();
    push_span(&mut spans, blank(indent));
    push_span(&mut spans, icon);
    push_span(
        &mut spans,
        Span { text: name, style: Style::default().fg(letter_color(letter)) },
    );
    assert(spans_view(spans@) =~= file_start(
        depth as int,
        base as int,
        tree,
        icon@,
        name@,
        letter,
        tail,
        width as int,
    ));
    spans
}

/// How many columns are left for a further text of a file's row.
fn file_note_room(spans: &Vec<Span>, tail: ChangeTail, width: usize) -> (r: usize)
    ensures
        r == monus(file_left(tail, width as int), cells_in(spans_view(spans@)) as int),
{
    let (slot, _, _, buttons) = tail.parts();
    let t = change_tail_width(slot, buttons, true);
    room_after(take_off(width, t + 1), spans)
}

/// A further text of a file's row, as far as it fits.
fn push_file_note(spans: &mut Vec<Span>, text: String)
    ensures
        spans_view(final(spans)@) == with_note(spans_view(old(spans)@), text@),
{
    if text.as_str().unicode_len() > 0 {
        push_span(spans, Span { text, style: Style::default().dim() });
    }
}

/// The further texts of a file's row: in a list the directory that it lies in, and
/// where it came from.
pub open spec fn file_notes(
    path: Seq<char>,
    orig: Option<Seq<char>>,
    tree: bool,
    platform: Platform,
) -> Seq<Seq<char>> {
    let at = crate::text::rfind_char(path, '/', path.len() as int);
    let dir = if tree || at < 0 {
        Seq::empty()
    } else {
        seq![" "@ + native(path.take(at), platform)]
    };
    match orig {
        Some(orig) => dir.push(" ← "@ + native(orig, platform)),
        None => dir,
    }
}

/// The name of the file at the end of a path.
pub open spec fn last_name(path: Seq<char>) -> Seq<char> {
    path.skip(crate::text::rfind_char(path, '/', path.len() as int) + 1)
}

/// The further texts of a file's row, before they are cut.
fn file_note_texts(path: &str, orig: &Option<String>, tree: bool, platform: Platform) -> (r: Vec<
    String,
>)
    ensures
        texts(r@) == file_notes(path@, opt_text(*orig), tree, platform),
{
    let v = chars_of(path);
    let mut out: Vec<String> = Vec::new();
    assert(texts(out@) =~= Seq::empty());
    if !tree {
        if let Some(at) = rfind(&v, '/') {
            let dir = text_slice(&v, 0, at);
            assert(dir@ =~= path@.take(at as int));
            let text = native_path(dir.as_str(), platform);
            let note = cat(" ", text.as_str());
            out.push(note);
            assert(texts(out@) =~= seq![note@]);
        }
    }
    let ghost before = texts(out@);
    if let Some(orig) = orig {
        let text = native_path(orig.as_str(), platform);
        let note = cat(" ← ", text.as_str());
        out.push(note);
        assert(texts(out@) =~= before.push(note@));
    }
    assert(texts(out@) =~= file_notes(path@, opt_text(*orig), tree, platform));
    out
}

pub fn file_name_of(path: &str) -> (r: String)
    ensures
        r@ == last_name(path@),
{
    let v = chars_of(path);
    let total = v.len();
    match rfind(&v, '/') {
        Some(at) => {
            let text = text_slice(&v, at + 1, total);
            assert(text@ =~= last_name(path@));
            text
        },
        None => {
            assert(last_name(path@) =~= path@);
            path.to_string()
        },
    }
}

/// A file's row from its start to the first `n` of its texts as they were cut: the name,
/// and those further texts of which any fits.
pub open spec fn file_spans(start: Seq<SpanView>, cuts: Seq<Seq<char>>, n: int) -> Seq<SpanView>
    decreases n,
{
    if n <= 1 {
        start
    } else {
        with_note(file_spans(start, cuts, n - 1), cuts[n - 1])
    }
}

/// The next step to a row of the tree or the list of changes, where `cuts` are the texts
/// of the row that were cut so far. A file that is gone has an empty row.
pub open spec fn change_row(
    row: RowView,
    entry: Option<EntryView>,
    width: int,
    icon: SpanView,
    tail: ChangeTail,
    tree: bool,
    base: int,
    platform: Platform,
    cuts: Seq<Seq<char>>,
) -> RowStepView {
    match row {
        RowView::Directory { name, depth, expanded, .. } => if cuts.len() == 0 {
            RowStepView::Cut(name, directory_room(depth, base, expanded, icon.text, tail, width))
        } else {
            RowStepView::Done(directory_row(depth, base, expanded, icon, cuts[0], tail, width))
        },
        RowView::File { depth, .. } => match entry {
            None => RowStepView::Done(row_of(Seq::empty())),
            Some(e) => if cuts.len() == 0 {
                RowStepView::Cut(
                    last_name(e.path),
                    monus(
                        file_left(tail, width),
                        file_indent(depth, base, tree, icon.text, tail, width) + width_of(
                            icon.text,
                        ),
                    ),
                )
            } else {
                let notes = file_notes(e.path, e.orig, tree, platform);
                let start = file_start(depth, base, tree, icon, cuts[0], e.letter, tail, width);
                if cuts.len() <= notes.len() {
                    RowStepView::Cut(
                        notes[cuts.len() - 1],
                        monus(
                            file_left(tail, width),
                            cells_in(file_spans(start, cuts, cuts.len() as int)) as int,
                        ),
                    )
                } else {
                    RowStepView::Done(
                        file_end(
                            file_spans(start, cuts, notes.len() as int + 1),
                            e.letter,
                            tail,
                            width,
                        ),
                    )
                }
            },
        },
    }
}

/// The next step to a row of the tree or the list of changes: a text to cut and its room,
/// while `cuts` holds fewer than the row has, and then the row.
pub fn change_tree_item(
    row: &TreeRow,
    entry: Option<&FileEntry>,
    width: usize,
    icon: Span,
    tail: ChangeTail,
    tree: bool,
    base: usize,
    platform: Platform,
    cuts: &Vec<String>,
) -> (r: RowStep)
    ensures
        r@ == change_row(
            row@,
            opt_entry(entry),
            width as int,
            icon@,
            tail,
            tree,
            base as int,
            platform,
            texts(cuts@),
        ),
{
    assert(texts(cuts@).len() == cuts@.len());
    match row {
        TreeRow::Directory { name, depth, expanded, .. } => {
            if cuts.len() == 0 {
                let room = directory_name_room(
                    *depth,
                    base,
                    *expanded,
                    icon.text.as_str(),
                    tail,
                    width,
                );
                return RowStep::Cut(name.clone(), room);
            }
            assert(texts(cuts@)[0] == cuts@[0]@);
            RowStep::Done(
                directory_item(*depth, base, *expanded, icon, cuts[0].clone(), tail, width),
            )
        },
        TreeRow::File { depth, .. } => match entry {
            None => {
                let line = self::row(no_spans());
                assert(line@ =~= row_of(Seq::empty()));
                RowStep::Done(line)
            },
            Some(e) => {
                if cuts.len() == 0 {
                    let room = file_name_room(*depth, base, tree, icon.text.as_str(), tail, width);
                    return RowStep::Cut(file_name_of(e.path.as_str()), room);
                }
                assert(texts(cuts@)[0] == cuts@[0]@);
                let notes = file_note_texts(e.path.as_str(), &e.orig, tree, platform);
                assert(texts(notes@).len() == notes@.len());
                let mut spans = file_item_start(
                    *depth,
                    base,
                    tree,
                    icon,
                    cuts[0].clone(),
                    e.letter,
                    tail,
                    width,
                );
                let ghost start = spans_view(spans@);
                let mut n: usize = 1;
                while n < cuts.len() && n <= notes.len()
                    invariant
                        1 <= n <= cuts@.len(),
                        n <= notes@.len() + 1,
                        spans_view(spans@) == file_spans(start, texts(cuts@), n as int),
                    decreases cuts@.len() - n,
                {
                    assert(texts(cuts@)[n as int] == cuts@[n as int]@);
                    push_file_note(&mut spans, cuts[n].clone());
                    n += 1;
                }
                if cuts.len() <= notes.len() {
                    assert(texts(notes@)[cuts@.len() - 1] == notes@[cuts@.len() - 1]@);
                    RowStep::Cut(notes[cuts.len() - 1].clone(), file_note_room(&spans, tail, width))
                } else {
                    RowStep::Done(file_item(spans, e.letter, tail, width))
                }
            },
        },
    }
}

/// The whole of a file's row, after its texts.
fn file_item(left: Vec<Span>, letter: char, tail: ChangeTail, width: usize) -> (r: Line)
    ensures
        r@ == file_end(spans_view(left@), letter, tail, width as int),
{
    let (slot, _, _, buttons) = tail.parts();
    let t = change_tail_width(slot, buttons, true);
    let pad = take_off(room_after(width, &left), t);
    let mut spans = left;
    push_span(&mut spans, blank(pad));
    push_buttons(&mut spans, tail);
    let mut v: Vec<char> = Vec::new();
    v.push(letter);
    assert(v@ =~= seq![letter]);
    push_span(
        &mut spans,
        Span { text: text_of(&v), style: Style::default().fg(letter_color(letter)).bold() },
    );
    push_span(&mut spans, plain(" "));
    assert(spans_view(spans@) =~= file_end(spans_view(left@), letter, tail, width as int).spans);
    row(spans)
}

} // verus!
