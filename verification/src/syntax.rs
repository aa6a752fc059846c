//! Tab stops, diff themes and syntax highlighting for previews.

use vstd::prelude::*;

use two_face::theme::EmbeddedLazyThemeSet;

use crate::cells::{text_width, width_of};
use crate::style::{fg_style, no_style, push_span, rows_of_spans, spans_view, styled, Color, Span, SpanView, Style};
use crate::scan::{char_bytes, lines, lines_of, trim_end, trimmed_end, utf8_len, Class};
use crate::text::{
    after, chars_of, eq_text, find, find_char, pieces, push_all, rfind, rfind_char, split, split_on,
    text_of, text_slice, texts,
};

verus! {

/// Columns between tab stops.
pub const TAB_WIDTH: usize = 4;

// ---- Tabs ----

/// `n` spaces.
pub open spec fn spaces(n: nat) -> Seq<char> {
    Seq::new(n, |i: int| ' ')
}

pub fn push_spaces(out: &mut Vec<char>, n: usize)
    ensures
        final(out)@ == old(out)@ + spaces(n as nat),
{
    let mut i: usize = 0;
    assert(old(out)@ + spaces(0) =~= old(out)@);
    while i < n
        invariant
            i <= n,
            out@ =~= old(out)@ + spaces(i as nat),
        decreases n - i,
    {
        out.push(' ');
        i += 1;
    }
}

/// The text of tab-separated parts from `i` on, each tab filled up to the next
/// stop, and the column after it.
pub open spec fn tabbed(parts: Seq<Seq<char>>, i: int, column: nat) -> (Seq<char>, nat)
    decreases parts.len() - i,
{
    if i < 0 || i >= parts.len() {
        (Seq::empty(), column)
    } else {
        let end = column + width_of(parts[i]);
        if i == parts.len() - 1 {
            (parts[i], end)
        } else {
            let fill = (TAB_WIDTH - end % (TAB_WIDTH as nat)) as nat;
            let (rest, last) = tabbed(parts, i + 1, end + fill);
            (parts[i] + spaces(fill) + rest, last)
        }
    }
}

/// The column after the first spans.
pub open spec fn column_after(spans: Seq<SpanView>) -> nat
    decreases spans.len(),
{
    if spans.len() == 0 {
        0
    } else {
        tabbed(split(spans.last().text, '\t'), 0, column_after(spans.drop_last())).1
    }
}

/// The spans with their tabs filled up, the column carried from span to span.
pub open spec fn tabs_expanded(spans: Seq<SpanView>) -> Seq<SpanView>
    decreases spans.len(),
{
    if spans.len() == 0 {
        Seq::empty()
    } else {
        let before = spans.drop_last();
        tabs_expanded(before).push(
            SpanView {
                text: tabbed(split(spans.last().text, '\t'), 0, column_after(before)).0,
                style: spans.last().style,
            },
        )
    }
}

proof fn lemma_mod_sum(a: nat, b: nat)
    ensures
        (a + b) % 4 == (a % 4 + b % 4) % 4,
{
}

/// Filling tabs depends on the column modulo the tab width only.
proof fn lemma_tabbed_mod(parts: Seq<Seq<char>>, i: int, a: nat, b: nat)
    requires
        a % 4 == b % 4,
    ensures
        tabbed(parts, i, a).0 == tabbed(parts, i, b).0,
        tabbed(parts, i, a).1 % 4 == tabbed(parts, i, b).1 % 4,
    decreases parts.len() - i,
{
    if 0 <= i < parts.len() {
        let w = width_of(parts[i]);
        lemma_mod_sum(a, w);
        lemma_mod_sum(b, w);
        if i < parts.len() - 1 {
            let fill = (4 - (a + w) % 4) as nat;
            lemma_mod_sum(a + w, fill);
            lemma_mod_sum(b + w, fill);
            lemma_tabbed_mod(parts, i + 1, a + w + fill, b + w + fill);
        }
    }
}

/// Fills the tabs of one text. The column counts modulo the tab width.
fn expand_text(text: &str, column: usize) -> (r: (String, usize))
    requires
        column < 4,
    ensures
        r.1 < 4,
        tabbed(split(text@, '\t'), 0, column as nat).0 == r.0@,
        tabbed(split(text@, '\t'), 0, column as nat).1 % 4 == r.1,
{
    let v = chars_of(text);
    let parts = split_on(&v, '\t');
    let ghost all = pieces(parts@);
    let ghost want = tabbed(all, 0, column as nat);
    let mut out: Vec<char> = Vec::new();
    let mut col: usize = column;
    let mut i: usize = 0;
    let ghost mut d: nat = column as nat;
    assert(out@ + tabbed(all, 0, d).0 =~= want.0);
    while i < parts.len()
        invariant
            i <= parts@.len(),
            all == pieces(parts@),
            col < 4,
            d % 4 == col,
            want.0 == out@ + tabbed(all, i as int, d).0,
            want.1 == tabbed(all, i as int, d).1,
        decreases parts@.len() - i,
    {
        let part_text = text_of(&parts[i]);
        let w = text_width(part_text.as_str());
        let ghost before = out@;
        push_all(&mut out, &parts[i]);
        let end: usize = (col + w % 4) % 4;
        let last = i == parts.len() - 1;
        let fill: usize = 4 - end;
        proof {
            assert(all[i as int] == parts@[i as int]@);
            lemma_mod_sum(d, w as nat);
        }
        if last {
            proof {
                assert(out@ + tabbed(all, i + 1, d + w as nat).0 =~= before + all[i as int]);
                d = d + w as nat;
            }
            col = end;
        } else {
            push_spaces(&mut out, fill);
            proof {
                let n = d + w as nat + fill as nat;
                lemma_mod_sum(d + w as nat, fill as nat);
                assert(n % 4 == 0);
                let rest = tabbed(all, i + 1, n).0;
                assert(out@ + rest =~= before + (all[i as int] + spaces(fill as nat) + rest));
                d = n;
            }
            col = 0;
        }
        i += 1;
    }
    assert(out@ + tabbed(all, i as int, d).0 =~= out@);
    (text_of(&out), col)
}

/// Replaces the tabs of a row by spaces up to the next tab stop.
pub fn expand_tabs(spans: &Vec<Span>) -> (r: Vec<Span>)
    ensures
        spans_view(r@) == tabs_expanded(spans_view(spans@)),
{
    let mut out: Vec<Span> = Vec::new();
    let mut column: usize = 0;
    let mut i: usize = 0;
    let ghost all = spans_view(spans@);
    assert(all.take(0) =~= Seq::empty());
    assert(spans_view(out@) =~= Seq::empty());
    while i < spans.len()
        invariant
            i <= spans@.len(),
            all == spans_view(spans@),
            column < 4,
            column == column_after(all.take(i as int)) % 4,
            spans_view(out@) == tabs_expanded(all.take(i as int)),
        decreases spans@.len() - i,
    {
        proof {
            assert(all.take(i + 1).drop_last() =~= all.take(i as int));
            assert(all.take(i + 1).last() == spans@[i as int]@);
        }
        let (text, next) = expand_text(spans[i].text.as_str(), column);
        let s = Span { text, style: spans[i].style };
        let ghost before = out@;
        proof {
            let c = column_after(all.take(i as int));
            lemma_tabbed_mod(split(spans@[i as int]@.text, '\t'), 0, c, column as nat);
        }
        out.push(s);
        assert(spans_view(out@) =~= spans_view(before).push(s@));
        column = next;
        i += 1;
    }
    assert(all.take(i as int) =~= all);
    out
}

// ---- Themes ----

/// A colour theme for diffs, by its place among the theme names.
pub type DiffTheme = usize;

/// Catppuccin Mocha.
pub const DEFAULT_DIFF_THEME: usize = 10;

/// The name of the theme at a place, where there is one.
pub uninterp spec fn theme_name_at(i: int) -> Option<Seq<char>>;

/// `two_face::theme::EmbeddedLazyThemeSet::theme_names`, each with
/// `EmbeddedThemeName::as_name`: the same names in the same order each time.
#[verifier::external_body]
fn theme_names() -> (r: Vec<String>)
    ensures
        forall|i: int|
            #[trigger] theme_name_at(i) == (if 0 <= i < r@.len() {
                Some(r@[i]@)
            } else {
                None
            }),
{
    let names = EmbeddedLazyThemeSet::theme_names();
    names.iter().map(|name| name.as_name().to_string()).collect()
}

/// The theme names, in order.
pub fn diff_themes() -> (r: Vec<String>)
    ensures
        forall|i: int|
            #[trigger] theme_name_at(i) == (if 0 <= i < r@.len() {
                Some(r@[i]@)
            } else {
                None
            }),
{
    theme_names()
}

/// The first of the names that is `name`.
pub fn theme_place(names: &Vec<String>, name: &str) -> (r: Option<usize>)
    ensures
        match r {
            Some(i) => i < names@.len() && names@[i as int]@ == name@ && forall|k: int|
                0 <= k < i ==> names@[k]@ != name@,
            None => forall|k: int| 0 <= k < names@.len() ==> names@[k]@ != name@,
        },
{
    let mut i: usize = 0;
    while i < names.len()
        invariant
            i <= names@.len(),
            forall|k: int| 0 <= k < i ==> names@[k]@ != name@,
        decreases names@.len() - i,
    {
        if eq_text(names[i].as_str(), name) {
            return Some(i);
        }
        i += 1;
    }
    None
}

/// The theme of this name.
pub fn diff_theme_from_name(name: &str) -> (r: Option<usize>)
    ensures
        match r {
            Some(i) => theme_name_at(i as int) == Some(name@) && forall|k: int|
                0 <= k < i ==> #[trigger] theme_name_at(k) != Some(name@),
            None => forall|k: int| #[trigger] theme_name_at(k) != Some(name@),
        },
{
    let names = theme_names();
    let r = theme_place(&names, name);
    proof {
        assert forall|k: int| (#[trigger] theme_name_at(k)) == Some(name@) implies 0 <= k < names@.len()
            && names@[k]@ == name@ by {}
    }
    r
}

/// The place of a theme in a list of `count`: its own, or the first where the
/// list has no such place.
pub fn place_in(theme: usize, count: usize) -> (r: usize)
    ensures
        r == (if theme < count {
            theme
        } else {
            0
        }),
{
    if theme < count {
        theme
    } else {
        0
    }
}

/// The place of a theme among the theme names.
pub fn diff_theme_index(theme: usize) -> (r: usize)
    ensures
        theme_name_at(theme as int) is Some ==> r == theme,
        theme_name_at(theme as int) is None ==> r == 0,
{
    let names = theme_names();
    proof {
        assert(theme_name_at(theme as int) is Some == (theme < names@.len()));
    }
    place_in(theme, names.len())
}

/// A theme's colours that previews use.
#[derive(Clone, Copy, Debug, PartialEq, Eq, Structural)]
pub struct ThemeColors {
    pub foreground: Option<u32>,
    pub background: Option<u32>,
    pub caret: Option<u32>,
    pub line_highlight: Option<u32>,
    pub accent: Option<u32>,
    pub find_highlight: Option<u32>,
    pub find_highlight_foreground: Option<u32>,
    pub selection: Option<u32>,
    pub selection_foreground: Option<u32>,
    pub inactive_selection: Option<u32>,
    pub inactive_selection_foreground: Option<u32>,
}

#[derive(Clone, Copy, Debug, PartialEq, Eq, Structural)]
pub struct PreviewHighlightStyles {
    pub selection: Style,
    pub comment: Style,
    pub comment_border: Color,
}

/// The first of the colours that is set.
pub open spec fn first_set(list: Seq<Option<u32>>) -> Option<u32>
    decreases list.len(),
{
    if list.len() == 0 {
        None
    } else if list[0] is Some {
        list[0]
    } else {
        first_set(list.subrange(1, list.len() as int))
    }
}

fn first_of(list: &[Option<u32>]) -> (r: Option<u32>)
    ensures
        r == first_set(list@),
{
    let mut i: usize = 0;
    assert(list@.subrange(0, list@.len() as int) =~= list@);
    while i < list.len()
        invariant
            i <= list@.len(),
            first_set(list@) == first_set(list@.subrange(i as int, list@.len() as int)),
        decreases list@.len() - i,
    {
        let ghost rest = list@.subrange(i as int, list@.len() as int);
        if list[i].is_some() {
            return list[i];
        }
        assert(rest.subrange(1, rest.len() as int) =~= list@.subrange(i + 1, list@.len() as int));
        i += 1;
    }
    None
}

pub open spec fn overlay(background: Option<u32>, foreground: Option<u32>) -> Style {
    Style {
        fg: match foreground {
            Some(c) => Some(Color::Rgb(c)),
            None => None,
        },
        bg: match background {
            Some(c) => Some(Color::Rgb(c)),
            None => None,
        },
        ..no_style()
    }
}

fn overlay_style(background: Option<u32>, foreground: Option<u32>) -> (r: Style)
    ensures
        r == overlay(background, foreground),
{
    let mut style = Style::default();
    match background {
        Some(c) => {
            style = style.bg(Color::Rgb(c));
        },
        None => {},
    }
    match foreground {
        Some(c) => {
            style = style.fg(Color::Rgb(c));
        },
        None => {},
    }
    style
}

/// The background of marked comments.
pub open spec fn comment_background(c: ThemeColors) -> Option<u32> {
    first_set(
        seq![c.find_highlight, c.inactive_selection, c.line_highlight, c.selection, c.background],
    )
}

/// The foreground of marked comments.
pub open spec fn comment_foreground(c: ThemeColors) -> Option<u32> {
    first_set(seq![c.find_highlight_foreground, c.inactive_selection_foreground])
}

/// The styles that a theme's colours give to selections and comments.
pub open spec fn preview_styles(c: ThemeColors) -> PreviewHighlightStyles {
    let border = first_set(
        seq![c.accent, comment_foreground(c), c.caret, c.foreground, comment_background(c)],
    );
    PreviewHighlightStyles {
        selection: overlay(
            first_set(
                seq![
                    c.selection,
                    c.find_highlight,
                    c.inactive_selection,
                    c.line_highlight,
                    c.background,
                ],
            ),
            c.selection_foreground,
        ),
        comment: overlay(comment_background(c), comment_foreground(c)),
        comment_border: match border {
            Some(b) => Color::Rgb(b),
            None => Color::Reset,
        },
    }
}

/// The styles that a theme's colours give to selections and comments.
pub fn styles_for(c: ThemeColors) -> (r: PreviewHighlightStyles)
    ensures
        r == preview_styles(c),
{
    let selection = first_of(
        &[c.selection, c.find_highlight, c.inactive_selection, c.line_highlight, c.background],
    );
    let back = first_of(
        &[c.find_highlight, c.inactive_selection, c.line_highlight, c.selection, c.background],
    );
    let fore = first_of(&[c.find_highlight_foreground, c.inactive_selection_foreground]);
    let border = first_of(&[c.accent, fore, c.caret, c.foreground, back]);
    proof {
        assert([c.selection, c.find_highlight, c.inactive_selection, c.line_highlight, c.background]@
            =~= seq![
            c.selection,
            c.find_highlight,
            c.inactive_selection,
            c.line_highlight,
            c.background,
        ]);
        assert([c.find_highlight, c.inactive_selection, c.line_highlight, c.selection, c.background]@
            =~= seq![
            c.find_highlight,
            c.inactive_selection,
            c.line_highlight,
            c.selection,
            c.background,
        ]);
        assert([c.find_highlight_foreground, c.inactive_selection_foreground]@ =~= seq![
            c.find_highlight_foreground,
            c.inactive_selection_foreground,
        ]);
        assert([c.accent, fore, c.caret, c.foreground, back]@ =~= seq![
            c.accent,
            fore,
            c.caret,
            c.foreground,
            back,
        ]);
    }
    PreviewHighlightStyles {
        selection: overlay_style(selection, c.selection_foreground),
        comment: overlay_style(back, fore),
        comment_border: match border {
            Some(b) => Color::Rgb(b),
            None => Color::Reset,
        },
    }
}

// ---- Grammars ----

#[verifier::external_type_specification]
#[verifier::external_body]
pub struct ExSyntaxSet(syntect::parsing::SyntaxSet);

#[verifier::external_type_specification]
#[verifier::external_body]
pub struct ExThemeSet(two_face::theme::EmbeddedLazyThemeSet);

/// The grammars and themes that come with the program.
pub struct Grammars {
    syntaxes: syntect::parsing::SyntaxSet,
    themes: two_face::theme::EmbeddedLazyThemeSet,
}

/// `two_face::syntax::extra_newlines`. Nothing is claimed of the value itself.
#[verifier::external_body]
fn load_syntaxes() -> syntect::parsing::SyntaxSet {
    two_face::syntax::extra_newlines()
}

/// `two_face::theme::extra`. Nothing is claimed of the value itself.
#[verifier::external_body]
fn load_themes() -> two_face::theme::EmbeddedLazyThemeSet {
    two_face::theme::extra()
}

impl Grammars {
    /// Loads the grammars and themes.
    pub fn load() -> Grammars {
        Grammars { syntaxes: load_syntaxes(), themes: load_themes() }
    }
}

/// The number of the grammar for a file extension.
pub uninterp spec fn extension_grammar(ext: Seq<char>) -> Option<usize>;

/// The number of the grammar for a first line.
pub uninterp spec fn first_line_grammar(line: Seq<char>) -> Option<usize>;

/// `syntect::parsing::SyntaxSet::find_syntax_by_extension` on the one set that
/// [`Grammars`] can hold, as a place in that set.
#[verifier::external_body]
fn by_extension(g: &Grammars, ext: &str) -> (r: Option<usize>)
    ensures
        r == extension_grammar(ext@),
{
    let found = g.syntaxes.find_syntax_by_extension(ext)?;
    g.syntaxes.syntaxes().iter().position(|s| std::ptr::eq(s, found))
}

/// `syntect::parsing::SyntaxSet::find_syntax_by_first_line` on the one set that
/// [`Grammars`] can hold, as a place in that set.
#[verifier::external_body]
fn by_first_line(g: &Grammars, line: &str) -> (r: Option<usize>)
    ensures
        r == first_line_grammar(line@),
{
    let found = g.syntaxes.find_syntax_by_first_line(line)?;
    g.syntaxes.syntaxes().iter().position(|s| std::ptr::eq(s, found))
}

/// A highlighted stretch of a line.
#[derive(Debug, PartialEq, Eq)]
pub struct Region {
    pub text: String,
    pub fg: u32,
    pub bold: bool,
    pub italic: bool,
}

#[verifier::ext_equal]
pub struct RegionView {
    pub text: Seq<char>,
    pub fg: u32,
    pub bold: bool,
    pub italic: bool,
}

impl View for Region {
    type V = RegionView;

    open spec fn view(&self) -> RegionView {
        RegionView { text: self.text@, fg: self.fg, bold: self.bold, italic: self.italic }
    }
}

pub open spec fn regions_view(v: Seq<Region>) -> Seq<RegionView> {
    v.map_values(|r: Region| r@)
}

pub open spec fn line_regions(v: Option<Vec<Region>>) -> Option<Seq<RegionView>> {
    match v {
        Some(r) => Some(regions_view(r@)),
        None => None,
    }
}

pub open spec fn all_regions(v: Seq<Option<Vec<Region>>>) -> Seq<Option<Seq<RegionView>>> {
    v.map_values(|r: Option<Vec<Region>>| line_regions(r))
}

/// The highlighted stretches of each line, where the lines are highlighted one
/// after the other from a fresh start; nothing where there is no such grammar
/// or theme.
pub uninterp spec fn regions_of(grammar: usize, theme: usize, lines: Seq<Seq<char>>) -> Option<
    Seq<Option<Seq<RegionView>>>,
>;

pub open spec fn highlighted_view(v: Option<Vec<Option<Vec<Region>>>>) -> Option<
    Seq<Option<Seq<RegionView>>>,
> {
    match v {
        Some(list) => Some(all_regions(list@)),
        None => None,
    }
}

/// `syntect::easy::HighlightLines::highlight_line` on each line in turn, for
/// the grammar and theme at these places: a function of the grammar, the theme
/// and the lines. There is one entry for each line, empty where highlighting
/// that line failed. What the stretches of a line are is left unsaid.
#[verifier::external_body]
fn highlight_all(g: &Grammars, grammar: usize, theme: usize, lines: &Vec<String>) -> (r: Option<
    Vec<Option<Vec<Region>>>,
>)
    ensures
        highlighted_view(r) == regions_of(grammar, theme, texts(lines@)),
        r matches Some(list) ==> list@.len() == lines@.len(),
{
    let syntax = g.syntaxes.syntaxes().get(grammar)?;
    let name = EmbeddedLazyThemeSet::theme_names().get(theme)?;
    let mut h = syntect::easy::HighlightLines::new(syntax, g.themes.get(*name));
    let each = lines.iter().map(|line| {
        let list = h.highlight_line(line, &g.syntaxes).ok()?;
        Some(list.into_iter().map(|(s, t)| Region {
            text: t.to_string(),
            fg: u32::from_be_bytes([0, s.foreground.r, s.foreground.g, s.foreground.b]),
            bold: s.font_style.contains(syntect::highlighting::FontStyle::BOLD),
            italic: s.font_style.contains(syntect::highlighting::FontStyle::ITALIC),
        }).collect())
    });
    Some(each.collect())
}

/// The colours of a theme, where there is such a theme.
pub uninterp spec fn colors_of(theme: usize) -> Option<ThemeColors>;

/// The settings of `two_face::theme::EmbeddedLazyThemeSet::get` for the theme
/// at a place, as plain colours without their opacity: a function of the place
/// alone. What the colours are is left unsaid.
#[verifier::external_body]
fn theme_colors(g: &Grammars, theme: usize) -> (r: Option<ThemeColors>)
    ensures
        r == colors_of(theme),
{
    let name = EmbeddedLazyThemeSet::theme_names().get(theme)?;
    let s = &g.themes.get(*name).settings;
    let plain = |c: Option<syntect::highlighting::Color>| c.map(|c| u32::from_be_bytes([0, c.r, c.g, c.b]));
    Some(ThemeColors {
        foreground: plain(s.foreground), background: plain(s.background), caret: plain(s.caret),
        line_highlight: plain(s.line_highlight), accent: plain(s.accent),
        find_highlight: plain(s.find_highlight),
        find_highlight_foreground: plain(s.find_highlight_foreground),
        selection: plain(s.selection), selection_foreground: plain(s.selection_foreground),
        inactive_selection: plain(s.inactive_selection),
        inactive_selection_foreground: plain(s.inactive_selection_foreground),
    })
}

/// The styles for selections and comments under a theme.
pub fn preview_highlight_styles(g: &Grammars, theme: usize) -> (r: Option<PreviewHighlightStyles>)
    ensures
        r == (match colors_of(theme) {
            Some(c) => Some(preview_styles(c)),
            None => None,
        }),
{
    match theme_colors(g, theme) {
        Some(c) => Some(styles_for(c)),
        None => None,
    }
}

/// The part of a file name after its last dot, or the whole name.
pub open spec fn name_extension(name: Seq<char>) -> Seq<char> {
    after(name, rfind_char(name, '.', name.len() as int) + 1)
}

/// The grammar for a file: by its extension, else by its whole name as an
/// extension, else by its first line.
pub open spec fn grammar_for(name: Seq<char>, first_line: Option<Seq<char>>) -> Option<usize> {
    if extension_grammar(name_extension(name)) is Some {
        extension_grammar(name_extension(name))
    } else if extension_grammar(name) is Some {
        extension_grammar(name)
    } else {
        match first_line {
            Some(line) => first_line_grammar(line),
            None => None,
        }
    }
}

fn extension_text(name: &str) -> (r: String)
    ensures
        r@ == name_extension(name@),
{
    let v = chars_of(name);
    let n = v.len();
    let from: usize = match rfind(&v, '.') {
        Some(i) => i + 1,
        None => 0,
    };
    text_slice(&v, from, n)
}

fn syntax_for_name(g: &Grammars, name: &str, first_line: Option<&str>) -> (r: Option<usize>)
    ensures
        r == grammar_for(name@, match first_line {
            Some(l) => Some(l@),
            None => None,
        }),
{
    let ext = extension_text(name);
    match by_extension(g, ext.as_str()) {
        Some(i) => Some(i),
        None => match by_extension(g, name) {
            Some(i) => Some(i),
            None => match first_line {
                Some(line) => by_first_line(g, line),
                None => None,
            },
        },
    }
}

/// Lines longer than this, in bytes, are not highlighted.
pub const MAX_HIGHLIGHT_LINE_LEN: usize = 2000;

/// Whether a line is short enough to highlight.
pub open spec fn short_enough(line: Seq<char>) -> bool {
    utf8_len(line) <= MAX_HIGHLIGHT_LINE_LEN
}

fn is_short(line: &str) -> (r: bool)
    ensures
        r == short_enough(line@),
{
    let v = chars_of(line);
    let mut used: usize = 0;
    let mut i: usize = 0;
    assert(v@.take(0) =~= Seq::empty());
    while i < v.len()
        invariant
            i <= v@.len(),
            v@ == line@,
            used == utf8_len(v@.take(i as int)),
            used <= MAX_HIGHLIGHT_LINE_LEN,
        decreases v@.len() - i,
    {
        assert(v@.take(i + 1).drop_last() =~= v@.take(i as int));
        used = used + char_bytes(v[i]);
        i += 1;
        if used > MAX_HIGHLIGHT_LINE_LEN {
            proof {
                lemma_utf8_len_take(v@, i as int);
            }
            return false;
        }
    }
    assert(v@.take(i as int) =~= v@);
    true
}

proof fn lemma_utf8_len_take(s: Seq<char>, k: int)
    requires
        0 <= k <= s.len(),
    ensures
        utf8_len(s.take(k)) <= utf8_len(s),
    decreases s.len() - k,
{
    if k < s.len() {
        lemma_utf8_len_take(s, k + 1);
        assert(s.take(k + 1).drop_last() =~= s.take(k));
    } else {
        assert(s.take(k) =~= s);
    }
}

/// The lines that are short enough.
pub open spec fn short_lines(list: Seq<Seq<char>>) -> Seq<Seq<char>>
    decreases list.len(),
{
    if list.len() == 0 {
        Seq::empty()
    } else if short_enough(list.last()) {
        short_lines(list.drop_last()).push(list.last())
    } else {
        short_lines(list.drop_last())
    }
}

/// A line without the line ends behind it.
pub open spec fn line_body(line: Seq<char>) -> Seq<char> {
    trim_end(line, Class::Either('\n', '\r'))
}

/// The spans of highlighted stretches: each without line ends, and none empty.
pub open spec fn region_spans(list: Seq<RegionView>) -> Seq<SpanView>
    decreases list.len(),
{
    if list.len() == 0 {
        Seq::empty()
    } else {
        let r = list.last();
        let rest = region_spans(list.drop_last());
        if line_body(r.text).len() == 0 {
            rest
        } else {
            rest.push(
                SpanView {
                    text: line_body(r.text),
                    style: Style {
                        bold: r.bold,
                        italic: r.italic,
                        ..fg_style(Color::Rgb(r.fg))
                    },
                },
            )
        }
    }
}

/// A line as it shows without highlighting. Lines of a whole file still have
/// their line ends, which do not show.
pub open spec fn plain_text(line: Seq<char>, of_file: bool) -> Seq<char> {
    if of_file {
        line_body(line)
    } else {
        line
    }
}

/// The spans of line `i`: those of its highlighted stretches, or the plain line
/// where it is too long or was not highlighted. `found` has an entry for each
/// line that is short enough.
pub open spec fn row_spans(
    list: Seq<Seq<char>>,
    of_file: bool,
    found: Option<Seq<Option<Seq<RegionView>>>>,
    i: int,
) -> Seq<SpanView> {
    let plain = seq![SpanView { text: plain_text(list[i], of_file), style: no_style() }];
    match found {
        Some(all) if short_enough(list[i]) => match all[short_lines(list.take(i)).len() as int] {
            Some(regions) => region_spans(regions),
            None => plain,
        },
        _ => plain,
    }
}

fn make_region_spans(list: &Vec<Region>) -> (r: Vec<Span>)
    ensures
        spans_view(r@) == region_spans(regions_view(list@)),
{
    let mut out: Vec<Span> = Vec::new();
    let ghost all = regions_view(list@);
    let mut i: usize = 0;
    assert(all.take(0) =~= Seq::empty());
    assert(spans_view(out@) =~= Seq::empty());
    while i < list.len()
        invariant
            i <= list@.len(),
            all == regions_view(list@),
            spans_view(out@) == region_spans(all.take(i as int)),
        decreases list@.len() - i,
    {
        proof {
            assert(all.take(i + 1).drop_last() =~= all.take(i as int));
            assert(all.take(i + 1).last() == list@[i as int]@);
        }
        let v = chars_of(list[i].text.as_str());
        let body = trimmed_end(&v, Class::Either('\n', '\r'));
        if body.len() > 0 {
            let mut style = Style::default().fg(Color::Rgb(list[i].fg));
            if list[i].bold {
                style = style.bold();
            }
            if list[i].italic {
                style = style.italic();
            }
            push_span(&mut out, styled(text_of(&body), style));
        }
        i += 1;
    }
    assert(all.take(i as int) =~= all);
    out
}

fn plain_row(line: &str, of_file: bool) -> (r: Vec<Span>)
    ensures
        spans_view(r@) == seq![SpanView { text: plain_text(line@, of_file), style: no_style() }],
{
    let v = chars_of(line);
    let body = if of_file { trimmed_end(&v, Class::Either('\n', '\r')) } else { v };
    let mut out: Vec<Span> = Vec::new();
    let s = styled(text_of(&body), Style::default());
    out.push(s);
    assert(spans_view(out@) =~= seq![s@]);
    out
}

fn keep_short(list: &Vec<String>) -> (r: Vec<String>)
    ensures
        texts(r@) == short_lines(texts(list@)),
{
    let mut out: Vec<String> = Vec::new();
    let ghost all = texts(list@);
    let mut i: usize = 0;
    assert(all.take(0) =~= Seq::empty());
    assert(texts(out@) =~= Seq::empty());
    while i < list.len()
        invariant
            i <= list@.len(),
            all == texts(list@),
            texts(out@) == short_lines(all.take(i as int)),
        decreases list@.len() - i,
    {
        proof {
            assert(all.take(i + 1).drop_last() =~= all.take(i as int));
            assert(all.take(i + 1).last() == list@[i as int]@);
        }
        if is_short(list[i].as_str()) {
            let s = list[i].clone();
            let ghost before = out@;
            out.push(s);
            assert(texts(out@) =~= texts(before).push(s@));
        }
        i += 1;
    }
    assert(all.take(i as int) =~= all);
    out
}

proof fn lemma_short_grows(list: Seq<Seq<char>>, i: int)
    requires
        0 <= i <= list.len(),
    ensures
        short_lines(list.take(i)).len() <= short_lines(list).len(),
    decreases list.len() - i,
{
    if i < list.len() {
        lemma_short_grows(list, i + 1);
        assert(list.take(i + 1).drop_last() =~= list.take(i));
    } else {
        assert(list.take(i) =~= list);
    }
}

/// The spans of each line, from what highlighting its short lines gave.
pub fn rows_from(
    list: &Vec<String>,
    of_file: bool,
    found: &Option<Vec<Option<Vec<Region>>>>,
) -> (r: Vec<Vec<Span>>)
    requires
        found matches Some(all) ==> all@.len() == short_lines(texts(list@)).len(),
    ensures
        r@.len() == list@.len(),
        forall|i: int|
            0 <= i < r@.len() ==> spans_view((#[trigger] r@[i])@) == row_spans(
                texts(list@),
                of_file,
                highlighted_view(*found),
                i,
            ),
{
    let mut out: Vec<Vec<Span>> = Vec::new();
    let ghost all = texts(list@);
    let mut i: usize = 0;
    let mut at: usize = 0;
    let limit: usize = match found {
        Some(f) => f.len(),
        None => 0,
    };
    assert(all.take(0) =~= Seq::empty());
    while i < list.len()
        invariant
            i <= list@.len(),
            all == texts(list@),
            found matches Some(f) ==> f@.len() == limit && limit == short_lines(all).len() && at == short_lines(
                all.take(i as int),
            ).len(),
            out@.len() == i,
            forall|k: int|
                0 <= k < i ==> spans_view((#[trigger] out@[k])@) == row_spans(
                    all,
                    of_file,
                    highlighted_view(*found),
                    k,
                ),
        decreases list@.len() - i,
    {
        proof {
            assert(all.take(i + 1).drop_last() =~= all.take(i as int));
            assert(all.take(i + 1).last() == list@[i as int]@);
            lemma_short_grows(all, i + 1);
        }
        let short = is_short(list[i].as_str());
        let row = match found {
            Some(f) => {
                if short {
                    match &f[at] {
                        Some(regions) => {
                            assert(line_regions(f@[at as int]) == Some(regions_view(regions@)));
                            make_region_spans(regions)
                        },
                        None => plain_row(list[i].as_str(), of_file),
                    }
                } else {
                    plain_row(list[i].as_str(), of_file)
                }
            },
            None => plain_row(list[i].as_str(), of_file),
        };
        if short && found.is_some() {
            at += 1;
        }
        out.push(row);
        i += 1;
    }
    out
}

/// What is highlighted of the lines: the short ones, each with a line end.
pub open spec fn ended_lines(list: Seq<Seq<char>>, of_file: bool) -> Seq<Seq<char>> {
    if of_file {
        list
    } else {
        list.map_values(|l: Seq<char>| l.push('\n'))
    }
}

fn end_lines(list: Vec<String>, of_file: bool) -> (r: Vec<String>)
    ensures
        texts(r@) == ended_lines(texts(list@), of_file),
{
    if of_file {
        return list;
    }
    let ghost want = ended_lines(texts(list@), of_file);
    let mut out: Vec<String> = Vec::new();
    let mut i: usize = 0;
    while i < list.len()
        invariant
            i <= list@.len(),
            want == texts(list@).map_values(|l: Seq<char>| l.push('\n')),
            texts(out@) =~= want.take(i as int),
        decreases list@.len() - i,
    {
        let mut s = list[i].clone();
        s.push('\n');
        let ghost before = out@;
        assert(s@ == want[i as int]);
        out.push(s);
        assert(texts(out@) =~= texts(before).push(s@));
        i += 1;
    }
    assert(want.take(i as int) =~= want);
    out
}

/// What highlighting a list of lines gives, where there is a grammar.
pub open spec fn found_regions(
    grammar: Option<usize>,
    theme: usize,
    list: Seq<Seq<char>>,
    of_file: bool,
) -> Option<Seq<Option<Seq<RegionView>>>> {
    match grammar {
        Some(i) => regions_of(i, theme, ended_lines(short_lines(list), of_file)),
        None => None,
    }
}

/// The spans of lines that are highlighted one after the other.
pub open spec fn highlighted_rows(
    grammar: Option<usize>,
    theme: usize,
    list: Seq<Seq<char>>,
    of_file: bool,
) -> Seq<Seq<SpanView>> {
    Seq::new(
        list.len(),
        |i: int| row_spans(list, of_file, found_regions(grammar, theme, list, of_file), i),
    )
}

fn highlight_rows(
    g: &Grammars,
    grammar: Option<usize>,
    theme: usize,
    list: &Vec<String>,
    of_file: bool,
) -> (r: Vec<Vec<Span>>)
    ensures
        rows_of_spans(r@) == highlighted_rows(grammar, theme, texts(list@), of_file),
{
    let found = match grammar {
        Some(i) => {
            let fed = keep_short(list);
            let fed = end_lines(fed, of_file);
            assert(fed@.len() == texts(fed@).len());
            highlight_all(g, i, theme, &fed)
        },
        None => None,
    };
    let rows = rows_from(list, of_file, &found);
    proof {
        let want = highlighted_rows(grammar, theme, texts(list@), of_file);
        assert forall|i: int| 0 <= i < want.len() implies rows_of_spans(rows@)[i] == want[i] by {
            assert(rows_of_spans(rows@)[i] == spans_view(rows@[i]@));
        }
        assert(rows_of_spans(rows@) =~= want);
    }
    rows
}

/// Highlights lines one after the other, as the lines of one side of a diff
/// come, without line ends.
pub struct LineHighlighter {
    grammar: Option<usize>,
    theme: usize,
    fed: Vec<String>,
}

impl LineHighlighter {
    /// The grammar that the file's name gives.
    pub closed spec fn grammar(&self) -> Option<usize> {
        self.grammar
    }

    pub closed spec fn theme(&self) -> usize {
        self.theme
    }

    /// The lines so far.
    pub closed spec fn fed(&self) -> Seq<Seq<char>> {
        texts(self.fed@)
    }

    pub fn new(g: &Grammars, name: &str, theme: usize) -> (r: LineHighlighter)
        ensures
            r.grammar() == grammar_for(name@, None),
            r.theme() == theme,
            r.fed() == Seq::<Seq<char>>::empty(),
    {
        let r = LineHighlighter { grammar: syntax_for_name(g, name, None), theme, fed: Vec::new() };
        assert(r.fed() =~= Seq::empty());
        r
    }

    /// The spans of the next line, after all lines so far.
    pub fn line(&mut self, g: &Grammars, text: &str) -> (r: Vec<Span>)
        ensures
            final(self).grammar() == old(self).grammar(),
            final(self).theme() == old(self).theme(),
            final(self).fed() == old(self).fed().push(text@),
            spans_view(r@) == highlighted_rows(
                old(self).grammar(),
                old(self).theme(),
                old(self).fed().push(text@),
                false,
            ).last(),
    {
        let s = text.to_string();
        let ghost before = self.fed@;
        self.fed.push(s);
        assert(texts(self.fed@) =~= texts(before).push(text@));
        let mut rows = highlight_rows(g, self.grammar, self.theme, &self.fed, false);
        assert(rows@.len() == rows_of_spans(rows@).len());
        let i = rows.len() - 1;
        assert(rows_of_spans(rows@)[i as int] == spans_view(rows@[i as int]@));
        rows.swap_remove(i)
    }
}

/// Highlights the lines of one side of a diff.
pub fn highlight_side(g: &Grammars, name: &str, theme: usize, list: &Vec<String>) -> (r: Vec<Vec<Span>>)
    ensures
        rows_of_spans(r@) == highlighted_rows(grammar_for(name@, None), theme, texts(list@), false),
{
    let grammar = syntax_for_name(g, name, None);
    highlight_rows(g, grammar, theme, list, false)
}

/// The lines of a text with their line ends, from position `start` on.
pub open spec fn whole_lines(s: Seq<char>, start: int) -> Seq<Seq<char>>
    decreases s.len() - start,
{
    if start < 0 || start >= s.len() {
        Seq::empty()
    } else {
        let i = find_char(s, '\n', start);
        if i >= s.len() || i < start {
            seq![s.subrange(start, s.len() as int)]
        } else {
            seq![s.subrange(start, i + 1)] + whole_lines(s, i + 1)
        }
    }
}

/// The first `max` of the items.
pub open spec fn at_most(list: Seq<Seq<char>>, max: nat) -> Seq<Seq<char>> {
    if list.len() <= max {
        list
    } else {
        list.take(max as int)
    }
}

fn read_whole_lines(text: &str, max: usize) -> (r: Vec<String>)
    ensures
        texts(r@) == at_most(whole_lines(text@, 0), max as nat),
{
    let v = chars_of(text);
    let n = v.len();
    let mut out: Vec<String> = Vec::new();
    let mut start: usize = 0;
    assert(texts(out@) + whole_lines(v@, 0) =~= whole_lines(v@, 0));
    while start < n && out.len() < max
        invariant
            n == v@.len(),
            start <= n,
            out@.len() <= max,
            texts(out@) + whole_lines(v@, start as int) == whole_lines(v@, 0),
        decreases n - start,
    {
        let i = find(&v, '\n', start);
        let end = if i < n { i + 1 } else { n };
        let line = text_slice(&v, start, end);
        let ghost before = out@;
        let ghost rest = whole_lines(v@, end as int);
        proof {
            assert(whole_lines(v@, start as int) =~= seq![line@] + rest);
            assert(texts(before).push(line@) + rest =~= texts(before) + (seq![line@] + rest));
        }
        out.push(line);
        assert(texts(out@) =~= texts(before).push(line@));
        start = end;
    }
    proof {
        let all = whole_lines(v@, 0);
        assert(texts(out@).len() == out@.len());
        if start >= n {
            assert(texts(out@) + whole_lines(v@, start as int) =~= texts(out@));
        } else {
            assert(all.take(max as int) =~= texts(out@));
            if all.len() <= max {
                assert(all =~= texts(out@));
            }
        }
    }
    out
}

/// The first line of a text.
pub open spec fn first_line(text: Seq<char>) -> Option<Seq<char>> {
    if lines(text).len() > 0 {
        Some(lines(text)[0])
    } else {
        None
    }
}

/// Highlights a text for a file called `name`, up to `max` lines. Nothing where
/// no grammar matches.
pub fn highlight(g: &Grammars, name: &str, text: &str, max: usize, theme: usize) -> (r: Option<
    Vec<Vec<Span>>,
>)
    ensures
        match r {
            Some(rows) => grammar_for(name@, first_line(text@)) is Some && rows_of_spans(rows@)
                == highlighted_rows(
                grammar_for(name@, first_line(text@)),
                theme,
                at_most(whole_lines(text@, 0), max as nat),
                true,
            ),
            None => grammar_for(name@, first_line(text@)) is None,
        },
{
    let v = chars_of(text);
    let all = lines_of(&v);
    assert(all@.len() == pieces(all@).len());
    let grammar = if all.len() > 0 {
        assert(pieces(all@)[0] == all@[0]@);
        let first = text_of(&all[0]);
        syntax_for_name(g, name, Some(first.as_str()))
    } else {
        syntax_for_name(g, name, None)
    };
    if grammar.is_none() {
        return None;
    }
    let list = read_whole_lines(text, max);
    Some(highlight_rows(g, grammar, theme, &list, true))
}

} // verus!
