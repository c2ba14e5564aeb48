//! What is drawn: panes, the tab bar, the popups and the cursor, one over the other.

use crate::app;
use crate::app::{
    App, ConfirmDialog, ContextMenu, MenuEntry, Palette, RenameState, CONFIRM_MSG, RENAME_H,
    RENAME_W,
};
use crate::color::Color;
use crate::config::Config;
use crate::geometry;
use crate::geometry::{inner_of, popup_rect, Rect};
use crate::layout;
use crate::layout::PaneId;
use crate::session;
use crate::session::active_focus;
use crate::suggest;
use crate::suggest::{compute_mention_rect, compute_suggest_rect, suggest_visible};
use crate::term::GridSelection;
use crate::text;
use vstd::prelude::*;
use vstd::utf8;

verus! {

/// The style of a text. A colour that is missing is left as it is.
#[derive(Debug, Clone, Copy, PartialEq, Eq, Structural)]
pub struct TextStyle {
    pub fg: Option<Color>,
    pub bg: Option<Color>,
    pub bold: bool,
}

/// Something to draw.
#[derive(Debug, PartialEq, Eq)]
pub enum Draw {
    /// Blanks all over an area.
    Clear { rect: Rect },
    /// A border of one cell inside the edge of an area, with the style of what is inside it.
    Border { rect: Rect, line: Color, inside: TextStyle, title: &'static str },
    /// The screen of a pane.
    Screen { pane: PaneId, rect: Rect, selection: Option<GridSelection> },
    /// A line of text.
    Text { x: u16, y: u16, text: String, style: TextStyle },
    /// One cell.
    Glyph { x: u16, y: u16, symbol: &'static str, fg: Color },
    /// A text in the middle of an area.
    Message { rect: Rect, message: &'static str, style: TextStyle },
    /// Lines of which one is selected, perhaps inside a border.
    List {
        rect: Rect,
        border: Option<Color>,
        items: Vec<&'static str>,
        selected: usize,
        style: TextStyle,
        highlight: TextStyle,
    },
    /// The cursor.
    Cursor { x: u16, y: u16 },
}

/// What is drawn.
pub enum DrawView {
    Clear { rect: Rect },
    Border { rect: Rect, line: Color, inside: TextStyle, title: &'static str },
    Screen { pane: PaneId, rect: Rect, selection: Option<GridSelection> },
    Text { x: int, y: int, text: Seq<char>, style: TextStyle },
    Glyph { x: int, y: int, symbol: &'static str, fg: Color },
    Message { rect: Rect, message: &'static str, style: TextStyle },
    List {
        rect: Rect,
        border: Option<Color>,
        items: Seq<&'static str>,
        selected: int,
        style: TextStyle,
        highlight: TextStyle,
    },
    Cursor { x: int, y: int },
}

impl View for Draw {
    type V = DrawView;

    open spec fn view(&self) -> DrawView {
        match self {
            Draw::Clear { rect } => DrawView::Clear { rect: *rect },
            Draw::Border { rect, line, inside, title } => DrawView::Border {
                rect: *rect,
                line: *line,
                inside: *inside,
                title: *title,
            },
            Draw::Screen { pane, rect, selection } => DrawView::Screen {
                pane: *pane,
                rect: *rect,
                selection: *selection,
            },
            Draw::Text { x, y, text, style } => DrawView::Text {
                x: *x as int,
                y: *y as int,
                text: text@,
                style: *style,
            },
            Draw::Glyph { x, y, symbol, fg } => DrawView::Glyph {
                x: *x as int,
                y: *y as int,
                symbol: *symbol,
                fg: *fg,
            },
            Draw::Message { rect, message, style } => DrawView::Message {
                rect: *rect,
                message: *message,
                style: *style,
            },
            Draw::List { rect, border, items, selected, style, highlight } => DrawView::List {
                rect: *rect,
                border: *border,
                items: items@,
                selected: *selected as int,
                style: *style,
                highlight: *highlight,
            },
            Draw::Cursor { x, y } => DrawView::Cursor { x: *x as int, y: *y as int },
        }
    }
}

/// What a list of drawings draws.
pub open spec fn draws_view(list: Seq<Draw>) -> Seq<DrawView> {
    Seq::new(list.len(), |i: int| list[i]@)
}

fn none() -> (r: Vec<Draw>)
    ensures
        draws_view(r@) == Seq::<DrawView>::empty(),
{
    let r: Vec<Draw> = Vec::new();
    assert(draws_view(r@) =~= Seq::<DrawView>::empty());
    r
}

fn add_one(list: &mut Vec<Draw>, draw: Draw)
    ensures
        draws_view(final(list)@) == draws_view(old(list)@).push(draw@),
{
    list.push(draw);
    assert(draws_view(list@) =~= draws_view(old(list)@).push(draw@));
}

fn add_all(list: &mut Vec<Draw>, more: Vec<Draw>)
    ensures
        draws_view(final(list)@) == draws_view(old(list)@) + draws_view(more@),
{
    let mut more = more;
    let ghost added = more@;
    list.append(&mut more);
    assert(draws_view(list@) =~= draws_view(old(list)@) + draws_view(added));
}

// Styles.

pub open spec fn colours(fg: Color, bg: Color) -> TextStyle {
    TextStyle { fg: Some(fg), bg: Some(bg), bold: false }
}

pub open spec fn only_fg(fg: Color) -> TextStyle {
    TextStyle { fg: Some(fg), bg: None, bold: false }
}

pub open spec fn bold(style: TextStyle) -> TextStyle {
    TextStyle { bold: true, ..style }
}

pub open spec fn plain() -> TextStyle {
    TextStyle { fg: None, bg: None, bold: false }
}

fn with_colours(fg: Color, bg: Color) -> (r: TextStyle)
    ensures
        r == colours(fg, bg),
{
    TextStyle { fg: Some(fg), bg: Some(bg), bold: false }
}

fn with_fg(fg: Color) -> (r: TextStyle)
    ensures
        r == only_fg(fg),
{
    TextStyle { fg: Some(fg), bg: None, bold: false }
}

fn in_bold(style: TextStyle) -> (r: TextStyle)
    ensures
        r == bold(style),
{
    TextStyle { fg: style.fg, bg: style.bg, bold: true }
}

fn unstyled() -> (r: TextStyle)
    ensures
        r == plain(),
{
    TextStyle { fg: None, bg: None, bold: false }
}

// Texts.

/// A text cut off or filled up with blanks, so that it has `width` characters.
pub open spec fn padded(s: Seq<char>, width: int) -> Seq<char> {
    if s.len() >= width {
        s.take(width)
    } else {
        s + session::blanks(width - s.len())
    }
}

/// A text cut off or filled up with blanks.
pub fn truncate_pad(s: &str, width: usize) -> (r: String)
    ensures
        r@ == padded(s@, width as int),
        r@.len() == width,
{
    let chars = text::chars_of(s);
    let n: usize = chars.len();
    if n >= width {
        let head = text::part(&chars, 0, width);
        assert(head@ =~= s@.take(width as int));
        return text::string_of(&head);
    }
    let mut out = chars;
    while out.len() < width
        invariant
            n <= out@.len() <= width,
            n == s@.len(),
            out@ == s@ + session::blanks(out@.len() - n),
        decreases width - out@.len(),
    {
        out.push(' ');
        assert(out@ =~= s@ + session::blanks(out@.len() - n));
    }
    text::string_of(&out)
}

/// A text with a low line combined with each character.
pub open spec fn underlined(s: Seq<char>) -> Seq<char> {
    Seq::new(
        2 * s.len(),
        |i: int|
            if i % 2 == 0 {
                s[i / 2]
            } else {
                '\u{332}'
            },
    )
}

/// A text with a low line combined with each character.
pub fn underline_each_char(input: &str) -> (r: String)
    ensures
        r@ == underlined(input@),
{
    let chars = text::chars_of(input);
    let mut out: Vec<char> = Vec::new();
    let mut i: usize = 0;
    while i < chars.len()
        invariant
            i <= chars@.len(),
            chars@ == input@,
            out@ == underlined(input@.take(i as int)),
        decreases chars@.len() - i,
    {
        let ghost before = out@;
        out.push(chars[i]);
        out.push('\u{332}');
        i = i + 1;
        assert(out@ =~= underlined(input@.take(i as int))) by {
            assert forall|k: int| 0 <= k < out@.len() implies out@[k] == #[trigger] underlined(
                input@.take(i as int),
            )[k] by {
                if k < before.len() {
                    assert(before[k] == underlined(input@.take(i - 1))[k]);
                }
            }
        }
    }
    assert(input@.take(i as int) =~= input@);
    text::string_of(&out)
}

// Panes.

/// The selection in a pane.
pub open spec fn selection_of(app: App, pid: PaneId) -> Option<GridSelection> {
    match app.selection {
        Some(selection) => if selection.pane == pid {
            Some(selection.range)
        } else {
            None
        },
        None => None,
    }
}

/// What is drawn of the pane that has an area: its screen, and a border round it where there are
/// more panes than one.
pub open spec fn pane_draws(app: App, i: int) -> Seq<DrawView> {
    let (pid, rect) = app.areas@[i];
    let single = app.areas@.len() == 1;
    let border = DrawView::Border {
        rect,
        line: if pid == app.focus() {
            app.cfg.blue
        } else {
            Color::DarkGray
        },
        inside: plain(),
        title: "",
    };
    let screen = DrawView::Screen {
        pane: pid,
        rect: if single {
            rect
        } else {
            geometry::inner_area(rect)
        },
        selection: selection_of(app, pid),
    };
    (if single {
        Seq::empty()
    } else {
        seq![border]
    }) + (if app::has_pane(app.panes@, pid) {
        seq![screen]
    } else {
        Seq::empty()
    })
}

/// What is drawn of the first panes.
pub open spec fn panes_draws(app: App, n: int) -> Seq<DrawView>
    decreases n,
{
    if n <= 0 {
        Seq::empty()
    } else {
        panes_draws(app, n - 1) + pane_draws(app, n - 1)
    }
}

fn draw_panes(app: &App) -> (r: Vec<Draw>)
    requires
        app.wf(),
        app.active_tab < app.tabs@.len(),
    ensures
        draws_view(r@) == panes_draws(*app, app.areas@.len() as int),
{
    let focus = active_focus(app);
    let n: usize = app.areas.len();
    let mut out = none();
    let mut i: usize = 0;
    while i < n
        invariant
            i <= n,
            n == app.areas@.len(),
            focus == app.focus(),
            draws_view(out@) == panes_draws(*app, i as int),
        decreases n - i,
    {
        let (pid, rect) = app.areas[i];
        let ghost before = draws_view(out@);
        if n != 1 {
            let line = if pid == focus {
                app.cfg.blue
            } else {
                Color::DarkGray
            };
            add_one(&mut out, Draw::Border { rect, line, inside: unstyled(), title: "" });
        }
        if app::find_pane(&app.panes, pid).is_some() {
            let selection = match app.selection {
                Some(selection) => if selection.pane == pid {
                    Some(selection.range)
                } else {
                    None
                },
                None => None,
            };
            let rect = if n == 1 {
                rect
            } else {
                inner_of(rect)
            };
            add_one(&mut out, Draw::Screen { pane: pid, rect, selection });
        }
        assert(draws_view(out@) =~= before + pane_draws(*app, i as int));
        i = i + 1;
    }
    out
}

// The tab bar.

/// The style of the tab bar.
pub open spec fn bar_style() -> TextStyle {
    colours(Color::Rgb(110, 110, 130), Color::Rgb(24, 24, 37))
}

/// What is drawn of a part of the tab bar: its text, and a line over it where it is the active tab.
pub open spec fn seg_draws(app: App, i: int) -> Seq<DrawView> {
    let seg = app.status_segs@[i];
    let line = DrawView::Text {
        x: seg.x as int,
        y: geometry::minus(app.status_y as int, 1),
        text: underlined(session::blanks(utf8::encode_utf8(seg.text@).len() as int)),
        style: colours(app.cfg.accent, app.cfg.bg),
    };
    let label = DrawView::Text {
        x: seg.x as int,
        y: app.status_y as int,
        text: seg.text@,
        style: if seg.active {
            bold(colours(Color::White, app.cfg.bg))
        } else {
            bar_style()
        },
    };
    if seg.active {
        seq![line, label]
    } else {
        seq![label]
    }
}

/// What is drawn of the first parts of the tab bar.
pub open spec fn segs_draws(app: App, n: int) -> Seq<DrawView>
    decreases n,
{
    if n <= 0 {
        Seq::empty()
    } else {
        segs_draws(app, n - 1) + seg_draws(app, n - 1)
    }
}

/// What is drawn of the tab bar.
pub open spec fn bar_draws(app: App) -> Seq<DrawView> {
    seq![
        DrawView::Text {
            x: 0,
            y: app.status_y as int,
            text: session::blanks(app.screen.width as int),
            style: bar_style(),
        },
    ] + segs_draws(app, app.status_segs@.len() as int)
}

fn draw_bar(app: &App) -> (r: Vec<Draw>)
    ensures
        draws_view(r@) == bar_draws(*app),
{
    let style = with_colours(Color::Rgb(110, 110, 130), Color::Rgb(24, 24, 37));
    let mut out = none();
    proof {
        reveal_strlit("");
    }
    let text = truncate_pad("", app.screen.width as usize);
    assert(text@ =~= session::blanks(app.screen.width as int));
    add_one(&mut out, Draw::Text { x: 0, y: app.status_y, text, style });
    let ghost bar = draws_view(out@);
    assert(bar + Seq::<DrawView>::empty() =~= bar);
    let n: usize = app.status_segs.len();
    let mut i: usize = 0;
    while i < n
        invariant
            i <= n,
            n == app.status_segs@.len(),
            style == bar_style(),
            draws_view(out@) == bar + segs_draws(*app, i as int),
        decreases n - i,
    {
        let seg = &app.status_segs[i];
        let ghost before = draws_view(out@);
        if seg.active {
            let width: usize = text::bytes_of(seg.text.as_str()).len();
            proof {
                reveal_strlit("");
            }
            let gap = truncate_pad("", width);
            assert(gap@ =~= session::blanks(width as int));
            let text = underline_each_char(gap.as_str());
            let y: u16 = app.status_y.saturating_sub(1);
            let line = with_colours(app.cfg.accent, app.cfg.bg);
            add_one(&mut out, Draw::Text { x: seg.x, y, text, style: line });
        }
        let label = if seg.active {
            in_bold(with_colours(Color::White, app.cfg.bg))
        } else {
            style
        };
        add_one(
            &mut out,
            Draw::Text { x: seg.x, y: app.status_y, text: seg.text.clone(), style: label },
        );
        assert(draws_view(out@) =~= before + seg_draws(*app, i as int));
        assert((bar + segs_draws(*app, i as int)) + seg_draws(*app, i as int) =~= bar + (segs_draws(
            *app,
            i as int,
        ) + seg_draws(*app, i as int)));
        i = i + 1;
    }
    assert(bar =~= seq![
        DrawView::Text {
            x: 0,
            y: app.status_y as int,
            text: session::blanks(app.screen.width as int),
            style: bar_style(),
        },
    ]);
    out
}

// The popups at the input line.

/// The line of a popup.
pub open spec fn popup_line(
    cfg: Config,
    inner: Rect,
    matches: Seq<String>,
    selected: int,
    offset: int,
    row: int,
) -> DrawView {
    DrawView::Text {
        x: inner.x as int,
        y: inner.y + row,
        text: padded(matches[offset + row]@, inner.width as int),
        style: if offset + row == selected {
            colours(Color::Black, cfg.accent)
        } else {
            colours(Color::Gray, cfg.bg)
        },
    }
}

/// How many lines of a popup are drawn.
pub open spec fn popup_lines(inner: Rect, count: int, offset: int, max_visible: int) -> int {
    geometry::min_of(
        geometry::min_of(geometry::min_of(count, max_visible), geometry::minus(count, offset)),
        geometry::MAX_COORD + 1 - inner.y,
    )
}

/// A popup draws no more lines than it may show, and only lines that are in the list.
pub proof fn popups_are_bounded(inner: Rect, count: int, offset: int, max_visible: int)
    requires
        0 <= offset <= count,
        0 <= max_visible,
    ensures
        0 <= popup_lines(inner, count, offset, max_visible) <= max_visible,
        offset + popup_lines(inner, count, offset, max_visible) <= count,
{
}

/// The lines of a popup.
pub open spec fn popup_rows(
    cfg: Config,
    inner: Rect,
    matches: Seq<String>,
    selected: int,
    offset: int,
    n: int,
) -> Seq<DrawView> {
    Seq::new(n as nat, |row: int| popup_line(cfg, inner, matches, selected, offset, row))
}

/// The signs on the right of a popup that the list goes on above and below.
pub open spec fn popup_signs(
    cfg: Config,
    rect: Rect,
    count: int,
    offset: int,
) -> Seq<DrawView> {
    let right = rect.x + rect.width - 1;
    let up = DrawView::Glyph { x: right, y: rect.y as int, symbol: "▲", fg: cfg.yellow };
    let down = DrawView::Glyph {
        x: right,
        y: rect.y + rect.height - 1,
        symbol: "▼",
        fg: cfg.yellow,
    };
    let visible = geometry::min_of(count, cfg.suggest_max_visible as int);
    if rect.width == 0 || rect.height == 0 {
        Seq::empty()
    } else {
        (if offset > 0 {
            seq![up]
        } else {
            Seq::empty()
        }) + (if offset + visible < count {
            seq![down]
        } else {
            Seq::empty()
        })
    }
}

/// What is drawn of a popup at the input line.
pub open spec fn popup_draws(
    cfg: Config,
    rect: Rect,
    matches: Seq<String>,
    selected: int,
    offset: int,
) -> Seq<DrawView> {
    let inner = geometry::inner_area(rect);
    seq![
        DrawView::Clear { rect },
        DrawView::Border {
            rect,
            line: cfg.accent,
            inside: TextStyle { fg: None, bg: Some(cfg.bg), bold: false },
            title: "",
        },
    ] + popup_rows(
        cfg,
        inner,
        matches,
        selected,
        offset,
        popup_lines(inner, matches.len() as int, offset, cfg.suggest_max_visible as int),
    ) + popup_signs(cfg, rect, matches.len() as int, offset)
}

fn draw_popup(
    cfg: &Config,
    rect: Rect,
    matches: &Vec<String>,
    selected: usize,
    offset: usize,
) -> (r: Vec<Draw>)
    requires
        rect.wf(),
        offset <= matches@.len(),
    ensures
        draws_view(r@) == popup_draws(*cfg, rect, matches@, selected as int, offset as int),
{
    let inner = inner_of(rect);
    let mut out = none();
    add_one(&mut out, Draw::Clear { rect });
    add_one(
        &mut out,
        Draw::Border {
            rect,
            line: cfg.accent,
            inside: TextStyle { fg: None, bg: Some(cfg.bg), bold: false },
            title: "",
        },
    );
    let ghost frame = draws_view(out@);
    let count: usize = matches.len();
    let visible: usize = suggest_visible(count, cfg.suggest_max_visible);
    let mut row: usize = 0;
    assert(frame + popup_rows(*cfg, inner, matches@, selected as int, offset as int, 0) =~= frame);
    while row < visible && row < count - offset && row <= (65535 - inner.y) as usize
        invariant
            row <= popup_lines(inner, count as int, offset as int, cfg.suggest_max_visible as int),
            count == matches@.len(),
            offset <= count,
            visible == geometry::min_of(count as int, cfg.suggest_max_visible as int),
            draws_view(out@) == frame + popup_rows(
                *cfg,
                inner,
                matches@,
                selected as int,
                offset as int,
                row as int,
            ),
        decreases visible - row,
    {
        let style = if offset + row == selected {
            with_colours(Color::Black, cfg.accent)
        } else {
            with_colours(Color::Gray, cfg.bg)
        };
        let text = truncate_pad(matches[offset + row].as_str(), inner.width as usize);
        add_one(&mut out, Draw::Text { x: inner.x, y: inner.y + row as u16, text, style });
        row = row + 1;
        assert(popup_rows(*cfg, inner, matches@, selected as int, offset as int, row as int)
            =~= popup_rows(*cfg, inner, matches@, selected as int, offset as int, row - 1).push(
            popup_line(*cfg, inner, matches@, selected as int, offset as int, row - 1),
        ));
        assert(draws_view(out@) =~= frame + popup_rows(
            *cfg,
            inner,
            matches@,
            selected as int,
            offset as int,
            row as int,
        ));
    }
    let ghost lines = draws_view(out@);
    if rect.width > 0 && rect.height > 0 {
        let right: u16 = rect.x + (rect.width - 1);
        if offset > 0 {
            add_one(
                &mut out,
                Draw::Glyph { x: right, y: rect.y, symbol: "▲", fg: cfg.yellow },
            );
        }
        if visible < count - offset {
            let y: u16 = rect.y + (rect.height - 1);
            add_one(&mut out, Draw::Glyph { x: right, y, symbol: "▼", fg: cfg.yellow });
        }
    }
    assert(draws_view(out@) =~= lines + popup_signs(*cfg, rect, count as int, offset as int));
    assert(frame =~= seq![
        DrawView::Clear { rect },
        DrawView::Border {
            rect,
            line: cfg.accent,
            inside: TextStyle { fg: None, bg: Some(cfg.bg), bold: false },
            title: "",
        },
    ]);
    out
}

/// Whether a popup takes all keys, so that those at the input line are not drawn.
pub open spec fn modal(app: App) -> bool {
    app.menu is Some || app.confirm is Some || app.rename is Some || app.palette is Some
}

/// What is drawn of the popups at the input line.
pub open spec fn input_popup_draws(app: App) -> Seq<DrawView> {
    (if !modal(app) && app.suggest is Some && app.suggest_rect is Some {
        let sug = app.suggest->0;
        popup_draws(
            app.cfg,
            app.suggest_rect->0,
            sug.matches@,
            sug.selected as int,
            sug.offset as int,
        )
    } else {
        Seq::empty()
    }) + (if !modal(app) && app.mention is Some && app.mention_rect is Some {
        let mention = app.mention->0;
        popup_draws(
            app.cfg,
            app.mention_rect->0,
            mention.matches@,
            mention.selected as int,
            mention.offset as int,
        )
    } else {
        Seq::empty()
    })
}

fn draw_input_popups(app: &App) -> (r: Vec<Draw>)
    requires
        app.wf(),
    ensures
        draws_view(r@) == input_popup_draws(*app),
{
    let mut out = none();
    if app.menu.is_some() || app.confirm.is_some() || app.rename.is_some()
        || app.palette.is_some() {
        assert(draws_view(out@) =~= input_popup_draws(*app));
        return out;
    }
    if let Some(sug) = &app.suggest {
        if let Some(rect) = app.suggest_rect {
            add_all(
                &mut out,
                draw_popup(&app.cfg, rect, &sug.matches, sug.selected, sug.offset),
            );
        }
    }
    if let Some(mention) = &app.mention {
        if let Some(rect) = app.mention_rect {
            add_all(
                &mut out,
                draw_popup(&app.cfg, rect, &mention.matches, mention.selected, mention.offset),
            );
        }
    }
    assert(draws_view(out@) =~= input_popup_draws(*app));
    out
}

// Menus and questions.

/// The labels of a menu.
pub open spec fn labels(items: Seq<MenuEntry>) -> Seq<&'static str> {
    Seq::new(items.len(), |i: int| items[i].label)
}

/// What is drawn of a menu.
pub open spec fn menu_draws(cfg: Config, menu: ContextMenu) -> Seq<DrawView> {
    seq![
        DrawView::Clear { rect: menu.rect },
        DrawView::List {
            rect: menu.rect,
            border: Some(cfg.accent),
            items: labels(menu.items@),
            selected: menu.hovered as int,
            style: colours(Color::Gray, cfg.bg),
            highlight: bold(colours(Color::Black, cfg.accent)),
        },
    ]
}

fn draw_menu(cfg: &Config, menu: &ContextMenu) -> (r: Vec<Draw>)
    ensures
        draws_view(r@) == menu_draws(*cfg, *menu),
{
    let mut items: Vec<&'static str> = Vec::new();
    let mut i: usize = 0;
    while i < menu.items.len()
        invariant
            i <= menu.items@.len(),
            items@ == labels(menu.items@).take(i as int),
        decreases menu.items@.len() - i,
    {
        items.push(menu.items[i].label);
        i = i + 1;
        assert(items@ =~= labels(menu.items@).take(i as int));
    }
    assert(items@ =~= labels(menu.items@));
    let mut out = none();
    add_one(&mut out, Draw::Clear { rect: menu.rect });
    add_one(
        &mut out,
        Draw::List {
            rect: menu.rect,
            border: Some(cfg.accent),
            items,
            selected: menu.hovered,
            style: with_colours(Color::Gray, cfg.bg),
            highlight: in_bold(with_colours(Color::Black, cfg.accent)),
        },
    );
    assert(draws_view(out@) =~= menu_draws(*cfg, *menu));
    out
}

/// The answers to the question before the last pane is closed.
pub open spec fn answers() -> Seq<&'static str> {
    seq!["Cancel (keep pane)", "Quit"]
}

/// What is drawn of the question before the last pane is closed.
pub open spec fn confirm_draws(cfg: Config, dialog: ConfirmDialog) -> Seq<DrawView> {
    let inner = geometry::inner_area(dialog.rect);
    seq![
        DrawView::Clear { rect: dialog.rect },
        DrawView::Border { rect: dialog.rect, line: cfg.red, inside: plain(), title: "" },
        DrawView::Message {
            rect: Rect::at(inner.x as int, inner.y as int, inner.width as int, 1),
            message: CONFIRM_MSG,
            style: colours(Color::White, cfg.bg),
        },
        DrawView::List {
            rect: Rect::at(
                inner.x as int,
                geometry::min_of(inner.y + 2, geometry::MAX_COORD as int),
                inner.width as int,
                2,
            ),
            border: None,
            items: answers(),
            selected: dialog.selected as int,
            style: colours(Color::Gray, cfg.bg),
            highlight: bold(colours(Color::Black, cfg.red)),
        },
    ]
}

fn draw_confirm(cfg: &Config, dialog: &ConfirmDialog) -> (r: Vec<Draw>)
    ensures
        draws_view(r@) == confirm_draws(*cfg, *dialog),
{
    let rect = dialog.rect;
    let inner = inner_of(rect);
    let mut items: Vec<&'static str> = Vec::new();
    items.push("Cancel (keep pane)");
    items.push("Quit");
    assert(items@ =~= answers());
    let mut out = none();
    add_one(&mut out, Draw::Clear { rect });
    add_one(&mut out, Draw::Border { rect, line: cfg.red, inside: unstyled(), title: "" });
    add_one(
        &mut out,
        Draw::Message {
            rect: Rect::new(inner.x, inner.y, inner.width, 1),
            message: CONFIRM_MSG,
            style: with_colours(Color::White, cfg.bg),
        },
    );
    add_one(
        &mut out,
        Draw::List {
            rect: Rect::new(inner.x, inner.y.saturating_add(2), inner.width, 2),
            border: None,
            items,
            selected: dialog.selected,
            style: with_colours(Color::Gray, cfg.bg),
            highlight: in_bold(with_colours(Color::Black, cfg.red)),
        },
    );
    assert(draws_view(out@) =~= confirm_draws(*cfg, *dialog));
    out
}

/// The cursor behind a text in the first line of an area, `lead` cells into it; nothing where that
/// is outside the area.
pub open spec fn text_cursor(inner: Rect, lead: int, typed: Seq<char>) -> Seq<DrawView> {
    let x = inner.x + lead + typed.len() % 65536;
    if x < inner.x + inner.width {
        seq![DrawView::Cursor { x, y: inner.y as int }]
    } else {
        Seq::empty()
    }
}

fn draw_text_cursor(inner: Rect, lead: u16, typed: &str) -> (r: Vec<Draw>)
    requires
        inner.wf(),
    ensures
        draws_view(r@) == text_cursor(inner, lead as int, typed@),
{
    let len: u32 = (text::chars_of(typed).len() % 65536) as u32;
    let mut out = none();
    if lead as u32 + len < inner.width as u32 {
        add_one(
            &mut out,
            Draw::Cursor { x: inner.x + (lead + len as u16), y: inner.y },
        );
    }
    assert(draws_view(out@) =~= text_cursor(inner, lead as int, typed@));
    out
}

/// What is drawn while a tab is renamed.
pub open spec fn rename_draws(cfg: Config, screen: Rect, state: RenameState) -> Seq<DrawView> {
    let rect = geometry::popup_area(screen, 2, 1, RENAME_W as int, RENAME_H as int);
    let inner = geometry::inner_area(rect);
    seq![
        DrawView::Clear { rect },
        DrawView::Border {
            rect,
            line: cfg.accent,
            inside: colours(Color::White, cfg.bg),
            title: "Rename tab (Enter: OK · Esc: Cancel)",
        },
        DrawView::Text {
            x: inner.x as int,
            y: inner.y as int,
            text: state.buffer@,
            style: only_fg(Color::White),
        },
    ] + text_cursor(inner, 0, state.buffer@)
}

fn draw_rename(cfg: &Config, screen: Rect, state: &RenameState) -> (r: Vec<Draw>)
    requires
        screen.wf(),
    ensures
        draws_view(r@) == rename_draws(*cfg, screen, *state),
{
    let rect = popup_rect(screen, 2, 1, RENAME_W, RENAME_H);
    let inner = inner_of(rect);
    let mut out = none();
    add_one(&mut out, Draw::Clear { rect });
    add_one(
        &mut out,
        Draw::Border {
            rect,
            line: cfg.accent,
            inside: with_colours(Color::White, cfg.bg),
            title: "Rename tab (Enter: OK · Esc: Cancel)",
        },
    );
    add_one(
        &mut out,
        Draw::Text {
            x: inner.x,
            y: inner.y,
            text: state.buffer.clone(),
            style: with_fg(Color::White),
        },
    );
    add_all(&mut out, draw_text_cursor(inner, 0, state.buffer.as_str()));
    assert(draws_view(out@) =~= rename_draws(*cfg, screen, *state));
    out
}

// The palette.

/// A result of the palette: marked, and in its own colour, where the command was run in the current
/// directory.
pub open spec fn result_line(cfg: Config, inner: Rect, pal: Palette, i: int) -> DrawView {
    let entry = pal.results@[i];
    DrawView::Text {
        x: inner.x as int,
        y: inner.y + 1 + i,
        text: padded(
            (if entry.cwd_match {
                "● "@
            } else {
                "  "@
            }) + entry.cmdline@,
            inner.width as int,
        ),
        style: if i == pal.selected {
            colours(Color::Black, cfg.accent)
        } else if entry.cwd_match {
            only_fg(cfg.green)
        } else {
            only_fg(Color::Gray)
        },
    }
}

/// The results of the palette that are drawn.
pub open spec fn result_lines(cfg: Config, inner: Rect, pal: Palette, n: int) -> Seq<DrawView> {
    Seq::new(n as nat, |i: int| result_line(cfg, inner, pal, i))
}

/// What is drawn of the palette: what was typed, and as many results as fit below it.
pub open spec fn palette_draws(cfg: Config, pal: Palette) -> Seq<DrawView> {
    let inner = geometry::inner_area(pal.rect);
    seq![
        DrawView::Clear { rect: pal.rect },
        DrawView::Border {
            rect: pal.rect,
            line: cfg.accent,
            inside: colours(Color::Gray, cfg.bg),
            title: "History — Enter: insert · Esc: close",
        },
        DrawView::Text {
            x: inner.x as int,
            y: inner.y as int,
            text: padded("> "@ + pal.query@, inner.width as int),
            style: bold(only_fg(Color::White)),
        },
    ] + result_lines(
        cfg,
        inner,
        pal,
        geometry::min_of(
            pal.results@.len() as int,
            geometry::minus(inner.height as int, 1),
        ),
    ) + text_cursor(inner, 2, pal.query@)
}

fn behind(lead: &str, text: &str) -> (r: String)
    ensures
        r@ == lead@ + text@,
{
    let mut out = text::chars_of(lead);
    text::push_text(&mut out, text);
    text::string_of(&out)
}

fn draw_palette(cfg: &Config, pal: &Palette) -> (r: Vec<Draw>)
    requires
        pal.rect.wf(),
    ensures
        draws_view(r@) == palette_draws(*cfg, *pal),
{
    let rect = pal.rect;
    let inner = inner_of(rect);
    let width: usize = inner.width as usize;
    let mut out = none();
    add_one(&mut out, Draw::Clear { rect });
    add_one(
        &mut out,
        Draw::Border {
            rect,
            line: cfg.accent,
            inside: with_colours(Color::Gray, cfg.bg),
            title: "History — Enter: insert · Esc: close",
        },
    );
    let query = behind("> ", pal.query.as_str());
    add_one(
        &mut out,
        Draw::Text {
            x: inner.x,
            y: inner.y,
            text: truncate_pad(query.as_str(), width),
            style: in_bold(with_fg(Color::White)),
        },
    );
    let ghost frame = draws_view(out@);
    let n: usize = pal.results.len();
    let room: usize = (inner.height as usize).saturating_sub(1);
    let mut i: usize = 0;
    assert(frame + result_lines(*cfg, inner, *pal, 0) =~= frame);
    while i < n && i < room
        invariant
            i <= n,
            i <= room,
            n == pal.results@.len(),
            room == geometry::minus(inner.height as int, 1),
            width == inner.width,
            inner.wf(),
            draws_view(out@) == frame + result_lines(*cfg, inner, *pal, i as int),
        decreases n - i,
    {
        let entry = &pal.results[i];
        let style = if i == pal.selected {
            with_colours(Color::Black, cfg.accent)
        } else if entry.cwd_match {
            with_fg(cfg.green)
        } else {
            with_fg(Color::Gray)
        };
        let mark = if entry.cwd_match {
            "● "
        } else {
            "  "
        };
        let line = behind(mark, entry.cmdline.as_str());
        add_one(
            &mut out,
            Draw::Text {
                x: inner.x,
                y: inner.y + (1 + i as u16),
                text: truncate_pad(line.as_str(), width),
                style,
            },
        );
        assert(result_lines(*cfg, inner, *pal, i + 1) =~= result_lines(*cfg, inner, *pal, i as int).push(
            result_line(*cfg, inner, *pal, i as int),
        ));
        i = i + 1;
        assert(draws_view(out@) =~= frame + result_lines(*cfg, inner, *pal, i as int));
    }
    add_all(&mut out, draw_text_cursor(inner, 2, pal.query.as_str()));
    assert(draws_view(out@) =~= palette_draws(*cfg, *pal));
    out
}

// The cursor of the pane with the focus.

/// The cursor of the pane with the focus, where the pane shows one and it lies inside the pane.
pub open spec fn pane_cursor(app: App) -> Seq<DrawView> {
    match layout::area_of(app.inner_areas@, app.focus()) {
        Some(inner) => if app::has_pane(app.panes@, app.focus()) {
            let screen = app.pane(app.focus()).report.screen;
            let (row, col) = screen.cursor;
            if !screen.hide_cursor && col < inner.width && row < inner.height {
                seq![DrawView::Cursor { x: inner.x + col, y: inner.y + row }]
            } else {
                Seq::empty()
            }
        } else {
            Seq::empty()
        },
        None => Seq::empty(),
    }
}

fn draw_pane_cursor(app: &App) -> (r: Vec<Draw>)
    requires
        app.wf(),
        app.active_tab < app.tabs@.len(),
    ensures
        draws_view(r@) == pane_cursor(*app),
{
    let focus = active_focus(app);
    let mut out = none();
    if let Some(inner) = layout::find_area(&app.inner_areas, focus) {
        if let Some(i) = app::find_pane(&app.panes, focus) {
            let screen = &app.panes[i].report.screen;
            let (row, col) = screen.cursor;
            if !screen.hide_cursor && col < inner.width && row < inner.height {
                add_one(&mut out, Draw::Cursor { x: inner.x + col, y: inner.y + row });
            }
        }
    }
    assert(draws_view(out@) =~= pane_cursor(*app));
    out
}

/// What is drawn of the popups that take all keys, each over those before it, and the cursor.
pub open spec fn overlay_draws(app: App) -> Seq<DrawView> {
    (match app.menu {
        Some(menu) => menu_draws(app.cfg, menu),
        None => Seq::empty(),
    }) + (match app.confirm {
        Some(dialog) => confirm_draws(app.cfg, dialog),
        None => Seq::empty(),
    }) + (match app.rename {
        Some(state) => rename_draws(app.cfg, app.screen, state),
        None => Seq::empty(),
    }) + (match app.palette {
        Some(pal) => palette_draws(app.cfg, pal),
        None => if modal(app) {
            Seq::empty()
        } else {
            pane_cursor(app)
        },
    })
}

fn draw_overlays(app: &App) -> (r: Vec<Draw>)
    requires
        app.wf(),
        app.active_tab < app.tabs@.len(),
    ensures
        draws_view(r@) == overlay_draws(*app),
{
    let mut out = none();
    if let Some(menu) = &app.menu {
        add_all(&mut out, draw_menu(&app.cfg, menu));
    }
    if let Some(dialog) = &app.confirm {
        add_all(&mut out, draw_confirm(&app.cfg, dialog));
    }
    if let Some(state) = &app.rename {
        add_all(&mut out, draw_rename(&app.cfg, app.screen, state));
    }
    if let Some(pal) = &app.palette {
        add_all(&mut out, draw_palette(&app.cfg, pal));
    } else if app.rename.is_none() && app.menu.is_none() && app.confirm.is_none() {
        add_all(&mut out, draw_pane_cursor(app));
    }
    assert(draws_view(out@) =~= overlay_draws(*app));
    out
}

/// Everything that is drawn, in its order.
pub open spec fn all_draws(app: App) -> Seq<DrawView> {
    panes_draws(app, app.areas@.len() as int) + bar_draws(app) + input_popup_draws(app)
        + overlay_draws(app)
}

/// Everything that is drawn of the state as it was laid out last.
pub fn draw(app: &App) -> (r: Vec<Draw>)
    requires
        app.wf(),
        app.active_tab < app.tabs@.len(),
    ensures
        draws_view(r@) == all_draws(*app),
{
    let mut out = draw_panes(app);
    add_all(&mut out, draw_bar(app));
    add_all(&mut out, draw_input_popups(app));
    add_all(&mut out, draw_overlays(app));
    out
}

/// Places the popups at the input line of the pane with the focus.
pub fn place_popups(app: &mut App)
    requires
        old(app).wf(),
        old(app).active_tab < old(app).tabs@.len(),
    ensures
        *final(app) == (App {
            suggest_rect: suggest::suggest_place(*old(app), old(app).focus()),
            mention_rect: suggest::mention_place(*old(app), old(app).focus()),
            ..*old(app)
        }),
        final(app).wf(),
{
    let focus = active_focus(app);
    let suggest_rect = compute_suggest_rect(app, focus);
    let mention_rect = compute_mention_rect(app, focus);
    app.suggest_rect = suggest_rect;
    app.mention_rect = mention_rect;
}

/// A text that is cut off or filled up keeps its characters in place, with blanks behind them.
pub proof fn padding_keeps_the_text(s: Seq<char>, width: int, i: int)
    requires
        0 <= i < width,
    ensures
        padded(s, width).len() == width,
        padded(s, width)[i] == (if i < s.len() {
            s[i]
        } else {
            ' '
        }),
{
}

/// Every character of a text is underlined, and none is lost.
pub proof fn underlining_keeps_the_text(s: Seq<char>, i: int)
    requires
        0 <= i < s.len(),
    ensures
        underlined(s).len() == 2 * s.len(),
        underlined(s)[2 * i] == s[i],
        underlined(s)[2 * i + 1] == '\u{332}',
{
}

/// The lines of a popup stand below each other, in the order of the list, and only the selected one
/// is highlighted.
pub proof fn only_the_selected_line_is_highlighted(
    cfg: Config,
    inner: Rect,
    matches: Seq<String>,
    selected: int,
    offset: int,
    n: int,
    row: int,
)
    requires
        0 <= row < n,
        cfg.accent != cfg.bg,
    ensures
        ({
            let line = popup_rows(cfg, inner, matches, selected, offset, n)[row];
            &&& line is Text
            &&& line->Text_x == inner.x
            &&& line->Text_y == inner.y + row
            &&& line->Text_text == padded(matches[offset + row]@, inner.width as int)
            &&& (line->Text_style).bg == Some(cfg.accent) <==> offset + row == selected
        }),
{
}

/// The results of the palette are drawn where a click finds them.
pub proof fn clicks_hit_the_results_drawn(cfg: Config, pal: Palette, col: int, i: int)
    requires
        0 <= i < pal.results@.len(),
        ({
            let inner = geometry::inner_area(pal.rect);
            inner.x <= col < inner.x + inner.width
        }),
    ensures
        ({
            let line = result_line(cfg, geometry::inner_area(pal.rect), pal, i);
            line is Text && crate::palette::row_at(pal, col, line->Text_y) == Some(i)
        }),
{
}

/// The cursor stands right behind what was typed, where there is room for it.
pub proof fn the_cursor_follows_the_text(inner: Rect, lead: int, typed: Seq<char>)
    requires
        0 <= lead,
        typed.len() < 65536,
    ensures
        lead + typed.len() < inner.width ==> text_cursor(inner, lead, typed) == seq![
            DrawView::Cursor { x: inner.x + lead + typed.len(), y: inner.y as int },
        ],
        lead + typed.len() >= inner.width ==> text_cursor(inner, lead, typed).len() == 0,
{
}

/// The screen of every pane that is shown is drawn in its area, with what is selected in it, and the
/// border of the pane with the focus, and of no other, has the colour for it.
pub proof fn every_pane_is_drawn(app: App, n: int, i: int)
    requires
        0 <= i < n <= app.areas@.len(),
        app::has_pane(app.panes@, app.areas@[i].0),
    ensures
        panes_draws(app, n).contains(
            DrawView::Screen {
                pane: app.areas@[i].0,
                rect: if app.areas@.len() == 1 {
                    app.areas@[i].1
                } else {
                    geometry::inner_area(app.areas@[i].1)
                },
                selection: if app.selection is Some && (app.selection->0).pane == app.areas@[i].0 {
                    Some((app.selection->0).range)
                } else {
                    None
                },
            },
        ),
        app.areas@.len() > 1 ==> panes_draws(app, n).contains(
            DrawView::Border {
                rect: app.areas@[i].1,
                line: if app.areas@[i].0 == app.focus() {
                    app.cfg.blue
                } else {
                    Color::DarkGray
                },
                inside: plain(),
                title: "",
            },
        ),
    decreases n,
{
    let before = panes_draws(app, n - 1);
    let own = pane_draws(app, n - 1);
    let all = panes_draws(app, n);
    assert(all == before + own);
    if i == n - 1 {
        assert(all[all.len() - 1] == own.last());
        if app.areas@.len() > 1 {
            assert(all[before.len() as int] == own[0]);
        }
    } else {
        every_pane_is_drawn(app, n - 1, i);
        assert forall|x: DrawView| #[trigger] before.contains(x) implies all.contains(x) by {
            let k = choose|k: int| 0 <= k < before.len() && before[k] == x;
            assert(all[k] == x);
        }
    }
}

/// Every part of the tab bar is drawn where a click finds it, and the active one is marked.
pub proof fn every_tab_is_drawn(app: App, n: int, i: int)
    requires
        0 <= i < n <= app.status_segs@.len(),
    ensures
        exists|k: int|
            0 <= k < segs_draws(app, n).len() && (#[trigger] segs_draws(app, n)[k]) is Text
                && segs_draws(app, n)[k]->Text_x == app.status_segs@[i].x && segs_draws(
                app,
                n,
            )[k]->Text_y == app.status_y && segs_draws(app, n)[k]->Text_text
                == app.status_segs@[i].text@ && (segs_draws(app, n)[k]->Text_style).bold
                == app.status_segs@[i].active,
    decreases n,
{
    let before = segs_draws(app, n - 1);
    let own = seg_draws(app, n - 1);
    let all = segs_draws(app, n);
    assert(all == before + own);
    if i == n - 1 {
        assert(all[all.len() - 1] == own.last());
    } else {
        every_tab_is_drawn(app, n - 1, i);
        let k = choose|k: int|
            0 <= k < before.len() && (#[trigger] before[k]) is Text && before[k]->Text_x
                == app.status_segs@[i].x && before[k]->Text_y == app.status_y
                && before[k]->Text_text == app.status_segs@[i].text@ && (
            before[k]->Text_style).bold == app.status_segs@[i].active;
        assert(all[k] == before[k]);
    }
}

/// The cursor is drawn in the cell of the pane where its screen has it, unless it is hidden or a popup
/// has the keys.
pub proof fn the_cursor_is_drawn_in_its_cell(app: App, inner: Rect)
    requires
        layout::area_of(app.inner_areas@, app.focus()) == Some(inner),
        app::has_pane(app.panes@, app.focus()),
        app.menu is None,
        app.confirm is None,
        app.rename is None,
        app.palette is None,
    ensures
        ({
            let screen = app.pane(app.focus()).report.screen;
            let shown = !screen.hide_cursor && screen.cursor.1 < inner.width && screen.cursor.0
                < inner.height;
            &&& shown ==> overlay_draws(app).len() == 1 && overlay_draws(app)[0] == (
            DrawView::Cursor { x: inner.x + screen.cursor.1, y: inner.y + screen.cursor.0 })
            &&& !shown ==> overlay_draws(app).len() == 0
        }),
{
}

/// A popup that is open is drawn in its place, with what it holds.
pub proof fn open_popups_are_drawn(app: App)
    ensures
        app.palette matches Some(pal) ==> overlay_draws(app).contains(
            DrawView::Clear { rect: pal.rect },
        ),
        app.menu matches Some(menu) ==> overlay_draws(app).contains(
            DrawView::Clear { rect: menu.rect },
        ),
        app.confirm matches Some(dialog) ==> overlay_draws(app).contains(
            DrawView::Clear { rect: dialog.rect },
        ),
{
    let all = overlay_draws(app);
    let a = match app.menu {
        Some(menu) => menu_draws(app.cfg, menu),
        None => Seq::empty(),
    };
    let b = match app.confirm {
        Some(dialog) => confirm_draws(app.cfg, dialog),
        None => Seq::empty(),
    };
    let c = match app.rename {
        Some(state) => rename_draws(app.cfg, app.screen, state),
        None => Seq::empty(),
    };
    if let Some(menu) = app.menu {
        assert(all[0] == a[0]);
    }
    if let Some(dialog) = app.confirm {
        assert(all[a.len() as int] == b[0]);
    }
    if let Some(pal) = app.palette {
        assert(all[a.len() as int + b.len() + c.len()] == palette_draws(app.cfg, pal)[0]);
    }
}

/// A line is drawn over the label of the active tab, and of no other.
pub proof fn the_active_tab_has_a_line_over_it(app: App, i: int)
    requires
        0 <= i < app.status_segs@.len(),
        app.status_y > 0,
    ensures
        ({
            let seg = app.status_segs@[i];
            let drawn = seg_draws(app, i);
            &&& seg.active ==> drawn.len() == 2 && drawn[0] is Text && drawn[0]->Text_x == seg.x
                && drawn[0]->Text_y == app.status_y - 1 && drawn[0]->Text_text.len() >= 2 * seg.text@.len()
            &&& !seg.active ==> drawn.len() == 1
        }),
{
    utf8_is_not_shorter(app.status_segs@[i].text@);
}

proof fn utf8_is_not_shorter(s: Seq<char>)
    ensures
        utf8::encode_utf8(s).len() >= s.len(),
    decreases s.len(),
{
    if s.len() > 0 {
        utf8::encode_utf8_first_scalar(s);
        utf8_is_not_shorter(s.drop_first());
    }
}

/// The signs of a popup tell truly that its list goes on: upwards where lines above are hidden,
/// downwards where lines below are.
pub proof fn signs_tell_of_hidden_lines(cfg: Config, rect: Rect, count: int, offset: int)
    requires
        rect.width > 0,
        rect.height > 0,
        0 <= offset <= count,
    ensures
        ({
            let signs = popup_signs(cfg, rect, count, offset);
            let above = offset > 0;
            let below = offset + cfg.suggest_max_visible < count;
            &&& signs.len() == (if above {
                1int
            } else {
                0
            }) + (if below {
                1int
            } else {
                0
            })
            &&& above ==> signs[0] is Glyph && signs[0]->Glyph_y == rect.y
            &&& below ==> signs.last() is Glyph && signs.last()->Glyph_y == rect.y + rect.height - 1
            &&& forall|i: int|
                0 <= i < signs.len() ==> (#[trigger] signs[i])->Glyph_x == rect.x + rect.width - 1
        }),
{
}

} // verus!
