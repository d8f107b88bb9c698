//! The live display of a push: one row for each step and each pull request.
//!
//! On a terminal the rows are drawn again in place as they change. Elsewhere,
//! or where the rows would not fit on the screen, each row is printed once,
//! when it is finished. What is printed is handed back by the methods that
//! change the display, and the finished rows are also kept as a transcript.
use crate::outside;
use crate::text;
use vstd::prelude::*;

verus! {

/// How many glyphs the spinner has.
pub const FRAME_COUNT: usize = 10;

/// How a finished row reads.
#[derive(Debug, Clone, Copy, PartialEq, Eq, Structural)]
pub enum Mark {
    /// The step did something.
    Done,
    /// There was nothing to do.
    Noop,
    /// The change was merged already.
    Merged,
}

/// What a row stands for.
#[derive(Debug, Clone, Copy, PartialEq, Eq, Structural)]
pub enum RowKind {
    Step,
    Pr,
}

/// How far a row is.
#[derive(Debug, Clone, Copy, PartialEq, Eq, Structural)]
pub enum State {
    Pending,
    Active,
    Resolved(Mark),
}

/// A row of the display.
#[derive(Debug, Clone)]
pub struct Row {
    pub kind: RowKind,
    /// The title of a pull request.
    pub title: String,
    /// What happens to it.
    pub word: String,
    /// What changes, in short.
    pub detail: Option<String>,
    /// Where the pull request is.
    pub url: Option<String>,
    pub state: State,
}

/// A row as the contracts see it.
pub struct RowView {
    pub kind: RowKind,
    pub title: Seq<char>,
    pub word: Seq<char>,
    pub detail: Option<Seq<char>>,
    pub url: Option<Seq<char>>,
    pub state: State,
}

impl View for Row {
    type V = RowView;

    open spec fn view(&self) -> RowView {
        RowView {
            kind: self.kind,
            title: self.title@,
            word: self.word@,
            detail: text::opt_text(self.detail),
            url: text::opt_text(self.url),
            state: self.state,
        }
    }
}

/// The contents of some rows.
pub open spec fn row_views(v: Seq<Row>) -> Seq<RowView> {
    v.map_values(|r: Row| r@)
}

/// What switches a terminal to the colors of the display.
#[derive(Debug, Clone)]
pub struct Theme {
    pub enabled: bool,
    pub dim: String,
    pub cyan: String,
    pub green: String,
    pub magenta: String,
    pub reset: String,
}

/// A theme as the contracts see it.
pub struct ThemeView {
    pub enabled: bool,
    pub dim: Seq<char>,
    pub cyan: Seq<char>,
    pub green: Seq<char>,
    pub magenta: Seq<char>,
    pub reset: Seq<char>,
}

impl View for Theme {
    type V = ThemeView;

    open spec fn view(&self) -> ThemeView {
        ThemeView {
            enabled: self.enabled,
            dim: self.dim@,
            cyan: self.cyan@,
            green: self.green@,
            magenta: self.magenta@,
            reset: self.reset@,
        }
    }
}

/// The theme without colors.
pub open spec fn no_colors() -> ThemeView {
    ThemeView {
        enabled: false,
        dim: seq![],
        cyan: seq![],
        green: seq![],
        magenta: seq![],
        reset: seq![],
    }
}

impl Theme {
    /// The theme without colors.
    pub fn plain() -> (r: Theme)
        ensures
            r@ == no_colors(),
    {
        let r = Theme {
            enabled: false,
            dim: String::new(),
            cyan: String::new(),
            green: String::new(),
            magenta: String::new(),
            reset: String::new(),
        };
        proof {
            assert(r@.dim =~= seq![]);
            assert(r@.cyan =~= seq![]);
            assert(r@.green =~= seq![]);
            assert(r@.magenta =~= seq![]);
            assert(r@.reset =~= seq![]);
        }
        r
    }
}

// ---------------------------------------------------------------------------
// Columns of a terminal
// ---------------------------------------------------------------------------

/// The column after a character: a tab goes on to the next multiple of eight.
pub open spec fn advance(col: nat, c: char) -> nat {
    if c == '\t' {
        (col / 8 + 1) * 8
    } else {
        col + outside::width_of(c)
    }
}

/// How many columns a text takes.
pub open spec fn columns(s: Seq<char>) -> nat
    decreases s.len(),
{
    if s.len() == 0 {
        0
    } else {
        advance(columns(s.drop_last()), s.last())
    }
}

/// The longest start of a text that takes at most `budget` columns.
pub open spec fn kept(s: Seq<char>, budget: nat) -> Seq<char>
    decreases s.len(),
{
    if columns(s) <= budget || s.len() == 0 {
        s
    } else {
        kept(s.drop_last(), budget)
    }
}

/// A text, cut to `max` columns where it takes more.
pub open spec fn truncated(s: Seq<char>, max: nat) -> Seq<char> {
    if columns(s) <= max {
        s
    } else {
        kept(
            s,
            if max >= 1 {
                (max - 1) as nat
            } else {
                0
            },
        ).push('…')
    }
}

proof fn lemma_columns_grow(s: Seq<char>, k: int)
    requires
        0 <= k <= s.len(),
    ensures
        columns(s.take(k)) <= columns(s),
    decreases s.len() - k,
{
    if k == s.len() {
        assert(s.take(k) =~= s);
    } else {
        lemma_columns_grow(s, k + 1);
        assert(s.take(k + 1).drop_last() =~= s.take(k));
        let col = columns(s.take(k));
        assert(col <= (col / 8 + 1) * 8);
    }
}

proof fn lemma_kept_is(s: Seq<char>, budget: nat, k: int)
    requires
        0 <= k <= s.len(),
        columns(s.take(k)) <= budget,
        k < s.len() ==> columns(s.take(k + 1)) > budget,
    ensures
        kept(s, budget) == s.take(k),
    decreases s.len(),
{
    if k == s.len() {
        assert(s.take(k) =~= s);
    } else {
        lemma_columns_grow(s, k + 1);
        let t = s.drop_last();
        assert(t.take(k) =~= s.take(k));
        if k < t.len() {
            assert(t.take(k + 1) =~= s.take(k + 1));
        }
        lemma_kept_is(t, budget, k);
    }
}

/// The column after a character, where there is a number for it.
fn next_column(col: usize, c: char) -> (r: Option<usize>)
    ensures
        match r {
            Some(n) => n == advance(col as nat, c),
            None => advance(col as nat, c) > usize::MAX,
        },
        advance(col as nat, c) <= col + 8,
{
    if c == '\t' {
        let stop: usize = col / 8;
        if stop >= usize::MAX / 8 {
            None
        } else {
            Some((stop + 1) * 8)
        }
    } else {
        col.checked_add(outside::char_width(c))
    }
}

/// How many columns `s` takes, or the greatest number there is.
pub fn display_width(s: &str) -> (r: usize)
    ensures
        r == (if columns(s@) <= usize::MAX {
            columns(s@)
        } else {
            usize::MAX as nat
        }),
{
    let cs = text::chars_of(s);
    let mut col: usize = 0;
    let mut i: usize = 0;
    proof {
        assert(cs@.take(0) =~= seq![]);
    }
    while i < cs.len()
        invariant
            i <= cs.len(),
            cs@ == s@,
            col == columns(cs@.take(i as int)),
        decreases cs.len() - i,
    {
        proof {
            assert(cs@.take(i + 1).drop_last() =~= cs@.take(i as int));
        }
        match next_column(col, cs[i]) {
            Some(n) => {
                col = n;
            },
            None => {
                proof {
                    lemma_columns_grow(cs@, i + 1);
                }
                return usize::MAX;
            },
        }
        i += 1;
    }
    proof {
        assert(cs@.take(i as int) =~= cs@);
    }
    col
}

/// How many characters at the start of `cs` take at most `budget` columns.
fn count_kept(cs: &[char], budget: usize) -> (r: usize)
    ensures
        r <= cs.len(),
        cs@.take(r as int) == kept(cs@, budget as nat),
        columns(cs@.take(r as int)) <= budget,
        r < cs.len() ==> columns(cs@) > budget,
        8 * cs.len() <= budget ==> r == cs.len(),
{
    let mut col: usize = 0;
    let mut i: usize = 0;
    proof {
        assert(cs@.take(0) =~= seq![]);
    }
    while i < cs.len()
        invariant
            i <= cs.len(),
            col == columns(cs@.take(i as int)),
            col <= budget,
            col <= 8 * i,
        decreases cs.len() - i,
    {
        proof {
            assert(cs@.take(i + 1).drop_last() =~= cs@.take(i as int));
        }
        let next = next_column(col, cs[i]);
        let fits: bool = match next {
            Some(n) => n <= budget,
            None => false,
        };
        if !fits {
            proof {
                lemma_kept_is(cs@, budget as nat, i as int);
                lemma_columns_grow(cs@, i + 1);
            }
            return i;
        }
        if let Some(n) = next {
            col = n;
        }
        i += 1;
    }
    proof {
        lemma_kept_is(cs@, budget as nat, i as int);
    }
    i
}

/// `s`, cut to `max` columns where it takes more, with an ellipsis for what is
/// gone. Where there is a column at all, the result fits, and where there are
/// eight to a character nothing is cut.
pub fn truncate_display(s: &str, max: usize) -> (r: String)
    ensures
        r@ == truncated(s@, max as nat),
        max >= 1 ==> columns(r@) <= max,
        8 * s@.len() <= max ==> r@ == s@,
{
    let cs = text::chars_of(s);
    if count_kept(&cs, max) == cs.len() {
        proof {
            assert(cs@.take(cs@.len() as int) =~= cs@);
        }
        return s.to_owned();
    }
    let mark: usize = outside::char_width('…');
    let budget: usize = if max >= mark {
        max - mark
    } else {
        0
    };
    let n = count_kept(&cs, budget);
    let mut out = text::piece(&cs, 0, n);
    let ghost start = out@;
    out.push('…');
    proof {
        assert(cs@.subrange(0, n as int) =~= cs@.take(n as int));
        assert(out@.drop_last() =~= start);
    }
    out
}

// ---------------------------------------------------------------------------
// Rows
// ---------------------------------------------------------------------------

/// The glyphs of the spinner.
pub open spec fn frame_text(i: usize) -> Seq<char> {
    match i {
        0 => "⠋"@,
        1 => "⠙"@,
        2 => "⠹"@,
        3 => "⠸"@,
        4 => "⠼"@,
        5 => "⠴"@,
        6 => "⠦"@,
        7 => "⠧"@,
        8 => "⠇"@,
        _ => "⠏"@,
    }
}

/// The glyphs of the spinner.
pub fn frame_glyph(i: usize) -> (r: &'static str)
    ensures
        r@ == frame_text(i),
{
    match i {
        0 => "⠋",
        1 => "⠙",
        2 => "⠹",
        3 => "⠸",
        4 => "⠼",
        5 => "⠴",
        6 => "⠦",
        7 => "⠧",
        8 => "⠇",
        _ => "⠏",
    }
}

/// The glyph of a row.
pub open spec fn glyph(state: State, frame: usize) -> Seq<char> {
    match state {
        State::Pending => "◦"@,
        State::Active => frame_text(frame % 10),
        State::Resolved(Mark::Done) => "✓"@,
        State::Resolved(_) => "·"@,
    }
}

/// The color of a row.
pub open spec fn style(state: State, theme: ThemeView) -> Seq<char> {
    match state {
        State::Pending => theme.dim,
        State::Active => theme.cyan,
        State::Resolved(Mark::Done) => theme.green,
        State::Resolved(Mark::Noop) => theme.dim,
        State::Resolved(Mark::Merged) => theme.magenta,
    }
}

/// The text in an optional text.
pub open spec fn text_or_empty(o: Option<Seq<char>>) -> Seq<char> {
    match o {
        Some(s) => s,
        None => seq![],
    }
}

/// What happens to a row, in brackets.
pub open spec fn tag(row: RowView) -> Seq<char> {
    "["@ + row.word + "]"@
}

/// A row without colors, before it is cut. With the widths of the columns its
/// fields are padded to them; without them tabs separate the four fields of a
/// pull request.
pub open spec fn plain_row(row: RowView, frame: usize, cols: Option<(nat, nat, nat)>) -> Seq<char> {
    let g = glyph(row.state, frame);
    let url = text_or_empty(row.url);
    let detail = text_or_empty(row.detail);
    match (row.kind, cols) {
        (RowKind::Step, _) => "  "@ + g + " "@ + row.word,
        (RowKind::Pr, Some((status_w, url_w, detail_w))) => "    "@ + g + " "@ + text::pad_right(
            tag(row),
            status_w,
        ) + (if detail_w > 0 {
            "  "@ + text::pad_right(detail, detail_w)
        } else {
            seq![]
        }) + "  "@ + text::pad_right(url, url_w) + "  "@ + row.title,
        (RowKind::Pr, None) => "    "@ + g + " "@ + tag(row) + "\t"@ + detail + "\t"@ + url + "\t"@
            + row.title,
    }
}

/// A text in a color.
pub open spec fn colored(style: Seq<char>, s: Seq<char>, theme: ThemeView) -> Seq<char> {
    style + s + theme.reset
}

/// A row without colors, with them: the glyph and, for a pull request, what
/// happens to it and its detail.
pub open spec fn colored_row(plain: Seq<char>, row: RowView, frame: usize, theme: ThemeView) -> Seq<
    char,
> {
    let s = style(row.state, theme);
    let g = glyph(row.state, frame);
    let a = text::replace_first(plain, g, colored(s, g, theme));
    if row.kind == RowKind::Step {
        a
    } else {
        let b = text::replace_first(a, tag(row), colored(s, tag(row), theme));
        match row.detail {
            Some(d) if d.len() > 0 => text::replace_first(b, d, colored(theme.dim, d, theme)),
            _ => b,
        }
    }
}

/// A row on one line of `width` columns.
pub open spec fn rendered_row(
    row: RowView,
    frame: usize,
    width: nat,
    theme: ThemeView,
    cols: Option<(nat, nat, nat)>,
) -> Seq<char> {
    let plain = truncated(plain_row(row, frame, cols), width);
    if theme.enabled {
        colored_row(plain, row, frame, theme)
    } else {
        plain
    }
}

fn glyph_of(state: State, frame: usize) -> (r: &'static str)
    ensures
        r@ == glyph(state, frame),
{
    match state {
        State::Pending => "◦",
        State::Active => frame_glyph(frame % FRAME_COUNT),
        State::Resolved(Mark::Done) => "✓",
        State::Resolved(_) => "·",
    }
}

fn style_of(state: State, theme: &Theme) -> (r: &str)
    ensures
        r@ == style(state, theme@),
{
    match state {
        State::Pending => theme.dim.as_str(),
        State::Active => theme.cyan.as_str(),
        State::Resolved(Mark::Done) => theme.green.as_str(),
        State::Resolved(Mark::Noop) => theme.dim.as_str(),
        State::Resolved(Mark::Merged) => theme.magenta.as_str(),
    }
}

fn str_or_empty(o: &Option<String>) -> (r: String)
    ensures
        r@ == text_or_empty(text::opt_text(*o)),
{
    match o {
        Some(s) => s.clone(),
        None => {
            let s = String::new();
            proof {
                assert(s@ =~= seq![]);
            }
            s
        },
    }
}

/// The widths of the columns as the contracts see them.
pub open spec fn widths(cols: Option<(usize, usize, usize)>) -> Option<(nat, nat, nat)> {
    match cols {
        Some((a, b, c)) => Some((a as nat, b as nat, c as nat)),
        None => None,
    }
}

fn tag_of(row: &Row) -> (r: String)
    ensures
        r@ == tag(row@),
{
    let mut t = "[".to_owned();
    t.append(row.word.as_str());
    t.append("]");
    t
}

/// A row without colors, before it is cut.
pub fn row_line(row: &Row, frame: usize, cols: Option<(usize, usize, usize)>) -> (r: String)
    ensures
        r@ == plain_row(row@, frame, widths(cols)),
{
    let g = glyph_of(row.state, frame);
    if row.kind == RowKind::Step {
        let mut out = "  ".to_owned();
        out.append(g);
        out.append(" ");
        out.append(row.word.as_str());
        return out;
    }
    let url = str_or_empty(&row.url);
    let detail = str_or_empty(&row.detail);
    let mut out = "    ".to_owned();
    out.append(g);
    out.append(" ");
    match cols {
        Some((status_w, url_w, detail_w)) => {
            out.append(text::padded(tag_of(row).as_str(), status_w).as_str());
            let mut middle = String::new();
            if detail_w > 0 {
                middle.append("  ");
                middle.append(text::padded(detail.as_str(), detail_w).as_str());
            }
            proof {
                assert(middle@ =~= (if detail_w > 0 {
                    "  "@ + text::pad_right(detail@, detail_w as nat)
                } else {
                    seq![]
                }));
            }
            out.append(middle.as_str());
            out.append("  ");
            out.append(text::padded(url.as_str(), url_w).as_str());
            out.append("  ");
            out.append(row.title.as_str());
        },
        None => {
            out.append(tag_of(row).as_str());
            out.append("\t");
            out.append(detail.as_str());
            out.append("\t");
            out.append(url.as_str());
            out.append("\t");
            out.append(row.title.as_str());
        },
    }
    out
}

fn in_color(style: &str, s: &str, theme: &Theme) -> (r: String)
    ensures
        r@ == colored(style@, s@, theme@),
{
    let mut out = style.to_owned();
    out.append(s);
    out.append(theme.reset.as_str());
    out
}

/// The colors of a row.
pub fn color_row(plain: &str, row: &Row, frame: usize, theme: &Theme) -> (r: String)
    ensures
        r@ == colored_row(plain@, row@, frame, theme@),
{
    let s = style_of(row.state, theme);
    let g = glyph_of(row.state, frame);
    let a = text::replaced_first(plain, g, in_color(s, g, theme).as_str());
    if row.kind == RowKind::Step {
        return a;
    }
    let t = tag_of(row);
    let b = text::replaced_first(a.as_str(), t.as_str(), in_color(s, t.as_str(), theme).as_str());
    match &row.detail {
        Some(d) => {
            if d.as_str().unicode_len() > 0 {
                text::replaced_first(
                    b.as_str(),
                    d.as_str(),
                    in_color(theme.dim.as_str(), d.as_str(), theme).as_str(),
                )
            } else {
                b
            }
        },
        None => b,
    }
}

/// A row on one line of `width` columns. Without colors it takes no more than
/// these, and is whole where they are enough for any text of its length.
pub fn render_row(
    row: &Row,
    frame: usize,
    width: usize,
    theme: &Theme,
    cols: Option<(usize, usize, usize)>,
) -> (r: String)
    ensures
        r@ == rendered_row(row@, frame, width as nat, theme@, widths(cols)),
        width >= 1 && !theme.enabled ==> columns(r@) <= width,
        !theme.enabled && 8 * plain_row(row@, frame, widths(cols)).len() <= width ==> r@
            == plain_row(row@, frame, widths(cols)),
{
    let plain = truncate_display(row_line(row, frame, cols).as_str(), width);
    if !theme.enabled {
        return plain;
    }
    color_row(plain.as_str(), row, frame, theme)
}

// ---------------------------------------------------------------------------
// The display
// ---------------------------------------------------------------------------

/// The greater of two numbers.
pub open spec fn greater(a: nat, b: nat) -> nat {
    if a >= b {
        a
    } else {
        b
    }
}

/// How many characters the tag of a row has, or the greatest number there is.
pub open spec fn tag_width(row: RowView) -> nat {
    if row.word.len() + 2 <= usize::MAX {
        row.word.len() + 2
    } else {
        usize::MAX as nat
    }
}

/// The widths of the status, the address and the detail among the rows of
/// pull requests, where there are any.
pub open spec fn cols_of(rows: Seq<RowView>) -> Option<(nat, nat, nat)>
    decreases rows.len(),
{
    if rows.len() == 0 {
        None
    } else {
        let row = rows.last();
        let before = cols_of(rows.drop_last());
        if row.kind == RowKind::Step {
            before
        } else {
            let (a, b, c) = match before {
                Some(w) => w,
                None => (0, 0, 0),
            };
            Some(
                (
                    greater(a, tag_width(row)),
                    greater(b, text_or_empty(row.url).len()),
                    greater(c, text_or_empty(row.detail).len()),
                ),
            )
        }
    }
}

/// The display.
pub struct Progress {
    /// Whether the rows are drawn again in place.
    pub interactive: bool,
    pub theme: Theme,
    pub width: usize,
    pub height: usize,
    /// Which glyph the spinner shows.
    pub frame: usize,
    pub rows: Vec<Row>,
    /// How many lines the last drawing took.
    pub drawn: usize,
    /// The widths of the columns of the rows.
    pub cols: Option<(usize, usize, usize)>,
    pub transcript: Vec<String>,
}

/// The display as the contracts see it.
pub struct ProgressView {
    pub interactive: bool,
    pub theme: ThemeView,
    pub width: usize,
    pub height: usize,
    pub frame: usize,
    pub rows: Seq<RowView>,
    pub drawn: usize,
    pub cols: Option<(nat, nat, nat)>,
    pub transcript: Seq<Seq<char>>,
}

impl View for Progress {
    type V = ProgressView;

    open spec fn view(&self) -> ProgressView {
        ProgressView {
            interactive: self.interactive,
            theme: self.theme@,
            width: self.width,
            height: self.height,
            frame: self.frame,
            rows: row_views(self.rows@),
            drawn: self.drawn,
            cols: widths(self.cols),
            transcript: text::texts(self.transcript@),
        }
    }
}

impl ProgressView {
    /// What holds between any two calls: the widths are those of the rows, and
    /// the lines that the next drawing replaces are those of the rows.
    pub open spec fn wf(self) -> bool {
        &&& self.cols == cols_of(self.rows)
        &&& self.frame < 10
        &&& self.width >= 20
        &&& self.height >= 1
        &&& self.drawn == (if self.interactive {
            self.rows.len()
        } else {
            0
        })
    }

    /// The size of the screen as far as the display goes.
    pub open spec fn resized(self, size: Option<(u16, u16)>) -> ProgressView {
        match size {
            Some((w, h)) => ProgressView {
                width: greater(w as nat, 20) as usize,
                height: greater(h as nat, 1) as usize,
                ..self
            },
            None => self,
        }
    }

    /// The rows, each in place of the line that it is drawn on.
    pub open spec fn block(self, rows: Seq<RowView>) -> Seq<char>
        decreases rows.len(),
    {
        if rows.len() == 0 {
            seq![]
        } else {
            self.block(rows.drop_last()) + "\r\x1b[2K"@ + rendered_row(
                rows.last(),
                self.frame,
                self.width as nat,
                self.theme,
                self.cols,
            ) + "\n"@
        }
    }

    /// The finished rows, each on a line.
    pub open spec fn finished(self, rows: Seq<RowView>) -> Seq<char>
        decreases rows.len(),
    {
        if rows.len() == 0 {
            seq![]
        } else if rows.last().state is Resolved {
            self.finished(rows.drop_last()) + rendered_row(
                rows.last(),
                self.frame,
                self.width as nat,
                self.theme,
                self.cols,
            ) + "\n"@
        } else {
            self.finished(rows.drop_last())
        }
    }

    /// The way back up over the last drawing.
    pub open spec fn rewind(self, end: Seq<char>) -> Seq<char> {
        if self.drawn > 0 {
            "\x1b["@ + text::decimal(self.drawn as nat) + end
        } else {
            seq![]
        }
    }

    /// The display after it was drawn.
    pub open spec fn redrawn(self, size: Option<(u16, u16)>) -> ProgressView {
        if self.interactive {
            ProgressView { drawn: self.rows.len() as usize, ..self.resized(size) }
        } else {
            self
        }
    }

    /// What is printed to draw the display.
    pub open spec fn redraw_text(self, size: Option<(u16, u16)>) -> Seq<char> {
        if self.interactive {
            self.rewind("A"@) + self.resized(size).block(self.rows)
        } else {
            seq![]
        }
    }

    /// The display once its rows are no longer drawn in place.
    pub open spec fn degraded(self) -> ProgressView {
        ProgressView { interactive: false, drawn: 0, ..self }
    }

    /// What is printed to give up drawing in place: the finished rows stay.
    pub open spec fn degrade_text(self) -> Seq<char> {
        self.rewind("A\r\x1b[0J"@) + self.finished(self.rows)
    }

    /// Whether the rows leave no line of the screen for the cursor.
    pub open spec fn overflows(self) -> bool {
        self.rows.len() > self.height - 1
    }

    /// The display with other rows.
    pub open spec fn with_rows(self, rows: Seq<RowView>) -> ProgressView {
        ProgressView { rows, cols: cols_of(rows), ..self }
    }

    /// The display with one row more, before it is drawn.
    pub open spec fn grown(self, row: RowView) -> ProgressView {
        let p = self.with_rows(self.rows.push(row));
        if p.interactive && p.overflows() {
            p.degraded()
        } else {
            p
        }
    }

    /// The display with one row more.
    pub open spec fn pushed(self, row: RowView, size: Option<(u16, u16)>) -> ProgressView {
        self.grown(row).redrawn(size)
    }

    /// What is printed for one row more.
    pub open spec fn push_text(self, row: RowView, size: Option<(u16, u16)>) -> Seq<char> {
        let p = self.with_rows(self.rows.push(row));
        if p.interactive && p.overflows() {
            p.degrade_text()
        } else {
            p.redraw_text(size)
        }
    }

    /// The display with row `idx` finished, before it is drawn.
    pub open spec fn marked(self, idx: int, mark: Mark, word: Option<Seq<char>>) -> ProgressView {
        let row = RowView {
            word: match word {
                Some(w) => w,
                None => self.rows[idx].word,
            },
            state: State::Resolved(mark),
            ..self.rows[idx]
        };
        let p = self.with_rows(self.rows.update(idx, row));
        ProgressView { transcript: p.transcript.push(transcript_line(row, p.frame)), ..p }
    }

    /// What is printed for row `idx` when it is finished.
    pub open spec fn resolve_text(
        self,
        idx: int,
        mark: Mark,
        word: Option<Seq<char>>,
        size: Option<(u16, u16)>,
    ) -> Seq<char> {
        let p = self.marked(idx, mark, word);
        if p.interactive {
            p.redraw_text(size)
        } else {
            p.transcript.last() + "\n"@
        }
    }
}

/// A row in the transcript: whole, and without colors.
pub open spec fn transcript_line(row: RowView, frame: usize) -> Seq<char> {
    plain_row(row, frame, None)
}

/// A fresh row.
pub open spec fn fresh_row(
    kind: RowKind,
    title: Seq<char>,
    word: Seq<char>,
    detail: Option<Seq<char>>,
    url: Option<Seq<char>>,
) -> RowView {
    RowView { kind, title, word, detail, url, state: State::Pending }
}

fn max_of(a: usize, b: usize) -> (r: usize)
    ensures
        r == greater(a as nat, b as nat),
{
    if a >= b {
        a
    } else {
        b
    }
}

fn char_count(o: &Option<String>) -> (r: usize)
    ensures
        r == text_or_empty(text::opt_text(*o)).len(),
{
    match o {
        Some(s) => s.as_str().unicode_len(),
        None => 0,
    }
}

impl Progress {
    /// The display on an output that is a terminal or not, and has a size or
    /// not. Only a terminal with a size is drawn on in place, and in color.
    pub fn new(is_terminal: bool, size: Option<(u16, u16)>, theme: Theme) -> (r: Progress)
        ensures
            r@ == (match size {
                Some((w, h)) if is_terminal => empty_display(
                    true,
                    theme@,
                    w as usize,
                    h as usize,
                ),
                _ => empty_display(false, no_colors(), 0, 0),
            }),
            r@.wf(),
    {
        match size {
            Some((w, h)) => {
                if is_terminal {
                    return Progress::with_mode(true, theme, w as usize, h as usize);
                }
            },
            None => {},
        }
        Progress::with_mode(false, Theme::plain(), 0, 0)
    }

    /// An empty display on a screen of at least this size.
    pub fn with_mode(interactive: bool, theme: Theme, width: usize, height: usize) -> (r: Progress)
        ensures
            r@ == empty_display(interactive, theme@, width, height),
            r@.wf(),
    {
        let r = Progress {
            interactive,
            theme,
            width: max_of(width, 20),
            height: max_of(height, 1),
            frame: 0,
            rows: Vec::new(),
            drawn: 0,
            cols: None,
            transcript: Vec::new(),
        };
        proof {
            assert(r@.rows =~= seq![]);
            assert(r@.transcript =~= seq![]);
        }
        r
    }

    /// A line above or below the rows. What is returned is to be printed.
    pub fn note(&mut self, line: &str) -> (r: String)
        ensures
            final(self)@ == (ProgressView {
                transcript: old(self)@.transcript.push(line@),
                ..old(self)@
            }),
            r@ == line@ + "\n"@,
    {
        let ghost before = self.transcript@;
        self.transcript.push(line.to_owned());
        proof {
            assert(text::texts(self.transcript@) =~= text::texts(before).push(line@));
        }
        let mut out = line.to_owned();
        out.append("\n");
        out
    }

    /// Add a step. What is returned is its index, and what to print.
    pub fn add(&mut self, word: &str, size: Option<(u16, u16)>) -> (r: (usize, String))
        requires
            old(self)@.wf(),
        ensures
            final(self)@ == old(self)@.pushed(
                fresh_row(RowKind::Step, seq![], word@, None, None),
                size,
            ),
            final(self)@.wf(),
            r.0 == old(self)@.rows.len(),
            r.1@ == old(self)@.push_text(
                fresh_row(RowKind::Step, seq![], word@, None, None),
                size,
            ),
    {
        let idx: usize = self.rows.len();
        let title = String::new();
        proof {
            assert(title@ =~= seq![]);
        }
        let text = self.push_row(
            Row {
                kind: RowKind::Step,
                title,
                word: word.to_owned(),
                detail: None,
                url: None,
                state: State::Pending,
            },
            size,
        );
        (idx, text)
    }

    /// Add a pull request. What is returned is its index, and what to print.
    pub fn add_pr(
        &mut self,
        title: &str,
        word: &str,
        detail: Option<String>,
        url: Option<String>,
        size: Option<(u16, u16)>,
    ) -> (r: (usize, String))
        requires
            old(self)@.wf(),
        ensures
            final(self)@ == old(self)@.pushed(
                fresh_row(RowKind::Pr, title@, word@, text::opt_text(detail), text::opt_text(url)),
                size,
            ),
            final(self)@.wf(),
            r.0 == old(self)@.rows.len(),
            r.1@ == old(self)@.push_text(
                fresh_row(RowKind::Pr, title@, word@, text::opt_text(detail), text::opt_text(url)),
                size,
            ),
    {
        let idx: usize = self.rows.len();
        let text = self.push_row(
            Row {
                kind: RowKind::Pr,
                title: title.to_owned(),
                word: word.to_owned(),
                detail,
                url,
                state: State::Pending,
            },
            size,
        );
        (idx, text)
    }

    fn push_row(&mut self, row: Row, size: Option<(u16, u16)>) -> (r: String)
        requires
            old(self)@.wf(),
        ensures
            final(self)@ == old(self)@.pushed(row@, size),
            final(self)@.wf(),
            r@ == old(self)@.push_text(row@, size),
    {
        let ghost before = self.rows@;
        self.rows.push(row);
        proof {
            assert(row_views(self.rows@) =~= row_views(before).push(row@));
        }
        self.recompute_cols();
        if self.interactive && self.would_overflow() {
            self.degrade_to_streaming()
        } else {
            self.redraw(size)
        }
    }

    /// Add a step that is finished already. What is returned is to be printed.
    pub fn add_resolved(&mut self, mark: Mark, word: &str, size: Option<(u16, u16)>) -> (r: String)
        requires
            old(self)@.wf(),
        ensures
            ({
                let row = fresh_row(RowKind::Step, seq![], word@, None, None);
                let p = old(self)@.pushed(row, size);
                let idx = old(self)@.rows.len() as int;
                &&& final(self)@ == p.marked(idx, mark, None).redrawn(size)
                &&& r@ == old(self)@.push_text(row, size) + p.resolve_text(idx, mark, None, size)
            }),
            final(self)@.wf(),
    {
        let (idx, mut text) = self.add(word, size);
        let more = self.resolve(idx, mark, None, size);
        text.append(more.as_str());
        text
    }

    /// Add a pull request that is finished already. What is returned is to be
    /// printed.
    pub fn add_resolved_pr(
        &mut self,
        title: &str,
        mark: Mark,
        word: &str,
        url: Option<String>,
        size: Option<(u16, u16)>,
    ) -> (r: String)
        requires
            old(self)@.wf(),
        ensures
            ({
                let row = fresh_row(RowKind::Pr, title@, word@, None, text::opt_text(url));
                let p = old(self)@.pushed(row, size);
                let idx = old(self)@.rows.len() as int;
                &&& final(self)@ == p.marked(idx, mark, None).redrawn(size)
                &&& r@ == old(self)@.push_text(row, size) + p.resolve_text(idx, mark, None, size)
            }),
            final(self)@.wf(),
    {
        let (idx, mut text) = self.add_pr(title, word, None, url, size);
        let more = self.resolve(idx, mark, None, size);
        text.append(more.as_str());
        text
    }

    /// Start row `idx`. What is returned is to be printed.
    pub fn activate(&mut self, idx: usize, word: &str, size: Option<(u16, u16)>) -> (r: String)
        requires
            old(self)@.wf(),
            idx < old(self)@.rows.len(),
        ensures
            ({
                let row = RowView {
                    word: word@,
                    state: State::Active,
                    ..old(self)@.rows[idx as int]
                };
                let p = old(self)@.with_rows(old(self)@.rows.update(idx as int, row));
                &&& final(self)@ == p.redrawn(size)
                &&& r@ == p.redraw_text(size)
            }),
            final(self)@.wf(),
    {
        let ghost before = self.rows@;
        let row = Row {
            kind: self.rows[idx].kind,
            title: self.rows[idx].title.clone(),
            word: word.to_owned(),
            detail: text::clone_opt(&self.rows[idx].detail),
            url: text::clone_opt(&self.rows[idx].url),
            state: State::Active,
        };
        self.rows.set(idx, row);
        proof {
            assert(row_views(self.rows@) =~= row_views(before).update(idx as int, row@));
        }
        self.recompute_cols();
        self.redraw(size)
    }

    /// The spinner of row `idx` goes on by one glyph, and the row may get
    /// another word. What is returned is to be printed.
    pub fn tick(&mut self, idx: usize, label: Option<String>, size: Option<(u16, u16)>) -> (r:
        String)
        requires
            old(self)@.wf(),
            idx < old(self)@.rows.len(),
        ensures
            ({
                let row = RowView {
                    word: match label {
                        Some(w) => w@,
                        None => old(self)@.rows[idx as int].word,
                    },
                    ..old(self)@.rows[idx as int]
                };
                let p = ProgressView {
                    frame: ((old(self)@.frame + 1) % 10) as usize,
                    ..old(self)@.with_rows(old(self)@.rows.update(idx as int, row))
                };
                &&& final(self)@ == p.redrawn(size)
                &&& r@ == p.redraw_text(size)
            }),
            final(self)@.wf(),
    {
        let ghost before = self.rows@;
        match label {
            Some(word) => {
                let row = Row {
                    kind: self.rows[idx].kind,
                    title: self.rows[idx].title.clone(),
                    word,
                    detail: text::clone_opt(&self.rows[idx].detail),
                    url: text::clone_opt(&self.rows[idx].url),
                    state: self.rows[idx].state,
                };
                self.rows.set(idx, row);
                self.recompute_cols();
                proof {
                    assert(row_views(self.rows@) =~= row_views(before).update(idx as int, row@));
                }
            },
            None => {
                proof {
                    assert(row_views(before).update(idx as int, row_views(before)[idx as int])
                        =~= row_views(before));
                }
            },
        }
        self.frame = (self.frame + 1) % FRAME_COUNT;
        self.redraw(size)
    }

    /// Leave the rows that are drawn as they are, and start anew below them.
    pub fn seal(&mut self)
        requires
            old(self)@.wf(),
        ensures
            final(self)@ == (ProgressView { rows: seq![], cols: None, drawn: 0, ..old(self)@ }),
            final(self)@.wf(),
    {
        self.rows.clear();
        self.cols = None;
        self.drawn = 0;
        proof {
            assert(row_views(self.rows@) =~= seq![]);
        }
    }

    /// Finish row `idx`, with another word where there is one. What is
    /// returned is to be printed.
    pub fn resolve(&mut self, idx: usize, mark: Mark, word: Option<&str>, size: Option<
        (u16, u16),
    >) -> (r: String)
        requires
            old(self)@.wf(),
            idx < old(self)@.rows.len(),
        ensures
            final(self)@ == old(self)@.marked(idx as int, mark, text::opt_str(word)).redrawn(size),
            final(self)@.wf(),
            r@ == old(self)@.resolve_text(idx as int, mark, text::opt_str(word), size),
    {
        let ghost before = self.rows@;
        let ghost lines_before = self.transcript@;
        let row = Row {
            kind: self.rows[idx].kind,
            title: self.rows[idx].title.clone(),
            word: match word {
                Some(w) => w.to_owned(),
                None => self.rows[idx].word.clone(),
            },
            detail: text::clone_opt(&self.rows[idx].detail),
            url: text::clone_opt(&self.rows[idx].url),
            state: State::Resolved(mark),
        };
        self.rows.set(idx, row);
        proof {
            assert(row_views(self.rows@) =~= row_views(before).update(idx as int, row@));
        }
        self.recompute_cols();
        let line = row_line(&self.rows[idx], self.frame, None);
        self.transcript.push(line.clone());
        proof {
            assert(text::texts(self.transcript@) =~= text::texts(lines_before).push(line@));
        }
        if self.interactive {
            self.redraw(size)
        } else {
            let mut out = line;
            out.append("\n");
            out
        }
    }

    /// Give row `idx` the address of its pull request, where there is one.
    pub fn set_url(&mut self, idx: usize, url: Option<String>)
        requires
            old(self)@.wf(),
            idx < old(self)@.rows.len(),
        ensures
            final(self)@ == (match url {
                Some(u) => old(self)@.with_rows(
                    old(self)@.rows.update(
                        idx as int,
                        RowView { url: Some(u@), ..old(self)@.rows[idx as int] },
                    ),
                ),
                None => old(self)@,
            }),
            final(self)@.wf(),
    {
        let ghost before = self.rows@;
        if url.is_some() {
            let row = Row {
                kind: self.rows[idx].kind,
                title: self.rows[idx].title.clone(),
                word: self.rows[idx].word.clone(),
                detail: text::clone_opt(&self.rows[idx].detail),
                url,
                state: self.rows[idx].state,
            };
            self.rows.set(idx, row);
            proof {
                assert(row_views(self.rows@) =~= row_views(before).update(idx as int, row@));
            }
            self.recompute_cols();
        }
    }

    /// The last line. What is returned is to be printed, and the transcript.
    pub fn finish(self, line: &str) -> (r: (String, Vec<String>))
        ensures
            r.0@ == line@ + "\n"@,
            text::texts(r.1@) == self@.transcript.push(line@),
    {
        let mut p = self;
        let out = p.note(line);
        (out, p.transcript)
    }

    fn would_overflow(&self) -> (r: bool)
        requires
            self@.height >= 1,
        ensures
            r == self@.overflows(),
    {
        self.rows.len() > self.height - 1
    }

    fn way_up(&self, end: &str) -> (r: String)
        ensures
            r@ == self@.rewind(end@),
    {
        let mut buf = String::new();
        proof {
            assert(buf@ =~= seq![]);
        }
        if self.drawn > 0 {
            buf = "\x1b[".to_owned();
            buf.append(text::decimal_of(self.drawn as u64).as_str());
            buf.append(end);
        }
        buf
    }

    fn degrade_to_streaming(&mut self) -> (r: String)
        ensures
            final(self)@ == old(self)@.degraded(),
            r@ == old(self)@.degrade_text(),
    {
        let head = self.way_up("A\r\x1b[0J");
        let mut out = String::new();
        let ghost all = self@.rows;
        let mut i: usize = 0;
        proof {
            assert(all.take(0) =~= seq![]);
            assert(out@ =~= seq![]);
        }
        while i < self.rows.len()
            invariant
                i <= self.rows.len(),
                all == self@.rows,
                out@ == self@.finished(all.take(i as int)),
            decreases self.rows.len() - i,
        {
            proof {
                assert(all.take(i + 1).drop_last() =~= all.take(i as int));
                assert(all.take(i + 1).last() == self.rows@[i as int]@);
            }
            let resolved: bool = match self.rows[i].state {
                State::Resolved(_) => true,
                _ => false,
            };
            if resolved {
                out.append(
                    render_row(
                        &self.rows[i],
                        self.frame,
                        self.width,
                        &self.theme,
                        self.cols,
                    ).as_str(),
                );
                out.append("\n");
            }
            i += 1;
        }
        proof {
            assert(all.take(i as int) =~= all);
        }
        self.interactive = false;
        self.drawn = 0;
        let mut buf = head;
        buf.append(out.as_str());
        buf
    }

    fn redraw(&mut self, size: Option<(u16, u16)>) -> (r: String)
        ensures
            final(self)@ == old(self)@.redrawn(size),
            r@ == old(self)@.redraw_text(size),
    {
        if !self.interactive {
            let r = String::new();
            proof {
                assert(r@ =~= seq![]);
            }
            return r;
        }
        let head = self.way_up("A");
        if let Some((w, h)) = size {
            self.width = max_of(w as usize, 20);
            self.height = max_of(h as usize, 1);
        }
        let mut out = String::new();
        let ghost all = self@.rows;
        let ghost p = self@;
        let mut i: usize = 0;
        proof {
            assert(all.take(0) =~= seq![]);
            assert(out@ =~= seq![]);
        }
        while i < self.rows.len()
            invariant
                i <= self.rows.len(),
                p == self@,
                all == p.rows,
                out@ == p.block(all.take(i as int)),
            decreases self.rows.len() - i,
        {
            proof {
                assert(all.take(i + 1).drop_last() =~= all.take(i as int));
                assert(all.take(i + 1).last() == self.rows@[i as int]@);
            }
            out.append("\r\x1b[2K");
            out.append(
                render_row(
                    &self.rows[i],
                    self.frame,
                    self.width,
                    &self.theme,
                    self.cols,
                ).as_str(),
            );
            out.append("\n");
            i += 1;
        }
        proof {
            assert(all.take(i as int) =~= all);
        }
        self.drawn = self.rows.len();
        let mut buf = head;
        buf.append(out.as_str());
        buf
    }

    fn recompute_cols(&mut self)
        ensures
            final(self)@ == (ProgressView { cols: cols_of(old(self)@.rows), ..old(self)@ }),
            final(self).rows == old(self).rows,
            final(self).transcript == old(self).transcript,
    {
        let mut cols: Option<(usize, usize, usize)> = None;
        let ghost all = self@.rows;
        let mut i: usize = 0;
        proof {
            assert(all.take(0) =~= seq![]);
        }
        while i < self.rows.len()
            invariant
                i <= self.rows.len(),
                all == self@.rows,
                widths(cols) == cols_of(all.take(i as int)),
            decreases self.rows.len() - i,
        {
            let row = &self.rows[i];
            proof {
                assert(all.take(i + 1).drop_last() =~= all.take(i as int));
                assert(all.take(i + 1).last() == row@);
            }
            if row.kind == RowKind::Pr {
                let (a, b, c): (usize, usize, usize) = match cols {
                    Some(w) => w,
                    None => (0, 0, 0),
                };
                let n: usize = row.word.as_str().unicode_len();
                let tag_len: usize = if n <= usize::MAX - 2 {
                    n + 2
                } else {
                    usize::MAX
                };
                cols = Some(
                    (
                        max_of(a, tag_len),
                        max_of(b, char_count(&row.url)),
                        max_of(c, char_count(&row.detail)),
                    ),
                );
            }
            i += 1;
        }
        proof {
            assert(all.take(i as int) =~= all);
        }
        self.cols = cols;
    }
}

/// A display without rows.
pub open spec fn empty_display(
    interactive: bool,
    theme: ThemeView,
    width: usize,
    height: usize,
) -> ProgressView {
    ProgressView {
        interactive,
        theme,
        width: greater(width as nat, 20) as usize,
        height: greater(height as nat, 1) as usize,
        frame: 0,
        rows: seq![],
        drawn: 0,
        cols: None,
        transcript: seq![],
    }
}

// ---------------------------------------------------------------------------
// Laws
// ---------------------------------------------------------------------------

/// A display that is still drawn in place after a row was added fits on the
/// screen, with a line for the cursor, and the way back up over the last
/// drawing stayed on the screen.
pub proof fn law_live_rows_fit(p: ProgressView, row: RowView, size: Option<(u16, u16)>)
    requires
        p.wf(),
    ensures
        p.pushed(row, size).interactive ==> p.rows.len() + 1 < p.height && p.drawn < p.height,
        !p.interactive ==> !p.pushed(row, size).interactive && p.push_text(row, size) == Seq::<
            char,
        >::empty(),
{
}

/// Away from a terminal, what is printed of a row is its line of the
/// transcript, when it is finished and not before. The line is never cut.
pub proof fn law_streaming_prints_the_transcript(
    p: ProgressView,
    idx: int,
    mark: Mark,
    word: Option<Seq<char>>,
    size: Option<(u16, u16)>,
)
    requires
        p.wf(),
        !p.interactive,
        0 <= idx < p.rows.len(),
    ensures
        p.resolve_text(idx, mark, word, size) == p.marked(idx, mark, word).transcript.last() + "\n"@,
        p.marked(idx, mark, word).transcript.len() == p.transcript.len() + 1,
        p.marked(idx, mark, word).transcript.last() == plain_row(
            p.marked(idx, mark, word).rows[idx],
            p.frame,
            None,
        ),
        p.redraw_text(size) == Seq::<char>::empty(),
{
}

/// Whether a text holds no tab.
pub open spec fn untabbed(s: Seq<char>) -> bool {
    forall|i: int| 0 <= i < s.len() ==> #[trigger] s[i] != '\t'
}

proof fn lemma_split_first(a: Seq<char>, rest: Seq<char>)
    requires
        untabbed(a),
    ensures
        text::split(a + "\t"@ + rest, '\t') == seq![a] + text::split(rest, '\t'),
{
    reveal_strlit("\t");
    let s = a + "\t"@ + rest;
    let k = a.len() as int;
    assert forall|i: int| 0 <= i < k implies text::is_not('\t')(#[trigger] s[i]) by {
        assert(s[i] == a[i]);
    }
    assert(s[k] == '\t');
    text::lemma_span_is(s, text::is_not('\t'), k);
    assert(s.take(k) =~= a);
    assert(s.skip(k + 1) =~= rest);
}

proof fn lemma_glyph_is_one_char(state: State, frame: usize)
    ensures
        glyph(state, frame).len() == 1,
        untabbed(glyph(state, frame)),
{
    reveal_strlit("⠋");
    reveal_strlit("⠙");
    reveal_strlit("⠹");
    reveal_strlit("⠸");
    reveal_strlit("⠼");
    reveal_strlit("⠴");
    reveal_strlit("⠦");
    reveal_strlit("⠧");
    reveal_strlit("⠇");
    reveal_strlit("⠏");
    reveal_strlit("◦");
    reveal_strlit("✓");
    reveal_strlit("·");
}

/// Between tabs, a pull request always has four fields: the status, the
/// detail, the address and the title. A detail or an address that is not there
/// leaves an empty field.
pub proof fn law_four_fields(row: RowView, frame: usize)
    requires
        row.kind == RowKind::Pr,
        untabbed(row.word),
        untabbed(row.title),
        untabbed(text_or_empty(row.detail)),
        untabbed(text_or_empty(row.url)),
    ensures
        text::split(plain_row(row, frame, None), '\t') == seq![
            "    "@ + glyph(row.state, frame) + " "@ + tag(row),
            text_or_empty(row.detail),
            text_or_empty(row.url),
            row.title,
        ],
{
    reveal_strlit("    ");
    reveal_strlit(" ");
    reveal_strlit("[");
    reveal_strlit("]");
    reveal_strlit("\t");
    let g = glyph(row.state, frame);
    lemma_glyph_is_one_char(row.state, frame);
    let head = "    "@ + g + " "@ + tag(row);
    let detail = text_or_empty(row.detail);
    let url = text_or_empty(row.url);
    let c = url + "\t"@ + row.title;
    let b = detail + "\t"@ + c;
    assert(untabbed(head));
    assert(plain_row(row, frame, None) =~= head + "\t"@ + b);
    lemma_split_first(head, b);
    lemma_split_first(detail, c);
    lemma_split_first(url, row.title);
    assert forall|i: int| 0 <= i < row.title.len() implies text::is_not('\t')(#[trigger] row.title[i]) by {}
    text::lemma_span_is(row.title, text::is_not('\t'), row.title.len() as int);
    assert(text::split(row.title, '\t') =~= seq![row.title]);
    assert(text::split(plain_row(row, frame, None), '\t') =~= seq![head, detail, url, row.title]);
}

proof fn lemma_cols_cover(rows: Seq<RowView>, i: int)
    requires
        0 <= i < rows.len(),
        rows[i].kind == RowKind::Pr,
    ensures
        cols_of(rows) matches Some((a, b, c)) && a >= tag_width(rows[i]) && b >= text_or_empty(
            rows[i].url,
        ).len() && c >= text_or_empty(rows[i].detail).len(),
    decreases rows.len(),
{
    if i < rows.len() - 1 {
        assert(rows.drop_last()[i] == rows[i]);
        lemma_cols_cover(rows.drop_last(), i);
    }
}

/// The place of the title in a row that is padded to the widths of the
/// columns.
pub open spec fn title_place(cols: (nat, nat, nat)) -> nat {
    let (a, b, c) = cols;
    if c > 0 {
        6 + a + 2 + c + 2 + b + 2
    } else {
        6 + a + 2 + b + 2
    }
}

/// The titles of the pull requests of a display stand below each other,
/// whatever the words, the details and the addresses are.
pub proof fn law_titles_line_up(rows: Seq<RowView>, i: int, frame: usize)
    requires
        0 <= i < rows.len(),
        rows[i].kind == RowKind::Pr,
        rows[i].word.len() + 2 <= usize::MAX,
    ensures
        cols_of(rows) is Some,
        plain_row(rows[i], frame, cols_of(rows)).skip(title_place(cols_of(rows)->0) as int)
            == rows[i].title,
        plain_row(rows[i], frame, cols_of(rows)).len() == title_place(cols_of(rows)->0)
            + rows[i].title.len(),
{
    reveal_strlit("    ");
    reveal_strlit("  ");
    reveal_strlit(" ");
    reveal_strlit("[");
    reveal_strlit("]");
    let row = rows[i];
    lemma_cols_cover(rows, i);
    lemma_glyph_is_one_char(row.state, frame);
    let (a, b, c) = cols_of(rows)->0;
    let line = plain_row(row, frame, cols_of(rows));
    assert(text::pad_right(tag(row), a).len() == a);
    assert(text::pad_right(text_or_empty(row.url), b).len() == b);
    assert(text::pad_right(text_or_empty(row.detail), c).len() == c);
    assert(line.skip(title_place((a, b, c)) as int) =~= row.title);
}

/// The mark of a row tells its state: a step that did something is checked, and
/// one that had nothing to do or was merged before is only dotted.
pub proof fn law_glyph_tells_the_state(frame: usize)
    ensures
        glyph(State::Pending, frame) == "◦"@,
        glyph(State::Resolved(Mark::Done), frame) == "✓"@,
        glyph(State::Resolved(Mark::Noop), frame) == "·"@,
        glyph(State::Resolved(Mark::Merged), frame) == "·"@,
        glyph(State::Active, frame) == frame_text((frame % 10) as usize),
        frame_text(0) == "⠋"@,
        frame_text(1) == "⠙"@,
        frame_text(2) == "⠹"@,
        frame_text(3) == "⠸"@,
        frame_text(4) == "⠼"@,
        frame_text(5) == "⠴"@,
        frame_text(6) == "⠦"@,
        frame_text(7) == "⠧"@,
        frame_text(8) == "⠇"@,
        frame_text(9) == "⠏"@,
{
}

/// The color of a row tells its state.
pub proof fn law_style_tells_the_state(theme: ThemeView)
    ensures
        style(State::Pending, theme) == theme.dim,
        style(State::Active, theme) == theme.cyan,
        style(State::Resolved(Mark::Done), theme) == theme.green,
        style(State::Resolved(Mark::Noop), theme) == theme.dim,
        style(State::Resolved(Mark::Merged), theme) == theme.magenta,
{
}

/// A step is shown by its mark and its word; a pull request by its mark, its word
/// in brackets, its detail, its address and its title, in columns on a screen and
/// between tabs in a transcript.
pub proof fn law_row_reads(row: RowView, frame: usize, a: nat, b: nat, c: nat)
    ensures
        ({
            let g = glyph(row.state, frame);
            let url = match row.url {
                Some(u) => u,
                None => seq![],
            };
            let detail = match row.detail {
                Some(d) => d,
                None => seq![],
            };
            let start = "    "@ + g + " "@;
            let word = "["@ + row.word + "]"@;
            &&& row.kind == RowKind::Step ==> plain_row(row, frame, None) == "  "@ + g + " "@
                + row.word && plain_row(row, frame, Some((a, b, c))) == "  "@ + g + " "@ + row.word
            &&& row.kind == RowKind::Pr ==> plain_row(row, frame, None) == start + word + "\t"@
                + detail + "\t"@ + url + "\t"@ + row.title
            &&& row.kind == RowKind::Pr && c > 0 ==> plain_row(row, frame, Some((a, b, c))) == start
                + text::pad_right(word, a) + ("  "@ + text::pad_right(detail, c)) + "  "@
                + text::pad_right(url, b) + "  "@ + row.title
            &&& row.kind == RowKind::Pr && c == 0 ==> plain_row(row, frame, Some((a, b, c)))
                == start + text::pad_right(word, a) + "  "@ + text::pad_right(url, b) + "  "@
                + row.title
        }),
{
    if row.kind == RowKind::Pr && c == 0 {
        let start = "    "@ + glyph(row.state, frame) + " "@ + text::pad_right(tag(row), a);
        assert(start + Seq::<char>::empty() =~= start);
    }
}

/// A tab goes to the next multiple of eight columns, and any other character
/// takes its own width.
pub proof fn law_columns_add_up(s: Seq<char>, c: char)
    ensures
        columns(seq![]) == 0,
        c != '\t' ==> columns(s.push(c)) == columns(s) + outside::width_of(c),
        columns(s.push('\t')) % 8 == 0,
        columns(s) < columns(s.push('\t')) <= columns(s) + 8,
{
    assert(s.push(c).drop_last() =~= s);
    assert(s.push('\t').drop_last() =~= s);
    let n = columns(s);
    assert((n / 8 + 1) * 8 % 8 == 0) by (nonlinear_arith);
    assert(n < (n / 8 + 1) * 8 <= n + 8) by (nonlinear_arith);
}

/// A text that fits is left alone. Any other one is cut where the next character
/// would leave no column for the ellipsis.
pub proof fn law_truncation_keeps_what_fits(s: Seq<char>, max: nat) -> (k: int)
    requires
        max >= 1,
    ensures
        columns(s) <= max ==> truncated(s, max) == s,
        columns(s) > max ==> 0 <= k < s.len() && truncated(s, max) == s.take(k).push('…')
            && columns(s.take(k)) <= max - 1 && columns(s.take(k + 1)) > max - 1,
{
    if columns(s) > max {
        lemma_kept_is_longest(s, (max - 1) as nat)
    } else {
        0
    }
}

proof fn lemma_kept_is_longest(s: Seq<char>, budget: nat) -> (k: int)
    requires
        columns(s) > budget,
    ensures
        0 <= k < s.len(),
        kept(s, budget) == s.take(k),
        columns(s.take(k)) <= budget,
        columns(s.take(k + 1)) > budget,
    decreases s.len(),
{
    let t = s.drop_last();
    if columns(t) <= budget {
        assert(s.take(s.len() - 1) =~= t);
        assert(s.take(s.len() as int) =~= s);
        assert(kept(t, budget) == t);
        s.len() - 1
    } else {
        let k = lemma_kept_is_longest(t, budget);
        assert(t.take(k) =~= s.take(k));
        assert(t.take(k + 1) =~= s.take(k + 1));
        k
    }
}

/// The columns are as wide as the widest word in brackets, address and detail of
/// a pull request among the rows, and no wider; there are none without a pull
/// request.
pub proof fn law_columns_are_as_wide_as_needed(rows: Seq<RowView>)
    requires
        forall|i: int| 0 <= i < rows.len() ==> (#[trigger] rows[i]).word.len() + 2 <= usize::MAX,
    ensures
        cols_of(rows) is None <==> forall|i: int|
            0 <= i < rows.len() ==> (#[trigger] rows[i]).kind == RowKind::Step,
        cols_of(rows) matches Some((a, b, c)) ==> {
            &&& forall|i: int|
                0 <= i < rows.len() && (#[trigger] rows[i]).kind == RowKind::Pr ==> rows[i].word.len()
                    + 2 <= a && (rows[i].url is Some ==> rows[i].url->0.len() <= b) && (
                rows[i].detail is Some ==> rows[i].detail->0.len() <= c)
            &&& exists|i: int|
                0 <= i < rows.len() && (#[trigger] rows[i]).kind == RowKind::Pr
                    && rows[i].word.len() + 2 == a
            &&& b > 0 ==> exists|i: int|
                0 <= i < rows.len() && (#[trigger] rows[i]).kind == RowKind::Pr
                    && rows[i].url is Some && rows[i].url->0.len() == b
            &&& c > 0 ==> exists|i: int|
                0 <= i < rows.len() && (#[trigger] rows[i]).kind == RowKind::Pr
                    && rows[i].detail is Some && rows[i].detail->0.len() == c
        },
    decreases rows.len(),
{
    if rows.len() > 0 {
        let t = rows.drop_last();
        let n = t.len() as int;
        let row = rows.last();
        assert(rows[n] == row);
        assert forall|i: int| 0 <= i < n implies #[trigger] t[i] == rows[i] by {}
        law_columns_are_as_wide_as_needed(t);
        if let Some((a, b, c)) = cols_of(t) {
            let i = choose|i: int|
                0 <= i < t.len() && (#[trigger] t[i]).kind == RowKind::Pr && t[i].word.len() + 2
                    == a;
            assert(rows[i].kind == RowKind::Pr);
            if b > 0 {
                let j = choose|i: int|
                    0 <= i < t.len() && (#[trigger] t[i]).kind == RowKind::Pr && t[i].url is Some
                        && t[i].url->0.len() == b;
                assert(rows[j].kind == RowKind::Pr);
            }
            if c > 0 {
                let j = choose|i: int|
                    0 <= i < t.len() && (#[trigger] t[i]).kind == RowKind::Pr && t[i].detail is Some
                        && t[i].detail->0.len() == c;
                assert(rows[j].kind == RowKind::Pr);
            }
        }
        if cols_of(rows) is None {
            assert forall|i: int| 0 <= i < rows.len() implies (#[trigger] rows[i]).kind
                == RowKind::Step by {
                if i < n {
                    assert(t[i].kind == RowKind::Step);
                }
            }
        } else if row.kind == RowKind::Pr {
            assert(rows[n].kind == RowKind::Pr);
        } else {
            assert(exists|i: int| 0 <= i < t.len() && (#[trigger] t[i]).kind == RowKind::Pr);
            let i = choose|i: int| 0 <= i < t.len() && (#[trigger] t[i]).kind == RowKind::Pr;
            assert(rows[i].kind == RowKind::Pr);
        }
        if let Some((a, b, c)) = cols_of(rows) {
            assert forall|i: int|
                0 <= i < rows.len() && (#[trigger] rows[i]).kind == RowKind::Pr implies rows[i].word.len()
                + 2 <= a && (rows[i].url is Some ==> rows[i].url->0.len() <= b) && (
            rows[i].detail is Some ==> rows[i].detail->0.len() <= c) by {
                if i < n {
                    assert(t[i].kind == RowKind::Pr);
                }
            }
        }
    }
}

/// Without colors a row is shown plain. With them its mark has the color of its
/// state, that of a pull request its word too, and its detail is dimmed.
pub proof fn law_colors_follow_the_state(
    row: RowView,
    frame: usize,
    width: nat,
    theme: ThemeView,
    cols: Option<(nat, nat, nat)>,
)
    ensures
        ({
            let plain = truncated(plain_row(row, frame, cols), width);
            let g = glyph(row.state, frame);
            let s = style(row.state, theme);
            let word = "["@ + row.word + "]"@;
            let marked = text::replace_first(plain, g, s + g + theme.reset);
            let worded = text::replace_first(marked, word, s + word + theme.reset);
            &&& !theme.enabled ==> rendered_row(row, frame, width, theme, cols) == plain
            &&& theme.enabled && row.kind == RowKind::Step ==> rendered_row(
                row,
                frame,
                width,
                theme,
                cols,
            ) == marked
            &&& theme.enabled && row.kind == RowKind::Pr && (row.detail is None
                || row.detail->0.len() == 0) ==> rendered_row(row, frame, width, theme, cols)
                == worded
            &&& theme.enabled && row.kind == RowKind::Pr && row.detail is Some
                && row.detail->0.len() > 0 ==> rendered_row(row, frame, width, theme, cols)
                == text::replace_first(
                worded,
                row.detail->0,
                theme.dim + row.detail->0 + theme.reset,
            )
        }),
{
}

/// The display is drawn again over what it showed: the cursor goes up as many
/// lines as were drawn, and every row clears its line and is written on it.
pub proof fn law_display_is_drawn_in_place(p: ProgressView, size: Option<(u16, u16)>)
    ensures
        ({
            let q = p.resized(size);
            let lines = p.rows.map_values(
                |r: RowView|
                    "\r\x1b[2K"@ + rendered_row(r, q.frame, q.width as nat, q.theme, q.cols)
                        + "\n"@,
            );
            &&& !p.interactive ==> p.redraw_text(size).len() == 0 && p.redrawn(size) == p
            &&& p.interactive && p.drawn > 0 ==> p.redraw_text(size) == "\x1b["@ + text::decimal(
                p.drawn as nat,
            ) + "A"@ + text::concat(lines)
            &&& p.interactive && p.drawn == 0 ==> p.redraw_text(size) == text::concat(lines)
            &&& p.interactive && p.rows.len() <= usize::MAX ==> p.redrawn(size).drawn
                == p.rows.len() && p.redrawn(size).rows == p.rows
        }),
{
    let q = p.resized(size);
    lemma_block_is_concat(q, p.rows);
    if p.interactive && p.drawn == 0 {
        assert(Seq::<char>::empty() + q.block(p.rows) =~= q.block(p.rows));
    }
}

proof fn lemma_block_is_concat(p: ProgressView, rows: Seq<RowView>)
    ensures
        p.block(rows) == text::concat(
            rows.map_values(
                |r: RowView|
                    "\r\x1b[2K"@ + rendered_row(r, p.frame, p.width as nat, p.theme, p.cols)
                        + "\n"@,
            ),
        ),
    decreases rows.len(),
{
    let g = |r: RowView|
        "\r\x1b[2K"@ + rendered_row(r, p.frame, p.width as nat, p.theme, p.cols) + "\n"@;
    let lines = rows.map_values(g);
    if rows.len() > 0 {
        lemma_block_is_concat(p, rows.drop_last());
        assert(lines.drop_last() =~= rows.drop_last().map_values(g));
        assert(p.block(rows) =~= p.block(rows.drop_last()) + g(rows.last()));
    }
}

/// Giving up drawing in place wipes the drawing and leaves the finished rows,
/// each on a line.
pub proof fn law_finished_rows_stay(p: ProgressView)
    ensures
        ({
            let lines = p.rows.filter(|r: RowView| r.state is Resolved).map_values(
                |r: RowView| rendered_row(r, p.frame, p.width as nat, p.theme, p.cols) + "\n"@,
            );
            &&& p.drawn > 0 ==> p.degrade_text() == "\x1b["@ + text::decimal(p.drawn as nat)
                + "A\r\x1b[0J"@ + text::concat(lines)
            &&& p.drawn == 0 ==> p.degrade_text() == text::concat(lines)
            &&& !p.degraded().interactive && p.degraded().drawn == 0 && p.degraded().rows == p.rows
                && p.degraded().transcript == p.transcript
        }),
{
    lemma_finished_is_concat(p, p.rows);
    if p.drawn == 0 {
        assert(Seq::<char>::empty() + p.finished(p.rows) =~= p.finished(p.rows));
    }
}

proof fn lemma_finished_is_concat(p: ProgressView, rows: Seq<RowView>)
    ensures
        p.finished(rows) == text::concat(
            rows.filter(|r: RowView| r.state is Resolved).map_values(
                |r: RowView| rendered_row(r, p.frame, p.width as nat, p.theme, p.cols) + "\n"@,
            ),
        ),
    decreases rows.len(),
{
    reveal(Seq::filter);
    let f = |r: RowView| r.state is Resolved;
    let g = |r: RowView| rendered_row(r, p.frame, p.width as nat, p.theme, p.cols) + "\n"@;
    let lines = rows.filter(f).map_values(g);
    if rows.len() > 0 {
        let t = rows.drop_last();
        lemma_finished_is_concat(p, t);
        if f(rows.last()) {
            assert(lines =~= t.filter(f).map_values(g).push(g(rows.last())));
            assert(lines.drop_last() =~= t.filter(f).map_values(g));
            assert(p.finished(rows) =~= p.finished(t) + g(rows.last()));
        }
    } else {
        assert(lines =~= seq![]);
    }
}

/// Finishing a row changes that row alone: its state, and its word where one is
/// given. The transcript gets its line.
pub proof fn law_finished_row_is_marked(
    p: ProgressView,
    idx: int,
    mark: Mark,
    word: Option<Seq<char>>,
    j: int,
)
    requires
        0 <= idx < p.rows.len(),
        0 <= j < p.rows.len(),
    ensures
        ({
            let q = p.marked(idx, mark, word);
            let row = q.rows[idx];
            &&& q.rows.len() == p.rows.len()
            &&& row.state == State::Resolved(mark)
            &&& word is Some ==> row.word == word->0
            &&& word is None ==> row.word == p.rows[idx].word
            &&& row.title == p.rows[idx].title && row.kind == p.rows[idx].kind && row.url
                == p.rows[idx].url && row.detail == p.rows[idx].detail
            &&& j != idx ==> q.rows[j] == p.rows[j]
            &&& q.transcript == p.transcript.push(plain_row(row, p.frame, None))
            &&& q.cols == cols_of(q.rows)
            &&& q.interactive == p.interactive && q.drawn == p.drawn && q.width == p.width
                && q.height == p.height && q.frame == p.frame && q.theme == p.theme
        }),
{
}

/// A new row is added at the end. The display is drawn in place only as long as
/// its rows leave a line of the screen free.
pub proof fn law_new_row_is_added_at_the_end(
    p: ProgressView,
    row: RowView,
    size: Option<(u16, u16)>,
)
    requires
        p.rows.len() < usize::MAX,
        p.height >= 1,
    ensures
        ({
            let q = p.pushed(row, size);
            &&& q.rows == p.rows.push(row)
            &&& q.cols == cols_of(p.rows.push(row))
            &&& q.interactive <==> p.interactive && p.rows.len() + 1 < p.height
            &&& q.interactive ==> q.drawn == p.rows.len() + 1
            &&& p.interactive && !q.interactive ==> q.drawn == 0
            &&& q.transcript == p.transcript
        }),
{
}

/// The display never counts on less than twenty columns and one line, and keeps
/// its size where none is known.
pub proof fn law_size_has_a_floor(p: ProgressView, w: u16, h: u16)
    ensures
        p.resized(None) == p,
        p.resized(Some((w, h))).width == (if w >= 20 {
            w as int
        } else {
            20
        }),
        p.resized(Some((w, h))).height == (if h >= 1 {
            h as int
        } else {
            1
        }),
        p.resized(Some((w, h))).rows == p.rows,
        p.resized(Some((w, h))).drawn == p.drawn,
{
}

/// A row starts out pending.
pub proof fn law_fresh_rows_are_pending(
    kind: RowKind,
    title: Seq<char>,
    word: Seq<char>,
    detail: Option<Seq<char>>,
    url: Option<Seq<char>>,
)
    ensures
        ({
            let r = fresh_row(kind, title, word, detail, url);
            r.state == State::Pending && r.kind == kind && r.title == title && r.word == word
                && r.detail == detail && r.url == url
        }),
{
}

/// A display starts empty, and without a screen it has no colors.
pub proof fn law_display_starts_empty(
    interactive: bool,
    theme: ThemeView,
    width: usize,
    height: usize,
)
    ensures
        ({
            let p = empty_display(interactive, theme, width, height);
            &&& p.rows.len() == 0 && p.transcript.len() == 0 && p.drawn == 0 && p.frame == 0
            &&& p.cols is None && p.interactive == interactive && p.theme == theme
            &&& p.width == (if width >= 20 {
                width
            } else {
                20
            })
            &&& p.height == (if height >= 1 {
                height
            } else {
                1
            })
        }),
        !no_colors().enabled,
        no_colors().dim.len() == 0,
        no_colors().cyan.len() == 0,
        no_colors().green.len() == 0,
        no_colors().magenta.len() == 0,
        no_colors().reset.len() == 0,
{
}

/// A note is printed and kept, and the rows stay as they are.
pub proof fn law_note_is_kept()
    ensures
        forall|p: &mut Progress, line: &str, r: String| #[trigger]
            call_ensures(Progress::note, (p, line), r) ==> {
                &&& final(p)@.transcript == (*p)@.transcript.push(line@)
                &&& final(p)@.rows == (*p)@.rows
                &&& final(p)@.interactive == (*p)@.interactive
                &&& r@ == line@ + "\n"@
            },
{
}

/// A new step is a row of its own at the end, which is pending; so is a new pull
/// request, with its title.
pub proof fn law_added_row_is_the_last()
    ensures
        forall|p: &mut Progress, word: &str, size: Option<(u16, u16)>, r: (usize, String)|
            #[trigger]
            call_ensures(Progress::add, (p, word, size), r) && (*p)@.wf() ==> {
                let row = final(p)@.rows.last();
                &&& r.0 == (*p)@.rows.len()
                &&& final(p)@.rows.len() == (*p)@.rows.len() + 1
                &&& final(p)@.rows.drop_last() == (*p)@.rows
                &&& row.kind == RowKind::Step && row.word == word@ && row.title.len() == 0
                &&& row.url is None && row.detail is None && row.state == State::Pending
                &&& final(p)@.transcript == (*p)@.transcript
            },
        forall|
            p: &mut Progress,
            title: &str,
            word: &str,
            detail: Option<String>,
            url: Option<String>,
            size: Option<(u16, u16)>,
            r: (usize, String),
        | #[trigger]
            call_ensures(Progress::add_pr, (p, title, word, detail, url, size), r) && (*p)@.wf()
                ==> {
                let row = final(p)@.rows.last();
                &&& r.0 == (*p)@.rows.len()
                &&& final(p)@.rows.len() == (*p)@.rows.len() + 1
                &&& final(p)@.rows.drop_last() == (*p)@.rows
                &&& row.kind == RowKind::Pr && row.word == word@ && row.title == title@
                &&& row.url is Some <==> url is Some
                &&& url is Some ==> row.url->0 == url->0@
                &&& row.detail is Some <==> detail is Some
                &&& detail is Some ==> row.detail->0 == detail->0@
                &&& row.state == State::Pending
                &&& final(p)@.transcript == (*p)@.transcript
            },
{
    assert forall|p: &mut Progress, word: &str, size: Option<(u16, u16)>, r: (usize, String)|
        #[trigger]
        call_ensures(Progress::add, (p, word, size), r) && (*p)@.wf() implies {
        let row = final(p)@.rows.last();
        &&& r.0 == (*p)@.rows.len()
        &&& final(p)@.rows.len() == (*p)@.rows.len() + 1
        &&& final(p)@.rows.drop_last() == (*p)@.rows
        &&& row.kind == RowKind::Step && row.word == word@ && row.title.len() == 0
        &&& row.url is None && row.detail is None && row.state == State::Pending
        &&& final(p)@.transcript == (*p)@.transcript
    } by {
        assert(final(p)@.rows.drop_last() =~= (*p)@.rows);
    }
    assert forall|
        p: &mut Progress,
        title: &str,
        word: &str,
        detail: Option<String>,
        url: Option<String>,
        size: Option<(u16, u16)>,
        r: (usize, String),
    | #[trigger]
        call_ensures(Progress::add_pr, (p, title, word, detail, url, size), r) && (*p)@.wf()
        implies {
        let row = final(p)@.rows.last();
        &&& r.0 == (*p)@.rows.len()
        &&& final(p)@.rows.len() == (*p)@.rows.len() + 1
        &&& final(p)@.rows.drop_last() == (*p)@.rows
        &&& row.kind == RowKind::Pr && row.word == word@ && row.title == title@
        &&& row.url is Some <==> url is Some
        &&& url is Some ==> row.url->0 == url->0@
        &&& row.detail is Some <==> detail is Some
        &&& detail is Some ==> row.detail->0 == detail->0@
        &&& row.state == State::Pending
        &&& final(p)@.transcript == (*p)@.transcript
    } by {
        assert(final(p)@.rows.drop_last() =~= (*p)@.rows);
    }
}

/// A row that starts is active with its new word, and the other rows stay as they
/// are.
pub proof fn law_started_row_is_active()
    ensures
        forall|p: &mut Progress, idx: usize, word: &str, size: Option<(u16, u16)>, r: String|
            #[trigger]
            call_ensures(Progress::activate, (p, idx, word, size), r) && idx < (*p)@.rows.len()
                ==> {
                let was = (*p)@.rows;
                let is = final(p)@.rows;
                &&& is.len() == was.len()
                &&& is[idx as int].state == State::Active
                &&& is[idx as int].word == word@
                &&& is[idx as int].title == was[idx as int].title
                &&& is[idx as int].url == was[idx as int].url
                &&& forall|j: int| 0 <= j < was.len() && j != idx ==> #[trigger] is[j] == was[j]
                &&& final(p)@.transcript == (*p)@.transcript
                &&& !(*p)@.interactive ==> r@.len() == 0
            },
{
}

/// A tick turns the spinner and may change the word of its row, but not its state.
pub proof fn law_tick_turns_the_spinner()
    ensures
        forall|
            p: &mut Progress,
            idx: usize,
            label: Option<String>,
            size: Option<(u16, u16)>,
            r: String,
        | #[trigger]
            call_ensures(Progress::tick, (p, idx, label, size), r) && (*p)@.wf() && idx
                < (*p)@.rows.len() ==> {
                let was = (*p)@.rows;
                let is = final(p)@.rows;
                &&& (*p)@.frame < 9 ==> final(p)@.frame == (*p)@.frame + 1
                &&& (*p)@.frame == 9 ==> final(p)@.frame == 0
                &&& is.len() == was.len()
                &&& is[idx as int].state == was[idx as int].state
                &&& label is Some ==> is[idx as int].word == label->0@
                &&& label is None ==> is[idx as int].word == was[idx as int].word
                &&& is[idx as int].title == was[idx as int].title
                &&& forall|j: int| 0 <= j < was.len() && j != idx ==> #[trigger] is[j] == was[j]
                &&& final(p)@.transcript == (*p)@.transcript
            },
{
}

/// A row that ends keeps its mark and stands in the transcript; without a new word
/// it keeps its own.
pub proof fn law_ended_row_is_recorded()
    ensures
        forall|
            p: &mut Progress,
            idx: usize,
            mark: Mark,
            word: Option<&str>,
            size: Option<(u16, u16)>,
            r: String,
        | #[trigger]
            call_ensures(Progress::resolve, (p, idx, mark, word, size), r) && idx
                < (*p)@.rows.len() ==> {
                let was = (*p)@.rows;
                let is = final(p)@.rows;
                &&& is.len() == was.len()
                &&& is[idx as int].state == State::Resolved(mark)
                &&& word is Some ==> is[idx as int].word == word->0@
                &&& word is None ==> is[idx as int].word == was[idx as int].word
                &&& is[idx as int].title == was[idx as int].title
                &&& is[idx as int].url == was[idx as int].url
                &&& forall|j: int| 0 <= j < was.len() && j != idx ==> #[trigger] is[j] == was[j]
                &&& final(p)@.transcript == (*p)@.transcript.push(
                    plain_row(is[idx as int], (*p)@.frame, None),
                )
                &&& !(*p)@.interactive ==> r@ == plain_row(is[idx as int], (*p)@.frame, None)
                    + "\n"@
            },
{
}

/// A sealed display starts anew below its rows; the transcript stays.
pub proof fn law_sealed_display_has_no_rows()
    ensures
        forall|p: &mut Progress| #[trigger]
            call_ensures(Progress::seal, (p,), ()) ==> {
                &&& final(p)@.rows.len() == 0
                &&& final(p)@.drawn == 0
                &&& final(p)@.transcript == (*p)@.transcript
                &&& final(p)@.interactive == (*p)@.interactive
            },
{
}

/// The address of a pull request is put on its row, and nothing else changes.
pub proof fn law_address_is_put_on_its_row()
    ensures
        forall|p: &mut Progress, idx: usize, url: Option<String>| #[trigger]
            call_ensures(Progress::set_url, (p, idx, url), ()) && idx < (*p)@.rows.len() ==> {
                let was = (*p)@.rows;
                let is = final(p)@.rows;
                &&& url is None ==> is == was
                &&& is.len() == was.len()
                &&& url is Some ==> is[idx as int].url == Some(url->0@)
                &&& is[idx as int].word == was[idx as int].word
                &&& is[idx as int].title == was[idx as int].title
                &&& is[idx as int].state == was[idx as int].state
                &&& forall|j: int| 0 <= j < was.len() && j != idx ==> #[trigger] is[j] == was[j]
                &&& final(p)@.transcript == (*p)@.transcript
            },
{
}

/// The last line ends the transcript.
pub proof fn law_last_line_ends_the_transcript(p: Progress, line: &str, r: (String, Vec<String>))
    requires
        call_ensures(Progress::finish, (p, line), r),
    ensures
        r.0@ == line@ + "\n"@,
        r.1@.len() == p@.transcript.len() + 1,
        r.1@[r.1@.len() - 1]@ == line@,
        forall|i: int| 0 <= i < p@.transcript.len() ==> (#[trigger] r.1@[i])@ == p@.transcript[i],
{
    let all = text::texts(r.1@);
    assert(all.len() == r.1@.len());
    assert(all[all.len() - 1] == r.1@[r.1@.len() - 1]@);
    assert forall|i: int| 0 <= i < p@.transcript.len() implies (#[trigger] r.1@[i])@
        == p@.transcript[i] by {
        assert(all[i] == r.1@[i]@);
    }
}

} // verus!
