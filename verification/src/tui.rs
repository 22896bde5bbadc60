//! What is put on the screen, as a list of commands for a terminal.

use vstd::prelude::*;
use crate::Rect;
use crate::matcher::{is_frame_with, MatcherPage};
use crate::util::{DisplayablePathBuf, Entry};

verus! {

/// The colour of a piece of text.
#[derive(Debug, Clone, Copy, PartialEq, Eq, Structural)]
pub enum Color {
    Plain,
    Blue,
    Yellow,
}

/// A piece of text and how it is to look.
pub struct Styled {
    pub text: Seq<char>,
    pub color: Color,
    pub bold: bool,
}

/// A piece of text and how it is to look.
#[derive(Debug, Clone, PartialEq, Eq)]
pub struct StyledText {
    pub text: String,
    pub color: Color,
    pub bold: bool,
}

impl View for StyledText {
    type V = Styled;

    open spec fn view(&self) -> Styled {
        Styled { text: self.text@, color: self.color, bold: self.bold }
    }
}

impl StyledText {
    /// Text without colour or weight.
    pub fn plain(text: String) -> (r: Self)
        ensures
            r@ == (Styled { text: text@, color: Color::Plain, bold: false }),
    {
        StyledText { text, color: Color::Plain, bold: false }
    }

    /// Text in a colour.
    pub fn colored(text: String, color: Color) -> (r: Self)
        ensures
            r@ == (Styled { text: text@, color, bold: false }),
    {
        StyledText { text, color, bold: false }
    }

    /// Text that stands out: blue and bold.
    pub fn emphasized(text: String) -> (r: Self)
        ensures
            r@ == (Styled { text: text@, color: Color::Blue, bold: true }),
    {
        StyledText { text, color: Color::Blue, bold: true }
    }
}

/// How the entries of a page are made to look.
#[derive(Debug, Clone, Copy, PartialEq, Eq, Structural)]
pub enum Style {
    /// Every entry alike.
    Plain,
    /// Directories in blue and bold, the others plain.
    Directories,
}

impl Style {
    /// The name of an entry as this style shows it.
    pub open spec fn styled(self, entry: Entry) -> Styled {
        match self {
            Style::Plain => Styled { text: entry.name, color: Color::Plain, bold: false },
            Style::Directories => if entry.is_dir {
                Styled { text: entry.name, color: Color::Blue, bold: true }
            } else {
                Styled { text: entry.name, color: Color::Plain, bold: false }
            },
        }
    }

    /// The name of an entry as this style shows it.
    pub fn apply(&self, entry: &DisplayablePathBuf) -> (r: StyledText)
        ensures
            r@ == self.styled(entry@),
    {
        match self {
            Style::Plain => StyledText::plain(entry.to_string()),
            Style::Directories => if entry.is_dir() {
                StyledText::emphasized(entry.to_string())
            } else {
                StyledText::plain(entry.to_string())
            },
        }
    }
}

/// The plain style as a function: every entry alike.
pub fn plain_style(entry: &DisplayablePathBuf) -> (r: StyledText)
    ensures
        r@ == Style::Plain.styled(entry@),
{
    Style::Plain.apply(entry)
}

/// The style of directories as a function: directories in blue and bold,
/// the others plain.
pub fn directory_style(entry: &DisplayablePathBuf) -> (r: StyledText)
    ensures
        r@ == Style::Directories.styled(entry@),
{
    Style::Directories.apply(entry)
}

/// One step of drawing, as a terminal carries it out.
pub enum Op {
    /// Switch raw mode on or off.
    RawMode(bool),
    EnterAlternateScreen,
    LeaveAlternateScreen,
    HideCursor,
    ShowCursor,
    /// Move the cursor to a column and a row.
    MoveTo(u16, u16),
    /// Print at the cursor.
    Print(Styled),
    /// Clear from the cursor to the end of the screen.
    ClearBelow,
    /// Send what was queued.
    Flush,
}

/// One step of drawing, as a terminal carries it out.
#[derive(Debug, Clone, PartialEq, Eq)]
pub enum Command {
    /// Switch raw mode on or off.
    RawMode(bool),
    EnterAlternateScreen,
    LeaveAlternateScreen,
    HideCursor,
    ShowCursor,
    /// Move the cursor to a column and a row.
    MoveTo(u16, u16),
    /// Print at the cursor.
    Print(StyledText),
    /// Clear from the cursor to the end of the screen.
    ClearBelow,
    /// Send what was queued.
    Flush,
}

impl View for Command {
    type V = Op;

    open spec fn view(&self) -> Op {
        match self {
            Command::RawMode(on) => Op::RawMode(*on),
            Command::EnterAlternateScreen => Op::EnterAlternateScreen,
            Command::LeaveAlternateScreen => Op::LeaveAlternateScreen,
            Command::HideCursor => Op::HideCursor,
            Command::ShowCursor => Op::ShowCursor,
            Command::MoveTo(x, y) => Op::MoveTo(*x, *y),
            Command::Print(text) => Op::Print(text@),
            Command::ClearBelow => Op::ClearBelow,
            Command::Flush => Op::Flush,
        }
    }
}

/// What a list of commands does, step by step.
pub open spec fn ops(commands: Seq<Command>) -> Seq<Op> {
    commands.map_values(|c: Command| c@)
}

/// Adding one command adds its step.
pub proof fn lemma_ops_push(commands: Seq<Command>, c: Command)
    ensures
        ops(commands.push(c)) == ops(commands).push(c@),
{
    assert(ops(commands.push(c)) =~= ops(commands).push(c@));
}

/// Something that can be drawn into a rectangle.
pub trait Draw {
    /// The steps that draw it.
    spec fn frame(&self, bounds: Rect) -> Seq<Op>;

    /// Adds the steps that draw it to `buf`.
    fn draw(&self, bounds: Rect, buf: &mut Vec<Command>)
        ensures
            ops(final(buf)@) == ops(old(buf)@) + self.frame(bounds),
    ;
}

/// A run of spaces.
pub open spec fn spaces(n: nat) -> Seq<char> {
    Seq::new(n, |i: int| ' ')
}

/// The rows of a rectangle that a screen can address.
pub open spec fn rows_on_screen(bounds: Rect) -> nat {
    if bounds.y + bounds.height <= 65536 {
        bounds.height as nat
    } else {
        (65536 - bounds.y) as nat
    }
}

/// The steps that fill the first `rows` rows of a rectangle with spaces.
pub open spec fn blank_rows(bounds: Rect, rows: nat) -> Seq<Op> {
    Seq::new(
        2 * rows,
        |i: int|
            if i % 2 == 0 {
                Op::MoveTo(bounds.x, (bounds.y + i / 2) as u16)
            } else {
                Op::Print(
                    Styled { text: spaces(bounds.width as nat), color: Color::Plain, bold: false },
                )
            },
    )
}

/// The steps that blank a rectangle and send that.
pub open spec fn blank_frame(bounds: Rect) -> Seq<Op> {
    blank_rows(bounds, rows_on_screen(bounds)).push(Op::Flush)
}

/// A string of `n` spaces.
pub fn blank_line(n: u16) -> (r: String)
    ensures
        r@ == spaces(n as nat),
{
    let mut s = String::new();
    let mut i: u16 = 0;
    while i < n
        invariant
            i <= n,
            s@ == spaces(i as nat),
        decreases n - i,
    {
        s.push(' ');
        i += 1;
        assert(s@ =~= spaces(i as nat));
    }
    assert(s@ =~= spaces(n as nat));
    s
}

/// Collects the commands that draw the screen.
#[derive(Debug)]
pub struct Renderer {
    buf: Vec<Command>,
    bounds: Rect,
}

impl Renderer {
    /// The steps that wait to be carried out.
    pub closed spec fn queued(&self) -> Seq<Op> {
        ops(self.buf@)
    }

    /// The rectangle that the renderer draws in.
    pub closed spec fn bounds(&self) -> Rect {
        self.bounds
    }

    /// A renderer for `bounds`; it starts by taking over the terminal.
    pub fn new_with_bounds(bounds: Rect) -> (r: Self)
        ensures
            r.bounds() == bounds,
            r.queued() == seq![
                Op::RawMode(true),
                Op::EnterAlternateScreen,
                Op::MoveTo(bounds.x, bounds.y),
                Op::HideCursor,
                Op::Flush,
            ],
    {
        let mut buf: Vec<Command> = Vec::new();
        buf.push(Command::RawMode(true));
        buf.push(Command::EnterAlternateScreen);
        buf.push(Command::MoveTo(bounds.x, bounds.y));
        buf.push(Command::HideCursor);
        buf.push(Command::Flush);
        assert(ops(buf@) =~= seq![
            Op::RawMode(true),
            Op::EnterAlternateScreen,
            Op::MoveTo(bounds.x, bounds.y),
            Op::HideCursor,
            Op::Flush,
        ]);
        Renderer { buf, bounds }
    }

    /// Queues one command.
    fn push(&mut self, command: Command)
        ensures
            final(self).bounds() == old(self).bounds(),
            final(self).queued() == old(self).queued().push(command@),
    {
        proof {
            lemma_ops_push(self.buf@, command);
        }
        self.buf.push(command);
    }

    /// Clears the screen and gives the terminal back.
    pub fn restore(&mut self)
        ensures
            final(self).bounds() == old(self).bounds(),
            final(self).queued() == old(self).queued() + seq![
                Op::MoveTo(old(self).bounds().x, old(self).bounds().y),
                Op::ClearBelow,
                Op::Flush,
                Op::LeaveAlternateScreen,
                Op::ShowCursor,
                Op::Flush,
                Op::RawMode(false),
            ],
    {
        self.clear_all();
        self.push(Command::LeaveAlternateScreen);
        self.push(Command::ShowCursor);
        self.push(Command::Flush);
        self.push(Command::RawMode(false));
        assert(self.queued() =~= old(self).queued() + seq![
            Op::MoveTo(old(self).bounds().x, old(self).bounds().y),
            Op::ClearBelow,
            Op::Flush,
            Op::LeaveAlternateScreen,
            Op::ShowCursor,
            Op::Flush,
            Op::RawMode(false),
        ]);
    }

    /// Draws `item` into `bounds`, over what is there.
    pub fn draw<D: Draw>(&mut self, bounds: Rect, item: &D)
        ensures
            final(self).bounds() == old(self).bounds(),
            final(self).queued() == old(self).queued() + item.frame(bounds),
    {
        item.draw(bounds, &mut self.buf)
    }

    /// Blanks `bounds`, draws `item` into it and sends both.
    pub fn redraw<D: Draw>(&mut self, bounds: Rect, item: &D)
        ensures
            final(self).bounds() == old(self).bounds(),
            final(self).queued() == old(self).queued() + blank_frame(bounds) + item.frame(bounds)
                + seq![Op::Flush],
    {
        self.clear_rect(bounds);
        self.draw(bounds, item);
        self.push(Command::Flush);
        assert(self.queued() =~= old(self).queued() + blank_frame(bounds) + item.frame(bounds)
            + seq![Op::Flush]);
    }

    /// Blanks `bounds`, draws `page` into it with each name made to look as
    /// the caller's function says, and sends both.
    pub fn redraw_with<F: Fn(&DisplayablePathBuf) -> StyledText>(
        &mut self,
        bounds: Rect,
        page: &MatcherPage<'_>,
        style: &F,
    )
        requires
            forall|i: int|
                0 <= i < page.items().len() ==> call_requires(
                    *style,
                    (&#[trigger] page.items()[i],),
                ),
        ensures
            final(self).bounds() == old(self).bounds(),
            exists|names: Seq<Styled>, steps: Seq<Op>|
                {
                    &&& #[trigger] is_frame_with(
                        *style,
                        page.items(),
                        page.prefix(),
                        bounds,
                        names,
                        steps,
                    )
                    &&& final(self).queued() == old(self).queued() + blank_frame(bounds) + steps
                        + seq![Op::Flush]
                },
    {
        self.clear_rect(bounds);
        let ghost blanked = self.queued();
        page.draw_with(bounds, style, &mut self.buf);
        let ghost drawn = self.queued();
        self.push(Command::Flush);
        proof {
            let (names, steps) = choose|names: Seq<Styled>, steps: Seq<Op>|
                #[trigger] is_frame_with(
                    *style,
                    page.items(),
                    page.prefix(),
                    bounds,
                    names,
                    steps,
                ) && drawn == blanked + steps;
            assert(self.queued() =~= old(self).queued() + blank_frame(bounds) + steps + seq![
                Op::Flush,
            ]);
        }
    }

    /// Fills `bounds` with spaces, row by row, and sends that.
    pub fn clear_rect(&mut self, bounds: Rect)
        ensures
            final(self).bounds() == old(self).bounds(),
            final(self).queued() == old(self).queued() + blank_frame(bounds),
    {
        let mut k: u16 = 0;
        assert(self.queued() =~= old(self).queued() + blank_rows(bounds, 0));
        while k < bounds.height && bounds.y as u32 + k as u32 <= 65535
            invariant
                k <= bounds.height,
                k <= rows_on_screen(bounds),
                self.bounds() == old(self).bounds(),
                self.queued() == old(self).queued() + blank_rows(bounds, k as nat),
            decreases bounds.height - k,
        {
            let text = StyledText::plain(blank_line(bounds.width));
            self.push(Command::MoveTo(bounds.x, bounds.y + k));
            self.push(Command::Print(text));
            k += 1;
            assert(self.queued() =~= old(self).queued() + blank_rows(bounds, k as nat));
        }
        self.push(Command::Flush);
        assert(k == rows_on_screen(bounds));
        assert(self.queued() =~= old(self).queued() + blank_frame(bounds));
    }

    /// Clears everything from the corner of the renderer's rectangle on.
    pub fn clear_all(&mut self)
        ensures
            final(self).bounds() == old(self).bounds(),
            final(self).queued() == old(self).queued() + seq![
                Op::MoveTo(old(self).bounds().x, old(self).bounds().y),
                Op::ClearBelow,
                Op::Flush,
            ],
    {
        self.push(Command::MoveTo(self.bounds.x, self.bounds.y));
        self.push(Command::ClearBelow);
        self.push(Command::Flush);
        assert(self.queued() =~= old(self).queued() + seq![
            Op::MoveTo(old(self).bounds().x, old(self).bounds().y),
            Op::ClearBelow,
            Op::Flush,
        ]);
    }

    /// Hands out the commands that wait, in order, and starts anew.
    pub fn take(&mut self) -> (commands: Vec<Command>)
        ensures
            final(self).bounds() == old(self).bounds(),
            ops(commands@) == old(self).queued(),
            final(self).queued() == Seq::<Op>::empty(),
    {
        let mut out: Vec<Command> = Vec::new();
        std::mem::swap(&mut out, &mut self.buf);
        assert(ops(self.buf@) =~= Seq::<Op>::empty());
        out
    }
}

/// A line of text, shown in yellow.
#[derive(Debug)]
pub struct Text {
    text: String,
}

impl Text {
    /// The characters of the line.
    pub closed spec fn content(&self) -> Seq<char> {
        self.text@
    }

    /// The line that shows `value`.
    pub fn from(value: String) -> (r: Self)
        ensures
            r.content() == value@,
    {
        Text { text: value }
    }
}

impl Draw for Text {
    open spec fn frame(&self, bounds: Rect) -> Seq<Op> {
        seq![
            Op::MoveTo(bounds.x, bounds.y),
            Op::Print(Styled { text: self.content(), color: Color::Yellow, bold: false }),
        ]
    }

    fn draw(&self, bounds: Rect, buf: &mut Vec<Command>) {
        buf.push(Command::MoveTo(bounds.x, bounds.y));
        buf.push(Command::Print(StyledText::colored(self.text.clone(), Color::Yellow)));
        assert(ops(buf@) =~= ops(old(buf)@) + self.frame(bounds));
    }
}

} // verus!
