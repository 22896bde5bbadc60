//! The rules of the interactive session: what each keystroke does to the
//! state and what the program around it has to do next.

use vstd::prelude::*;
use vstd::string::StringExecFns;
use crate::Rect;
use crate::args::Opts;
use crate::label::{label_at, some_label_starts_with};
use crate::matcher::{
    capacity_for, is_valid_prefix, lemma_code_resolves, lemma_page_count_bound, lemma_page_sizes,
    lemma_prefix_is_short, page_count_of, page_frame, resolved, shown_page, Matcher, MatcherPage,
};
use crate::tui::{blank_frame, ops, Color, Command, Op, Renderer, Style, Styled, Text};
use crate::util::{chars_of, is_candidate_set, rebuild, DisplayablePathBuf, Entry};

verus! {

/// A key of the keyboard, as far as the session tells keys apart.
#[derive(Debug, Clone, Copy, PartialEq, Eq, Structural)]
pub enum Key {
    Char(char),
    Enter,
    Esc,
    Other,
}

/// The modifier keys held with a key, as far as the session tells them apart.
#[derive(Debug, Clone, Copy, PartialEq, Eq, Structural)]
pub enum Modifiers {
    /// No modifier key.
    Bare,
    /// Control and no other.
    Control,
    /// Anything else.
    Other,
}

/// What the terminal reports.
#[derive(Debug, Clone, Copy, PartialEq, Eq, Structural)]
pub enum TerminalEvent {
    /// A key with the modifier keys held.
    Key(Key, Modifiers),
    /// Anything that is no key.
    Other,
}

/// What a report of the terminal means to the session.
#[derive(Debug, Clone, Copy, PartialEq, Eq, Structural)]
pub enum InputEvent {
    Quit,
    Accept,
    Key(char),
    Nothing,
    ToggleHidden,
    Clear,
}

/// A command that is typed as two characters.
#[derive(Debug, Clone, Copy, PartialEq, Eq, Structural)]
pub enum AppCommand {
    PageNext,
    PagePrev,
    Back,
}

/// The three parts of the screen.
#[derive(Debug, Clone, Copy, PartialEq, Eq, Structural)]
pub struct Layout {
    /// The whole screen.
    pub renderer: Rect,
    /// The two rows at the top, for the current directory.
    pub text: Rect,
    /// The rows below, for the page.
    pub matcher: Rect,
}

/// What the caller is to do after a step.
#[derive(Debug, Clone, PartialEq, Eq)]
pub enum Action {
    /// Wait for the next event.
    Continue,
    /// Leave; this path is the result.
    Finish(String),
    /// Leave without a choice: nothing was selected.
    Quit,
    /// Read this directory and open it.
    Open(String),
    /// Read the directory above the current one and open it.
    Back,
}

/// What the caller is to do after a step.
pub enum Outcome {
    Continue,
    Finish(Seq<char>),
    Quit,
    Open(Seq<char>),
    Back,
}

impl View for Action {
    type V = Outcome;

    open spec fn view(&self) -> Outcome {
        match self {
            Action::Continue => Outcome::Continue,
            Action::Finish(path) => Outcome::Finish(path@),
            Action::Quit => Outcome::Quit,
            Action::Open(path) => Outcome::Open(path@),
            Action::Back => Outcome::Back,
        }
    }
}

/// The state of a session.
pub struct Session {
    /// The name the program was called by.
    pub program_name: Seq<char>,
    /// The directory the program was asked to start in.
    pub base_path: Seq<char>,
    /// The directory whose entries are offered.
    pub parent: Seq<char>,
    /// Whether hidden entries are offered.
    pub show_hidden: bool,
    /// The candidates, in their order.
    pub candidates: Seq<DisplayablePathBuf>,
    /// The parts of the screen.
    pub layout: Layout,
    /// The page that is shown.
    pub page_num: nat,
    /// Every character typed since the page was opened or turned.
    pub input: Seq<char>,
    /// The characters typed that the matcher accepted.
    pub prefix: Seq<char>,
    /// The drawing steps that wait to be carried out.
    pub queued: Seq<Op>,
}

/// The parts of a screen of the given size: two rows for the directory, the
/// rest for the page.
pub open spec fn layout_of(bounds: Rect) -> Layout {
    Layout {
        renderer: bounds,
        text: Rect { x: 0, y: 0, width: bounds.width, height: 2 },
        matcher: Rect {
            x: 0,
            y: 2,
            width: bounds.width,
            height: if bounds.height >= 2 {
                (bounds.height - 2) as u16
            } else {
                0
            },
        },
    }
}

/// What becomes of an item that was chosen: a directory is to be opened, and
/// anything else ends the session with its path.
pub open spec fn chosen(entry: Entry) -> Outcome {
    if entry.is_dir {
        Outcome::Open(entry.path)
    } else {
        Outcome::Finish(entry.path)
    }
}

/// The command that the last two characters typed spell.
pub open spec fn command_of(input: Seq<char>) -> Option<AppCommand> {
    if input.len() < 2 {
        None
    } else {
        let a = input[input.len() - 2];
        let b = input[input.len() - 1];
        if a == '>' && b == '>' {
            Some(AppCommand::PageNext)
        } else if a == '<' && b == '<' {
            Some(AppCommand::PagePrev)
        } else if a == '.' && b == '.' {
            Some(AppCommand::Back)
        } else {
            None
        }
    }
}

/// What a report of the terminal means: Control-C quits, Control-H shows or
/// hides the hidden entries, Enter accepts, Escape clears, a plain character
/// is typed, and nothing else counts.
pub open spec fn meaning_of(event: TerminalEvent) -> InputEvent {
    match event {
        TerminalEvent::Key(Key::Char(c), Modifiers::Control) => if c == 'c' {
            InputEvent::Quit
        } else if c == 'h' {
            InputEvent::ToggleHidden
        } else {
            InputEvent::Nothing
        },
        TerminalEvent::Key(Key::Enter, Modifiers::Bare) => InputEvent::Accept,
        TerminalEvent::Key(Key::Esc, Modifiers::Bare) => InputEvent::Clear,
        TerminalEvent::Key(Key::Char(c), Modifiers::Bare) => InputEvent::Key(c),
        _ => InputEvent::Nothing,
    }
}

impl Session {
    /// How many items go on one page.
    pub open spec fn capacity(self) -> nat {
        capacity_for(self.candidates, self.layout.matcher)
    }

    /// Whether there is a page `n`.
    pub open spec fn has_page(self, n: int) -> bool {
        0 <= n < page_count_of(self.candidates.len(), self.capacity())
    }

    /// The items on the page that is shown; none where there is no such page.
    pub open spec fn shown(self) -> Seq<DisplayablePathBuf> {
        shown_page(self.candidates, self.layout.matcher, self.page_num)
    }

    /// The state with the page drawn anew.
    pub open spec fn page_redrawn(self) -> Session {
        Session {
            queued: self.queued + blank_frame(self.layout.matcher) + page_frame(
                self.shown(),
                self.prefix,
                Style::Directories,
                self.layout.matcher,
            ) + seq![Op::Flush],
            ..self
        }
    }

    /// The state with the directory's name drawn anew.
    pub open spec fn heading_redrawn(self) -> Session {
        Session {
            queued: self.queued + blank_frame(self.layout.text) + seq![
                Op::MoveTo(self.layout.text.x, self.layout.text.y),
                Op::Print(Styled { text: self.parent, color: Color::Yellow, bold: false }),
            ] + seq![Op::Flush],
            ..self
        }
    }

    /// The state after a fresh start on the first page: nothing typed, the
    /// directory's name and the page drawn.
    pub open spec fn opened(self) -> Session {
        (Session {
            page_num: 0,
            input: Seq::empty(),
            prefix: Seq::empty(),
            ..self
        }).heading_redrawn().page_redrawn()
    }

    /// The state after an event that types or clears: a character goes to
    /// the log of what was typed, and to the prefix if the code of some item
    /// on the page starts with the prefix then; clearing empties the prefix.
    pub open spec fn typed(self, event: InputEvent) -> Session {
        match event {
            InputEvent::Key(c) => Session {
                input: self.input.push(c),
                prefix: if some_label_starts_with(
                    self.shown().len() as int,
                    self.prefix.push(c),
                ) {
                    self.prefix.push(c)
                } else {
                    self.prefix
                },
                ..self
            },
            InputEvent::Clear => Session { prefix: Seq::empty(), ..self },
            _ => self,
        }
    }

    /// The state after an attempt to turn to page `target`: the log of what
    /// was typed is emptied; where there is such a page, it is shown with
    /// nothing typed on it.
    pub open spec fn turned(self, target: int) -> Session {
        if self.has_page(target) {
            Session {
                page_num: target as nat,
                input: Seq::empty(),
                prefix: Seq::empty(),
                ..self
            }
        } else {
            Session { input: Seq::empty(), ..self }
        }
    }

    /// The state and what the caller is to do after an event.
    ///
    /// Quitting and accepting leave the state alone: accepting takes the item
    /// that what is typed stands for, and ends with the current directory
    /// where it stands for none. Showing or hiding the hidden entries flips
    /// the setting and asks for the directory to be read again. Otherwise the
    /// event types or clears; then, if what is typed is the code of an item,
    /// the session ends with a file or asks for a directory to be opened;
    /// else the last two characters typed may ask for the directory above or
    /// for another page. The page is drawn anew whenever it was turned or the
    /// prefix changed.
    pub open spec fn next(self, event: InputEvent) -> (Session, Outcome) {
        match event {
            InputEvent::Quit => (self, Outcome::Quit),
            InputEvent::Accept => (
                self,
                match resolved(self.shown(), self.prefix) {
                    Some(entry) => chosen(entry@),
                    None => Outcome::Finish(self.parent),
                },
            ),
            InputEvent::ToggleHidden => (
                Session { show_hidden: !self.show_hidden, ..self },
                Outcome::Open(self.parent),
            ),
            _ => {
                let t = self.typed(event);
                match resolved(t.shown(), t.prefix) {
                    Some(entry) => (t, chosen(entry@)),
                    None => match command_of(t.input) {
                        Some(AppCommand::Back) => (t, Outcome::Back),
                        Some(AppCommand::PageNext) => (
                            t.turned(t.page_num as int + 1).redrawn_if(
                                t.has_page(t.page_num as int + 1) || t.prefix != self.prefix,
                            ),
                            Outcome::Continue,
                        ),
                        Some(AppCommand::PagePrev) => (
                            t.turned(t.page_num as int - 1).redrawn_if(
                                t.has_page(t.page_num as int - 1) || t.prefix != self.prefix,
                            ),
                            Outcome::Continue,
                        ),
                        None => (t.redrawn_if(t.prefix != self.prefix), Outcome::Continue),
                    },
                }
            },
        }
    }

    /// The state with the page drawn anew where `wanted`.
    pub open spec fn redrawn_if(self, wanted: bool) -> Session {
        if wanted {
            self.page_redrawn()
        } else {
            self
        }
    }
}

/// The page that is shown never holds more items than there are codes.
pub proof fn lemma_shown_has_codes(s: Session)
    ensures
        s.shown().len() <= 676,
{
    if s.has_page(s.page_num as int) && s.candidates.len() > 0 {
        if s.capacity() > 0 {
            lemma_page_sizes(s.candidates, s.capacity(), s.page_num);
        }
    }
}

/// Typing the code of a position on the page that is shown, with nothing
/// typed before, leads to the item that stands at that position now: the
/// first letter is taken, and the second asks for a directory to be opened
/// or ends the session with a file.
pub proof fn lemma_typed_code_resolves(s: Session, k: int)
    requires
        s.prefix.len() == 0,
        0 <= k < s.shown().len(),
    ensures
        ({
            let code = label_at(k);
            let item = s.shown()[k];
            let first = s.next(InputEvent::Key(code[0]));
            let second = first.0.next(InputEvent::Key(code[1]));
            &&& first.1 == Outcome::Continue
            &&& first.0.prefix == seq![code[0]]
            &&& second.0.prefix == code
            &&& second.1 == chosen(item@)
        }),
{
    lemma_shown_has_codes(s);
    let code = label_at(k);
    let n = s.shown().len() as int;
    assert(code.len() == 2);
    assert(s.prefix =~= Seq::<char>::empty());
    let one = s.prefix.push(code[0]);
    assert(one =~= seq![code[0]]);
    assert(one.is_prefix_of(code)) by {
        assert(one =~= code.subrange(0, 1));
    }
    assert(some_label_starts_with(n, one));
    let t = s.typed(InputEvent::Key(code[0]));
    assert(t.prefix == one);
    assert(t.shown() == s.shown());
    assert(resolved(t.shown(), t.prefix) is None);
    assert(command_of(t.input) is None);
    let first = s.next(InputEvent::Key(code[0]));
    assert(first.0 == t.page_redrawn());
    assert(first.0.shown() == s.shown());
    let two = first.0.prefix.push(code[1]);
    assert(two =~= code);
    assert(two.is_prefix_of(code));
    assert(some_label_starts_with(n, two));
    lemma_code_resolves(s.shown(), k);
}

/// What is typed stays the start of a code on the page that is shown, or
/// nothing, whatever event comes: it never grows beyond two characters, and
/// it is empty after every turn of the page.
pub proof fn lemma_next_keeps_prefix_valid(s: Session, event: InputEvent)
    requires
        is_valid_prefix(s.shown().len(), s.prefix),
    ensures
        is_valid_prefix(s.next(event).0.shown().len(), s.next(event).0.prefix),
        s.next(event).0.prefix.len() <= 2,
        s.next(event).0.page_num != s.page_num ==> s.next(event).0.prefix.len() == 0,
{
    let t = s.next(event).0;
    if t.prefix.len() > 0 {
        lemma_prefix_is_short(t.shown().len(), t.prefix);
    }
}

/// After a directory is opened, the codes stand for the candidates made of
/// the entries that were read then: the code of position `k` on the first
/// page leads to the candidate at `k`, whatever was shown before.
pub proof fn lemma_opened_session_resolves(
    before: Session,
    parent: Seq<char>,
    candidates: Seq<DisplayablePathBuf>,
    k: int,
)
    requires
        0 <= k < (Session { parent, candidates, ..before }).opened().shown().len(),
    ensures
        ({
            let s = (Session { parent, candidates, ..before }).opened();
            let code = label_at(k);
            let first = s.next(InputEvent::Key(code[0]));
            let second = first.0.next(InputEvent::Key(code[1]));
            &&& k < candidates.len()
            &&& s.shown()[k] == candidates[k]
            &&& first.1 == Outcome::Continue
            &&& second.1 == chosen(candidates[k]@)
        }),
{
    let s = (Session { parent, candidates, ..before }).opened();
    assert(s.candidates == candidates);
    assert(s.page_num == 0);
    assert(s.prefix.len() == 0);
    lemma_typed_code_resolves(s, k);
}

/// The candidates of the current directory, the page of them that is shown
/// and what is typed on it. What is typed is always the start of a code on
/// that page, or nothing.
pub struct Selection {
    matcher: Matcher,
    page_num: usize,
    prefix: String,
}

impl Selection {
    /// The candidates, in their order.
    pub closed spec fn candidates(&self) -> Seq<DisplayablePathBuf> {
        self.matcher.items()
    }

    /// The rectangle that the pages are cut for.
    pub closed spec fn bounds(&self) -> Rect {
        self.matcher.bounds()
    }

    /// The page that is shown.
    pub closed spec fn page_num(&self) -> nat {
        self.page_num as nat
    }

    /// What is typed on the page.
    pub closed spec fn prefix(&self) -> Seq<char> {
        self.prefix@
    }

    /// The items on the page that is shown.
    pub open spec fn shown(&self) -> Seq<DisplayablePathBuf> {
        shown_page(self.candidates(), self.bounds(), self.page_num())
    }

    /// Whether there is a page `n`.
    pub open spec fn has_page(&self, n: int) -> bool {
        0 <= n < page_count_of(
            self.candidates().len(),
            capacity_for(self.candidates(), self.bounds()),
        )
    }

    #[verifier::type_invariant]
    spec fn well_formed(&self) -> bool {
        is_valid_prefix(
            shown_page(self.matcher.items(), self.matcher.bounds(), self.page_num as nat).len(),
            self.prefix@,
        )
    }

    /// The first page of `items`, shown in `bounds`, with nothing typed.
    pub fn new(items: Vec<DisplayablePathBuf>, bounds: Rect) -> (r: Self)
        ensures
            r.candidates() == items@,
            r.bounds() == bounds,
            r.page_num() == 0,
            r.prefix() == Seq::<char>::empty(),
    {
        Selection { matcher: Matcher::new(items, bounds), page_num: 0, prefix: String::new() }
    }

    /// The candidates and the rectangle they are shown in.
    pub fn matcher(&self) -> (r: &Matcher)
        ensures
            r.items() == self.candidates(),
            r.bounds() == self.bounds(),
    {
        &self.matcher
    }

    /// The number of the page that is shown.
    pub fn page_number(&self) -> (r: usize)
        ensures
            r == self.page_num(),
    {
        self.page_num
    }

    /// What is typed on the page: at most two characters, and the start of
    /// the code of an item on it unless it is empty.
    pub fn typed(&self) -> (r: &str)
        ensures
            r@ == self.prefix(),
            r@.len() <= 2,
            is_valid_prefix(self.shown().len(), r@),
    {
        proof {
            use_type_invariant(self);
            if self.prefix@.len() > 0 {
                lemma_prefix_is_short(self.shown().len(), self.prefix@);
            }
        }
        self.prefix.as_str()
    }

    /// The page that is shown, with what is typed on it, directories made
    /// to stand out; an empty page where no page can be shown.
    pub fn page(&self) -> (page: MatcherPage<'_>)
        ensures
            page.items() == self.shown(),
            page.prefix() == self.prefix(),
            page.style() == Style::Directories,
    {
        proof {
            use_type_invariant(self);
        }
        let mut page = match self.matcher.get(self.page_num) {
            Some(page) => page,
            None => MatcherPage::default(),
        };
        page.set_style(Style::Directories);
        let typed = chars_of(self.prefix.as_str());
        let mut i: usize = 0;
        assert(typed@.take(0) =~= Seq::<char>::empty());
        while i < typed.len()
            invariant
                i <= typed@.len(),
                typed@ == self.prefix@,
                page.prefix() == typed@.take(i as int),
                page.items() == self.shown(),
                page.style() == Style::Directories,
                is_valid_prefix(page.items().len(), typed@),
            decreases typed@.len() - i,
        {
            proof {
                let k = choose|k: int|
                    0 <= k < page.items().len() && k < 676 && typed@.is_prefix_of(
                        #[trigger] label_at(k),
                    );
                assert(typed@.take(i + 1) =~= typed@.take(i as int).push(typed@[i as int]));
                assert(typed@.take(i + 1).is_prefix_of(label_at(k))) by {
                    assert(typed@.take(i + 1) =~= label_at(k).subrange(0, i + 1));
                }
            }
            let accepted = page.push_char(typed[i]);
            assert(accepted);
            i += 1;
        }
        assert(typed@.take(typed@.len() as int) =~= typed@);
        page
    }

    /// The item that what is typed stands for, once it is a whole code.
    pub fn result(&self) -> (r: Option<&DisplayablePathBuf>)
        ensures
            match r {
                Some(item) => resolved(self.shown(), self.prefix()) == Some(*item),
                None => resolved(self.shown(), self.prefix()) is None,
            },
    {
        self.page().result()
    }

    /// Takes `c` as the next character of the code if the code of some item
    /// on the page starts with what is typed then, and says whether it did.
    pub fn push_char(&mut self, c: char) -> (accepted: bool)
        ensures
            accepted == some_label_starts_with(
                old(self).shown().len() as int,
                old(self).prefix().push(c),
            ),
            final(self).prefix() == if accepted {
                old(self).prefix().push(c)
            } else {
                old(self).prefix()
            },
            final(self).candidates() == old(self).candidates(),
            final(self).bounds() == old(self).bounds(),
            final(self).page_num() == old(self).page_num(),
    {
        let mut page = self.page();
        let accepted = page.push_char(c);
        let typed = String::from_str(page.input());
        self.prefix = typed;
        accepted
    }

    /// Forgets what is typed.
    pub fn clear_input(&mut self)
        ensures
            final(self).prefix() == Seq::<char>::empty(),
            final(self).candidates() == old(self).candidates(),
            final(self).bounds() == old(self).bounds(),
            final(self).page_num() == old(self).page_num(),
    {
        self.prefix = String::new();
    }

    /// Turns to page `n` if there is one, with nothing typed on it, and says
    /// whether there is; nothing changes otherwise.
    pub fn turn_to(&mut self, n: usize) -> (turned: bool)
        ensures
            turned == old(self).has_page(n as int),
            final(self).candidates() == old(self).candidates(),
            final(self).bounds() == old(self).bounds(),
            final(self).page_num() == if turned {
                n as nat
            } else {
                old(self).page_num()
            },
            final(self).prefix() == if turned {
                Seq::<char>::empty()
            } else {
                old(self).prefix()
            },
    {
        if self.matcher.get(n).is_some() {
            self.prefix = String::new();
            self.page_num = n;
            true
        } else {
            false
        }
    }

    /// Goes back to the first page, with nothing typed.
    pub fn rewind(&mut self)
        ensures
            final(self).candidates() == old(self).candidates(),
            final(self).bounds() == old(self).bounds(),
            final(self).page_num() == 0,
            final(self).prefix() == Seq::<char>::empty(),
    {
        self.prefix = String::new();
        self.page_num = 0;
    }

    /// Replaces the candidates; the first page is shown then, with nothing
    /// typed.
    pub fn replace(&mut self, items: Vec<DisplayablePathBuf>)
        ensures
            final(self).candidates() == items@,
            final(self).bounds() == old(self).bounds(),
            final(self).page_num() == 0,
            final(self).prefix() == Seq::<char>::empty(),
    {
        let bounds = self.matcher.area();
        self.prefix = String::new();
        self.page_num = 0;
        self.matcher = Matcher::new(items, bounds);
    }
}

/// The session: what is chosen from, the directory it belongs to, what has
/// been typed, and the drawing steps that wait.
pub struct App {
    renderer: Renderer,
    selection: Selection,
    opts: Opts,
    heading: Rect,
    parent: String,
    input: String,
}

impl View for App {
    type V = Session;

    closed spec fn view(&self) -> Session {
        Session {
            program_name: self.opts.program_name@,
            base_path: self.opts.base_path@,
            parent: self.parent@,
            show_hidden: self.opts.show_hidden,
            candidates: self.selection.candidates(),
            layout: Layout {
                renderer: self.renderer.bounds(),
                text: self.heading,
                matcher: self.selection.bounds(),
            },
            page_num: self.selection.page_num(),
            input: self.input@,
            prefix: self.selection.prefix(),
            queued: self.renderer.queued(),
        }
    }
}

impl App {
    /// The parts of a screen of the given size.
    pub fn layout(bounds: Rect) -> (r: Layout)
        ensures
            r == layout_of(bounds),
    {
        Layout {
            renderer: bounds,
            text: Rect { x: 0, y: 0, width: bounds.width, height: 2 },
            matcher: Rect {
                x: 0,
                y: 2,
                width: bounds.width,
                height: bounds.height.saturating_sub(2),
            },
        }
    }

    /// What a report of the terminal means to the session.
    pub fn read_input_event(event: TerminalEvent) -> (r: InputEvent)
        ensures
            r == meaning_of(event),
    {
        match event {
            TerminalEvent::Key(Key::Char(c), Modifiers::Control) => if c == 'c' {
                InputEvent::Quit
            } else if c == 'h' {
                InputEvent::ToggleHidden
            } else {
                InputEvent::Nothing
            },
            TerminalEvent::Key(Key::Enter, Modifiers::Bare) => InputEvent::Accept,
            TerminalEvent::Key(Key::Esc, Modifiers::Bare) => InputEvent::Clear,
            TerminalEvent::Key(Key::Char(c), Modifiers::Bare) => InputEvent::Key(c),
            _ => InputEvent::Nothing,
        }
    }

    /// The command that the last two characters of `input` spell.
    pub fn parse_command(input: &str) -> (r: Option<AppCommand>)
        ensures
            r == command_of(input@),
    {
        let typed = chars_of(input);
        let n = typed.len();
        if n < 2 {
            return None;
        }
        let a = typed[n - 2];
        let b = typed[n - 1];
        if a == '>' && b == '>' {
            Some(AppCommand::PageNext)
        } else if a == '<' && b == '<' {
            Some(AppCommand::PagePrev)
        } else if a == '.' && b == '.' {
            Some(AppCommand::Back)
        } else {
            None
        }
    }

    /// The directory to open on going back: the one that was found above
    /// the current one, or the root where none was found.
    pub fn directory_above(found: Option<String>) -> (r: String)
        ensures
            r@ == match found {
                Some(path) => path@,
                None => seq!['/'],
            },
    {
        match found {
            Some(path) => path,
            None => {
                proof {
                    reveal_strlit("/");
                }
                let root = String::from_str("/");
                assert(root@ =~= seq!['/']);
                root
            },
        }
    }

    /// What the caller is to do with an item that was chosen.
    pub fn commit(entry: &DisplayablePathBuf) -> (action: Action)
        ensures
            action@ == chosen(entry@),
    {
        if entry.is_dir() {
            Action::Open(entry.get().clone())
        } else {
            Action::Finish(entry.get().clone())
        }
    }

    /// A session in the directory `parent` with the entries read from it,
    /// on a screen of the size of `bounds`. Nothing is drawn yet.
    pub fn new(opts: Opts, bounds: Rect, parent: String, entries: Vec<DisplayablePathBuf>) -> (app:
        App)
        ensures
            is_candidate_set(entries@, opts.show_hidden, app@.candidates),
            app@ == (Session {
                program_name: opts.program_name@,
                base_path: opts.base_path@,
                parent: parent@,
                show_hidden: opts.show_hidden,
                candidates: app@.candidates,
                layout: layout_of(bounds),
                page_num: 0,
                input: Seq::empty(),
                prefix: Seq::empty(),
                queued: seq![
                    Op::RawMode(true),
                    Op::EnterAlternateScreen,
                    Op::MoveTo(bounds.x, bounds.y),
                    Op::HideCursor,
                    Op::Flush,
                ],
            }),
    {
        let layout = Self::layout(bounds);
        let candidates = rebuild(entries, opts.show_hidden);
        App {
            renderer: Renderer::new_with_bounds(bounds),
            selection: Selection::new(candidates, layout.matcher),
            opts,
            heading: layout.text,
            parent,
            input: String::new(),
        }
    }

    /// The options the session was started with, hidden entries shown or
    /// not as they are now.
    pub fn opts(&self) -> (r: &Opts)
        ensures
            r.program_name@ == self@.program_name,
            r.base_path@ == self@.base_path,
            r.show_hidden == self@.show_hidden,
    {
        &self.opts
    }

    /// The directory whose entries are offered.
    pub fn parent(&self) -> (r: &str)
        ensures
            r@ == self@.parent,
    {
        self.parent.as_str()
    }

    /// Whether hidden entries are offered.
    pub fn show_hidden(&self) -> (r: bool)
        ensures
            r == self@.show_hidden,
    {
        self.opts.show_hidden
    }

    /// The page that is shown.
    pub fn page_num(&self) -> (r: usize)
        ensures
            r == self@.page_num,
    {
        self.selection.page_number()
    }

    /// The characters typed since the page was opened or turned.
    pub fn input(&self) -> (r: &str)
        ensures
            r@ == self@.input,
    {
        self.input.as_str()
    }

    /// The characters typed that the matcher accepted: at most two, and the
    /// start of the code of an item on the page unless there is none.
    pub fn prefix(&self) -> (r: &str)
        ensures
            r@ == self@.prefix,
            r@.len() <= 2,
            is_valid_prefix(self@.shown().len(), r@),
    {
        self.selection.typed()
    }

    /// The candidates and the rectangle they are shown in.
    pub fn matcher(&self) -> (r: &Matcher)
        ensures
            r.items() == self@.candidates,
            r.bounds() == self@.layout.matcher,
    {
        self.selection.matcher()
    }

    /// Starts afresh on the first page, with nothing typed, and draws the
    /// directory's name and the page.
    pub fn show(&mut self)
        ensures
            final(self)@ == old(self)@.opened(),
    {
        self.input = String::new();
        self.selection.rewind();
        let heading = Text::from(self.parent.clone());
        self.renderer.redraw(self.heading, &heading);
        let page = self.selection.page();
        self.renderer.redraw(self.selection.matcher().area(), &page);
    }

    /// Replaces the candidates by what is made of the raw entries of a
    /// directory. The first page is current then, with nothing typed.
    pub fn update_matcher(&mut self, entries: Vec<DisplayablePathBuf>)
        ensures
            is_candidate_set(entries@, old(self)@.show_hidden, final(self)@.candidates),
            final(self)@ == (Session {
                candidates: final(self)@.candidates,
                page_num: 0,
                input: Seq::empty(),
                prefix: Seq::empty(),
                ..old(self)@
            }),
    {
        self.input = String::new();
        let candidates = rebuild(entries, self.opts.show_hidden);
        self.selection.replace(candidates);
    }

    /// Moves to the directory `parent` with the entries read from it, and
    /// shows its first page.
    pub fn open(&mut self, parent: String, entries: Vec<DisplayablePathBuf>)
        ensures
            is_candidate_set(entries@, old(self)@.show_hidden, final(self)@.candidates),
            final(self)@ == (Session {
                parent: parent@,
                candidates: final(self)@.candidates,
                ..old(self)@
            }).opened(),
    {
        self.parent = parent;
        self.update_matcher(entries);
        self.show();
    }

    /// Clears the screen and gives the terminal back.
    pub fn restore(&mut self)
        ensures
            final(self)@ == (Session {
                queued: old(self)@.queued + seq![
                    Op::MoveTo(old(self)@.layout.renderer.x, old(self)@.layout.renderer.y),
                    Op::ClearBelow,
                    Op::Flush,
                    Op::LeaveAlternateScreen,
                    Op::ShowCursor,
                    Op::Flush,
                    Op::RawMode(false),
                ],
                ..old(self)@
            }),
    {
        self.renderer.restore();
    }

    /// Hands out the drawing commands that wait, in order.
    pub fn take_commands(&mut self) -> (commands: Vec<Command>)
        ensures
            ops(commands@) == old(self)@.queued,
            final(self)@ == (Session { queued: Seq::empty(), ..old(self)@ }),
    {
        self.renderer.take()
    }

    /// Takes one event: changes the state by it and says what the caller is
    /// to do next.
    pub fn step(&mut self, event: InputEvent) -> (action: Action)
        ensures
            (final(self)@, action@) == old(self)@.next(event),
    {
        let changed = match event {
            InputEvent::Quit => {
                return Action::Quit;
            },
            InputEvent::Accept => {
                return match self.selection.result() {
                    Some(entry) => Self::commit(entry),
                    None => Action::Finish(self.parent.clone()),
                };
            },
            InputEvent::ToggleHidden => {
                self.opts.show_hidden = !self.opts.show_hidden;
                return Action::Open(self.parent.clone());
            },
            InputEvent::Key(c) => {
                self.input.push(c);
                self.selection.push_char(c)
            },
            InputEvent::Clear => {
                let typed = !self.selection.typed().is_empty();
                self.selection.clear_input();
                typed
            },
            InputEvent::Nothing => false,
        };
        let ghost t = self@;
        assert(t == old(self)@.typed(event));
        assert(changed == (t.prefix != old(self)@.prefix)) by {
            let before = old(self)@.prefix;
            match event {
                InputEvent::Key(c) => {
                    assert(before.push(c).len() == before.len() + 1);
                },
                _ => {
                    if before.len() == 0 {
                        assert(before =~= Seq::<char>::empty());
                    }
                },
            }
        }
        match self.selection.result() {
            Some(entry) => {
                return Self::commit(entry);
            },
            None => {},
        }
        let target: Option<usize> = match Self::parse_command(self.input.as_str()) {
            Some(AppCommand::Back) => {
                return Action::Back;
            },
            Some(AppCommand::PageNext) => self.selection.page_number().checked_add(1),
            Some(AppCommand::PagePrev) => self.selection.page_number().checked_sub(1),
            None => {
                if changed {
                    let page = self.selection.page();
                    self.renderer.redraw(self.selection.matcher().area(), &page);
                }
                return Action::Continue;
            },
        };
        let ghost wanted: int = if command_of(t.input) == Some(AppCommand::PageNext) {
            t.page_num as int + 1
        } else {
            t.page_num as int - 1
        };
        proof {
            self.selection.matcher.lemma_len_fits();
            lemma_page_count_bound(t.candidates.len(), t.capacity());
        }
        self.input = String::new();
        let turned = match target {
            Some(n) => self.selection.turn_to(n),
            None => false,
        };
        assert(turned == t.has_page(wanted));
        assert(self@ == t.turned(wanted));
        if turned || changed {
            let page = self.selection.page();
            self.renderer.redraw(self.selection.matcher().area(), &page);
        }
        Action::Continue
    }
}

} // verus!
