use dirhop::app::{
    Action, App, AppCommand, InputEvent, Key, Layout, Modifiers, Selection, TerminalEvent,
};
use dirhop::args::Opts;
use dirhop::tui::{Color, Command, StyledText};
use dirhop::util::DisplayablePathBuf;
use dirhop::Rect;

fn entry(name: &str, is_dir: bool) -> DisplayablePathBuf {
    DisplayablePathBuf::new(format!("/base/{name}"), name.to_string(), is_dir)
}

fn numbered(count: usize) -> Vec<DisplayablePathBuf> {
    (0..count).map(|i| entry(&format!("{i:04}"), false)).collect()
}

fn opts(show_hidden: bool) -> Opts {
    Opts { program_name: "dirhop".to_string(), base_path: "/base".to_string(), show_hidden }
}

fn screen(width: u16, height: u16) -> Rect {
    Rect { x: 0, y: 0, width, height }
}

fn mixed() -> Vec<DisplayablePathBuf> {
    vec![entry(".git", true), entry("b.txt", false), entry("A", true)]
}

fn session(entries: Vec<DisplayablePathBuf>, bounds: Rect) -> App {
    let mut app = App::new(opts(false), bounds, "/base".to_string(), entries);
    app.show();
    app.take_commands();
    app
}

fn type_text(app: &mut App, text: &str) -> Action {
    let mut last = Action::Continue;
    for c in text.chars() {
        last = app.step(InputEvent::Key(c));
    }
    last
}

fn plain(text: &str) -> Command {
    Command::Print(StyledText { text: text.to_string(), color: Color::Plain, bold: false })
}

fn blue(text: &str) -> Command {
    Command::Print(StyledText { text: text.to_string(), color: Color::Blue, bold: false })
}

#[test]
fn layout_splits_the_screen() {
    let l = App::layout(Rect { x: 0, y: 0, width: 80, height: 24 });
    assert_eq!(
        l,
        Layout {
            renderer: Rect { x: 0, y: 0, width: 80, height: 24 },
            text: Rect { x: 0, y: 0, width: 80, height: 2 },
            matcher: Rect { x: 0, y: 2, width: 80, height: 22 },
        }
    );
}

#[test]
fn layout_of_a_screen_too_low_leaves_no_rows_for_the_page() {
    assert_eq!(App::layout(screen(80, 1)).matcher, Rect { x: 0, y: 2, width: 80, height: 0 });
    assert_eq!(App::layout(screen(80, 0)).matcher, Rect { x: 0, y: 2, width: 80, height: 0 });
    assert_eq!(App::layout(screen(80, 2)).matcher, Rect { x: 0, y: 2, width: 80, height: 0 });
    assert_eq!(App::layout(screen(80, 3)).matcher, Rect { x: 0, y: 2, width: 80, height: 1 });
}

#[test]
fn control_c_quits() {
    let e = TerminalEvent::Key(Key::Char('c'), Modifiers::Control);
    assert_eq!(App::read_input_event(e), InputEvent::Quit);
}

#[test]
fn control_h_toggles_hidden() {
    let e = TerminalEvent::Key(Key::Char('h'), Modifiers::Control);
    assert_eq!(App::read_input_event(e), InputEvent::ToggleHidden);
}

#[test]
fn enter_accepts_and_escape_clears() {
    assert_eq!(
        App::read_input_event(TerminalEvent::Key(Key::Enter, Modifiers::Bare)),
        InputEvent::Accept
    );
    assert_eq!(
        App::read_input_event(TerminalEvent::Key(Key::Esc, Modifiers::Bare)),
        InputEvent::Clear
    );
}

#[test]
fn plain_characters_are_typed() {
    assert_eq!(
        App::read_input_event(TerminalEvent::Key(Key::Char('c'), Modifiers::Bare)),
        InputEvent::Key('c')
    );
    assert_eq!(
        App::read_input_event(TerminalEvent::Key(Key::Char('>'), Modifiers::Bare)),
        InputEvent::Key('>')
    );
}

#[test]
fn everything_else_means_nothing() {
    let cases = [
        TerminalEvent::Other,
        TerminalEvent::Key(Key::Other, Modifiers::Bare),
        TerminalEvent::Key(Key::Char('x'), Modifiers::Control),
        TerminalEvent::Key(Key::Char('c'), Modifiers::Other),
        TerminalEvent::Key(Key::Enter, Modifiers::Control),
        TerminalEvent::Key(Key::Esc, Modifiers::Other),
    ];
    for e in cases {
        assert_eq!(App::read_input_event(e), InputEvent::Nothing);
    }
}

#[test]
fn commands_are_the_last_two_characters() {
    assert_eq!(App::parse_command(">>"), Some(AppCommand::PageNext));
    assert_eq!(App::parse_command("<<"), Some(AppCommand::PagePrev));
    assert_eq!(App::parse_command(".."), Some(AppCommand::Back));
    assert_eq!(App::parse_command("abc>>"), Some(AppCommand::PageNext));
    assert_eq!(App::parse_command("é.."), Some(AppCommand::Back));
    assert_eq!(App::parse_command(">>a"), None);
    assert_eq!(App::parse_command("><"), None);
    assert_eq!(App::parse_command(">"), None);
    assert_eq!(App::parse_command(""), None);
    assert_eq!(App::parse_command(".>"), None);
}

#[test]
fn new_session_starts_on_the_first_page() {
    let app = App::new(opts(false), screen(40, 12), "/base".to_string(), mixed());
    assert_eq!(app.parent(), "/base");
    assert!(!app.show_hidden());
    assert_eq!(app.page_num(), 0);
    assert_eq!(app.input(), "");
    assert_eq!(app.prefix(), "");
    assert_eq!(app.matcher().len(), 2);
    assert_eq!(app.matcher().item_at(0), Some(&entry("A", true)));
    assert_eq!(app.matcher().item_at(1), Some(&entry("b.txt", false)));
}

#[test]
fn new_session_asks_for_the_terminal() {
    let mut app = App::new(opts(false), screen(40, 12), "/base".to_string(), mixed());
    assert_eq!(
        app.take_commands(),
        vec![
            Command::RawMode(true),
            Command::EnterAlternateScreen,
            Command::MoveTo(0, 0),
            Command::HideCursor,
            Command::Flush,
        ]
    );
}

#[test]
fn show_draws_the_directory_and_the_page() {
    let mut app = App::new(opts(false), screen(14, 3), "/base".to_string(), mixed());
    app.take_commands();
    app.show();
    assert_eq!(
        app.take_commands(),
        vec![
            Command::MoveTo(0, 0),
            plain("              "),
            Command::MoveTo(0, 1),
            plain("              "),
            Command::Flush,
            Command::MoveTo(0, 0),
            Command::Print(StyledText {
                text: "/base".to_string(),
                color: Color::Yellow,
                bold: false
            }),
            Command::Flush,
            Command::MoveTo(0, 2),
            plain("              "),
            Command::Flush,
            Command::MoveTo(0, 2),
            Command::MoveTo(0, 2),
            plain("["),
            blue(""),
            plain("aa]"),
            Command::Print(StyledText { text: "A".to_string(), color: Color::Blue, bold: true }),
            Command::Flush,
        ]
    );
}

#[test]
fn typing_a_code_of_a_directory_asks_to_open_it() {
    let mut app = session(mixed(), screen(40, 12));
    assert_eq!(app.step(InputEvent::Key('a')), Action::Continue);
    assert_eq!(app.prefix(), "a");
    assert_eq!(app.input(), "a");
    assert_eq!(app.step(InputEvent::Key('a')), Action::Open("/base/A".to_string()));
}

#[test]
fn typing_a_code_of_a_file_ends_with_its_path() {
    let mut app = session(mixed(), screen(40, 12));
    assert_eq!(type_text(&mut app, "ab"), Action::Finish("/base/b.txt".to_string()));
}

#[test]
fn a_character_that_starts_no_code_is_logged_but_not_taken() {
    let mut app = session(mixed(), screen(40, 12));
    assert_eq!(type_text(&mut app, "az"), Action::Continue);
    assert_eq!(app.prefix(), "a");
    assert_eq!(app.input(), "az");
    assert_eq!(app.step(InputEvent::Key('b')), Action::Finish("/base/b.txt".to_string()));
}

#[test]
fn an_accepted_character_redraws_the_page() {
    let mut app = session(mixed(), screen(40, 12));
    app.step(InputEvent::Key('a'));
    let commands = app.take_commands();
    assert!(!commands.is_empty());
    assert_eq!(commands.last(), Some(&Command::Flush));
    assert!(commands.contains(&blue("a")));
    app.step(InputEvent::Key('z'));
    assert_eq!(app.take_commands(), Vec::new());
}

#[test]
fn escape_clears_the_prefix_only() {
    let mut app = session(mixed(), screen(40, 12));
    type_text(&mut app, "xa");
    assert_eq!(app.prefix(), "a");
    app.take_commands();
    assert_eq!(app.step(InputEvent::Clear), Action::Continue);
    assert_eq!(app.prefix(), "");
    assert_eq!(app.input(), "xa");
    assert_eq!(app.page_num(), 0);
    assert!(app.take_commands().contains(&blue("")));
    assert_eq!(app.step(InputEvent::Clear), Action::Continue);
    assert_eq!(app.take_commands(), Vec::new());
}

#[test]
fn enter_ends_with_the_current_directory() {
    let mut app = session(mixed(), screen(40, 12));
    assert_eq!(app.step(InputEvent::Accept), Action::Finish("/base".to_string()));
    assert_eq!(app.take_commands(), Vec::new());
}

#[test]
fn quit_leaves_without_a_choice() {
    let mut app = session(mixed(), screen(40, 12));
    type_text(&mut app, "a");
    assert_eq!(app.step(InputEvent::Quit), Action::Quit);
    assert_eq!(app.prefix(), "a");
}

#[test]
fn nothing_changes_nothing() {
    let mut app = session(mixed(), screen(40, 12));
    type_text(&mut app, "a");
    app.take_commands();
    assert_eq!(app.step(InputEvent::Nothing), Action::Continue);
    assert_eq!(app.prefix(), "a");
    assert_eq!(app.input(), "a");
    assert_eq!(app.take_commands(), Vec::new());
}

#[test]
fn toggling_hidden_asks_for_the_directory_again() {
    let mut app = session(mixed(), screen(40, 12));
    assert_eq!(app.step(InputEvent::ToggleHidden), Action::Open("/base".to_string()));
    assert!(app.show_hidden());
    app.open("/base".to_string(), mixed());
    assert_eq!(app.matcher().len(), 3);
    assert_eq!(app.step(InputEvent::ToggleHidden), Action::Open("/base".to_string()));
    assert!(!app.show_hidden());
    app.open("/base".to_string(), mixed());
    assert_eq!(app.matcher().len(), 2);
}

#[test]
fn codes_point_at_the_new_candidates_after_toggling() {
    let mut app = session(mixed(), screen(40, 12));
    type_text(&mut app, "a");
    app.step(InputEvent::ToggleHidden);
    app.open("/base".to_string(), mixed());
    assert_eq!(app.prefix(), "");
    assert_eq!(app.input(), "");
    assert_eq!(app.page_num(), 0);
    assert_eq!(type_text(&mut app, "ab"), Action::Open("/base/.git".to_string()));
    app.open("/base".to_string(), mixed());
    assert_eq!(type_text(&mut app, "ac"), Action::Finish("/base/b.txt".to_string()));
}

#[test]
fn two_dots_ask_for_the_directory_above() {
    let mut app = session(mixed(), screen(40, 12));
    assert_eq!(app.step(InputEvent::Key('.')), Action::Continue);
    assert_eq!(app.step(InputEvent::Key('.')), Action::Back);
    app.open("/".to_string(), vec![entry("base", true)]);
    assert_eq!(app.parent(), "/");
    assert_eq!(app.input(), "");
    assert_eq!(type_text(&mut app, "aa"), Action::Open("/base/base".to_string()));
}

#[test]
fn pages_turn_forth_and_back() {
    let mut app = session(numbered(10), screen(8, 4));
    assert_eq!(app.matcher().pages(), 5);
    assert_eq!(type_text(&mut app, ">>"), Action::Continue);
    assert_eq!(app.page_num(), 1);
    assert_eq!(app.input(), "");
    assert_eq!(type_text(&mut app, "aa"), Action::Finish("/base/0002".to_string()));
    assert_eq!(app.step(InputEvent::Clear), Action::Continue);
    assert_eq!(type_text(&mut app, "<<"), Action::Continue);
    assert_eq!(app.page_num(), 0);
    assert_eq!(type_text(&mut app, "ab"), Action::Finish("/base/0001".to_string()));
}

#[test]
fn turning_a_page_forgets_the_prefix_and_redraws() {
    let mut app = session(numbered(10), screen(8, 4));
    type_text(&mut app, "a");
    app.take_commands();
    type_text(&mut app, ">>");
    assert_eq!(app.prefix(), "");
    let commands = app.take_commands();
    assert!(commands.contains(&plain("0002")));
    assert!(!commands.contains(&plain("0000")));
    assert!(!commands.contains(&blue("a")));
}

#[test]
fn there_is_no_page_before_the_first() {
    let mut app = session(numbered(10), screen(8, 4));
    type_text(&mut app, "a");
    app.take_commands();
    assert_eq!(type_text(&mut app, "<<"), Action::Continue);
    assert_eq!(app.page_num(), 0);
    assert_eq!(app.input(), "");
    assert_eq!(app.prefix(), "a");
    assert_eq!(app.take_commands(), Vec::new());
}

#[test]
fn there_is_no_page_after_the_last() {
    let mut app = session(numbered(10), screen(8, 4));
    for _ in 0..4 {
        type_text(&mut app, ">>");
    }
    assert_eq!(app.page_num(), 4);
    app.take_commands();
    assert_eq!(type_text(&mut app, ">>"), Action::Continue);
    assert_eq!(app.page_num(), 4);
    assert_eq!(app.input(), "");
    assert_eq!(app.take_commands(), Vec::new());
    assert_eq!(type_text(&mut app, "ab"), Action::Finish("/base/0009".to_string()));
}

#[test]
fn an_empty_directory_has_one_empty_page() {
    let mut app = session(Vec::new(), screen(40, 12));
    assert_eq!(app.matcher().pages(), 1);
    assert_eq!(type_text(&mut app, "aa"), Action::Continue);
    assert_eq!(app.prefix(), "");
    assert_eq!(type_text(&mut app, ">>"), Action::Continue);
    assert_eq!(app.page_num(), 0);
    assert_eq!(app.step(InputEvent::Accept), Action::Finish("/base".to_string()));
}

#[test]
fn a_screen_without_room_shows_nothing_to_choose() {
    let mut app = session(numbered(3), screen(4, 12));
    assert_eq!(app.matcher().pages(), 0);
    assert_eq!(type_text(&mut app, "aa"), Action::Continue);
    assert_eq!(app.prefix(), "");
    assert_eq!(type_text(&mut app, ".."), Action::Back);
}

#[test]
fn restore_gives_the_terminal_back_from_the_session() {
    let mut app = session(mixed(), screen(40, 12));
    app.restore();
    assert_eq!(
        app.take_commands(),
        vec![
            Command::MoveTo(0, 0),
            Command::ClearBelow,
            Command::Flush,
            Command::LeaveAlternateScreen,
            Command::ShowCursor,
            Command::Flush,
            Command::RawMode(false),
        ]
    );
}

#[test]
fn update_matcher_replaces_the_candidates() {
    let mut app = session(mixed(), screen(40, 12));
    type_text(&mut app, "a");
    app.update_matcher(vec![entry("z", false), entry("y", true), entry(".x", true)]);
    assert_eq!(app.prefix(), "");
    assert_eq!(app.input(), "");
    assert_eq!(app.page_num(), 0);
    assert_eq!(app.matcher().len(), 2);
    assert_eq!(app.matcher().item_at(0), Some(&entry("y", true)));
    assert_eq!(app.matcher().item_at(1), Some(&entry("z", false)));
}

#[test]
fn selection_starts_on_the_first_page() {
    let items = numbered(3);
    let s = Selection::new(numbered(3), Rect { x: 0, y: 2, width: 8, height: 2 });
    assert_eq!(s.page_number(), 0);
    assert_eq!(s.typed(), "");
    assert_eq!(s.matcher().len(), 3);
    assert_eq!(s.page().len(), 2);
    assert_eq!(s.page().find("ab"), Some(&items[1]));
    assert_eq!(s.result(), None);
}

#[test]
fn selection_turns_only_to_pages_there_are() {
    let items = numbered(3);
    let mut s = Selection::new(numbered(3), Rect { x: 0, y: 2, width: 8, height: 2 });
    assert!(s.push_char('a'));
    assert!(!s.turn_to(2));
    assert_eq!(s.page_number(), 0);
    assert_eq!(s.typed(), "a");
    assert!(s.turn_to(1));
    assert_eq!(s.page_number(), 1);
    assert_eq!(s.typed(), "");
    assert_eq!(s.page().len(), 1);
    assert!(s.push_char('a'));
    assert!(!s.push_char('b'));
    assert!(s.push_char('a'));
    assert_eq!(s.result(), Some(&items[2]));
    assert_eq!(s.page().input(), "aa");
}

#[test]
fn selection_rewinds_and_clears() {
    let mut s = Selection::new(numbered(3), Rect { x: 0, y: 2, width: 8, height: 2 });
    s.turn_to(1);
    s.push_char('a');
    s.clear_input();
    assert_eq!(s.typed(), "");
    assert_eq!(s.page_number(), 1);
    s.push_char('a');
    s.rewind();
    assert_eq!(s.typed(), "");
    assert_eq!(s.page_number(), 0);
}

#[test]
fn selection_replaces_its_candidates() {
    let mut s = Selection::new(numbered(3), Rect { x: 0, y: 2, width: 8, height: 2 });
    s.turn_to(1);
    s.push_char('a');
    s.replace(vec![entry("only", true)]);
    assert_eq!(s.page_number(), 0);
    assert_eq!(s.typed(), "");
    assert_eq!(s.matcher().len(), 1);
    assert_eq!(s.matcher().area(), Rect { x: 0, y: 2, width: 8, height: 2 });
    assert_eq!(s.page().len(), 1);
}

#[test]
fn selection_without_room_shows_an_empty_page() {
    let mut s = Selection::new(numbered(3), Rect { x: 0, y: 2, width: 7, height: 2 });
    assert_eq!(s.page().len(), 0);
    assert!(!s.push_char('a'));
    assert!(!s.turn_to(0));
    assert_eq!(s.result(), None);
}

#[test]
fn what_was_typed_stays_from_step_to_step() {
    let mut app = session(numbered(30), screen(80, 12));
    assert_eq!(app.step(InputEvent::Key('b')), Action::Continue);
    assert_eq!(app.step(InputEvent::Nothing), Action::Continue);
    assert_eq!(app.step(InputEvent::Key('x')), Action::Continue);
    assert_eq!(app.prefix(), "b");
    assert_eq!(app.step(InputEvent::Key('d')), Action::Finish("/base/0029".to_string()));
    assert_eq!(app.prefix(), "bd");
}

#[test]
fn enter_takes_what_is_resolved() {
    let mut app = session(mixed(), screen(40, 12));
    assert_eq!(type_text(&mut app, "aa"), Action::Open("/base/A".to_string()));
    assert_eq!(app.step(InputEvent::Accept), Action::Open("/base/A".to_string()));
    app.step(InputEvent::Clear);
    assert_eq!(type_text(&mut app, "ab"), Action::Finish("/base/b.txt".to_string()));
    assert_eq!(app.step(InputEvent::Accept), Action::Finish("/base/b.txt".to_string()));
    app.step(InputEvent::Clear);
    assert_eq!(app.step(InputEvent::Accept), Action::Finish("/base".to_string()));
}

#[test]
fn commit_opens_directories_and_ends_with_files() {
    assert_eq!(App::commit(&entry("src", true)), Action::Open("/base/src".to_string()));
    assert_eq!(App::commit(&entry("a.c", false)), Action::Finish("/base/a.c".to_string()));
}

#[test]
fn going_back_from_the_top_leads_to_the_root() {
    assert_eq!(App::directory_above(Some("/home".to_string())), "/home");
    assert_eq!(App::directory_above(Some(String::new())), "");
    assert_eq!(App::directory_above(None), "/");
}

#[test]
fn the_session_keeps_its_options() {
    let mut app = session(mixed(), screen(40, 12));
    assert_eq!(app.opts(), &opts(false));
    app.step(InputEvent::ToggleHidden);
    assert_eq!(app.opts(), &opts(true));
    app.open("/elsewhere".to_string(), mixed());
    assert_eq!(app.opts().base_path, "/base");
    assert_eq!(app.opts().program_name, "dirhop");
}
