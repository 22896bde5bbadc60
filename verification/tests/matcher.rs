use dirhop::matcher::{
    index_of_label, is_start_of_label, starts_some_label, widest, MatchError, Matcher,
    MatcherPage,
};
use dirhop::tui::Style;
use dirhop::util::DisplayablePathBuf;
use dirhop::Rect;

fn entry(name: &str, is_dir: bool) -> DisplayablePathBuf {
    DisplayablePathBuf::new(format!("/base/{name}"), name.to_string(), is_dir)
}

fn numbered(count: usize) -> Vec<DisplayablePathBuf> {
    (0..count).map(|i| entry(&format!("{i:04}"), false)).collect()
}

fn rect(width: u16, height: u16) -> Rect {
    Rect { x: 0, y: 0, width, height }
}

fn chars(s: &str) -> Vec<char> {
    s.chars().collect()
}

#[test]
fn push_accepts_the_start_of_a_code_and_resolves_the_whole() {
    let items = numbered(27);
    let mut page = MatcherPage::new(&items).unwrap();
    assert!(page.push_char('a'));
    assert_eq!(page.input(), "a");
    assert_eq!(page.result(), None);
    assert!(page.push_char('a'));
    assert_eq!(page.input(), "aa");
    assert_eq!(page.result(), Some(&items[0]));
}

#[test]
fn push_reaches_the_second_row_of_codes() {
    let items = numbered(27);
    let mut page = MatcherPage::new(&items).unwrap();
    assert!(page.push_char('b'));
    assert!(!page.push_char('b'));
    assert_eq!(page.input(), "b");
    assert!(page.push_char('a'));
    assert_eq!(page.result(), Some(&items[26]));
}

#[test]
fn push_rejects_what_starts_no_code_and_keeps_the_prefix() {
    let items = numbered(3);
    let mut page = MatcherPage::new(&items).unwrap();
    assert!(page.push_char('a'));
    assert!(!page.push_char('z'));
    assert_eq!(page.input(), "a");
    assert!(!page.push_char('d'));
    assert_eq!(page.input(), "a");
    assert!(page.push_char('c'));
    assert_eq!(page.result(), Some(&items[2]));
}

#[test]
fn push_rejects_a_first_letter_that_no_code_has() {
    let items = numbered(3);
    let mut page = MatcherPage::new(&items).unwrap();
    assert!(!page.push_char('b'));
    assert!(!page.push_char('A'));
    assert!(!page.push_char('.'));
    assert!(!page.push_char('1'));
    assert_eq!(page.input(), "");
}

#[test]
fn push_rejects_a_third_character() {
    let items = numbered(30);
    let mut page = MatcherPage::new(&items).unwrap();
    assert!(page.push_char('a'));
    assert!(page.push_char('b'));
    assert!(!page.push_char('a'));
    assert_eq!(page.input(), "ab");
    assert_eq!(page.result(), Some(&items[1]));
}

#[test]
fn push_rejects_everything_on_an_empty_page() {
    let items: Vec<DisplayablePathBuf> = Vec::new();
    let mut page = MatcherPage::new(&items).unwrap();
    assert!(!page.push_char('a'));
    assert_eq!(page.input(), "");
    assert_eq!(page.result(), None);
    assert!(!page.is_prefix_valid(""));
}

#[test]
fn result_is_none_for_a_short_prefix() {
    let items = numbered(5);
    let mut page = MatcherPage::new(&items).unwrap();
    assert_eq!(page.result(), None);
    page.push_char('a');
    assert_eq!(page.result(), None);
}

#[test]
fn clear_input_forgets_the_prefix_only() {
    let items = numbered(5);
    let mut page = MatcherPage::new(&items).unwrap();
    page.push_char('a');
    page.clear_input();
    assert_eq!(page.input(), "");
    assert_eq!(page.len(), 5);
    assert!(page.push_char('a'));
    assert!(page.push_char('e'));
    assert_eq!(page.result(), Some(&items[4]));
}

#[test]
fn is_prefix_valid_looks_at_the_codes_of_the_page() {
    let items = numbered(28);
    let page = MatcherPage::new(&items).unwrap();
    assert!(page.is_prefix_valid(""));
    assert!(page.is_prefix_valid("a"));
    assert!(page.is_prefix_valid("b"));
    assert!(page.is_prefix_valid("az"));
    assert!(page.is_prefix_valid("bb"));
    assert!(!page.is_prefix_valid("bc"));
    assert!(!page.is_prefix_valid("c"));
    assert!(!page.is_prefix_valid("aaa"));
    assert!(!page.is_prefix_valid("é"));
}

#[test]
fn find_takes_whole_codes_only() {
    let items = numbered(28);
    let page = MatcherPage::new(&items).unwrap();
    assert_eq!(page.find("aa"), Some(&items[0]));
    assert_eq!(page.find("bb"), Some(&items[27]));
    assert_eq!(page.find("bc"), None);
    assert_eq!(page.find("a"), None);
    assert_eq!(page.find(""), None);
    assert_eq!(page.find("aaa"), None);
    assert_eq!(page.find("AA"), None);
    assert_eq!(page.find("a{"), None);
    assert_eq!(page.find("`a"), None);
}

#[test]
fn select_says_no_match() {
    let items = numbered(3);
    let page = MatcherPage::new(&items).unwrap();
    assert_eq!(page.select("ab"), Ok(&items[1]));
    assert_eq!(page.select("ad"), Err(MatchError::NoMatch));
    assert_eq!(page.select("zz"), Err(MatchError::NoMatch));
    assert_eq!(page.select("a"), Err(MatchError::NoMatch));
}

#[test]
fn page_of_more_items_than_codes_is_turned_down() {
    let items = numbered(677);
    assert!(matches!(MatcherPage::new(&items), Err(MatchError::CapacityExceeded)));
    let fits = numbered(676);
    let page = MatcherPage::new(&fits).unwrap();
    assert_eq!(page.len(), 676);
    assert_eq!(page.find("zz"), Some(&fits[675]));
}

#[test]
fn iter_pairs_items_with_codes() {
    let items = numbered(3);
    let page = MatcherPage::new(&items).unwrap();
    let pairs = page.iter();
    assert_eq!(
        pairs,
        vec![
            (&items[0], "aa".to_string()),
            (&items[1], "ab".to_string()),
            (&items[2], "ac".to_string()),
        ]
    );
}

#[test]
fn item_size_is_the_longest_name() {
    let items = vec![entry("ab", false), entry("abcdef", true), entry("héllo", false)];
    let page = MatcherPage::new(&items).unwrap();
    assert_eq!(page.item_size(), 6);
    assert_eq!(widest(&items), 6);
    let none: Vec<DisplayablePathBuf> = Vec::new();
    assert_eq!(widest(&none), 0);
    let accents = vec![entry("ééééééé", false), entry("abcdef", true)];
    assert_eq!(widest(&accents), 7);
}

#[test]
fn default_page_is_empty() {
    let page = MatcherPage::default();
    assert_eq!(page.len(), 0);
    assert_eq!(page.input(), "");
    assert_eq!(page.result(), None);
}

#[test]
fn set_style_changes_nothing_else() {
    let items = numbered(3);
    let mut page = MatcherPage::new(&items).unwrap();
    page.push_char('a');
    page.set_style(Style::Directories);
    assert_eq!(page.input(), "a");
    assert_eq!(page.len(), 3);
}

#[test]
fn ten_items_fit_one_page_at_height_three() {
    let m = Matcher::new(numbered(10), rect(40, 3));
    assert_eq!(m.page_capacity(), 15);
    assert_eq!(m.pages(), 1);
    let page = m.get(0).unwrap();
    assert_eq!(page.len(), 10);
    assert!(m.get(1).is_none());
}

#[test]
fn ten_items_fit_one_page_at_height_two() {
    let m = Matcher::new(numbered(10), rect(40, 2));
    assert_eq!(m.page_capacity(), 10);
    assert_eq!(m.pages(), 1);
    assert_eq!(m.get(0).unwrap().len(), 10);
    assert!(m.get(1).is_none());
}

#[test]
fn ten_items_make_five_pages_of_two() {
    let items = numbered(10);
    let m = Matcher::new(numbered(10), rect(8, 2));
    assert_eq!(m.page_capacity(), 2);
    assert_eq!(m.pages(), 5);
    for n in 0..5 {
        let page = m.get(n).unwrap();
        assert_eq!(page.len(), 2);
        assert_eq!(page.find("aa"), Some(&items[2 * n]));
        assert_eq!(page.find("ab"), Some(&items[2 * n + 1]));
        assert_eq!(page.find("ac"), None);
    }
    assert!(m.get(5).is_none());
    assert!(m.get(usize::MAX).is_none());
}

#[test]
fn last_page_may_be_shorter() {
    let items = numbered(11);
    let m = Matcher::new(numbered(11), rect(16, 2));
    assert_eq!(m.page_capacity(), 4);
    assert_eq!(m.pages(), 3);
    assert_eq!(m.get(0).unwrap().len(), 4);
    assert_eq!(m.get(1).unwrap().len(), 4);
    let last = m.get(2).unwrap();
    assert_eq!(last.len(), 3);
    assert_eq!(last.find("ac"), Some(&items[10]));
    assert_eq!(last.find("ad"), None);
    assert!(m.get(3).is_none());
}

#[test]
fn no_candidates_make_one_empty_page() {
    let m = Matcher::new(Vec::new(), rect(40, 3));
    assert_eq!(m.len(), 0);
    assert_eq!(m.pages(), 1);
    assert_eq!(m.get(0).unwrap().len(), 0);
    assert!(m.get(1).is_none());
    let tiny = Matcher::new(Vec::new(), rect(0, 0));
    assert_eq!(tiny.pages(), 1);
    assert_eq!(tiny.get(0).unwrap().len(), 0);
}

#[test]
fn no_room_makes_no_page() {
    let m = Matcher::new(numbered(3), rect(7, 3));
    assert_eq!(m.page_capacity(), 0);
    assert_eq!(m.pages(), 0);
    assert!(m.get(0).is_none());
}

#[test]
fn pages_never_hold_more_than_the_codes() {
    let items = numbered(700);
    let m = Matcher::new(numbered(700), rect(800, 100));
    assert_eq!(m.page_capacity(), 676);
    assert_eq!(m.pages(), 2);
    let first = m.get(0).unwrap();
    assert_eq!(first.len(), 676);
    assert_eq!(first.find("zz"), Some(&items[675]));
    let second = m.get(1).unwrap();
    assert_eq!(second.len(), 24);
    assert_eq!(second.find("aa"), Some(&items[676]));
    assert_eq!(second.find("ax"), Some(&items[699]));
    assert_eq!(second.find("ay"), None);
}

#[test]
fn the_widest_candidate_of_all_sets_the_capacity() {
    let mut items = numbered(5);
    items.push(entry("a-much-longer-name", false));
    let m = Matcher::new(items, rect(44, 2));
    assert_eq!(m.page_capacity(), 4);
    assert_eq!(m.pages(), 2);
}

#[test]
fn item_at_gives_the_candidate_at_a_position() {
    let items = numbered(3);
    let m = Matcher::new(numbered(3), rect(40, 3));
    assert_eq!(m.len(), 3);
    assert_eq!(m.item_at(0), Some(&items[0]));
    assert_eq!(m.item_at(2), Some(&items[2]));
    assert_eq!(m.item_at(3), None);
}

#[test]
fn codes_resolve_to_the_new_candidates_after_an_update() {
    let mut m = Matcher::new(vec![entry("old-a", false), entry("old-b", false)], rect(40, 3));
    {
        let page = m.get(0).unwrap();
        assert_eq!(page.find("aa").unwrap().name(), "old-a");
    }
    let fresh = vec![entry("new-x", true), entry("new-y", false), entry("new-z", false)];
    m.update_entries(fresh.clone());
    assert_eq!(m.len(), 3);
    let page = m.get(0).unwrap();
    assert_eq!(page.len(), 3);
    for (i, (item, code)) in page.iter().into_iter().enumerate() {
        assert_eq!(item, &fresh[i]);
        assert_eq!(page.find(&code), Some(&fresh[i]));
    }
    assert_eq!(page.find("ac"), Some(&fresh[2]));
    assert_eq!(page.find("ad"), None);
}

#[test]
fn pages_reuse_the_codes() {
    let m = Matcher::new(numbered(6), rect(16, 1));
    assert_eq!(m.page_capacity(), 2);
    let first: Vec<String> = m.get(0).unwrap().iter().into_iter().map(|p| p.1).collect();
    let second: Vec<String> = m.get(1).unwrap().iter().into_iter().map(|p| p.1).collect();
    assert_eq!(first, vec!["aa", "ab"]);
    assert_eq!(first, second);
}

#[test]
fn helpers_on_codes() {
    assert!(is_start_of_label(&chars(""), 30));
    assert!(is_start_of_label(&chars("b"), 30));
    assert!(is_start_of_label(&chars("be"), 30));
    assert!(!is_start_of_label(&chars("bf"), 30));
    assert!(!is_start_of_label(&chars("bee"), 30));
    assert!(is_start_of_label(&chars("zz"), 675));
    assert!(!is_start_of_label(&chars(""), 676));
    assert!(!is_start_of_label(&chars("a"), usize::MAX));
    assert!(starts_some_label(676, &chars("zz")));
    assert!(starts_some_label(usize::MAX, &chars("zz")));
    assert!(!starts_some_label(usize::MAX, &chars("zza")));
    assert!(starts_some_label(27, &chars("b")));
    assert!(!starts_some_label(26, &chars("b")));
    assert!(!starts_some_label(0, &chars("")));
    assert_eq!(index_of_label(&chars("aa")), Some(0));
    assert_eq!(index_of_label(&chars("zz")), Some(675));
    assert_eq!(index_of_label(&chars("ba")), Some(26));
    assert_eq!(index_of_label(&chars("b")), None);
    assert_eq!(index_of_label(&chars("bA")), None);
}

#[test]
fn no_candidates_are_cut_by_a_width_of_one() {
    let m = Matcher::new(Vec::new(), rect(80, 24));
    assert_eq!(m.item_width(), 1);
    assert_eq!(m.page_capacity(), 676);
    let small = Matcher::new(Vec::new(), rect(5, 3));
    assert_eq!(small.item_width(), 1);
    assert_eq!(small.page_capacity(), 15);
    assert_eq!(small.pages(), 1);
}

#[test]
fn candidates_are_cut_by_the_widest_of_them() {
    let m = Matcher::new(vec![entry("ab", false), entry("abcdef", true)], rect(80, 24));
    assert_eq!(m.item_width(), 10);
    assert_eq!(m.page_capacity(), 192);
    let unnamed = Matcher::new(vec![entry("", false)], rect(80, 24));
    assert_eq!(unnamed.item_width(), 4);
    assert_eq!(unnamed.page_capacity(), 480);
}

#[test]
fn update_entries_cuts_the_pages_anew() {
    let mut m = Matcher::new(numbered(3), rect(80, 24));
    assert_eq!(m.item_width(), 8);
    m.update_entries(Vec::new());
    assert_eq!(m.item_width(), 1);
    m.update_entries(vec![entry("abcdefgh", false)]);
    assert_eq!(m.item_width(), 12);
    assert_eq!(m.area(), rect(80, 24));
}
