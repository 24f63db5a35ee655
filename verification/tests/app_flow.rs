use std::collections::BTreeMap;

use skills::app::{App, Mode, Outcome, Request};
use skills::data::DirItem;
use skills::editor::editor_text_lines;
use skills::key::{KeyCode, KeyInput, CONTROL};

/// An in-memory store that answers the app's requests.
#[derive(Default)]
struct Store {
    cats: BTreeMap<String, BTreeMap<String, String>>,
    copied: Vec<String>,
    requests: Vec<String>,
}

impl Store {
    fn with(entries: &[(&str, &str, &str)]) -> Store {
        let mut s = Store::default();
        for (c, n, t) in entries {
            s.cats.entry(c.to_string()).or_default().insert(n.to_string(), t.to_string());
        }
        s
    }

    fn run(&mut self, app: &mut App) {
        loop {
            let outcome = match app.action() {
                Request::Nothing => break,
                Request::ListCategories => {
                    self.requests.push("list".to_string());
                    Outcome::Listing(
                        self.cats
                            .keys()
                            .map(|c| DirItem { name: c.clone(), is_dir: true, is_file: false })
                            .collect(),
                    )
                }
                Request::ListEntries { category } => {
                    self.requests.push(format!("list {category}"));
                    Outcome::Listing(
                        self.cats
                            .get(&category)
                            .map(|m| {
                                m.keys()
                                    .map(|n| DirItem {
                                        name: n.clone(),
                                        is_dir: false,
                                        is_file: true,
                                    })
                                    .collect()
                            })
                            .unwrap_or_default(),
                    )
                }
                Request::ReadEntry { category, name } => {
                    self.requests.push(format!("read {category}/{name}"));
                    Outcome::Text(self.cats[&category][&name].clone())
                }
                Request::SaveEntry { category, name, content } => {
                    self.requests.push(format!("save {category}/{name}"));
                    self.cats.entry(category).or_default().insert(name, content);
                    Outcome::Done
                }
                Request::DeleteEntry { category, name } => {
                    self.requests.push(format!("delete {category}/{name}"));
                    self.cats.get_mut(&category).map(|m| m.remove(&name));
                    Outcome::Done
                }
                Request::Copy { text } => {
                    self.copied.push(text);
                    Outcome::Done
                }
            };
            app.resume(outcome);
        }
    }

    fn press(&mut self, app: &mut App, k: KeyInput) -> bool {
        let quit = app.handle_key(k);
        self.run(app);
        quit
    }

    fn chars(&mut self, app: &mut App, s: &str) {
        for c in s.chars() {
            self.press(app, ch(c));
        }
    }
}

fn ch(c: char) -> KeyInput {
    KeyInput::plain(KeyCode::Char(c))
}

fn code(c: KeyCode) -> KeyInput {
    KeyInput::plain(c)
}

fn sample() -> Store {
    Store::with(&[
        ("agents", "sisyphus", "# Sisyphus\nrolls the *rock*"),
        ("agents", "assistant-roles", "roles"),
        ("prompts", "debug-pro", "line 1\nline 2\nline 3\nline 4"),
    ])
}

fn started(store: &mut Store) -> App {
    let mut app = App::new();
    store.run(&mut app);
    app
}

#[test]
fn startup_lists_categories_and_first_entries() {
    let mut store = sample();
    let app = started(&mut store);
    assert_eq!(app.categories, vec!["agents", "prompts"]);
    assert_eq!(app.entries, vec!["assistant-roles", "sisyphus"]);
    assert_eq!((app.cat_idx, app.entry_idx, app.focus_right), (0, 0, false));
    assert!(matches!(app.mode, Mode::Browse));
    assert_eq!(app.selected_category(), Some("agents"));
    assert_eq!(app.selected_entry(), Some("assistant-roles"));
    assert_eq!(store.requests, vec!["list", "list agents"]);
}

#[test]
fn startup_with_no_data() {
    let mut store = Store::default();
    let app = started(&mut store);
    assert!(app.categories.is_empty());
    assert!(app.entries.is_empty());
    assert_eq!(app.selected_category(), None);
    assert_eq!(app.selected_entry(), None);
}

#[test]
fn j_and_k_move_between_categories() {
    let mut store = sample();
    let mut app = started(&mut store);
    store.press(&mut app, ch('j'));
    assert_eq!(app.cat_idx, 1);
    assert_eq!(app.entries, vec!["debug-pro"]);
    store.press(&mut app, code(KeyCode::Down));
    assert_eq!(app.cat_idx, 1);
    store.press(&mut app, ch('k'));
    assert_eq!(app.cat_idx, 0);
    assert_eq!(app.entries, vec!["assistant-roles", "sisyphus"]);
    store.press(&mut app, code(KeyCode::Up));
    assert_eq!(app.cat_idx, 0);
}

#[test]
fn entry_selection_stays_in_range_after_category_change() {
    let mut store = sample();
    let mut app = started(&mut store);
    store.press(&mut app, ch('l'));
    store.press(&mut app, ch('j'));
    assert_eq!(app.entry_idx, 1);
    store.press(&mut app, ch('h'));
    store.press(&mut app, ch('j'));
    assert_eq!(app.entries, vec!["debug-pro"]);
    assert_eq!(app.entry_idx, 0);
}

#[test]
fn focus_moves_to_entries_and_back() {
    let mut store = sample();
    let mut app = started(&mut store);
    store.press(&mut app, code(KeyCode::Tab));
    assert!(app.focus_right);
    store.press(&mut app, ch('j'));
    assert_eq!(app.entry_idx, 1);
    store.press(&mut app, ch('j'));
    assert_eq!(app.entry_idx, 1);
    store.press(&mut app, ch('k'));
    assert_eq!(app.entry_idx, 0);
    store.press(&mut app, code(KeyCode::Left));
    assert!(!app.focus_right);
    store.press(&mut app, code(KeyCode::Enter));
    assert!(app.focus_right);
}

#[test]
fn focus_needs_entries() {
    let mut store = Store::with(&[("a", "x", "x")]);
    store.cats.insert("b".to_string(), BTreeMap::new());
    let mut app = started(&mut store);
    store.press(&mut app, ch('j'));
    assert!(app.entries.is_empty());
    store.press(&mut app, ch('l'));
    assert!(!app.focus_right);
}

#[test]
fn enter_on_entry_views_its_content() {
    let mut store = sample();
    let mut app = started(&mut store);
    store.press(&mut app, ch('l'));
    store.press(&mut app, ch('j'));
    store.press(&mut app, code(KeyCode::Enter));
    match &app.mode {
        Mode::Viewing { content, rendered, scroll } => {
            assert_eq!(content, "# Sisyphus\nrolls the *rock*");
            assert!(*rendered);
            assert_eq!(*scroll, 0);
        }
        _ => panic!("not viewing"),
    }
    assert!(store.requests.contains(&"read agents/sisyphus".to_string()));
}

fn scroll_of(app: &App) -> (bool, u16) {
    match &app.mode {
        Mode::Viewing { rendered, scroll, .. } => (*rendered, *scroll),
        _ => panic!("not viewing"),
    }
}

#[test]
fn viewer_scrolls_and_toggles() {
    let mut store = sample();
    let mut app = started(&mut store);
    store.press(&mut app, ch('j'));
    store.press(&mut app, ch('l'));
    store.press(&mut app, code(KeyCode::Enter));
    store.press(&mut app, ch('j'));
    store.press(&mut app, ch('j'));
    assert_eq!(scroll_of(&app), (true, 2));
    store.press(&mut app, ch('k'));
    assert_eq!(scroll_of(&app), (true, 1));
    store.press(&mut app, ch('d'));
    assert_eq!(scroll_of(&app), (true, 11));
    store.press(&mut app, ch('u'));
    assert_eq!(scroll_of(&app), (true, 1));
    store.press(&mut app, ch('u'));
    assert_eq!(scroll_of(&app), (true, 0));
    store.press(&mut app, code(KeyCode::Tab));
    assert_eq!(scroll_of(&app), (false, 0));
    store.press(&mut app, ch('G'));
    assert_eq!(scroll_of(&app), (false, 4));
    app.view_height = 3;
    store.press(&mut app, ch('G'));
    assert_eq!(scroll_of(&app), (false, 1));
    app.view_height = 10;
    store.press(&mut app, ch('G'));
    assert_eq!(scroll_of(&app), (false, 0));
    store.press(&mut app, ch('g'));
    assert_eq!(scroll_of(&app), (false, 0));
    store.press(&mut app, code(KeyCode::Tab));
    assert_eq!(scroll_of(&app), (true, 0));
    store.press(&mut app, code(KeyCode::Esc));
    assert!(matches!(app.mode, Mode::Browse));
    assert_eq!((app.cat_idx, app.entry_idx), (1, 0));
}

#[test]
fn bottom_counts_rendered_lines() {
    let mut store = Store::with(&[("c", "n", "a\n```\nb\n```\nc")]);
    let mut app = started(&mut store);
    store.press(&mut app, ch('l'));
    store.press(&mut app, code(KeyCode::Enter));
    store.press(&mut app, ch('G'));
    assert_eq!(scroll_of(&app), (true, 3));
    store.press(&mut app, code(KeyCode::Tab));
    store.press(&mut app, ch('G'));
    assert_eq!(scroll_of(&app), (false, 5));
}

#[test]
fn y_copies_the_viewed_content() {
    let mut store = sample();
    let mut app = started(&mut store);
    store.press(&mut app, ch('l'));
    store.press(&mut app, code(KeyCode::Enter));
    store.press(&mut app, ch('y'));
    assert_eq!(store.copied, vec!["roles"]);
    assert!(matches!(app.mode, Mode::Viewing { .. }));
}

#[test]
fn q_quits_from_browse_only() {
    let mut store = sample();
    let mut app = started(&mut store);
    store.press(&mut app, ch('l'));
    store.press(&mut app, code(KeyCode::Enter));
    assert!(!store.press(&mut app, ch('q')));
    assert!(matches!(app.mode, Mode::Browse));
    assert!(store.press(&mut app, ch('q')));
    assert!(store.press(&mut app, code(KeyCode::Esc)));
}

#[test]
fn add_flow_with_new_category_selects_the_new_entry() {
    let mut store = sample();
    let mut app = started(&mut store);
    store.press(&mut app, ch('a'));
    assert!(matches!(app.mode, Mode::AddStep1));
    assert_eq!(editor_text_lines(&app.textarea), vec![""]);
    store.chars(&mut app, "hello");
    store.press(&mut app, code(KeyCode::Enter));
    store.chars(&mut app, "world");
    assert_eq!(editor_text_lines(&app.textarea), vec!["hello", "world"]);
    store.press(&mut app, KeyInput::with_modifiers(KeyCode::Char('d'), CONTROL));
    assert!(matches!(app.mode, Mode::AddStep2 { cat_typing: false }));
    assert_eq!(app.add_content, "hello\nworld");
    assert_eq!(app.add_cat_list, vec!["agents", "prompts"]);
    store.press(&mut app, ch('j'));
    store.press(&mut app, ch('j'));
    store.press(&mut app, ch('j'));
    assert_eq!(app.add_cat_idx, 2);
    store.press(&mut app, code(KeyCode::Enter));
    assert!(matches!(app.mode, Mode::AddStep2 { cat_typing: true }));
    store.chars(&mut app, "  new cat x");
    store.press(&mut app, code(KeyCode::Backspace));
    store.press(&mut app, code(KeyCode::Backspace));
    store.press(&mut app, code(KeyCode::Enter));
    assert!(matches!(app.mode, Mode::AddStep3));
    assert_eq!(app.add_category, "new cat");
    store.chars(&mut app, " my note ");
    store.press(&mut app, code(KeyCode::Enter));
    assert!(matches!(app.mode, Mode::Browse));
    assert_eq!(store.cats["new cat"]["my note"], "hello\nworld");
    assert_eq!(app.selected_category(), Some("new cat"));
    assert_eq!(app.selected_entry(), Some("my note"));
    assert!(app.focus_right);
    assert_eq!(app.message.as_deref(), Some("✓ 已保存: new cat/my note"));
    store.press(&mut app, ch('j'));
    assert_eq!(app.message, None);
}

#[test]
fn add_flow_into_existing_category() {
    let mut store = sample();
    let mut app = started(&mut store);
    store.press(&mut app, ch('a'));
    store.chars(&mut app, "text");
    store.press(&mut app, KeyInput::with_modifiers(KeyCode::Char('d'), CONTROL));
    store.press(&mut app, ch('j'));
    store.press(&mut app, code(KeyCode::Enter));
    assert_eq!(app.add_category, "prompts");
    store.chars(&mut app, "aaa");
    store.press(&mut app, code(KeyCode::Enter));
    assert_eq!(app.categories, vec!["agents", "prompts"]);
    assert_eq!(app.entries, vec!["aaa", "debug-pro"]);
    assert_eq!((app.cat_idx, app.entry_idx), (1, 0));
}

#[test]
fn blank_content_is_not_submitted() {
    let mut store = sample();
    let mut app = started(&mut store);
    store.press(&mut app, ch('a'));
    store.chars(&mut app, "   ");
    store.press(&mut app, KeyInput::with_modifiers(KeyCode::Char('d'), CONTROL));
    assert!(matches!(app.mode, Mode::AddStep1));
    store.press(&mut app, KeyInput::with_modifiers(KeyCode::Char('d'), CONTROL | 1));
    assert!(matches!(app.mode, Mode::AddStep1));
    store.press(&mut app, code(KeyCode::Esc));
    assert!(matches!(app.mode, Mode::Browse));
}

#[test]
fn blank_names_are_not_accepted() {
    let mut store = sample();
    let mut app = started(&mut store);
    store.press(&mut app, ch('a'));
    store.chars(&mut app, "x");
    store.press(&mut app, KeyInput::with_modifiers(KeyCode::Char('d'), CONTROL));
    store.press(&mut app, ch('j'));
    store.press(&mut app, ch('j'));
    store.press(&mut app, code(KeyCode::Enter));
    store.chars(&mut app, "  ");
    store.press(&mut app, code(KeyCode::Enter));
    assert!(matches!(app.mode, Mode::AddStep2 { cat_typing: true }));
    store.press(&mut app, code(KeyCode::Esc));
    assert!(matches!(app.mode, Mode::AddStep2 { cat_typing: false }));
    store.press(&mut app, ch('k'));
    store.press(&mut app, code(KeyCode::Enter));
    store.press(&mut app, code(KeyCode::Enter));
    assert!(matches!(app.mode, Mode::AddStep3));
    store.press(&mut app, code(KeyCode::Esc));
    assert!(matches!(app.mode, Mode::Browse));
    assert_eq!(store.cats["agents"].len(), 2);
}

#[test]
fn delete_asks_and_removes() {
    let mut store = sample();
    let mut app = started(&mut store);
    store.press(&mut app, ch('l'));
    store.press(&mut app, ch('j'));
    store.press(&mut app, ch('d'));
    assert!(matches!(app.mode, Mode::ConfirmDelete));
    assert_eq!(app.del_target, Some(("agents".to_string(), "sisyphus".to_string())));
    store.press(&mut app, ch('y'));
    assert!(matches!(app.mode, Mode::Browse));
    assert_eq!(app.del_target, None);
    assert!(!store.cats["agents"].contains_key("sisyphus"));
    assert_eq!(app.entries, vec!["assistant-roles"]);
    assert_eq!(app.entry_idx, 0);
    assert_eq!(app.message.as_deref(), Some("✓ 已删除"));
}

#[test]
fn delete_is_cancelled_by_other_keys() {
    let mut store = sample();
    let mut app = started(&mut store);
    store.press(&mut app, ch('d'));
    assert!(matches!(app.mode, Mode::ConfirmDelete));
    store.press(&mut app, ch('n'));
    assert!(matches!(app.mode, Mode::Browse));
    assert_eq!(app.del_target, None);
    assert_eq!(store.cats["agents"].len(), 2);
}

#[test]
fn delete_needs_a_selected_entry() {
    let mut store = Store::default();
    let mut app = started(&mut store);
    store.press(&mut app, ch('d'));
    assert!(matches!(app.mode, Mode::Browse));
}

#[test]
fn typing_a_category_takes_j_and_k_as_letters() {
    let mut store = sample();
    let mut app = started(&mut store);
    store.press(&mut app, ch('a'));
    store.chars(&mut app, "x");
    store.press(&mut app, KeyInput::with_modifiers(KeyCode::Char('d'), CONTROL));
    store.press(&mut app, ch('j'));
    store.press(&mut app, ch('j'));
    store.press(&mut app, code(KeyCode::Enter));
    store.press(&mut app, code(KeyCode::Backspace));
    assert_eq!(app.add_cat_input, "");
    store.chars(&mut app, "jk");
    assert_eq!(app.add_cat_input, "jk");
    assert!(matches!(app.mode, Mode::AddStep2 { cat_typing: true }));
    store.press(&mut app, code(KeyCode::Backspace));
    assert_eq!(app.add_cat_input, "j");
    store.press(&mut app, code(KeyCode::Esc));
    assert!(matches!(app.mode, Mode::AddStep2 { cat_typing: false }));
    assert_eq!(app.add_cat_input, "j");
}

#[test]
fn only_saving_and_deleting_write() {
    let mut store = sample();
    let mut app = started(&mut store);
    for k in ['j', 'k', 'l', 'h', 'q', 'x', 'G'] {
        store.press(&mut app, ch(k));
    }
    store.press(&mut app, ch('l'));
    store.press(&mut app, code(KeyCode::Enter));
    for k in ['j', 'G', 'g', 'y', 'd', 'u'] {
        store.press(&mut app, ch(k));
    }
    store.press(&mut app, code(KeyCode::Esc));
    store.press(&mut app, ch('d'));
    store.press(&mut app, code(KeyCode::Esc));
    assert!(store.requests.iter().all(|r| !r.starts_with("save") && !r.starts_with("delete")));
    assert_eq!(app.message, None);
}

#[test]
fn step1_keys_reach_the_editor_with_their_modifiers() {
    let mut store = sample();
    let mut app = started(&mut store);
    store.press(&mut app, ch('a'));
    store.chars(&mut app, "ab");
    store.press(&mut app, KeyInput::with_modifiers(KeyCode::Char('A'), 1));
    assert_eq!(editor_text_lines(&app.textarea), vec!["abA"]);
    store.press(&mut app, KeyInput::with_modifiers(KeyCode::Char('a'), CONTROL));
    store.chars(&mut app, "z");
    assert_eq!(editor_text_lines(&app.textarea), vec!["zabA"]);
}

#[test]
fn esc_goes_back_and_keeps_the_selection() {
    let mut store = sample();
    let mut app = started(&mut store);
    store.press(&mut app, ch('j'));
    store.press(&mut app, ch('l'));
    let before = (app.categories.clone(), app.cat_idx, app.entries.clone(), app.entry_idx, app.focus_right);
    store.press(&mut app, code(KeyCode::Enter));
    assert!(matches!(app.mode, Mode::Viewing { .. }));
    assert!(!store.press(&mut app, code(KeyCode::Esc)));
    assert!(matches!(app.mode, Mode::Browse));
    store.press(&mut app, ch('d'));
    assert!(matches!(app.mode, Mode::ConfirmDelete));
    assert!(!store.press(&mut app, code(KeyCode::Esc)));
    assert!(matches!(app.mode, Mode::Browse));
    store.press(&mut app, ch('a'));
    assert!(!store.press(&mut app, code(KeyCode::Esc)));
    assert!(matches!(app.mode, Mode::Browse));
    let after = (app.categories.clone(), app.cat_idx, app.entries.clone(), app.entry_idx, app.focus_right);
    assert_eq!(before, after);
    assert!(store.requests.iter().all(|r| !r.starts_with("save") && !r.starts_with("delete")));
}
