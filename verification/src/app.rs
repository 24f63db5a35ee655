use vstd::prelude::*;
use crate::data::{
    categories as list_categories, category_names, entries as list_entries, entry_names,
    is_sorted, lemma_names_len, lemma_sorted, lemma_sorted_contains, lemma_sorted_len, listing_view, sorted, DirItem, DirItemView,
};
use crate::editor::{editor_input, editor_lines, editor_text_lines, fed_key, new_editor, Editor, FedKey};
use crate::key::{KeyCode, KeyInput, CONTROL};
use crate::md::{render, rendered_len};
use crate::text::{chars_of, is_blank, join_lines, law_trim_empty_iff_blank, join_with_newlines, lines, split_lines, trim, trim_string};

verus! {

broadcast use vstd::string::group_string_axioms;

// ---------------------------------------------------------------------------
// Screens, requests and outcomes
// ---------------------------------------------------------------------------

/// The screen the app shows.
pub enum Mode {
    /// The category and entry lists.
    Browse,
    /// One entry's content, rendered as markdown or raw, scrolled down by `scroll` lines.
    Viewing { content: String, rendered: bool, scroll: u16 },
    /// Adding, step 1: typing the content.
    AddStep1,
    /// Adding, step 2: choosing a category, or typing a new one.
    AddStep2 { cat_typing: bool },
    /// Adding, step 3: typing the entry's name.
    AddStep3,
    /// Asking whether to delete the selected entry.
    ConfirmDelete,
}

/// A screen as plain values.
pub enum ModeView {
    Browse,
    Viewing { content: Seq<char>, rendered: bool, scroll: u16 },
    AddStep1,
    AddStep2 { cat_typing: bool },
    AddStep3,
    ConfirmDelete,
}

impl View for Mode {
    type V = ModeView;

    open spec fn view(&self) -> ModeView {
        match self {
            Mode::Browse => ModeView::Browse,
            Mode::Viewing { content, rendered, scroll } => ModeView::Viewing {
                content: content@,
                rendered: *rendered,
                scroll: *scroll,
            },
            Mode::AddStep1 => ModeView::AddStep1,
            Mode::AddStep2 { cat_typing } => ModeView::AddStep2 { cat_typing: *cat_typing },
            Mode::AddStep3 => ModeView::AddStep3,
            Mode::ConfirmDelete => ModeView::ConfirmDelete,
        }
    }
}

/// What to do once the categories have been listed again.
pub enum AfterReload {
    /// Nothing: the app has just started.
    Startup,
    /// Select the entry `name` of `category`, which has just been saved.
    Saved { category: String, name: String },
    /// Report that an entry has been deleted.
    Deleted,
}

pub enum AfterView {
    Startup,
    Saved { category: Seq<char>, name: Seq<char> },
    Deleted,
}

impl View for AfterReload {
    type V = AfterView;

    open spec fn view(&self) -> AfterView {
        match self {
            AfterReload::Startup => AfterView::Startup,
            AfterReload::Saved { category, name } => AfterView::Saved {
                category: category@,
                name: name@,
            },
            AfterReload::Deleted => AfterView::Deleted,
        }
    }
}

/// The storage work that the app waits for, and what it will do with the outcome.
pub enum Pending {
    /// Nothing.
    Idle,
    /// The content of an entry, to view it.
    OpenEntry { category: String, name: String },
    /// The listing of the selected category, to show its entries.
    BrowseEntries { category: String },
    /// The listing of the data directory, to offer its categories when adding.
    AddCategories,
    /// Saving an entry.
    Save { category: String, name: String, content: String },
    /// Deleting an entry.
    Delete { category: String, name: String },
    /// The listing of the data directory, to show the categories again.
    ReloadCategories { after: AfterReload },
    /// The listing of the selected category, after the categories were listed again.
    ReloadEntries { category: String, after: AfterReload },
    /// The listing of the category that an entry was saved in, to select it.
    SavedEntries { category: String, name: String },
    /// Copying a text to the clipboard.
    Copy { text: String },
}

pub enum PendingView {
    Idle,
    OpenEntry { category: Seq<char>, name: Seq<char> },
    BrowseEntries { category: Seq<char> },
    AddCategories,
    Save { category: Seq<char>, name: Seq<char>, content: Seq<char> },
    Delete { category: Seq<char>, name: Seq<char> },
    ReloadCategories { after: AfterView },
    ReloadEntries { category: Seq<char>, after: AfterView },
    SavedEntries { category: Seq<char>, name: Seq<char> },
    Copy { text: Seq<char> },
}

impl View for Pending {
    type V = PendingView;

    open spec fn view(&self) -> PendingView {
        match self {
            Pending::Idle => PendingView::Idle,
            Pending::OpenEntry { category, name } => PendingView::OpenEntry {
                category: category@,
                name: name@,
            },
            Pending::BrowseEntries { category } => PendingView::BrowseEntries {
                category: category@,
            },
            Pending::AddCategories => PendingView::AddCategories,
            Pending::Save { category, name, content } => PendingView::Save {
                category: category@,
                name: name@,
                content: content@,
            },
            Pending::Delete { category, name } => PendingView::Delete {
                category: category@,
                name: name@,
            },
            Pending::ReloadCategories { after } => PendingView::ReloadCategories { after: after@ },
            Pending::ReloadEntries { category, after } => PendingView::ReloadEntries {
                category: category@,
                after: after@,
            },
            Pending::SavedEntries { category, name } => PendingView::SavedEntries {
                category: category@,
                name: name@,
            },
            Pending::Copy { text } => PendingView::Copy { text: text@ },
        }
    }
}

/// The storage work that the app asks of its host.
pub enum Request {
    /// None: wait for the next key.
    Nothing,
    /// Read the content of the entry `name` of `category`.
    ReadEntry { category: String, name: String },
    /// List the data directory.
    ListCategories,
    /// List the directory of `category`.
    ListEntries { category: String },
    /// Write `content` as the entry `name` of `category`, creating the category.
    SaveEntry { category: String, name: String, content: String },
    /// Remove the entry `name` of `category`.
    DeleteEntry { category: String, name: String },
    /// Put `text` on the clipboard.
    Copy { text: String },
}

pub enum RequestView {
    Nothing,
    ReadEntry { category: Seq<char>, name: Seq<char> },
    ListCategories,
    ListEntries { category: Seq<char> },
    SaveEntry { category: Seq<char>, name: Seq<char>, content: Seq<char> },
    DeleteEntry { category: Seq<char>, name: Seq<char> },
    Copy { text: Seq<char> },
}

impl View for Request {
    type V = RequestView;

    open spec fn view(&self) -> RequestView {
        match self {
            Request::Nothing => RequestView::Nothing,
            Request::ReadEntry { category, name } => RequestView::ReadEntry {
                category: category@,
                name: name@,
            },
            Request::ListCategories => RequestView::ListCategories,
            Request::ListEntries { category } => RequestView::ListEntries { category: category@ },
            Request::SaveEntry { category, name, content } => RequestView::SaveEntry {
                category: category@,
                name: name@,
                content: content@,
            },
            Request::DeleteEntry { category, name } => RequestView::DeleteEntry {
                category: category@,
                name: name@,
            },
            Request::Copy { text } => RequestView::Copy { text: text@ },
        }
    }
}

/// What the host hands back once it has done a request.
pub enum Outcome {
    /// The content that was read.
    Text(String),
    /// The items of the directory that was listed (none if it could not be read).
    Listing(Vec<DirItem>),
    /// The write, removal or copy is done.
    Done,
}

pub enum OutcomeView {
    Text(Seq<char>),
    Listing(Seq<DirItemView>),
    Done,
}

impl View for Outcome {
    type V = OutcomeView;

    open spec fn view(&self) -> OutcomeView {
        match self {
            Outcome::Text(t) => OutcomeView::Text(t@),
            Outcome::Listing(l) => OutcomeView::Listing(listing_view(l@)),
            Outcome::Done => OutcomeView::Done,
        }
    }
}

/// The request that the host is to carry out for the work `p` waits for.
pub open spec fn request_for(p: PendingView) -> RequestView {
    match p {
        PendingView::Idle => RequestView::Nothing,
        PendingView::OpenEntry { category, name } => RequestView::ReadEntry { category, name },
        PendingView::BrowseEntries { category } => RequestView::ListEntries { category },
        PendingView::AddCategories => RequestView::ListCategories,
        PendingView::Save { category, name, content } => RequestView::SaveEntry {
            category,
            name,
            content,
        },
        PendingView::Delete { category, name } => RequestView::DeleteEntry { category, name },
        PendingView::ReloadCategories { .. } => RequestView::ListCategories,
        PendingView::ReloadEntries { category, .. } => RequestView::ListEntries { category },
        PendingView::SavedEntries { category, .. } => RequestView::ListEntries { category },
        PendingView::Copy { text } => RequestView::Copy { text },
    }
}

// ---------------------------------------------------------------------------
// The app's state
// ---------------------------------------------------------------------------

/// The state of the app.
pub struct App {
    pub mode: Mode,
    // browse state
    pub categories: Vec<String>,
    pub cat_idx: usize,
    pub entries: Vec<String>,
    pub entry_idx: usize,
    pub focus_right: bool,
    // add flow state
    pub textarea: Editor,
    pub add_content: String,
    pub add_cat_list: Vec<String>,
    pub add_cat_idx: usize,
    pub add_cat_input: String,
    pub add_category: String,
    pub add_name: String,
    // delete
    pub del_target: Option<(String, String)>,
    // transient status message
    pub message: Option<String>,
    /// The height of the viewing area, which the host sets as it draws, so
    /// that `G` can scroll to the exact bottom.
    pub view_height: u16,
    /// The storage work the app waits for.
    pub pending: Pending,
}

/// The app's state as plain values, all but the editor.
#[verifier::ext_equal]
pub struct AppView {
    pub mode: ModeView,
    pub categories: Seq<Seq<char>>,
    pub cat_idx: usize,
    pub entries: Seq<Seq<char>>,
    pub entry_idx: usize,
    pub focus_right: bool,
    pub add_content: Seq<char>,
    pub add_cat_list: Seq<Seq<char>>,
    pub add_cat_idx: usize,
    pub add_cat_input: Seq<char>,
    pub add_category: Seq<char>,
    pub add_name: Seq<char>,
    pub del_target: Option<(Seq<char>, Seq<char>)>,
    pub message: Option<Seq<char>>,
    pub view_height: u16,
    pub pending: PendingView,
}

pub open spec fn pair_view(p: Option<(String, String)>) -> Option<(Seq<char>, Seq<char>)> {
    match p {
        Some((a, b)) => Some((a@, b@)),
        None => None,
    }
}

pub open spec fn text_view(t: Option<String>) -> Option<Seq<char>> {
    match t {
        Some(s) => Some(s@),
        None => None,
    }
}

impl View for App {
    type V = AppView;

    open spec fn view(&self) -> AppView {
        AppView {
            mode: self.mode@,
            categories: self.categories.deep_view(),
            cat_idx: self.cat_idx,
            entries: self.entries.deep_view(),
            entry_idx: self.entry_idx,
            focus_right: self.focus_right,
            add_content: self.add_content@,
            add_cat_list: self.add_cat_list.deep_view(),
            add_cat_idx: self.add_cat_idx,
            add_cat_input: self.add_cat_input@,
            add_category: self.add_category@,
            add_name: self.add_name@,
            del_target: pair_view(self.del_target),
            message: text_view(self.message),
            view_height: self.view_height,
            pending: self.pending@,
        }
    }
}

/// An index into a list of `len` items: the first item when the list is
/// empty, an item of the list otherwise.
pub open spec fn index_in(idx: usize, len: nat) -> bool {
    if len == 0 {
        idx == 0
    } else {
        idx < len
    }
}

impl AppView {
    /// The selections point into their lists: the category and entry
    /// selections at an item (or at 0 when the list is empty), and the
    /// category choice of step 2 at a category or at the "new category" line
    /// after them.
    pub open spec fn wf(self) -> bool {
        &&& index_in(self.cat_idx, self.categories.len())
        &&& index_in(self.entry_idx, self.entries.len())
        &&& self.choice_in_list()
    }

    /// The category choice of step 2 is at a category or at the "new
    /// category" line after them: step 2 reads the list there.
    pub open spec fn choice_in_list(self) -> bool {
        self.add_cat_idx <= self.add_cat_list.len()
    }
}

// ---------------------------------------------------------------------------
// The transitions
// ---------------------------------------------------------------------------

/// `idx.min(len.saturating_sub(1))`.
pub open spec fn clamp(idx: usize, len: nat) -> usize {
    let last: nat = if len == 0 {
        0
    } else {
        (len - 1) as nat
    };
    if idx <= last {
        idx
    } else {
        last as usize
    }
}

/// The item at `idx`, if there is one.
pub open spec fn pick(list: Seq<Seq<char>>, idx: usize) -> Option<Seq<char>> {
    if idx < list.len() {
        Some(list[idx as int])
    } else {
        None
    }
}

/// The first position at or after `i` that holds `x`.
pub open spec fn find_from(list: Seq<Seq<char>>, x: Seq<char>, i: int) -> Option<int>
    decreases list.len() - i,
{
    if i < 0 || i >= list.len() {
        None
    } else if list[i] == x {
        Some(i)
    } else {
        find_from(list, x, i + 1)
    }
}

/// The first position that holds `x`, as `Iterator::position` finds it.
pub open spec fn find_name(list: Seq<Seq<char>>, x: Seq<char>) -> Option<int> {
    find_from(list, x, 0)
}

pub proof fn lemma_find_from(list: Seq<Seq<char>>, x: Seq<char>, i: int)
    requires
        0 <= i,
    ensures
        find_from(list, x, i) matches Some(p) ==> i <= p < list.len() && list[p] == x && forall|
            q: int,
        |
            i <= q < p ==> list[q] != x,
        find_from(list, x, i) is None ==> forall|q: int| i <= q < list.len() ==> list[q] != x,
    decreases list.len() - i,
{
    if i < list.len() && list[i] != x {
        lemma_find_from(list, x, i + 1);
    }
}

/// The message shown once `name` has been saved in `category`.
pub open spec fn saved_message(category: Seq<char>, name: Seq<char>) -> Seq<char> {
    seq!['\u{2713}', ' ', '\u{5df2}', '\u{4fdd}', '\u{5b58}', ':', ' '] + category + seq!['/']
        + name
}

/// The message shown once an entry has been deleted.
pub open spec fn deleted_message() -> Seq<char> {
    seq!['\u{2713}', ' ', '\u{5df2}', '\u{5220}', '\u{9664}']
}

/// Showing the entries of the selected category: its listing is asked for;
/// with no category, the entry list is empty.
pub open spec fn refresh_entries(a: AppView) -> AppView {
    match pick(a.categories, a.cat_idx) {
        Some(c) => AppView { pending: PendingView::BrowseEntries { category: c }, ..a },
        None => AppView { entries: seq![], entry_idx: 0, ..a },
    }
}

pub open spec fn is_key(k: KeyInput, c: char) -> bool {
    k.code == KeyCode::Char(c)
}

/// A key in the browse screen; `true` asks to quit.
pub open spec fn browse_key(a: AppView, k: KeyInput) -> (AppView, bool) {
    let cat = pick(a.categories, a.cat_idx);
    let entry = pick(a.entries, a.entry_idx);
    if is_key(k, 'q') || k.code == KeyCode::Esc {
        (a, true)
    } else if is_key(k, 'a') {
        (AppView { mode: ModeView::AddStep1, ..a }, false)
    } else if is_key(k, 'd') {
        if cat is Some && entry is Some {
            (
                AppView {
                    del_target: Some((cat.unwrap(), entry.unwrap())),
                    mode: ModeView::ConfirmDelete,
                    ..a
                },
                false,
            )
        } else {
            (a, false)
        }
    } else if k.code == KeyCode::Enter {
        if a.focus_right {
            if cat is Some && entry is Some {
                (
                    AppView {
                        pending: PendingView::OpenEntry {
                            category: cat.unwrap(),
                            name: entry.unwrap(),
                        },
                        ..a
                    },
                    false,
                )
            } else {
                (a, false)
            }
        } else if a.entries.len() > 0 {
            (AppView { focus_right: true, ..a }, false)
        } else {
            (a, false)
        }
    } else if k.code == KeyCode::Tab || k.code == KeyCode::Right || is_key(k, 'l') {
        if a.entries.len() > 0 {
            (AppView { focus_right: true, ..a }, false)
        } else {
            (a, false)
        }
    } else if k.code == KeyCode::Left || is_key(k, 'h') {
        (AppView { focus_right: false, ..a }, false)
    } else if k.code == KeyCode::Up || is_key(k, 'k') {
        if a.focus_right {
            if a.entry_idx > 0 {
                (AppView { entry_idx: (a.entry_idx - 1) as usize, ..a }, false)
            } else {
                (a, false)
            }
        } else if a.cat_idx > 0 {
            (refresh_entries(AppView { cat_idx: (a.cat_idx - 1) as usize, ..a }), false)
        } else {
            (refresh_entries(a), false)
        }
    } else if k.code == KeyCode::Down || is_key(k, 'j') {
        if a.focus_right {
            if a.entry_idx + 1 < a.entries.len() {
                (AppView { entry_idx: (a.entry_idx + 1) as usize, ..a }, false)
            } else {
                (a, false)
            }
        } else if a.cat_idx + 1 < a.categories.len() {
            (refresh_entries(AppView { cat_idx: (a.cat_idx + 1) as usize, ..a }), false)
        } else {
            (refresh_entries(a), false)
        }
    } else {
        (a, false)
    }
}

/// The number of lines that the viewer shows for `content`: the rendered
/// lines, or the raw lines.
pub open spec fn total_lines(content: Seq<char>, rendered: bool) -> nat {
    if rendered {
        rendered_len(content)
    } else {
        lines(content).len()
    }
}

/// A key in the viewer, which shows `content`.
pub open spec fn view_key(
    a: AppView,
    content: Seq<char>,
    rendered: bool,
    scroll: u16,
    k: KeyInput,
) -> AppView {
    let at = |s: u16| AppView { mode: ModeView::Viewing { content, rendered, scroll: s }, ..a };
    if is_key(k, 'q') || k.code == KeyCode::Esc {
        AppView { mode: ModeView::Browse, ..a }
    } else if k.code == KeyCode::Tab {
        AppView { mode: ModeView::Viewing { content, rendered: !rendered, scroll: 0 }, ..a }
    } else if k.code == KeyCode::Down || is_key(k, 'j') {
        at(scroll.saturating_add(1))
    } else if k.code == KeyCode::Up || is_key(k, 'k') {
        at(scroll.saturating_sub(1))
    } else if is_key(k, 'd') {
        at(scroll.saturating_add(10))
    } else if is_key(k, 'u') {
        at(scroll.saturating_sub(10))
    } else if is_key(k, 'g') {
        at(0)
    } else if is_key(k, 'G') {
        at((total_lines(content, rendered) as u16).saturating_sub(a.view_height))
    } else if is_key(k, 'y') {
        AppView { pending: PendingView::Copy { text: content }, ..a }
    } else {
        a
    }
}

/// Ctrl+D, with no other modifier: the content is complete.
pub open spec fn is_submit(k: KeyInput) -> bool {
    is_key(k, 'd') && k.modifiers == CONTROL
}

/// A key in step 1, where the editor holds the lines `text`.
pub open spec fn step1_key(a: AppView, text: Seq<Seq<char>>, k: KeyInput) -> AppView {
    if is_submit(k) {
        let content = join_lines(text);
        if trim(content).len() == 0 {
            a
        } else {
            AppView { add_content: content, pending: PendingView::AddCategories, ..a }
        }
    } else if k.code == KeyCode::Esc {
        AppView { mode: ModeView::Browse, ..a }
    } else {
        a
    }
}

/// A key in step 2, choosing from the list or typing a new category.
pub open spec fn step2_key(a: AppView, cat_typing: bool, k: KeyInput) -> AppView {
    if cat_typing {
        if k.code == KeyCode::Enter {
            let name = trim(a.add_cat_input);
            if name.len() > 0 {
                AppView { add_category: name, add_name: seq![], mode: ModeView::AddStep3, ..a }
            } else {
                a
            }
        } else if k.code == KeyCode::Esc {
            AppView { mode: ModeView::AddStep2 { cat_typing: false }, ..a }
        } else if k.code == KeyCode::Backspace {
            if a.add_cat_input.len() > 0 {
                AppView { add_cat_input: a.add_cat_input.drop_last(), ..a }
            } else {
                a
            }
        } else if let KeyCode::Char(c) = k.code {
            AppView { add_cat_input: a.add_cat_input.push(c), ..a }
        } else {
            a
        }
    } else {
        if k.code == KeyCode::Up || is_key(k, 'k') {
            if a.add_cat_idx > 0 {
                AppView { add_cat_idx: (a.add_cat_idx - 1) as usize, ..a }
            } else {
                a
            }
        } else if k.code == KeyCode::Down || is_key(k, 'j') {
            if a.add_cat_idx < a.add_cat_list.len() {
                AppView { add_cat_idx: (a.add_cat_idx + 1) as usize, ..a }
            } else {
                a
            }
        } else if k.code == KeyCode::Enter {
            if a.add_cat_idx == a.add_cat_list.len() {
                AppView {
                    add_cat_input: seq![],
                    mode: ModeView::AddStep2 { cat_typing: true },
                    ..a
                }
            } else {
                AppView {
                    add_category: a.add_cat_list[a.add_cat_idx as int],
                    add_name: seq![],
                    mode: ModeView::AddStep3,
                    ..a
                }
            }
        } else if k.code == KeyCode::Esc {
            AppView { mode: ModeView::Browse, ..a }
        } else {
            a
        }
    }
}

/// A key in step 3, typing the name.
pub open spec fn step3_key(a: AppView, k: KeyInput) -> AppView {
    if k.code == KeyCode::Enter {
        let name = trim(a.add_name);
        if name.len() > 0 {
            AppView {
                pending: PendingView::Save {
                    category: a.add_category,
                    name,
                    content: a.add_content,
                },
                ..a
            }
        } else {
            a
        }
    } else if k.code == KeyCode::Esc {
        AppView { mode: ModeView::Browse, ..a }
    } else if k.code == KeyCode::Backspace {
        if a.add_name.len() > 0 {
            AppView { add_name: a.add_name.drop_last(), ..a }
        } else {
            a
        }
    } else if let KeyCode::Char(c) = k.code {
        AppView { add_name: a.add_name.push(c), ..a }
    } else {
        a
    }
}

/// A key while deletion is asked for: `y` confirms, any other key cancels.
pub open spec fn confirm_key(a: AppView, k: KeyInput) -> AppView {
    if is_key(k, 'y') || is_key(k, 'Y') {
        match a.del_target {
            Some((c, n)) => AppView {
                del_target: None,
                pending: PendingView::Delete { category: c, name: n },
                ..a
            },
            None => AppView { mode: ModeView::Browse, ..a },
        }
    } else {
        AppView { del_target: None, mode: ModeView::Browse, ..a }
    }
}

/// A key press, with the editor holding `text`: the next state, and whether
/// to quit. Every key clears the message.
pub open spec fn key_step(a: AppView, text: Seq<Seq<char>>, k: KeyInput) -> (AppView, bool) {
    let a = AppView { message: None, ..a };
    match a.mode {
        ModeView::Browse => browse_key(a, k),
        ModeView::Viewing { content, rendered, scroll } => (
            view_key(a, content, rendered, scroll, k),
            false,
        ),
        ModeView::AddStep1 => (step1_key(a, text, k), false),
        ModeView::AddStep2 { cat_typing } => (step2_key(a, cat_typing, k), false),
        ModeView::AddStep3 => (step3_key(a, k), false),
        ModeView::ConfirmDelete => (confirm_key(a, k), false),
    }
}

/// Enter on the category list of step 2, which takes the chosen category
/// from the list.
pub open spec fn reads_choice(a: AppView, k: KeyInput) -> bool {
    a.mode == (ModeView::AddStep2 { cat_typing: false }) && k.code == KeyCode::Enter
}

/// A key that starts the add flow with an empty editor.
pub open spec fn resets_editor(a: AppView, k: KeyInput) -> bool {
    a.mode == ModeView::Browse && is_key(k, 'a')
}

/// A key that the editor of step 1 handles.
pub open spec fn edits_editor(a: AppView, k: KeyInput) -> bool {
    a.mode == ModeView::AddStep1 && !is_submit(k) && k.code != KeyCode::Esc
}

/// Once the categories have been listed again (and the entries of the
/// selected one): what `after` asks for.
pub open spec fn finish(a: AppView, after: AfterView) -> AppView {
    match after {
        AfterView::Startup => AppView { pending: PendingView::Idle, ..a },
        AfterView::Deleted => AppView {
            message: Some(deleted_message()),
            mode: ModeView::Browse,
            pending: PendingView::Idle,
            ..a
        },
        AfterView::Saved { category, name } => match find_name(a.categories, category) {
            Some(p) => AppView {
                cat_idx: p as usize,
                pending: PendingView::SavedEntries { category, name },
                ..a
            },
            None => AppView {
                message: Some(saved_message(category, name)),
                mode: ModeView::Browse,
                pending: PendingView::Idle,
                ..a
            },
        },
    }
}

/// The host's outcome `o` for the pending work. An outcome of the wrong
/// kind changes nothing.
pub open spec fn resume_step(a: AppView, o: OutcomeView) -> AppView {
    match (a.pending, o) {
        (PendingView::OpenEntry { .. }, OutcomeView::Text(t)) => AppView {
            mode: ModeView::Viewing { content: t, rendered: true, scroll: 0 },
            pending: PendingView::Idle,
            ..a
        },
        (PendingView::BrowseEntries { .. }, OutcomeView::Listing(l)) => {
            let es = sorted(entry_names(l));
            AppView {
                entries: es,
                entry_idx: clamp(a.entry_idx, es.len()),
                pending: PendingView::Idle,
                ..a
            }
        },
        (PendingView::AddCategories, OutcomeView::Listing(l)) => AppView {
            add_cat_list: sorted(category_names(l)),
            add_cat_idx: 0,
            add_cat_input: seq![],
            mode: ModeView::AddStep2 { cat_typing: false },
            pending: PendingView::Idle,
            ..a
        },
        (PendingView::Save { category, name, .. }, OutcomeView::Done) => AppView {
            pending: PendingView::ReloadCategories { after: AfterView::Saved { category, name } },
            ..a
        },
        (PendingView::Delete { .. }, OutcomeView::Done) => AppView {
            pending: PendingView::ReloadCategories { after: AfterView::Deleted },
            ..a
        },
        (PendingView::Copy { .. }, OutcomeView::Done) => AppView {
            pending: PendingView::Idle,
            ..a
        },
        (PendingView::ReloadCategories { after }, OutcomeView::Listing(l)) => {
            let cs = sorted(category_names(l));
            let b = AppView { categories: cs, cat_idx: clamp(a.cat_idx, cs.len()), ..a };
            match pick(cs, b.cat_idx) {
                Some(c) => AppView {
                    pending: PendingView::ReloadEntries { category: c, after },
                    ..b
                },
                None => finish(AppView { entries: seq![], entry_idx: 0, ..b }, after),
            }
        },
        (PendingView::ReloadEntries { after, .. }, OutcomeView::Listing(l)) => {
            let es = sorted(entry_names(l));
            finish(AppView { entries: es, entry_idx: clamp(a.entry_idx, es.len()), ..a }, after)
        },
        (PendingView::SavedEntries { category, name }, OutcomeView::Listing(l)) => {
            let es = sorted(entry_names(l));
            let b = AppView { entries: es, entry_idx: clamp(a.entry_idx, es.len()), ..a };
            let idx = match find_name(es, name) {
                Some(q) => q as usize,
                None => b.entry_idx,
            };
            AppView {
                entry_idx: idx,
                focus_right: true,
                message: Some(saved_message(category, name)),
                mode: ModeView::Browse,
                pending: PendingView::Idle,
                ..b
            }
        },
        _ => a,
    }
}

/// The state of a freshly started app: nothing listed yet, and the
/// categories asked for.
pub open spec fn initial_view() -> AppView {
    AppView {
        mode: ModeView::Browse,
        categories: seq![],
        cat_idx: 0,
        entries: seq![],
        entry_idx: 0,
        focus_right: false,
        add_content: seq![],
        add_cat_list: seq![],
        add_cat_idx: 0,
        add_cat_input: seq![],
        add_category: seq![],
        add_name: seq![],
        del_target: None,
        message: None,
        view_height: 0,
        pending: PendingView::ReloadCategories { after: AfterView::Startup },
    }
}


// ---------------------------------------------------------------------------
// The implementation
// ---------------------------------------------------------------------------

/// `s` with the text `t` appended.
fn push_text(s: &mut String, t: &str)
    ensures
        final(s)@ == old(s)@ + t@,
{
    let cs = chars_of(t);
    let mut i: usize = 0;
    while i < cs.len()
        invariant
            i <= cs.len(),
            cs@ == t@,
            s@ == old(s)@ + cs@.take(i as int),
        decreases cs.len() - i,
    {
        s.push(cs[i]);
        i = i + 1;
        assert(s@ =~= old(s)@ + cs@.take(i as int));
    }
    assert(cs@.take(i as int) =~= cs@);
}

fn make_saved_message(category: &str, name: &str) -> (m: String)
    ensures
        m@ == saved_message(category@, name@),
{
    let mut m = String::new();
    m.push('\u{2713}');
    m.push(' ');
    m.push('\u{5df2}');
    m.push('\u{4fdd}');
    m.push('\u{5b58}');
    m.push(':');
    m.push(' ');
    push_text(&mut m, category);
    m.push('/');
    push_text(&mut m, name);
    assert(m@ =~= saved_message(category@, name@));
    m
}

fn make_deleted_message() -> (m: String)
    ensures
        m@ == deleted_message(),
{
    let mut m = String::new();
    m.push('\u{2713}');
    m.push(' ');
    m.push('\u{5df2}');
    m.push('\u{5220}');
    m.push('\u{9664}');
    assert(m@ =~= deleted_message());
    m
}

fn clone_text(s: &String) -> (r: String)
    ensures
        r@ == s@,
{
    s.clone()
}

impl AfterReload {
    fn duplicate(&self) -> (r: AfterReload)
        ensures
            r@ == self@,
    {
        match self {
            AfterReload::Startup => AfterReload::Startup,
            AfterReload::Saved { category, name } => AfterReload::Saved {
                category: clone_text(category),
                name: clone_text(name),
            },
            AfterReload::Deleted => AfterReload::Deleted,
        }
    }
}

impl Pending {
    fn duplicate(&self) -> (r: Pending)
        ensures
            r@ == self@,
    {
        match self {
            Pending::Idle => Pending::Idle,
            Pending::OpenEntry { category, name } => Pending::OpenEntry {
                category: clone_text(category),
                name: clone_text(name),
            },
            Pending::BrowseEntries { category } => Pending::BrowseEntries {
                category: clone_text(category),
            },
            Pending::AddCategories => Pending::AddCategories,
            Pending::Save { category, name, content } => Pending::Save {
                category: clone_text(category),
                name: clone_text(name),
                content: clone_text(content),
            },
            Pending::Delete { category, name } => Pending::Delete {
                category: clone_text(category),
                name: clone_text(name),
            },
            Pending::ReloadCategories { after } => Pending::ReloadCategories {
                after: after.duplicate(),
            },
            Pending::ReloadEntries { category, after } => Pending::ReloadEntries {
                category: clone_text(category),
                after: after.duplicate(),
            },
            Pending::SavedEntries { category, name } => Pending::SavedEntries {
                category: clone_text(category),
                name: clone_text(name),
            },
            Pending::Copy { text } => Pending::Copy { text: clone_text(text) },
        }
    }
}

/// `idx.min(len.saturating_sub(1))`.
fn clamp_index(idx: usize, len: usize) -> (r: usize)
    ensures
        r == clamp(idx, len as nat),
{
    idx.min(len.saturating_sub(1))
}

/// The first position of `x` in `list`.
fn position(list: &Vec<String>, x: &String) -> (r: Option<usize>)
    ensures
        match r {
            Some(p) => find_name(list.deep_view(), x@) == Some(p as int),
            None => find_name(list.deep_view(), x@) is None,
        },
{
    let ghost l = list.deep_view();
    let mut i: usize = 0;
    assert(find_name(l, x@) == find_from(l, x@, 0));
    while i < list.len()
        invariant
            i <= list.len(),
            l == list.deep_view(),
            find_name(l, x@) == find_from(l, x@, i as int),
        decreases list.len() - i,
    {
        assert(l[i as int] == list@[i as int]@);
        if list[i] == *x {
            return Some(i);
        }
        i = i + 1;
    }
    None
}

impl App {
    /// A new app: nothing listed yet, and the categories asked for.
    pub fn new() -> (app: App)
        ensures
            app@ == initial_view(),
            editor_lines(app.textarea.inner) == seq![Seq::<char>::empty()],
            app.textarea.fed@ == Seq::<FedKey>::empty(),
    {
        let app = App {
            mode: Mode::Browse,
            categories: Vec::new(),
            cat_idx: 0,
            entries: Vec::new(),
            entry_idx: 0,
            focus_right: false,
            textarea: new_editor(),
            add_content: String::new(),
            add_cat_list: Vec::new(),
            add_cat_idx: 0,
            add_cat_input: String::new(),
            add_category: String::new(),
            add_name: String::new(),
            del_target: None,
            message: None,
            view_height: 0,
            pending: Pending::ReloadCategories { after: AfterReload::Startup },
        };
        assert(app@ =~= initial_view());
        app
    }

    /// Whether the category choice of step 2 is in its list, which
    /// `handle_key` needs for Enter on that list.
    pub fn choice_in_range(&self) -> (b: bool)
        ensures
            b == self@.choice_in_list(),
    {
        self.add_cat_idx <= self.add_cat_list.len()
    }

    /// The selected category, if there is one.
    pub fn selected_category(&self) -> (r: Option<&str>)
        ensures
            match r {
                Some(s) => pick(self@.categories, self.cat_idx) == Some(s@),
                None => pick(self@.categories, self.cat_idx) is None,
            },
    {
        if self.cat_idx < self.categories.len() {
            Some(self.categories[self.cat_idx].as_str())
        } else {
            None
        }
    }

    /// The selected entry, if there is one.
    pub fn selected_entry(&self) -> (r: Option<&str>)
        ensures
            match r {
                Some(s) => pick(self@.entries, self.entry_idx) == Some(s@),
                None => pick(self@.entries, self.entry_idx) is None,
            },
    {
        if self.entry_idx < self.entries.len() {
            Some(self.entries[self.entry_idx].as_str())
        } else {
            None
        }
    }

    fn selected_category_text(&self) -> (r: Option<String>)
        ensures
            text_view(r) == pick(self@.categories, self.cat_idx),
    {
        if self.cat_idx < self.categories.len() {
            Some(self.categories[self.cat_idx].clone())
        } else {
            None
        }
    }

    fn selected_entry_text(&self) -> (r: Option<String>)
        ensures
            text_view(r) == pick(self@.entries, self.entry_idx),
    {
        if self.entry_idx < self.entries.len() {
            Some(self.entries[self.entry_idx].clone())
        } else {
            None
        }
    }

    /// The storage work that the host is to do now, if any.
    pub fn action(&self) -> (r: Request)
        ensures
            r@ == request_for(self@.pending),
    {
        match &self.pending {
            Pending::Idle => Request::Nothing,
            Pending::OpenEntry { category, name } => Request::ReadEntry {
                category: clone_text(category),
                name: clone_text(name),
            },
            Pending::BrowseEntries { category } => Request::ListEntries {
                category: clone_text(category),
            },
            Pending::AddCategories => Request::ListCategories,
            Pending::Save { category, name, content } => Request::SaveEntry {
                category: clone_text(category),
                name: clone_text(name),
                content: clone_text(content),
            },
            Pending::Delete { category, name } => Request::DeleteEntry {
                category: clone_text(category),
                name: clone_text(name),
            },
            Pending::ReloadCategories { .. } => Request::ListCategories,
            Pending::ReloadEntries { category, .. } => Request::ListEntries {
                category: clone_text(category),
            },
            Pending::SavedEntries { category, .. } => Request::ListEntries {
                category: clone_text(category),
            },
            Pending::Copy { text } => Request::Copy { text: clone_text(text) },
        }
    }

    fn refresh_entries(&mut self)
        ensures
            final(self)@ == refresh_entries(old(self)@),
            final(self).textarea == old(self).textarea,
    {
        match self.selected_category_text() {
            Some(c) => {
                self.pending = Pending::BrowseEntries { category: c };
            },
            None => {
                self.entries = Vec::new();
                self.entry_idx = 0;
                assert(self.entries.deep_view() =~= Seq::<Seq<char>>::empty());
            },
        }
        assert(self@ =~= refresh_entries(old(self)@));
    }

    fn on_browse(&mut self, key: KeyInput) -> (quit: bool)
        ensures
            (final(self)@, quit) == browse_key(old(self)@, key),
            is_key(key, 'a') ==> editor_lines(final(self).textarea.inner) == seq![Seq::<char>::empty()],
            is_key(key, 'a') ==> final(self).textarea.fed@ == Seq::<FedKey>::empty(),
            !is_key(key, 'a') ==> final(self).textarea == old(self).textarea,
    {
        match key.code {
            KeyCode::Char('q') | KeyCode::Esc => {
                return true;
            },
            KeyCode::Char('a') => {
                self.textarea = new_editor();
                self.mode = Mode::AddStep1;
            },
            KeyCode::Char('d') => {
                let cat = self.selected_category_text();
                let entry = self.selected_entry_text();
                if cat.is_some() && entry.is_some() {
                    self.del_target = Some((cat.unwrap(), entry.unwrap()));
                    self.mode = Mode::ConfirmDelete;
                }
            },
            KeyCode::Enter => {
                if self.focus_right {
                    let cat = self.selected_category_text();
                    let entry = self.selected_entry_text();
                    if cat.is_some() && entry.is_some() {
                        self.pending = Pending::OpenEntry {
                            category: cat.unwrap(),
                            name: entry.unwrap(),
                        };
                    }
                } else if self.entries.len() > 0 {
                    self.focus_right = true;
                }
            },
            KeyCode::Tab | KeyCode::Right | KeyCode::Char('l') => {
                if self.entries.len() > 0 {
                    self.focus_right = true;
                }
            },
            KeyCode::Left | KeyCode::Char('h') => {
                self.focus_right = false;
            },
            KeyCode::Up | KeyCode::Char('k') => {
                if self.focus_right {
                    if self.entry_idx > 0 {
                        self.entry_idx = self.entry_idx - 1;
                    }
                } else {
                    if self.cat_idx > 0 {
                        self.cat_idx = self.cat_idx - 1;
                    }
                    self.refresh_entries();
                }
            },
            KeyCode::Down | KeyCode::Char('j') => {
                if self.focus_right {
                    if self.entry_idx < self.entries.len() && self.entry_idx + 1 < self.entries.len() {
                        self.entry_idx = self.entry_idx + 1;
                    }
                } else {
                    if self.cat_idx < self.categories.len() && self.cat_idx + 1
                        < self.categories.len() {
                        self.cat_idx = self.cat_idx + 1;
                    }
                    self.refresh_entries();
                }
            },
            _ => {},
        }
        assert(self@ =~= browse_key(old(self)@, key).0);
        false
    }

    /// The number of lines that the viewer shows for `content`.
    fn count_lines(content: &String, rendered: bool) -> (n: usize)
        ensures
            n == total_lines(content@, rendered),
    {
        if rendered {
            let out = render(content.as_str());
            out.len()
        } else {
            let cs = chars_of(content.as_str());
            split_lines(&cs).len()
        }
    }

    fn on_view(&mut self, key: KeyInput)
        requires
            old(self)@.mode is Viewing,
        ensures
            final(self)@ == view_key(
                old(self)@,
                old(self)@.mode->content,
                old(self)@.mode->rendered,
                old(self)@.mode->scroll,
                key,
            ),
            final(self).textarea == old(self).textarea,
    {
        let mut m = Mode::Browse;
        std::mem::swap(&mut self.mode, &mut m);
        let (content, rendered, scroll) = match m {
            Mode::Viewing { content, rendered, scroll } => (content, rendered, scroll),
            _ => {
                assert(false);
                (String::new(), false, 0)
            },
        };
        match key.code {
            KeyCode::Char('q') | KeyCode::Esc => {
                self.mode = Mode::Browse;
            },
            KeyCode::Tab => {
                self.mode = Mode::Viewing { content, rendered: !rendered, scroll: 0 };
            },
            KeyCode::Down | KeyCode::Char('j') => {
                self.mode = Mode::Viewing { content, rendered, scroll: scroll.saturating_add(1) };
            },
            KeyCode::Up | KeyCode::Char('k') => {
                self.mode = Mode::Viewing { content, rendered, scroll: scroll.saturating_sub(1) };
            },
            KeyCode::Char('d') => {
                self.mode = Mode::Viewing { content, rendered, scroll: scroll.saturating_add(10) };
            },
            KeyCode::Char('u') => {
                self.mode = Mode::Viewing { content, rendered, scroll: scroll.saturating_sub(10) };
            },
            KeyCode::Char('g') => {
                self.mode = Mode::Viewing { content, rendered, scroll: 0 };
            },
            KeyCode::Char('G') => {
                let total = Self::count_lines(&content, rendered);
                let bottom = (total as u16).saturating_sub(self.view_height);
                self.mode = Mode::Viewing { content, rendered, scroll: bottom };
            },
            KeyCode::Char('y') => {
                self.pending = Pending::Copy { text: content.clone() };
                self.mode = Mode::Viewing { content, rendered, scroll };
            },
            _ => {
                self.mode = Mode::Viewing { content, rendered, scroll };
            },
        }
        assert(self@ =~= view_key(
            old(self)@,
            old(self)@.mode->content,
            old(self)@.mode->rendered,
            old(self)@.mode->scroll,
            key,
        ));
    }

    fn on_add_step1(&mut self, key: KeyInput)
        requires
            old(self)@.mode is AddStep1,
        ensures
            final(self)@ == step1_key(old(self)@, editor_lines(old(self).textarea.inner), key),
            !edits_editor(old(self)@, key) ==> final(self).textarea == old(self).textarea,
            edits_editor(old(self)@, key) ==> final(self).textarea.fed@ == old(
                self,
            ).textarea.fed@.push(fed_key(key)),
    {
        if key.code == KeyCode::Char('d') && key.modifiers == CONTROL {
            let text = editor_text_lines(&self.textarea);
            let content = join_with_newlines(&text);
            let trimmed = trim_string(content.as_str());
            if trimmed.as_str().is_empty() {
                return;
            }
            self.add_content = content;
            self.pending = Pending::AddCategories;
        } else if key.code == KeyCode::Esc {
            self.mode = Mode::Browse;
        } else {
            editor_input(&mut self.textarea, key.code, key.ctrl(), key.alt(), key.shift());
        }
        assert(self@ =~= step1_key(old(self)@, editor_lines(old(self).textarea.inner), key));
    }

    fn on_add_step2(&mut self, key: KeyInput)
        requires
            old(self)@.mode is AddStep2,
            reads_choice(old(self)@, key) ==> old(self)@.choice_in_list(),
        ensures
            final(self)@ == step2_key(old(self)@, old(self)@.mode->cat_typing, key),
            final(self).textarea == old(self).textarea,
    {
        let cat_typing = match self.mode {
            Mode::AddStep2 { cat_typing } => cat_typing,
            _ => false,
        };
        if cat_typing {
            match key.code {
                KeyCode::Enter => {
                    let name = trim_string(self.add_cat_input.as_str());
                    if !name.as_str().is_empty() {
                        self.add_category = name;
                        self.add_name = String::new();
                        self.mode = Mode::AddStep3;
                    }
                },
                KeyCode::Esc => {
                    self.mode = Mode::AddStep2 { cat_typing: false };
                },
                KeyCode::Backspace => {
                    self.add_cat_input.pop();
                },
                KeyCode::Char(c) => {
                    self.add_cat_input.push(c);
                },
                _ => {},
            }
        } else {
            match key.code {
                KeyCode::Up | KeyCode::Char('k') => {
                    if self.add_cat_idx > 0 {
                        self.add_cat_idx = self.add_cat_idx - 1;
                    }
                },
                KeyCode::Down | KeyCode::Char('j') => {
                    if self.add_cat_idx < self.add_cat_list.len() {
                        self.add_cat_idx = self.add_cat_idx + 1;
                    }
                },
                KeyCode::Enter => {
                    if self.add_cat_idx == self.add_cat_list.len() {
                        self.add_cat_input = String::new();
                        self.mode = Mode::AddStep2 { cat_typing: true };
                    } else {
                        self.add_category = self.add_cat_list[self.add_cat_idx].clone();
                        self.add_name = String::new();
                        self.mode = Mode::AddStep3;
                    }
                },
                KeyCode::Esc => {
                    self.mode = Mode::Browse;
                },
                _ => {},
            }
        }
        assert(self@ =~= step2_key(old(self)@, old(self)@.mode->cat_typing, key));
    }

    fn on_add_step3(&mut self, key: KeyInput)
        requires
            old(self)@.mode is AddStep3,
        ensures
            final(self)@ == step3_key(old(self)@, key),
            final(self).textarea == old(self).textarea,
    {
        match key.code {
            KeyCode::Enter => {
                let name = trim_string(self.add_name.as_str());
                if !name.as_str().is_empty() {
                    self.pending = Pending::Save {
                        category: self.add_category.clone(),
                        name,
                        content: self.add_content.clone(),
                    };
                }
            },
            KeyCode::Esc => {
                self.mode = Mode::Browse;
            },
            KeyCode::Backspace => {
                self.add_name.pop();
            },
            KeyCode::Char(c) => {
                self.add_name.push(c);
            },
            _ => {},
        }
        assert(self@ =~= step3_key(old(self)@, key));
    }

    fn on_confirm_delete(&mut self, key: KeyInput)
        requires
            old(self)@.mode is ConfirmDelete,
        ensures
            final(self)@ == confirm_key(old(self)@, key),
            final(self).textarea == old(self).textarea,
    {
        match key.code {
            KeyCode::Char('y') | KeyCode::Char('Y') => {
                match self.del_target.take() {
                    Some((cat, name)) => {
                        self.pending = Pending::Delete { category: cat, name };
                    },
                    None => {
                        self.mode = Mode::Browse;
                    },
                }
            },
            _ => {
                self.del_target = None;
                self.mode = Mode::Browse;
            },
        }
        assert(self@ =~= confirm_key(old(self)@, key));
    }

    /// Handles a key press; returns whether the app should quit. Storage work
    /// that the key calls for is left in `pending` for the host (see `action`
    /// and `resume`).
    pub fn handle_key(&mut self, key: KeyInput) -> (quit: bool)
        requires
            reads_choice(old(self)@, key) ==> old(self)@.choice_in_list(),
        ensures
            (final(self)@, quit) == key_step(old(self)@, editor_lines(old(self).textarea.inner), key),
            resets_editor(old(self)@, key) ==> final(self).textarea.fed@ == Seq::<FedKey>::empty(),
            edits_editor(old(self)@, key) ==> final(self).textarea.fed@ == old(
                self,
            ).textarea.fed@.push(fed_key(key)),
            resets_editor(old(self)@, key) ==> editor_lines(final(self).textarea.inner) == seq![
                Seq::<char>::empty(),
            ],
            !resets_editor(old(self)@, key) && !edits_editor(old(self)@, key)
                ==> final(self).textarea == old(self).textarea,
            old(self)@.choice_in_list() ==> final(self)@.choice_in_list(),
            old(self)@.wf() ==> final(self)@.wf(),
    {
        proof {
            law_key_step_keeps_wf(old(self)@, editor_lines(old(self).textarea.inner), key);
        }
        self.message = None;
        match self.mode {
            Mode::Browse => self.on_browse(key),
            Mode::Viewing { .. } => {
                self.on_view(key);
                false
            },
            Mode::AddStep1 => {
                self.on_add_step1(key);
                false
            },
            Mode::AddStep2 { .. } => {
                self.on_add_step2(key);
                false
            },
            Mode::AddStep3 => {
                self.on_add_step3(key);
                false
            },
            Mode::ConfirmDelete => {
                self.on_confirm_delete(key);
                false
            },
        }
    }

    fn finish_after(&mut self, after: AfterReload)
        ensures
            final(self)@ == finish(old(self)@, after@),
            final(self).textarea == old(self).textarea,
    {
        match after {
            AfterReload::Startup => {
                self.pending = Pending::Idle;
            },
            AfterReload::Deleted => {
                self.message = Some(make_deleted_message());
                self.mode = Mode::Browse;
                self.pending = Pending::Idle;
            },
            AfterReload::Saved { category, name } => {
                match position(&self.categories, &category) {
                    Some(p) => {
                        self.cat_idx = p;
                        self.pending = Pending::SavedEntries { category, name };
                    },
                    None => {
                        self.message = Some(make_saved_message(category.as_str(), name.as_str()));
                        self.mode = Mode::Browse;
                        self.pending = Pending::Idle;
                    },
                }
            },
        }
        assert(self@ =~= finish(old(self)@, after@));
    }

    /// Takes the host's outcome for the pending work, and moves on: the app
    /// may then wait for more work (see `action`).
    pub fn resume(&mut self, outcome: Outcome)
        ensures
            final(self)@ == resume_step(old(self)@, outcome@),
            final(self).textarea == old(self).textarea,
            old(self)@.choice_in_list() ==> final(self)@.choice_in_list(),
            old(self)@.wf() ==> final(self)@.wf(),
    {
        proof {
            law_resume_keeps_wf(old(self)@, outcome@);
        }
        let p = self.pending.duplicate();
        match (p, outcome) {
            (Pending::OpenEntry { .. }, Outcome::Text(t)) => {
                self.mode = Mode::Viewing { content: t, rendered: true, scroll: 0 };
                self.pending = Pending::Idle;
            },
            (Pending::BrowseEntries { .. }, Outcome::Listing(l)) => {
                let es = list_entries(&l);
                let n = es.len();
                self.entries = es;
                self.entry_idx = clamp_index(self.entry_idx, n);
                self.pending = Pending::Idle;
            },
            (Pending::AddCategories, Outcome::Listing(l)) => {
                self.add_cat_list = list_categories(&l);
                self.add_cat_idx = 0;
                self.add_cat_input = String::new();
                self.mode = Mode::AddStep2 { cat_typing: false };
                self.pending = Pending::Idle;
            },
            (Pending::Save { category, name, .. }, Outcome::Done) => {
                self.pending = Pending::ReloadCategories {
                    after: AfterReload::Saved { category, name },
                };
            },
            (Pending::Delete { .. }, Outcome::Done) => {
                self.pending = Pending::ReloadCategories { after: AfterReload::Deleted };
            },
            (Pending::Copy { .. }, Outcome::Done) => {
                self.pending = Pending::Idle;
            },
            (Pending::ReloadCategories { after }, Outcome::Listing(l)) => {
                let cs = list_categories(&l);
                let n = cs.len();
                self.categories = cs;
                self.cat_idx = clamp_index(self.cat_idx, n);
                match self.selected_category_text() {
                    Some(c) => {
                        self.pending = Pending::ReloadEntries { category: c, after };
                    },
                    None => {
                        self.entries = Vec::new();
                        self.entry_idx = 0;
                        assert(self.entries.deep_view() =~= Seq::<Seq<char>>::empty());
                        self.finish_after(after);
                    },
                }
            },
            (Pending::ReloadEntries { after, .. }, Outcome::Listing(l)) => {
                let es = list_entries(&l);
                let n = es.len();
                self.entries = es;
                self.entry_idx = clamp_index(self.entry_idx, n);
                self.finish_after(after);
            },
            (Pending::SavedEntries { category, name }, Outcome::Listing(l)) => {
                let es = list_entries(&l);
                let n = es.len();
                self.entries = es;
                self.entry_idx = clamp_index(self.entry_idx, n);
                match position(&self.entries, &name) {
                    Some(q) => {
                        self.entry_idx = q;
                    },
                    None => {},
                }
                self.focus_right = true;
                self.message = Some(make_saved_message(category.as_str(), name.as_str()));
                self.mode = Mode::Browse;
                self.pending = Pending::Idle;
            },
            _ => {},
        }
        assert(self@ =~= resume_step(old(self)@, outcome@));
    }
}

/// Every key press keeps the selections in their lists, and the category
/// choice of step 2 in its list.
pub proof fn law_key_step_keeps_wf(a: AppView, text: Seq<Seq<char>>, k: KeyInput)
    ensures
        a.wf() ==> key_step(a, text, k).0.wf(),
        a.choice_in_list() ==> key_step(a, text, k).0.choice_in_list(),
{
}


/// Every outcome keeps the selections in their lists, and the category
/// choice of step 2 in its list.
pub proof fn law_resume_keeps_wf(a: AppView, o: OutcomeView)
    ensures
        a.wf() ==> resume_step(a, o).wf(),
        a.choice_in_list() ==> resume_step(a, o).choice_in_list(),
{
    match (a.pending, o) {
        (PendingView::ReloadCategories { after }, OutcomeView::Listing(l)) => {
            let cs = sorted(category_names(l));
            if let AfterView::Saved { category, name } = after {
                lemma_find_from(cs, category, 0);
            }
        },
        (PendingView::ReloadEntries { after, .. }, OutcomeView::Listing(l)) => {
            if let AfterView::Saved { category, name } = after {
                lemma_find_from(a.categories, category, 0);
            }
        },
        (PendingView::SavedEntries { category, name }, OutcomeView::Listing(l)) => {
            lemma_find_from(sorted(entry_names(l)), name, 0);
        },
        _ => {},
    }
}

/// Adding an entry ends with it selected: once the host has saved it, listed
/// the data directory (which then holds the entry's category), listed the
/// selected category, and listed the entry's category (which then holds the
/// entry), the browse screen shows that category and that entry selected,
/// with the entry list focused and the saved message.
pub proof fn law_saved_entry_is_selected(
    a: AppView,
    category: Seq<char>,
    name: Seq<char>,
    content: Seq<char>,
    l1: Seq<DirItemView>,
    l2: Seq<DirItemView>,
    l3: Seq<DirItemView>,
)
    requires
        a.wf(),
        a.pending == (PendingView::Save { category, name, content }),
        l1.len() <= usize::MAX,
        l3.len() <= usize::MAX,
        category_names(l1).contains(category),
        entry_names(l3).contains(name),
    ensures
        ({
            let s1 = resume_step(a, OutcomeView::Done);
            let s2 = resume_step(s1, OutcomeView::Listing(l1));
            let s3 = resume_step(s2, OutcomeView::Listing(l2));
            let s4 = resume_step(s3, OutcomeView::Listing(l3));
            &&& request_for(a.pending) == (RequestView::SaveEntry { category, name, content })
            &&& request_for(s1.pending) == RequestView::ListCategories
            &&& request_for(s2.pending) is ListEntries
            &&& request_for(s3.pending) == (RequestView::ListEntries { category })
            &&& s4.mode == ModeView::Browse
            &&& s4.pending == PendingView::Idle
            &&& pick(s4.categories, s4.cat_idx) == Some(category)
            &&& pick(s4.entries, s4.entry_idx) == Some(name)
            &&& s4.focus_right
            &&& s4.message == Some(saved_message(category, name))
        }),
{
    let s1 = resume_step(a, OutcomeView::Done);
    let cs = sorted(category_names(l1));
    lemma_names_len(l1);
    lemma_names_len(l3);
    lemma_sorted_len(category_names(l1));
    lemma_sorted_len(entry_names(l3));
    lemma_sorted_contains(category_names(l1), category);
    assert(cs.len() > 0);
    let s2 = resume_step(s1, OutcomeView::Listing(l1));
    let s3 = resume_step(s2, OutcomeView::Listing(l2));
    lemma_find_from(cs, category, 0);
    let es = sorted(entry_names(l3));
    lemma_sorted_contains(entry_names(l3), name);
    lemma_find_from(es, name, 0);
    if find_name(cs, category) is None {
        let k = choose|k: int| 0 <= k < cs.len() && cs[k] == category;
        assert(cs[k] != category);
    }
    if find_name(es, name) is None {
        let k = choose|k: int| 0 <= k < es.len() && es[k] == name;
        assert(es[k] != name);
    }
    assert(s1.pending == PendingView::ReloadCategories {
        after: AfterView::Saved { category, name },
    });
    assert(s2.categories == cs);
    assert(s2.cat_idx < cs.len());
    assert(s2.pending is ReloadEntries);
    assert(s3.categories == cs);
    let p = find_name(cs, category).unwrap();
    assert(s3.cat_idx == p);
    assert(s3.pending == PendingView::SavedEntries { category, name });
    let s4 = resume_step(s3, OutcomeView::Listing(l3));
    assert(s4.entries == es);
    assert(s4.categories == cs);
}

/// Deleting an entry ends in the browse screen with the deleted message,
/// once the host has removed it and listed the data directory and, if it
/// still holds a category, the selected one.
pub proof fn law_deleted_entry_is_reported(
    a: AppView,
    category: Seq<char>,
    name: Seq<char>,
    l1: Seq<DirItemView>,
    l2: Seq<DirItemView>,
)
    requires
        a.wf(),
        a.pending == (PendingView::Delete { category, name }),
    ensures
        ({
            let s1 = resume_step(a, OutcomeView::Done);
            let s2 = resume_step(s1, OutcomeView::Listing(l1));
            let s3 = if s2.pending is ReloadEntries {
                resume_step(s2, OutcomeView::Listing(l2))
            } else {
                s2
            };
            &&& request_for(a.pending) == (RequestView::DeleteEntry { category, name })
            &&& request_for(s1.pending) == RequestView::ListCategories
            &&& s3.mode == ModeView::Browse
            &&& s3.pending == PendingView::Idle
            &&& s3.message == Some(deleted_message())
        }),
{
}

/// Confirming a deletion asks for exactly the entry that was selected when
/// `d` was pressed.
pub proof fn law_delete_targets_selection(a: AppView, text: Seq<Seq<char>>, t: Seq<Seq<char>>)
    requires
        a.wf(),
        a.mode == ModeView::Browse,
        pick(a.categories, a.cat_idx) is Some,
        pick(a.entries, a.entry_idx) is Some,
    ensures
        ({
            let b = key_step(a, text, KeyInput { code: KeyCode::Char('d'), modifiers: 0 }).0;
            let c = key_step(b, t, KeyInput { code: KeyCode::Char('y'), modifiers: 0 }).0;
            &&& b.mode == ModeView::ConfirmDelete
            &&& request_for(c.pending) == (RequestView::DeleteEntry {
                category: pick(a.categories, a.cat_idx).unwrap(),
                name: pick(a.entries, a.entry_idx).unwrap(),
            })
        }),
{
}

/// `G` in the viewer scrolls to the bottom: the number of lines less the
/// view's height, or the top when everything fits.
pub proof fn law_bottom_scroll(
    a: AppView,
    text: Seq<Seq<char>>,
    content: Seq<char>,
    rendered: bool,
    scroll: u16,
)
    requires
        a.mode == (ModeView::Viewing { content, rendered, scroll }),
        total_lines(content, rendered) <= u16::MAX,
    ensures
        ({
            let total = total_lines(content, rendered);
            let b = key_step(a, text, KeyInput { code: KeyCode::Char('G'), modifiers: 0 }).0;
            b.mode == (ModeView::Viewing {
                content,
                rendered,
                scroll: if total >= a.view_height {
                    (total - a.view_height) as u16
                } else {
                    0
                },
            })
        }),
{
}

/// Tab in the viewer switches between rendered and raw text; twice, it
/// gives back the same view, scrolled to the top.
pub proof fn law_tab_twice(a: AppView, t1: Seq<Seq<char>>, t2: Seq<Seq<char>>)
    requires
        a.mode is Viewing,
    ensures
        ({
            let tab = KeyInput { code: KeyCode::Tab, modifiers: 0 };
            let b = key_step(a, t1, tab).0;
            let c = key_step(b, t2, tab).0;
            &&& b.mode == (ModeView::Viewing {
                content: a.mode->content,
                rendered: !a.mode->rendered,
                scroll: 0,
            })
            &&& c.mode == (ModeView::Viewing {
                content: a.mode->content,
                rendered: a.mode->rendered,
                scroll: 0,
            })
        }),
{
}

/// `Esc` off the browse screen goes back without quitting: from typing a new
/// category to the category list, from anywhere else to the browse screen.
/// The lists, the selections and the focus stay, and no storage work starts.
pub proof fn law_esc_goes_back(a: AppView, text: Seq<Seq<char>>, m: u8)
    requires
        a.mode != ModeView::Browse,
    ensures
        ({
            let (b, quit) = key_step(a, text, KeyInput { code: KeyCode::Esc, modifiers: m });
            &&& !quit
            &&& b.mode == (if a.mode == (ModeView::AddStep2 { cat_typing: true }) {
                ModeView::AddStep2 { cat_typing: false }
            } else {
                ModeView::Browse
            })
            &&& b.categories == a.categories
            &&& b.cat_idx == a.cat_idx
            &&& b.entries == a.entries
            &&& b.entry_idx == a.entry_idx
            &&& b.focus_right == a.focus_right
            &&& b.pending == a.pending
        }),
{
}

/// Only `q` and `Esc` on the browse screen quit, and quitting changes nothing
/// but the message, which every key clears.
pub proof fn law_quit(a: AppView, text: Seq<Seq<char>>, k: KeyInput)
    ensures
        key_step(a, text, k).1 <==> (a.mode == ModeView::Browse && (is_key(k, 'q') || k.code
            == KeyCode::Esc)),
        key_step(a, text, k).1 ==> key_step(a, text, k).0 == (AppView { message: None, ..a }),
{
}

/// On start, the app lists the data directory and then the first category,
/// and shows the sorted categories with the first one and its first entry
/// selected (no entries when there is no category).
pub proof fn law_startup(l1: Seq<DirItemView>, l2: Seq<DirItemView>)
    ensures
        ({
            let a = initial_view();
            let s1 = resume_step(a, OutcomeView::Listing(l1));
            let cs = sorted(category_names(l1));
            let s2 = if cs.len() > 0 {
                resume_step(s1, OutcomeView::Listing(l2))
            } else {
                s1
            };
            &&& request_for(a.pending) == RequestView::ListCategories
            &&& cs.len() > 0 ==> request_for(s1.pending) == (RequestView::ListEntries {
                category: cs[0],
            })
            &&& s2.pending == PendingView::Idle
            &&& s2.mode == ModeView::Browse
            &&& s2.categories == cs
            &&& s2.cat_idx == 0
            &&& s2.entries == (if cs.len() > 0 {
                sorted(entry_names(l2))
            } else {
                seq![]
            })
            &&& s2.entry_idx == 0
            &&& s2.wf()
        }),
{
}

/// Enter on a selected entry reads exactly that entry, and shows the text
/// that is read, rendered, from the top.
pub proof fn law_enter_views_selected_entry(a: AppView, text: Seq<Seq<char>>, t: Seq<char>)
    requires
        a.mode == ModeView::Browse,
        a.focus_right,
        pick(a.categories, a.cat_idx) is Some,
        pick(a.entries, a.entry_idx) is Some,
    ensures
        ({
            let b = key_step(a, text, KeyInput { code: KeyCode::Enter, modifiers: 0 }).0;
            &&& request_for(b.pending) == (RequestView::ReadEntry {
                category: pick(a.categories, a.cat_idx).unwrap(),
                name: pick(a.entries, a.entry_idx).unwrap(),
            })
            &&& resume_step(b, OutcomeView::Text(t)).mode == (ModeView::Viewing {
                content: t,
                rendered: true,
                scroll: 0,
            })
            &&& resume_step(b, OutcomeView::Text(t)).pending == PendingView::Idle
        }),
{
}

/// Ctrl+D in step 1 moves on, asking for the categories, exactly when the
/// editor holds something besides white space; the content kept is the
/// editor's lines joined by line feeds.
pub proof fn law_submit_needs_text(a: AppView, text: Seq<Seq<char>>)
    requires
        a.mode == ModeView::AddStep1,
        a.pending == PendingView::Idle,
    ensures
        ({
            let b = key_step(a, text, KeyInput { code: KeyCode::Char('d'), modifiers: CONTROL }).0;
            &&& (b.pending == PendingView::AddCategories) <==> !is_blank(join_lines(text))
            &&& !is_blank(join_lines(text)) ==> b.add_content == join_lines(text)
            &&& b.mode == ModeView::AddStep1
        }),
{
    law_trim_empty_iff_blank(join_lines(text));
}

/// Every key press clears the toast message.
pub proof fn law_key_clears_message(a: AppView, text: Seq<Seq<char>>, k: KeyInput)
    ensures
        key_step(a, text, k).0.message is None,
{
}

/// Only two keys ask to write to the store: Enter on step 3 with a name that
/// is not blank saves the content under the chosen category and the trimmed
/// name; `y` or `Y` while deletion is asked for deletes the entry that was
/// asked about. Any other key starts no write: a save or a deletion that is
/// pending after it was pending before, untouched.
pub proof fn law_only_save_and_delete_write(a: AppView, text: Seq<Seq<char>>, k: KeyInput)
    ensures
        ({
            let b = key_step(a, text, k).0;
            let saves = a.mode == ModeView::AddStep3 && k.code == KeyCode::Enter && trim(
                a.add_name,
            ).len() > 0;
            let deletes = a.mode == ModeView::ConfirmDelete && (is_key(k, 'y') || is_key(k, 'Y'))
                && a.del_target is Some;
            &&& saves ==> request_for(b.pending) == (RequestView::SaveEntry {
                category: a.add_category,
                name: trim(a.add_name),
                content: a.add_content,
            })
            &&& deletes ==> request_for(b.pending) == (RequestView::DeleteEntry {
                category: a.del_target.unwrap().0,
                name: a.del_target.unwrap().1,
            })
            &&& (!saves && !deletes && (request_for(b.pending) is SaveEntry || request_for(
                b.pending,
            ) is DeleteEntry)) ==> b.pending == a.pending
        }),
{
}

/// An outcome never starts a write: a save or delete pending after it was
/// pending before, untouched.
pub proof fn law_resume_never_writes(a: AppView, o: OutcomeView)
    ensures
        (request_for(resume_step(a, o).pending) is SaveEntry || request_for(
            resume_step(a, o).pending,
        ) is DeleteEntry) ==> resume_step(a, o) == a,
{
}

/// Work that ends by reporting a save or a deletion.
pub open spec fn reports(p: PendingView) -> bool {
    match p {
        PendingView::ReloadCategories { after } => !(after is Startup),
        PendingView::ReloadEntries { after, .. } => !(after is Startup),
        PendingView::SavedEntries { .. } => true,
        _ => false,
    }
}

/// The toast message is set only by work that reports a save or a
/// deletion; such work follows only a save or a deletion, and no key
/// starts it. With `law_key_clears_message` and
/// `law_only_save_and_delete_write`: after a key and the host's work, the
/// message is there exactly after a save or a confirmed deletion.
pub proof fn law_message_only_reports(
    a: AppView,
    o: OutcomeView,
    text: Seq<Seq<char>>,
    k: KeyInput,
)
    ensures
        resume_step(a, o).message != a.message ==> reports(a.pending),
        reports(resume_step(a, o).pending) ==> reports(a.pending) || a.pending is Save
            || a.pending is Delete,
        reports(key_step(a, text, k).0.pending) ==> reports(a.pending),
{
}

/// Typing a new category in step 2: a character is added at the end (so
/// `j` and `k` are typed, not moved by), Backspace takes the last one off
/// (nothing on an empty input), and Esc goes back to the list, keeping what
/// was typed.
pub proof fn law_step2_typing(a: AppView, t1: Seq<Seq<char>>, t2: Seq<Seq<char>>, c: char)
    requires
        a.mode == (ModeView::AddStep2 { cat_typing: true }),
    ensures
        ({
            let typed = key_step(a, t1, KeyInput { code: KeyCode::Char(c), modifiers: 0 }).0;
            let back = key_step(typed, t2, KeyInput { code: KeyCode::Backspace, modifiers: 0 }).0;
            let esc = key_step(a, t1, KeyInput { code: KeyCode::Esc, modifiers: 0 }).0;
            let bs = key_step(a, t1, KeyInput { code: KeyCode::Backspace, modifiers: 0 }).0;
            &&& typed.add_cat_input == a.add_cat_input.push(c)
            &&& typed.mode == a.mode
            &&& back.add_cat_input == a.add_cat_input
            &&& back.mode == a.mode
            &&& a.add_cat_input.len() == 0 ==> bs.add_cat_input == a.add_cat_input
            &&& esc.mode == (ModeView::AddStep2 { cat_typing: false })
            &&& esc.add_cat_input == a.add_cat_input
        }),
{
    assert(a.add_cat_input.push(c).drop_last() =~= a.add_cat_input);
}

/// Typing a name in step 3: a character is added at the end, and Backspace
/// takes the last character off, so a character typed and then erased leaves
/// the name as it was. Neither key leaves step 3.
pub proof fn law_step3_typing(
    a: AppView,
    t1: Seq<Seq<char>>,
    t2: Seq<Seq<char>>,
    c: char,
    m1: u8,
    m2: u8,
)
    requires
        a.mode == ModeView::AddStep3,
    ensures
        ({
            let typed = key_step(a, t1, KeyInput { code: KeyCode::Char(c), modifiers: m1 }).0;
            let back = key_step(typed, t2, KeyInput { code: KeyCode::Backspace, modifiers: m2 }).0;
            let bs = key_step(a, t1, KeyInput { code: KeyCode::Backspace, modifiers: m1 }).0;
            &&& typed.add_name == a.add_name.push(c)
            &&& typed.mode == ModeView::AddStep3
            &&& back.add_name == a.add_name
            &&& back.mode == ModeView::AddStep3
            &&& bs.mode == ModeView::AddStep3
            &&& a.add_name.len() > 0 ==> bs.add_name.len() + 1 == a.add_name.len()
                && bs.add_name.push(a.add_name.last()) == a.add_name
            &&& a.add_name.len() == 0 ==> bs.add_name == a.add_name
            &&& typed.pending == a.pending
            &&& back.pending == a.pending
        }),
{
    assert(a.add_name.push(c).drop_last() =~= a.add_name);
    assert(a.add_name.len() > 0 ==> a.add_name.drop_last().push(a.add_name.last()) =~= a.add_name);
}

/// Whenever the entry list is taken from a listing (after moving to another
/// category, at startup, after a save or a deletion), it is in sorted order
/// and holds exactly the names of the listing's regular files.
pub proof fn law_entries_refreshed_sorted(a: AppView, l: Seq<DirItemView>)
    requires
        a.pending is BrowseEntries || a.pending is ReloadEntries || a.pending is SavedEntries,
    ensures
        ({
            let b = resume_step(a, OutcomeView::Listing(l));
            &&& is_sorted(b.entries)
            &&& b.entries.to_multiset() == entry_names(l).to_multiset()
        }),
{
    lemma_sorted(entry_names(l));
}

/// In the viewer the Down arrow and `j` do the same thing, whatever the
/// modifiers: the view moves down one line (staying put at the largest
/// scroll); likewise the Up arrow and `k` move it up one line (staying at the
/// top). Nothing else changes but the cleared message.
pub proof fn law_view_line_keys(
    a: AppView,
    t1: Seq<Seq<char>>,
    t2: Seq<Seq<char>>,
    content: Seq<char>,
    rendered: bool,
    scroll: u16,
    m1: u8,
    m2: u8,
)
    requires
        a.mode == (ModeView::Viewing { content, rendered, scroll }),
    ensures
        ({
            let down = key_step(a, t1, KeyInput { code: KeyCode::Down, modifiers: m1 });
            let j = key_step(a, t2, KeyInput { code: KeyCode::Char('j'), modifiers: m2 });
            let up = key_step(a, t1, KeyInput { code: KeyCode::Up, modifiers: m1 });
            let k = key_step(a, t2, KeyInput { code: KeyCode::Char('k'), modifiers: m2 });
            let next: int = if scroll < u16::MAX { scroll + 1 } else { scroll as int };
            let prev: int = if scroll > 0 { scroll - 1 } else { 0 };
            &&& down == j
            &&& up == k
            &&& !down.1 && !up.1
            &&& down.0 == (AppView {
                mode: ModeView::Viewing { content, rendered, scroll: next as u16 },
                message: None,
                ..a
            })
            &&& up.0 == (AppView {
                mode: ModeView::Viewing { content, rendered, scroll: prev as u16 },
                message: None,
                ..a
            })
        }),
{
}

/// `y` in the viewer asks the host to copy exactly the whole viewed content,
/// and changes nothing else but the cleared message.
pub proof fn law_view_copy(
    a: AppView,
    t: Seq<Seq<char>>,
    content: Seq<char>,
    rendered: bool,
    scroll: u16,
    m: u8,
)
    requires
        a.mode == (ModeView::Viewing { content, rendered, scroll }),
    ensures
        ({
            let (b, quit) = key_step(a, t, KeyInput { code: KeyCode::Char('y'), modifiers: m });
            &&& !quit
            &&& request_for(b.pending) == (RequestView::Copy { text: content })
            &&& b == (AppView { pending: PendingView::Copy { text: content }, message: None, ..a })
        }),
{
}

/// Moving on the browse screen: the arrow keys do what the letters do, with
/// any modifiers (Down as `j`, Up as `k`, Right and Tab as `l`, Left as `h`).
/// `j` and `k` move one place down or up in the focused list, staying at its
/// ends; moving in the category list asks for the entries of the category
/// that is then selected. `l` focuses the entries when there are any, `h`
/// the categories. None of them quits or leaves the browse screen.
pub proof fn law_browse_moves(
    a: AppView,
    t1: Seq<Seq<char>>,
    t2: Seq<Seq<char>>,
    m1: u8,
    m2: u8,
)
    requires
        a.wf(),
        a.mode == ModeView::Browse,
        a.categories.len() <= usize::MAX,
        a.entries.len() <= usize::MAX,
    ensures
        ({
            let key = |code: KeyCode, m: u8| KeyInput { code, modifiers: m };
            let down = key_step(a, t1, key(KeyCode::Down, m1));
            let j = key_step(a, t2, key(KeyCode::Char('j'), m2));
            let up = key_step(a, t1, key(KeyCode::Up, m1));
            let k = key_step(a, t2, key(KeyCode::Char('k'), m2));
            let right = key_step(a, t1, key(KeyCode::Right, m1));
            let tab = key_step(a, t1, key(KeyCode::Tab, m1));
            let l = key_step(a, t2, key(KeyCode::Char('l'), m2));
            let left = key_step(a, t1, key(KeyCode::Left, m1));
            let h = key_step(a, t2, key(KeyCode::Char('h'), m2));
            let a0 = AppView { message: None, ..a };
            let cat_down: int = if a.cat_idx + 1 < a.categories.len() {
                a.cat_idx + 1
            } else {
                a.cat_idx as int
            };
            let cat_up: int = if a.cat_idx > 0 { a.cat_idx - 1 } else { a.cat_idx as int };
            &&& down == j && up == k && right == l && tab == l && left == h
            &&& !j.1 && !k.1 && !l.1 && !h.1
            &&& j.0.mode == ModeView::Browse && k.0.mode == ModeView::Browse
            &&& j.0.categories == a.categories && k.0.categories == a.categories
            &&& j.0.focus_right == a.focus_right && k.0.focus_right == a.focus_right
            &&& a.focus_right ==> j.0 == (AppView {
                entry_idx: if a.entry_idx + 1 < a.entries.len() {
                    (a.entry_idx + 1) as usize
                } else {
                    a.entry_idx
                },
                ..a0
            })
            &&& a.focus_right ==> k.0 == (AppView {
                entry_idx: if a.entry_idx > 0 {
                    (a.entry_idx - 1) as usize
                } else {
                    a.entry_idx
                },
                ..a0
            })
            &&& !a.focus_right && a.categories.len() > 0 ==> {
                &&& j.0.cat_idx == cat_down
                &&& request_for(j.0.pending) == (RequestView::ListEntries {
                    category: a.categories[cat_down],
                })
                &&& k.0.cat_idx == cat_up
                &&& request_for(k.0.pending) == (RequestView::ListEntries {
                    category: a.categories[cat_up],
                })
            }
            &&& l.0 == (AppView { focus_right: a.focus_right || a.entries.len() > 0, ..a0 })
            &&& h.0 == (AppView { focus_right: false, ..a0 })
        }),
{
}

/// Paging in the viewer: `d` moves ten lines down (staying put at the
/// largest scroll), `u` ten lines up (stopping at the top), `g` to the top,
/// and `q` leaves the viewer for the browse screen. Nothing else changes but
/// the cleared message.
pub proof fn law_view_page_keys(
    a: AppView,
    t: Seq<Seq<char>>,
    content: Seq<char>,
    rendered: bool,
    scroll: u16,
    m: u8,
)
    requires
        a.mode == (ModeView::Viewing { content, rendered, scroll }),
    ensures
        ({
            let step = |c: char| key_step(a, t, KeyInput { code: KeyCode::Char(c), modifiers: m });
            let at = |s: int| (AppView {
                mode: ModeView::Viewing { content, rendered, scroll: s as u16 },
                message: None,
                ..a
            });
            let down: int = if scroll + 10 <= u16::MAX { scroll + 10 } else { u16::MAX as int };
            let up: int = if scroll >= 10 { scroll - 10 } else { 0 };
            &&& step('d') == (at(down), false)
            &&& step('u') == (at(up), false)
            &&& step('g') == (at(0), false)
            &&& step('q') == (AppView { mode: ModeView::Browse, message: None, ..a }, false)
        }),
{
}

/// Whenever the category lists are taken from a listing (the browse list
/// after a save, a deletion or at startup; the list of step 2), they are in
/// sorted order and hold exactly the names of the listing's visible
/// directories. Step 2 then starts on the list, at its first line, with no
/// new category typed.
pub proof fn law_categories_refreshed_sorted(a: AppView, l: Seq<DirItemView>)
    ensures
        a.pending is ReloadCategories ==> {
            let b = resume_step(a, OutcomeView::Listing(l));
            &&& is_sorted(b.categories)
            &&& b.categories.to_multiset() == category_names(l).to_multiset()
        },
        a.pending is AddCategories ==> {
            let b = resume_step(a, OutcomeView::Listing(l));
            &&& is_sorted(b.add_cat_list)
            &&& b.add_cat_list.to_multiset() == category_names(l).to_multiset()
            &&& b.mode == (ModeView::AddStep2 { cat_typing: false })
            &&& b.add_cat_idx == 0
            &&& b.add_cat_input.len() == 0
        },
{
    lemma_sorted(category_names(l));
}

/// Choosing the category in step 2. On the list, the arrow keys do what `j`
/// and `k` do: move one line down or up, between the first category and the
/// "new category" line after the last one. Enter on a category takes it and
/// goes on to name the entry, with an empty name; Enter on the "new category"
/// line starts typing one, from nothing. Enter on a typed category takes it
/// trimmed, unless it is blank. None of these starts storage work.
pub proof fn law_step2_choose(
    a: AppView,
    t1: Seq<Seq<char>>,
    t2: Seq<Seq<char>>,
    m1: u8,
    m2: u8,
)
    requires
        a.choice_in_list(),
        a.add_cat_list.len() < usize::MAX,
    ensures
        ({
            let key = |code: KeyCode, m: u8| KeyInput { code, modifiers: m };
            let a0 = AppView { message: None, ..a };
            let list = a.mode == (ModeView::AddStep2 { cat_typing: false });
            let typing = a.mode == (ModeView::AddStep2 { cat_typing: true });
            let down = key_step(a, t1, key(KeyCode::Down, m1)).0;
            let j = key_step(a, t2, key(KeyCode::Char('j'), m2)).0;
            let up = key_step(a, t1, key(KeyCode::Up, m1)).0;
            let k = key_step(a, t2, key(KeyCode::Char('k'), m2)).0;
            let enter = key_step(a, t1, key(KeyCode::Enter, m1)).0;
            let i = a.add_cat_idx;
            let n = a.add_cat_list.len();
            &&& list ==> down == j && up == k
            &&& list ==> j == (AppView {
                add_cat_idx: if i < n { (i + 1) as usize } else { i },
                ..a0
            })
            &&& list ==> k == (AppView {
                add_cat_idx: if i > 0 { (i - 1) as usize } else { i },
                ..a0
            })
            &&& list && i < n ==> enter == (AppView {
                add_category: a.add_cat_list[i as int],
                add_name: seq![],
                mode: ModeView::AddStep3,
                ..a0
            })
            &&& list && i == n ==> enter == (AppView {
                add_cat_input: seq![],
                mode: ModeView::AddStep2 { cat_typing: true },
                ..a0
            })
            &&& typing && !is_blank(a.add_cat_input) ==> enter == (AppView {
                add_category: trim(a.add_cat_input),
                add_name: seq![],
                mode: ModeView::AddStep3,
                ..a0
            })
            &&& typing && is_blank(a.add_cat_input) ==> enter == a0
        }),
{
    law_trim_empty_iff_blank(a.add_cat_input);
}

/// Confirming a deletion: `y` or `Y` asks the host to delete exactly the
/// entry that was asked about; any other key cancels, back to the browse
/// screen, and deletes nothing.
pub proof fn law_confirm_keys(a: AppView, t: Seq<Seq<char>>, k: KeyInput, c: Seq<char>, n: Seq<char>)
    requires
        a.mode == ModeView::ConfirmDelete,
        a.del_target == Some((c, n)),
    ensures
        ({
            let (b, quit) = key_step(a, t, k);
            &&& !quit
            &&& (is_key(k, 'y') || is_key(k, 'Y')) ==> request_for(b.pending) == (
            RequestView::DeleteEntry { category: c, name: n })
            &&& !(is_key(k, 'y') || is_key(k, 'Y')) ==> b == (AppView {
                del_target: None,
                mode: ModeView::Browse,
                message: None,
                ..a
            })
        }),
{
}

/// More keys of the browse screen, with any modifiers: Enter on the category
/// list focuses the entries when there are any, as `l` does; `a` starts the
/// add flow at its first step and changes nothing else; `d` with an entry
/// selected asks whether to delete that entry of that category.
pub proof fn law_browse_enter_add_delete(a: AppView, t1: Seq<Seq<char>>, t2: Seq<Seq<char>>, m: u8)
    requires
        a.mode == ModeView::Browse,
    ensures
        ({
            let key = |code: KeyCode| KeyInput { code, modifiers: m };
            let a0 = AppView { message: None, ..a };
            let enter = key_step(a, t1, key(KeyCode::Enter));
            let l = key_step(a, t2, key(KeyCode::Char('l')));
            let adding = key_step(a, t1, key(KeyCode::Char('a')));
            let del = key_step(a, t1, key(KeyCode::Char('d')));
            &&& !a.focus_right ==> enter == l
            &&& adding == (AppView { mode: ModeView::AddStep1, ..a0 }, false)
            &&& (a.cat_idx < a.categories.len() && a.entry_idx < a.entries.len()) ==> del == (
            AppView {
                del_target: Some((a.categories[a.cat_idx as int], a.entries[a.entry_idx as int])),
                mode: ModeView::ConfirmDelete,
                ..a0
            }, false)
            &&& !(a.cat_idx < a.categories.len() && a.entry_idx < a.entries.len()) ==> del == (
            a0, false)
        }),
{
}

} // verus!




