use vstd::prelude::*;
use crate::key::{KeyCode, KeyInput, ALT, CONTROL, SHIFT};
use tui_textarea::Key as K;

verus! {

/// The text box of the editor: a `tui_textarea::TextArea`. Its field is
/// public because the program draws the box itself (styling it and handing
/// it to the frame as a widget), and the `TextArea` type cannot appear in the
/// signature of a verified accessor. The library reads and changes the box
/// only through `editor_text_lines` and `editor_input`.
#[verifier::external_body]
pub struct TextBox {
    pub area: tui_textarea::TextArea<'static>,
}

/// The lines that a text box holds.
pub uninterp spec fn editor_lines(t: TextBox) -> Seq<Seq<char>>;

/// A key as the text box takes it: the key, and whether Ctrl, Alt and Shift
/// are held.
pub type FedKey = (KeyCode, bool, bool, bool);

/// The key press `k` as the text box takes it.
pub open spec fn fed_key(k: KeyInput) -> FedKey {
    (k.code, k.modifiers & CONTROL != 0, k.modifiers & ALT != 0, k.modifiers & SHIFT != 0)
}

/// A multi-line text editor: its text box, and the keys handed to the box
/// since it was made.
pub struct Editor {
    pub inner: TextBox,
    pub fed: Ghost<Seq<FedKey>>,
}

/// `TextArea::default`: a text box that holds one empty line (the crate's
/// own documentation shows `lines()` giving `[""]`).
#[verifier::external_body]
fn new_text_box() -> (t: TextBox)
    ensures
        editor_lines(t) == seq![Seq::<char>::empty()],
{
    TextBox { area: tui_textarea::TextArea::default() }
}

/// An empty editor: one empty line, and no key handed to it yet.
pub fn new_editor() -> (e: Editor)
    ensures
        editor_lines(e.inner) == seq![Seq::<char>::empty()],
        e.fed@ == Seq::<FedKey>::empty(),
{
    Editor { inner: new_text_box(), fed: Ghost(Seq::empty()) }
}

/// `TextArea::lines`: the lines that the editor holds.
#[verifier::external_body]
pub fn editor_text_lines(e: &Editor) -> (ls: Vec<String>)
    ensures
        ls.deep_view() == editor_lines(e.inner),
{
    e.inner.area.lines().to_vec()
}

/// `TextArea::input`: the text box handles the key `code` with the given
/// modifiers (inserting text, moving the cursor, deleting, undoing and so
/// on). The key handed over is recorded in `fed`. What the box does to its
/// lines depends on its cursor, its history and the viewport that drawing
/// moves, which are not modelled: nothing is stated of the lines afterwards.
#[verifier::external_body]
pub fn editor_input(e: &mut Editor, code: KeyCode, ctrl: bool, alt: bool, shift: bool)
    ensures
        final(e).fed@ == old(e).fed@.push((code, ctrl, alt, shift)),
{
    let key = match code {
        KeyCode::Char(c) => K::Char(c), KeyCode::F(n) => K::F(n),
        KeyCode::Backspace => K::Backspace, KeyCode::Enter => K::Enter,
        KeyCode::Left => K::Left, KeyCode::Right => K::Right, KeyCode::Up => K::Up,
        KeyCode::Down => K::Down, KeyCode::Tab => K::Tab, KeyCode::Delete => K::Delete,
        KeyCode::Home => K::Home, KeyCode::End => K::End, KeyCode::PageUp => K::PageUp,
        KeyCode::PageDown => K::PageDown, KeyCode::Esc => K::Esc, KeyCode::Null => K::Null,
    };
    e.inner.area.input(tui_textarea::Input { key, ctrl, alt, shift });
}

} // verus!
