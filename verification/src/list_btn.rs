//! The look of a button of the song list.
use vstd::prelude::*;

verus! {

/// How a button of the song list is drawn.
#[derive(Clone, Copy, Debug, PartialEq, Eq, Structural)]
pub enum ListBtnLook {
    /// The song that was opened last: golden, with an accent bar and yellow text.
    Selected,
    /// Under the pointer or held down.
    Highlighted,
    /// Any other button.
    Plain,
}

/// The look of a list button: being selected wins over hover and press.
pub fn list_btn_look(is_selected: bool, is_hovered: bool, is_pressed: bool) -> (look: ListBtnLook)
    ensures
        look == (if is_selected {
            ListBtnLook::Selected
        } else if is_hovered || is_pressed {
            ListBtnLook::Highlighted
        } else {
            ListBtnLook::Plain
        }),
{
    if is_selected {
        ListBtnLook::Selected
    } else if is_hovered || is_pressed {
        ListBtnLook::Highlighted
    } else {
        ListBtnLook::Plain
    }
}

} // verus!
