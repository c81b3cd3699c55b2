//! The two inputs at the top of the window, and the decisions taken on them
//! in each frame; their drawing is done outside.
use vstd::prelude::*;
use crate::app::AppState;
use crate::dir::InputState;
use crate::idx_name::{IndexName, RenamePatternState, style_numbers, style_in_range};
use vstd::string::StringExecFns;

verus! {

/// An input box: what is typed, what was last taken from it, its state, its
/// identifier and where it is drawn.
pub struct InputItem<R> {
    pub input: String,
    pub input_cache: String,
    pub state: InputState,
    pub id: String,
    pub rect: R,
}

impl<R> InputItem<R> {
    pub fn new_with_id_rect(id: String, rect: R) -> (r: Self)
        ensures
            r.input@ == Seq::<char>::empty(),
            r.input_cache@ == Seq::<char>::empty(),
            r.state is Active,
            r.id == id,
            r.rect == rect,
    {
        let input = String::new();
        let input_cache = String::new();
        let state = InputState::default();
        InputItem { input, input_cache, state, id, rect }
    }

    /// Takes what is typed, and returns it.
    pub fn update_cache(&mut self) -> (r: &str)
        ensures
            final(self).input_cache@ == old(self).input@,
            r@ == old(self).input@,
            final(self).input == old(self).input,
            final(self).state == old(self).state,
            final(self).id == old(self).id,
            final(self).rect == old(self).rect,
    {
        self.input_cache = self.input.clone();
        self.input_cache.as_str()
    }

    /// What was last taken.
    pub fn get_cache(&self) -> (r: &str)
        ensures
            r@ == self.input_cache@,
    {
        self.input_cache.as_str()
    }
}

pub open spec fn iter_failed_message() -> Seq<char> {
    "producing rename iter failed"@
}

/// The first check of a pattern that waits for verification (and has no
/// sequence yet): a valid style string becomes the sequence of names and is
/// taken as the input's text; any other text is refused with a message and
/// the input stops accepting typing. Nothing happens otherwise.
pub fn rename_input_check<R>(item: &mut InputItem<R>, pattern: &mut RenamePatternState)
    requires
        old(item).state is WaitingVerify && !(*old(pattern) is Iter) ==> style_in_range(
            old(item).input@,
        ),
    ensures
        !(old(item).state is WaitingVerify && !(*old(pattern) is Iter)) ==> *final(item)
            == *old(item) && *final(pattern) == *old(pattern),
        old(item).state is WaitingVerify && !(*old(pattern) is Iter) && style_numbers(
            old(item).input@,
        ) is None ==> final(item).state is InActive && final(item).input == old(item).input
            && final(item).input_cache == old(item).input_cache && (*final(pattern) matches RenamePatternState::Failed(m) && m@ == iter_failed_message()),
        old(item).state is WaitingVerify && !(*old(pattern) is Iter) && style_numbers(
            old(item).input@,
        ) is Some ==> final(item).state == old(item).state && final(item).input == old(item).input
            && final(item).input_cache@ == old(item).input@ && (*final(pattern) matches RenamePatternState::Iter(it) && it.wf() && it.now_num == 0
            && style_numbers(old(item).input@) == Some(
            (it.style.0 as nat, it.style.2 as nat),
        )),
        final(item).id == old(item).id,
        final(item).rect == old(item).rect,
{
    if item.state.is_waiting() && !pattern.is_iter() {
        match IndexName::new(&item.input) {
            None => {
                *pattern = RenamePatternState::Failed(
                    String::from_str("producing rename iter failed"),
                );
                item.state = InputState::InActive;
            },
            Some(iter) => {
                item.input_cache = item.input.clone();
                *pattern = RenamePatternState::Iter(iter);
            },
        }
    }
}

/// A click on the check button of the pattern input: an active input is
/// asked to hand over its text (the result); any other input becomes active
/// again and its sequence of names is dropped.
pub fn rename_button_clicked(
    state: &mut InputState,
    pattern: &mut RenamePatternState,
    clicked: bool,
) -> (get: bool)
    ensures
        get == (clicked && *old(state) is Active),
        clicked && !(*old(state) is Active) ==> *final(state) is Active && *final(pattern) is Empty,
        !(clicked && !(*old(state) is Active)) ==> *final(state) == *old(state) && *final(pattern)
            == *old(pattern),
{
    let get = clicked && state.is_active();
    if state.is_inactive() && clicked {
        *pattern = RenamePatternState::Empty;
        *state = InputState::Active;
    }
    get
}

/// The save button works only while sorting, with a pattern that was taken
/// and turned into a sequence of names.
pub fn rename_enabled(state: &InputState, pattern: &RenamePatternState, app_state: &AppState) -> (r:
    bool)
    ensures
        r == (!(*state is Active) && *pattern is Iter && *app_state is Sort),
{
    state.is_inactive() && pattern.is_iter() && app_state.is_sort()
}

} // verus!
