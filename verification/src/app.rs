//! The states of the sorter and the decisions it takes in each frame. The
//! window, the image loading and the saving run outside; they report back
//! through `sorter_finish`.
use vstd::prelude::*;
use crate::dir::InputState;
use crate::idx_name::RenamePatternState;
use vstd::string::StringExecFns;

verus! {

/// Waiting for a directory, sorting its images, or done saving them.
#[derive(Debug, PartialEq, Eq, Structural)]
pub enum AppState {
    Start,
    Sort,
    Finish,
}

impl AppState {
    pub fn is_sort(&self) -> (r: bool)
        ensures
            r == (self is Sort),
    {
        match self {
            AppState::Sort => true,
            _ => false,
        }
    }
}

/// What the sorter sets out to do in a frame.
#[derive(Debug, PartialEq, Eq, Structural)]
pub enum SorterPlan {
    /// Nothing to do.
    Stay,
    /// Load the images of the verified directory.
    Load,
    /// Save the images under their new names.
    Save,
    /// Refuse to save: the pattern has fewer names than there are images.
    TooMany,
    /// Drop everything and wait for a directory again.
    Clear,
}

/// The plan of a frame, from the state, the state of the directory input,
/// whether the save button was clicked, the pattern, and the largest number
/// of images that one saved layer holds.
pub fn sorter_plan(
    state: &AppState,
    dir_state: &InputState,
    rename_clicked: bool,
    pattern: &RenamePatternState,
    max_len: usize,
) -> (plan: SorterPlan)
    ensures
        *state is Start ==> plan == (if *dir_state is Verified {
            SorterPlan::Load
        } else {
            SorterPlan::Stay
        }),
        *state is Sort ==> plan == (match pattern {
            RenamePatternState::Iter(it) => if rename_clicked {
                if max_len < it.max_size {
                    SorterPlan::Save
                } else {
                    SorterPlan::TooMany
                }
            } else if *dir_state is Verified {
                SorterPlan::Clear
            } else {
                SorterPlan::Stay
            },
            _ => if *dir_state is Verified {
                SorterPlan::Clear
            } else {
                SorterPlan::Stay
            },
        }),
        *state is Finish ==> plan == (if *dir_state is Verified {
            SorterPlan::Clear
        } else {
            SorterPlan::Stay
        }),
        plan is Save ==> *state is Sort && (pattern matches RenamePatternState::Iter(it)
            && max_len < it.max_size),
{
    match state {
        AppState::Start => {
            if dir_state.is_verified() {
                SorterPlan::Load
            } else {
                SorterPlan::Stay
            }
        },
        AppState::Sort => {
            let clicked_with_iter = match pattern {
                RenamePatternState::Iter(it) => {
                    if rename_clicked {
                        if max_len < it.max_size as usize {
                            return SorterPlan::Save;
                        } else {
                            return SorterPlan::TooMany;
                        }
                    }
                    false
                },
                _ => false,
            };
            if !clicked_with_iter && dir_state.is_verified() {
                SorterPlan::Clear
            } else {
                SorterPlan::Stay
            }
        },
        AppState::Finish => {
            if dir_state.is_verified() {
                SorterPlan::Clear
            } else {
                SorterPlan::Stay
            }
        },
    }
}

pub open spec fn save_error_prefix() -> Seq<char> {
    seq!['s', 'a', 'v', 'e', ' ', 'e', 'r', 'r', 'o', 'r', '!', ' ']
}

pub open spec fn too_many_message() -> Seq<char> {
    "beyond max number of input pattern"@
}

/// Applies the outcome of the plan's outside work (`Ok` for plans without
/// any). Returns whether the channel of the image loader is to be dropped.
pub fn sorter_finish(
    plan: &SorterPlan,
    outcome: Result<(), String>,
    state: &mut AppState,
    dir_state: &mut InputState,
    rename_state: &mut InputState,
    pattern: &mut RenamePatternState,
) -> (drop_receiver: bool)
    ensures
        *plan is Load && outcome is Ok ==> *final(state) is Sort && *final(dir_state) is InActive
            && *final(rename_state) == *old(rename_state) && !drop_receiver,
        *plan is Save && outcome is Ok ==> *final(state) is Finish && *final(rename_state) is InActive
            && *final(dir_state) == *old(dir_state) && drop_receiver,
        *plan is Save ==> (outcome matches Err(e) ==> *final(state) == *old(state)
            && *final(rename_state) is InActive && !drop_receiver && (*final(pattern) matches RenamePatternState::Failed(m)
            && m@ == save_error_prefix() + e@)),
        *plan is TooMany ==> *final(state) == *old(state) && *final(rename_state) is InActive
            && !drop_receiver && (*final(pattern) matches RenamePatternState::Failed(m) && m@
            == too_many_message()),
        *plan is Clear ==> *final(state) is Start && *final(dir_state) == *old(dir_state)
            && *final(rename_state) == *old(rename_state) && drop_receiver,
        *plan is Stay || (*plan is Load && outcome is Err) ==> *final(state) == *old(state)
            && *final(dir_state) == *old(dir_state) && *final(rename_state) == *old(rename_state)
            && !drop_receiver,
        !(*plan is Save) && !(*plan is TooMany) ==> *final(pattern) == *old(pattern),
        *plan is Save && outcome is Ok ==> *final(pattern) == *old(pattern),
{
    match plan {
        SorterPlan::Stay => false,
        SorterPlan::Load => {
            match outcome {
                Ok(()) => {
                    *state = AppState::Sort;
                    *dir_state = InputState::InActive;
                },
                Err(_) => {},
            }
            false
        },
        SorterPlan::Save => {
            let drop_receiver = match outcome {
                Err(err) => {
                    let prefix = "save error! ";
                    proof {
                        reveal_strlit("save error! ");
                        assert(prefix@ =~= save_error_prefix());
                    }
                    let mut msg = String::from_str(prefix);
                    msg.append(err.as_str());
                    *pattern = RenamePatternState::Failed(msg);
                    false
                },
                Ok(()) => {
                    *state = AppState::Finish;
                    true
                },
            };
            *rename_state = InputState::InActive;
            drop_receiver
        },
        SorterPlan::TooMany => {
            let msg = "beyond max number of input pattern";
            *pattern = RenamePatternState::Failed(String::from_str(msg));
            *rename_state = InputState::InActive;
            false
        },
        SorterPlan::Clear => {
            *state = AppState::Start;
            true
        },
    }
}

} // verus!
