use vstd::prelude::*;

verus! {

/// What the death screen asks the game to do next.
#[derive(Clone, Copy, PartialEq, Eq, Structural, Debug)]
pub enum DeathAction {
    /// No button was clicked: stay on the death screen.
    Stay,
    Restart,
    Menu,
    Quit,
}

/// The death screen's buttons, top to bottom: restart, menu, quit. Each
/// flag says whether the button was clicked (hovered while the left mouse
/// button was pressed) this frame. The screen checks them top to bottom and
/// acts on the first clicked one.
pub fn death_action(restart_clicked: bool, menu_clicked: bool, quit_clicked: bool) -> (a: DeathAction)
    ensures
        a == (if restart_clicked {
            DeathAction::Restart
        } else if menu_clicked {
            DeathAction::Menu
        } else if quit_clicked {
            DeathAction::Quit
        } else {
            DeathAction::Stay
        }),
{
    if restart_clicked {
        DeathAction::Restart
    } else if menu_clicked {
        DeathAction::Menu
    } else if quit_clicked {
        DeathAction::Quit
    } else {
        DeathAction::Stay
    }
}

} // verus!
