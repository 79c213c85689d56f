//! What the pointer does to the puter: its buttons, selections on its screen,
//! and programs that follow the mouse.
use vstd::prelude::*;

use crate::cursor::CursorKind;
use crate::puter::chrome::{
    button_at, button_kind, kind_of_button, pressed_button, presses, ButtonKind,
};
use crate::puter::color::DisplaySettings;
use crate::puter::keys::Scroll;
use crate::puter::terminal::{
    cell_under, clamped_screen_point, lemma_nearest_cell, mouse_report, mouse_text, nearest_cell,
    on_screen, screen_contains, screen_point, Point, SCROLL_LINES,
};

verus! {

/// What an ongoing press of the pointer does: at most one thing.
#[derive(Clone, Copy, Debug, PartialEq, Eq, Structural)]
pub enum PressState {
    Idle,
    /// A button of the front panel is held.
    Chrome(usize),
    /// A selection is drawn, up to this cell.
    Selection(Point),
    /// The program was told of the press, and is to be told of the release.
    ForwardedMouse,
}

/// What the machine has to do after the pointer did something.
pub enum PuterAction {
    Nothing,
    /// Go to the bottom and start a selection at a cell.
    StartSelection(Point),
    /// Let the selection reach to a cell.
    ExtendSelection(Point),
    /// Copy what is selected.
    CopySelection,
    /// Write a text to the program.
    Write(String),
}

/// What letting a button go asks for.
pub struct Release {
    pub quit: bool,
    pub lock: bool,
    pub action: PuterAction,
}

pub struct Puter {
    pub settings: DisplaySettings,
    pub press_state: PressState,
}

impl Puter {
    pub fn load() -> (r: Self)
        ensures
            r.settings == (DisplaySettings {
                high_brightness: true,
                text_mode: crate::puter::color::TextMode::Orange,
                high_contrast: false,
            }),
            r.press_state is Idle,
    {
        Puter { settings: DisplaySettings::new(), press_state: PressState::Idle }
    }

    /// What a press does: it holds a button, is told to a program that follows
    /// the mouse unless Shift is held, or starts a selection. `terminal` says
    /// whether the program follows the mouse, once there is one.
    pub open spec fn press_leads_to(
        x: int,
        y: int,
        shift: bool,
        terminal: Option<bool>,
        state: PressState,
        action: PuterAction,
    ) -> bool {
        if exists|i: int| #[trigger] presses(i, x, y) {
            &&& state matches PressState::Chrome(index)
            &&& pressed_button(x, y, Some(index))
            &&& action is Nothing
        } else if terminal is None || !on_screen(x, y) {
            state is Idle && action is Nothing
        } else if terminal == Some(true) && !shift {
            &&& state is ForwardedMouse
            &&& action matches PuterAction::Write(text)
            &&& text@ == mouse_report(cell_under(x, y), true)
        } else {
            &&& state == PressState::Selection(cell_under(x, y))
            &&& action == PuterAction::StartSelection(cell_under(x, y))
        }
    }

    pub fn press_button(&mut self, x: isize, y: isize, shift: bool, terminal: Option<bool>) -> (r:
        PuterAction)
        ensures
            final(self).settings == old(self).settings,
            Self::press_leads_to(
                x as int,
                y as int,
                shift,
                terminal,
                final(self).press_state,
                r,
            ),
    {
        if let Some(index) = button_at(x, y) {
            self.press_state = PressState::Chrome(index);
            return PuterAction::Nothing;
        }
        self.press_state = PressState::Idle;
        match terminal {
            None => PuterAction::Nothing,
            Some(follows_mouse) => match screen_point(x, y) {
                None => PuterAction::Nothing,
                Some(point) => {
                    proof {
                        lemma_nearest_cell(x as int, y as int);
                    }
                    if follows_mouse && !shift {
                        self.press_state = PressState::ForwardedMouse;
                        PuterAction::Write(mouse_text(point, true))
                    } else {
                        self.press_state = PressState::Selection(point);
                        PuterAction::StartSelection(point)
                    }
                },
            },
        }
    }

    /// The button that a release completes: the one held, if the pointer is
    /// still on it.
    pub open spec fn completed(&self, x: int, y: int) -> Option<ButtonKind> {
        match self.press_state {
            PressState::Chrome(index) => if pressed_button(x, y, Some(index)) {
                Some(button_kind(index as int))
            } else {
                None
            },
            _ => None,
        }
    }

    /// What letting go of the mouse leads to.
    pub open spec fn release_leads_to(
        &self,
        x: isize,
        y: isize,
        terminal: Option<bool>,
        after: &Self,
        r: Release,
    ) -> bool {
        &&& after.press_state is Idle
        &&& after.settings == (match self.completed(x as int, y as int) {
            Some(ButtonKind::Setting(action)) => self.settings.toggled(action),
            _ => self.settings,
        })
        &&& r.quit == (self.completed(x as int, y as int) == Some(ButtonKind::Power))
        &&& r.lock == (self.completed(x as int, y as int) == Some(ButtonKind::Lock))
        &&& match self.press_state {
            PressState::Selection(_) => if terminal is Some {
                r.action is CopySelection
            } else {
                r.action is Nothing
            },
            PressState::ForwardedMouse => if terminal == Some(true) {
                r.action matches PuterAction::Write(text) && text@ == mouse_report(
                    nearest_cell(x as int, y as int),
                    false,
                )
            } else {
                r.action is Nothing
            },
            _ => r.action is Nothing,
        }
    }

    /// What a release does: it completes the button, copies the selection, or
    /// is told to the program that was told of the press, at the cell nearest
    /// to it.
    pub fn release_button(&mut self, x: isize, y: isize, terminal: Option<bool>) -> (r: Release)
        ensures
            old(self).release_leads_to(x, y, terminal, final(self), r),
    {
        let mut release = Release { quit: false, lock: false, action: PuterAction::Nothing };
        match self.press_state {
            PressState::Chrome(pressed) => {
                if let Some(released) = button_at(x, y) {
                    if pressed == released {
                        match kind_of_button(pressed) {
                            ButtonKind::Power => {
                                release.quit = true;
                            },
                            ButtonKind::Lock => {
                                release.lock = true;
                            },
                            ButtonKind::Setting(action) => {
                                self.settings.toggle(action);
                            },
                        }
                    } else {
                        proof {
                            lemma_one_button(x as int, y as int, pressed, released);
                        }
                    }
                }
            },
            PressState::Selection(_) => {
                if terminal.is_some() {
                    release.action = PuterAction::CopySelection;
                }
            },
            PressState::ForwardedMouse => {
                if let Some(follows_mouse) = terminal {
                    if follows_mouse {
                        proof {
                            lemma_nearest_cell(x as int, y as int);
                        }
                        let point = clamped_screen_point(x, y);
                        release.action = PuterAction::Write(mouse_text(point, false));
                    }
                }
            },
            PressState::Idle => {},
        }
        self.press_state = PressState::Idle;
        release
    }

    /// What a movement over the terminal leads to.
    pub open spec fn motion_leads_to(
        &self,
        x: isize,
        y: isize,
        has_terminal: bool,
        after: &Self,
        r: PuterAction,
    ) -> bool {
        &&& after.settings == self.settings
        &&& match self.press_state {
            PressState::Selection(current) => {
                let point = nearest_cell(x as int, y as int);
                if !has_terminal || current == point {
                    after.press_state == self.press_state && r is Nothing
                } else {
                    after.press_state == PressState::Selection(point) && r
                        == PuterAction::ExtendSelection(point)
                }
            },
            _ => after.press_state == self.press_state && r is Nothing,
        }
    }

    /// What moving does: a selection follows the pointer to the nearest cell.
    pub fn motion(&mut self, x: isize, y: isize, has_terminal: bool) -> (r: PuterAction)
        ensures
            old(self).motion_leads_to(x, y, has_terminal, final(self), r),
    {
        match self.press_state {
            PressState::Selection(current) => {
                if !has_terminal {
                    return PuterAction::Nothing;
                }
                let point = clamped_screen_point(x, y);
                if current == point {
                    return PuterAction::Nothing;
                }
                self.press_state = PressState::Selection(point);
                PuterAction::ExtendSelection(point)
            },
            _ => PuterAction::Nothing,
        }
    }

    /// What a turn of the wheel over the terminal leads to.
    pub open spec fn scroll_leads_to(up: bool, r: Scroll) -> bool {
        r == Scroll::Delta(
            if up {
                SCROLL_LINES
            } else {
                (-SCROLL_LINES) as i32
            },
        )
    }

    /// How far the wheel moves through the scrollback.
    pub fn scroll(up: bool) -> (r: Scroll)
        ensures
            Self::scroll_leads_to(up, r),
    {
        if up {
            Scroll::Delta(SCROLL_LINES)
        } else {
            Scroll::Delta(-SCROLL_LINES)
        }
    }

    /// The shape of the pointer over the terminal.
    pub open spec fn points_at(x: isize, y: isize, r: Option<CursorKind>) -> bool {
        r == (if exists|i: int| #[trigger] presses(i, x as int, y as int) {
            Some(CursorKind::Hand)
        } else if on_screen(x as int, y as int) {
            Some(CursorKind::Text)
        } else {
            None
        })
    }

    /// The cursor over a place: a hand over the buttons, a beam over the
    /// screen.
    pub fn hit_test(x: isize, y: isize) -> (r: Option<CursorKind>)
        ensures
            Self::points_at(x, y, r),
    {
        if button_at(x, y).is_some() {
            Some(CursorKind::Hand)
        } else if screen_contains(x, y) {
            Some(CursorKind::Text)
        } else {
            None
        }
    }
}

/// At most one button is pressed at a place.
pub proof fn lemma_one_button(x: int, y: int, a: usize, b: usize)
    requires
        pressed_button(x, y, Some(b)),
    ensures
        pressed_button(x, y, Some(a)) ==> a == b,
{
    if pressed_button(x, y, Some(a)) {
        if a < b {
            assert(!presses(a as int, x, y));
        } else if b < a {
            assert(!presses(b as int, x, y));
        }
    }
}

/// A press on a button is held by that button. Elsewhere it needs a terminal and a
/// place on its screen: there it goes to the program where that asked for the mouse
/// and Shift is not held, and begins a selection else.
pub proof fn lemma_presses_lead(
    x: int,
    y: int,
    shift: bool,
    terminal: Option<bool>,
    state: PressState,
    action: PuterAction,
)
    requires
        Puter::press_leads_to(x, y, shift, terminal, state, action),
    ensures
        forall|i: int| #[trigger]
            presses(i, x, y) ==> (state matches PressState::Chrome(index) && presses(
                index as int,
                x,
                y,
            ) && index <= i) && action is Nothing,
        (forall|i: int| !#[trigger] presses(i, x, y)) ==> {
            let screen = 30 <= x < 235 && 32 <= y < 190;
            &&& terminal is None || !screen ==> state is Idle && action is Nothing
            &&& terminal == Some(true) && screen && !shift ==> state is ForwardedMouse && (
            action matches PuterAction::Write(text) && text@ == mouse_report(
                cell_under(x, y),
                true,
            ))
            &&& screen && (terminal == Some(false) || terminal == Some(true) && shift) ==> state
                == PressState::Selection(cell_under(x, y)) && action == PuterAction::StartSelection(
                cell_under(x, y),
            )
        },
{
}

/// A button is pressed when the mouse is let go over the one that it was pressed
/// on.
pub proof fn lemma_buttons_complete(puter: &Puter, x: int, y: int)
    ensures
        puter.press_state matches PressState::Chrome(index) ==> (pressed_button(
            x,
            y,
            Some(index),
        ) ==> puter.completed(x, y) == Some(button_kind(index as int))) && (!pressed_button(
            x,
            y,
            Some(index),
        ) ==> puter.completed(x, y) is None),
        !(puter.press_state is Chrome) ==> puter.completed(x, y) is None,
{
}

/// Letting go over the button that was pressed does what that is for: power ends the
/// program, the lock locks, a switch changes its setting. Nothing else does any of
/// it. A selection that ends is copied; what the program follows is told it.
pub proof fn lemma_releases_lead(
    puter: &Puter,
    x: isize,
    y: isize,
    terminal: Option<bool>,
    after: &Puter,
    r: Release,
)
    requires
        puter.release_leads_to(x, y, terminal, after, r),
    ensures
        after.press_state is Idle,
        r.quit ==> 213 <= x < 232 && 204 <= y < 222 && puter.press_state == PressState::Chrome(3),
        r.lock ==> 193 <= x < 212 && 204 <= y < 222 && puter.press_state == PressState::Chrome(4),
        puter.press_state == PressState::Chrome(3) && 213 <= x < 232 && 204 <= y < 222 ==> r.quit
            && !r.lock && after.settings == puter.settings,
        puter.press_state == PressState::Chrome(4) && 193 <= x < 212 && 204 <= y < 222 ==> r.lock
            && !r.quit && after.settings == puter.settings,
        puter.press_state == PressState::Chrome(0) && 69 <= x < 88 && 205 <= y < 221
            ==> after.settings == puter.settings.toggled(
            crate::puter::color::SettingAction::Brightness,
        ) && !r.quit && !r.lock,
        puter.press_state == PressState::Chrome(1) && 88 <= x < 107 && 205 <= y < 221
            ==> after.settings == puter.settings.toggled(crate::puter::color::SettingAction::Color),
        puter.press_state == PressState::Chrome(2) && 107 <= x < 126 && 205 <= y < 221
            ==> after.settings == puter.settings.toggled(
            crate::puter::color::SettingAction::Contrast,
        ),
        !(puter.press_state is Chrome) ==> after.settings == puter.settings && !r.quit && !r.lock,
        puter.press_state is Selection && terminal is Some ==> r.action is CopySelection,
        puter.press_state is ForwardedMouse && terminal == Some(true) ==> (
        r.action matches PuterAction::Write(text) && text@ == mouse_report(
            nearest_cell(x as int, y as int),
            false,
        )),
        puter.press_state is Idle || puter.press_state is Chrome || terminal is None ==> r.action
            is Nothing,
{
    let (px, py) = (x as int, y as int);
    assert forall|i: int| #[trigger] presses(i, px, py) implies 0 <= i < 5 by {}
    crate::puter::chrome::lemma_case_buttons(0, 0, px, py);
    if let PressState::Chrome(index) = puter.press_state {
        assert forall|j: int| 0 <= j < index && presses(index as int, px, py) implies !#[trigger] presses(
            j,
            px,
            py,
        ) by {
            crate::puter::chrome::lemma_case_buttons(index as int, j, px, py);
        }
        assert(presses(index as int, px, py) ==> pressed_button(px, py, Some(index)));
        crate::puter::chrome::lemma_case_buttons(index as int, index as int, px, py);
    }
}

/// A selection follows the pointer to the nearest cell of the screen, and nothing
/// else follows it.
pub proof fn lemma_motions_lead(
    puter: &Puter,
    x: isize,
    y: isize,
    has_terminal: bool,
    after: &Puter,
    r: PuterAction,
)
    requires
        puter.motion_leads_to(x, y, has_terminal, after, r),
    ensures
        after.settings == puter.settings,
        !(puter.press_state is Selection) || !has_terminal ==> after.press_state
            == puter.press_state && r is Nothing,
        puter.press_state is Selection && has_terminal ==> after.press_state
            == PressState::Selection(nearest_cell(x as int, y as int)),
        has_terminal ==> (puter.press_state matches PressState::Selection(current) ==> (current
            == nearest_cell(x as int, y as int) ==> r is Nothing) && (current != nearest_cell(
            x as int,
            y as int,
        ) ==> r == PuterAction::ExtendSelection(nearest_cell(x as int, y as int)))),
{
}

/// The wheel moves three lines, up into what was, and the pointer is a hand over the
/// buttons and a beam over the screen.
pub proof fn lemma_wheel_and_pointer(
    up: bool,
    scroll: Scroll,
    x: isize,
    y: isize,
    r: Option<CursorKind>,
)
    ensures
        Puter::scroll_leads_to(true, scroll) ==> scroll == Scroll::Delta(3),
        Puter::scroll_leads_to(false, scroll) ==> scroll == Scroll::Delta(-3i32),
        Puter::points_at(x, y, r) ==> {
            &&& 69 <= x < 88 && 205 <= y < 221 ==> r == Some(CursorKind::Hand)
            &&& 213 <= x < 232 && 204 <= y < 222 ==> r == Some(CursorKind::Hand)
            &&& 30 <= x < 235 && 32 <= y < 190 ==> r == Some(CursorKind::Text)
            &&& y < 32 ==> r is None
            &&& 190 <= y < 204 ==> r is None
        },
{
    crate::puter::chrome::lemma_case_buttons(0, 0, x as int, y as int);
    assert(presses(0, x as int, y as int) || !presses(0, x as int, y as int));
    assert(presses(3, x as int, y as int) || !presses(3, x as int, y as int));
    assert forall|i: int| #[trigger] presses(i, x as int, y as int) implies y >= 204 by {
        crate::puter::chrome::lemma_case_buttons(i, i, x as int, y as int);
    }
}

} // verus!
