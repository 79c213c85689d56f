//! The desktop: which widget an event goes to, where the widgets are, and what
//! has to be painted again.
use vstd::prelude::*;

use crate::cursor::CursorKind;
use crate::framebuffer::Framebuffer;
use crate::graphics::{opaque, see_through, Palette, Rect, Rgba, Sprite};
use crate::keysyms::{KEY_v, KEY_V};
use crate::layout::{
    content_height, lemma_places, measurable, move_rect, overlap, position_of, rects_intersect,
    required_screen_height, widget_positions, Area, WidgetId, TOP_PADDING, WIDGET_COUNT,
};
use crate::stretch::{desk_color, render_background_rect, BACKGROUND};
use crate::text::input::{letter_key, KeyInput, KeyView};

verus! {

/// The widgets that take the pointer; where they overlap, the first one does.
pub open spec fn pointed_order() -> Seq<WidgetId> {
    seq![
        WidgetId::Wavey,
        WidgetId::Fizzle,
        WidgetId::Day,
        WidgetId::Twirl,
        WidgetId::Fwends,
        WidgetId::Toodle,
        WidgetId::Hunger,
        WidgetId::Puter,
    ]
}

fn pointed_widget(i: usize) -> (r: WidgetId)
    requires
        i < 8,
    ensures
        r == pointed_order()[i as int],
{
    match i {
        0 => WidgetId::Wavey,
        1 => WidgetId::Fizzle,
        2 => WidgetId::Day,
        3 => WidgetId::Twirl,
        4 => WidgetId::Fwends,
        5 => WidgetId::Toodle,
        6 => WidgetId::Hunger,
        _ => WidgetId::Puter,
    }
}

/// The order in which the widgets are painted, the lowest first.
pub open spec fn painted_order() -> Seq<WidgetId> {
    seq![
        WidgetId::Wavey,
        WidgetId::Puter,
        WidgetId::Toodle,
        WidgetId::Fwends,
        WidgetId::Twirl,
        WidgetId::Fizzle,
        WidgetId::Day,
        WidgetId::Budgit,
        WidgetId::Stats,
        WidgetId::Hunger,
        WidgetId::Gauges,
    ]
}

fn painted_widget(i: usize) -> (r: WidgetId)
    requires
        i < WIDGET_COUNT,
    ensures
        r == painted_order()[i as int],
{
    match i {
        0 => WidgetId::Wavey,
        1 => WidgetId::Puter,
        2 => WidgetId::Toodle,
        3 => WidgetId::Fwends,
        4 => WidgetId::Twirl,
        5 => WidgetId::Fizzle,
        6 => WidgetId::Day,
        7 => WidgetId::Budgit,
        8 => WidgetId::Stats,
        9 => WidgetId::Hunger,
        _ => WidgetId::Gauges,
    }
}

/// Every widget is painted, and none twice.
pub proof fn lemma_every_widget_is_painted(widget: WidgetId)
    ensures
        exists|i: int| 0 <= i < painted_order().len() && #[trigger] painted_order()[i] == widget,
        painted_order().len() == WIDGET_COUNT,
        forall|i: int, j: int|
            0 <= i < j < painted_order().len() ==> #[trigger] painted_order()[i]
                != #[trigger] painted_order()[j],
{
    let order = painted_order();
    let i: int = match widget {
        WidgetId::Wavey => 0,
        WidgetId::Puter => 1,
        WidgetId::Toodle => 2,
        WidgetId::Fwends => 3,
        WidgetId::Twirl => 4,
        WidgetId::Fizzle => 5,
        WidgetId::Day => 6,
        WidgetId::Budgit => 7,
        WidgetId::Stats => 8,
        WidgetId::Hunger => 9,
        WidgetId::Gauges => 10,
    };
    assert(order[i] == widget);
}

/// The keyboard and the pointer: who has them, and where the widgets are.
pub struct Desktop {
    /// One per widget, at its place.
    pub rects: Vec<Area>,
    pub desk_w: usize,
    pub desk_h: usize,
    pub focus: WidgetId,
    pub puter_pressed: bool,
    pub quit_requested: bool,
    /// The widget in which text is being selected.
    pub text_drag: Option<WidgetId>,
    /// The real height of the window, when it is larger than needed.
    pub min_height: usize,
}

/// What is left to do when a button is released.
#[derive(Clone, Copy, Debug, PartialEq, Eq, Structural)]
pub enum ReleaseStep {
    Nothing,
    /// A text selection ends.
    EndTextDrag(WidgetId),
    /// The radio may have been held; if not, the terminal comes next.
    AskWavey,
    /// The terminal's button goes up at a place.
    Puter(isize, isize),
}

/// Whom a movement of the pointer is for.
#[derive(Clone, Copy, Debug, PartialEq, Eq, Structural)]
pub enum MotionStep {
    DragText(WidgetId, isize, isize),
    Puter(isize, isize),
    Wavey(isize, isize),
    HoverToodle(isize, isize),
}

/// Who knows the pointer's shape.
#[derive(Clone, Copy, Debug, PartialEq, Eq, Structural)]
pub enum CursorStep {
    Known(CursorKind),
    Ask(WidgetId, isize, isize),
}

/// The first of some widgets whose rectangle holds a point.
pub open spec fn first_holding(
    rects: Seq<Area>,
    order: Seq<WidgetId>,
    x: int,
    y: int,
) -> Option<WidgetId>
    decreases order.len(),
{
    if order.len() == 0 {
        None
    } else if rects[order[0].place()].has(x, y) {
        Some(order[0])
    } else {
        first_holding(rects, order.skip(1), x, y)
    }
}

pub open spec fn right_edge(rect: Area) -> int {
    rect.x + rect.w
}

pub open spec fn greater(a: int, b: int) -> int {
    if a > b {
        a
    } else {
        b
    }
}

fn max_of(a: usize, b: usize) -> (r: usize)
    ensures
        r == greater(a as int, b as int),
{
    if a > b {
        a
    } else {
        b
    }
}

impl Desktop {
    /// Every widget has a rectangle, right of and below the window's corner,
    /// with sizes that pixel arithmetic can hold.
    pub open spec fn wf(&self) -> bool {
        &&& self.rects@.len() == WIDGET_COUNT
        &&& forall|i: int| 0 <= i < WIDGET_COUNT ==> placed(#[trigger] self.rects@[i])
        &&& self.desk_w <= isize::MAX / 8
        &&& self.desk_h <= isize::MAX / 8
        &&& self.min_height <= isize::MAX / 8
    }

    pub open spec fn rect_of(&self, widget: WidgetId) -> Area {
        self.rects@[widget.place()]
    }

    /// The widget under a point.
    pub open spec fn under(&self, x: int, y: int) -> Option<WidgetId> {
        first_holding(self.rects@, pointed_order(), x, y)
    }

    /// A point as a widget sees it.
    pub open spec fn local(&self, widget: WidgetId, x: int, y: int) -> (int, int) {
        (x - self.rect_of(widget).x, y - self.rect_of(widget).y)
    }

    /// A desktop whose widgets have sizes but no places yet; the to-do list
    /// has the keyboard.
    pub fn new(sizes: &Vec<(usize, usize)>, desk_w: usize, desk_h: usize) -> (r: Self)
        requires
            sizes@.len() == WIDGET_COUNT,
            forall|i: int|
                0 <= i < WIDGET_COUNT ==> (#[trigger] sizes@[i]).0 <= isize::MAX / 8 && sizes@[i].1
                    <= isize::MAX / 8,
            desk_w <= isize::MAX / 8,
            desk_h <= isize::MAX / 8,
        ensures
            r.wf(),
            forall|i: int|
                0 <= i < WIDGET_COUNT ==> #[trigger] r.rects@[i] == (Area {
                    x: 0,
                    y: 0,
                    w: sizes@[i].0,
                    h: sizes@[i].1,
                }),
            r.desk_w == desk_w,
            r.desk_h == desk_h,
            r.focus == WidgetId::Toodle,
            !r.puter_pressed,
            !r.quit_requested,
            r.text_drag is None,
            r.min_height == 0,
    {
        let mut rects: Vec<Area> = Vec::new();
        let mut i: usize = 0;
        while i < WIDGET_COUNT
            invariant
                i <= WIDGET_COUNT,
                sizes@.len() == WIDGET_COUNT,
                rects@.len() == i,
                forall|j: int|
                    0 <= j < WIDGET_COUNT ==> (#[trigger] sizes@[j]).0 <= isize::MAX / 8 && sizes@[j].1
                        <= isize::MAX / 8,
                forall|j: int|
                    0 <= j < i ==> #[trigger] rects@[j] == (Area {
                        x: 0,
                        y: 0,
                        w: sizes@[j].0,
                        h: sizes@[j].1,
                    }),
            decreases WIDGET_COUNT - i,
        {
            let (w, h) = sizes[i];
            rects.push(Area::new(0, 0, w, h));
            i += 1;
        }
        Desktop {
            rects,
            desk_w,
            desk_h,
            focus: WidgetId::Toodle,
            puter_pressed: false,
            quit_requested: false,
            text_drag: None,
            min_height: 0,
        }
    }

    pub fn rect_for(&self, widget: WidgetId) -> (r: Area)
        requires
            self.wf(),
        ensures
            r == self.rect_of(widget),
            placed(r),
    {
        assert(placed(self.rects@[widget.place()]));
        self.rects[widget.index()]
    }

    pub fn focused_rect(&self) -> (r: Area)
        requires
            self.wf(),
        ensures
            r == self.rect_of(self.focus),
    {
        self.rect_for(self.focus)
    }

    fn right(&self, widget: WidgetId) -> (r: usize)
        requires
            self.wf(),
        ensures
            r == right_edge(self.rect_of(widget)),
    {
        let rect = self.rect_for(widget);
        rect.x as usize + rect.w
    }

    /// How wide the window is.
    pub open spec fn width_is(&self, r: usize) -> bool {
        r == greater(
            greater(
                greater(
                    greater(
                        greater(
                            greater(
                                greater(
                                    right_edge(self.rect_of(WidgetId::Toodle)),
                                    self.desk_w as int,
                                ),
                                right_edge(self.rect_of(WidgetId::Twirl)),
                            ),
                            right_edge(self.rect_of(WidgetId::Wavey)),
                        ),
                        right_edge(self.rect_of(WidgetId::Day)),
                    ),
                    right_edge(self.rect_of(WidgetId::Budgit)),
                ),
                right_edge(self.rect_of(WidgetId::Stats)),
            ),
            right_edge(self.rect_of(WidgetId::Fwends)),
        )
    }

    /// The window's width: as far right as the desk and the widgets reach.
    pub fn width(&self) -> (r: usize)
        requires
            self.wf(),
        ensures
            self.width_is(r),
    {
        let mut width: usize = max_of(self.right(WidgetId::Toodle), self.desk_w);
        width = max_of(width, self.right(WidgetId::Twirl));
        width = max_of(width, self.right(WidgetId::Wavey));
        width = max_of(width, self.right(WidgetId::Day));
        width = max_of(width, self.right(WidgetId::Budgit));
        width = max_of(width, self.right(WidgetId::Stats));
        max_of(width, self.right(WidgetId::Fwends))
    }

    /// The window's height for widgets of given heights.
    pub fn height(&self, heights: &[usize; WIDGET_COUNT]) -> (r: usize)
        requires
            self.wf(),
            measurable(heights@),
        ensures
            r == self.screen(heights@),
    {
        required_screen_height(heights, self.desk_h, self.min_height)
    }

    pub open spec fn screen(&self, heights: Seq<usize>) -> int {
        greater(
            content_height(heights, self.desk_h as int, WIDGET_COUNT as int) + TOP_PADDING,
            self.min_height as int,
        )
    }

    /// Takes note of the window's real height; says whether that changed.
    pub fn set_min_height(&mut self, height: usize) -> (r: bool)
        requires
            old(self).wf(),
            height <= isize::MAX / 8,
        ensures
            final(self).wf(),
            r == (old(self).min_height != height),
            *final(self) == (Desktop { min_height: height, ..*old(self) }),
    {
        if self.min_height == height {
            return false;
        }
        self.min_height = height;
        true
    }

    /// The widget under a point, and the point as the widget sees it.
    pub fn widget_at(&self, x: i16, y: i16) -> (r: Option<(WidgetId, isize, isize)>)
        requires
            self.wf(),
        ensures
            match r {
                Some((widget, lx, ly)) => {
                    &&& self.under(x as int, y as int) == Some(widget)
                    &&& (lx as int, ly as int) == self.local(widget, x as int, y as int)
                },
                None => self.under(x as int, y as int) is None,
            },
    {
        let mut i: usize = 0;
        assert(pointed_order().skip(0) =~= pointed_order());
        while i < 8
            invariant
                i <= 8,
                self.wf(),
                self.under(x as int, y as int) == first_holding(
                    self.rects@,
                    pointed_order().skip(i as int),
                    x as int,
                    y as int,
                ),
            decreases 8 - i,
        {
            let widget = pointed_widget(i);
            let rect = self.rect_for(widget);
            assert(pointed_order().skip(i as int)[0] == widget);
            if rect.contains(x as isize, y as isize) {
                return Some((widget, x as isize - rect.x, y as isize - rect.y));
            }
            assert(pointed_order().skip(i as int).skip(1) =~= pointed_order().skip(i + 1));
            i += 1;
        }
        None
    }

    /// What a press on the desktop leads to.
    pub open spec fn click_leads_to(
        &self,
        x: i16,
        y: i16,
        after: &Self,
        r: Option<(WidgetId, isize, isize)>,
    ) -> bool {
        &&& *after == (Desktop {
            focus: match self.under(x as int, y as int) {
                Some(widget) => widget,
                None => self.focus,
            },
            puter_pressed: self.under(x as int, y as int) == Some(WidgetId::Puter),
            text_drag: None,
            ..*self
        })
        &&& match r {
            Some((widget, lx, ly)) => {
                &&& self.under(x as int, y as int) == Some(widget)
                &&& (lx as int, ly as int) == self.local(widget, x as int, y as int)
            },
            None => self.under(x as int, y as int) is None,
        }
    }

    /// A press: the widget under the pointer gets it, and the keyboard.
    pub fn click(&mut self, x: i16, y: i16) -> (r: Option<(WidgetId, isize, isize)>)
        requires
            old(self).wf(),
        ensures
            final(self).wf(),
            old(self).click_leads_to(x, y, final(self), r),
    {
        self.puter_pressed = false;
        self.text_drag = None;
        let found = self.widget_at(x, y);
        if let Some((widget, _, _)) = found {
            self.focus = widget;
            if widget == WidgetId::Puter {
                self.puter_pressed = true;
            }
        }
        found
    }

    /// What a press that selects text leads to.
    pub open spec fn drag_leads_to(
        &self,
        widget: WidgetId,
        text_dragging: bool,
        after: &Self,
    ) -> bool {
        *after == (Desktop {
            text_drag: if text_dragging && (widget == WidgetId::Toodle || widget
                == WidgetId::Fwends) {
                Some(widget)
            } else {
                self.text_drag
            },
            ..*self
        })
    }

    /// Whether a press that a widget has taken starts to select text there.
    pub fn clicked(&mut self, widget: WidgetId, text_dragging: bool)
        requires
            old(self).wf(),
        ensures
            final(self).wf(),
            old(self).drag_leads_to(widget, text_dragging, final(self)),
    {
        if text_dragging && (widget == WidgetId::Toodle || widget == WidgetId::Fwends) {
            self.text_drag = Some(widget);
        }
    }

    /// What a release on the desktop leads to.
    pub open spec fn release_leads_to(&self, x: i16, y: i16, after: &Self, r: ReleaseStep) -> bool {
        match self.text_drag {
            Some(widget) => {
                &&& r == ReleaseStep::EndTextDrag(widget)
                &&& *after == (Desktop { text_drag: None, ..*self })
            },
            None => if self.focus == WidgetId::Wavey {
                r == ReleaseStep::AskWavey && *after == *self
            } else {
                self.puter_lets_go(x as int, y as int, after, r)
            },
        }
    }

    /// A release: it ends a text selection, or may concern the radio if that
    /// has the keyboard, or else lets go of the terminal.
    pub fn release(&mut self, x: i16, y: i16) -> (r: ReleaseStep)
        requires
            old(self).wf(),
        ensures
            final(self).wf(),
            old(self).release_leads_to(x, y, final(self), r),
    {
        if let Some(widget) = self.text_drag {
            self.text_drag = None;
            return ReleaseStep::EndTextDrag(widget);
        }
        if self.focus == WidgetId::Wavey {
            return ReleaseStep::AskWavey;
        }
        self.release_puter(x, y)
    }

    pub open spec fn puter_lets_go(&self, x: int, y: int, after: &Desktop, step: ReleaseStep) -> bool {
        &&& *after == (Desktop { puter_pressed: false, ..*self })
        &&& if self.puter_pressed {
            let (lx, ly) = self.local(WidgetId::Puter, x, y);
            step == ReleaseStep::Puter(lx as isize, ly as isize)
        } else {
            step == ReleaseStep::Nothing
        }
    }

    /// What a release means once the radio has no use for it.
    pub fn release_puter(&mut self, x: i16, y: i16) -> (r: ReleaseStep)
        requires
            old(self).wf(),
        ensures
            final(self).wf(),
            old(self).puter_lets_go(x as int, y as int, final(self), r),
    {
        if self.puter_pressed {
            let rect = self.rect_for(WidgetId::Puter);
            self.puter_pressed = false;
            return ReleaseStep::Puter(x as isize - rect.x, y as isize - rect.y);
        }
        ReleaseStep::Nothing
    }

    /// The terminal's power button ends the program.
    pub fn puter_released(&mut self, quit: bool)
        requires
            old(self).wf(),
        ensures
            final(self).wf(),
            *final(self) == (Desktop {
                quit_requested: old(self).quit_requested || quit,
                ..*old(self)
            }),
    {
        if quit {
            self.quit_requested = true;
        }
    }

    pub open spec fn hovers(&self, x: int, y: int) -> MotionStep {
        if self.rect_of(WidgetId::Toodle).has(x, y) {
            let (lx, ly) = self.local(WidgetId::Toodle, x, y);
            MotionStep::HoverToodle(lx as isize, ly as isize)
        } else {
            MotionStep::HoverToodle((-1) as isize, (-1) as isize)
        }
    }

    /// Whom a movement concerns, in turn, until one of them changes.
    pub open spec fn moves(&self, x: int, y: int) -> Seq<MotionStep> {
        match self.text_drag {
            Some(widget) => {
                let (lx, ly) = self.local(widget, x, y);
                seq![MotionStep::DragText(widget, lx as isize, ly as isize)]
            },
            None => if self.focus == WidgetId::Puter {
                let (lx, ly) = self.local(WidgetId::Puter, x, y);
                seq![MotionStep::Puter(lx as isize, ly as isize), self.hovers(x, y)]
            } else if self.focus == WidgetId::Wavey {
                let (lx, ly) = self.local(WidgetId::Wavey, x, y);
                seq![MotionStep::Wavey(lx as isize, ly as isize), self.hovers(x, y)]
            } else {
                seq![self.hovers(x, y)]
            },
        }
    }

    pub fn motion(&self, x: i16, y: i16) -> (r: Vec<MotionStep>)
        requires
            self.wf(),
        ensures
            r@ == self.moves(x as int, y as int),
    {
        let mut steps: Vec<MotionStep> = Vec::new();
        if let Some(widget) = self.text_drag {
            let rect = self.rect_for(widget);
            steps.push(MotionStep::DragText(widget, x as isize - rect.x, y as isize - rect.y));
            assert(steps@ =~= self.moves(x as int, y as int));
            return steps;
        }
        if self.focus == WidgetId::Puter {
            let rect = self.rect_for(WidgetId::Puter);
            steps.push(MotionStep::Puter(x as isize - rect.x, y as isize - rect.y));
        }
        if self.focus == WidgetId::Wavey {
            let rect = self.rect_for(WidgetId::Wavey);
            steps.push(MotionStep::Wavey(x as isize - rect.x, y as isize - rect.y));
        }
        let rect = self.rect_for(WidgetId::Toodle);
        if rect.contains(x as isize, y as isize) {
            steps.push(MotionStep::HoverToodle(x as isize - rect.x, y as isize - rect.y));
        } else {
            steps.push(MotionStep::HoverToodle(-1, -1));
        }
        assert(steps@ =~= self.moves(x as int, y as int));
        steps
    }

    /// What the wheel turns.
    pub open spec fn wheel_turns(
        &self,
        x: i16,
        y: i16,
        r: Option<(WidgetId, isize, isize)>,
    ) -> bool {
        match r {
            Some((widget, lx, ly)) => {
                &&& self.under(x as int, y as int) == Some(widget)
                &&& (lx as int, ly as int) == self.local(widget, x as int, y as int)
                &&& widget == WidgetId::Fwends || widget == WidgetId::Puter || widget
                    == WidgetId::Wavey
            },
            None => match self.under(x as int, y as int) {
                Some(widget) => widget != WidgetId::Fwends && widget != WidgetId::Puter
                    && widget != WidgetId::Wavey,
                None => true,
            },
        }
    }

    /// The widget that the wheel scrolls.
    pub fn scroll(&self, x: i16, y: i16) -> (r: Option<(WidgetId, isize, isize)>)
        requires
            self.wf(),
        ensures
            self.wheel_turns(x, y, r),
    {
        match self.widget_at(x, y) {
            Some((widget, lx, ly)) => if widget == WidgetId::Fwends || widget == WidgetId::Puter
                || widget == WidgetId::Wavey {
                Some((widget, lx, ly))
            } else {
                None
            },
            None => None,
        }
    }

    /// The shape of the pointer, or who knows it.
    pub open spec fn points_at(&self, x: i16, y: i16, r: CursorStep) -> bool {
        r == (if self.text_drag is Some {
            CursorStep::Known(CursorKind::Text)
        } else {
            match self.under(x as int, y as int) {
                None => CursorStep::Known(CursorKind::Pointer),
                Some(widget) => if widget == WidgetId::Day || widget == WidgetId::Hunger {
                    CursorStep::Known(CursorKind::Hand)
                } else if widget == WidgetId::Fizzle {
                    CursorStep::Known(CursorKind::Pointer)
                } else {
                    let (lx, ly) = self.local(widget, x as int, y as int);
                    CursorStep::Ask(widget, lx as isize, ly as isize)
                },
            }
        })
    }

    /// The pointer's shape, or who knows it. The calendar and the pet react to
    /// a press anywhere, others nowhere.
    pub fn cursor_at(&self, x: i16, y: i16) -> (r: CursorStep)
        requires
            self.wf(),
        ensures
            self.points_at(x, y, r),
    {
        if self.text_drag.is_some() {
            return CursorStep::Known(CursorKind::Text);
        }
        match self.widget_at(x, y) {
            None => CursorStep::Known(CursorKind::Pointer),
            Some((widget, lx, ly)) => if widget == WidgetId::Day || widget == WidgetId::Hunger {
                CursorStep::Known(CursorKind::Hand)
            } else if widget == WidgetId::Fizzle {
                CursorStep::Known(CursorKind::Pointer)
            } else {
                CursorStep::Ask(widget, lx, ly)
            },
        }
    }

    /// Where every widget goes, for given heights, once the to-do list has a
    /// size.
    pub open spec fn laid(&self, heights: Seq<usize>, toodle_w: usize, toodle_h: usize) -> Seq<
        Area,
    > {
        Seq::new(
            WIDGET_COUNT as nat,
            |i: int|
                {
                    let (x, y) = position_of(
                        WidgetId::at(i),
                        heights[i] as int,
                        self.screen(heights),
                    );
                    Area {
                        x: x as isize,
                        y: y as isize,
                        w: if WidgetId::at(i) == WidgetId::Toodle {
                            toodle_w
                        } else {
                            self.rects@[i].w
                        },
                        h: if WidgetId::at(i) == WidgetId::Toodle {
                            toodle_h
                        } else {
                            self.rects@[i].h
                        },
                    }
                },
        )
    }

    /// Puts every widget where it belongs; says whether anything moved or the
    /// to-do list has another size.
    #[verifier::spinoff_prover]
    pub fn sync_dynamic_layout(
        &mut self,
        toodle_w: usize,
        toodle_h: usize,
        heights: &[usize; WIDGET_COUNT],
    ) -> (r: bool)
        requires
            old(self).wf(),
            toodle_w <= isize::MAX / 8,
            toodle_h <= isize::MAX / 8,
            forall|i: int| 0 <= i < WIDGET_COUNT ==> #[trigger] heights@[i] <= isize::MAX / 8,
        ensures
            final(self).wf(),
            final(self).rects@ == old(self).laid(heights@, toodle_w, toodle_h),
            r == (final(self).rects@ != old(self).rects@),
            *final(self) == (Desktop { rects: final(self).rects, ..*old(self) }),
    {
        proof {
            lemma_content_is_bounded(heights@, self.desk_h as int, WIDGET_COUNT as int);
        }
        let ghost before = self.rects@;
        let ghost goal = self.laid(heights@, toodle_w, toodle_h);
        let screen_h: usize = self.height(heights);
        let positions = widget_positions(heights, screen_h);
        let mut changed = false;
        let mut rects: Vec<Area> = Vec::new();
        let mut i: usize = 0;
        while i < WIDGET_COUNT
            invariant
                i <= WIDGET_COUNT,
                self.wf(),
                before == self.rects@,
                rects@.len() == i,
                positions@.len() == WIDGET_COUNT,
                screen_h == self.screen(heights@),
                screen_h <= isize::MAX / 4,
                goal == self.laid(heights@, toodle_w, toodle_h),
                toodle_w <= isize::MAX / 8,
                toodle_h <= isize::MAX / 8,
                forall|j: int| 0 <= j < WIDGET_COUNT ==> #[trigger] heights@[j] <= isize::MAX / 8,
                forall|j: int|
                    0 <= j < WIDGET_COUNT ==> (
                        (#[trigger] positions@[j]).0 as int,
                        positions@[j].1 as int,
                    ) == position_of(WidgetId::at(j), heights@[j] as int, screen_h as int),
                forall|j: int|
                    0 <= j < i ==> #[trigger] rects@[j] == goal[j] && placed(rects@[j]),
                changed == exists|j: int| 0 <= j < i && #[trigger] rects@[j] != before[j],
            decreases WIDGET_COUNT - i,
        {
            let widget = WidgetId::from_index(i);
            let mut rect = self.rects[i];
            let (x, y) = positions[i];
            let ghost shown = rects@;
            if widget == WidgetId::Toodle && (rect.w != toodle_w || rect.h != toodle_h) {
                rect.w = toodle_w;
                rect.h = toodle_h;
                changed = true;
            }
            assert(placed(self.rects@[i as int]));
            assert(positions@[i as int] == (x, y));
            let moved = move_rect(&mut rect, x, y);
            if moved {
                changed = true;
            }
            rects.push(rect);
            proof {
                assert(rect == goal[i as int]);
                assert(changed == exists|j: int| 0 <= j < i + 1 && #[trigger] rects@[j] != before[j]) by {
                    assert(rects@[i as int] == rect);
                    assert forall|j: int| 0 <= j < i implies rects@[j] == shown[j] by {}
                    if exists|j: int| 0 <= j < i && #[trigger] shown[j] != before[j] {
                        let j = choose|j: int| 0 <= j < i && #[trigger] shown[j] != before[j];
                        assert(rects@[j] != before[j]);
                    }
                }
            }
            i += 1;
        }
        self.rects = rects;
        assert(self.rects@ =~= goal);
        proof {
            if self.rects@ != before {
                assert(!(self.rects@ =~= before));
            }
        }
        changed
    }

    /// What the chat's height leads to.
    pub open spec fn height_leads_to(
        &self,
        resized: bool,
        height: usize,
        after: &Self,
        r: bool,
    ) -> bool {
        &&& r == (resized || self.rect_of(WidgetId::Fwends).h != height)
        &&& after.rects@ == self.rects@.update(
            WidgetId::Fwends.place(),
            Area { h: height, ..self.rect_of(WidgetId::Fwends) },
        )
        &&& *after == (Desktop { rects: after.rects, ..*self })
    }

    /// Gives the chat's rectangle the chat's height; says whether anything
    /// changed. `resized` says whether the chat has taken on a new height.
    pub fn sync_fwends_height(&mut self, resized: bool, height: usize) -> (r: bool)
        requires
            old(self).wf(),
            height <= isize::MAX / 8,
        ensures
            final(self).wf(),
            old(self).height_leads_to(resized, height, final(self), r),
    {
        let rect = self.rect_for(WidgetId::Fwends);
        if !resized && rect.h == height {
            assert(self.rects@ =~= self.rects@.update(
                2,
                Area { h: height, ..self.rect_of(WidgetId::Fwends) },
            ));
            return false;
        }
        let index: usize = WidgetId::Fwends.index();
        self.rects[index] = Area::new(rect.x, rect.y, rect.w, height);
        true
    }
}

/// A rectangle at a place and of a size that pixel arithmetic can hold.
pub open spec fn placed(rect: Area) -> bool {
    &&& 0 <= rect.x <= isize::MAX / 8 * 3
    &&& 0 <= rect.y <= isize::MAX / 8 * 3
    &&& rect.w <= isize::MAX / 8
    &&& rect.h <= isize::MAX / 8
}

proof fn lemma_content_is_bounded(heights: Seq<usize>, desk_h: int, n: int)
    requires
        0 <= n <= WIDGET_COUNT,
        heights.len() == WIDGET_COUNT,
        forall|i: int| 0 <= i < WIDGET_COUNT ==> #[trigger] heights[i] <= isize::MAX / 8,
        desk_h <= isize::MAX / 8,
    ensures
        0 <= content_height(heights, desk_h, n) <= isize::MAX / 8 + 0x1000,
    decreases n,
{
    if n > 0 {
        lemma_content_is_bounded(heights, desk_h, n - 1);
        lemma_places(WidgetId::at(n - 1), n - 1);
        assert(heights[n - 1] <= isize::MAX / 8);
    }
}

/// Ctrl+Shift+V pastes in the terminal, Ctrl+V where text is edited; no other
/// widget reads the clipboard.
pub fn should_load_clipboard_for_paste(focus: WidgetId, input: &KeyInput) -> (r: bool)
    ensures
        r == pastes(focus, input@),
{
    match focus {
        WidgetId::Puter => input.is_paste_shortcut(),
        WidgetId::Toodle | WidgetId::Fwends => input.is_plain_paste_shortcut(),
        _ => false,
    }
}

pub open spec fn pastes(focus: WidgetId, key: KeyView) -> bool {
    let v = key.ctrl && letter_key(key, KEY_v, KEY_V, "v"@);
    match focus {
        WidgetId::Puter => v && key.shift,
        WidgetId::Toodle | WidgetId::Fwends => v,
        _ => false,
    }
}

/// Once the layout is in order, laying it out again for the same sizes changes
/// nothing.
pub proof fn lemma_layout_settles(
    desktop: Desktop,
    after: Desktop,
    heights: Seq<usize>,
    toodle_w: usize,
    toodle_h: usize,
)
    requires
        after.rects@ == desktop.laid(heights, toodle_w, toodle_h),
        after == (Desktop { rects: after.rects, ..desktop }),
    ensures
        after.laid(heights, toodle_w, toodle_h) == after.rects@,
{
    assert(after.laid(heights, toodle_w, toodle_h) =~= after.rects@);
}

/// Whoever gets a press is under the pointer, and no widget that goes before
/// it is.
pub proof fn lemma_first_holding(
    rects: Seq<Area>,
    order: Seq<WidgetId>,
    x: int,
    y: int,
    widget: WidgetId,
)
    requires
        first_holding(rects, order, x, y) == Some(widget),
    ensures
        rects[widget.place()].has(x, y),
        exists|i: int|
            0 <= i < order.len() && #[trigger] order[i] == widget && forall|j: int|
                0 <= j < i ==> !rects[(#[trigger] order[j]).place()].has(x, y),
    decreases order.len(),
{
    if rects[order[0].place()].has(x, y) {
        assert(order[0] == widget);
    } else {
        lemma_first_holding(rects, order.skip(1), x, y, widget);
        let i = choose|i: int|
            0 <= i < order.skip(1).len() && #[trigger] order.skip(1)[i] == widget && forall|j: int|
                0 <= j < i ==> !rects[(#[trigger] order.skip(1)[j]).place()].has(x, y);
        assert(order[i + 1] == widget);
        assert forall|j: int| 0 <= j < i + 1 implies !rects[(#[trigger] order[j]).place()].has(
            x,
            y,
        ) by {
            if j > 0 {
                assert(order.skip(1)[j - 1] == order[j]);
            }
        }
    }
}

impl Desktop {
    /// The color of a widget's picture over what is below it, if the widget
    /// has any part in the area that is painted.
    pub open spec fn layer_over(
        &self,
        widget: WidgetId,
        area: Area,
        layers: Seq<Framebuffer>,
        base: Rgba,
        px: int,
        py: int,
    ) -> Rgba {
        let (lx, ly) = self.local(widget, px, py);
        let layer = layers[widget.place()];
        if overlap(self.rect_of(widget), area) && layer.has(lx, ly) && layer.color_at(lx, ly).a
            != 0 {
            layer.color_at(lx, ly)
        } else {
            base
        }
    }

    /// The color of the first `n` pictures, in their order, over a color.
    pub open spec fn layers_over(
        &self,
        n: int,
        area: Area,
        layers: Seq<Framebuffer>,
        base: Rgba,
        px: int,
        py: int,
    ) -> Rgba
        decreases n,
    {
        if n <= 0 {
            base
        } else {
            self.layer_over(
                painted_order()[n - 1],
                area,
                layers,
                self.layers_over(n - 1, area, layers, base, px, py),
                px,
                py,
            )
        }
    }

    /// The background of an area, where the desk and holes in the window are.
    pub open spec fn ground(
        area: Area,
        desk: &Sprite,
        palette: &Palette,
        fb: &Framebuffer,
        px: int,
        py: int,
    ) -> Rgba {
        if area.has(px, py) {
            match desk_color(desk, palette, fb.width as int, fb.height as int, px, py) {
                Some(color) => opaque(color),
                None => see_through(palette.color_of(BACKGROUND)),
            }
        } else {
            fb.color_at(px, py)
        }
    }

    /// Paints an area again: the background, and over it every widget that has
    /// a part there.
    #[verifier::spinoff_prover]
    pub fn render_rect(
        &self,
        fb: &mut Framebuffer,
        desk: &Sprite,
        palette: &Palette,
        layers: &Vec<Framebuffer>,
        area: Area,
    )
        requires
            self.wf(),
            old(fb).wf(),
            old(fb).height <= isize::MAX - 2000,
            desk.wf(),
            palette.wf(),
            palette.colors().len() > 0,
            layers@.len() == WIDGET_COUNT,
            forall|i: int| 0 <= i < WIDGET_COUNT ==> (#[trigger] layers@[i]).wf(),
            placed(area),
        ensures
            final(fb).wf(),
            final(fb).same_size(old(fb)),
            forall|px: int, py: int|
                final(fb).has(px, py) ==> #[trigger] final(fb).color_at(px, py)
                    == self.layers_over(
                    WIDGET_COUNT as int,
                    area,
                    layers@,
                    Self::ground(area, desk, palette, old(fb), px, py),
                    px,
                    py,
                ),
    {
        let rect = Rect::new(area.x as usize, area.y as usize, area.w, area.h);
        render_background_rect(fb, desk, palette, rect);
        let mut i: usize = 0;
        while i < WIDGET_COUNT
            invariant
                i <= WIDGET_COUNT,
                self.wf(),
                fb.wf(),
                fb.same_size(old(fb)),
                layers@.len() == WIDGET_COUNT,
                forall|j: int| 0 <= j < WIDGET_COUNT ==> (#[trigger] layers@[j]).wf(),
                forall|px: int, py: int|
                    fb.has(px, py) ==> #[trigger] fb.color_at(px, py) == self.layers_over(
                        i as int,
                        area,
                        layers@,
                        Self::ground(area, desk, palette, old(fb), px, py),
                        px,
                        py,
                    ),
            decreases WIDGET_COUNT - i,
        {
            let ghost before = *fb;
            let widget = painted_widget(i);
            let own = self.rect_for(widget);
            let place: usize = widget.index();
            assert(layers@[place as int].wf());
            if rects_intersect(own, area) {
                fb.blit_from(&layers[place], own.x as usize, own.y as usize);
            }
            proof {
                assert forall|px: int, py: int| fb.has(px, py) implies #[trigger] fb.color_at(
                    px,
                    py,
                ) == self.layers_over(
                    i + 1,
                    area,
                    layers@,
                    Self::ground(area, desk, palette, old(fb), px, py),
                    px,
                    py,
                ) by {
                    assert(before.has(px, py));
                    assert(before.color_at(px, py) == before.color_at(px, py));
                }
            }
            i += 1;
        }
    }
}

/// What a batch of events has left to paint. Many events can come at once;
/// their state is updated one by one, but the widgets are painted once.
#[derive(Clone, Copy, Debug, PartialEq, Eq, Structural)]
pub struct Batch {
    /// The widget with the keyboard has to be painted.
    pub input: bool,
    /// The widget that the pointer has last changed.
    pub motion: Option<WidgetId>,
    /// Something was painted.
    pub drew: bool,
}

impl Batch {
    pub fn new(drew: bool) -> (r: Self)
        ensures
            r == (Batch { input: false, motion: None, drew }),
    {
        Batch { input: false, motion: None, drew }
    }

    /// A part of the window has come to light, and `count` more are to come;
    /// says whether to paint it all, which is once they all have.
    pub fn exposed(&mut self, count: u16) -> (r: bool)
        ensures
            r == (count == 0),
            *final(self) == (if r {
                Batch { input: false, motion: None, drew: true }
            } else {
                *old(self)
            }),
    {
        if count == 0 {
            self.drew = true;
            self.input = false;
            self.motion = None;
        }
        count == 0
    }

    /// A key or a press was handled.
    pub fn handled_input(&mut self)
        ensures
            *final(self) == (Batch { input: true, ..*old(self) }),
    {
        self.input = true;
    }

    /// What a widget that is painted at once leads to.
    pub open spec fn release_leads_to(&self, widget: Option<WidgetId>, after: &Self) -> bool {
        *after == (if widget is None {
            *self
        } else {
            Batch {
                motion: if self.motion == widget {
                    None
                } else {
                    self.motion
                },
                drew: true,
                ..*self
            }
        })
    }

    /// A widget, if any, is painted at once; its part of an earlier movement
    /// needs no paint anymore.
    pub fn released(&mut self, widget: Option<WidgetId>)
        ensures
            old(self).release_leads_to(widget, final(self)),
    {
        if let Some(released) = widget {
            if let Some(pending) = self.motion {
                if pending == released {
                    self.motion = None;
                }
            }
            self.drew = true;
        }
    }

    /// A movement has changed a widget, if any.
    pub fn moved(&mut self, widget: Option<WidgetId>)
        ensures
            *final(self) == (if widget is None {
                *old(self)
            } else {
                Batch { motion: widget, ..*old(self) }
            }),
    {
        if widget.is_some() {
            self.motion = widget;
        }
    }

    /// Something was painted, or not.
    pub fn painted(&mut self, drew: bool)
        ensures
            *final(self) == (Batch { drew: old(self).drew || drew, ..*old(self) }),
    {
        if drew {
            self.drew = true;
        }
    }

    /// How long to rest after the batch, whose remaining parts are painted
    /// first: hardly at all while there is something to see.
    pub fn pause_millis(&self) -> (r: u64)
        ensures
            r == (if self.drew || self.input || self.motion is Some {
                1int
            } else {
                16
            }),
    {
        if self.drew || self.input || self.motion.is_some() {
            1
        } else {
            16
        }
    }
}

/// The pointer meets the upper widgets first, the terminal last of all; the picture
/// is painted from the radio up, with the terminal next and the dials last.
pub proof fn lemma_orders_are()
    ensures
        pointed_order().len() == 8,
        pointed_order()[0] == WidgetId::Wavey,
        pointed_order()[1] == WidgetId::Fizzle,
        pointed_order()[2] == WidgetId::Day,
        pointed_order()[3] == WidgetId::Twirl,
        pointed_order()[4] == WidgetId::Fwends,
        pointed_order()[5] == WidgetId::Toodle,
        pointed_order()[6] == WidgetId::Hunger,
        pointed_order()[7] == WidgetId::Puter,
        painted_order()[0] == WidgetId::Wavey,
        painted_order()[1] == WidgetId::Puter,
        painted_order()[2] == WidgetId::Toodle,
        painted_order()[3] == WidgetId::Fwends,
        painted_order()[4] == WidgetId::Twirl,
        painted_order()[5] == WidgetId::Fizzle,
        painted_order()[6] == WidgetId::Day,
        painted_order()[7] == WidgetId::Budgit,
        painted_order()[8] == WidgetId::Stats,
        painted_order()[9] == WidgetId::Hunger,
        painted_order()[10] == WidgetId::Gauges,
{
}

/// The pointer is over a widget when one of those it can meet holds the point, and
/// then over the first of them.
pub proof fn lemma_pointed_is(rects: Seq<Area>, order: Seq<WidgetId>, x: int, y: int, i: int)
    requires
        0 <= i <= order.len(),
        forall|j: int| 0 <= j < i ==> !rects[(#[trigger] order[j]).place()].has(x, y),
    ensures
        i == order.len() ==> first_holding(rects, order, x, y) is None,
        i < order.len() && rects[order[i].place()].has(x, y) ==> first_holding(rects, order, x, y)
            == Some(order[i]),
    decreases order.len(),
{
    if order.len() > 0 && i > 0 {
        assert(!rects[order[0].place()].has(x, y));
        let rest = order.skip(1);
        assert forall|j: int| 0 <= j < i - 1 implies !rects[(#[trigger] rest[j]).place()].has(
            x,
            y,
        ) by {
            assert(rest[j] == order[j + 1]);
        }
        lemma_pointed_is(rects, rest, x, y, i - 1);
        if i < order.len() {
            assert(rest[i - 1] == order[i]);
        }
    }
}

/// While text is dragged a motion only goes on with that. Else it goes to the
/// terminal or the radio where one of them has the focus, and in any case to the
/// notebook, which is told where the pointer is over it, or that it is not.
pub proof fn lemma_motions_are(desktop: &Desktop, x: int, y: int)
    ensures
        desktop.text_drag matches Some(widget) ==> desktop.moves(x, y) == seq![
            MotionStep::DragText(
                widget,
                (x - desktop.rects@[widget.place()].x) as isize,
                (y - desktop.rects@[widget.place()].y) as isize,
            ),
        ],
        desktop.text_drag is None ==> ({
            let s = desktop.moves(x, y);
            let puter = desktop.rects@[0];
            let toodle = desktop.rects@[1];
            let wavey = desktop.rects@[4];
            &&& desktop.focus == WidgetId::Puter ==> s.len() == 2 && s[0] == MotionStep::Puter(
                (x - puter.x) as isize,
                (y - puter.y) as isize,
            )
            &&& desktop.focus == WidgetId::Wavey ==> s.len() == 2 && s[0] == MotionStep::Wavey(
                (x - wavey.x) as isize,
                (y - wavey.y) as isize,
            )
            &&& desktop.focus != WidgetId::Puter && desktop.focus != WidgetId::Wavey ==> s.len()
                == 1
            &&& toodle.x <= x < toodle.x + toodle.w && toodle.y <= y < toodle.y + toodle.h
                ==> s[s.len() - 1] == MotionStep::HoverToodle(
                (x - toodle.x) as isize,
                (y - toodle.y) as isize,
            )
            &&& !(toodle.x <= x < toodle.x + toodle.w && toodle.y <= y < toodle.y + toodle.h)
                ==> s[s.len() - 1] == MotionStep::HoverToodle((-1) as isize, (-1) as isize)
        }),
{
}

/// The terminal is told of a release when it was pressed, and is not pressed any
/// more.
pub proof fn lemma_puter_release(
    desktop: &Desktop,
    x: int,
    y: int,
    after: &Desktop,
    step: ReleaseStep,
)
    requires
        desktop.puter_lets_go(x, y, after, step),
    ensures
        !after.puter_pressed,
        after.rects == desktop.rects,
        after.focus == desktop.focus,
        after.text_drag == desktop.text_drag,
        desktop.puter_pressed ==> step == ReleaseStep::Puter(
            (x - desktop.rects@[0].x) as isize,
            (y - desktop.rects@[0].y) as isize,
        ),
        !desktop.puter_pressed ==> step == ReleaseStep::Nothing,
{
}

/// A new layout puts each widget at its place for the screen's height. Only the
/// notebook changes its size.
pub proof fn lemma_laid_is(
    desktop: &Desktop,
    heights: Seq<usize>,
    toodle_w: usize,
    toodle_h: usize,
    widget: WidgetId,
)
    ensures
        ({
            let needed = content_height(heights, desktop.desk_h as int, 11) + 25;
            let screen_h = if needed > desktop.min_height {
                needed
            } else {
                desktop.min_height as int
            };
            let s = desktop.laid(heights, toodle_w, toodle_h);
            let r = s[widget.place()];
            let (x, y) = position_of(widget, heights[widget.place()] as int, screen_h);
            &&& s.len() == 11
            &&& r.x == x as isize
            &&& r.y == y as isize
            &&& widget == WidgetId::Toodle ==> r.w == toodle_w && r.h == toodle_h
            &&& widget != WidgetId::Toodle ==> r.w == desktop.rects@[widget.place()].w && r.h
                == desktop.rects@[widget.place()].h
        }),
{
    crate::layout::lemma_places(widget, 0);
}

/// Ctrl+V pastes into the notebook and the chat; the terminal wants Shift too, and
/// nothing else takes it.
pub proof fn lemma_pastes_are(focus: WidgetId, key: KeyView)
    ensures
        ({
            let v = key.sym == 0x76 || key.sym == 0x56 || key.text == seq!['v'] || key.text == seq![
                'V',
            ];
            &&& focus == WidgetId::Puter ==> (pastes(focus, key) <==> key.ctrl && key.shift && v)
            &&& focus == WidgetId::Toodle || focus == WidgetId::Fwends ==> (pastes(focus, key)
                <==> key.ctrl && v)
            &&& focus != WidgetId::Puter && focus != WidgetId::Toodle && focus != WidgetId::Fwends
                ==> !pastes(focus, key)
        }),
{
    reveal_strlit("v");
    if crate::chars::same_ignoring_ascii_case(key.text, "v"@) {
        assert(key.text =~= seq![key.text[0]]);
    }
    if key.text == seq!['v'] || key.text == seq!['V'] {
        assert(crate::chars::same_ignoring_ascii_case(key.text, "v"@));
    }
}

/// A widget's layer covers what lies below it where it has a color, at the
/// widget's own place, if the widget reaches into the part that is painted; later
/// ones cover earlier ones.
pub proof fn lemma_layers_are(
    desktop: &Desktop,
    n: int,
    area: Area,
    layers: Seq<Framebuffer>,
    base: Rgba,
    px: int,
    py: int,
)
    requires
        0 <= n < 11,
    ensures
        desktop.layers_over(0, area, layers, base, px, py) == base,
        ({
            let widget = painted_order()[n];
            let rect = desktop.rects@[widget.place()];
            let layer = layers[widget.place()];
            let (lx, ly) = (px - rect.x, py - rect.y);
            let below = desktop.layers_over(n, area, layers, base, px, py);
            desktop.layers_over(n + 1, area, layers, base, px, py) == if overlap(rect, area)
                && layer.has(lx, ly) && layer.color_at(lx, ly).a != 0 {
                layer.color_at(lx, ly)
            } else {
                below
            }
        }),
{
}

/// A press goes to the widget under the pointer, with the place counted from that
/// widget's corner, and gives it the keyboard; beside all of them nothing gets it
/// and the keyboard stays. A selection of text that was going on is over.
pub proof fn lemma_presses_are(
    desktop: &Desktop,
    x: i16,
    y: i16,
    after: &Desktop,
    r: Option<(WidgetId, isize, isize)>,
)
    requires
        desktop.click_leads_to(x, y, after, r),
    ensures
        after.text_drag is None,
        after.rects == desktop.rects,
        r matches Some((widget, lx, ly)) ==> {
            let rect = desktop.rects@[widget.place()];
            &&& rect.x <= x < rect.x + rect.w
            &&& rect.y <= y < rect.y + rect.h
            &&& lx == x - rect.x
            &&& ly == y - rect.y
            &&& after.focus == widget
            &&& after.puter_pressed <==> widget == WidgetId::Puter
        },
        r is None ==> after.focus == desktop.focus && !after.puter_pressed && forall|i: int|
            0 <= i < 8 ==> {
                let rect = desktop.rects@[(#[trigger] pointed_order()[i]).place()];
                !(rect.x <= x < rect.x + rect.w && rect.y <= y < rect.y + rect.h)
            },
{
    let order = pointed_order();
    if let Some((widget, _lx, _ly)) = r {
        lemma_first_holding(desktop.rects@, order, x as int, y as int, widget);
    } else {
        lemma_none_holds(desktop.rects@, order, x as int, y as int);
    }
}

proof fn lemma_none_holds(rects: Seq<Area>, order: Seq<WidgetId>, x: int, y: int)
    requires
        first_holding(rects, order, x, y) is None,
    ensures
        forall|i: int|
            0 <= i < order.len() ==> !rects[(#[trigger] order[i]).place()].has(x, y),
    decreases order.len(),
{
    if order.len() > 0 {
        lemma_none_holds(rects, order.skip(1), x, y);
        assert forall|i: int|
            0 <= i < order.len() implies !rects[(#[trigger] order[i]).place()].has(x, y) by {
            if i > 0 {
                assert(order.skip(1)[i - 1] == order[i]);
            }
        }
    }
}

/// Text is dragged only in the notebook and the chat.
pub proof fn lemma_drags_are(
    desktop: &Desktop,
    widget: WidgetId,
    text_dragging: bool,
    after: &Desktop,
)
    requires
        desktop.drag_leads_to(widget, text_dragging, after),
    ensures
        text_dragging && (widget == WidgetId::Toodle || widget == WidgetId::Fwends)
            ==> after.text_drag == Some(widget),
        !text_dragging || (widget != WidgetId::Toodle && widget != WidgetId::Fwends) ==> *after
            == *desktop,
        after.focus == desktop.focus,
        after.rects == desktop.rects,
{
}

/// A release ends the dragging of text, if there is one; else the radio is asked
/// where it has the keyboard, and else the terminal is let go.
pub proof fn lemma_releases_are(
    desktop: &Desktop,
    x: i16,
    y: i16,
    after: &Desktop,
    r: ReleaseStep,
)
    requires
        desktop.release_leads_to(x, y, after, r),
    ensures
        after.rects == desktop.rects,
        after.focus == desktop.focus,
        after.text_drag is None,
        desktop.text_drag matches Some(widget) ==> r == ReleaseStep::EndTextDrag(widget)
            && after.puter_pressed == desktop.puter_pressed,
        desktop.text_drag is None && desktop.focus == WidgetId::Wavey ==> r == ReleaseStep::AskWavey,
        desktop.text_drag is None && desktop.focus != WidgetId::Wavey && desktop.puter_pressed
            ==> r == ReleaseStep::Puter(
            (x - desktop.rects@[0].x) as isize,
            (y - desktop.rects@[0].y) as isize,
        ) && !after.puter_pressed,
        desktop.text_drag is None && desktop.focus != WidgetId::Wavey && !desktop.puter_pressed
            ==> r == ReleaseStep::Nothing,
{
}

/// The wheel turns the chat, the terminal and the radio, where it is over one of
/// them.
pub proof fn lemma_wheel_is(
    desktop: &Desktop,
    x: i16,
    y: i16,
    r: Option<(WidgetId, isize, isize)>,
)
    requires
        desktop.wheel_turns(x, y, r),
    ensures
        r matches Some((widget, lx, ly)) ==> (widget == WidgetId::Fwends || widget
            == WidgetId::Puter || widget == WidgetId::Wavey) && desktop.under(x as int, y as int)
            == Some(widget) && lx == x - desktop.rects@[widget.place()].x && ly == y
            - desktop.rects@[widget.place()].y,
        desktop.under(x as int, y as int) == Some(WidgetId::Fwends) || desktop.under(
            x as int,
            y as int,
        ) == Some(WidgetId::Puter) || desktop.under(x as int, y as int) == Some(WidgetId::Wavey)
            ==> r is Some,
{
}

/// The pointer is a beam while text is dragged, a hand over the calendar and the
/// meals, an arrow over the candle and over nothing; of the others the widget is
/// asked.
pub proof fn lemma_pointer_is(desktop: &Desktop, x: i16, y: i16, r: CursorStep)
    requires
        desktop.points_at(x, y, r),
    ensures
        desktop.text_drag is Some ==> r == CursorStep::Known(CursorKind::Text),
        desktop.text_drag is None ==> {
            let under = desktop.under(x as int, y as int);
            &&& under is None ==> r == CursorStep::Known(CursorKind::Pointer)
            &&& under == Some(WidgetId::Fizzle) ==> r == CursorStep::Known(CursorKind::Pointer)
            &&& under == Some(WidgetId::Day) ==> r == CursorStep::Known(CursorKind::Hand)
            &&& under == Some(WidgetId::Hunger) ==> r == CursorStep::Known(CursorKind::Hand)
            &&& under matches Some(widget) ==> (widget == WidgetId::Puter || widget
                == WidgetId::Toodle || widget == WidgetId::Fwends || widget == WidgetId::Twirl
                || widget == WidgetId::Wavey ==> r == CursorStep::Ask(
                widget,
                (x - desktop.rects@[widget.place()].x) as isize,
                (y - desktop.rects@[widget.place()].y) as isize,
            ))
        },
{
}

/// The window reaches as far right as the desk and each of the widgets that stand at
/// its right side, and no farther than one of them.
pub proof fn lemma_window_is_wide(desktop: &Desktop, r: usize)
    requires
        desktop.width_is(r),
    ensures
        ({
            let right = |widget: WidgetId|
                desktop.rects@[widget.place()].x + desktop.rects@[widget.place()].w;
            &&& r >= desktop.desk_w
            &&& r >= right(WidgetId::Toodle)
            &&& r >= right(WidgetId::Twirl)
            &&& r >= right(WidgetId::Wavey)
            &&& r >= right(WidgetId::Day)
            &&& r >= right(WidgetId::Budgit)
            &&& r >= right(WidgetId::Stats)
            &&& r >= right(WidgetId::Fwends)
            &&& r == desktop.desk_w || r == right(WidgetId::Toodle) || r == right(WidgetId::Twirl)
                || r == right(WidgetId::Wavey) || r == right(WidgetId::Day) || r == right(
                WidgetId::Budgit,
            ) || r == right(WidgetId::Stats) || r == right(WidgetId::Fwends)
        }),
{
}

/// The ground of what is painted is the desk where it has a color, and the
/// background, seen through, where it has none. What is outside of it stays.
pub proof fn lemma_ground_is(
    area: Area,
    desk: &Sprite,
    palette: &Palette,
    fb: &Framebuffer,
    px: int,
    py: int,
)
    ensures
        ({
            let inside = area.x <= px < area.x + area.w && area.y <= py < area.y + area.h;
            let color = desk_color(desk, palette, fb.width as int, fb.height as int, px, py);
            let ground = Desktop::ground(area, desk, palette, fb, px, py);
            &&& !inside ==> ground == fb.color_at(px, py)
            &&& inside ==> (color matches Some(c) ==> ground.r == c.r && ground.g == c.g && ground.b
                == c.b && ground.a == 255)
            &&& inside && color is None ==> ground.a == 0 && ground.r == palette.color_of(12).r
        }),
{
}

/// A widget that is painted at once needs no paint for an earlier movement, while that
/// of another widget still does; without a widget nothing happens.
pub proof fn lemma_releases_paint(before: &Batch, widget: Option<WidgetId>, after: &Batch)
    requires
        before.release_leads_to(widget, after),
    ensures
        after.input == before.input,
        widget is None ==> after.motion == before.motion && after.drew == before.drew,
        widget is Some ==> after.drew,
        widget is Some && before.motion == widget ==> after.motion is None,
        widget is Some && before.motion != widget ==> after.motion == before.motion,
{
}

/// The chat's rectangle has the chat's height, and nothing else changes; it says
/// whether the height is another or the chat has taken on a new one.
pub proof fn lemma_chat_height_leads(
    before: &Desktop,
    resized: bool,
    height: usize,
    after: &Desktop,
    r: bool,
    widget: WidgetId,
)
    requires
        before.height_leads_to(resized, height, after, r),
        before.rects@.len() > WidgetId::Fwends.place(),
        widget.place() != WidgetId::Fwends.place(),
        0 <= widget.place() < before.rects@.len(),
    ensures
        ({
            let at = WidgetId::Fwends.place();
            &&& after.rects@[at].h == height
            &&& after.rects@[at].w == before.rects@[at].w
            &&& after.rects@[at].x == before.rects@[at].x
            &&& after.rects@[at].y == before.rects@[at].y
            &&& r <==> resized || before.rects@[at].h != height
        }),
        after.rects@[widget.place()] == before.rects@[widget.place()],
        after.focus == before.focus,
        after.desk_w == before.desk_w,
        after.desk_h == before.desk_h,
{
}

} // verus!
