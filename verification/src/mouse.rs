//! The mouse: what it points at, which of its buttons are down, and what follows.

use vstd::prelude::*;

verus! {

use crate::state::{elapsed, time_between, App, LastMouseEvent, Time};
use crate::text::{byte_len, byte_length};

/// A button of the mouse.
#[derive(Clone, Copy, Debug, PartialEq, Eq, Structural)]
pub enum MouseButton {
    Left,
    Right,
    Middle,
}

/// What the mouse did.
#[derive(Clone, Copy, Debug, PartialEq, Eq, Structural)]
pub enum MouseEventKind {
    Down(MouseButton),
    Up(MouseButton),
    Drag(MouseButton),
    Moved,
    ScrollUp,
    ScrollDown,
    ScrollLeft,
    ScrollRight,
}

/// What the mouse did, and where.
#[derive(Clone, Copy, Debug, PartialEq, Eq, Structural)]
pub struct MouseEvent {
    pub kind: MouseEventKind,
    pub column: u16,
    pub row: u16,
}

/// What a cell of the screen belongs to.
#[derive(Clone, Copy, Debug, PartialEq, Eq, Structural)]
pub enum Tag {
    /// The edited text, at this byte.
    Command(usize),
    /// Anything else, by its number.
    Other(u32),
}

/// The shape of the mouse pointer.
#[derive(Clone, Copy, Debug, PartialEq, Eq, Structural)]
pub enum PointerShape {
    Default,
    Text,
    Hand,
    /// Any other shape, by its number.
    Other(u32),
}

/// What is known of the mouse.
#[derive(Clone, Copy, Debug, PartialEq, Eq)]
pub struct MouseState {
    pub enabled: bool,
    pub last_mouse_pos: Option<(u16, u16)>,
    pub last_event_time: Option<Time>,
    pub left_button_down: bool,
    pub left_button_dragging: bool,
    /// What the left button was pressed on.
    pub drag_start_tag: Option<Tag>,
    /// The byte of the edited text on which the left button was last pressed, and
    /// when.
    pub last_left_click: Option<(usize, Time)>,
    /// Where the right button was pressed.
    pub right_click_down_pos: Option<(u16, u16)>,
    pub last_scroll_time: Option<Time>,
    /// What the mouse points at, by its meaning.
    pub last_mouse_over_cell_semantic: Option<Tag>,
    /// What the mouse points at, by the cell alone.
    pub last_mouse_over_cell_direct: Option<Tag>,
    pub pointer_shape: PointerShape,
}

/// How a button of the user interface looks.
#[derive(Clone, Copy, Debug, PartialEq, Eq, Structural)]
pub enum ButtonState {
    Normal,
    Hovered,
    Depressed,
}

/// The content that was drawn, as far as a dragging mouse needs it.
#[derive(Clone, Copy, Debug, PartialEq, Eq)]
pub struct DrawnRows {
    /// The row of the content that the mouse is on; it may lie outside.
    pub mouse_row: i64,
    /// How many rows the content has.
    pub count: i64,
}

/// What a cell belongs to, by itself and by its meaning.
#[derive(Clone, Copy, Debug, PartialEq, Eq)]
pub struct CellTags {
    pub direct: Tag,
    pub semantic: Tag,
}

impl MouseState {
    /// A mouse that has done nothing yet.
    pub fn new(enabled: bool) -> (r: MouseState)
        ensures
            r == (MouseState {
                enabled,
                last_mouse_pos: None,
                last_event_time: None,
                left_button_down: false,
                left_button_dragging: false,
                drag_start_tag: None,
                last_left_click: None,
                right_click_down_pos: None,
                last_scroll_time: None,
                last_mouse_over_cell_semantic: None,
                last_mouse_over_cell_direct: None,
                pointer_shape: PointerShape::Default,
            }),
    {
        MouseState {
            enabled,
            last_mouse_pos: None,
            last_event_time: None,
            left_button_down: false,
            left_button_dragging: false,
            drag_start_tag: None,
            last_left_click: None,
            right_click_down_pos: None,
            last_scroll_time: None,
            last_mouse_over_cell_semantic: None,
            last_mouse_over_cell_direct: None,
            pointer_shape: PointerShape::Default,
        }
    }

    /// Whether a drag that began in the edited text goes on.
    pub open spec fn drags_command(self, kind: MouseEventKind) -> bool {
        self.drag_start_tag matches Some(tag) && tag is Command && kind is Drag
    }

    /// What the mouse means to point at. A drag that began in the edited text means
    /// its end below the content, and its start above it.
    pub open spec fn meant_tag(
        self,
        kind: MouseEventKind,
        cell: Option<CellTags>,
        rows: Option<DrawnRows>,
        text_bytes: usize,
    ) -> Option<Tag> {
        let plain = match cell {
            Some(tags) => Some(tags.semantic),
            None => None,
        };
        match rows {
            Some(r) => if !self.drags_command(kind) {
                plain
            } else if r.mouse_row >= r.count {
                Some(Tag::Command(text_bytes))
            } else if r.mouse_row < 0 || (r.mouse_row == 0 && plain is None) {
                Some(Tag::Command(0))
            } else {
                plain
            },
            None => plain,
        }
    }

    pub fn resolve_tag(
        &self,
        kind: MouseEventKind,
        cell: Option<CellTags>,
        rows: Option<DrawnRows>,
        text_bytes: usize,
    ) -> (r: Option<Tag>)
        ensures
            r == self.meant_tag(kind, cell, rows, text_bytes),
    {
        let plain: Option<Tag> = match cell {
            Some(tags) => Some(tags.semantic),
            None => None,
        };
        let from_command = match self.drag_start_tag {
            Some(Tag::Command(_)) => true,
            _ => false,
        };
        let dragging = match kind {
            MouseEventKind::Drag(_) => true,
            _ => false,
        };
        match rows {
            Some(r) => if !(from_command && dragging) {
                plain
            } else if r.mouse_row >= r.count {
                Some(Tag::Command(text_bytes))
            } else if r.mouse_row < 0 || (r.mouse_row == 0 && plain.is_none()) {
                Some(Tag::Command(0))
            } else {
                plain
            },
            None => plain,
        }
    }

    /// The state after an event that means `semantic`.
    pub open spec fn after_event(
        self,
        event: MouseEvent,
        direct: Option<Tag>,
        semantic: Option<Tag>,
        now: Time,
    ) -> MouseState {
        let seen = MouseState {
            last_mouse_pos: Some((event.column, event.row)),
            last_event_time: Some(now),
            last_mouse_over_cell_semantic: semantic,
            last_mouse_over_cell_direct: direct,
            ..self
        };
        match event.kind {
            MouseEventKind::Down(MouseButton::Left) => MouseState {
                left_button_down: true,
                left_button_dragging: false,
                drag_start_tag: semantic,
                last_left_click: match semantic {
                    Some(Tag::Command(byte)) => Some((byte, now)),
                    _ => self.last_left_click,
                },
                ..seen
            },
            MouseEventKind::Up(MouseButton::Left) => MouseState {
                left_button_down: false,
                left_button_dragging: false,
                drag_start_tag: None,
                ..seen
            },
            MouseEventKind::Drag(MouseButton::Left) => MouseState {
                left_button_dragging: true,
                ..seen
            },
            MouseEventKind::Up(MouseButton::Right) => MouseState {
                right_click_down_pos: None,
                ..seen
            },
            MouseEventKind::ScrollUp => MouseState { last_scroll_time: Some(now), ..seen },
            MouseEventKind::ScrollDown => MouseState { last_scroll_time: Some(now), ..seen },
            MouseEventKind::ScrollLeft => MouseState { last_scroll_time: Some(now), ..seen },
            MouseEventKind::ScrollRight => MouseState { last_scroll_time: Some(now), ..seen },
            _ => seen,
        }
    }

    /// Takes in an event that means `semantic`.
    pub fn record(
        &mut self,
        event: MouseEvent,
        direct: Option<Tag>,
        semantic: Option<Tag>,
        now: Time,
    )
        ensures
            *final(self) == old(self).after_event(event, direct, semantic, now),
    {
        self.last_mouse_pos = Some((event.column, event.row));
        self.last_event_time = Some(now);
        match event.kind {
            MouseEventKind::Down(MouseButton::Left) => {
                self.left_button_down = true;
                self.left_button_dragging = false;
                self.drag_start_tag = semantic;
                if let Some(Tag::Command(byte)) = semantic {
                    self.last_left_click = Some((byte, now));
                }
            },
            MouseEventKind::Up(MouseButton::Left) => {
                self.left_button_down = false;
                self.left_button_dragging = false;
                self.drag_start_tag = None;
            },
            MouseEventKind::Drag(MouseButton::Left) => {
                self.left_button_dragging = true;
            },
            MouseEventKind::Up(MouseButton::Right) => {
                self.right_click_down_pos = None;
            },
            MouseEventKind::ScrollUp
            | MouseEventKind::ScrollDown
            | MouseEventKind::ScrollLeft
            | MouseEventKind::ScrollRight => {
                self.last_scroll_time = Some(now);
            },
            _ => {},
        }
        self.last_mouse_over_cell_semantic = semantic;
        self.last_mouse_over_cell_direct = direct;
    }

    /// How a button with the given tag looks.
    pub fn button_state_for(&self, tag: Tag) -> (r: ButtonState)
        ensures
            r == (if self.last_mouse_over_cell_semantic != Some(tag) {
                ButtonState::Normal
            } else if self.left_button_down {
                ButtonState::Depressed
            } else {
                ButtonState::Hovered
            }),
    {
        let over = match self.last_mouse_over_cell_semantic {
            Some(t) => t == tag,
            None => false,
        };
        if !over {
            ButtonState::Normal
        } else if self.left_button_down {
            ButtonState::Depressed
        } else {
            ButtonState::Hovered
        }
    }

    /// Switches the mouse on or off. A mouse that is off points at nothing.
    pub fn toggle_mouse_state(&mut self)
        ensures
            *final(self) == (if old(self).enabled {
                MouseState {
                    enabled: false,
                    last_mouse_over_cell_semantic: None,
                    last_mouse_over_cell_direct: None,
                    ..*old(self)
                }
            } else {
                MouseState { enabled: true, ..*old(self) }
            }),
    {
        self.enabled = !self.enabled;
        if !self.enabled {
            self.last_mouse_over_cell_semantic = None;
            self.last_mouse_over_cell_direct = None;
        }
    }

    /// Whether the mouse did anything in the last `window`.
    pub open spec fn is_recent(self, now: Time, window: Time) -> bool {
        self.last_event_time matches Some(t) && time_between(t, now) < window
    }

    /// Whether the mouse did anything in the last `window`.
    pub fn has_recent_mouse_activity(&self, now: Time, window: Time) -> (r: bool)
        ensures
            r == self.is_recent(now, window),
    {
        match self.last_event_time {
            Some(t) => elapsed(t, now) < window,
            None => false,
        }
    }

    /// Takes in what lies under a mouse that has not moved, because something else
    /// was drawn there. Tells whether the shape of the pointer is to be chosen
    /// anew.
    pub fn look_under_pointer(&mut self, is_mouse_disabled: bool, cell: Option<CellTags>) -> (r:
        bool)
        ensures
            r == (!is_mouse_disabled && old(self).last_mouse_pos is Some),
            *final(self) == (if is_mouse_disabled {
                MouseState { pointer_shape: PointerShape::Default, ..*old(self) }
            } else if old(self).last_mouse_pos is None {
                *old(self)
            } else {
                MouseState {
                    last_mouse_over_cell_semantic: match cell {
                        Some(tags) => Some(tags.semantic),
                        None => None,
                    },
                    last_mouse_over_cell_direct: match cell {
                        Some(tags) => Some(tags.direct),
                        None => None,
                    },
                    ..*old(self)
                }
            }),
    {
        if is_mouse_disabled {
            self.pointer_shape = PointerShape::Default;
            return false;
        }
        if self.last_mouse_pos.is_none() {
            return false;
        }
        match cell {
            Some(tags) => {
                self.last_mouse_over_cell_semantic = Some(tags.semantic);
                self.last_mouse_over_cell_direct = Some(tags.direct);
            },
            None => {
                self.last_mouse_over_cell_semantic = None;
                self.last_mouse_over_cell_direct = None;
            },
        }
        true
    }
}

/// A binding of pointer shapes: whether it holds now, and the shape that each of
/// its actions sets, if it sets one.
#[derive(Debug, PartialEq, Eq)]
pub struct PointerBinding {
    pub holds: bool,
    pub shapes: Vec<Option<PointerShape>>,
}

/// The first shape that a list of actions sets.
pub open spec fn first_shape(shapes: Seq<Option<PointerShape>>) -> Option<PointerShape>
    decreases shapes.len(),
{
    if shapes.len() == 0 {
        None
    } else if shapes[0] is Some {
        shapes[0]
    } else {
        first_shape(shapes.skip(1))
    }
}

/// The shape that the first binding sets that holds and sets one.
pub open spec fn chosen_shape(bindings: Seq<PointerBinding>) -> Option<PointerShape>
    decreases bindings.len(),
{
    if bindings.len() == 0 {
        None
    } else if bindings[0].holds && first_shape(bindings[0].shapes@) is Some {
        first_shape(bindings[0].shapes@)
    } else {
        chosen_shape(bindings.skip(1))
    }
}

fn find_shape(shapes: &Vec<Option<PointerShape>>) -> (r: Option<PointerShape>)
    ensures
        r == first_shape(shapes@),
{
    let mut i: usize = 0;
    assert(shapes@.skip(0) =~= shapes@);
    while i < shapes.len()
        invariant
            i <= shapes@.len(),
            first_shape(shapes@) == first_shape(shapes@.skip(i as int)),
        decreases shapes@.len() - i,
    {
        assert(shapes@.skip(i as int)[0] == shapes@[i as int]);
        assert(shapes@.skip(i as int).skip(1) =~= shapes@.skip(i + 1));
        if shapes[i].is_some() {
            return shapes[i];
        }
        i = i + 1;
    }
    None
}

/// The shape that the bindings choose.
pub fn choose_shape(bindings: &Vec<PointerBinding>) -> (r: Option<PointerShape>)
    ensures
        r == chosen_shape(bindings@),
{
    let mut i: usize = 0;
    assert(bindings@.skip(0) =~= bindings@);
    while i < bindings.len()
        invariant
            i <= bindings@.len(),
            chosen_shape(bindings@) == chosen_shape(bindings@.skip(i as int)),
        decreases bindings@.len() - i,
    {
        assert(bindings@.skip(i as int)[0] == bindings@[i as int]);
        assert(bindings@.skip(i as int).skip(1) =~= bindings@.skip(i + 1));
        if bindings[i].holds {
            let shape = find_shape(&bindings[i].shapes);
            if shape.is_some() {
                return shape;
            }
        }
        i = i + 1;
    }
    None
}

/// `i` is the first of the bindings that hold.
pub open spec fn is_first_binding(holds: Seq<bool>, i: int) -> bool {
    0 <= i < holds.len() && holds[i] && forall|j: int| 0 <= j < i ==> !(#[trigger] holds[j])
}

/// Chooses the mouse binding whose actions are run: the first that holds, and no
/// other.
pub fn choose_binding(holds: &Vec<bool>) -> (r: Option<usize>)
    ensures
        match r {
            Some(i) => is_first_binding(holds@, i as int),
            None => forall|j: int| 0 <= j < holds@.len() ==> !(#[trigger] holds@[j]),
        },
{
    let mut i: usize = 0;
    while i < holds.len()
        invariant
            i <= holds@.len(),
            forall|j: int| 0 <= j < i ==> !(#[trigger] holds@[j]),
        decreases holds@.len() - i,
    {
        if holds[i] {
            return Some(i);
        }
        i = i + 1;
    }
    None
}

/// How soon the screen is to be drawn after a mouse action.
#[derive(Clone, Copy, Debug, PartialEq, Eq, Structural)]
pub enum RedrawUrgency {
    Now,
    Soon,
}

/// What mouse actions ask for.
#[derive(Clone, Copy, Debug, PartialEq, Eq, Structural)]
pub struct MouseActionOutput {
    pub possible_buffer_change: bool,
    pub redraw_urgency: RedrawUrgency,
}

/// The shortest time between two drawings that mouse actions ask for.
pub const MOUSE_REDRAW_INTERVAL: Time = 15_000_000;

/// Whether mouse actions lead to a drawing: at once where they ask for it, else
/// where the time that is stored for the last event is long enough ago.
/// [`App::on_mouse`] stores the time of the event at hand before its actions run, so
/// what they ask for is drawn only where it is urgent, unless they change that time.
pub open spec fn mouse_redraws(
    output: Option<MouseActionOutput>,
    last: Option<LastMouseEvent>,
    now: Time,
) -> bool {
    match output {
        Some(o) => o.redraw_urgency is Now || match last {
            Some(l) => time_between(l.time, now) > MOUSE_REDRAW_INTERVAL,
            None => true,
        },
        None => false,
    }
}

impl App {
    /// Takes in a mouse event: finds out what it means, and keeps it. What it
    /// leads to is for the mouse bindings.
    pub fn on_mouse(
        &mut self,
        mouse: &mut MouseState,
        event: MouseEvent,
        cell: Option<CellTags>,
        rows: Option<DrawnRows>,
        now: Time,
    )
        requires
            byte_len(old(self).buffer.text@) <= usize::MAX,
        ensures
            *final(self) == (App { last_mouse: final(self).last_mouse, ..*old(self) }),
            final(self).last_mouse matches Some(l) && l.mouse == event && l.matches@.len() == 0
                && l.time == now,
            *final(mouse) == old(mouse).after_event(
                event,
                match cell {
                    Some(tags) => Some(tags.direct),
                    None => None,
                },
                old(mouse).meant_tag(
                    event.kind,
                    cell,
                    rows,
                    byte_len(old(self).buffer.text@) as usize,
                ),
                now,
            ),
    {
        self.last_mouse = Some(LastMouseEvent { mouse: event, matches: Vec::new(), time: now });
        let direct: Option<Tag> = match cell {
            Some(tags) => Some(tags.direct),
            None => None,
        };
        let text_bytes: usize = byte_length(self.buffer.buffer()) as usize;
        let semantic = mouse.resolve_tag(event.kind, cell, rows, text_bytes);
        mouse.record(event, direct, semantic, now);
    }

    /// Ends a mouse event with what the bindings made of it: `matches` names them,
    /// and `output` is what their actions ask for, if there were any. Tells whether
    /// the screen is to be drawn.
    pub fn finish_mouse(
        &mut self,
        event: MouseEvent,
        matches: Vec<(String, String)>,
        output: Option<MouseActionOutput>,
        now: Time,
    ) -> (r: bool)
        ensures
            r == mouse_redraws(output, old(self).last_mouse, now),
            *final(self) == (App { last_mouse: final(self).last_mouse, ..*old(self) }),
            final(self).last_mouse matches Some(l) && l.mouse == event && match output {
                Some(_) => l.matches == matches && l.time == (if r {
                    now
                } else {
                    old(self).last_mouse->0.time
                }),
                None => l.matches@.len() == 1 && l.matches@[0].0@ == "none"@ && l.matches@[0].1@
                    == "none"@ && l.time == now,
            },
    {
        match output {
            Some(o) => {
                let previous: Option<Time> = match &self.last_mouse {
                    Some(l) => Some(l.time),
                    None => None,
                };
                let redraw = match o.redraw_urgency {
                    RedrawUrgency::Now => true,
                    RedrawUrgency::Soon => match previous {
                        Some(t) => elapsed(t, now) > MOUSE_REDRAW_INTERVAL,
                        None => true,
                    },
                };
                let time: Time = if redraw {
                    now
                } else {
                    match previous {
                        Some(t) => t,
                        None => now,
                    }
                };
                self.last_mouse = Some(LastMouseEvent { mouse: event, matches, time });
                redraw
            },
            None => {
                let mut none: Vec<(String, String)> = Vec::new();
                none.push(("none".to_owned(), "none".to_owned()));
                self.last_mouse = Some(LastMouseEvent { mouse: event, matches: none, time: now });
                false
            },
        }
    }

    /// Chooses the shape of the pointer from the bindings; without one that sets a
    /// shape, it stays.
    pub fn reevaluate_pointer_shape(mouse: &mut MouseState, bindings: &Vec<PointerBinding>)
        ensures
            *final(mouse) == (match chosen_shape(bindings@) {
                Some(shape) => MouseState { pointer_shape: shape, ..*old(mouse) },
                None => *old(mouse),
            }),
    {
        if let Some(shape) = choose_shape(bindings) {
            mouse.pointer_shape = shape;
        }
    }
}

/// After an event was taken in, actions that are not urgent do not lead to a drawing:
/// what they changed is seen with the next one.
pub proof fn lemma_what_is_not_urgent_is_not_drawn(
    output: MouseActionOutput,
    last: LastMouseEvent,
    now: Time,
)
    requires
        last.time == now,
    ensures
        mouse_redraws(Some(output), Some(last), now) <==> output.redraw_urgency is Now,
{
}

/// A button that goes up ends what it began: nothing is down or dragged after the
/// left one does.
pub proof fn lemma_release_ends_drag(
    mouse: MouseState,
    event: MouseEvent,
    direct: Option<Tag>,
    semantic: Option<Tag>,
    now: Time,
)
    requires
        event.kind == MouseEventKind::Up(MouseButton::Left),
    ensures
        !mouse.after_event(event, direct, semantic, now).left_button_down,
        !mouse.after_event(event, direct, semantic, now).left_button_dragging,
        mouse.after_event(event, direct, semantic, now).drag_start_tag is None,
{
}

/// The mouse means what it points at, unless a drag that began in the edited text goes on.
pub proof fn lemma_pointer_means_what_is_under_it(
    mouse: MouseState,
    kind: MouseEventKind,
    cell: Option<CellTags>,
    rows: Option<DrawnRows>,
    text_bytes: usize,
)
    requires
        !(kind is Drag) || mouse.drag_start_tag is None || mouse.drag_start_tag->0 is Other
            || rows is None,
    ensures
        mouse.meant_tag(kind, cell, rows, text_bytes) == (match cell {
            Some(tags) => Some(tags.semantic),
            None => None,
        }),
{
}

/// A drag that began in the edited text means its end where the mouse is below what was
/// drawn, and its start where it is above, or in the first row beside everything.
/// Elsewhere it means what it points at.
pub proof fn lemma_drag_reaches_the_ends_of_the_text(
    mouse: MouseState,
    button: MouseButton,
    byte: usize,
    cell: Option<CellTags>,
    rows: DrawnRows,
    text_bytes: usize,
)
    requires
        mouse.drag_start_tag == Some(Tag::Command(byte)),
        rows.count >= 0,
    ensures
        ({
            let meant = mouse.meant_tag(
                MouseEventKind::Drag(button),
                cell,
                Some(rows),
                text_bytes,
            );
            &&& rows.mouse_row >= rows.count ==> meant == Some(Tag::Command(text_bytes))
            &&& rows.mouse_row < 0 ==> meant == Some(Tag::Command(0))
            &&& rows.mouse_row == 0 && rows.count > 0 && cell is None ==> meant == Some(
                Tag::Command(0),
            )
            &&& 0 < rows.mouse_row < rows.count && cell is None ==> meant is None
            &&& 0 <= rows.mouse_row < rows.count && cell is Some ==> meant == Some(
                cell->0.semantic,
            )
        }),
{
}

/// Every event tells where the mouse is, when, and what it points at; what it does not
/// speak of stays as it was.
pub proof fn lemma_every_event_is_seen(
    mouse: MouseState,
    event: MouseEvent,
    direct: Option<Tag>,
    semantic: Option<Tag>,
    now: Time,
)
    ensures
        ({
            let after = mouse.after_event(event, direct, semantic, now);
            let is_left = event.kind == MouseEventKind::Down(MouseButton::Left) || event.kind
                == MouseEventKind::Up(MouseButton::Left) || event.kind == MouseEventKind::Drag(
                MouseButton::Left,
            );
            let scrolls = event.kind is ScrollUp || event.kind is ScrollDown
                || event.kind is ScrollLeft || event.kind is ScrollRight;
            &&& after.last_mouse_pos == Some((event.column, event.row))
            &&& after.last_event_time == Some(now)
            &&& after.last_mouse_over_cell_semantic == semantic
            &&& after.last_mouse_over_cell_direct == direct
            &&& after.enabled == mouse.enabled
            &&& after.pointer_shape == mouse.pointer_shape
            &&& after.last_scroll_time == (if scrolls {
                Some(now)
            } else {
                mouse.last_scroll_time
            })
            &&& !is_left ==> after.left_button_down == mouse.left_button_down
                && after.left_button_dragging == mouse.left_button_dragging
                && after.drag_start_tag == mouse.drag_start_tag
            &&& event.kind != MouseEventKind::Down(MouseButton::Left) ==> after.last_left_click
                == mouse.last_left_click
            &&& after.right_click_down_pos == (if event.kind == MouseEventKind::Up(
                MouseButton::Right,
            ) {
                None
            } else {
                mouse.right_click_down_pos
            })
        }),
{
}

/// Pressing the left button begins what a drag goes on with: the button is down and not
/// dragged, and what it was pressed on is kept, until it goes up. In the edited text, the
/// place is kept as the last click.
pub proof fn lemma_press_and_drag(
    mouse: MouseState,
    press: MouseEvent,
    drag: MouseEvent,
    direct: Option<Tag>,
    start: Option<Tag>,
    over: Option<Tag>,
    now: Time,
    later: Time,
)
    requires
        press.kind == MouseEventKind::Down(MouseButton::Left),
        drag.kind == MouseEventKind::Drag(MouseButton::Left),
    ensures
        ({
            let pressed = mouse.after_event(press, direct, start, now);
            let dragged = pressed.after_event(drag, direct, over, later);
            &&& pressed.left_button_down && !pressed.left_button_dragging
            &&& pressed.drag_start_tag == start
            &&& match start {
                Some(Tag::Command(byte)) => pressed.last_left_click == Some((byte, now)),
                _ => pressed.last_left_click == mouse.last_left_click,
            }
            &&& dragged.left_button_down && dragged.left_button_dragging
            &&& dragged.drag_start_tag == start
        }),
{
}

/// `i` is the first of the actions that sets a shape, and that shape is `shape`.
pub open spec fn sets_first(
    shapes: Seq<Option<PointerShape>>,
    i: int,
    shape: PointerShape,
) -> bool {
    &&& 0 <= i < shapes.len()
    &&& shapes[i] == Some(shape)
    &&& forall|k: int| 0 <= k < i ==> (#[trigger] shapes[k]) is None
}

/// No action sets a shape.
pub open spec fn sets_none(shapes: Seq<Option<PointerShape>>) -> bool {
    forall|k: int| 0 <= k < shapes.len() ==> (#[trigger] shapes[k]) is None
}

proof fn lemma_first_shape(shapes: Seq<Option<PointerShape>>) -> (i: int)
    ensures
        match first_shape(shapes) {
            Some(shape) => sets_first(shapes, i, shape),
            None => sets_none(shapes),
        },
    decreases shapes.len(),
{
    if shapes.len() == 0 || shapes[0] is Some {
        0
    } else {
        let rest = shapes.skip(1);
        let i = lemma_first_shape(rest);
        assert forall|k: int| 0 < k < shapes.len() implies shapes[k] == rest[k - 1] by {}
        i + 1
    }
}

/// The pointer gets the first shape that an action of the first binding sets that holds
/// and sets one; no other binding has a say. It gets none where no binding that holds sets
/// one.
pub proof fn lemma_first_binding_sets_the_shape(bindings: Seq<PointerBinding>) -> (r: (int, int))
    ensures
        match chosen_shape(bindings) {
            Some(shape) => {
                &&& 0 <= r.0 < bindings.len()
                &&& bindings[r.0].holds
                &&& sets_first(bindings[r.0].shapes@, r.1, shape)
                &&& forall|k: int|
                    0 <= k < r.0 ==> !(#[trigger] bindings[k]).holds || sets_none(
                        bindings[k].shapes@,
                    )
            },
            None => forall|k: int|
                0 <= k < bindings.len() ==> !(#[trigger] bindings[k]).holds || sets_none(
                    bindings[k].shapes@,
                ),
        },
    decreases bindings.len(),
{
    if bindings.len() == 0 {
        (0, 0)
    } else {
        let j = lemma_first_shape(bindings[0].shapes@);
        if bindings[0].holds && first_shape(bindings[0].shapes@) is Some {
            (0, j)
        } else {
            let rest = bindings.skip(1);
            let (i, k) = lemma_first_binding_sets_the_shape(rest);
            assert forall|k: int| 0 < k < bindings.len() implies bindings[k] == rest[k - 1] by {}
            (i + 1, k)
        }
    }
}

/// Mouse actions that ask for a drawing at once get it, and others where the last event
/// lies back by more than fifteen milliseconds, or there was none. Without actions nothing
/// is drawn.
pub proof fn lemma_when_mouse_actions_are_drawn(
    output: MouseActionOutput,
    last: LastMouseEvent,
    now: Time,
)
    requires
        last.time <= now,
    ensures
        !mouse_redraws(None, Some(last), now),
        output.redraw_urgency is Now ==> mouse_redraws(Some(output), Some(last), now),
        output.redraw_urgency is Soon ==> (mouse_redraws(Some(output), Some(last), now) <==> now
            - last.time > 15 * crate::state::MILLISECOND),
        mouse_redraws(Some(output), None, now),
{
}

/// The mouse was used a moment ago where less time than the window has passed since; one
/// that has done nothing was not.
pub proof fn lemma_when_the_mouse_was_used(mouse: MouseState, t: Time, now: Time, window: Time)
    requires
        t <= now,
    ensures
        mouse.last_event_time == Some(t) ==> (mouse.is_recent(now, window) <==> now - t < window),
        mouse.last_event_time is None ==> !mouse.is_recent(now, window),
{
}

} // verus!
