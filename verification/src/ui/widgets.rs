//! The interface's widgets and the shell that routes decoded input to them.
//! Every transition is stated exactly: `sp_ui_chars` folds the escape-decoder
//! over the typed characters, and the widget spec functions mirror each
//! element's reaction to one event.

use vstd::prelude::*;

use crate::ui::base::{InputEvent, ProcessInput, Status};
use crate::ui::cli::{Frame, UiEvent};

verus! {

/// A push button: activation is latched until the shell consumes it.
#[derive(Clone, Copy, Debug, PartialEq, Eq, Structural)]
pub struct Button {
    pub was_activated: bool,
}

/// Enter latches the button; every other event leaves it alone.
pub open spec fn sp_button(b: Button, event: InputEvent) -> Button {
    if event is Enter {
        Button { was_activated: true }
    } else {
        b
    }
}

impl Button {
    /// Reacts to one event, exactly as `sp_button` says.
    pub fn process(&mut self, event: InputEvent)
        ensures
            *final(self) == sp_button(*old(self), event),
    {
        match event {
            InputEvent::Enter => {
                self.was_activated = true;
            },
            _ => {},
        }
    }
}

impl ProcessInput for Button {
    fn process_event(&mut self, event: InputEvent) {
        self.process(event);
    }
}

/// A single-line text input.
pub struct TextField {
    pub text: Vec<char>,
}

/// A character is appended, backspace removes the last character (of an
/// empty field it removes nothing), and every other event changes nothing.
pub open spec fn sp_text_field(text: Seq<char>, event: InputEvent) -> Seq<char> {
    match event {
        InputEvent::Backspace => if text.len() > 0 {
            text.drop_last()
        } else {
            text
        },
        InputEvent::Char(c) => text.push(c),
        _ => text,
    }
}

impl TextField {
    /// Reacts to one event, exactly as `sp_text_field` says.
    pub fn process(&mut self, event: InputEvent)
        ensures
            final(self).text@ == sp_text_field(old(self).text@, event),
    {
        match event {
            InputEvent::Backspace => {
                let _ = self.text.pop();
            },
            InputEvent::Char(c) => {
                self.text.push(c);
            },
            _ => {},
        }
    }
}

impl ProcessInput for TextField {
    fn process_event(&mut self, event: InputEvent) {
        self.process(event);
    }
}

/// A scrollable list: Enter toggles activation, the cursor moves the first
/// visible entry.
#[derive(Clone, Copy, Debug, PartialEq, Eq, Structural)]
pub struct List {
    pub activated: bool,
    pub first: usize,
}

/// Enter toggles activation; the cursor scrolls the window, saturating at
/// both ends; everything else changes nothing.
pub open spec fn sp_list(l: List, event: InputEvent) -> List {
    match event {
        InputEvent::Enter => List { activated: !l.activated, first: l.first },
        InputEvent::CursorUp => if l.first > 0 {
            List { activated: l.activated, first: (l.first - 1) as usize }
        } else {
            l
        },
        InputEvent::CursorDown => if l.first < usize::MAX {
            List { activated: l.activated, first: (l.first + 1) as usize }
        } else {
            l
        },
        _ => l,
    }
}

impl List {
    /// Reacts to one event, exactly as `sp_list` says.
    pub fn process(&mut self, event: InputEvent)
        ensures
            *final(self) == sp_list(*old(self), event),
    {
        match event {
            InputEvent::Enter => {
                self.activated = !self.activated;
            },
            InputEvent::CursorUp => {
                if self.first > 0 {
                    self.first = self.first - 1;
                }
            },
            InputEvent::CursorDown => {
                if self.first < usize::MAX {
                    self.first = self.first + 1;
                }
            },
            _ => {},
        }
    }
}

impl ProcessInput for List {
    fn process_event(&mut self, event: InputEvent) {
        self.process(event);
    }
}

/// The broadcast form: a text field with its send button.
pub struct BroadcastForm {
    pub text_field: TextField,
    pub button: Button,
    pub text_field_status: Status,
}

/// The mathematical content of the form: the typed text, the button latch
/// and the field's status.
pub ghost struct FormView {
    pub text: Seq<char>,
    pub latched: bool,
    pub status: Status,
}

impl View for BroadcastForm {
    type V = FormView;

    open spec fn view(&self) -> FormView {
        FormView {
            text: self.text_field.text@,
            latched: self.button.was_activated,
            status: self.text_field_status,
        }
    }
}

/// Enter fires the button (clearing the text first when the field is not
/// active); every other event goes to the text field.
pub open spec fn sp_form(f: FormView, event: InputEvent) -> FormView {
    match event {
        InputEvent::Enter => FormView {
            text: if !(f.status is Active) {
                Seq::empty()
            } else {
                f.text
            },
            latched: true,
            status: f.status,
        },
        _ => FormView {
            text: sp_text_field(f.text, event),
            latched: f.latched,
            status: f.status,
        },
    }
}

impl BroadcastForm {
    /// Reacts to one event, exactly as `sp_form` says.
    pub fn process(&mut self, event: InputEvent)
        ensures
            final(self)@ == sp_form(old(self)@, event),
    {
        match event {
            InputEvent::Enter => {
                if !matches!(self.text_field_status, Status::Active) {
                    self.text_field.text.clear();
                }
                self.button.process(event);
                proof {
                    assert(self@ =~= sp_form(old(self)@, event)) by {
                        if !(old(self)@.status is Active) {
                            assert(self.text_field.text@ =~= Seq::<char>::empty());
                        }
                    }
                }
            },
            _ => {
                self.text_field.process(event);
            },
        }
    }
}

impl ProcessInput for BroadcastForm {
    fn process_event(&mut self, event: InputEvent) {
        self.process(event);
    }
}

/// The communication tab: the broadcast form and the list of received
/// broadcasts.
pub struct CommTab {
    pub selected_index: u8,
    pub broadcast_form: BroadcastForm,
    pub broadcast_list: List,
}

/// The mathematical content of the tab.
pub ghost struct CommTabView {
    pub selected_index: u8,
    pub form: FormView,
    pub list: List,
}

impl View for CommTab {
    type V = CommTabView;

    open spec fn view(&self) -> CommTabView {
        CommTabView {
            selected_index: self.selected_index,
            form: self.broadcast_form@,
            list: self.broadcast_list,
        }
    }
}

/// Cursor events move the selection while the list is not activated (and
/// scroll the list while it is); everything else goes to the form when it is
/// selected, to the list otherwise.
pub open spec fn sp_comm_tab(ct: CommTabView, event: InputEvent) -> CommTabView {
    match event {
        InputEvent::CursorUp => if !ct.list.activated && ct.selected_index > 0 {
            CommTabView {
                selected_index: (ct.selected_index - 1) as u8,
                form: ct.form,
                list: ct.list,
            }
        } else if ct.list.activated {
            CommTabView {
                selected_index: ct.selected_index,
                form: ct.form,
                list: sp_list(ct.list, event),
            }
        } else {
            ct
        },
        InputEvent::CursorDown => if !ct.list.activated && ct.selected_index < u8::MAX {
            CommTabView {
                selected_index: (ct.selected_index + 1) as u8,
                form: ct.form,
                list: ct.list,
            }
        } else if ct.list.activated {
            CommTabView {
                selected_index: ct.selected_index,
                form: ct.form,
                list: sp_list(ct.list, event),
            }
        } else {
            ct
        },
        _ => if ct.selected_index == 0 {
            CommTabView {
                selected_index: ct.selected_index,
                form: sp_form(ct.form, event),
                list: ct.list,
            }
        } else {
            CommTabView {
                selected_index: ct.selected_index,
                form: ct.form,
                list: sp_list(ct.list, event),
            }
        },
    }
}

impl CommTab {
    pub fn new() -> (r: CommTab)
        ensures
            r.selected_index == 0,
            !r.broadcast_form.button.was_activated,
            r.broadcast_form.text_field.text@.len() == 0,
            r.broadcast_form.text_field_status is Active,
            !r.broadcast_list.activated,
            r.broadcast_list.first == 0,
    {
        CommTab {
            selected_index: 0,
            broadcast_form: BroadcastForm {
                text_field: TextField { text: Vec::new() },
                button: Button { was_activated: false },
                text_field_status: Status::Active,
            },
            broadcast_list: List { activated: false, first: 0 },
        }
    }

    /// Reacts to one event, exactly as `sp_comm_tab` says.
    pub fn process(&mut self, event: InputEvent)
        ensures
            final(self)@ == sp_comm_tab(old(self)@, event),
    {
        match event {
            InputEvent::CursorUp => {
                if !self.broadcast_list.activated && self.selected_index > 0 {
                    self.selected_index = self.selected_index - 1;
                } else if self.broadcast_list.activated {
                    self.broadcast_list.process(event);
                }
            },
            InputEvent::CursorDown => {
                if !self.broadcast_list.activated && self.selected_index < u8::MAX {
                    self.selected_index = self.selected_index + 1;
                } else if self.broadcast_list.activated {
                    self.broadcast_list.process(event);
                }
            },
            _ => {
                if self.selected_index == 0 {
                    self.broadcast_form.process(event);
                } else {
                    self.broadcast_list.process(event);
                }
            },
        }
    }

    /// Feeds a character to the selected element.
    pub fn process_char(&mut self, c: char)
        ensures
            final(self)@ == sp_comm_tab(old(self)@, InputEvent::Char(c)),
    {
        self.process(InputEvent::Char(c));
    }

    /// Moves or forwards a decoded cursor event.
    pub fn process_cursor(&mut self, event: InputEvent)
        ensures
            final(self)@ == sp_comm_tab(old(self)@, event),
    {
        self.process(event);
    }
}

impl ProcessInput for CommTab {
    fn process_event(&mut self, event: InputEvent) {
        self.process(event);
    }
}

/// The tab strip; only the communication tab exists today.
pub struct TabSwitcher {
    pub comm_tab: CommTab,
}

impl ProcessInput for TabSwitcher {
    fn process_event(&mut self, event: InputEvent) {
        self.comm_tab.process(event);
    }
}

/// The main body of the interface.
pub struct MainSection {
    pub tab_switcher: TabSwitcher,
    pub width: u16,
    pub height: u16,
}

impl ProcessInput for MainSection {
    fn process_event(&mut self, event: InputEvent) {
        self.tab_switcher.process_event(event);
    }
}

/// The one-line status area under the main section.
pub struct InfoSection {
    pub width: u16,
    pub height: u16,
}

/// How raw characters are being decoded right now.
#[derive(Clone, Copy, Debug, PartialEq, Eq, Structural)]
pub enum TextInputMode {
    Regular,
    Escape,
    Cursor,
}

/// The interface shell: decodes escape sequences, routes events into the
/// widgets, and turns the broadcast form's activation into commands.
pub struct Ui {
    pub comm_tab: CommTab,
    pub mode: TextInputMode,
}

/// The mathematical content of the shell.
pub ghost struct UiView {
    pub mode: TextInputMode,
    pub tab: CommTabView,
}

impl View for Ui {
    type V = UiView;

    open spec fn view(&self) -> UiView {
        UiView { mode: self.mode, tab: self.comm_tab@ }
    }
}

/// One character of the escape decoder: in regular mode, escape switches
/// modes and anything else is typed into the tab; after an escape only `[`
/// continues the sequence; in cursor mode `A`, `B`, `C` and `D` become the
/// four cursor events and anything else is dropped, and decoding returns to
/// regular mode.
pub open spec fn sp_ui_char(u: UiView, c: char) -> UiView {
    match u.mode {
        TextInputMode::Regular => if c == '\u{1b}' {
            UiView { mode: TextInputMode::Escape, tab: u.tab }
        } else {
            UiView { mode: TextInputMode::Regular, tab: sp_comm_tab(u.tab, InputEvent::Char(c)) }
        },
        TextInputMode::Escape => UiView {
            mode: if c == '[' {
                TextInputMode::Cursor
            } else {
                TextInputMode::Regular
            },
            tab: u.tab,
        },
        TextInputMode::Cursor => UiView {
            mode: TextInputMode::Regular,
            tab: if c == 'A' {
                sp_comm_tab(u.tab, InputEvent::CursorUp)
            } else if c == 'B' {
                sp_comm_tab(u.tab, InputEvent::CursorDown)
            } else if c == 'C' {
                sp_comm_tab(u.tab, InputEvent::CursorRight)
            } else if c == 'D' {
                sp_comm_tab(u.tab, InputEvent::CursorLeft)
            } else {
                u.tab
            },
        },
    }
}

/// The escape decoder folded over a whole character run.
pub open spec fn sp_ui_chars(u: UiView, cs: Seq<char>) -> UiView
    decreases cs.len(),
{
    if cs.len() == 0 {
        u
    } else {
        sp_ui_chars(sp_ui_char(u, cs[0]), cs.drop_first())
    }
}

/// Decoding one more character folds onto the state so far.
proof fn lemma_ui_chars_snoc(u: UiView, cs: Seq<char>, c: char)
    ensures
        sp_ui_chars(u, cs.push(c)) == sp_ui_char(sp_ui_chars(u, cs), c),
    decreases cs.len(),
{
    if cs.len() == 0 {
        assert(cs.push(c)[0] == c);
        assert(cs.push(c).drop_first() =~= Seq::<char>::empty());
        assert(sp_ui_chars(u, cs.push(c)) == sp_ui_chars(sp_ui_char(u, c), cs.push(
            c,
        ).drop_first()));
        assert(sp_ui_chars(sp_ui_char(u, c), Seq::<char>::empty()) == sp_ui_char(u, c));
        assert(sp_ui_chars(u, cs) == u);
    } else {
        assert(cs.push(c)[0] == cs[0]);
        assert(cs.push(c).drop_first() =~= cs.drop_first().push(c));
        assert(sp_ui_chars(u, cs.push(c)) == sp_ui_chars(
            sp_ui_char(u, cs[0]),
            cs.drop_first().push(c),
        ));
        assert(sp_ui_chars(u, cs) == sp_ui_chars(sp_ui_char(u, cs[0]), cs.drop_first()));
        lemma_ui_chars_snoc(sp_ui_char(u, cs[0]), cs.drop_first(), c);
    }
}

/// Whether the frame shows a live broadcast from this client's own ship.
pub open spec fn sp_own_broadcast_live(frame: Frame) -> bool {
    match frame.ship_id {
        Option::Some(own) => exists|j: int|
            0 <= j < frame.broadcasts@.len() && (#[trigger] frame.broadcasts@[j]).sender == own,
        Option::None => false,
    }
}

impl Ui {
    pub fn new() -> (r: Ui)
        ensures
            r.mode == TextInputMode::Regular,
            !r.comm_tab.broadcast_form.button.was_activated,
    {
        Ui { comm_tab: CommTab::new(), mode: TextInputMode::Regular }
    }

    /// Decodes the frame's characters (escape sequences included) through
    /// `sp_ui_chars`, then turns the broadcast form's latched activation
    /// into one command: stop when this client already has a live broadcast,
    /// otherwise start with the form's text. The latch ends cleared, and
    /// nothing else of the decoded state changes.
    pub fn process_input(&mut self, frame: &Frame, chars: &[char]) -> (r: Vec<UiEvent>)
        ensures
            ({
                let mid = sp_ui_chars(old(self)@, chars@);
                &&& final(self).mode == mid.mode
                &&& final(self)@.tab == (CommTabView {
                    selected_index: mid.tab.selected_index,
                    form: FormView {
                        text: mid.tab.form.text,
                        latched: false,
                        status: mid.tab.form.status,
                    },
                    list: mid.tab.list,
                })
                &&& (if mid.tab.form.latched {
                    if sp_own_broadcast_live(*frame) {
                        r@.len() == 1 && r@[0] is StopBroadcast
                    } else {
                        r@.len() == 1 && (r@[0] matches UiEvent::StartBroadcast(t) && t@
                            == mid.tab.form.text)
                    }
                } else {
                    r@.len() == 0
                })
            }),
    {
        let n = chars.len();
        let mut k: usize = 0;
        while k < n
            invariant
                k <= n,
                n == chars@.len(),
                self@ == sp_ui_chars(old(self)@, chars@.take(k as int)),
            decreases n - k,
        {
            let c = chars[k];
            match self.mode {
                TextInputMode::Regular => {
                    if c == '\u{1b}' {
                        self.mode = TextInputMode::Escape;
                    } else {
                        self.comm_tab.process_char(c);
                    }
                },
                TextInputMode::Escape => {
                    if c == '[' {
                        self.mode = TextInputMode::Cursor;
                    } else {
                        self.mode = TextInputMode::Regular;
                    }
                },
                TextInputMode::Cursor => {
                    if c == 'A' {
                        self.comm_tab.process_cursor(InputEvent::CursorUp);
                    } else if c == 'B' {
                        self.comm_tab.process_cursor(InputEvent::CursorDown);
                    } else if c == 'C' {
                        self.comm_tab.process_cursor(InputEvent::CursorRight);
                    } else if c == 'D' {
                        self.comm_tab.process_cursor(InputEvent::CursorLeft);
                    }
                    self.mode = TextInputMode::Regular;
                },
            }
            k += 1;
            proof {
                assert(chars@.take(k as int - 1).push(chars@[k as int - 1]) =~= chars@.take(
                    k as int,
                ));
                lemma_ui_chars_snoc(old(self)@, chars@.take(k as int - 1), chars@[k as int - 1]);
            }
        }
        proof {
            assert(chars@.take(n as int) =~= chars@);
        }
        let mut events: Vec<UiEvent> = Vec::new();
        let is_sending = match frame.ship_id {
            Some(own) => {
                let mut sending = false;
                let m = frame.broadcasts.len();
                let mut j: usize = 0;
                while j < m
                    invariant
                        j <= m,
                        m == frame.broadcasts@.len(),
                        sending == exists|i: int|
                            0 <= i < j && (#[trigger] frame.broadcasts@[i]).sender == own,
                    decreases m - j,
                {
                    if frame.broadcasts[j].sender == own {
                        sending = true;
                    }
                    j += 1;
                }
                sending
            },
            None => false,
        };
        assert(is_sending == sp_own_broadcast_live(*frame));
        if self.comm_tab.broadcast_form.button.was_activated {
            self.comm_tab.broadcast_form.button.was_activated = false;
            if is_sending {
                events.push(UiEvent::StopBroadcast);
            } else {
                let text = crate::text::chars_to_string(
                    clone_chars(&self.comm_tab.broadcast_form.text_field.text),
                );
                events.push(UiEvent::StartBroadcast(text));
            }
        }
        events
    }
}

/// A copy of a character vector.
pub fn clone_chars(v: &Vec<char>) -> (r: Vec<char>)
    ensures
        r@ == v@,
{
    let mut r: Vec<char> = Vec::new();
    let n = v.len();
    let mut k: usize = 0;
    while k < n
        invariant
            k <= n,
            n == v@.len(),
            r@ =~= v@.take(k as int),
        decreases n - k,
    {
        r.push(v[k]);
        k += 1;
        proof {
            assert(r@ =~= v@.take(k as int));
        }
    }
    proof {
        assert(v@.take(n as int) =~= v@);
    }
    r
}

} // verus!
