//! The keyboard side of the TEC monitor: which parameter is selected, the
//! edit field, the step size, the status line, and what each key asks the
//! monitor to do. The numbers themselves (set point, gains, limits) are
//! floats and are changed by the caller when a key asks for it.

use vstd::prelude::*;
use crate::number::{is_float_literal, float_literal_chars};
use crate::text::string_from_chars;
use crate::history::{History, pushed_bounded, newest, lemma_push_keeps_newest};

verus! {

/// The six configuration parameters, in the order the monitor lists them.
#[derive(Clone, Copy, PartialEq, Eq, Structural, Debug)]
pub enum EditField {
    TSet,
    P,
    I,
    D,
    TMin,
    TMax,
}

/// The parameter at list position `i`; positions past the list give the
/// set point.
pub open spec fn field_at(i: nat) -> EditField {
    if i == 0 {
        EditField::TSet
    } else if i == 1 {
        EditField::P
    } else if i == 2 {
        EditField::I
    } else if i == 3 {
        EditField::D
    } else if i == 4 {
        EditField::TMin
    } else if i == 5 {
        EditField::TMax
    } else {
        EditField::TSet
    }
}

/// The list position of `f`.
pub open spec fn position_of(f: EditField) -> nat {
    match f {
        EditField::TSet => 0,
        EditField::P => 1,
        EditField::I => 2,
        EditField::D => 3,
        EditField::TMin => 4,
        EditField::TMax => 5,
    }
}

/// The label the monitor shows for `f`.
pub open spec fn field_label(f: EditField) -> Seq<char> {
    match f {
        EditField::TSet => "Set Temp"@,
        EditField::P => "P Gain"@,
        EditField::I => "I Gain"@,
        EditField::D => "D Gain"@,
        EditField::TMin => "T Min"@,
        EditField::TMax => "T Max"@,
    }
}

/// Which step a parameter is adjusted by: the user's temperature step, the
/// gain step (0.01), or the limit step (1 degree).
#[derive(Clone, Copy, PartialEq, Eq, Structural, Debug)]
pub enum StepClass {
    Temperature,
    Gain,
    Limit,
}

/// The step class of `f`.
pub open spec fn step_class_of(f: EditField) -> StepClass {
    match f {
        EditField::TSet => StepClass::Temperature,
        EditField::P | EditField::I | EditField::D => StepClass::Gain,
        EditField::TMin | EditField::TMax => StepClass::Limit,
    }
}

impl EditField {
    /// The label the monitor shows for this parameter.
    pub fn label(&self) -> (s: &'static str)
        ensures
            s@ == field_label(*self),
    {
        match self {
            EditField::TSet => "Set Temp",
            EditField::P => "P Gain",
            EditField::I => "I Gain",
            EditField::D => "D Gain",
            EditField::TMin => "T Min",
            EditField::TMax => "T Max",
        }
    }

    /// The parameter at list position `i` (the set point past the list).
    pub fn from_index(i: usize) -> (f: EditField)
        ensures
            f == field_at(i as nat),
    {
        match i {
            0 => EditField::TSet,
            1 => EditField::P,
            2 => EditField::I,
            3 => EditField::D,
            4 => EditField::TMin,
            5 => EditField::TMax,
            _ => EditField::TSet,
        }
    }

    /// The list position of this parameter.
    pub fn index(&self) -> (i: usize)
        ensures
            i as nat == position_of(*self),
    {
        match self {
            EditField::TSet => 0,
            EditField::P => 1,
            EditField::I => 2,
            EditField::D => 3,
            EditField::TMin => 4,
            EditField::TMax => 5,
        }
    }

    /// Which step this parameter is adjusted by.
    pub fn step_class(&self) -> (c: StepClass)
        ensures
            c == step_class_of(*self),
    {
        match self {
            EditField::TSet => StepClass::Temperature,
            EditField::P | EditField::I | EditField::D => StepClass::Gain,
            EditField::TMin | EditField::TMax => StepClass::Limit,
        }
    }
}

/// The temperature steps the number keys choose: 0.1, 0.5, 1 and 5 degrees.
#[derive(Clone, Copy, PartialEq, Eq, Structural, Debug)]
pub enum StepSize {
    Tenth,
    Half,
    One,
    Five,
}

/// The status line shown when `step` is chosen.
pub open spec fn step_message(step: StepSize) -> Seq<char> {
    match step {
        StepSize::Tenth => "Step: 0.1°C"@,
        StepSize::Half => "Step: 0.5°C"@,
        StepSize::One => "Step: 1.0°C"@,
        StepSize::Five => "Step: 5.0°C"@,
    }
}

fn step_message_text(step: StepSize) -> (s: String)
    ensures
        s@ == step_message(step),
{
    match step {
        StepSize::Tenth => String::from_str("Step: 0.1°C"),
        StepSize::Half => String::from_str("Step: 0.5°C"),
        StepSize::One => String::from_str("Step: 1.0°C"),
        StepSize::Five => String::from_str("Step: 5.0°C"),
    }
}

/// The panes of the monitor that Tab moves the focus between: the
/// parameter list and the charts.
#[derive(Clone, Copy, PartialEq, Eq, Structural, Debug)]
pub enum Pane {
    Parameters,
    Charts,
}

/// The pane after `p` in the Tab order.
pub open spec fn next_pane(p: Pane) -> Pane {
    match p {
        Pane::Parameters => Pane::Charts,
        Pane::Charts => Pane::Parameters,
    }
}

/// Whether the monitor is navigating or typing a value.
#[derive(Clone, Copy, PartialEq, Eq, Structural, Debug)]
pub enum InputMode {
    Normal,
    Editing,
}

/// The keys the monitor tells apart.
#[derive(Clone, Copy, PartialEq, Eq, Structural, Debug)]
pub enum Key {
    Up,
    Down,
    Left,
    Right,
    Enter,
    Esc,
    Backspace,
    Tab,
    Char(char),
    Other,
}

/// The two TEC output commands the monitor sends.
#[derive(Clone, Copy, PartialEq, Eq, Structural, Debug)]
pub enum TecCommand {
    Enable,
    Disable,
}

/// What the caller has to do after a key.
#[derive(Debug)]
pub enum KeyAction {
    /// Nothing.
    Nothing,
    /// Shut the worker down and leave.
    Quit,
    /// Raise the given parameter by its step. Unless it is the set point,
    /// the configuration is already marked pending.
    Increment(EditField),
    /// Lower the given parameter by its step. Unless it is the set point,
    /// the configuration is already marked pending.
    Decrement(EditField),
    /// Set the given parameter to the float literal typed. Unless it is the
    /// set point, the configuration is already marked pending.
    Commit(EditField, String),
    /// Send the given TEC command; confirm with [`AppState::confirm_tec_toggle`]
    /// once it has been sent.
    Toggle(TecCommand),
    /// The configuration was marked pending: restart the debounce delay,
    /// after which it is sent.
    Apply,
}

/// What a [`KeyAction`] asks for.
pub enum KeyActionView {
    Nothing,
    Quit,
    Increment(EditField),
    Decrement(EditField),
    Commit(EditField, Seq<char>),
    Toggle(TecCommand),
    Apply,
}

impl View for KeyAction {
    type V = KeyActionView;

    open spec fn view(&self) -> KeyActionView {
        match self {
            KeyAction::Nothing => KeyActionView::Nothing,
            KeyAction::Quit => KeyActionView::Quit,
            KeyAction::Increment(f) => KeyActionView::Increment(*f),
            KeyAction::Decrement(f) => KeyActionView::Decrement(*f),
            KeyAction::Commit(f, s) => KeyActionView::Commit(*f, s@),
            KeyAction::Toggle(c) => KeyActionView::Toggle(*c),
            KeyAction::Apply => KeyActionView::Apply,
        }
    }
}

/// The keyboard state of the monitor.
pub struct AppState {
    input_mode: InputMode,
    edit_value: Vec<char>,
    selected: usize,
    tec_enabled: bool,
    status_message: Option<String>,
    temp_step: StepSize,
    needs_redraw: bool,
    pending_config: bool,
    focus: Pane,
}

/// What an [`AppState`] holds.
pub struct AppStateView {
    pub mode: InputMode,
    pub field: EditField,
    pub edit: Seq<char>,
    pub selected: nat,
    pub tec_enabled: bool,
    pub status: Option<Seq<char>>,
    pub step: StepSize,
    pub redraw: bool,
    pub pending: bool,
    pub focus: Pane,
}

impl View for AppState {
    type V = AppStateView;

    closed spec fn view(&self) -> AppStateView {
        AppStateView {
            mode: self.input_mode,
            field: field_at(self.selected as nat),
            edit: self.edit_value@,
            selected: self.selected as nat,
            tec_enabled: self.tec_enabled,
            status: match self.status_message {
                Some(s) => Some(s@),
                None => None,
            },
            step: self.temp_step,
            redraw: self.needs_redraw,
            pending: self.pending_config,
            focus: self.focus,
        }
    }
}

/// The selection stays in the list and the field being edited is the one
/// selected.
pub open spec fn state_wf(s: AppStateView) -> bool {
    s.selected <= 5 && s.field == field_at(s.selected)
}

/// The state with `i` selected.
pub open spec fn with_selected(s: AppStateView, i: nat) -> AppStateView {
    AppStateView { selected: i, field: field_at(i), redraw: true, ..s }
}

/// The selection above `i`, wrapping from the top to the bottom.
pub open spec fn above(i: nat) -> nat {
    if i == 0 { 5 } else { (i - 1) as nat }
}

/// The selection below `i`, wrapping from the bottom to the top.
pub open spec fn below(i: nat) -> nat {
    if i >= 5 { 0 } else { i + 1 }
}

/// The command that flips the TEC output from `enabled`.
pub open spec fn toggle_command(enabled: bool) -> TecCommand {
    if enabled { TecCommand::Disable } else { TecCommand::Enable }
}

/// The state after choosing the temperature step `step`.
pub open spec fn with_step(s: AppStateView, step: StepSize) -> AppStateView {
    AppStateView { step, status: Some(step_message(step)), redraw: true, ..s }
}

/// The state after leaving the edit field.
pub open spec fn leave_editing(s: AppStateView) -> AppStateView {
    AppStateView { mode: InputMode::Normal, edit: Seq::empty(), redraw: true, ..s }
}

/// The state once the configuration is marked pending: it is sent when the
/// debounce delay after this last change has passed.
pub open spec fn applied(s: AppStateView) -> AppStateView {
    AppStateView { pending: true, redraw: true, ..s }
}

/// The state once the selected parameter was given a new value. A change of
/// P, I, D or a limit marks the configuration pending at once; a change of
/// the set point is marked by the caller, and only where the clamped value
/// moved, which takes the floats.
pub open spec fn changed(s: AppStateView) -> AppStateView {
    if s.field == EditField::TSet { s } else { applied(s) }
}

/// What a key does in navigation mode.
pub open spec fn normal_key(s: AppStateView, key: Key) -> (AppStateView, KeyActionView) {
    match key {
        Key::Up => (with_selected(s, above(s.selected)), KeyActionView::Nothing),
        Key::Down => (with_selected(s, below(s.selected)), KeyActionView::Nothing),
        Key::Right => (changed(s), KeyActionView::Increment(s.field)),
        Key::Left => (changed(s), KeyActionView::Decrement(s.field)),
        Key::Enter => (
            AppStateView { mode: InputMode::Editing, edit: Seq::empty(), redraw: true, ..s },
            KeyActionView::Nothing,
        ),
        Key::Char(c) => if c == '+' || c == '=' {
            (changed(s), KeyActionView::Increment(s.field))
        } else if c == '-' || c == '_' {
            (changed(s), KeyActionView::Decrement(s.field))
        } else if c == 'e' {
            (
                AppStateView { mode: InputMode::Editing, edit: Seq::empty(), redraw: true, ..s },
                KeyActionView::Nothing,
            )
        } else if c == ' ' {
            (s, KeyActionView::Toggle(toggle_command(s.tec_enabled)))
        } else if c == 'a' {
            (applied(s), KeyActionView::Apply)
        } else if c == '1' {
            (with_step(s, StepSize::Tenth), KeyActionView::Nothing)
        } else if c == '2' {
            (with_step(s, StepSize::Half), KeyActionView::Nothing)
        } else if c == '3' {
            (with_step(s, StepSize::One), KeyActionView::Nothing)
        } else if c == '5' {
            (with_step(s, StepSize::Five), KeyActionView::Nothing)
        } else {
            (s, KeyActionView::Nothing)
        },
        Key::Tab => (AppStateView { focus: next_pane(s.focus), redraw: true, ..s }, KeyActionView::Nothing),
        _ => (s, KeyActionView::Nothing),
    }
}

/// What a key does while a value is typed.
pub open spec fn editing_key(s: AppStateView, key: Key) -> (AppStateView, KeyActionView) {
    match key {
        Key::Enter => if is_float_literal(s.edit) {
            (changed(leave_editing(s)), KeyActionView::Commit(s.field, s.edit))
        } else {
            (AppStateView { status: Some("Invalid value"@), ..leave_editing(s) }, KeyActionView::Nothing)
        },
        Key::Esc => (leave_editing(s), KeyActionView::Nothing),
        Key::Char(c) => (AppStateView { edit: s.edit.push(c), redraw: true, ..s }, KeyActionView::Nothing),
        Key::Backspace => (
            AppStateView {
                edit: if s.edit.len() > 0 { s.edit.drop_last() } else { s.edit },
                redraw: true,
                ..s
            },
            KeyActionView::Nothing,
        ),
        _ => (s, KeyActionView::Nothing),
    }
}

/// What a key does.
pub open spec fn key_step(s: AppStateView, key: Key) -> (AppStateView, KeyActionView) {
    match s.mode {
        InputMode::Normal => normal_key(s, key),
        InputMode::Editing => editing_key(s, key),
    }
}

/// What a key press does in the monitor's main loop: `q` quits in either
/// mode, any other key is handled.
pub open spec fn key_press_step(s: AppStateView, key: Key) -> (AppStateView, KeyActionView) {
    if key == Key::Char('q') {
        (s, KeyActionView::Quit)
    } else {
        key_step(s, key)
    }
}

/// A copy of the first `n` characters of `v`.
fn copy_prefix(v: &Vec<char>, n: usize) -> (r: Vec<char>)
    requires
        n <= v.len(),
    ensures
        r@ == v@.take(n as int),
{
    let mut r: Vec<char> = Vec::new();
    let mut k: usize = 0;
    while k < n
        invariant
            k <= n <= v.len(),
            r@ == v@.take(k as int),
        decreases n - k,
    {
        r.push(v[k]);
        assert(v@.take(k + 1) =~= v@.take(k as int).push(v@[k as int]));
        k = k + 1;
    }
    r
}

/// `v` with `c` added at the end.
fn with_pushed(v: &Vec<char>, c: char) -> (r: Vec<char>)
    ensures
        r@ == v@.push(c),
{
    let mut r = copy_prefix(v, v.len());
    assert(v@.take(v.len() as int) =~= v@);
    r.push(c);
    r
}

/// `v` without its last character, if it has one.
fn without_last(v: &Vec<char>) -> (r: Vec<char>)
    ensures
        r@ == (if v@.len() > 0 { v@.drop_last() } else { v@ }),
{
    if v.len() == 0 {
        Vec::new()
    } else {
        let r = copy_prefix(v, v.len() - 1);
        assert(v@.take(v.len() - 1) =~= v@.drop_last());
        r
    }
}

impl AppState {
    /// The selection stays within the six parameters.
    #[verifier::type_invariant]
    spec fn selection_in_list(&self) -> bool {
        self.selected <= 5
    }

    /// The parameter selected.
    pub fn edit_field(&self) -> (f: EditField)
        ensures
            f == self@.field,
    {
        EditField::from_index(self.selected)
    }

    /// The state the monitor starts in: navigating, the set point selected,
    /// the TEC off, a 0.5 degree step, a redraw due, nothing pending.
    pub fn new() -> (s: AppState)
        ensures
            s@.mode == InputMode::Normal,
            s@.field == EditField::TSet,
            s@.edit == Seq::<char>::empty(),
            s@.selected == 0,
            !s@.tec_enabled,
            s@.status is None,
            s@.step == StepSize::Half,
            s@.redraw,
            !s@.pending,
            s@.focus == Pane::Parameters,
            state_wf(s@),
    {
        AppState {
            input_mode: InputMode::Normal,
            edit_value: Vec::new(),
            selected: 0,
            tec_enabled: false,
            status_message: None,
            temp_step: StepSize::Half,
            needs_redraw: true,
            pending_config: false,
            focus: Pane::Parameters,
        }
    }

    fn select(&mut self, i: usize)
        requires
            i <= 5,
        ensures
            final(self)@ == with_selected(old(self)@, i as nat),
    {
        self.selected = i;
        self.needs_redraw = true;
    }

    fn choose_step(&mut self, step: StepSize)
        ensures
            final(self)@ == with_step(old(self)@, step),
    {
        proof {
            use_type_invariant(&*self);
        }
        self.temp_step = step;
        self.status_message = Some(step_message_text(step));
        self.needs_redraw = true;
    }

    fn start_editing(&mut self)
        ensures
            final(self)@ == (AppStateView {
                mode: InputMode::Editing,
                edit: Seq::empty(),
                redraw: true,
                ..old(self)@
            }),
    {
        proof {
            use_type_invariant(&*self);
        }
        self.input_mode = InputMode::Editing;
        self.edit_value = Vec::new();
        self.needs_redraw = true;
    }

    fn stop_editing(&mut self)
        ensures
            final(self)@ == leave_editing(old(self)@),
    {
        proof {
            use_type_invariant(&*self);
        }
        self.input_mode = InputMode::Normal;
        self.edit_value = Vec::new();
        self.needs_redraw = true;
    }

    /// Marks the configuration pending where the selected parameter is not
    /// the set point, and gives that parameter.
    fn mark_changed(&mut self) -> (f: EditField)
        ensures
            final(self)@ == changed(old(self)@),
            f == old(self)@.field,
    {
        let field = self.edit_field();
        if field != EditField::TSet {
            self.apply_configuration();
        }
        field
    }

    /// Handles one key: moves the selection, enters or leaves the edit
    /// field, types, chooses the step, marks the configuration pending where
    /// P, I, D or a limit is raised, lowered or given a value, and says what
    /// the caller must do.
    pub fn handle_key_input(&mut self, key: Key) -> (action: KeyAction)
        ensures
            (final(self)@, action@) == key_step(old(self)@, key),
            state_wf(old(self)@),
            state_wf(final(self)@),
    {
        proof {
            use_type_invariant(&*self);
        }
        match self.input_mode {
            InputMode::Normal => match key {
                Key::Up => {
                    let i = if self.selected == 0 { 5 } else { self.selected - 1 };
                    self.select(i);
                    KeyAction::Nothing
                },
                Key::Down => {
                    let i = if self.selected >= 5 { 0 } else { self.selected + 1 };
                    self.select(i);
                    KeyAction::Nothing
                },
                Key::Right => {
                    let field = self.mark_changed();
                    KeyAction::Increment(field)
                },
                Key::Left => {
                    let field = self.mark_changed();
                    KeyAction::Decrement(field)
                },
                Key::Enter => {
                    self.start_editing();
                    KeyAction::Nothing
                },
                Key::Char(c) => {
                    if c == '+' || c == '=' {
                        let field = self.mark_changed();
                        KeyAction::Increment(field)
                    } else if c == '-' || c == '_' {
                        let field = self.mark_changed();
                        KeyAction::Decrement(field)
                    } else if c == 'e' {
                        self.start_editing();
                        KeyAction::Nothing
                    } else if c == ' ' {
                        KeyAction::Toggle(
                            if self.tec_enabled {
                                TecCommand::Disable
                            } else {
                                TecCommand::Enable
                            },
                        )
                    } else if c == 'a' {
                        self.apply_configuration();
                        KeyAction::Apply
                    } else if c == '1' {
                        self.choose_step(StepSize::Tenth);
                        KeyAction::Nothing
                    } else if c == '2' {
                        self.choose_step(StepSize::Half);
                        KeyAction::Nothing
                    } else if c == '3' {
                        self.choose_step(StepSize::One);
                        KeyAction::Nothing
                    } else if c == '5' {
                        self.choose_step(StepSize::Five);
                        KeyAction::Nothing
                    } else {
                        KeyAction::Nothing
                    }
                },
                Key::Tab => {
                    proof {
                        use_type_invariant(&*self);
                    }
                    self.focus = match self.focus {
                        Pane::Parameters => Pane::Charts,
                        Pane::Charts => Pane::Parameters,
                    };
                    self.needs_redraw = true;
                    KeyAction::Nothing
                },
                _ => KeyAction::Nothing,
            },
            InputMode::Editing => match key {
                Key::Enter => {
                    let field = self.edit_field();
                    if float_literal_chars(&self.edit_value) {
                        let text = string_from_chars(&self.edit_value);
                        self.stop_editing();
                        self.mark_changed();
                        KeyAction::Commit(field, text)
                    } else {
                        self.stop_editing();
                        self.status_message = Some(String::from_str("Invalid value"));
                        KeyAction::Nothing
                    }
                },
                Key::Esc => {
                    self.stop_editing();
                    KeyAction::Nothing
                },
                Key::Char(c) => {
                    self.edit_value = with_pushed(&self.edit_value, c);
                    self.needs_redraw = true;
                    KeyAction::Nothing
                },
                Key::Backspace => {
                    self.edit_value = without_last(&self.edit_value);
                    self.needs_redraw = true;
                    KeyAction::Nothing
                },
                _ => KeyAction::Nothing,
            },
        }
    }

    /// Handles one key press of the main loop: `q` quits, in either mode;
    /// any other key goes to [`AppState::handle_key_input`].
    pub fn handle_key_press(&mut self, key: Key) -> (action: KeyAction)
        ensures
            (final(self)@, action@) == key_press_step(old(self)@, key),
            state_wf(old(self)@),
            state_wf(final(self)@),
    {
        proof {
            use_type_invariant(&*self);
        }
        if key == Key::Char('q') {
            KeyAction::Quit
        } else {
            self.handle_key_input(key)
        }
    }

    /// Records that the TEC command from a space key was sent: the output
    /// flag flips and the status line says so.
    pub fn confirm_tec_toggle(&mut self)
        ensures
            final(self)@ == toggled(old(self)@),
    {
        proof {
            use_type_invariant(&*self);
        }
        self.tec_enabled = !self.tec_enabled;
        self.status_message = Some(
            if self.tec_enabled {
                String::from_str("TEC ENABLED")
            } else {
                String::from_str("TEC DISABLED")
            },
        );
        self.needs_redraw = true;
    }

    /// Marks the configuration as changed: it is sent once the debounce
    /// delay has passed since this last change.
    pub fn apply_configuration(&mut self)
        ensures
            final(self)@ == applied(old(self)@),
    {
        proof {
            use_type_invariant(&*self);
        }
        self.pending_config = true;
        self.needs_redraw = true;
    }

    /// Whether the pending configuration is due: it is pending and
    /// `elapsed_ms` milliseconds (at least 150) have passed since the last
    /// change.
    pub fn config_due(&self, elapsed_ms: u64) -> (r: bool)
        ensures
            r == (self@.pending && elapsed_ms >= 150),
    {
        self.pending_config && elapsed_ms >= 150
    }

    /// Records that the pending configuration was handed to the worker.
    pub fn config_sent(&mut self)
        ensures
            final(self)@ == (AppStateView { pending: false, ..old(self)@ }),
    {
        proof {
            use_type_invariant(&*self);
        }
        self.pending_config = false;
    }

    /// Shows an error reported by the worker: `Error: ` and the message.
    pub fn show_error(&mut self, msg: &str)
        ensures
            final(self)@ == (AppStateView {
                status: Some("Error: "@ + msg@),
                redraw: true,
                ..old(self)@
            }),
    {
        proof {
            use_type_invariant(&*self);
        }
        let mut m = String::new();
        m.append("Error: ");
        m.append(msg);
        self.status_message = Some(m);
        self.needs_redraw = true;
    }

    /// Shows a status line, as given.
    pub fn show_status(&mut self, msg: &str)
        ensures
            final(self)@ == (AppStateView { status: Some(msg@), redraw: true, ..old(self)@ }),
    {
        proof {
            use_type_invariant(&*self);
        }
        self.status_message = Some(String::from_str(msg));
        self.needs_redraw = true;
    }

    /// Asks for a redraw.
    pub fn request_redraw(&mut self)
        ensures
            final(self)@ == (AppStateView { redraw: true, ..old(self)@ }),
    {
        proof {
            use_type_invariant(&*self);
        }
        self.needs_redraw = true;
    }

    /// Records that the screen was drawn.
    pub fn redrawn(&mut self)
        ensures
            final(self)@ == (AppStateView { redraw: false, ..old(self)@ }),
    {
        proof {
            use_type_invariant(&*self);
        }
        self.needs_redraw = false;
    }

    /// The input mode.
    pub fn input_mode(&self) -> (m: InputMode)
        ensures
            m == self@.mode,
    {
        self.input_mode
    }

    /// The text typed in the edit field.
    pub fn edit_text(&self) -> (t: String)
        ensures
            t@ == self@.edit,
    {
        string_from_chars(&self.edit_value)
    }

    /// The list position selected.
    pub fn selected(&self) -> (i: usize)
        ensures
            i as nat == self@.selected,
            i <= 5,
            state_wf(self@),
    {
        proof {
            use_type_invariant(self);
        }
        self.selected
    }

    /// The TEC command that flips the output from what the monitor knows:
    /// disable when it is on, enable when it is off. Once the command has
    /// been sent, [`AppState::confirm_tec_toggle`] records it; a command
    /// that could not be sent leaves the state as it is.
    pub fn toggle_command(&self) -> (c: TecCommand)
        ensures
            c == toggle_command(self@.tec_enabled),
    {
        if self.tec_enabled {
            TecCommand::Disable
        } else {
            TecCommand::Enable
        }
    }

    /// The pane that has the focus.
    pub fn focus(&self) -> (p: Pane)
        ensures
            p == self@.focus,
    {
        self.focus
    }

    /// Whether the TEC output is on, as far as the monitor knows.
    pub fn tec_enabled(&self) -> (b: bool)
        ensures
            b == self@.tec_enabled,
    {
        self.tec_enabled
    }

    /// The status line.
    pub fn status_message(&self) -> (m: Option<&String>)
        ensures
            match m {
                Some(s) => self@.status == Some(s@),
                None => self@.status is None,
            },
    {
        match &self.status_message {
            Some(s) => Some(s),
            None => None,
        }
    }

    /// The temperature step chosen.
    pub fn temp_step(&self) -> (s: StepSize)
        ensures
            s == self@.step,
    {
        self.temp_step
    }

    /// Whether a redraw is due.
    pub fn needs_redraw(&self) -> (b: bool)
        ensures
            b == self@.redraw,
    {
        self.needs_redraw
    }

    /// Whether a configuration change waits to be sent.
    pub fn pending_config(&self) -> (b: bool)
        ensures
            b == self@.pending,
    {
        self.pending_config
    }
}

/// The state once a TEC command from the space key went out.
pub open spec fn toggled(s: AppStateView) -> AppStateView {
    AppStateView {
        tec_enabled: !s.tec_enabled,
        status: Some(tec_status_message(!s.tec_enabled)),
        redraw: true,
        ..s
    }
}

/// The status line after the TEC output was turned on or off.
pub open spec fn tec_status_message(enabled: bool) -> Seq<char> {
    if enabled { "TEC ENABLED"@ } else { "TEC DISABLED"@ }
}

impl TecCommand {
    /// The board command: `A` turns the output on, `a` off.
    pub fn device_command(&self) -> (c: &'static str)
        ensures
            c@ == (match *self {
                TecCommand::Enable => "A"@,
                TecCommand::Disable => "a"@,
            }),
    {
        match self {
            TecCommand::Enable => "A",
            TecCommand::Disable => "a",
        }
    }

    /// The status the worker reports once the board took the command.
    pub fn done_message(&self) -> (m: &'static str)
        ensures
            m@ == tec_status_message(*self == TecCommand::Enable),
    {
        match self {
            TecCommand::Enable => "TEC ENABLED",
            TecCommand::Disable => "TEC DISABLED",
        }
    }
}

/// The margin on each side of a centered popup that takes `percent` of the
/// screen, in percent: half of what is left.
pub fn popup_margin_percent(percent: u16) -> (m: u16)
    requires
        percent <= 100,
    ensures
        m == (100 - percent) / 2,
        2 * m + percent <= 100,
{
    (100 - percent) / 2
}

/// Whether the worker's periodic readout is due: `elapsed_ms` milliseconds
/// (at least 500) have passed since the last one.
pub fn readout_due(elapsed_ms: u64) -> (r: bool)
    ensures
        r == (elapsed_ms >= 500),
{
    elapsed_ms >= 500
}

/// What the worker reports back to the monitor.
pub enum Response<T> {
    /// A readout, as the item the history keeps of it.
    Readout(T),
    /// An error, with its message.
    Error(String),
    /// A status message.
    Status(String),
}

/// What a [`Response`] holds.
pub enum ResponseView<T> {
    Readout(T),
    Error(Seq<char>),
    Status(Seq<char>),
}

impl<T> View for Response<T> {
    type V = ResponseView<T>;

    open spec fn view(&self) -> ResponseView<T> {
        match self {
            Response::Readout(t) => ResponseView::Readout(*t),
            Response::Error(m) => ResponseView::Error(m@),
            Response::Status(m) => ResponseView::Status(m@),
        }
    }
}

/// The status line a response shows, if it shows one: `Error: ` and the
/// message for an error, the message as given for a status.
pub open spec fn response_message<T>(r: ResponseView<T>) -> Option<Seq<char>> {
    match r {
        ResponseView::Readout(_) => None,
        ResponseView::Error(m) => Some("Error: "@ + m),
        ResponseView::Status(m) => Some(m),
    }
}

/// The state and the history after one response, the history keeping at
/// most `capacity` items: a readout is added to the history, an error or a
/// status replaces the status line, and either asks for a redraw.
pub open spec fn after_response<T>(
    s: AppStateView,
    h: Seq<T>,
    r: ResponseView<T>,
    capacity: nat,
) -> (AppStateView, Seq<T>) {
    match r {
        ResponseView::Readout(t) => (AppStateView { redraw: true, ..s }, pushed_bounded(h, t, capacity)),
        ResponseView::Error(m) => (AppStateView { status: Some("Error: "@ + m), redraw: true, ..s }, h),
        ResponseView::Status(m) => (AppStateView { status: Some(m), redraw: true, ..s }, h),
    }
}

/// The state and the history after the responses `rs`, taken in order.
pub open spec fn after_responses<T>(
    s: AppStateView,
    h: Seq<T>,
    rs: Seq<ResponseView<T>>,
    capacity: nat,
) -> (AppStateView, Seq<T>)
    decreases rs.len(),
{
    if rs.len() == 0 {
        (s, h)
    } else {
        let before = after_responses(s, h, rs.drop_last(), capacity);
        after_response(before.0, before.1, rs.last(), capacity)
    }
}

/// The readouts among `rs`, in order.
pub open spec fn readouts<T>(rs: Seq<ResponseView<T>>) -> Seq<T>
    decreases rs.len(),
{
    if rs.len() == 0 {
        Seq::empty()
    } else {
        match rs.last() {
            ResponseView::Readout(t) => readouts(rs.drop_last()).push(t),
            _ => readouts(rs.drop_last()),
        }
    }
}

/// The status line shown by the last response of `rs` that shows one.
pub open spec fn last_message<T>(rs: Seq<ResponseView<T>>) -> Option<Seq<char>>
    decreases rs.len(),
{
    if rs.len() == 0 {
        None
    } else {
        match response_message(rs.last()) {
            Some(m) => Some(m),
            None => last_message(rs.drop_last()),
        }
    }
}

impl AppState {
    /// Records one response of the worker: a readout goes into `history`,
    /// an error or a status replaces the status line; each asks for a
    /// redraw.
    pub fn record_response<T>(&mut self, history: &mut History<T>, response: Response<T>)
        ensures
            (final(self)@, final(history)@) == after_response(
                old(self)@,
                old(history)@,
                response@,
                old(history).capacity(),
            ),
            final(history).capacity() == old(history).capacity(),
    {
        match response {
            Response::Readout(t) => {
                history.push(t);
                self.request_redraw();
            },
            Response::Error(m) => self.show_error(m.as_str()),
            Response::Status(m) => self.show_status(m.as_str()),
        }
    }
}

// ------------------------------------------------------------------- laws

/// Moving the selection up and then down, or down and then up, in
/// navigation mode, comes back to the parameter selected before.
pub proof fn lemma_up_down_inverse(s: AppStateView)
    requires
        s.mode == InputMode::Normal,
        state_wf(s),
    ensures
        key_step(key_step(s, Key::Up).0, Key::Down).0.selected == s.selected,
        key_step(key_step(s, Key::Up).0, Key::Down).0.field == s.field,
        key_step(key_step(s, Key::Down).0, Key::Up).0.selected == s.selected,
        key_step(key_step(s, Key::Down).0, Key::Up).0.field == s.field,
{
}

/// Every key keeps the selection within the six parameters, and the field
/// being edited the one selected.
pub proof fn lemma_key_keeps_selection_in_list(s: AppStateView, key: Key)
    requires
        state_wf(s),
    ensures
        state_wf(key_step(s, key).0),
        state_wf(key_press_step(s, key).0),
{
}

/// Six moves down, or six moves up, come back to where they started.
pub proof fn lemma_selection_cycles(s: AppStateView)
    requires
        s.mode == InputMode::Normal,
        state_wf(s),
    ensures
        ({
            let d1 = key_step(s, Key::Down).0;
            let d2 = key_step(d1, Key::Down).0;
            let d3 = key_step(d2, Key::Down).0;
            let d4 = key_step(d3, Key::Down).0;
            let d5 = key_step(d4, Key::Down).0;
            key_step(d5, Key::Down).0.selected == s.selected
        }),
        ({
            let u1 = key_step(s, Key::Up).0;
            let u2 = key_step(u1, Key::Up).0;
            let u3 = key_step(u2, Key::Up).0;
            let u4 = key_step(u3, Key::Up).0;
            let u5 = key_step(u4, Key::Up).0;
            key_step(u5, Key::Up).0.selected == s.selected
        }),
{
}

/// Escape leaves the edit field, drops what was typed, and asks for
/// nothing; the parameters, the selection and the status stay.
pub proof fn lemma_escape_discards_edit(s: AppStateView)
    requires
        s.mode == InputMode::Editing,
    ensures
        key_step(s, Key::Esc).0 == leave_editing(s),
        key_step(s, Key::Esc).0.mode == InputMode::Normal,
        key_step(s, Key::Esc).0.edit == Seq::<char>::empty(),
        key_step(s, Key::Esc).1 == KeyActionView::Nothing,
{
}

/// Backspace takes back the character just typed.
pub proof fn lemma_backspace_undoes_typing(s: AppStateView, c: char)
    requires
        s.mode == InputMode::Editing,
        c != 'q',
    ensures
        key_press_step(key_press_step(s, Key::Char(c)).0, Key::Backspace).0.edit == s.edit,
{
    assert(s.edit.push(c).drop_last() =~= s.edit);
}

/// A value is handed over only when the text typed is a float literal, and
/// then it is that text, for the parameter selected.
pub proof fn lemma_commit_only_float_literals(s: AppStateView, key: Key)
    ensures
        key_step(s, key).1 matches KeyActionView::Commit(f, t) ==> f == s.field && t == s.edit
            && is_float_literal(t),
{
}

/// `a` marks the configuration pending, so that it is sent once the
/// debounce delay has passed, and asks the caller to restart that delay;
/// nothing else changes.
pub proof fn lemma_a_applies_configuration(s: AppStateView)
    requires
        s.mode == InputMode::Normal,
    ensures
        key_step(s, Key::Char('a')).0 == applied(s),
        key_step(s, Key::Char('a')).0.pending,
        key_step(s, Key::Char('a')).1 == KeyActionView::Apply,
        key_press_step(s, Key::Char('a')) == key_step(s, Key::Char('a')),
{
}

/// Tab moves the focus to the other pane; twice, it comes back.
pub proof fn lemma_tab_switches_panes(s: AppStateView)
    requires
        s.mode == InputMode::Normal,
    ensures
        key_step(s, Key::Tab).0.focus != s.focus,
        key_step(key_step(s, Key::Tab).0, Key::Tab).0.focus == s.focus,
        key_step(s, Key::Tab).0.selected == s.selected,
        key_step(s, Key::Tab).1 == KeyActionView::Nothing,
{
}

/// Toggling the TEC, in either mode: the command asked for is the one that
/// flips the output as the monitor knows it; once it is confirmed the flag
/// is flipped and the status line names the new state; a second toggle asks
/// for the opposite command, and confirming it brings the flag back.
pub proof fn lemma_toggle_round_trip(s: AppStateView)
    ensures
        toggle_command(s.tec_enabled) == (if s.tec_enabled {
            TecCommand::Disable
        } else {
            TecCommand::Enable
        }),
        toggled(s).tec_enabled == !s.tec_enabled,
        toggled(s).status == Some(tec_status_message(!s.tec_enabled)),
        toggle_command(toggled(s).tec_enabled) != toggle_command(s.tec_enabled),
        toggled(toggled(s)).tec_enabled == s.tec_enabled,
        toggled(s).mode == s.mode && toggled(s).edit == s.edit && toggled(s).selected
            == s.selected,
{
}

/// `q` quits from either mode and changes nothing.
pub proof fn lemma_q_quits(s: AppStateView)
    ensures
        key_press_step(s, Key::Char('q')) == (s, KeyActionView::Quit),
{
}

/// The space key asks for the command that flips the TEC output: disable
/// when it is on, enable when it is off; confirming it flips the flag and
/// says so, and confirming twice brings the flag back.
pub proof fn lemma_toggle_flips(s: AppStateView)
    requires
        s.mode == InputMode::Normal,
    ensures
        key_step(s, Key::Char(' ')).1 == KeyActionView::Toggle(
            if s.tec_enabled { TecCommand::Disable } else { TecCommand::Enable },
        ),
        key_step(s, Key::Char(' ')).0 == s,
        toggled(s).tec_enabled != s.tec_enabled,
        toggled(s).status == Some(tec_status_message(toggled(s).tec_enabled)),
        toggled(toggled(s)).tec_enabled == s.tec_enabled,
{
}

/// Raising, lowering, or committing a valid value for P, I, D or a limit
/// marks the configuration pending, so that it is sent once the debounce
/// delay has passed; for the set point the key leaves the flag as it was.
/// Nothing else changes but the redraw and, on a commit, the edit field.
pub proof fn lemma_parameter_change_marks_pending(s: AppStateView, key: Key)
    ensures
        (key_step(s, key).1 is Increment || key_step(s, key).1 is Decrement) ==> key_step(
            s,
            key,
        ).0 == changed(s),
        key_step(s, key).1 is Commit ==> key_step(s, key).0 == changed(leave_editing(s)),
        (key_step(s, key).1 is Increment || key_step(s, key).1 is Decrement || key_step(
            s,
            key,
        ).1 is Commit) ==> key_step(s, key).0.pending == (s.pending || s.field
            != EditField::TSet),
{
}

/// The worker's responses are taken in the order they came. The history
/// ends up with the newest readouts, at most its capacity of them, oldest
/// first. The status line is that of the last error or status message
/// (`Error: ` and the message for an error), and stays as it was where
/// there is none. Any response asks for a redraw; nothing else changes.
pub proof fn lemma_responses_in_order<T>(
    s: AppStateView,
    h: Seq<T>,
    rs: Seq<ResponseView<T>>,
    capacity: nat,
)
    requires
        h.len() <= capacity,
    ensures
        after_responses(s, h, rs, capacity).1 == newest(h + readouts(rs), capacity),
        after_responses(s, h, rs, capacity).1.len() <= capacity,
        after_responses(s, h, rs, capacity).0 == (AppStateView {
            status: match last_message(rs) {
                Some(m) => Some(m),
                None => s.status,
            },
            redraw: s.redraw || rs.len() > 0,
            ..s
        }),
    decreases rs.len(),
{
    if rs.len() == 0 {
        assert(h + readouts(rs) =~= h);
    } else {
        let p = rs.drop_last();
        lemma_responses_in_order(s, h, p, capacity);
        match rs.last() {
            ResponseView::Readout(t) => {
                lemma_push_keeps_newest(h + readouts(p), t, capacity);
                assert((h + readouts(p)).push(t) =~= h + readouts(rs));
            },
            _ => {
                assert(readouts(rs) == readouts(p));
            },
        }
    }
}

/// In navigation mode a raise key (Right, `+`, `=`) asks to raise exactly
/// the parameter at the selected list position, and a lower key (Left, `-`,
/// `_`) to lower exactly that one; the selection stays.
pub proof fn lemma_adjust_keys_name_the_selected_field(s: AppStateView)
    requires
        state_wf(s),
        s.mode == InputMode::Normal,
    ensures
        position_of(s.field) == s.selected,
        key_step(s, Key::Right).1 == KeyActionView::Increment(s.field),
        key_step(s, Key::Char('+')).1 == KeyActionView::Increment(s.field),
        key_step(s, Key::Char('=')).1 == KeyActionView::Increment(s.field),
        key_step(s, Key::Left).1 == KeyActionView::Decrement(s.field),
        key_step(s, Key::Char('-')).1 == KeyActionView::Decrement(s.field),
        key_step(s, Key::Char('_')).1 == KeyActionView::Decrement(s.field),
        key_step(s, Key::Right).0.selected == s.selected,
        key_step(s, Key::Left).0.selected == s.selected,
{
}

/// In editing mode Enter hands over the text typed, for the parameter
/// selected, exactly when it is a float literal, and otherwise refuses it
/// with `Invalid value`; either way the edit field is left and emptied.
pub proof fn lemma_enter_commits_exactly_float_literals(s: AppStateView)
    requires
        s.mode == InputMode::Editing,
    ensures
        is_float_literal(s.edit) ==> key_step(s, Key::Enter).1 == KeyActionView::Commit(
            s.field,
            s.edit,
        ),
        !is_float_literal(s.edit) ==> key_step(s, Key::Enter).1 == KeyActionView::Nothing,
        !is_float_literal(s.edit) ==> key_step(s, Key::Enter).0.status == Some("Invalid value"@),
        key_step(s, Key::Enter).0.mode == InputMode::Normal,
        key_step(s, Key::Enter).0.edit == Seq::<char>::empty(),
        key_step(s, Key::Enter).0.selected == s.selected,
{
}

} // verus!
