//! The console state: the GPU list with its focus cursor and selection, the
//! open menu or prompt, and the status message with its short history; and
//! the key handling that moves between these states and names the GPU work
//! to run.
use std::collections::BTreeSet;

use vstd::prelude::*;
use vstd::std_specs::cmp::OrdSpec;
use vstd::std_specs::iter::IteratorSpec;

use crate::gpu::{GpuState, GpuView, format_percent, gpu_views, percent_text, string_views};
use crate::text::{
    chars_eq_str, chars_of, decimal, decimal_chars, is_digit, is_digit_char, push_chars, push_str,
    string_from, string_of, trim, trim_str,
};

verus! {

broadcast use {
    vstd::string::group_string_axioms,
    vstd::std_specs::btree::group_btree_axioms,
    vstd::laws_cmp::group_laws_cmp,
};

/// The fan speed, in percent, that the fan menu and prompt start from.
pub const DEFAULT_FAN_SPEED: u32 = 100;

/// How many recent messages the history keeps.
pub const HISTORY_LEN: usize = 4;

/// The time between GPU queries, in nanoseconds.
pub const REFRESH_INTERVAL_NANOS: u64 = 500_000_000;

/// The two settings the console changes.
#[derive(Clone, Copy, Debug, PartialEq, Eq, Structural)]
pub enum ActionKind {
    Power,
    Fan,
}

impl ActionKind {
    pub fn title(self) -> (r: &'static str)
        ensures
            r@ == match self {
                ActionKind::Power => "Power Limit"@,
                ActionKind::Fan => "Fan Speed"@,
            },
    {
        match self {
            ActionKind::Power => "Power Limit",
            ActionKind::Fan => "Fan Speed",
        }
    }

    pub fn helper(self) -> (r: &'static str)
        ensures
            r@ == match self {
                ActionKind::Power => "Choose a power profile for the active target scope."@,
                ActionKind::Fan => "Choose a fixed fan preset or return control to auto."@,
            },
    {
        match self {
            ActionKind::Power => "Choose a power profile for the active target scope.",
            ActionKind::Fan => "Choose a fixed fan preset or return control to auto.",
        }
    }

    pub fn shortcut(self) -> (r: &'static str)
        ensures
            r@ == match self {
                ActionKind::Power => "p"@,
                ActionKind::Fan => "f"@,
            },
    {
        match self {
            ActionKind::Power => "p",
            ActionKind::Fan => "f",
        }
    }

    /// The presets of the action's menu, in menu order.
    pub fn choices(self) -> (r: Vec<ChoiceItem>)
        ensures
            choice_views(r@) == choice_list(self),
    {
        let r = match self {
            ActionKind::Power => vec![
                ChoiceItem {
                    label: "Eco",
                    value: "eco",
                    detail: "Clamp to each card's minimum power limit.",
                },
                ChoiceItem {
                    label: "Balanced",
                    value: "balanced",
                    detail: "Set each card to the midpoint between min and max.",
                },
                ChoiceItem {
                    label: "Default",
                    value: "default",
                    detail: "Restore the vendor default power limit.",
                },
                ChoiceItem {
                    label: "Performance",
                    value: "performance",
                    detail: "Clamp to each card's maximum power limit.",
                },
                ChoiceItem {
                    label: "Custom...",
                    value: "custom",
                    detail: "Enter an exact watt limit.",
                },
            ],
            ActionKind::Fan => vec![
                ChoiceItem {
                    label: "Auto",
                    value: "auto",
                    detail: "Return fan control to the driver.",
                },
                ChoiceItem { label: "40%", value: "40", detail: "Low fixed fan preset." },
                ChoiceItem { label: "60%", value: "60", detail: "Moderate fixed fan preset." },
                ChoiceItem { label: "80%", value: "80", detail: "High fixed fan preset." },
                ChoiceItem { label: "100%", value: "100", detail: "Maximum fixed fan preset." },
                ChoiceItem {
                    label: "Custom...",
                    value: "custom",
                    detail: "Enter an exact fan percentage.",
                },
            ],
        };
        proof {
            assert(choice_views(r@) =~= choice_list(self));
        }
        r
    }
}

/// A preset of an action menu.
#[derive(Clone, Copy, Debug)]
pub struct ChoiceItem {
    pub label: &'static str,
    pub value: &'static str,
    pub detail: &'static str,
}

pub struct ChoiceView {
    pub label: Seq<char>,
    pub value: Seq<char>,
    pub detail: Seq<char>,
}

impl View for ChoiceItem {
    type V = ChoiceView;

    open spec fn view(&self) -> ChoiceView {
        ChoiceView { label: self.label@, value: self.value@, detail: self.detail@ }
    }
}

pub open spec fn choice_views(v: Seq<ChoiceItem>) -> Seq<ChoiceView> {
    v.map_values(|c: ChoiceItem| c@)
}

pub open spec fn choice(label: Seq<char>, value: Seq<char>, detail: Seq<char>) -> ChoiceView {
    ChoiceView { label, value, detail }
}

/// The power menu: eco, balanced, default, performance and a custom value.
pub open spec fn power_choices() -> Seq<ChoiceView> {
    seq![
        choice("Eco"@, "eco"@, "Clamp to each card's minimum power limit."@),
        choice("Balanced"@, "balanced"@, "Set each card to the midpoint between min and max."@),
        choice("Default"@, "default"@, "Restore the vendor default power limit."@),
        choice("Performance"@, "performance"@, "Clamp to each card's maximum power limit."@),
        choice("Custom..."@, "custom"@, "Enter an exact watt limit."@),
    ]
}

/// The fan menu: automatic control, four fixed speeds and a custom value.
pub open spec fn fan_choices() -> Seq<ChoiceView> {
    seq![
        choice("Auto"@, "auto"@, "Return fan control to the driver."@),
        choice("40%"@, "40"@, "Low fixed fan preset."@),
        choice("60%"@, "60"@, "Moderate fixed fan preset."@),
        choice("80%"@, "80"@, "High fixed fan preset."@),
        choice("100%"@, "100"@, "Maximum fixed fan preset."@),
        choice("Custom..."@, "custom"@, "Enter an exact fan percentage."@),
    ]
}

pub open spec fn choice_list(action: ActionKind) -> Seq<ChoiceView> {
    match action {
        ActionKind::Power => power_choices(),
        ActionKind::Fan => fan_choices(),
    }
}

/// The menu or prompt drawn over the GPU list.
#[derive(Debug)]
pub enum Overlay {
    /// A preset menu with its highlighted row.
    Choice { action: ActionKind, cursor: usize },
    /// A prompt for an exact value, with the text typed so far.
    Prompt { action: ActionKind, input: String },
}

pub enum OverlayView {
    Choice { action: ActionKind, cursor: usize },
    Prompt { action: ActionKind, input: Seq<char> },
}

impl View for Overlay {
    type V = OverlayView;

    open spec fn view(&self) -> OverlayView {
        match self {
            Overlay::Choice { action, cursor } => OverlayView::Choice {
                action: *action,
                cursor: *cursor,
            },
            Overlay::Prompt { action, input } => OverlayView::Prompt {
                action: *action,
                input: input@,
            },
        }
    }
}

pub open spec fn overlay_view(o: Option<Overlay>) -> Option<OverlayView> {
    match o {
        Some(x) => Some(x@),
        None => None,
    }
}

/// A key press, as far as the console tells keys apart.
#[derive(Clone, Copy, Debug, PartialEq, Eq, Structural)]
pub enum Key {
    Char(char),
    Up,
    Down,
    Enter,
    Esc,
    Backspace,
    Other,
}

/// GPU work that a key asks for; the caller runs it.
#[derive(Debug)]
pub enum Effect {
    Nothing,
    /// Query the GPUs again and pass the result to [`App::refresh`].
    Refresh,
    /// Apply a power value to the target GPUs (see [`App::plan_power`]).
    ApplyPower(String),
    /// Apply a fan value to the target GPUs (see [`App::plan_fan`]).
    ApplyFan(String),
    /// Restore default power limits and automatic fans (see
    /// [`App::plan_default`]).
    ApplyDefault,
}

pub enum EffectView {
    Nothing,
    Refresh,
    ApplyPower(Seq<char>),
    ApplyFan(Seq<char>),
    ApplyDefault,
}

impl View for Effect {
    type V = EffectView;

    open spec fn view(&self) -> EffectView {
        match self {
            Effect::Nothing => EffectView::Nothing,
            Effect::Refresh => EffectView::Refresh,
            Effect::ApplyPower(v) => EffectView::ApplyPower(v@),
            Effect::ApplyFan(v) => EffectView::ApplyFan(v@),
            Effect::ApplyDefault => EffectView::ApplyDefault,
        }
    }
}

/// The console state.
#[derive(Debug)]
pub struct App {
    pub display: String,
    pub gpus: Vec<GpuState>,
    pub cursor: usize,
    pub selected: BTreeSet<usize>,
    pub overlay: Option<Overlay>,
    pub message: String,
    pub history: Vec<String>,
    pub quit: bool,
}

#[verifier::ext_equal]
pub struct AppView {
    pub display: Seq<char>,
    pub gpus: Seq<GpuView>,
    pub cursor: usize,
    pub selected: Set<usize>,
    pub overlay: Option<OverlayView>,
    pub message: Seq<char>,
    pub history: Seq<Seq<char>>,
    pub quit: bool,
}

impl View for App {
    type V = AppView;

    open spec fn view(&self) -> AppView {
        AppView {
            display: self.display@,
            gpus: gpu_views(self.gpus@),
            cursor: self.cursor,
            selected: self.selected@,
            overlay: overlay_view(self.overlay),
            message: self.message@,
            history: string_views(self.history@),
            quit: self.quit,
        }
    }
}

// ---------------------------------------------------------------------------
// The state model
// ---------------------------------------------------------------------------

impl AppView {
    /// The states the console keeps: the GPU list fits a `Vec`, the focus is
    /// on a GPU whenever there is one, and the history holds at most
    /// `HISTORY_LEN` messages.
    pub open spec fn well_formed(self) -> bool {
        &&& self.gpus.len() <= usize::MAX
        &&& self.gpus.len() > 0 ==> self.cursor < self.gpus.len()
        &&& self.history.len() <= HISTORY_LEN
    }

    pub open spec fn has_focus(self) -> bool {
        self.cursor < self.gpus.len()
    }

    pub open spec fn focus(self) -> GpuView {
        self.gpus[self.cursor as int]
    }

    /// `GPU <index> <name>` for the focused GPU, plain `GPU` without one.
    pub open spec fn focus_title(self) -> Seq<char> {
        if self.has_focus() {
            "GPU "@ + decimal(self.focus().index as nat) + " "@ + self.focus().name
        } else {
            "GPU"@
        }
    }

    /// The state after `m` becomes the message: it goes to the front of
    /// the history, which then keeps its first `HISTORY_LEN` entries.
    pub open spec fn pushed(self, m: Seq<char>) -> AppView {
        let h = seq![m] + self.history;
        AppView {
            message: m,
            history: if h.len() > HISTORY_LEN {
                h.take(HISTORY_LEN as int)
            } else {
                h
            },
            ..self
        }
    }

    pub open spec fn with_cursor(self, c: usize) -> AppView {
        AppView { cursor: c, ..self }
    }

    pub open spec fn moved_down(self) -> AppView {
        if self.gpus.len() == 0 {
            self
        } else {
            let v = self.with_cursor(((self.cursor + 1) % (self.gpus.len() as int)) as usize);
            v.pushed("Focus "@ + v.focus_title())
        }
    }

    pub open spec fn moved_up(self) -> AppView {
        if self.gpus.len() == 0 {
            self
        } else {
            let v = self.with_cursor(
                if self.cursor == 0 {
                    (self.gpus.len() - 1) as usize
                } else {
                    (self.cursor - 1) as usize
                },
            );
            v.pushed("Focus "@ + v.focus_title())
        }
    }

    /// The focused GPU flips in or out of the selection and the focus moves
    /// on to the next GPU.
    pub open spec fn toggled(self) -> AppView {
        if self.gpus.len() == 0 {
            self
        } else {
            let c = self.cursor;
            let sel = if self.selected.contains(c) {
                self.selected.remove(c)
            } else {
                self.selected.insert(c)
            };
            let v = AppView {
                selected: sel,
                cursor: ((c + 1) % (self.gpus.len() as int)) as usize,
                ..self
            };
            v.pushed(
                self.focus_title() + " "@ + (if sel.contains(c) {
                    "selected"@
                } else {
                    "cleared"@
                }) + " | focus "@ + v.focus_title(),
            )
        }
    }

    pub open spec fn all_selected(self) -> AppView {
        let v = AppView {
            selected: Set::new(|i: usize| i < self.gpus.len()),
            ..self
        };
        v.pushed("Selected "@ + decimal(self.gpus.len()) + " GPU(s)"@)
    }

    pub open spec fn selection_cleared(self) -> AppView {
        AppView { selected: Set::empty(), ..self }.pushed("Selection cleared"@)
    }

    pub open spec fn with_overlay(self, o: Option<OverlayView>) -> AppView {
        AppView { overlay: o, ..self }
    }

    /// The menu of `action`, opened on its default preset: balanced for
    /// power, the preset equal to `DEFAULT_FAN_SPEED` for fans.
    pub open spec fn menu_opened(self, action: ActionKind) -> AppView {
        self.with_overlay(
            Some(
                OverlayView::Choice {
                    action,
                    cursor: match action {
                        ActionKind::Power => 1,
                        ActionKind::Fan => 4,
                    },
                },
            ),
        )
    }

    /// The prompt of `action`, holding the focused GPU's current power limit
    /// or fan speed (`0` or `DEFAULT_FAN_SPEED` without a focused GPU).
    pub open spec fn prompt_opened(self, action: ActionKind) -> AppView {
        let input = match action {
            ActionKind::Power => if self.has_focus() {
                self.focus().limit_w
            } else {
                "0"@
            },
            ActionKind::Fan => if self.has_focus() {
                self.focus().fan_speed_pct
            } else {
                decimal(DEFAULT_FAN_SPEED as nat)
            },
        };
        self.with_overlay(Some(OverlayView::Prompt { action, input }))
    }

    /// The state after a GPU query returned `gpus`.
    pub open spec fn refreshed(self, gpus: Seq<GpuView>) -> AppView {
        if gpus.len() == 0 {
            AppView { gpus, ..self }.pushed("No NVIDIA GPUs found"@)
        } else {
            let n = gpus.len();
            AppView {
                gpus,
                cursor: if self.cursor < n {
                    self.cursor
                } else {
                    (n - 1) as usize
                },
                selected: self.selected.filter(|i: usize| i < n),
                ..self
            }.pushed("Refreshed "@ + decimal(n) + " GPU(s)"@)
        }
    }
}

pub open spec fn action_title(action: ActionKind) -> Seq<char> {
    match action {
        ActionKind::Power => "Power Limit"@,
        ActionKind::Fan => "Fan Speed"@,
    }
}

/// The GPU work that applies `value` for `action`.
pub open spec fn apply_effect(action: ActionKind, value: Seq<char>) -> EffectView {
    match action {
        ActionKind::Power => EffectView::ApplyPower(value),
        ActionKind::Fan => EffectView::ApplyFan(value),
    }
}

/// The key help shown by `?`.
pub open spec fn help_text() -> Seq<char> {
    "Arrows move | p power | f fan | d default | Space select | a all | c clear | r refresh | q quit"@
}

impl AppView {
    /// Moving the focus forward cannot run past the largest index.
    pub open spec fn can_advance(self) -> bool {
        self.gpus.len() == 0 || self.cursor < usize::MAX
    }

    /// Keys that move the focus to the next GPU.
    pub open spec fn advances(key: Key) -> bool {
        key == Key::Down || key == Key::Char('j') || key == Key::Char(' ')
    }

    /// A key with no menu or prompt open: `q`/Esc quit, `j`/Down and
    /// `k`/Up move the focus, and the rest as the key help says.
    pub open spec fn main_key(self, key: Key) -> (AppView, EffectView) {
        if key == Key::Char('q') || key == Key::Esc {
            (AppView { quit: true, ..self }, EffectView::Nothing)
        } else if key == Key::Char('r') {
            (self, EffectView::Refresh)
        } else if key == Key::Up || key == Key::Char('k') {
            (self.moved_up(), EffectView::Nothing)
        } else if key == Key::Down || key == Key::Char('j') {
            (self.moved_down(), EffectView::Nothing)
        } else if key == Key::Char(' ') {
            (self.toggled(), EffectView::Nothing)
        } else if key == Key::Enter || key == Key::Char('p') {
            (self.menu_opened(ActionKind::Power), EffectView::Nothing)
        } else if key == Key::Char('f') {
            (self.menu_opened(ActionKind::Fan), EffectView::Nothing)
        } else if key == Key::Char('d') {
            (self, EffectView::ApplyDefault)
        } else if key == Key::Char('a') {
            (self.all_selected(), EffectView::Nothing)
        } else if key == Key::Char('c') {
            (self.selection_cleared(), EffectView::Nothing)
        } else if key == Key::Char('?') {
            (self.pushed(help_text()), EffectView::Nothing)
        } else {
            (self, EffectView::Nothing)
        }
    }

    /// A key while the preset menu of `action` is open on row `cursor`
    /// (a row past the end counts as the last one).
    pub open spec fn choice_key(self, key: Key, action: ActionKind, cursor: usize) -> (
        AppView,
        EffectView,
    ) {
        let choices = choice_list(action);
        let n = choices.len();
        let at = if cursor < n - 1 {
            cursor as int
        } else {
            n - 1
        };
        if key == Key::Esc {
            (self.with_overlay(None), EffectView::Nothing)
        } else if key == Key::Enter {
            let value = choices[at].value;
            if value == "custom"@ {
                (self.prompt_opened(action), EffectView::Nothing)
            } else {
                (self.with_overlay(None), apply_effect(action, value))
            }
        } else if key == Key::Down || key == Key::Char('j') {
            let next = (at + 1) % (n as int);
            (
                self.pushed(action_title(action) + " preset: "@ + choices[next].label).with_overlay(
                    Some(OverlayView::Choice { action, cursor: next as usize }),
                ),
                EffectView::Nothing,
            )
        } else if key == Key::Up || key == Key::Char('k') {
            let next = if at == 0 {
                n - 1
            } else {
                at - 1
            };
            (
                self.pushed(action_title(action) + " preset: "@ + choices[next].label).with_overlay(
                    Some(OverlayView::Choice { action, cursor: next as usize }),
                ),
                EffectView::Nothing,
            )
        } else {
            (
                self.with_overlay(Some(OverlayView::Choice { action, cursor: at as usize })),
                EffectView::Nothing,
            )
        }
    }

    /// A key while the prompt of `action` holds `input`: digits (and a
    /// decimal point for power) are typed, Backspace removes the last
    /// character, Enter applies the trimmed text, Esc cancels.
    pub open spec fn prompt_key(self, key: Key, action: ActionKind, input: Seq<char>) -> (
        AppView,
        EffectView,
    ) {
        if key == Key::Esc {
            (self.with_overlay(None), EffectView::Nothing)
        } else if key == Key::Enter {
            (self.with_overlay(None), apply_effect(action, trim(input)))
        } else if key == Key::Backspace {
            let rest = if input.len() > 0 {
                input.drop_last()
            } else {
                input
            };
            (
                self.with_overlay(Some(OverlayView::Prompt { action, input: rest })),
                EffectView::Nothing,
            )
        } else if key matches Key::Char(c) && (is_digit(c) || (action == ActionKind::Power && c
            == '.')) {
            let c = key->Char_0;
            (
                self.with_overlay(Some(OverlayView::Prompt { action, input: input.push(c) })),
                EffectView::Nothing,
            )
        } else {
            (
                self.with_overlay(Some(OverlayView::Prompt { action, input })),
                EffectView::Nothing,
            )
        }
    }

    /// What a key press does to the console, and the GPU work it asks for.
    pub open spec fn key_step(self, key: Key) -> (AppView, EffectView) {
        match self.overlay {
            Some(OverlayView::Choice { action, cursor }) => self.choice_key(key, action, cursor),
            Some(OverlayView::Prompt { action, input }) => self.prompt_key(key, action, input),
            None => self.main_key(key),
        }
    }
}

impl AppView {
    /// `<n> selected GPU(s)` when GPUs are selected, else the focus title.
    pub open spec fn prompt_target_summary(self) -> Seq<char> {
        if self.selected.is_empty() {
            self.focus_title()
        } else {
            decimal(self.selected.len()) + " selected GPU(s)"@
        }
    }

    /// What the next action applies to, `No GPU target` without GPUs.
    pub open spec fn target_summary(self) -> Seq<char> {
        if self.gpus.len() == 0 {
            "No GPU target"@
        } else {
            self.prompt_target_summary()
        }
    }

    pub open spec fn selection_scope_hint(self) -> Seq<char> {
        if self.selected.is_empty() {
            "Actions apply to the focused GPU."@
        } else {
            "Actions apply to the selected GPUs."@
        }
    }

    /// The one-line readout of the focused GPU, given its VRAM summary.
    pub open spec fn focus_snapshot(self, vram: Seq<char>) -> Seq<char> {
        if self.has_focus() {
            let g = self.focus();
            self.focus_title() + " | "@ + g.temperature_c + " C | load "@ + percent_text(
                g.gpu_utilization_pct,
            ) + " | mem "@ + percent_text(g.memory_utilization_pct) + " | clock "@
                + g.graphics_clock_mhz + " MHz | fan "@ + percent_text(g.fan_speed_pct)
                + " | mode "@ + (match g.fan_control_state {
                Some(m) => m,
                None => "unknown"@,
            }) + " | VRAM "@ + vram
        } else {
            "No focused GPU"@
        }
    }
}

/// A strictly increasing sequence.
pub open spec fn increasing(s: Seq<usize>) -> bool {
    forall|i: int, j: int| 0 <= i < j < s.len() ==> s[i] < s[j]
}

// ---------------------------------------------------------------------------
// Plain operations
// ---------------------------------------------------------------------------

impl App {
    /// A console on `display` with no GPUs yet.
    pub fn new(display: String) -> (app: App)
        ensures
            app@ == (AppView {
                display: display@,
                gpus: Seq::empty(),
                cursor: 0,
                selected: Set::empty(),
                overlay: None,
                message: "Press `?` for help"@,
                history: Seq::empty(),
                quit: false,
            }),
    {
        let app = App {
            display,
            gpus: Vec::new(),
            cursor: 0,
            selected: BTreeSet::new(),
            overlay: None,
            message: string_from("Press `?` for help"),
            history: Vec::new(),
            quit: false,
        };
        proof {
            assert(app@ =~= (AppView {
                display: display@,
                gpus: Seq::empty(),
                cursor: 0,
                selected: Set::empty(),
                overlay: None,
                message: "Press `?` for help"@,
                history: Seq::empty(),
                quit: false,
            }));
        }
        app
    }

    /// Shows `message` and records it at the front of the history.
    pub fn push_message(&mut self, message: String)
        ensures
            final(self)@ == old(self)@.pushed(message@),
    {
        let ghost before = self@;
        let copy = message.clone();
        self.message = copy;
        self.history.insert(0, message);
        self.history.truncate(HISTORY_LEN);
        proof {
            let h = seq![message@] + before.history;
            assert(string_views(self.history@) =~= (if h.len() > HISTORY_LEN {
                h.take(HISTORY_LEN as int)
            } else {
                h
            }));
            assert(self@ =~= before.pushed(message@));
        }
    }

    /// The GPU under the focus cursor.
    pub fn focused_gpu(&self) -> (r: Option<&GpuState>)
        ensures
            match r {
                Some(g) => self@.has_focus() && g@ == self@.focus(),
                None => !self@.has_focus(),
            },
    {
        if self.cursor < self.gpus.len() {
            Some(&self.gpus[self.cursor])
        } else {
            None
        }
    }

    pub fn focus_title(&self) -> (r: String)
        ensures
            r@ == self@.focus_title(),
    {
        match self.focused_gpu() {
            Some(gpu) => {
                let mut t = string_from("GPU ");
                push_chars(&mut t, &decimal_chars(gpu.index as u64));
                push_str(&mut t, " ");
                push_str(&mut t, gpu.name.as_str());
                t
            },
            None => string_from("GPU"),
        }
    }

    pub fn move_cursor_down(&mut self)
        requires
            old(self)@.can_advance(),
        ensures
            final(self)@ == old(self)@.moved_down(),
    {
        if self.gpus.len() == 0 {
            return;
        }
        self.cursor = (self.cursor + 1) % self.gpus.len();
        let mut m = string_from("Focus ");
        let t = self.focus_title();
        push_str(&mut m, t.as_str());
        self.push_message(m);
    }

    pub fn move_cursor_up(&mut self)
        ensures
            final(self)@ == old(self)@.moved_up(),
    {
        if self.gpus.len() == 0 {
            return;
        }
        self.cursor = if self.cursor == 0 {
            self.gpus.len() - 1
        } else {
            self.cursor - 1
        };
        let mut m = string_from("Focus ");
        let t = self.focus_title();
        push_str(&mut m, t.as_str());
        self.push_message(m);
    }

    pub fn toggle_selected(&mut self)
        requires
            old(self)@.can_advance(),
        ensures
            final(self)@ == old(self)@.toggled(),
    {
        if self.gpus.len() == 0 {
            return;
        }
        let ghost before = self@;
        let c = self.cursor;
        if !self.selected.insert(c) {
            self.selected.remove(&c);
        }
        let current_title = self.focus_title();
        let was_selected = self.selected.contains(&c);
        self.cursor = (c + 1) % self.gpus.len();
        let mut m = string_from(current_title.as_str());
        push_str(&mut m, " ");
        if was_selected {
            push_str(&mut m, "selected");
        } else {
            push_str(&mut m, "cleared");
        }
        push_str(&mut m, " | focus ");
        let t = self.focus_title();
        push_str(&mut m, t.as_str());
        proof {
            assert(current_title@ == before.focus_title());
        }
        self.push_message(m);
    }

    pub fn select_all(&mut self)
        ensures
            final(self)@ == old(self)@.all_selected(),
    {
        let n = self.gpus.len();
        let mut sel: BTreeSet<usize> = BTreeSet::new();
        let mut i: usize = 0;
        while i < n
            invariant
                i <= n,
                sel@ == Set::new(|k: usize| k < i),
            decreases n - i,
        {
            sel.insert(i);
            proof {
                assert(sel@ =~= Set::new(|k: usize| k < i + 1));
            }
            i = i + 1;
        }
        self.selected = sel;
        let mut m = string_from("Selected ");
        push_chars(&mut m, &decimal_chars(n as u64));
        push_str(&mut m, " GPU(s)");
        self.push_message(m);
    }

    pub fn clear_selection(&mut self)
        ensures
            final(self)@ == old(self)@.selection_cleared(),
    {
        self.selected.clear();
        self.push_message(string_from("Selection cleared"));
    }

    /// Opens the preset menu of `action`.
    pub fn open_prompt(&mut self, action: ActionKind)
        ensures
            final(self)@ == old(self)@.menu_opened(action),
    {
        let default: usize = match action {
            ActionKind::Power => 1,
            ActionKind::Fan => default_fan_choice(),
        };
        self.overlay = Some(Overlay::Choice { action, cursor: default });
    }

    pub fn close_overlay(&mut self)
        ensures
            final(self)@ == old(self)@.with_overlay(None),
    {
        self.overlay = None;
    }

    /// Opens the prompt for an exact value of `action`.
    pub fn open_custom_prompt(&mut self, action: ActionKind)
        ensures
            final(self)@ == old(self)@.prompt_opened(action),
    {
        let input = match action {
            ActionKind::Power => match self.focused_gpu() {
                Some(gpu) => gpu.limit_w.clone(),
                None => string_from("0"),
            },
            ActionKind::Fan => match self.focused_gpu() {
                Some(gpu) => gpu.fan_speed_pct.clone(),
                None => string_of(&decimal_chars(DEFAULT_FAN_SPEED as u64)),
            },
        };
        self.overlay = Some(Overlay::Prompt { action, input });
    }

    /// The GPUs an action applies to: the selected ones in increasing order,
    /// or the focused one when nothing is selected.
    pub fn action_indices(&self) -> (r: Vec<usize>)
        ensures
            self@.selected.is_empty() ==> r@ == seq![self.cursor],
            !self@.selected.is_empty() ==> r@.to_set() == self@.selected && increasing(r@),
    {
        if self.selected.is_empty() {
            return vec![self.cursor];
        }
        let mut r: Vec<usize> = Vec::new();
        let ghost q = vstd::std_specs::btree::spec_btree_keys_iter(&self.selected).remaining();
        for x in it: self.selected.iter()
            invariant
                it.seq() == q,
                q == vstd::std_specs::btree::spec_btree_keys_iter(&self.selected).remaining(),
                r@ == it.seq().take(it.index() as int).map_values(|p: &usize| *p),
        {
            r.push(*x);
            proof {
                assert(it.seq().take(it.index() as int + 1).map_values(|p: &usize| *p)
                    =~= it.seq().take(it.index() as int).map_values(|p: &usize| *p).push(*x));
            }
        }
        proof {
            assert(q.take(q.len() as int) =~= q);
            lemma_sorted_listing(self.selected, r@);
        }
        r
    }

    /// Takes the result of a GPU query: the focus is kept on a listed GPU
    /// and the selection keeps only listed GPUs.
    pub fn refresh(&mut self, gpus: Vec<GpuState>)
        ensures
            final(self)@ == old(self)@.refreshed(gpu_views(gpus@)),
    {
        let ghost before = self@;
        let ghost gv = gpu_views(gpus@);
        let n = gpus.len();
        self.gpus = gpus;
        if n == 0 {
            self.push_message(string_from("No NVIDIA GPUs found"));
            return;
        }
        if self.cursor >= n {
            self.cursor = n - 1;
        }
        let mut kept: BTreeSet<usize> = BTreeSet::new();
        let mut i: usize = 0;
        while i < n
            invariant
                i <= n,
                self.selected@ == before.selected,
                kept@ == Set::new(|k: usize| k < i && before.selected.contains(k)),
            decreases n - i,
        {
            if self.selected.contains(&i) {
                kept.insert(i);
            }
            proof {
                assert(kept@ =~= Set::new(|k: usize| k < i + 1 && before.selected.contains(k)));
            }
            i = i + 1;
        }
        proof {
            assert(kept@ =~= before.selected.filter(|k: usize| k < n));
        }
        self.selected = kept;
        let mut m = string_from("Refreshed ");
        push_chars(&mut m, &decimal_chars(n as u64));
        push_str(&mut m, " GPU(s)");
        self.push_message(m);
    }
}

impl App {
    /// Handles a key press and names the GPU work it asks for.
    pub fn handle_key(&mut self, key: Key) -> (e: Effect)
        requires
            old(self)@.overlay is None && AppView::advances(key) ==> old(self)@.can_advance(),
        ensures
            (final(self)@, e@) == old(self)@.key_step(key),
    {
        let mut menu: Option<(ActionKind, usize)> = None;
        let mut typed: Option<(ActionKind, String)> = None;
        match &self.overlay {
            Some(Overlay::Choice { action, cursor }) => {
                menu = Some((*action, *cursor));
            },
            Some(Overlay::Prompt { action, input }) => {
                typed = Some((*action, input.clone()));
            },
            None => {},
        }
        match menu {
            Some((action, cursor)) => {
                return self.handle_choice_key(key, action, cursor);
            },
            None => {},
        }
        match typed {
            Some((action, input)) => self.handle_prompt_key(key, action, input),
            None => self.handle_main_key(key),
        }
    }

    fn handle_main_key(&mut self, key: Key) -> (e: Effect)
        requires
            AppView::advances(key) ==> old(self)@.can_advance(),
        ensures
            (final(self)@, e@) == old(self)@.main_key(key),
    {
        match key {
            Key::Char('q') | Key::Esc => {
                self.quit = true;
            },
            Key::Char('r') => {
                return Effect::Refresh;
            },
            Key::Up | Key::Char('k') => self.move_cursor_up(),
            Key::Down | Key::Char('j') => self.move_cursor_down(),
            Key::Char(' ') => self.toggle_selected(),
            Key::Enter | Key::Char('p') => self.open_prompt(ActionKind::Power),
            Key::Char('f') => self.open_prompt(ActionKind::Fan),
            Key::Char('d') => {
                return Effect::ApplyDefault;
            },
            Key::Char('a') => self.select_all(),
            Key::Char('c') => self.clear_selection(),
            Key::Char('?') => {
                self.push_message(
                    string_from(
                        "Arrows move | p power | f fan | d default | Space select | a all | c clear | r refresh | q quit",
                    ),
                );
            },
            _ => {},
        }
        Effect::Nothing
    }

    fn handle_choice_key(&mut self, key: Key, action: ActionKind, cursor: usize) -> (e: Effect)
        requires
            old(self)@.overlay == Some(OverlayView::Choice { action, cursor }),
        ensures
            (final(self)@, e@) == old(self)@.choice_key(key, action, cursor),
    {
        let choices = action.choices();
        proof {
            assert(choice_views(choices@).len() == choices@.len());
        }
        let n = choices.len();
        let at = if cursor < n - 1 {
            cursor
        } else {
            n - 1
        };
        proof {
            assert(choice_views(choices@)[at as int] == choices@[at as int]@);
        }
        match key {
            Key::Esc => {
                self.close_overlay();
                Effect::Nothing
            },
            Key::Enter => {
                let value: &str = choices[at].value;
                if chars_eq_str(&chars_of(value), "custom") {
                    self.open_custom_prompt(action);
                    Effect::Nothing
                } else {
                    self.close_overlay();
                    match action {
                        ActionKind::Power => Effect::ApplyPower(string_from(value)),
                        ActionKind::Fan => Effect::ApplyFan(string_from(value)),
                    }
                }
            },
            Key::Down | Key::Char('j') => {
                let next = (at + 1) % n;
                proof {
                    assert(choice_views(choices@)[next as int] == choices@[next as int]@);
                }
                let mut m = string_from(action.title());
                push_str(&mut m, " preset: ");
                push_str(&mut m, choices[next].label);
                self.push_message(m);
                self.overlay = Some(Overlay::Choice { action, cursor: next });
                Effect::Nothing
            },
            Key::Up | Key::Char('k') => {
                let next = if at == 0 {
                    n - 1
                } else {
                    at - 1
                };
                proof {
                    assert(choice_views(choices@)[next as int] == choices@[next as int]@);
                }
                let mut m = string_from(action.title());
                push_str(&mut m, " preset: ");
                push_str(&mut m, choices[next].label);
                self.push_message(m);
                self.overlay = Some(Overlay::Choice { action, cursor: next });
                Effect::Nothing
            },
            _ => {
                self.overlay = Some(Overlay::Choice { action, cursor: at });
                Effect::Nothing
            },
        }
    }

    fn handle_prompt_key(&mut self, key: Key, action: ActionKind, input: String) -> (e: Effect)
        requires
            old(self)@.overlay == Some(OverlayView::Prompt { action, input: input@ }),
        ensures
            (final(self)@, e@) == old(self)@.prompt_key(key, action, input@),
    {
        match key {
            Key::Esc => {
                self.close_overlay();
                Effect::Nothing
            },
            Key::Enter => {
                self.close_overlay();
                let t = string_of(&trim_str(input.as_str()));
                match action {
                    ActionKind::Power => Effect::ApplyPower(t),
                    ActionKind::Fan => Effect::ApplyFan(t),
                }
            },
            Key::Backspace => {
                let mut v = chars_of(input.as_str());
                if v.len() > 0 {
                    v.pop();
                }
                self.overlay = Some(Overlay::Prompt { action, input: string_of(&v) });
                Effect::Nothing
            },
            Key::Char(c) => {
                if is_digit_char(c) || (action == ActionKind::Power && c == '.') {
                    let mut v = chars_of(input.as_str());
                    v.push(c);
                    self.overlay = Some(Overlay::Prompt { action, input: string_of(&v) });
                } else {
                    self.overlay = Some(Overlay::Prompt { action, input });
                }
                Effect::Nothing
            },
            _ => {
                self.overlay = Some(Overlay::Prompt { action, input });
                Effect::Nothing
            },
        }
    }
}

impl App {
    pub fn prompt_target_summary(&self) -> (r: String)
        ensures
            r@ == self@.prompt_target_summary(),
    {
        if self.selected.is_empty() {
            self.focus_title()
        } else {
            let n = selection_len(&self.selected);
            let mut m = string_of(&decimal_chars(n as u64));
            push_str(&mut m, " selected GPU(s)");
            m
        }
    }

    pub fn target_summary(&self) -> (r: String)
        ensures
            r@ == self@.target_summary(),
    {
        if self.gpus.len() == 0 {
            return string_from("No GPU target");
        }
        self.prompt_target_summary()
    }

    pub fn selection_scope_hint(&self) -> (r: &'static str)
        ensures
            r@ == self@.selection_scope_hint(),
    {
        if self.selected.is_empty() {
            "Actions apply to the focused GPU."
        } else {
            "Actions apply to the selected GPUs."
        }
    }

    pub fn fan_scope_hint(&self) -> (r: &'static str)
        ensures
            r@ == "Fan speed currently writes every discovered fan target."@,
    {
        "Fan speed currently writes every discovered fan target."
    }

    /// The one-line readout of the focused GPU; `vram` is the summary of
    /// its memory use (see the VRAM formatting of the caller).
    pub fn focus_snapshot(&self, vram: &str) -> (r: String)
        ensures
            r@ == self@.focus_snapshot(vram@),
    {
        match self.focused_gpu() {
            Some(gpu) => {
                let mut m = self.focus_title();
                push_str(&mut m, " | ");
                push_str(&mut m, gpu.temperature_c.as_str());
                push_str(&mut m, " C | load ");
                push_str(&mut m, format_percent(gpu.gpu_utilization_pct.as_str()).as_str());
                push_str(&mut m, " | mem ");
                push_str(&mut m, format_percent(gpu.memory_utilization_pct.as_str()).as_str());
                push_str(&mut m, " | clock ");
                push_str(&mut m, gpu.graphics_clock_mhz.as_str());
                push_str(&mut m, " MHz | fan ");
                push_str(&mut m, format_percent(gpu.fan_speed_pct.as_str()).as_str());
                push_str(&mut m, " | mode ");
                match &gpu.fan_control_state {
                    Some(mode) => push_str(&mut m, mode.as_str()),
                    None => push_str(&mut m, "unknown"),
                }
                push_str(&mut m, " | VRAM ");
                push_str(&mut m, vram);
                m
            },
            None => string_from("No focused GPU"),
        }
    }
}

impl App {
    /// How long to wait for a key, given the nanoseconds since the last GPU
    /// query: the rest of the refresh interval, or nothing once it is over.
    pub fn poll_timeout(since_refresh: u128) -> (r: u64)
        ensures
            r == if since_refresh < REFRESH_INTERVAL_NANOS {
                REFRESH_INTERVAL_NANOS - since_refresh
            } else {
                0
            },
    {
        if since_refresh < REFRESH_INTERVAL_NANOS as u128 {
            REFRESH_INTERVAL_NANOS - since_refresh as u64
        } else {
            0
        }
    }

    /// Whether the GPUs are due to be queried again: the readings are
    /// renewed every refresh interval, whether or not a menu or prompt is
    /// open.
    pub fn refresh_due(since_refresh: u128) -> (r: bool)
        ensures
            r == (since_refresh >= REFRESH_INTERVAL_NANOS),
    {
        since_refresh >= REFRESH_INTERVAL_NANOS as u128
    }
}

/// The number of selected GPUs.
fn selection_len(s: &BTreeSet<usize>) -> (n: usize)
    ensures
        n == s@.len(),
{
    proof {
        assert(vstd::std_specs::btree::key_obeys_cmp_spec::<usize>());
    }
    s.len()
}

/// The position of `DEFAULT_FAN_SPEED` among the fan presets.
fn default_fan_choice() -> (r: usize)
    ensures
        r == 4,
{
    let want = decimal_chars(DEFAULT_FAN_SPEED as u64);
    let choices = ActionKind::Fan.choices();
    let mut i: usize = 0;
    while i < choices.len()
        invariant
            i <= choices.len(),
            choice_views(choices@) == fan_choices(),
            want@ == decimal(100),
            i <= 4,
        decreases choices.len() - i,
    {
        let v = chars_of(choices[i].value);
        if crate::text::chars_eq(&v, &want) {
            proof {
                reveal_strlit("auto");
                reveal_strlit("40");
                reveal_strlit("60");
                reveal_strlit("80");
                reveal_strlit("100");
                assert(decimal(100) =~= seq!['1', '0', '0']) by {
                    assert(decimal(10) =~= seq!['1', '0']) by {
                        assert(decimal(1) =~= seq!['1']);
                    }
                }
                assert(choice_views(choices@)[i as int].value == v@);
                if i < 4 {
                    assert(v@ != want@);
                }
            }
            return i;
        }
        proof {
            reveal_strlit("100");
            assert(decimal(100) =~= seq!['1', '0', '0']) by {
                assert(decimal(10) =~= seq!['1', '0']) by {
                    assert(decimal(1) =~= seq!['1']);
                }
            }
            assert(choice_views(choices@)[i as int].value == v@);
            if i == 4 {
                assert(v@ == want@);
            }
        }
        i = i + 1;
    }
    proof {
        assert(choice_views(choices@).len() == choices@.len());
    }
    0
}

proof fn lemma_increasing_keys<K: Ord>(s: Seq<K>)
    requires
        vstd::laws_cmp::obeys_cmp::<K>(),
        vstd::std_specs::btree::increasing_seq(s),
    ensures
        forall|i: int, j: int| #![trigger s[i], s[j]] 0 <= i < j < s.len() ==> s[i].cmp_spec(&s[j]) is Less,
{
    vstd::std_specs::btree::axiom_increasing_seq_meaning::<K>(s);
}

proof fn lemma_sorted_listing(s: BTreeSet<usize>, r: Seq<usize>)
    requires
        r == vstd::std_specs::btree::spec_btree_keys_iter(&s).remaining().map_values(|p: &usize| *p),
    ensures
        r.to_set() == s@,
        increasing(r),
{
    let q = vstd::std_specs::btree::spec_btree_keys_iter(&s).remaining();
    assert(q.unref() =~= r);
    assert(vstd::std_specs::btree::increasing_seq(q));
    assert(vstd::laws_cmp::obeys_cmp::<&usize>());
    lemma_increasing_keys::<&usize>(q);
    assert forall|i: int, j: int| 0 <= i < j < r.len() implies r[i] < r[j] by {
        assert(q[i].cmp_spec(&q[j]) is Less);
        assert(r[i] == *q[i]);
        assert(r[j] == *q[j]);
    }
}

} // verus!
