//! Screen decisions: which GPU cards are visible, how each is titled and
//! emphasized, the footer help line, and the size and place of the menu
//! and prompt popups.
use vstd::prelude::*;

use crate::app::{ActionKind, App, AppView, ChoiceItem, ChoiceView, Overlay, OverlayView};
use crate::gpu::{GpuState, format_percent, percent_text};
use crate::text::{decimal, decimal_chars, push_chars, push_str, string_from};

verus! {

broadcast use vstd::string::group_string_axioms;

/// A screen rectangle in terminal cells.
#[derive(Clone, Copy, Debug, PartialEq, Eq, Structural)]
pub struct Area {
    pub x: u16,
    pub y: u16,
    pub width: u16,
    pub height: u16,
}

/// The height of one GPU card, in rows.
pub const CARD_HEIGHT: u16 = 7;

pub open spec fn min_int(a: int, b: int) -> int {
    if a <= b {
        a
    } else {
        b
    }
}

pub open spec fn max_int(a: int, b: int) -> int {
    if a >= b {
        a
    } else {
        b
    }
}

/// `a - b`, or 0 below zero.
pub open spec fn sat_sub(a: int, b: int) -> int {
    if a >= b {
        a - b
    } else {
        0
    }
}

/// The number of cards that fit `height` rows (at least one).
pub open spec fn visible_cards(height: u16) -> int {
    max_int(1, height as int / CARD_HEIGHT as int)
}

/// The first card shown: as late as needed to show the focused card, never
/// past the point where the last card would leave the list.
pub open spec fn first_card(count: int, cursor: int, height: u16) -> int {
    let v = visible_cards(height);
    min_int(sat_sub(cursor, v - 1), sat_sub(count, v))
}

/// The cards shown, `[start, end)`, for `count` GPUs, the focus cursor and
/// `height` rows of card space.
pub fn card_window(count: usize, cursor: usize, height: u16) -> (r: (usize, usize))
    ensures
        r.0 == first_card(count as int, cursor as int, height),
        r.1 == min_int(r.0 + visible_cards(height), count as int),
{
    let per: usize = (height / CARD_HEIGHT) as usize;
    let visible: usize = if per > 1 {
        per
    } else {
        1
    };
    let max_start: usize = if count >= visible {
        count - visible
    } else {
        0
    };
    let back: usize = if cursor >= visible - 1 {
        cursor - (visible - 1)
    } else {
        0
    };
    let start: usize = if back <= max_start {
        back
    } else {
        max_start
    };
    let end: usize = if start + visible <= count {
        start + visible
    } else {
        count
    };
    (start, end)
}

/// How a GPU card stands out.
#[derive(Clone, Copy, Debug, PartialEq, Eq, Structural)]
pub enum Emphasis {
    /// The focused card.
    Focus,
    /// A selected card that is not focused.
    Selected,
    Plain,
}

impl AppView {
    /// The title of card `i`: a focus mark, a selection box, and the GPU.
    pub open spec fn card_title(self, i: int) -> Seq<char> {
        (if i == self.cursor {
            ">"@
        } else {
            " "@
        }) + (if self.selected.contains(i as usize) {
            "[x]"@
        } else {
            "[ ]"@
        }) + " GPU "@ + decimal(self.gpus[i].index as nat) + " "@ + self.gpus[i].name
    }

    pub open spec fn card_emphasis(self, i: int) -> Emphasis {
        if i == self.cursor {
            Emphasis::Focus
        } else if self.selected.contains(i as usize) {
            Emphasis::Selected
        } else {
            Emphasis::Plain
        }
    }

    /// The controls line for the open menu, prompt or neither.
    pub open spec fn footer_hint(self) -> Seq<char> {
        match self.overlay {
            Some(OverlayView::Choice { .. }) => "Up/Down move | Enter confirm | Esc cancel"@,
            Some(OverlayView::Prompt { action, .. }) => match action {
                ActionKind::Power => "Type watts | Enter confirm | Esc cancel"@,
                ActionKind::Fan => "Type percent | Enter confirm | Esc cancel"@,
            },
            None => "Up/Down move | Space select | p power | f fan | d default | a all | c clear | r refresh | q quit"@,
        }
    }
}

impl App {
    pub fn card_title(&self, i: usize) -> (r: String)
        requires
            i < self.gpus.len(),
        ensures
            r@ == self@.card_title(i as int),
    {
        let mut t = if i == self.cursor {
            string_from(">")
        } else {
            string_from(" ")
        };
        if self.selected.contains(&i) {
            push_str(&mut t, "[x]");
        } else {
            push_str(&mut t, "[ ]");
        }
        push_str(&mut t, " GPU ");
        let gpu = &self.gpus[i];
        proof {
            assert(self@.gpus[i as int] == gpu@);
        }
        push_chars(&mut t, &decimal_chars(gpu.index as u64));
        push_str(&mut t, " ");
        push_str(&mut t, gpu.name.as_str());
        t
    }

    pub fn card_emphasis(&self, i: usize) -> (r: Emphasis)
        ensures
            r == self@.card_emphasis(i as int),
    {
        if i == self.cursor {
            Emphasis::Focus
        } else if self.selected.contains(&i) {
            Emphasis::Selected
        } else {
            Emphasis::Plain
        }
    }

    pub fn footer_hint(&self) -> (r: &'static str)
        ensures
            r@ == self@.footer_hint(),
    {
        match &self.overlay {
            Some(Overlay::Choice { .. }) => "Up/Down move | Enter confirm | Esc cancel",
            Some(Overlay::Prompt { action, .. }) => match action {
                ActionKind::Power => "Type watts | Enter confirm | Esc cancel",
                ActionKind::Fan => "Type percent | Enter confirm | Esc cancel",
            },
            None => "Up/Down move | Space select | p power | f fan | d default | a all | c clear | r refresh | q quit",
        }
    }

    /// The headline of the open menu or prompt: `<title> for <targets>`.
    pub fn popup_headline(&self, title: &str) -> (r: String)
        ensures
            r@ == title@ + " for "@ + self@.prompt_target_summary(),
    {
        let mut m = string_from(title);
        push_str(&mut m, " for ");
        let s = self.prompt_target_summary();
        push_str(&mut m, s.as_str());
        m
    }

    /// The scope line of a popup: fan settings reach every fan, power
    /// settings follow the selection.
    pub fn scope_hint(&self, action: ActionKind) -> (r: &'static str)
        ensures
            r@ == if action == ActionKind::Fan {
                "Fan speed currently writes every discovered fan target."@
            } else {
                self@.selection_scope_hint()
            },
    {
        if action == ActionKind::Fan {
            self.fan_scope_hint()
        } else {
            self.selection_scope_hint()
        }
    }
}

/// The preset a menu highlights, or a placeholder when the row is past the
/// end.
pub fn highlighted_choice(choices: &Vec<ChoiceItem>, cursor: usize) -> (r: ChoiceItem)
    ensures
        cursor < choices.len() ==> r@ == choices@[cursor as int]@,
        cursor >= choices.len() ==> r@ == (ChoiceView { label: "-"@, value: "-"@, detail: ""@ }),
{
    if cursor < choices.len() {
        choices[cursor]
    } else {
        ChoiceItem { label: "-", value: "-", detail: "" }
    }
}

/// Title, helper line and value name of the prompt of `action`.
pub fn prompt_texts(action: ActionKind) -> (r: (&'static str, &'static str, &'static str))
    ensures
        action == ActionKind::Power ==> r.0@ == "Custom Power Limit"@ && r.1@
            == "Enter exact watts for the current target scope."@ && r.2@ == "Watts"@,
        action == ActionKind::Fan ==> r.0@ == "Custom Fan Speed"@ && r.1@
            == "Enter exact fan percentage for the current target scope."@ && r.2@ == "Percent"@,
{
    match action {
        ActionKind::Power => (
            "Custom Power Limit",
            "Enter exact watts for the current target scope.",
            "Watts",
        ),
        ActionKind::Fan => (
            "Custom Fan Speed",
            "Enter exact fan percentage for the current target scope.",
            "Percent",
        ),
    }
}

// ---------------------------------------------------------------------------
// Popups
// ---------------------------------------------------------------------------

/// `ratatui::layout::Rect::new`: a rectangle whose width and height are cut
/// so that it ends within `u16` coordinates.
pub open spec fn rect_new(x: u16, y: u16, width: u16, height: u16) -> Area {
    Area {
        x,
        y,
        width: if width as int > u16::MAX - x {
            (u16::MAX - x) as u16
        } else {
            width
        },
        height: if height as int > u16::MAX - y {
            (u16::MAX - y) as u16
        } else {
            height
        },
    }
}

/// Builds a rectangle with ratatui's `Rect::new`, which limits the width
/// and height so that the rectangle ends within `u16` coordinates; the
/// contract restates that limit as its source computes it.
#[verifier::external_body]
fn ratatui_rect(x: u16, y: u16, width: u16, height: u16) -> (r: Area)
    ensures
        r == rect_new(x, y, width, height),
{
    let r = ratatui::layout::Rect::new(x, y, width, height);
    Area { x: r.x, y: r.y, width: r.width, height: r.height }
}

/// The size cut to the area, centred in it.
pub open spec fn centered(width: u16, height: u16, area: Area) -> Area {
    let w = min_int(width as int, area.width as int);
    let h = min_int(height as int, area.height as int);
    rect_new(
        (area.x + (area.width - w) / 2) as u16,
        (area.y + (area.height - h) / 2) as u16,
        w as u16,
        h as u16,
    )
}

/// The centring offsets stay within `u16` coordinates.
pub open spec fn centering_fits(width: u16, height: u16, area: Area) -> bool {
    let w = min_int(width as int, area.width as int);
    let h = min_int(height as int, area.height as int);
    area.x + (area.width - w) / 2 <= u16::MAX && area.y + (area.height - h) / 2 <= u16::MAX
}

/// A rectangle of the given size, cut to the area and centred in it.
pub fn centered_rect_fixed(width: u16, height: u16, area: Area) -> (r: Area)
    requires
        centering_fits(width, height, area),
    ensures
        r == centered(width, height, area),
{
    let w = if width <= area.width {
        width
    } else {
        area.width
    };
    let h = if height <= area.height {
        height
    } else {
        area.height
    };
    let x = area.x + (area.width - w) / 2;
    let y = area.y + (area.height - h) / 2;
    ratatui_rect(x, y, w, h)
}

/// The menu popup: nine rows plus two per preset (at most the area height
/// less two, at least twelve), seventy percent of the width (at least
/// fifty-two, at most the area width less two).
pub open spec fn menu_popup(choice_count: u16, area: Area) -> Area {
    let height = min_int(9 + 2 * choice_count, sat_sub(area.height as int, 2));
    let width = max_int(min_int(area.width as int * 70, u16::MAX as int) / 100, 52);
    centered(
        min_int(width, sat_sub(area.width as int, 2)) as u16,
        max_int(height, 12) as u16,
        area,
    )
}

/// The prompt popup: sixty percent of the width (at least forty-eight, at
/// most the area width less two), twelve rows (at most the area height less
/// two, at least eight).
pub open spec fn prompt_popup(area: Area) -> Area {
    let width = min_int(
        max_int(min_int(area.width as int * 60, u16::MAX as int) / 100, 48),
        sat_sub(area.width as int, 2),
    );
    let height = max_int(min_int(12, sat_sub(area.height as int, 2)), 8);
    centered(width as u16, height as u16, area)
}

fn sat_mul_u16(a: u16, b: u16) -> (r: u16)
    ensures
        r == min_int(a * b, u16::MAX as int),
{
    proof {
        assert((a as int) * (b as int) <= 0xffff * 0xffff) by (nonlinear_arith)
            requires
                a <= 0xffff,
                b <= 0xffff,
        ;
    }
    let p: u32 = (a as u32) * (b as u32);
    if p > 0xffff {
        0xffff
    } else {
        p as u16
    }
}

pub fn menu_popup_area(choice_count: u16, area: Area) -> (r: Area)
    requires
        choice_count <= 32763,
        centering_fits(
            min_int(
                max_int(min_int(area.width as int * 70, u16::MAX as int) / 100, 52),
                sat_sub(area.width as int, 2),
            ) as u16,
            max_int(min_int(9 + 2 * choice_count, sat_sub(area.height as int, 2)), 12) as u16,
            area,
        ),
    ensures
        r == menu_popup(choice_count, area),
{
    let room_h: u16 = if area.height >= 2 {
        area.height - 2
    } else {
        0
    };
    let want_h: u16 = 9 + sat_mul_u16(choice_count, 2);
    let height: u16 = if want_h <= room_h {
        want_h
    } else {
        room_h
    };
    let scaled: u16 = sat_mul_u16(area.width, 70) / 100;
    let width: u16 = if scaled >= 52 {
        scaled
    } else {
        52
    };
    let room_w: u16 = if area.width >= 2 {
        area.width - 2
    } else {
        0
    };
    let w: u16 = if width <= room_w {
        width
    } else {
        room_w
    };
    let h: u16 = if height >= 12 {
        height
    } else {
        12
    };
    centered_rect_fixed(w, h, area)
}

pub fn prompt_popup_area(area: Area) -> (r: Area)
    requires
        centering_fits(
            min_int(
                max_int(min_int(area.width as int * 60, u16::MAX as int) / 100, 48),
                sat_sub(area.width as int, 2),
            ) as u16,
            max_int(min_int(12, sat_sub(area.height as int, 2)), 8) as u16,
            area,
        ),
    ensures
        r == prompt_popup(area),
{
    let scaled: u16 = sat_mul_u16(area.width, 60) / 100;
    let width: u16 = if scaled >= 48 {
        scaled
    } else {
        48
    };
    let room_w: u16 = if area.width >= 2 {
        area.width - 2
    } else {
        0
    };
    let w: u16 = if width <= room_w {
        width
    } else {
        room_w
    };
    let room_h: u16 = if area.height >= 2 {
        area.height - 2
    } else {
        0
    };
    let hh: u16 = if 12 <= room_h {
        12
    } else {
        room_h
    };
    let h: u16 = if hh >= 8 {
        hh
    } else {
        8
    };
    centered_rect_fixed(w, h, area)
}


// ---------------------------------------------------------------------------
// Card readings
// ---------------------------------------------------------------------------

/// The thermals line of a card: temperature, fan speed and clock.
pub fn thermals_line(g: &GpuState) -> (r: String)
    ensures
        r@ == g@.temperature_c + " C  fan "@ + percent_text(g@.fan_speed_pct) + "  clock "@
            + g@.graphics_clock_mhz + " MHz"@,
{
    let mut m = string_from(g.temperature_c.as_str());
    push_str(&mut m, " C  fan ");
    push_str(&mut m, format_percent(g.fan_speed_pct.as_str()).as_str());
    push_str(&mut m, "  clock ");
    push_str(&mut m, g.graphics_clock_mhz.as_str());
    push_str(&mut m, " MHz");
    m
}

/// The load line of a card: GPU and memory utilization.
pub fn load_line(g: &GpuState) -> (r: String)
    ensures
        r@ == "gpu "@ + percent_text(g@.gpu_utilization_pct) + "  mem "@ + percent_text(
            g@.memory_utilization_pct,
        ),
{
    let mut m = string_from("gpu ");
    push_str(&mut m, format_percent(g.gpu_utilization_pct.as_str()).as_str());
    push_str(&mut m, "  mem ");
    push_str(&mut m, format_percent(g.memory_utilization_pct.as_str()).as_str());
    m
}

/// The fan control mode of a card, `unknown` when the driver gave none.
pub fn fan_mode(g: &GpuState) -> (r: String)
    ensures
        r@ == match g@.fan_control_state {
            Some(m) => m,
            None => "unknown"@,
        },
{
    match &g.fan_control_state {
        Some(m) => string_from(m.as_str()),
        None => string_from("unknown"),
    }
}

/// The power line of a card: draw and limit in watts.
pub fn power_line(g: &GpuState) -> (r: String)
    ensures
        r@ == "draw "@ + g@.draw_w + " W  TDP "@ + g@.limit_w + " W"@,
{
    let mut m = string_from("draw ");
    push_str(&mut m, g.draw_w.as_str());
    push_str(&mut m, " W  TDP ");
    push_str(&mut m, g.limit_w.as_str());
    push_str(&mut m, " W");
    m
}

/// A gauge label: the name and the percentage reading.
pub fn gauge_label(name: &str, value: &str) -> (r: String)
    ensures
        r@ == name@ + " "@ + percent_text(value@),
{
    let mut m = string_from(name);
    push_str(&mut m, " ");
    push_str(&mut m, format_percent(value).as_str());
    m
}

} // verus!
