use std::collections::BTreeSet;

use asterveil::app::{ActionKind, App, Effect, Key, Overlay, DEFAULT_FAN_SPEED, HISTORY_LEN};
use asterveil::gpu::{FloatStep, GpuState, PowerError};
use asterveil::plan::{AppError, FanPlan};

fn gpu(index: u32, name: &str, min_w: &str, max_w: &str) -> GpuState {
    GpuState {
        index,
        name: name.to_string(),
        temperature_c: "68".to_string(),
        gpu_utilization_pct: "91".to_string(),
        graphics_clock_mhz: "1890".to_string(),
        fan_speed_pct: "62".to_string(),
        memory_utilization_pct: "54".to_string(),
        memory_used_mib: "18432".to_string(),
        memory_total_mib: "24576".to_string(),
        draw_w: "275.00".to_string(),
        limit_w: "350.00".to_string(),
        default_w: "350".to_string(),
        min_w: min_w.to_string(),
        max_w: max_w.to_string(),
        fan_control_state: None,
    }
}

fn console(n: u32) -> App {
    let mut app = App::new(":0".to_string());
    let gpus = (0..n).map(|i| gpu(i, &format!("Card{i}"), "100", "500")).collect();
    app.refresh(gpus);
    app
}

fn set(v: &[usize]) -> BTreeSet<usize> {
    v.iter().copied().collect()
}

#[test]
fn new_console_starts_empty() {
    let app = App::new(":1".to_string());
    assert_eq!(app.display, ":1");
    assert!(app.gpus.is_empty());
    assert_eq!(app.cursor, 0);
    assert!(app.selected.is_empty());
    assert!(app.overlay.is_none());
    assert_eq!(app.message, "Press `?` for help");
    assert!(app.history.is_empty());
    assert!(!app.quit);
}

#[test]
fn history_keeps_newest_four() {
    let mut app = App::new(":0".to_string());
    for m in ["a", "b", "c", "d", "e"] {
        app.push_message(m.to_string());
    }
    assert_eq!(app.message, "e");
    assert_eq!(app.history, vec!["e", "d", "c", "b"]);
    assert_eq!(app.history.len(), HISTORY_LEN);
}

#[test]
fn refresh_reports_and_trims_state() {
    let mut app = console(3);
    assert_eq!(app.message, "Refreshed 3 GPU(s)");
    app.cursor = 2;
    app.selected = set(&[0, 2]);
    app.refresh(vec![gpu(0, "A", "100", "500"), gpu(1, "B", "100", "500")]);
    assert_eq!(app.cursor, 1);
    assert_eq!(app.selected, set(&[0]));
    assert_eq!(app.message, "Refreshed 2 GPU(s)");
    app.refresh(Vec::new());
    assert!(app.gpus.is_empty());
    assert_eq!(app.message, "No NVIDIA GPUs found");
    assert_eq!(app.history[0], "No NVIDIA GPUs found");
}

#[test]
fn focus_wraps_both_ways() {
    let mut app = console(3);
    app.move_cursor_up();
    assert_eq!(app.cursor, 2);
    assert_eq!(app.message, "Focus GPU 2 Card2");
    app.move_cursor_down();
    assert_eq!(app.cursor, 0);
    assert_eq!(app.message, "Focus GPU 0 Card0");
    app.move_cursor_down();
    assert_eq!(app.cursor, 1);
}

#[test]
fn focus_moves_nothing_without_gpus() {
    let mut app = App::new(":0".to_string());
    app.move_cursor_down();
    app.move_cursor_up();
    app.toggle_selected();
    assert_eq!(app.cursor, 0);
    assert!(app.selected.is_empty());
    assert_eq!(app.message, "Press `?` for help");
    assert!(app.history.is_empty());
}

#[test]
fn toggle_flips_and_advances() {
    let mut app = console(2);
    app.toggle_selected();
    assert_eq!(app.selected, set(&[0]));
    assert_eq!(app.cursor, 1);
    assert_eq!(app.message, "GPU 0 Card0 selected | focus GPU 1 Card1");
    app.toggle_selected();
    assert_eq!(app.selected, set(&[0, 1]));
    assert_eq!(app.cursor, 0);
    app.toggle_selected();
    assert_eq!(app.selected, set(&[1]));
    assert_eq!(app.message, "GPU 0 Card0 cleared | focus GPU 1 Card1");
}

#[test]
fn select_all_and_clear() {
    let mut app = console(3);
    app.select_all();
    assert_eq!(app.selected, set(&[0, 1, 2]));
    assert_eq!(app.message, "Selected 3 GPU(s)");
    app.clear_selection();
    assert!(app.selected.is_empty());
    assert_eq!(app.message, "Selection cleared");
}

#[test]
fn action_targets_follow_selection() {
    let mut app = console(4);
    app.cursor = 3;
    assert_eq!(app.action_indices(), vec![3]);
    app.selected = set(&[2, 0]);
    assert_eq!(app.action_indices(), vec![0, 2]);
}

#[test]
fn menus_open_on_their_defaults() {
    let mut app = console(1);
    app.open_prompt(ActionKind::Power);
    assert!(matches!(app.overlay, Some(Overlay::Choice { action: ActionKind::Power, cursor: 1 })));
    app.open_prompt(ActionKind::Fan);
    assert!(matches!(app.overlay, Some(Overlay::Choice { action: ActionKind::Fan, cursor: 4 })));
    assert_eq!(ActionKind::Fan.choices()[4].value, DEFAULT_FAN_SPEED.to_string());
    app.close_overlay();
    assert!(app.overlay.is_none());
}

#[test]
fn custom_prompts_start_from_readings() {
    let mut app = console(1);
    app.open_custom_prompt(ActionKind::Power);
    match &app.overlay {
        Some(Overlay::Prompt { action: ActionKind::Power, input }) => assert_eq!(input, "350.00"),
        other => panic!("unexpected overlay {other:?}"),
    }
    app.open_custom_prompt(ActionKind::Fan);
    match &app.overlay {
        Some(Overlay::Prompt { action: ActionKind::Fan, input }) => assert_eq!(input, "62"),
        other => panic!("unexpected overlay {other:?}"),
    }
    let mut empty = App::new(":0".to_string());
    empty.open_custom_prompt(ActionKind::Power);
    match &empty.overlay {
        Some(Overlay::Prompt { input, .. }) => assert_eq!(input, "0"),
        other => panic!("unexpected overlay {other:?}"),
    }
    empty.open_custom_prompt(ActionKind::Fan);
    match &empty.overlay {
        Some(Overlay::Prompt { input, .. }) => assert_eq!(input, "100"),
        other => panic!("unexpected overlay {other:?}"),
    }
}

#[test]
fn main_keys() {
    let mut app = console(2);
    assert!(matches!(app.handle_key(Key::Char('r')), Effect::Refresh));
    assert!(matches!(app.handle_key(Key::Char('d')), Effect::ApplyDefault));
    assert!(matches!(app.handle_key(Key::Char('?')), Effect::Nothing));
    assert_eq!(
        app.message,
        "Arrows move | p power | f fan | d default | Space select | a all | c clear | r refresh | q quit"
    );
    assert!(matches!(app.handle_key(Key::Down), Effect::Nothing));
    assert_eq!(app.cursor, 1);
    assert!(matches!(app.handle_key(Key::Up), Effect::Nothing));
    assert_eq!(app.cursor, 0);
    app.handle_key(Key::Char(' '));
    assert_eq!(app.selected, set(&[0]));
    app.handle_key(Key::Char('a'));
    assert_eq!(app.selected, set(&[0, 1]));
    app.handle_key(Key::Char('c'));
    assert!(app.selected.is_empty());
    app.handle_key(Key::Char('x'));
    assert!(app.overlay.is_none());
    app.handle_key(Key::Char('p'));
    assert!(matches!(app.overlay, Some(Overlay::Choice { action: ActionKind::Power, cursor: 1 })));
    app.close_overlay();
    app.handle_key(Key::Enter);
    assert!(matches!(app.overlay, Some(Overlay::Choice { action: ActionKind::Power, .. })));
    app.close_overlay();
    app.handle_key(Key::Char('f'));
    assert!(matches!(app.overlay, Some(Overlay::Choice { action: ActionKind::Fan, cursor: 4 })));
    app.close_overlay();
    assert!(!app.quit);
    app.handle_key(Key::Char('q'));
    assert!(app.quit);
}

#[test]
fn menu_keys_move_and_apply() {
    let mut app = console(1);
    app.handle_key(Key::Char('p'));
    app.handle_key(Key::Down);
    assert!(matches!(app.overlay, Some(Overlay::Choice { cursor: 2, .. })));
    assert_eq!(app.message, "Power Limit preset: Default");
    app.handle_key(Key::Char('k'));
    app.handle_key(Key::Char('k'));
    app.handle_key(Key::Up);
    assert!(matches!(app.overlay, Some(Overlay::Choice { cursor: 4, .. })));
    assert_eq!(app.message, "Power Limit preset: Custom...");
    app.handle_key(Key::Char('j'));
    assert!(matches!(app.overlay, Some(Overlay::Choice { cursor: 0, .. })));
    assert_eq!(app.message, "Power Limit preset: Eco");
    match app.handle_key(Key::Enter) {
        Effect::ApplyPower(v) => assert_eq!(v, "eco"),
        other => panic!("unexpected effect {other:?}"),
    }
    assert!(app.overlay.is_none());

    app.handle_key(Key::Char('f'));
    match app.handle_key(Key::Enter) {
        Effect::ApplyFan(v) => assert_eq!(v, "100"),
        other => panic!("unexpected effect {other:?}"),
    }
    app.handle_key(Key::Char('f'));
    app.handle_key(Key::Esc);
    assert!(app.overlay.is_none());
}

#[test]
fn menu_row_past_end_counts_as_last() {
    let mut app = console(1);
    app.overlay = Some(Overlay::Choice { action: ActionKind::Fan, cursor: 99 });
    app.handle_key(Key::Other);
    assert!(matches!(app.overlay, Some(Overlay::Choice { action: ActionKind::Fan, cursor: 5 })));
    app.overlay = Some(Overlay::Choice { action: ActionKind::Fan, cursor: 99 });
    app.handle_key(Key::Down);
    assert!(matches!(app.overlay, Some(Overlay::Choice { cursor: 0, .. })));
    assert_eq!(app.message, "Fan Speed preset: Auto");
}

#[test]
fn custom_preset_opens_prompt() {
    let mut app = console(1);
    app.overlay = Some(Overlay::Choice { action: ActionKind::Power, cursor: 4 });
    assert!(matches!(app.handle_key(Key::Enter), Effect::Nothing));
    match &app.overlay {
        Some(Overlay::Prompt { action: ActionKind::Power, input }) => assert_eq!(input, "350.00"),
        other => panic!("unexpected overlay {other:?}"),
    }
}

fn prompt_input(app: &App) -> String {
    match &app.overlay {
        Some(Overlay::Prompt { input, .. }) => input.clone(),
        other => panic!("unexpected overlay {other:?}"),
    }
}

#[test]
fn prompt_keys_edit_and_apply() {
    let mut app = console(1);
    app.overlay = Some(Overlay::Prompt { action: ActionKind::Power, input: "25".to_string() });
    app.handle_key(Key::Char('0'));
    app.handle_key(Key::Char('.'));
    app.handle_key(Key::Char('x'));
    app.handle_key(Key::Up);
    assert_eq!(prompt_input(&app), "250.");
    app.handle_key(Key::Backspace);
    assert_eq!(prompt_input(&app), "250");
    match app.handle_key(Key::Enter) {
        Effect::ApplyPower(v) => assert_eq!(v, "250"),
        other => panic!("unexpected effect {other:?}"),
    }
    assert!(app.overlay.is_none());

    app.overlay = Some(Overlay::Prompt { action: ActionKind::Fan, input: " 4".to_string() });
    app.handle_key(Key::Char('.'));
    app.handle_key(Key::Char('2'));
    assert_eq!(prompt_input(&app), " 42");
    match app.handle_key(Key::Enter) {
        Effect::ApplyFan(v) => assert_eq!(v, "42"),
        other => panic!("unexpected effect {other:?}"),
    }

    app.overlay = Some(Overlay::Prompt { action: ActionKind::Fan, input: String::new() });
    app.handle_key(Key::Backspace);
    assert_eq!(prompt_input(&app), "");
    app.handle_key(Key::Esc);
    assert!(app.overlay.is_none());
}

#[test]
fn summaries_and_hints() {
    let empty = App::new(":0".to_string());
    assert_eq!(empty.target_summary(), "No GPU target");
    assert_eq!(empty.prompt_target_summary(), "GPU");
    assert_eq!(empty.focus_title(), "GPU");
    assert_eq!(empty.focus_snapshot("x"), "No focused GPU");

    let mut app = console(3);
    assert_eq!(app.target_summary(), "GPU 0 Card0");
    assert_eq!(app.selection_scope_hint(), "Actions apply to the focused GPU.");
    app.selected = set(&[0, 2]);
    assert_eq!(app.target_summary(), "2 selected GPU(s)");
    assert_eq!(app.prompt_target_summary(), "2 selected GPU(s)");
    assert_eq!(app.selection_scope_hint(), "Actions apply to the selected GPUs.");
    assert_eq!(app.fan_scope_hint(), "Fan speed currently writes every discovered fan target.");
}

#[test]
fn focus_snapshot_line() {
    let mut app = App::new(":0".to_string());
    let mut g = gpu(0, "NVIDIA GeForce RTX 3090", "100", "500");
    g.memory_utilization_pct = "N/A".to_string();
    app.refresh(vec![g.clone()]);
    assert_eq!(
        app.focus_snapshot("18.0/24.0 GiB (75%)"),
        "GPU 0 NVIDIA GeForce RTX 3090 | 68 C | load 91% | mem N/A | clock 1890 MHz | fan 62% | mode unknown | VRAM 18.0/24.0 GiB (75%)"
    );
    g.fan_control_state = Some("1".to_string());
    app.refresh(vec![g]);
    assert!(app.focus_snapshot("v").contains("| mode 1 |"));
}

#[test]
fn action_kind_texts() {
    assert_eq!(ActionKind::Power.title(), "Power Limit");
    assert_eq!(ActionKind::Fan.title(), "Fan Speed");
    assert_eq!(ActionKind::Power.helper(), "Choose a power profile for the active target scope.");
    assert_eq!(ActionKind::Fan.helper(), "Choose a fixed fan preset or return control to auto.");
    assert_eq!(ActionKind::Power.shortcut(), "p");
    assert_eq!(ActionKind::Fan.shortcut(), "f");
    let power: Vec<&str> = ActionKind::Power.choices().iter().map(|c| c.value).collect();
    assert_eq!(power, vec!["eco", "balanced", "default", "performance", "custom"]);
    let fan: Vec<&str> = ActionKind::Fan.choices().iter().map(|c| c.label).collect();
    assert_eq!(fan, vec!["Auto", "40%", "60%", "80%", "100%", "Custom..."]);
}

#[test]
fn power_plan_steps() {
    let mut app = App::new(":0".to_string());
    app.refresh(vec![gpu(0, "A", "100", "500"), gpu(3, "B", "200", "300")]);
    app.selected = set(&[0, 1]);
    let p = app.plan_power(" balanced ");
    assert_eq!(p.targets, vec![0, 1]);
    assert_eq!(p.steps, vec![(0, Ok("300".to_string())), (3, Ok("250".to_string()))]);
    assert_eq!(p.failure, None);
    assert_eq!(p.message, "Power set to balanced");

    let p = app.plan_power("150.5");
    assert_eq!(
        p.steps,
        vec![
            (0, Err(PowerError::NeedsFloat(FloatStep::Clamp))),
            (3, Err(PowerError::NeedsFloat(FloatStep::Clamp))),
        ]
    );
    assert_eq!(p.failure, None);

    app.selected = set(&[0, 5]);
    let p = app.plan_power("150");
    assert_eq!(p.steps, vec![(0, Ok("150".to_string()))]);
    assert_eq!(p.failure, Some(AppError::GpuIndexOutOfRange));

    app.selected.clear();
    let p = app.plan_power("fast");
    assert!(p.steps.is_empty());
    assert_eq!(p.failure, Some(AppError::InvalidPower(PowerError::InvalidValue)));
}

#[test]
fn fan_plans() {
    let mut app = console(2);
    app.selected = set(&[1]);
    match app.plan_fan(" Auto ") {
        FanPlan::Auto { targets, message } => {
            assert_eq!(targets, vec![1]);
            assert_eq!(message, "Fan control returned to auto");
        },
        other => panic!("unexpected plan {other:?}"),
    }
    match app.plan_fan(" 60 ") {
        FanPlan::Fixed { targets, speed, message } => {
            assert_eq!(targets, vec![1]);
            assert_eq!(speed, 60);
            assert_eq!(message, "Fan speed set to 60% across discovered fan target(s)");
        },
        other => panic!("unexpected plan {other:?}"),
    }
    assert!(matches!(app.plan_fan("sixty"), FanPlan::Invalid(AppError::InvalidFanSpeed)));
    assert!(matches!(app.plan_fan("-5"), FanPlan::Invalid(AppError::InvalidFanSpeed)));
    assert!(matches!(app.plan_fan("4294967296"), FanPlan::Invalid(AppError::InvalidFanSpeed)));
}

#[test]
fn default_plan_steps() {
    let mut app = console(2);
    app.selected = set(&[1, 7]);
    let p = app.plan_default();
    assert_eq!(p.targets, vec![1, 7]);
    assert_eq!(p.steps, vec![(1, "350".to_string())]);
    assert_eq!(p.failure, Some(AppError::GpuIndexOutOfRange));
    assert_eq!(p.message, "Applied default settings");
    app.selected.clear();
    let p = app.plan_default();
    assert_eq!(p.steps, vec![(0, "350".to_string())]);
    assert_eq!(p.failure, None);
}

#[test]
fn choice_details() {
    let app = console(1);
    let power = ActionKind::Power.choices();
    assert_eq!(
        app.choice_detail(ActionKind::Power, power[1], None),
        "Set each card to the midpoint between min and max. Focused GPU: 300 W"
    );
    assert_eq!(
        app.choice_detail(ActionKind::Power, power[2], Some("1")),
        "Restore the vendor default power limit. Focused GPU: 350 W"
    );
    assert_eq!(app.choice_detail(ActionKind::Power, power[4], None), "Enter an exact watt limit.");
    let fan = ActionKind::Fan.choices();
    assert_eq!(app.choice_detail(ActionKind::Fan, fan[0], Some("1")), "Return fan control to the driver.");
    let empty = App::new(":0".to_string());
    assert_eq!(
        empty.choice_detail(ActionKind::Power, power[0], None),
        "Clamp to each card's minimum power limit."
    );
    let mut odd = App::new(":0".to_string());
    odd.refresh(vec![gpu(0, "A", "100.5", "500")]);
    assert_eq!(
        odd.choice_detail(ActionKind::Power, power[1], Some("300")),
        "Set each card to the midpoint between min and max. Focused GPU: 300 W"
    );
    assert_eq!(
        odd.choice_detail(ActionKind::Power, power[1], None),
        "Set each card to the midpoint between min and max."
    );
}

#[test]
fn readme_keys_move_and_quit() {
    let mut app = console(3);
    app.handle_key(Key::Char('j'));
    assert_eq!(app.cursor, 1);
    assert_eq!(app.message, "Focus GPU 1 Card1");
    app.handle_key(Key::Char('k'));
    app.handle_key(Key::Char('k'));
    assert_eq!(app.cursor, 2);
    assert!(!app.quit);
    assert!(matches!(app.handle_key(Key::Esc), Effect::Nothing));
    assert!(app.quit);
}

#[test]
fn refresh_timing() {
    assert_eq!(App::poll_timeout(0), 500_000_000);
    assert_eq!(App::poll_timeout(120_000_000), 380_000_000);
    assert_eq!(App::poll_timeout(500_000_000), 0);
    assert_eq!(App::poll_timeout(u128::MAX), 0);
    assert!(!App::refresh_due(499_999_999));
    assert!(App::refresh_due(500_000_000));
    assert!(App::refresh_due(2_000_000_000));
}
