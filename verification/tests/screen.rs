use std::collections::BTreeSet;

use asterveil::app::{ActionKind, App, Key, Overlay};
use asterveil::gpu::GpuState;
use asterveil::layout::{
    card_window, centered_rect_fixed, fan_mode, gauge_label, highlighted_choice, load_line,
    menu_popup_area, power_line, prompt_popup_area, prompt_texts, thermals_line, Area, Emphasis,
    CARD_HEIGHT,
};

fn gpu(index: u32, name: &str) -> GpuState {
    GpuState {
        index,
        name: name.to_string(),
        temperature_c: "50".to_string(),
        gpu_utilization_pct: "10".to_string(),
        graphics_clock_mhz: "1500".to_string(),
        fan_speed_pct: "30".to_string(),
        memory_utilization_pct: "5".to_string(),
        memory_used_mib: "1024".to_string(),
        memory_total_mib: "8192".to_string(),
        draw_w: "40.00".to_string(),
        limit_w: "200.00".to_string(),
        default_w: "200.00".to_string(),
        min_w: "100.00".to_string(),
        max_w: "250.00".to_string(),
        fan_control_state: None,
    }
}

fn console(n: u32) -> App {
    let mut app = App::new(":0".to_string());
    app.refresh((0..n).map(|i| gpu(i, &format!("Card{i}"))).collect());
    app
}

fn area(x: u16, y: u16, width: u16, height: u16) -> Area {
    Area { x, y, width, height }
}

#[test]
fn card_windows_follow_the_focus() {
    assert_eq!(CARD_HEIGHT, 7);
    assert_eq!(card_window(5, 0, 20), (0, 2));
    assert_eq!(card_window(5, 2, 20), (1, 3));
    assert_eq!(card_window(5, 4, 20), (3, 5));
    assert_eq!(card_window(5, 4, 3), (4, 5));
    assert_eq!(card_window(2, 1, 70), (0, 2));
    assert_eq!(card_window(0, 0, 20), (0, 0));
}

#[test]
fn card_titles_and_emphasis() {
    let mut app = console(3);
    app.selected = [1usize, 0].into_iter().collect::<BTreeSet<_>>();
    assert_eq!(app.card_title(0), ">[x] GPU 0 Card0");
    assert_eq!(app.card_title(1), " [x] GPU 1 Card1");
    assert_eq!(app.card_title(2), " [ ] GPU 2 Card2");
    assert_eq!(app.card_emphasis(0), Emphasis::Focus);
    assert_eq!(app.card_emphasis(1), Emphasis::Selected);
    assert_eq!(app.card_emphasis(2), Emphasis::Plain);
}

#[test]
fn footer_follows_the_overlay() {
    let mut app = console(1);
    assert_eq!(
        app.footer_hint(),
        "Up/Down move | Space select | p power | f fan | d default | a all | c clear | r refresh | q quit"
    );
    app.open_prompt(ActionKind::Fan);
    assert_eq!(app.footer_hint(), "Up/Down move | Enter confirm | Esc cancel");
    app.open_custom_prompt(ActionKind::Power);
    assert_eq!(app.footer_hint(), "Type watts | Enter confirm | Esc cancel");
    app.open_custom_prompt(ActionKind::Fan);
    assert_eq!(app.footer_hint(), "Type percent | Enter confirm | Esc cancel");
}

#[test]
fn popup_texts() {
    let mut app = console(2);
    assert_eq!(app.popup_headline("Power Limit"), "Power Limit for GPU 0 Card0");
    app.select_all();
    assert_eq!(app.popup_headline("Custom Fan Speed"), "Custom Fan Speed for 2 selected GPU(s)");
    assert_eq!(app.scope_hint(ActionKind::Fan), "Fan speed currently writes every discovered fan target.");
    assert_eq!(app.scope_hint(ActionKind::Power), "Actions apply to the selected GPUs.");
    let choices = ActionKind::Power.choices();
    assert_eq!(highlighted_choice(&choices, 1).label, "Balanced");
    let past = highlighted_choice(&choices, 9);
    assert_eq!((past.label, past.value, past.detail), ("-", "-", ""));
    assert_eq!(
        prompt_texts(ActionKind::Power),
        ("Custom Power Limit", "Enter exact watts for the current target scope.", "Watts")
    );
    assert_eq!(
        prompt_texts(ActionKind::Fan),
        ("Custom Fan Speed", "Enter exact fan percentage for the current target scope.", "Percent")
    );
}

#[test]
fn popups_are_centred() {
    assert_eq!(menu_popup_area(5, area(0, 0, 100, 40)), area(15, 10, 70, 19));
    assert_eq!(menu_popup_area(6, area(0, 0, 40, 10)), area(1, 0, 38, 10));
    assert_eq!(prompt_popup_area(area(0, 0, 100, 40)), area(20, 14, 60, 12));
    assert_eq!(prompt_popup_area(area(0, 0, 40, 10)), area(1, 1, 38, 8));
    assert_eq!(centered_rect_fixed(10, 4, area(2, 3, 20, 10)), area(7, 6, 10, 4));
}

#[test]
fn rectangles_end_within_coordinates() {
    // The rectangle is cut so that it ends at the last coordinate.
    assert_eq!(
        centered_rect_fixed(80, 5, area(65500, 0, 100, 10)),
        area(65510, 2, 25, 5)
    );
}

#[test]
fn focus_down_then_up_returns() {
    let mut app = console(3);
    for start in 0..3 {
        app.cursor = start;
        app.handle_key(Key::Down);
        app.handle_key(Key::Up);
        assert_eq!(app.cursor, start);
        app.handle_key(Key::Up);
        app.handle_key(Key::Down);
        assert_eq!(app.cursor, start);
    }
}

#[test]
fn menu_down_then_up_returns() {
    let mut app = console(1);
    for start in 0..6 {
        app.overlay = Some(Overlay::Choice { action: ActionKind::Fan, cursor: start });
        app.handle_key(Key::Down);
        app.handle_key(Key::Up);
        assert!(matches!(app.overlay, Some(Overlay::Choice { cursor, .. }) if cursor == start));
    }
}

#[test]
fn backspace_undoes_a_digit() {
    let mut app = console(1);
    app.overlay = Some(Overlay::Prompt { action: ActionKind::Fan, input: "7".to_string() });
    app.handle_key(Key::Char('5'));
    app.handle_key(Key::Backspace);
    assert!(matches!(&app.overlay, Some(Overlay::Prompt { input, .. }) if input == "7"));
}

#[test]
fn escape_closes_without_work() {
    let mut app = console(1);
    app.open_prompt(ActionKind::Power);
    assert!(matches!(app.handle_key(Key::Esc), asterveil::app::Effect::Nothing));
    assert!(app.overlay.is_none());
    app.open_custom_prompt(ActionKind::Fan);
    assert!(matches!(app.handle_key(Key::Esc), asterveil::app::Effect::Nothing));
    assert!(app.overlay.is_none());
}

#[test]
fn toggle_leaves_other_gpus() {
    let mut app = console(4);
    app.selected = [2usize, 3].into_iter().collect();
    app.cursor = 1;
    app.toggle_selected();
    assert_eq!(app.selected, [1usize, 2, 3].into_iter().collect::<BTreeSet<_>>());
}

#[test]
fn keys_keep_focus_on_a_gpu() {
    let mut app = console(3);
    let keys = [Key::Down, Key::Down, Key::Char(' '), Key::Down, Key::Up, Key::Up, Key::Char('?')];
    for k in keys {
        app.handle_key(k);
        assert!(app.cursor < app.gpus.len());
        assert!(app.history.len() <= 4);
    }
}

#[test]
fn card_reading_lines() {
    let mut g = gpu(0, "A");
    assert_eq!(thermals_line(&g), "50 C  fan 30%  clock 1500 MHz");
    assert_eq!(load_line(&g), "gpu 10%  mem 5%");
    assert_eq!(power_line(&g), "draw 40.00 W  TDP 200.00 W");
    assert_eq!(fan_mode(&g), "unknown");
    g.fan_control_state = Some("1".to_string());
    assert_eq!(fan_mode(&g), "1");
    assert_eq!(gauge_label("GPU", "10"), "GPU 10%");
    assert_eq!(gauge_label("VRAM", "[N/A]"), "VRAM [N/A]%");
    g.memory_utilization_pct = "n/a".to_string();
    assert_eq!(load_line(&g), "gpu 10%  mem N/A");
}
