use widget_wiring::fire::{note_value_changed, release_entity, take_fire, MouseUpBinding,
    WantsFire};
use widget_wiring::systems::{add_wants_fire_to_slider_mouse_up, handle_mouse_up,
    notify_slider_change, update_slider_target_text, SliderChangedEvent};
use widget_wiring::table::Table;

fn track_entity(table: &mut Table<MouseUpBinding>, entity: u64, funcs: &[&str]) {
    let funcs: Vec<String> = funcs.iter().map(|f| f.to_string()).collect();
    add_wants_fire_to_slider_mouse_up(table, entity, funcs);
}

#[test]
fn flag_starts_down_and_raises_idempotently() {
    let mut w = WantsFire(false);
    note_value_changed(&mut w);
    assert!(w.0);
    note_value_changed(&mut w);
    assert!(w.0);
}

#[test]
fn take_fire_reads_and_resets() {
    let mut w = WantsFire(true);
    assert!(take_fire(&mut w));
    assert!(!w.0);
    assert!(!take_fire(&mut w));
}

#[test]
fn release_entity_consumes_flag() {
    let mut b = MouseUpBinding {
        funcs: vec!["notify_slider_mouse_up".to_string()],
        wants_fire: WantsFire(true),
    };
    assert!(release_entity(&mut b));
    assert!(!b.wants_fire.0);
    assert!(!release_entity(&mut b));
}

#[test]
fn release_entity_without_bound_function_keeps_flag() {
    let mut b = MouseUpBinding { funcs: vec![], wants_fire: WantsFire(true) };
    assert!(!release_entity(&mut b));
    assert!(b.wants_fire.0);
}

#[test]
fn many_changes_one_release_fires_once() {
    let mut table = Table::new();
    track_entity(&mut table, 7, &["notify_slider_mouse_up"]);
    for _ in 0..5 {
        notify_slider_change(&mut table, 7);
    }
    let reqs = handle_mouse_up(true, &mut table);
    assert_eq!(reqs.len(), 1);
    assert_eq!(reqs[0].entity, 7);
    assert_eq!(reqs[0].func, "notify_slider_mouse_up");
    assert!(!table.get(7).unwrap().wants_fire.0);
}

#[test]
fn release_without_pending_change_fires_nothing() {
    let mut table = Table::new();
    track_entity(&mut table, 7, &["notify_slider_mouse_up"]);
    let reqs = handle_mouse_up(true, &mut table);
    assert_eq!(reqs.len(), 0);
}

#[test]
fn second_release_without_change_fires_nothing() {
    let mut table = Table::new();
    track_entity(&mut table, 7, &["notify_slider_mouse_up"]);
    notify_slider_change(&mut table, 7);
    let first = handle_mouse_up(true, &mut table);
    assert_eq!(first.len(), 1);
    let second = handle_mouse_up(true, &mut table);
    assert_eq!(second.len(), 0);
}

#[test]
fn no_release_edge_changes_nothing() {
    let mut table = Table::new();
    track_entity(&mut table, 7, &["notify_slider_mouse_up"]);
    notify_slider_change(&mut table, 7);
    let reqs = handle_mouse_up(false, &mut table);
    assert_eq!(reqs.len(), 0);
    assert!(table.get(7).unwrap().wants_fire.0);
}

#[test]
fn only_first_bound_function_fires() {
    let mut table = Table::new();
    track_entity(&mut table, 7, &["notify_slider_mouse_up", "on_button_press"]);
    notify_slider_change(&mut table, 7);
    let reqs = handle_mouse_up(true, &mut table);
    assert_eq!(reqs.len(), 1);
    assert_eq!(reqs[0].func, "notify_slider_mouse_up");
}

#[test]
fn each_pending_entity_fires_exactly_once() {
    let mut table = Table::new();
    track_entity(&mut table, 1, &["notify_slider_mouse_up"]);
    track_entity(&mut table, 2, &["on_button_press"]);
    track_entity(&mut table, 3, &["notify_slider_mouse_up"]);
    notify_slider_change(&mut table, 1);
    notify_slider_change(&mut table, 3);
    notify_slider_change(&mut table, 3);
    let mut reqs = handle_mouse_up(true, &mut table);
    reqs.sort_by_key(|r| r.entity);
    let entities: Vec<u64> = reqs.iter().map(|r| r.entity).collect();
    assert_eq!(entities, vec![1, 3]);
}

#[test]
fn untracked_entity_change_is_silently_skipped() {
    let mut table = Table::new();
    track_entity(&mut table, 7, &["notify_slider_mouse_up"]);
    notify_slider_change(&mut table, 99);
    assert!(!table.get(7).unwrap().wants_fire.0);
    assert!(table.get(99).is_none());
}

#[test]
fn unlinked_slider_event_changes_no_text() {
    let targets = Table::new();
    let mut texts = Table::new();
    texts.insert(2, "unchanged".to_string());
    let events = vec![SliderChangedEvent { slider: 1, value_hundredths: 314 }];
    update_slider_target_text(&events, &targets, &mut texts);
    assert_eq!(texts.get(2).unwrap(), "unchanged");
}

#[test]
fn linked_target_without_text_is_skipped() {
    let mut targets = Table::new();
    targets.insert(1, 2);
    let mut texts = Table::new();
    let events = vec![SliderChangedEvent { slider: 1, value_hundredths: 314 }];
    update_slider_target_text(&events, &targets, &mut texts);
    assert!(texts.get(2).is_none());
}

#[test]
fn slider_value_is_shown_with_two_decimals() {
    let mut targets = Table::new();
    targets.insert(1, 2);
    let mut texts = Table::new();
    texts.insert(2, String::new());
    let value: f64 = 3.14159;
    let hundredths = (value * 100.0).round() as i64;
    let events = vec![SliderChangedEvent { slider: 1, value_hundredths: hundredths }];
    update_slider_target_text(&events, &targets, &mut texts);
    assert_eq!(texts.get(2).unwrap(), "3.14");
}

#[test]
fn later_event_overwrites_earlier_text() {
    let mut targets = Table::new();
    targets.insert(1, 2);
    let mut texts = Table::new();
    texts.insert(2, String::new());
    let events = vec![
        SliderChangedEvent { slider: 1, value_hundredths: 100 },
        SliderChangedEvent { slider: 1, value_hundredths: -250 },
    ];
    update_slider_target_text(&events, &targets, &mut texts);
    assert_eq!(texts.get(2).unwrap(), "-2.50");
}
