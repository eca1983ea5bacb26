use widget_wiring::format::format_two_decimals;
use widget_wiring::registry::{NamedRegistry, RegistryError};
use widget_wiring::systems::{register_user_functions, register_widgets, UserFn};
use widget_wiring::table::Table;

#[test]
fn format_zero() {
    assert_eq!(format_two_decimals(0), "0.00");
}

#[test]
fn format_small_fraction_pads() {
    assert_eq!(format_two_decimals(5), "0.05");
    assert_eq!(format_two_decimals(-5), "-0.05");
}

#[test]
fn format_exact_values() {
    assert_eq!(format_two_decimals(314), "3.14");
    assert_eq!(format_two_decimals(100), "1.00");
    assert_eq!(format_two_decimals(99999), "999.99");
    assert_eq!(format_two_decimals(-314), "-3.14");
}

#[test]
fn format_extreme_values() {
    assert_eq!(format_two_decimals(i64::MAX), "92233720368547758.07");
    assert_eq!(format_two_decimals(i64::MIN), "-92233720368547758.08");
}

#[test]
fn two_templates_resolve_independently() {
    let mut comps: NamedRegistry<u64> = NamedRegistry::new();
    assert!(comps.register("slider".to_string(), 11).is_ok());
    assert!(comps.register("dialog".to_string(), 22).is_ok());
    assert_eq!(comps.get(&"slider".to_string()), Some(&11));
    assert_eq!(comps.get(&"dialog".to_string()), Some(&22));
}

#[test]
fn duplicate_name_is_refused_and_keeps_first_binding() {
    let mut comps: NamedRegistry<u64> = NamedRegistry::new();
    assert!(comps.register("slider".to_string(), 11).is_ok());
    assert_eq!(
        comps.register("slider".to_string(), 22),
        Err(RegistryError::DuplicateName)
    );
    assert_eq!(comps.get(&"slider".to_string()), Some(&11));
}

#[test]
fn unbound_name_resolves_to_nothing() {
    let comps: NamedRegistry<u64> = NamedRegistry::new();
    assert_eq!(comps.get(&"slider".to_string()), None);
}

#[test]
fn register_widgets_binds_slider_template() {
    let mut comps: NamedRegistry<u64> = NamedRegistry::new();
    assert!(register_widgets(&mut comps, 42).is_ok());
    assert_eq!(comps.get(&"slider".to_string()), Some(&42));
    assert_eq!(
        register_widgets(&mut comps, 43),
        Err(RegistryError::DuplicateName)
    );
    assert_eq!(comps.get(&"slider".to_string()), Some(&42));
}

#[test]
fn register_user_functions_binds_all_five() {
    let mut funcs: NamedRegistry<UserFn> = NamedRegistry::new();
    assert!(register_user_functions(&mut funcs).is_ok());
    assert_eq!(
        funcs.get(&"notify_slider_change".to_string()),
        Some(&UserFn::NotifySliderChange)
    );
    assert_eq!(
        funcs.get(&"notify_slider_mouse_up".to_string()),
        Some(&UserFn::NotifySliderMouseUp)
    );
    assert_eq!(
        funcs.get(&"notify_input_change".to_string()),
        Some(&UserFn::NotifyInputChange)
    );
    assert_eq!(
        funcs.get(&"notify_select_change".to_string()),
        Some(&UserFn::NotifySelectChange)
    );
    assert_eq!(
        funcs.get(&"on_button_press".to_string()),
        Some(&UserFn::OnButtonPress)
    );
}

#[test]
fn register_user_functions_twice_is_refused() {
    let mut funcs: NamedRegistry<UserFn> = NamedRegistry::new();
    assert!(register_user_functions(&mut funcs).is_ok());
    assert_eq!(
        register_user_functions(&mut funcs),
        Err(RegistryError::DuplicateName)
    );
    assert_eq!(
        funcs.get(&"on_button_press".to_string()),
        Some(&UserFn::OnButtonPress)
    );
}

#[test]
fn table_insert_get_and_overwrite() {
    let mut t: Table<u32> = Table::new();
    assert!(t.get(1).is_none());
    t.insert(1, 10);
    t.insert(2, 20);
    assert_eq!(t.get(1), Some(&10));
    assert_eq!(t.get(2), Some(&20));
    t.insert(1, 30);
    assert_eq!(t.get(1), Some(&30));
}

#[test]
fn table_remove_and_keys() {
    let mut t: Table<u32> = Table::new();
    t.insert(1, 10);
    t.insert(2, 20);
    t.insert(3, 30);
    t.remove(2);
    assert!(t.get(2).is_none());
    assert!(t.contains(1));
    assert!(!t.contains(2));
    let mut ks = t.keys();
    ks.sort();
    assert_eq!(ks, vec![1, 3]);
}

#[test]
fn table_take_returns_value() {
    let mut t: Table<String> = Table::new();
    t.insert(5, "five".to_string());
    assert_eq!(t.take(5), Some("five".to_string()));
    assert_eq!(t.take(5), None);
}
