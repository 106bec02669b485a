use deltegic::ui::{container_id, default_input_type, ButtonWidget, CheckboxWidget, SectionSlot, SelectWidget, TableWidget, TabsBuilder, WidgetValues};

#[test]
fn input_type_default() {
    assert_eq!(default_input_type(), "text");
}

#[test]
fn container_ids_are_hex() {
    assert_eq!(container_id("form", 0), "form_0");
    assert_eq!(container_id("panel", 255), "panel_ff");
    let n: u128 = 1_712_345_678_901_234_567;
    assert_eq!(container_id("window", n), format!("window_{:x}", n));
    assert_eq!(container_id("tabs", u128::MAX), format!("tabs_{:x}", u128::MAX));
}

#[test]
fn widget_values() {
    let mut v = WidgetValues::new();
    assert_eq!(v.get_value("name"), "");
    v.set_value("name", "Ann");
    v.set_value("age", "3");
    v.set_value("name", "Bob");
    assert_eq!(v.get_value("name"), "Bob");
    assert_eq!(v.get_value("age"), "3");
    assert_eq!(v.all_values(), vec![("name".to_string(), "Bob".to_string()), ("age".to_string(), "3".to_string())]);
}

#[test]
fn sections_collect_widgets_while_open() {
    let mut slot: SectionSlot<u32> = SectionSlot::new();
    assert!(!slot.add(1));
    assert!(slot.finish().is_none());
    slot.begin("form_1".to_string(), "Login");
    assert!(slot.add(2));
    assert!(slot.add(3));
    let s = slot.finish().unwrap();
    assert_eq!((s.id.as_str(), s.title.as_str()), ("form_1", "Login"));
    assert_eq!(s.children, vec![2, 3]);
    assert!(slot.finish().is_none());
    slot.begin("a".to_string(), "A");
    slot.add(4);
    slot.begin("b".to_string(), "B");
    assert!(slot.finish().unwrap().children.is_empty());
}

#[test]
fn tabs_collect_pages() {
    let mut t: TabsBuilder<&str> = TabsBuilder::new("tabs_1".to_string());
    assert_eq!(t.id_text(), "tabs_1");
    assert!(!t.add("lost"));
    t.end_tab();
    assert!(t.tabs().is_empty());
    t.begin_tab("General");
    assert!(t.add("name"));
    t.add("email");
    t.end_tab();
    t.begin_tab("Advanced");
    t.end_tab();
    let pages: Vec<(String, Vec<&str>)> = t.tabs().iter().map(|p| (p.label.clone(), p.children.clone())).collect();
    assert_eq!(pages, vec![("General".to_string(), vec!["name", "email"]), ("Advanced".to_string(), vec![])]);
}

#[test]
fn plain_widgets() {
    let c = CheckboxWidget { id: "c".to_string(), label: "Remember".to_string(), checked: true };
    let s = SelectWidget { id: "s".to_string(), label: "Q".to_string(), options: vec!["a".to_string()], selected_index: 0 };
    let b = ButtonWidget { id: "b".to_string(), label: "Go".to_string(), style: String::new() };
    let t = TableWidget { id: "t".to_string(), columns: vec!["x".to_string()], rows: vec![vec!["1".to_string()]] };
    assert!(c.clone().checked);
    assert_eq!(s.clone().options.len(), 1);
    assert_eq!(b.clone().label, "Go");
    assert_eq!(t.clone().rows[0][0], "1");
}
