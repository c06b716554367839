use vidya::props::{
    avatar_initial, kind_code, name_colour_rgb, prop_bool, prop_label, prop_str, scroll_end_step,
    AWAY_FRAMES,
};
use vidya::tree::{Tree, Value};

#[test]
fn typed_prop_reads() {
    let s = Value::Str("hi".into());
    let one = Value::Num(1.0f64.to_bits());
    let neg_zero = Value::Num((-0.0f64).to_bits());
    let nan = Value::Num(f64::NAN.to_bits());
    assert_eq!(prop_str(Some(&s)), "hi");
    assert_eq!(prop_str(Some(&one)), "");
    assert_eq!(prop_str(None), "");
    assert!(prop_bool(Some(&one), false));
    assert!(!prop_bool(Some(&neg_zero), true));
    assert!(prop_bool(Some(&nan), false));
    assert!(prop_bool(Some(&Value::Bool(true)), false));
    assert!(prop_bool(Some(&s), true));
    assert!(!prop_bool(None, false));
}

#[test]
fn label_falls_back_to_text() {
    let empty = Value::Str(String::new());
    let text = Value::Str("body".into());
    let label = Value::Str("Save".into());
    assert_eq!(prop_label(Some(&label), Some(&text)), "Save");
    assert_eq!(prop_label(Some(&empty), Some(&text)), "body");
    assert_eq!(prop_label(None, None), "");
}

#[test]
fn button_kinds_from_keywords() {
    assert_eq!(kind_code("primary"), 1);
    assert_eq!(kind_code("destructive"), 2);
    assert_eq!(kind_code("flat"), 0);
}

#[test]
fn end_of_scroll_reports_change_only() {
    // First settle is recorded but not reported.
    assert_eq!(scroll_end_step(true, 0, None), (0, Some(true), None));
    // Staying at the end reports nothing.
    assert_eq!(scroll_end_step(true, 0, Some(true)), (0, Some(true), None));
    // Leaving needs AWAY_FRAMES frames away.
    let mut away = 0;
    let mut rec = Some(true);
    let mut reports = Vec::new();
    for _ in 0..AWAY_FRAMES {
        let (a, r, rep) = scroll_end_step(false, away, rec);
        away = a;
        rec = r;
        reports.push(rep);
    }
    assert_eq!(reports, vec![None, None, Some(false)]);
    // Coming back is reported at once.
    assert_eq!(scroll_end_step(true, away, rec), (0, Some(true), Some(true)));
    assert_eq!(scroll_end_step(false, u32::MAX, Some(false)), (u32::MAX, Some(false), None));
}

#[test]
fn avatar_colours_and_initials() {
    // FNV-1a of "" is the offset basis 2166136261, which is 1 mod 6.
    assert_eq!(name_colour_rgb(""), (204, 140, 63));
    assert_eq!(name_colour_rgb("ada"), name_colour_rgb("ada"));
    assert_eq!(avatar_initial("#rust"), "R");
    assert_eq!(avatar_initial("@ß"), "SS");
    assert_eq!(avatar_initial("~~"), "?");
    assert_eq!(avatar_initial(""), "?");
}

#[test]
fn toggles_edits_and_scroll_reports_queue_events() {
    let mut tree = Tree::default();
    let check = tree.new_node("check-button");
    let entry = tree.new_node("entry");
    tree.record_toggle(check, true);
    assert_eq!(tree.get(check, "active"), Some(&Value::Bool(true)));
    assert!(!tree.record_edit(entry, String::new()));
    assert!(tree.record_edit(entry, "hello".into()));
    assert!(!tree.record_edit(entry, "hello".into()));
    assert_eq!(tree.get(entry, "text"), Some(&Value::Str("hello".into())));
    tree.record_scroll_end(entry, false);

    assert!(tree.poll());
    let e = tree.current().unwrap();
    assert_eq!((e.node, e.name.as_str(), e.num), (check, "toggled", 1.0f64.to_bits()));
    assert!(tree.poll());
    let e = tree.current().unwrap();
    assert_eq!((e.node, e.name.as_str(), e.text.as_str()), (entry, "change", "hello"));
    assert!(tree.poll());
    let e = tree.current().unwrap();
    assert_eq!((e.name.as_str(), e.text.as_str(), e.num), ("change", "away", 0));
    assert!(!tree.poll());
}

#[test]
fn scroll_requests_are_found_below() {
    let mut tree = Tree::default();
    let list = tree.new_node("scroll");
    let row = tree.new_node("label");
    let other = tree.new_node("label");
    tree.append(tree.root(), list);
    tree.append(list, row);
    tree.append(tree.root(), other);
    assert!(!tree.wants_scroll_to(list));
    tree.set(row, "scroll-here", Value::Bool(true));
    assert!(tree.wants_scroll_to(list));
    assert!(tree.wants_scroll_to(tree.root()));
    assert!(!tree.wants_scroll_to(other));
    assert!(!tree.wants_scroll_to(999));
}
