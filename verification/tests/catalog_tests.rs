use lifec::attributes::Value;
use lifec::catalog::Item;

#[derive(Default)]
struct Settings {
    enabled: bool,
    count: i32,
    label: String,
    seen: Vec<String>,
}

impl Item for Settings {
    fn visit_bool(&mut self, name: &str, value: bool) {
        self.seen.push(name.to_string());
        self.enabled = value;
    }

    fn visit_int(&mut self, name: &str, value: i32) {
        self.seen.push(name.to_string());
        self.count = value;
    }

    fn visit_text(&mut self, name: &str, value: &str) {
        self.seen.push(name.to_string());
        self.label = value.to_string();
    }
}

#[test]
fn visit_hands_each_value_to_its_kind() {
    let mut s = Settings::default();
    s.visit("enabled", &Value::Bool(true));
    s.visit("count", &Value::Int(5));
    s.visit("label", &Value::TextBuffer("hello".to_string()));
    assert!(s.enabled);
    assert_eq!(s.count, 5);
    assert_eq!(s.label, "hello");
    assert_eq!(s.seen, vec!["enabled", "count", "label"]);
}

#[test]
fn visit_of_an_unhandled_kind_leaves_the_item() {
    let mut s = Settings::default();
    s.visit("pair", &Value::IntPair(1, 2));
    s.visit("symbol", &Value::Symbol("x".to_string()));
    s.visit("bytes", &Value::BinaryVector(vec![1, 2]));
    assert!(!s.enabled);
    assert_eq!(s.count, 0);
    assert!(s.seen.is_empty());
}

#[test]
fn item_mut_changes_the_item_in_place() {
    let mut s = Settings::default();
    s.item_mut().count = 9;
    assert_eq!(s.item_ref().count, 9);
}
