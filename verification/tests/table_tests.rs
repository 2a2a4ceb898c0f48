use lib::table::Table;
use lib::chunk_values::Values;

fn key(s: &str) -> String {
    s.to_string()
}

#[test]
fn set_reports_new_names() {
    let mut t = Table::new();
    assert!(t.set_table(key("a"), Values::int_val(1), true));
    assert!(!t.set_table(key("a"), Values::int_val(2), false));
    assert!(t.set_table(key("b"), Values::int_val(3), true));
}

#[test]
fn read_after_write() {
    let mut t = Table::new();
    t.set_table(key("a"), Values::int_val(1), true);
    t.set_table(key("b"), Values::bool_val(true), false);
    let (v, m) = t.get_value(&key("a")).unwrap();
    assert_eq!(v.as_int(), Some(1));
    assert!(m);
    t.set_table(key("a"), Values::int_val(5), false);
    let (v, m) = t.get_value(&key("a")).unwrap();
    assert_eq!(v.as_int(), Some(5));
    assert!(!m);
    let (v, _) = t.get_value(&key("b")).unwrap();
    assert_eq!(v.as_bool(), Some(true));
    assert!(t.get_value(&key("c")).is_none());
}

#[test]
fn delete_unbinds() {
    let mut t = Table::new();
    t.set_table(key("a"), Values::int_val(1), true);
    t.set_table(key("b"), Values::int_val(2), true);
    assert!(t.delete(&key("a")));
    assert!(!t.delete(&key("a")));
    assert!(t.get_value(&key("a")).is_none());
    assert_eq!(t.get_value(&key("b")).unwrap().0.as_int(), Some(2));
}

#[test]
fn add_all_copies_and_overrides() {
    let mut t = Table::new();
    t.set_table(key("a"), Values::int_val(1), true);
    t.set_table(key("b"), Values::int_val(2), true);
    let mut u = Table::new();
    u.set_table(key("b"), Values::int_val(20), false);
    u.set_table(key("c"), Values::int_val(30), true);
    t.add_all(&u);
    assert_eq!(t.get_value(&key("a")).unwrap().0.as_int(), Some(1));
    let (b, m) = t.get_value(&key("b")).unwrap();
    assert_eq!(b.as_int(), Some(20));
    assert!(!m);
    assert_eq!(t.get_value(&key("c")).unwrap().0.as_int(), Some(30));
    assert_eq!(u.get_value(&key("a")).map(|p| p.1), None);
}
