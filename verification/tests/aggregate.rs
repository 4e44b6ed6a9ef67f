use env_yoink::aggregate::{aggregate, bytes_less, render, same_text, ResultSet};

fn names(list: &[&str]) -> Vec<String> {
    list.iter().map(|s| s.to_string()).collect()
}

#[test]
fn aggregate_keeps_each_name_once() {
    let set = aggregate(names(&["B", "A", "B", "A", "C", "B"]));
    assert_eq!(set.len(), 3);
    assert_eq!(set.names(), &names(&["A", "B", "C"]));
}

#[test]
fn aggregate_orders_by_bytes() {
    let set = aggregate(names(&["b", "a_b", "a", "B", "aB", "\u{e9}", "z", ""]));
    assert_eq!(set.names(), &names(&["", "B", "a", "aB", "a_b", "b", "z", "\u{e9}"]));
}

#[test]
fn aggregate_of_nothing_is_empty() {
    let set = aggregate(Vec::new());
    assert_eq!(set.len(), 0);
    assert!(set.names().is_empty());
}

#[test]
fn aggregate_forgets_the_order_of_its_input() {
    let one = aggregate(names(&["X", "Y", "Z", "X"]));
    let other = aggregate(names(&["Z", "Z", "Y", "X"]));
    assert_eq!(one.names(), other.names());
    assert_eq!(render(&one), render(&other));
}

#[test]
fn insert_tells_whether_the_name_is_new() {
    let mut set = ResultSet::new();
    assert!(set.insert("KEY".to_string()));
    assert!(!set.insert("KEY".to_string()));
    assert!(set.insert("KEX".to_string()));
    assert_eq!(set.len(), 2);
    assert!(set.contains("KEY"));
    assert!(set.contains("KEX"));
    assert!(!set.contains("KE"));
    assert_eq!(set.names(), &names(&["KEX", "KEY"]));
}

#[test]
fn extend_adds_to_what_is_there() {
    let mut set = aggregate(names(&["M"]));
    set.extend(names(&["Z", "A", "M"]));
    assert_eq!(set.names(), &names(&["A", "M", "Z"]));
}

#[test]
fn render_writes_a_line_for_each_name() {
    let set = aggregate(names(&["PORT", "API_KEY", "PORT"]));
    assert_eq!(render(&set), "API_KEY=\nPORT=\n");
}

#[test]
fn render_of_the_empty_set_is_empty() {
    assert_eq!(render(&ResultSet::new()), "");
}

#[test]
fn rendered_text_holds_no_line_twice() {
    let set = aggregate(names(&["A", "B", "A", "C", "B", "A"]));
    let text = render(&set);
    let lines: Vec<&str> = text.lines().collect();
    for i in 0..lines.len() {
        for j in 0..i {
            assert_ne!(lines[i], lines[j]);
        }
    }
    assert_eq!(lines, vec!["A=", "B=", "C="]);
}

#[test]
fn bytes_less_is_the_order_of_a_dictionary() {
    assert!(bytes_less(b"", b"a"));
    assert!(bytes_less(b"a", b"ab"));
    assert!(bytes_less(b"ab", b"b"));
    assert!(bytes_less(b"A", b"a"));
    assert!(!bytes_less(b"a", b"a"));
    assert!(!bytes_less(b"", b""));
    assert!(!bytes_less(b"b", b"ab"));
    assert!(!bytes_less(b"ab", b"a"));
}

#[test]
fn same_text_compares_whole_texts() {
    assert!(same_text("", ""));
    assert!(same_text("KEY", "KEY"));
    assert!(!same_text("KEY", "KEY "));
    assert!(!same_text("KEY", "KEZ"));
    assert!(!same_text("", "K"));
}
