use dblp::bag::{join_string_vec, join_strings, split_bag, SEPARATOR};
use dblp::roster::{clone_names, contains_name, insert_name, insert_names};
use dblp::text::{chars_of, decimal_string, string_of};

fn strings(items: &[&str]) -> Vec<String> {
    items.iter().map(|s| s.to_string()).collect()
}

#[test]
fn separator_is_two_colons() {
    assert_eq!(SEPARATOR, "::");
}

#[test]
fn join_bounds_and_joins_with_the_separator() {
    assert_eq!(join_string_vec(strings(&["a", "b", "c"])), "::a::b::c::");
    assert_eq!(join_string_vec(strings(&["A. One"])), "::A. One::");
    assert_eq!(join_strings(&strings(&["x", "y"])), "::x::y::");
}

#[test]
fn join_of_nothing_is_empty() {
    assert_eq!(join_string_vec(Vec::new()), "");
}

#[test]
fn split_reads_the_entries() {
    assert_eq!(split_bag("::a::b::c::"), strings(&["a", "b", "c"]));
    assert_eq!(split_bag(""), Vec::<String>::new());
    assert_eq!(split_bag("::"), Vec::<String>::new());
    assert_eq!(split_bag("::::"), Vec::<String>::new());
    assert_eq!(split_bag("a::b"), strings(&["a", "b"]));
    assert_eq!(split_bag("::a:b::"), strings(&["a:b"]));
    assert_eq!(split_bag(":"), strings(&[":"]));
}

#[test]
fn bag_round_trip() {
    let lists: Vec<Vec<String>> = vec![
        Vec::new(),
        strings(&["Jane Doe"]),
        strings(&["A. One", "B. Two"]),
        strings(&["a:b", ":lead", "M\u{fc}ller 0001", "x"]),
    ];
    for list in lists {
        assert_eq!(split_bag(&join_strings(&list)), list);
    }
}

#[test]
fn round_trip_fails_for_an_entry_that_ends_in_a_colon() {
    let list = strings(&["a:", "b"]);
    assert_eq!(join_strings(&list), "::a:::b::");
    assert_eq!(split_bag("::a:::b::"), strings(&["a", ":b"]));
}

#[test]
fn bag_holds_a_name_between_separators_exactly_when_listed() {
    let bag = join_string_vec(strings(&["Jane Doe", "John Roe"]));
    assert!(bag.contains("::Jane Doe::"));
    assert!(bag.contains("::John Roe::"));
    assert!(!bag.contains("::Jane::"));
    assert!(!bag.contains("::Doe::"));
    assert!(!bag.contains("::ane Doe::"));
}

#[test]
fn characters_round_trip() {
    assert_eq!(chars_of("a\u{e9}z"), vec!['a', '\u{e9}', 'z']);
    assert_eq!(string_of(&vec!['a', '\u{e9}', 'z']), "a\u{e9}z");
    assert_eq!(string_of(&Vec::new()), "");
}

#[test]
fn decimal_numerals() {
    assert_eq!(decimal_string(0), "0");
    assert_eq!(decimal_string(7), "7");
    assert_eq!(decimal_string(10), "10");
    assert_eq!(decimal_string(2001), "2001");
    assert_eq!(decimal_string(u32::MAX), "4294967295");
}

#[test]
fn roster_keeps_first_occurrence_order() {
    let mut set: Vec<String> = Vec::new();
    insert_name(&mut set, "b".to_string());
    insert_name(&mut set, "a".to_string());
    insert_name(&mut set, "b".to_string());
    assert_eq!(set, strings(&["b", "a"]));
    assert!(contains_name(&set, &"a".to_string()));
    assert!(!contains_name(&set, &"c".to_string()));
    let skip = "z".to_string();
    insert_names(&mut set, &strings(&["c", "z", "a", "d", "c"]), Some(&skip));
    assert_eq!(set, strings(&["b", "a", "c", "d"]));
    insert_names(&mut set, &strings(&["z"]), None);
    assert_eq!(set, strings(&["b", "a", "c", "d", "z"]));
    assert_eq!(clone_names(&set), set);
}
