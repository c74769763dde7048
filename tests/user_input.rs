use imdb_id::format_list;
use imdb_id::user_input::{select_next, select_previous};

fn owned(items: &[&str]) -> Vec<String> {
    items.iter().map(|s| s.to_string()).collect()
}

#[test]
fn correct_lists() {
    // 0 elements
    assert_eq!(format_list(&owned(&[])), String::new());

    // 1 element
    let e = "e";
    assert_eq!(format_list(&owned(&[e])), String::from(e));

    // 2 elements
    let two = ["one", "two"];
    let output = format_list(&owned(&two));
    assert!(!output.contains(','), "two item list shouldn't contain commas",);
    for item in two {
        assert!(output.contains(item), "missing {item} in list");
    }

    // 3 elements
    let three = ["one", "two", "three"];
    let output = format_list(&owned(&three));
    for item in three {
        assert!(output.contains(item), "missing {item} in list");
    }
}

#[test]
fn exact_list_text() {
    assert_eq!(format_list(&owned(&["one", "two"])), "one and two");
    assert_eq!(format_list(&owned(&["one", "two", "three"])), "one, two, and three");
    assert_eq!(format_list(&owned(&["a", "b", "c", "d"])), "a, b, c, and d");
}

#[test]
fn selection_wraps_round() {
    assert_eq!(select_next(Some(0), 3), 1);
    assert_eq!(select_next(Some(2), 3), 0);
    assert_eq!(select_next(None, 3), 0);
    assert_eq!(select_previous(Some(0), 3), 2);
    assert_eq!(select_previous(Some(2), 3), 1);
    assert_eq!(select_previous(None, 3), 0);
}
