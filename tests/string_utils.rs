use harald::string_utils::capitalise_first;

#[test]
fn capitalise_first_basic() {
    assert_eq!(capitalise_first(""), String::from(""));
    assert_eq!(capitalise_first("a"), String::from("A"));
    assert_eq!(capitalise_first("B"), String::from("B"));
    assert_eq!(capitalise_first("aa"), String::from("Aa"));
    assert_eq!(capitalise_first("äe"), String::from("Äe"));
    assert_eq!(capitalise_first("😁"), String::from("😁"));
}

#[test]
fn capitalise_first_expands_sharp_s() {
    assert_eq!(capitalise_first("ßa"), String::from("SSa"));
}

#[test]
fn capitalise_first_keeps_tail() {
    assert_eq!(capitalise_first("robert smith"), String::from("Robert smith"));
}
