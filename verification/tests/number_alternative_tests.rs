use changes_parser::objects::number_alternative::{Number, VerticalAlignment};
use changes_parser::outputs::AsMarkdown;
use std::cmp::Ordering;

fn n(number: &str, va: Option<(&str, VerticalAlignment)>, postfix: Option<&str>) -> Number {
    Number {
        number: number.to_owned(),
        va_number: va.map(|(s, a)| (s.to_owned(), a)),
        postfix: postfix.map(|p| p.to_owned()),
    }
}

#[test]
fn markdown_of_raised_and_lowered_parts() {
    assert_eq!(n("5", Some(("1", VerticalAlignment::Superscript)), Some(".")).as_markdown(), "5<sup>1</sup>.");
    assert_eq!(n("12", Some(("3", VerticalAlignment::Subscript)), None).as_markdown(), "12<sub>3</sub>");
    assert_eq!(n("а", Some(("б", VerticalAlignment::Normal)), Some(")")).as_markdown(), "аб)");
}

#[test]
fn order_of_alternative_numbers() {
    let a = n("5", None, None);
    let b = n("12", None, None);
    assert_eq!(a.partial_cmp(&b), Some(Ordering::Less));
    let c = n("5", Some(("2", VerticalAlignment::Superscript)), None);
    let d = n("5", Some(("10", VerticalAlignment::Superscript)), None);
    assert_eq!(c.partial_cmp(&d), Some(Ordering::Less));
    assert_eq!(a.partial_cmp(&c), Some(Ordering::Less));
    assert_eq!(c.partial_cmp(&a), Some(Ordering::Less));
    assert_eq!(a.partial_cmp(&n("а", None, None)), Some(Ordering::Equal));
    assert_eq!(n("б", None, None).partial_cmp(&n("а", None, None)), Some(Ordering::Greater));
    assert_eq!(n("а", Some(("x", VerticalAlignment::Normal)), None).partial_cmp(&n("а", Some(("1", VerticalAlignment::Normal)), None)), Some(Ordering::Equal));
}

#[test]
fn equality_of_alternative_numbers() {
    assert!(n("5", None, Some(".")) == n("5", Some(("1", VerticalAlignment::Superscript)), Some(".")));
    assert!(n("5", Some(("2", VerticalAlignment::Superscript)), None) != n("5", Some(("1", VerticalAlignment::Superscript)), None));
    assert!(n("5", None, Some(".")) != n("5", None, Some(")")));
}
