use changes_parser::objects::number::{Number, NumberIndex};
use changes_parser::objects::number_parser::{is_alpha_number, is_digit_number};
use changes_parser::outputs::AsMarkdown;

fn number(val: &str, index: NumberIndex, postfix: Option<&str>, next: Option<Number>) -> Number {
    Number {
        number: val.to_owned(),
        number_index: index,
        postfix: postfix.map(|p| p.to_owned()),
        next: next.map(Box::new),
    }
}

fn sort_numbers(values: &mut Vec<Number>) {
    values.sort_by(|a, b| a.partial_cmp(b).unwrap());
}

#[test]
fn number_test_ordering() {
    let mut n1 = Number::new("123", NumberIndex::Normal, Some("-".to_owned()));
    let n1_1 = Number::new("1", NumberIndex::Normal, None);
    n1.apply(n1_1);
    let mut n2 = Number::new("123", NumberIndex::Normal, Some("-".to_owned()));
    let n2_1 = Number::new("2", NumberIndex::Normal, None);
    n2.apply(n2_1);
    assert_eq!(n1 < n2, true);
}

#[test]
fn test_ordering2() {
    let n1 = Number::new("123", NumberIndex::Normal, Some("-".to_owned()));
    let mut n2 = Number::new("123", NumberIndex::Normal, Some("-".to_owned()));
    let n2_1 = Number::new("1", NumberIndex::Normal, None);
    n2.apply(n2_1);
    assert_eq!(n1 < n2, true);
}

#[test]
fn test_ordering3() {
    let n1 = Number::new("124", NumberIndex::Normal, Some("-".to_owned()));
    let mut n2 = Number::new("123", NumberIndex::Normal, Some("-".to_owned()));
    let n2_1 = Number::new("2", NumberIndex::Normal, None);
    n2.apply(n2_1);
    assert_eq!(n1 > n2, true);
}

#[test]
fn test_ordering4() {
    let n1 = Number::new("а", NumberIndex::Normal, None);
    let mut n2 = Number::new("в", NumberIndex::Subscript, None);
    let n2_1 = Number::new("2", NumberIndex::Normal, Some(")".to_owned()));
    n2.apply(n2_1);
    assert_eq!(n1 < n2, true);
}

#[test]
fn test_ordering5() {
    let mut n1 = Number::new("а", NumberIndex::Normal, None);
    let n1_1 = Number::new("24", NumberIndex::Normal, Some(")".to_owned()));
    n1.apply(n1_1);
    let mut n2 = Number::new("а", NumberIndex::Normal, None);
    let n2_1 = Number::new("23", NumberIndex::Normal, Some(")".to_owned()));
    n2.apply(n2_1);
    assert_eq!(n1 > n2, true);
}

#[test]
fn test_ordering6() {
    let mut n1 = Number::new("24", NumberIndex::Normal, None);
    let n1_1 = Number::new("2", NumberIndex::Normal, Some(")".to_owned()));
    n1.apply(n1_1);
    let mut n2 = Number::new("20", NumberIndex::Normal, None);
    let n2_1 = Number::new("3", NumberIndex::Superscript, None);
    let n2_2 = Number::new("20", NumberIndex::Normal, None);
    n2.apply(n2_1);
    n2.apply(n2_2);
    assert_eq!(n1 > n2, true);
}

#[test]
fn test_eq3() {
    let n1 = number("123", NumberIndex::Normal, Some(")"), None);
    let n2 = number("123", NumberIndex::Normal, Some(")"), None);
    assert_eq!(n1 == n2, true);
}

fn chain_123_12_last(last: &str) -> Number {
    number(
        "123",
        NumberIndex::Normal,
        None,
        Some(number(
            "12",
            NumberIndex::Superscript,
            Some("-"),
            Some(number(last, NumberIndex::Superscript, Some(")"), None)),
        )),
    )
}

#[test]
fn test_eq4() {
    let n1 = chain_123_12_last("1");
    let n2 = chain_123_12_last("1");
    assert_eq!(n1 == n2, true);
}

#[test]
fn test_eq5() {
    let n1 = number("а", NumberIndex::Normal, None, Some(number("1", NumberIndex::Superscript, Some(")"), None)));
    let n2 = number("а", NumberIndex::Normal, None, Some(number("1", NumberIndex::Superscript, Some(")"), None)));
    assert_eq!(n1 == n2, true);
}

#[test]
fn test_eq6() {
    let n1 = chain_123_12_last("1");
    let n2 = chain_123_12_last("2");
    assert_eq!(n1 != n2, true);
}

#[test]
fn test_ord_1() {
    let n1 = chain_123_12_last("1");
    let n2 = chain_123_12_last("2");
    let n3 = number("123", NumberIndex::Normal, None, Some(number("12", NumberIndex::Superscript, None, None)));
    let mut values = vec![n2, n1, n3];
    sort_numbers(&mut values);
    assert_eq!(&values[0].get_last_mut().number, "12");
}

fn chain_a_12_last(first: &str, last: &str) -> Number {
    number(
        first,
        NumberIndex::Normal,
        None,
        Some(number(
            "12",
            NumberIndex::Superscript,
            Some("-"),
            Some(number(last, NumberIndex::Superscript, Some(")"), None)),
        )),
    )
}

#[test]
fn test_ord_2() {
    let n1 = chain_a_12_last("а", "1");
    let n2 = chain_a_12_last("а", "2");
    let n3 = number("а", NumberIndex::Normal, None, Some(number("12", NumberIndex::Superscript, None, None)));
    let mut values = vec![n2, n1, n3];
    sort_numbers(&mut values);
    assert_eq!(&values[0].get_last_mut().number, "12");
}

#[test]
fn test_ord_3() {
    let n1 = chain_a_12_last("а", "1");
    let n2 = chain_a_12_last("а", "2");
    let n3 = number("б", NumberIndex::Normal, None, Some(number("4", NumberIndex::Superscript, None, None)));
    let mut values = vec![n2, n1, n3];
    sort_numbers(&mut values);
    assert_eq!(&values[2].get_last_mut().number, "4");
}

#[test]
fn test_ord_4() {
    let n1 = chain_a_12_last("а", "1");
    let n2 = chain_a_12_last("а", "2");
    let n3 = number("б", NumberIndex::Normal, None, Some(number("4", NumberIndex::Superscript, None, None)));
    let mut values = vec![n2, n1, n3];
    sort_numbers(&mut values);
    assert_eq!(&values[2].get_last_mut().number, "4");
}

#[test]
fn test_parsers_1() {
    let val = "1-2^2-3:";
    let (rest, parsed) = Number::parse(val).unwrap();
    assert_eq!(rest, ":");
    assert_eq!(parsed.number, "1");
    assert_eq!(parsed.postfix.as_deref(), Some("-"));
    assert_eq!(parsed.number_index, NumberIndex::Normal);
    let second = parsed.next.as_ref().unwrap();
    assert_eq!(second.number, "2");
    assert_eq!(second.number_index, NumberIndex::Normal);
    assert!(second.postfix.is_none());
    let third = second.next.as_ref().unwrap();
    assert_eq!(third.number, "2");
    assert_eq!(third.number_index, NumberIndex::Superscript);
    assert_eq!(third.postfix.as_deref(), Some("-"));
    let fourth = third.next.as_ref().unwrap();
    assert_eq!(fourth.number, "3");
    assert_eq!(fourth.number_index, NumberIndex::Superscript);
    assert!(fourth.next.is_none());
}

#[test]
fn test_parsers_2() {
    let val = "а)";
    let parsed = is_alpha_number(val).unwrap();
    assert_eq!(parsed.1, "а");
}

#[test]
fn test_parsers_3() {
    let val = "1)";
    let parsed = is_digit_number(val).unwrap();
    assert_eq!(parsed.1, "1");
}

#[test]
fn test_parsers_4() {
    let val = "1)";
    let parsed = is_digit_number(val).unwrap();
    assert_eq!(parsed.1, "1");
}

#[test]
fn test_parsers_5() {
    let val = "дополнить";
    let parsed = Number::parse(val);
    assert!(parsed.is_err());
}

#[test]
fn test_to_markdown_1() {
    let mut n1 = Number::new("а", NumberIndex::Normal, None);
    let n1_1 = Number::new("24", NumberIndex::Subscript, Some(")".to_owned()));
    n1.apply(n1_1);
    let mut n2 = Number::new("а", NumberIndex::Normal, None);
    let n2_1 = Number::new("23", NumberIndex::Superscript, Some(")".to_owned()));
    n2.apply(n2_1);
    let num1 = n1.as_markdown();
    let num2 = n2.as_markdown();
    assert_eq!(&num1, "а<sub>24</sub>)");
    assert_eq!(&num2, "а<sup>23</sup>)");
}

#[test]
fn test_to_markdown_2() {
    let mut n1 = Number::new("а", NumberIndex::Normal, None);
    let n1_1 = Number::new("1", NumberIndex::Subscript, Some("-".to_owned()));
    let n1_2 = Number::new("24", NumberIndex::Subscript, Some(")".to_owned()));
    n1.apply(n1_1);
    n1.apply(n1_2);
    let num1 = n1.as_markdown();
    assert_eq!(&num1, "а<sub>1-24</sub>)");
}
