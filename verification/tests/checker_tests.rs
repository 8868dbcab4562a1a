use changes_parser::parsers::changes_checker::{new_checker_with, GrammarOutcome};

#[test]
fn a_recognised_line_is_accepted() {
    let outcomes = vec![GrammarOutcome::Stopped("x".to_owned()), GrammarOutcome::Accepted, GrammarOutcome::Failed];
    let (ok, rest) = new_checker_with("в статье 5:", &outcomes);
    assert!(ok);
    assert!(rest.is_none());
}

#[test]
fn the_shortest_rest_is_reported() {
    let s = "1. статью 5 в сотрудничество Российской Федерации";
    let outcomes = vec![
        GrammarOutcome::Stopped("в сотрудничество Российской Федерации".to_owned()),
        GrammarOutcome::Stopped("Российской Федерации".to_owned()),
        GrammarOutcome::Failed,
        GrammarOutcome::Stopped("сотрудничество Российской".to_owned()),
    ];
    let (ok, rest) = new_checker_with(s, &outcomes);
    assert!(!ok);
    let rest = rest.unwrap();
    assert_eq!(rest.message(), "Есть не полностью обработанная строка ->1. статью 5 в сотрудничество Российской Федерации| остаток токенов ->Российской Федерации|");
}

#[test]
fn a_long_rest_is_not_reported() {
    let s = "статью 5 изложить";
    let outcomes = vec![GrammarOutcome::Stopped("5 изложить".to_owned())];
    let (ok, rest) = new_checker_with(s, &outcomes);
    assert!(!ok);
    assert!(rest.is_none());
}
