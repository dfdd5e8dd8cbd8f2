use lyng2::ast::parser::error::most_important_of;
use lyng2::ast::parser::error::ErrorMessage;
use lyng2::ast::Localization;

#[test]
fn most_important_of_one() {
    let error_message = ErrorMessage::missing_tuple_comma();

    let result = most_important_of(vec![error_message.clone()]);

    assert_eq!(error_message, result)
}

#[test]
fn first_is_more_important() {
    let more_important = ErrorMessage::new("message1".to_string(), 100, Localization::new());
    let less_important = ErrorMessage::new("message2".to_string(), 1, Localization::new());

    let result = most_important_of(vec![more_important.clone(), less_important]);

    assert_eq!(more_important, result)
}

#[test]
fn second_is_more_important() {
    let more_important = ErrorMessage::new("message1".to_string(), 100, Localization::new());
    let less_important = ErrorMessage::new("message2".to_string(), 1, Localization::new());

    let result = most_important_of(vec![less_important, more_important.clone()]);

    assert_eq!(more_important, result)
}

#[test]
fn returns_first_if_equally_important() {
    let first = ErrorMessage::new("message1".to_string(), 5, Localization::new());
    let second = ErrorMessage::new("message2".to_string(), 5, Localization::new());

    let result = most_important_of(vec![first.clone(), second]);

    assert_eq!(first, result)
}

#[test]
fn most_important_of_three() {
    let most_important = ErrorMessage::new("message1".to_string(), 100, Localization::new());
    let less_important = ErrorMessage::new("message2".to_string(), 5, Localization::new());
    let least_important = ErrorMessage::new("message3".to_string(), 1, Localization::new());

    let result = most_important_of(vec![less_important, most_important.clone(), least_important]);

    assert_eq!(most_important, result)
}
