use hemeroteca::rating::{parse_rating, RatingAnswer};

#[test]
fn ratings_from_one_to_five() {
    assert_eq!(parse_rating("3"), RatingAnswer::Rating(3));
    assert_eq!(parse_rating(" 5\n"), RatingAnswer::Rating(5));
    assert_eq!(parse_rating("+2"), RatingAnswer::Rating(2));
    assert_eq!(parse_rating("1\r\n"), RatingAnswer::Rating(1));
    assert_eq!(parse_rating("004"), RatingAnswer::Rating(4));
}

#[test]
fn skipping_and_refusals() {
    assert_eq!(parse_rating("/q\n"), RatingAnswer::Skip);
    assert_eq!(parse_rating("  /q  "), RatingAnswer::Skip);
    assert_eq!(parse_rating("0"), RatingAnswer::OutOfRange);
    assert_eq!(parse_rating("6"), RatingAnswer::OutOfRange);
    assert_eq!(parse_rating("18446744073709551615"), RatingAnswer::OutOfRange);
    assert_eq!(parse_rating("18446744073709551616"), RatingAnswer::NotANumber);
    assert_eq!(parse_rating("99999999999999999999999"), RatingAnswer::NotANumber);
    assert_eq!(parse_rating("-1"), RatingAnswer::NotANumber);
    assert_eq!(parse_rating("abc"), RatingAnswer::NotANumber);
    assert_eq!(parse_rating(""), RatingAnswer::NotANumber);
    assert_eq!(parse_rating("+"), RatingAnswer::NotANumber);
    assert_eq!(parse_rating("3 4"), RatingAnswer::NotANumber);
}
