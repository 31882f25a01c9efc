use media_value::parsing::bookmark::{option_checkout_result, Bookmark, CheckoutError};

#[test]
fn create_keeps_both_ends() {
    let b = Bookmark::create(3, 8);
    assert_eq!(b.start, 3);
    assert_eq!(b.end, 8);
    assert_eq!(b, Bookmark { start: 3, end: 8 });
    assert_ne!(b, Bookmark { start: 3, end: 9 });
    assert_ne!(b, Bookmark { start: 2, end: 8 });
}

#[test]
fn empty_means_equal_ends() {
    assert!(Bookmark::create(4, 4).is_empty());
    assert!(Bookmark::create(0, 0).is_empty());
    assert!(!Bookmark::create(4, 5).is_empty());
    assert!(!Bookmark::create(5, 4).is_empty());
}

#[test]
fn checkout_gives_the_bytes_in_range() {
    let text = "sally sells seashells";
    assert_eq!(Bookmark::create(6, 11).checkout(text), Some("sells"));
    assert_eq!(Bookmark::create(0, 21).checkout(text), Some(text));
    assert_eq!(Bookmark::create(21, 21).checkout(text), Some(""));
    assert_eq!(Bookmark::create(0, 0).checkout(""), Some(""));
}

#[test]
fn checkout_refuses_a_range_that_does_not_fit() {
    let text = "aé€b";
    assert_eq!(Bookmark::create(1, 3).checkout(text), Some("é"));
    assert_eq!(Bookmark::create(3, 6).checkout(text), Some("€"));
    assert_eq!(Bookmark::create(1, 2).checkout(text), None);
    assert_eq!(Bookmark::create(2, 3).checkout(text), None);
    assert_eq!(Bookmark::create(4, 6).checkout(text), None);
    assert_eq!(Bookmark::create(3, 1).checkout(text), None);
    assert_eq!(Bookmark::create(0, 8).checkout(text), None);
    assert_eq!(Bookmark::create(8, 8).checkout(text), None);
}

#[test]
fn checkout_owned_copies_the_content() {
    let text = "aé€b";
    assert_eq!(Bookmark::create(1, 6).checkout_owned(text), Some("é€".to_string()));
    assert_eq!(Bookmark::create(2, 6).checkout_owned(text), None);
}

#[test]
fn checkout_result_names_the_bookmark() {
    let text = "aé€b";
    assert_eq!(Bookmark::create(6, 7).checkout_result(text), Ok("b"));
    assert_eq!(
        Bookmark::create(5, 7).checkout_result(text),
        Err(CheckoutError::At(Bookmark::create(5, 7)))
    );
}

#[test]
fn bookmark_in_writing() {
    assert_eq!(Bookmark::create(0, 0).to_string(), "(0 0)");
    assert_eq!(Bookmark::create(9, 10).to_string(), "(9 10)");
    assert_eq!(Bookmark::create(120, 3405).to_string(), "(120 3405)");
    assert_eq!(
        Bookmark::create(usize::MAX, 7).to_string(),
        format!("({} 7)", usize::MAX)
    );
}

#[test]
fn option_checkout_result_applies_the_function() {
    let text = "sally sells";
    let found = option_checkout_result(Some(Bookmark::create(0, 5)), |b| b.checkout(text));
    assert_eq!(found, Ok(Some("sally")));

    let nothing: Result<Option<&str>, CheckoutError> =
        option_checkout_result(None, |b| b.checkout(text));
    assert_eq!(nothing, Ok(None));

    let failed = option_checkout_result(Some(Bookmark::create(6, 40)), |b| b.checkout(text));
    assert_eq!(failed, Err(CheckoutError::At(Bookmark::create(6, 40))));

    let length = option_checkout_result(Some(Bookmark::create(2, 9)), |b| Some(b.end - b.start));
    assert_eq!(length, Ok(Some(7)));
}
