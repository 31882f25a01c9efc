use media_value::parsing::bookmark::Bookmark;
use media_value::parsing::data::{
    Case, FailureReason, ParseError, ResponsiveTemplate, ResponsiveValue, Segment,
};
use media_value::parsing::state::State;
use media_value::parsing::{
    args_to_value, failure, parse_media_value_args, parse_property, parse_property_bookmark,
    parse_segments, seek_media_value, MediaValueArg,
};

fn expected_tokens() -> Vec<String> {
    vec![
        "closing paren".to_string(),
        "case keyword".to_string(),
        "else keyword".to_string(),
    ]
}

#[test]
fn plain_text_is_one_run() {
    let input = "margin: 0 auto";
    assert_eq!(
        parse_segments(input),
        Ok(vec![Segment::Text(Bookmark::create(0, 14))])
    );
    assert_eq!(Bookmark::create(0, 14).checkout(input), Some(input));
    assert_eq!(
        parse_property_bookmark(input),
        Ok(ResponsiveTemplate::Responsive(vec![Segment::Text(Bookmark::create(0, 14))]))
    );
    assert_eq!(
        parse_property(input),
        Ok(ResponsiveTemplate::Responsive(vec![Segment::Text(input)]))
    );
    assert_eq!(
        parse_property("color: red"),
        Ok(ResponsiveTemplate::Responsive(vec![Segment::Text("color: red")]))
    );
}

#[test]
fn plain_text_beyond_ascii_comes_back_whole() {
    let input = "grüße, 世界";
    let segments = parse_segments(input).unwrap();
    assert_eq!(segments, vec![Segment::Text(Bookmark::create(0, input.len()))]);
    match &segments[0] {
        Segment::Text(b) => assert_eq!(b.checkout(input), Some(input)),
        Segment::Value(_) => panic!("no expression was written"),
    }
    assert_eq!(
        parse_property(input),
        Ok(ResponsiveTemplate::Responsive(vec![Segment::Text(input)]))
    );
    assert_eq!(
        parse_property_bookmark("héllo"),
        Ok(ResponsiveTemplate::Responsive(vec![Segment::Text(Bookmark { start: 0, end: 6 })]))
    );
}

#[test]
fn empty_text_has_no_segment() {
    assert_eq!(parse_segments(""), Ok(vec![]));
    assert_eq!(parse_property_bookmark(""), Ok(ResponsiveTemplate::Responsive(vec![])));
    assert_eq!(parse_property(""), Ok(ResponsiveTemplate::Responsive(vec![])));
}

#[test]
fn no_text_parses_to_normal() {
    let inputs = ["", " ", "plain", "media-value", "media-value()", "a media-value(else 'b')"];
    for input in inputs {
        assert_ne!(parse_property(input), Ok(ResponsiveTemplate::Normal));
        assert_ne!(parse_property_bookmark(input), Ok(ResponsiveTemplate::Normal));
    }
}

#[test]
fn one_case_and_a_default() {
    let input = "media-value(case: \"(min-width: 600px)\" as: \"large\" else \"small\")";
    assert_eq!(
        parse_property(input),
        Ok(ResponsiveTemplate::Responsive(vec![Segment::Value(ResponsiveValue {
            cases: vec![Case { media: "(min-width: 600px)", value: "large" }],
            default: Some("small"),
        })]))
    );
    assert_eq!(
        parse_property_bookmark(input),
        Ok(ResponsiveTemplate::Responsive(vec![Segment::Value(ResponsiveValue {
            cases: vec![Case {
                media: Bookmark::create(19, 37),
                value: Bookmark::create(44, 49),
            }],
            default: Some(Bookmark::create(57, 62)),
        })]))
    );
}

#[test]
fn second_default_is_refused_at_its_keyword() {
    assert_eq!(
        parse_property("media-value(else \"a\" else \"b\")"),
        Err(ParseError::At(21, FailureReason::TooManyElseClauses))
    );
    assert_eq!(
        parse_property("é media-value(else \"a\" case: 'q' as: 'v' else \"b\")"),
        Err(ParseError::At(41, FailureReason::TooManyElseClauses))
    );
}

#[test]
fn missing_closing_paren() {
    assert_eq!(
        parse_property("media-value(case: \"q\" as: \"v\""),
        Err(ParseError::At(29, FailureReason::ExpectedChar(')')))
    );
    assert_eq!(
        parse_property("media-value(  "),
        Err(ParseError::At(14, FailureReason::ExpectedChar(')')))
    );
}

#[test]
fn unterminated_string_fails_at_the_end_of_the_text() {
    assert_eq!(
        parse_property("media-value(case: \"q)"),
        Err(ParseError::At(21, FailureReason::ExpectedQuery))
    );
    assert_eq!(
        parse_property("media-value(else \"x)"),
        Err(ParseError::At(20, FailureReason::ExpectedValue))
    );
    assert_eq!(
        parse_property("media-value(case: 'q' as: 'v\\')"),
        Err(ParseError::At(31, FailureReason::ExpectedValue))
    );
}

#[test]
fn whitespace_between_tokens_means_nothing() {
    let spaced = parse_property("media-value( case : \"q\" as : \"v\" )");
    let tight = parse_property("media-value(case:\"q\" as:\"v\")");
    let expected = ResponsiveTemplate::Responsive(vec![Segment::Value(ResponsiveValue {
        cases: vec![Case { media: "q", value: "v" }],
        default: None,
    })]);
    assert_eq!(spaced, Ok(expected));
    assert_eq!(spaced, tight);
    assert_eq!(
        parse_property("media-value \n(\tcase\u{a0}:'q'as:'v'else'd')"),
        Ok(ResponsiveTemplate::Responsive(vec![Segment::Value(ResponsiveValue {
            cases: vec![Case { media: "q", value: "v" }],
            default: Some("d"),
        })]))
    );
}

#[test]
fn parsing_twice_gives_the_same() {
    let inputs = [
        "plain",
        "a media-value(case: 'q' as: 'v' else 'd') b",
        "media-value(else 'a' else 'b')",
        "media-value(case: 'q)",
    ];
    for input in inputs {
        assert_eq!(parse_property(input), parse_property(input));
        assert_eq!(parse_property_bookmark(input), parse_property_bookmark(input));
        assert_eq!(parse_segments(input), parse_segments(input));
    }
}

#[test]
fn a_template_with_an_expression_is_responsive() {
    let input = "a media-value(else \"x\") b";
    assert_eq!(
        parse_property(input),
        Ok(ResponsiveTemplate::Responsive(vec![
            Segment::Text("a "),
            Segment::Value(ResponsiveValue { cases: vec![], default: Some("x") }),
            Segment::Text(" b"),
        ]))
    );
    assert_eq!(
        parse_property_bookmark(input),
        Ok(ResponsiveTemplate::Responsive(vec![
            Segment::Text(Bookmark::create(0, 2)),
            Segment::Value(ResponsiveValue {
                cases: vec![],
                default: Some(Bookmark::create(20, 21)),
            }),
            Segment::Text(Bookmark::create(23, 25)),
        ]))
    );
}

#[test]
fn expressions_in_a_row() {
    let input = "media-value(case: 'a' as: 'b')media-value()  media-value(else 'c')";
    assert_eq!(
        parse_property(input),
        Ok(ResponsiveTemplate::Responsive(vec![
            Segment::Value(ResponsiveValue {
                cases: vec![Case { media: "a", value: "b" }],
                default: None,
            }),
            Segment::Value(ResponsiveValue { cases: vec![], default: None }),
            Segment::Text("  "),
            Segment::Value(ResponsiveValue { cases: vec![], default: Some("c") }),
        ]))
    );
}

#[test]
fn cases_keep_their_order() {
    let input = "media-value(case: '1' as: 'a' else 'd' case: '2' as: 'b' case: '1' as: 'c')";
    assert_eq!(
        parse_property(input),
        Ok(ResponsiveTemplate::Responsive(vec![Segment::Value(ResponsiveValue {
            cases: vec![
                Case { media: "1", value: "a" },
                Case { media: "2", value: "b" },
                Case { media: "1", value: "c" },
            ],
            default: Some("d"),
        })]))
    );
}

#[test]
fn bookmarks_are_byte_ranges() {
    let input = "é media-value(else \"ü\")";
    let template = parse_property_bookmark(input);
    assert_eq!(
        template,
        Ok(ResponsiveTemplate::Responsive(vec![
            Segment::Text(Bookmark::create(0, 3)),
            Segment::Value(ResponsiveValue {
                cases: vec![],
                default: Some(Bookmark::create(21, 23)),
            }),
        ]))
    );
    assert_eq!(Bookmark::create(0, 3).checkout(input), Some("é "));
    assert_eq!(Bookmark::create(21, 23).checkout(input), Some("ü"));
    assert_eq!(
        template.unwrap().checkout(input),
        Ok(ResponsiveTemplate::Responsive(vec![
            Segment::Text("é "),
            Segment::Value(ResponsiveValue { cases: vec![], default: Some("ü") }),
        ]))
    );
}

#[test]
fn a_name_without_an_argument_list_is_text() {
    let input = "see media-value docs";
    assert_eq!(
        parse_segments(input),
        Ok(vec![
            Segment::Text(Bookmark::create(0, 16)),
            Segment::Text(Bookmark::create(16, 20)),
        ])
    );
    assert_eq!(
        parse_property(input),
        Ok(ResponsiveTemplate::Responsive(vec![
            Segment::Text("see media-value "),
            Segment::Text("docs"),
        ]))
    );
    assert_eq!(
        parse_segments("media-value"),
        Ok(vec![Segment::Text(Bookmark::create(0, 11))])
    );
    assert_eq!(
        parse_property("media-value: media-value x media-value(else 'y')"),
        Ok(ResponsiveTemplate::Responsive(vec![
            Segment::Text("media-value"),
            Segment::Text(": media-value "),
            Segment::Text("x "),
            Segment::Value(ResponsiveValue { cases: vec![], default: Some("y") }),
        ]))
    );
}

#[test]
fn each_missing_token_has_its_error() {
    assert_eq!(
        parse_property("media-value(case \"q\")"),
        Err(ParseError::At(17, FailureReason::ExpectedChar(':')))
    );
    assert_eq!(
        parse_property("media-value(case: q as: x)"),
        Err(ParseError::At(18, FailureReason::ExpectedQuery))
    );
    assert_eq!(
        parse_property("media-value(case: \"q\" \"v\")"),
        Err(ParseError::At(22, FailureReason::ExpectedAs))
    );
    assert_eq!(
        parse_property("media-value(case: \"q\" case: \"v\")"),
        Err(ParseError::At(22, FailureReason::ExpectedAs))
    );
    assert_eq!(
        parse_property("media-value(case: \"q\" as \"v\")"),
        Err(ParseError::At(25, FailureReason::ExpectedChar(':')))
    );
    assert_eq!(
        parse_property("media-value(case: \"q\" as: v)"),
        Err(ParseError::At(26, FailureReason::ExpectedValue))
    );
    assert_eq!(
        parse_property("media-value(else x)"),
        Err(ParseError::At(17, FailureReason::ExpectedValue))
    );
    assert_eq!(
        parse_property("media-value(foo)"),
        Err(ParseError::At(12, FailureReason::ExpectedOneOf(expected_tokens())))
    );
    assert_eq!(
        parse_property("ab media-value( , )"),
        Err(ParseError::At(16, FailureReason::ExpectedOneOf(expected_tokens())))
    );
}

#[test]
fn a_malformed_clause_comes_before_a_second_default() {
    assert_eq!(
        parse_property("media-value(else \"a\" else \"b\" foo)"),
        Err(ParseError::At(30, FailureReason::ExpectedOneOf(expected_tokens())))
    );
}

#[test]
fn the_first_error_ends_the_parse() {
    assert_eq!(
        parse_property("media-value(else 'a') media-value(case) media-value(foo)"),
        Err(ParseError::At(38, FailureReason::ExpectedChar(':')))
    );
}

#[test]
fn failure_is_placed_at_the_cursor() {
    let mut state = State::create("abc");
    state.override_cursor(2);
    assert_eq!(
        failure(&state, FailureReason::ExpectedAs),
        ParseError::At(2, FailureReason::ExpectedAs)
    );
}

#[test]
fn seek_media_value_gives_the_text_before() {
    let mut state = State::create("aé media-value(x) media-value");
    assert_eq!(seek_media_value(&mut state), Some(Bookmark::create(0, 4)));
    assert_eq!(state.cursor, 14);
    assert_eq!(seek_media_value(&mut state), Some(Bookmark::create(15, 19)));
    assert_eq!(state.cursor, 29);
    assert_eq!(seek_media_value(&mut state), None);
    assert_eq!(state.cursor, 29);

    let mut none = State::create("media-valu media_value");
    none.increment();
    assert_eq!(seek_media_value(&mut none), None);
    assert_eq!(none.cursor, 1);
}

#[test]
fn argument_list_as_read() {
    let mut state = State::create("( case: 'q' as: \"v\" else 'd' ) rest");
    assert_eq!(
        parse_media_value_args(&mut state),
        Ok(Some(vec![
            MediaValueArg::Case(Bookmark::create(9, 10), Bookmark::create(17, 18)),
            MediaValueArg::Else(20, Bookmark::create(26, 27)),
        ]))
    );
    assert_eq!(state.cursor, 30);

    let mut none = State::create("x(else 'd')");
    assert_eq!(parse_media_value_args(&mut none), Ok(None));
    assert_eq!(none.cursor, 0);

    let mut empty = State::create("()");
    assert_eq!(parse_media_value_args(&mut empty), Ok(Some(vec![])));
    assert_eq!(empty.cursor, 2);

    let mut broken = State::create("(else 'd' ]");
    assert_eq!(
        parse_media_value_args(&mut broken),
        Err(ParseError::At(10, FailureReason::ExpectedOneOf(expected_tokens())))
    );
}

#[test]
fn clauses_become_an_expression() {
    assert_eq!(
        args_to_value(vec![]),
        Ok(ResponsiveValue { cases: vec![], default: None })
    );
    assert_eq!(
        args_to_value(vec![
            MediaValueArg::Case(Bookmark::create(1, 2), Bookmark::create(3, 4)),
            MediaValueArg::Else(9, Bookmark::create(5, 6)),
            MediaValueArg::Case(Bookmark::create(7, 8), Bookmark::create(9, 10)),
        ]),
        Ok(ResponsiveValue {
            cases: vec![
                Case { media: Bookmark::create(1, 2), value: Bookmark::create(3, 4) },
                Case { media: Bookmark::create(7, 8), value: Bookmark::create(9, 10) },
            ],
            default: Some(Bookmark::create(5, 6)),
        })
    );
    assert_eq!(
        args_to_value(vec![
            MediaValueArg::Else(4, Bookmark::create(5, 6)),
            MediaValueArg::Case(Bookmark::create(1, 2), Bookmark::create(3, 4)),
            MediaValueArg::Else(17, Bookmark::create(7, 8)),
            MediaValueArg::Else(30, Bookmark::create(9, 9)),
        ]),
        Err(ParseError::At(17, FailureReason::TooManyElseClauses))
    );
}
