use media_value::parsing::bookmark::Bookmark;
use media_value::parsing::state::{SeekResult, State};

const STRING: &'static str = "sally sells seashells";

#[test]
fn getters_work() {
    let state = State { cursor: 6, ..State::create(&STRING) };
    // string: "sally sells seashells";
    // cursor   ------^

    // there is no unicode so it should be equal.
    assert!(state.length() == STRING.len());
    assert!(state.get_head() == Some('s'));
    assert!(state.has_more());

    let remaining = Bookmark::create(6, STRING.len());
    assert!(state.get_remaining() == Some(remaining));
}

#[test]
fn look_back_works() {
    let state = State { cursor: 6, ..State::create(&STRING) };
    // string: "sally sells seashells";
    // cursor   ------^

    // string: "sally sells seashells"
    // look back    ^--
    assert!(state.look_back(2) == Some('y'));
}

#[test]
fn nth_from_cursor_works() {
    let state = State { cursor: 6, ..State::create(&STRING) };
    // string: "sally sells seashells";
    // cursor   ------^

    // string: "sally sells seashells"
    // look ahad      -^
    assert!(state.nth_from_cursor(1) == Some('e'));

    // string: "sally sells seashells"
    // look ahad      ---------^
    assert!(state.nth_from_cursor(9) == Some('s'));

    // string: "sally sells seashells"
    // look ahad      ----------^
    assert!(state.nth_from_cursor(10) == Some('h'));
}

#[test]
fn increment_works() {
    let mut state = State::create("abcd");
    state.increment();
    assert!(state.cursor == 1);
    assert!(state.get_head() == Some('b'));
}

#[test]
fn skip_whitespace_works() {
    let mut state = State::create("   a");
    state.skip_whitespace();
    assert!(state.cursor == 3 as usize);
    assert!(state.get_head() == Some('a'));
}

#[test]
fn skip_whitespace_works_with_just_whitespace() {
    let mut state = State::create("   ");
    state.skip_whitespace();
    assert!(state.cursor == 3);
    assert!(state.get_head() == None);
}

#[test]
fn create_starts_at_the_first_code_point() {
    let state = State::create("héllo");
    assert_eq!(state.cursor, 0);
    assert_eq!(state.input, "héllo");
    assert_eq!(state.length(), 5);
    assert_eq!(state.get_head(), Some('h'));
    assert_eq!(state.indices, vec![(0, 'h'), (1, 'é'), (3, 'l'), (4, 'l'), (5, 'o')]);
}

#[test]
fn empty_text_has_nothing() {
    let state = State::create("");
    assert_eq!(state.length(), 0);
    assert!(!state.has_more());
    assert_eq!(state.get_head(), None);
    assert_eq!(state.get_remaining(), None);
    assert_eq!(state.look_back(0), None);
    assert_eq!(state.nth_from_cursor(0), None);
}

#[test]
fn looking_past_either_edge_finds_nothing() {
    let mut state = State::create("abc");
    state.override_cursor(1);
    assert_eq!(state.look_back(0), Some('b'));
    assert_eq!(state.look_back(1), Some('a'));
    assert_eq!(state.look_back(2), None);
    assert_eq!(state.nth_from_cursor(0), Some('b'));
    assert_eq!(state.nth_from_cursor(1), Some('c'));
    assert_eq!(state.nth_from_cursor(2), None);
    assert_eq!(state.nth_from_cursor(usize::MAX), None);
    state.override_cursor(3);
    assert_eq!(state.look_back(0), None);
    assert_eq!(state.look_back(1), Some('c'));
    assert_eq!(state.get_head(), None);
    state.override_cursor(10);
    assert_eq!(state.look_back(1), None);
    assert_eq!(state.look_back(8), Some('c'));
    assert_eq!(state.nth_from_cursor(0), None);
}

#[test]
fn remaining_spans_bytes_to_the_end() {
    let mut state = State::create("aé€b");
    state.override_cursor(2);
    assert_eq!(state.get_remaining(), Some(Bookmark::create(3, 7)));
    state.override_cursor(4);
    assert_eq!(state.get_remaining(), None);
}

#[test]
fn bookmark_input_maps_positions_to_bytes() {
    let state = State::create("aé€b");
    assert_eq!(state.bookmark_input(0, 0), Some(Bookmark::create(0, 0)));
    assert_eq!(state.bookmark_input(1, 3), Some(Bookmark::create(1, 6)));
    assert_eq!(state.bookmark_input(2, 4), Some(Bookmark::create(3, 7)));
    assert_eq!(state.bookmark_input(4, 4), Some(Bookmark::create(7, 7)));
    assert_eq!(state.bookmark_input(3, 2), None);
    assert_eq!(state.bookmark_input(0, 5), None);
}

#[test]
fn increment_over_counts_code_points() {
    let mut state = State::create("héllo wörld");
    state.increment_over("héllo");
    assert_eq!(state.cursor, 5);
    state.increment_over("");
    assert_eq!(state.cursor, 5);
    state.override_cursor(2);
    assert_eq!(state.cursor, 2);
    assert_eq!(state.get_head(), Some('l'));
}

#[test]
fn skip_whitespace_stops_at_what_is_none() {
    let mut state = State::create("a \t\n\u{a0}\u{3000}b");
    state.skip_whitespace();
    assert_eq!(state.cursor, 0);
    state.increment();
    state.skip_whitespace();
    assert_eq!(state.cursor, 6);
    assert_eq!(state.get_head(), Some('b'));
    state.override_cursor(9);
    state.skip_whitespace();
    assert_eq!(state.cursor, 9);
}

#[test]
fn skip_next_if_consumes_only_a_match() {
    let mut state = State::create("case: x");
    assert!(!state.skip_next_if("cast"));
    assert_eq!(state.cursor, 0);
    assert!(!state.skip_next_if("case: x and more"));
    assert_eq!(state.cursor, 0);
    assert!(state.skip_next_if("case"));
    assert_eq!(state.cursor, 4);
    assert!(state.skip_next_if(""));
    assert_eq!(state.cursor, 4);
    assert!(state.skip_next_if(": x"));
    assert_eq!(state.cursor, 7);
    assert!(!state.skip_next_if("x"));
    assert_eq!(state.cursor, 7);
}

#[test]
fn seek_finds_the_first_match() {
    let mut state = State::create("ab abc abcd");
    assert_eq!(state.seek_to_substring("abc"), SeekResult::CouldSeek);
    assert_eq!(state.cursor, 3);
    assert_eq!(state.seek_to_substring("abc"), SeekResult::CouldSeek);
    assert_eq!(state.cursor, 3);
    state.increment();
    assert_eq!(state.seek_to_substring("abc"), SeekResult::CouldSeek);
    assert_eq!(state.cursor, 7);
    assert_eq!(state.seek_to_substring("abcd"), SeekResult::CouldSeek);
    assert_eq!(state.cursor, 7);
}

#[test]
fn seek_without_a_match_ends_at_the_end() {
    let mut state = State::create("ab abc");
    state.increment();
    assert_eq!(state.seek_to_substring("abcd"), SeekResult::CannotSeek);
    assert_eq!(state.cursor, 6);
    assert_eq!(state.seek_to_substring(""), SeekResult::CannotSeek);
    assert_eq!(state.cursor, 6);
    state.override_cursor(9);
    assert_eq!(state.seek_to_substring("a"), SeekResult::CannotSeek);
    assert_eq!(state.cursor, 9);
}

#[test]
fn match_string_reads_between_the_quotes() {
    let mut state = State::create("\"query\" rest");
    assert_eq!(state.match_string(), Some(Bookmark::create(1, 6)));
    assert_eq!(state.cursor, 7);

    let mut single = State::create("x'a\"b'");
    single.increment();
    assert_eq!(single.match_string(), Some(Bookmark::create(2, 5)));
    assert_eq!(single.cursor, 6);

    let mut empty = State::create("\"\"");
    assert_eq!(empty.match_string(), Some(Bookmark::create(1, 1)));
    assert_eq!(empty.cursor, 2);
}

#[test]
fn match_string_gives_byte_offsets() {
    let mut state = State::create("é\"wörld\"");
    state.increment();
    assert_eq!(state.match_string(), Some(Bookmark::create(3, 9)));
    assert_eq!(state.cursor, 8);
    assert_eq!(Bookmark::create(3, 9).checkout("é\"wörld\""), Some("wörld"));
}

#[test]
fn match_string_passes_an_escaped_quote() {
    let mut state = State::create("\"a\\\"b\" c");
    assert_eq!(state.match_string(), Some(Bookmark::create(1, 5)));
    assert_eq!(state.cursor, 6);
    assert_eq!(Bookmark::create(1, 5).checkout("\"a\\\"b\" c"), Some("a\\\"b"));
}

#[test]
fn match_string_without_a_string() {
    let mut state = State::create("abc\"");
    assert_eq!(state.match_string(), None);
    assert_eq!(state.cursor, 0);

    let mut open = State::create("x \"abc");
    open.override_cursor(2);
    assert_eq!(open.match_string(), None);
    assert_eq!(open.cursor, 6);

    let mut escaped = State::create("'abc\\'");
    assert_eq!(escaped.match_string(), None);
    assert_eq!(escaped.cursor, 6);

    let mut end = State::create("ab");
    end.override_cursor(2);
    assert_eq!(end.match_string(), None);
    assert_eq!(end.cursor, 2);
}
