//! The scanner, the bookmarks it hands out, and the parser built on them.
//!
//! A text is a sequence of segments: runs of plain text, and expressions of the form
//! `media-value( case: "query" as: "value" ... else "value" )`. Whitespace between the
//! tokens of an expression is optional and means nothing.
//!
//! Two choices are made here where the grammar alone leaves room. The template of a
//! text is always `Responsive` with the segments of the text: one run of text for a
//! text without an expression, and no segment for the empty text. The parser gives
//! `Normal` for no text. And a `media-value` that no `(` follows is plain text: it ends
//! a run of text of its own, together with the whitespace behind it.

use vstd::prelude::*;
use vstd::utf8::*;

pub mod bookmark;
pub mod data;
pub mod encoding;
pub mod laws;
pub mod state;
pub mod text;

use self::bookmark::{lemma_spanning_resolves, Bookmark, CheckoutError};
use self::data::{
    resolve_template, segment_models, Case, ErrorModel, FailureReason, ParseError, ReasonModel,
    ResponsiveTemplate, ResponsiveValue, Segment, SegmentModel, TemplateModel, ValueModel,
};
use self::encoding::lemma_byte_offset_monotone;
use self::state::{
    char_at, first_match, is_quote, lemma_closing_quote, lemma_first_match, lemma_whitespace_end,
    matches_at, quoted_at, whitespace_end, SeekResult, State,
};

verus! {

/// The name that opens an expression.
pub open spec fn media_value_name() -> Seq<char> {
    "media-value"@
}

/// The keyword that opens a case clause.
pub open spec fn case_keyword() -> Seq<char> {
    "case"@
}

/// The keyword that opens the default clause.
pub open spec fn else_keyword() -> Seq<char> {
    "else"@
}

/// The keyword between the query and the value of a case clause.
pub open spec fn as_keyword() -> Seq<char> {
    "as"@
}

/// What an argument list may go on with, as the message for a wrong token names it.
pub open spec fn expected_tokens() -> Seq<Seq<char>> {
    seq!["closing paren"@, "case keyword"@, "else keyword"@]
}

/// One clause of an expression, as read: a case with its query and value, or a
/// default with the position of its keyword and its value.
#[derive(Clone, Copy, Debug, PartialEq, Eq, Structural)]
pub enum MediaValueArg {
    Case(Bookmark, Bookmark),
    Else(usize, Bookmark),
}

/// Where the scanner stands after it found no quoted string at `at`: at the end of
/// the text where a string opens at `at` and never closes, else at `at`.
pub open spec fn unquoted_end(text: Seq<char>, at: int) -> int {
    match char_at(text, at) {
        Some(q) => if is_quote(q) {
            text.len() as int
        } else {
            at
        },
        None => at,
    }
}

/// A quoted string at `at`: the range between its quotes, and the position behind
/// the string and the whitespace that follows it. Without one, `reason` at the place
/// where the scanner gave up.
pub open spec fn quoted_then_space(text: Seq<char>, at: int, reason: ReasonModel) -> Result<
    (Bookmark, int),
    ErrorModel,
> {
    match quoted_at(text, at) {
        Some(close) => Ok(
            (Bookmark::spanning(text, at + 1, close), whitespace_end(text, close + 1)),
        ),
        None => Err(ErrorModel::At(unquoted_end(text, at), reason)),
    }
}

/// The rest of a case clause, from behind its keyword: `:`, the query, `as`, `:`, the
/// value, with optional whitespace before each.
pub open spec fn parse_case(text: Seq<char>, at: int) -> Result<(MediaValueArg, int), ErrorModel> {
    let colon = whitespace_end(text, at);
    if !matches_at(text, colon, ":"@) {
        Err(ErrorModel::At(colon, ReasonModel::ExpectedChar(':')))
    } else {
        match quoted_then_space(text, whitespace_end(text, colon + 1), ReasonModel::ExpectedQuery) {
            Err(e) => Err(e),
            Ok((media, word)) => if !matches_at(text, word, as_keyword()) {
                Err(ErrorModel::At(word, ReasonModel::ExpectedAs))
            } else {
                let second = whitespace_end(text, word + as_keyword().len());
                if !matches_at(text, second, ":"@) {
                    Err(ErrorModel::At(second, ReasonModel::ExpectedChar(':')))
                } else {
                    match quoted_then_space(
                        text,
                        whitespace_end(text, second + 1),
                        ReasonModel::ExpectedValue,
                    ) {
                        Err(e) => Err(e),
                        Ok((value, next)) => Ok((MediaValueArg::Case(media, value), next)),
                    }
                }
            },
        }
    }
}

/// One clause at `at`, which holds no whitespace: a case, a default, or the error for
/// a token that is neither.
pub open spec fn parse_clause(text: Seq<char>, at: int) -> Result<(MediaValueArg, int), ErrorModel> {
    if matches_at(text, at, case_keyword()) {
        parse_case(text, at + case_keyword().len())
    } else if matches_at(text, at, else_keyword()) {
        match quoted_then_space(
            text,
            whitespace_end(text, at + else_keyword().len()),
            ReasonModel::ExpectedValue,
        ) {
            Err(e) => Err(e),
            Ok((value, next)) => Ok((MediaValueArg::Else(at as usize, value), next)),
        }
    } else {
        Err(ErrorModel::At(at, ReasonModel::ExpectedOneOf(expected_tokens())))
    }
}

/// A quoted string and the whitespace behind it end after they begin, inside the text.
pub proof fn lemma_quoted_advances(text: Seq<char>, at: int, reason: ReasonModel)
    requires
        0 <= at,
    ensures
        quoted_then_space(text, at, reason) matches Ok((_, next)) ==> at + 2 <= next <= text.len(),
{
    if let Some(close) = quoted_at(text, at) {
        lemma_closing_quote(text, char_at(text, at).unwrap(), at + 1);
        lemma_whitespace_end(text, close + 1);
    }
}

/// A clause ends after it begins, inside the text.
pub proof fn lemma_clause_advances(text: Seq<char>, at: int)
    requires
        0 <= at,
    ensures
        parse_clause(text, at) matches Ok((_, next)) ==> at + 2 <= next <= text.len(),
{
    if matches_at(text, at, case_keyword()) {
        let colon = whitespace_end(text, at + case_keyword().len());
        lemma_whitespace_end(text, at + case_keyword().len());
        if matches_at(text, colon, ":"@) {
            let first = whitespace_end(text, colon + 1);
            lemma_whitespace_end(text, colon + 1);
            lemma_quoted_advances(text, first, ReasonModel::ExpectedQuery);
            if let Ok((_, word)) = quoted_then_space(text, first, ReasonModel::ExpectedQuery) {
                if matches_at(text, word, as_keyword()) {
                    let second = whitespace_end(text, word + as_keyword().len());
                    lemma_whitespace_end(text, word + as_keyword().len());
                    if matches_at(text, second, ":"@) {
                        lemma_whitespace_end(text, second + 1);
                        lemma_quoted_advances(
                            text,
                            whitespace_end(text, second + 1),
                            ReasonModel::ExpectedValue,
                        );
                    }
                }
            }
        }
    } else if matches_at(text, at, else_keyword()) {
        lemma_whitespace_end(text, at + else_keyword().len());
        lemma_quoted_advances(
            text,
            whitespace_end(text, at + else_keyword().len()),
            ReasonModel::ExpectedValue,
        );
    }
}

/// A parse that went well comes before what follows it; one that failed ends all.
pub open spec fn prepend<A, P>(done: Seq<A>, rest: Result<(Seq<A>, P), ErrorModel>) -> Result<
    (Seq<A>, P),
    ErrorModel,
> {
    match rest {
        Err(e) => Err(e),
        Ok((more, end)) => Ok((done + more, end)),
    }
}

/// The clauses from `at` on, up to a `)` or the end of the text, and the position
/// where they end.
pub open spec fn parse_clauses(text: Seq<char>, at: int) -> Result<
    (Seq<MediaValueArg>, int),
    ErrorModel,
>
    decreases text.len() - at,
{
    let token = whitespace_end(text, at);
    if char_at(text, token) is None || char_at(text, token) == Some(')') {
        Ok((Seq::empty(), token))
    } else {
        match parse_clause(text, token) {
            Err(e) => Err(e),
            Ok((arg, next)) => {
                proof {
                    lemma_whitespace_end(text, at);
                    lemma_clause_advances(text, token);
                }
                prepend(seq![arg], parse_clauses(text, next))
            },
        }
    }
}

/// The argument list at `at`: nothing where no `(` stands there; else the clauses
/// and the position behind the closing `)`, which must follow them.
pub open spec fn parse_args(text: Seq<char>, at: int) -> Result<
    Option<(Seq<MediaValueArg>, int)>,
    ErrorModel,
> {
    if !matches_at(text, at, "("@) {
        Ok(None)
    } else {
        match parse_clauses(text, at + 1) {
            Err(e) => Err(e),
            Ok((args, end)) => if matches_at(text, end, ")"@) {
                Ok(Some((args, end + 1)))
            } else {
                Err(ErrorModel::At(end, ReasonModel::ExpectedChar(')')))
            },
        }
    }
}

/// The clauses end at or after the place where they begin, inside the text.
pub proof fn lemma_clauses_advance(text: Seq<char>, at: int)
    requires
        0 <= at <= text.len(),
    ensures
        parse_clauses(text, at) matches Ok((_, end)) ==> at <= end <= text.len(),
    decreases text.len() - at,
{
    let token = whitespace_end(text, at);
    lemma_whitespace_end(text, at);
    if !(char_at(text, token) is None || char_at(text, token) == Some(')')) {
        lemma_clause_advances(text, token);
        if let Ok((_, next)) = parse_clause(text, token) {
            lemma_clauses_advance(text, next);
        }
    }
}

/// An argument list ends after it begins, inside the text.
pub proof fn lemma_args_advance(text: Seq<char>, at: int)
    requires
        0 <= at,
    ensures
        parse_args(text, at) matches Ok(Some((_, next))) ==> at + 2 <= next <= text.len(),
{
    if matches_at(text, at, "("@) {
        reveal_strlit("(");
        reveal_strlit(")");
        lemma_clauses_advance(text, at + 1);
    }
}

/// The expression that the clauses make: the cases in the order read, and the first
/// default. A second default is an error at the position of its keyword.
pub open spec fn reduce_args(args: Seq<MediaValueArg>) -> Result<ValueModel<Bookmark>, ErrorModel>
    decreases args.len(),
{
    if args.len() == 0 {
        Ok(ValueModel { cases: Seq::empty(), default: None })
    } else {
        match reduce_args(args.drop_last()) {
            Err(e) => Err(e),
            Ok(v) => match args.last() {
                MediaValueArg::Case(media, value) => Ok(
                    ValueModel { cases: v.cases.push(Case { media, value }), default: v.default },
                ),
                MediaValueArg::Else(at, value) => match v.default {
                    None => Ok(ValueModel { cases: v.cases, default: Some(value) }),
                    Some(_) => Err(ErrorModel::At(at as int, ReasonModel::TooManyElseClauses)),
                },
            },
        }
    }
}

/// The run of text over code points `from..to`, as a list: no segment where the run
/// is empty.
pub open spec fn text_run(text: Seq<char>, from: int, to: int) -> Seq<SegmentModel<Bookmark>> {
    if from < to {
        seq![SegmentModel::Text(Bookmark::spanning(text, from, to))]
    } else {
        Seq::empty()
    }
}

/// Segments that were read come before those that follow; a failure ends all.
pub open spec fn before<A>(done: Seq<A>, rest: Result<Seq<A>, ErrorModel>) -> Result<
    Seq<A>,
    ErrorModel,
> {
    match rest {
        Err(e) => Err(e),
        Ok(more) => Ok(done + more),
    }
}

/// Where the name of an expression is found from `at` on, it and the whitespace
/// behind it end after `at`, inside the text.
pub proof fn lemma_name_advances(text: Seq<char>, at: int)
    requires
        0 <= at,
    ensures
        first_match(text, at, media_value_name()) matches Some(found) ==> at <= found && found
            + 11 <= whitespace_end(text, found + media_value_name().len()) <= text.len()
            && media_value_name().len() == 11,
{
    reveal_strlit("media-value");
    lemma_first_match(text, at, media_value_name());
    if let Some(found) = first_match(text, at, media_value_name()) {
        lemma_whitespace_end(text, found + media_value_name().len());
    }
}

/// The segments of `text` from `at` on.
pub open spec fn parse_segments_from(text: Seq<char>, at: int) -> Result<
    Seq<SegmentModel<Bookmark>>,
    ErrorModel,
>
    decreases text.len() - at,
{
    match first_match(text, at, media_value_name()) {
        None => Ok(text_run(text, at, text.len() as int)),
        Some(found) => {
            let open = whitespace_end(text, found + media_value_name().len());
            match parse_args(text, open) {
                Err(e) => Err(e),
                Ok(None) => {
                    proof {
                        lemma_name_advances(text, at);
                    }
                    before(text_run(text, at, open), parse_segments_from(text, open))
                },
                Ok(Some((args, next))) => match reduce_args(args) {
                    Err(e) => Err(e),
                    Ok(value) => {
                        proof {
                            lemma_name_advances(text, at);
                            lemma_args_advance(text, open);
                        }
                        before(
                            text_run(text, at, found).push(SegmentModel::Value(value)),
                            parse_segments_from(text, next),
                        )
                    },
                },
            }
        },
    }
}

/// What parsing `text` yields: the template with the segments of the text over
/// bookmarks, or the first error.
pub open spec fn parse_template(text: Seq<char>) -> Result<TemplateModel<Bookmark>, ErrorModel> {
    match parse_segments_from(text, 0) {
        Err(e) => Err(e),
        Ok(segments) => Ok(TemplateModel::Responsive(segments)),
    }
}


/// The error for `reason` at the scanner's cursor.
pub fn failure(state: &State, reason: FailureReason) -> (e: ParseError)
    ensures
        e == ParseError::At(state.cursor, reason),
{
    ParseError::At(state.cursor, reason)
}

/// Moves the scanner behind the next `media-value` and gives the range of the text
/// before it. Where the name does not occur from the cursor on, the cursor stays.
pub fn seek_media_value(state: &mut State) -> (r: Option<Bookmark>)
    requires
        old(state).wf(),
    ensures
        final(state).input == old(state).input,
        final(state).indices == old(state).indices,
        match first_match(old(state).text(), old(state).cursor as int, media_value_name()) {
            Some(found) => r == Some(
                Bookmark::spanning(old(state).text(), old(state).cursor as int, found),
            ) && final(state).cursor == found + media_value_name().len(),
            None => r is None && final(state).cursor == old(state).cursor,
        },
{
    let initial_cursor: usize = state.cursor;
    proof {
        lemma_name_advances(state.text(), initial_cursor as int);
        state.lemma_length_fits();
    }
    match state.seek_to_substring("media-value") {
        SeekResult::CouldSeek => {
            let start = state.bookmark_input(initial_cursor, state.cursor);
            state.increment_over("media-value");
            start
        },
        SeekResult::CannotSeek => {
            state.override_cursor(initial_cursor);
            None
        },
    }
}

/// Reads a quoted string at the cursor and the whitespace behind it; where no string
/// is there, the error is `reason` at the place where the scanner gave up.
fn read_quoted(state: &mut State, reason: FailureReason) -> (r: Result<Bookmark, ParseError>)
    requires
        old(state).wf(),
    ensures
        final(state).input == old(state).input,
        final(state).indices == old(state).indices,
        r matches Err(ParseError::At(at, _)) ==> final(state).cursor == at,
        match quoted_then_space(old(state).text(), old(state).cursor as int, reason@) {
            Ok((b, next)) => r == Ok::<Bookmark, ParseError>(b) && final(state).cursor == next,
            Err(e) => r matches Err(pe) && pe@ == e,
        },
{
    match state.match_string() {
        Some(b) => {
            state.skip_whitespace();
            Ok(b)
        },
        None => Err(failure(state, reason)),
    }
}

/// Reads `:` at the cursor and the whitespace behind it.
fn read_colon(state: &mut State) -> (r: Result<(), ParseError>)
    requires
        old(state).wf(),
    ensures
        final(state).input == old(state).input,
        final(state).indices == old(state).indices,
        r matches Err(ParseError::At(at, _)) ==> final(state).cursor == at,
        if matches_at(old(state).text(), old(state).cursor as int, ":"@) {
            r is Ok && final(state).cursor == whitespace_end(
                old(state).text(),
                old(state).cursor + 1,
            )
        } else {
            r matches Err(pe) && pe@ == ErrorModel::At(
                old(state).cursor as int,
                ReasonModel::ExpectedChar(':'),
            )
        },
{
    proof {
        reveal_strlit(":");
    }
    if !state.skip_next_if(":") {
        return Err(failure(state, FailureReason::ExpectedChar(':')));
    }
    state.skip_whitespace();
    Ok(())
}

/// Reads the rest of a case clause, from behind its keyword.
fn read_case(state: &mut State) -> (r: Result<MediaValueArg, ParseError>)
    requires
        old(state).wf(),
    ensures
        final(state).input == old(state).input,
        final(state).indices == old(state).indices,
        r matches Err(ParseError::At(at, _)) ==> final(state).cursor == at,
        match parse_case(old(state).text(), old(state).cursor as int) {
            Ok((arg, next)) => r == Ok::<MediaValueArg, ParseError>(arg) && final(state).cursor
                == next,
            Err(e) => r matches Err(pe) && pe@ == e,
        },
{
    proof {
        reveal_strlit("as");
    }
    state.skip_whitespace();
    match read_colon(state) {
        Ok(()) => {},
        Err(e) => return Err(e),
    }
    let media = match read_quoted(state, FailureReason::ExpectedQuery) {
        Ok(b) => b,
        Err(e) => return Err(e),
    };
    if !state.skip_next_if("as") {
        return Err(failure(state, FailureReason::ExpectedAs));
    }
    state.skip_whitespace();
    match read_colon(state) {
        Ok(()) => {},
        Err(e) => return Err(e),
    }
    let value = match read_quoted(state, FailureReason::ExpectedValue) {
        Ok(b) => b,
        Err(e) => return Err(e),
    };
    Ok(MediaValueArg::Case(media, value))
}

/// The names of what an argument list may go on with.
fn expected_token_names() -> (v: Vec<String>)
    ensures
        Seq::new(v@.len(), |i: int| v@[i]@) == expected_tokens(),
{
    let mut v: Vec<String> = Vec::new();
    v.push("closing paren".to_owned());
    v.push("case keyword".to_owned());
    v.push("else keyword".to_owned());
    assert(Seq::new(v@.len(), |i: int| v@[i]@) =~= expected_tokens());
    v
}

/// Reads one clause at the cursor, which stands on no whitespace.
fn read_clause(state: &mut State) -> (r: Result<MediaValueArg, ParseError>)
    requires
        old(state).wf(),
    ensures
        final(state).input == old(state).input,
        final(state).indices == old(state).indices,
        r matches Err(ParseError::At(at, _)) ==> final(state).cursor == at,
        match parse_clause(old(state).text(), old(state).cursor as int) {
            Ok((arg, next)) => r == Ok::<MediaValueArg, ParseError>(arg) && final(state).cursor
                == next,
            Err(e) => r matches Err(pe) && pe@ == e,
        },
{
    proof {
        reveal_strlit("case");
        reveal_strlit("else");
    }
    let at: usize = state.cursor;
    if state.skip_next_if("case") {
        read_case(state)
    } else if state.skip_next_if("else") {
        state.skip_whitespace();
        match read_quoted(state, FailureReason::ExpectedValue) {
            Ok(value) => Ok(MediaValueArg::Else(at, value)),
            Err(e) => Err(e),
        }
    } else {
        Err(failure(state, FailureReason::ExpectedOneOf(expected_token_names())))
    }
}


/// Reading more clauses after some were read gives the same as reading all at once.
pub proof fn lemma_prepend_twice<A, P>(
    done: Seq<A>,
    one: Seq<A>,
    rest: Result<(Seq<A>, P), ErrorModel>,
)
    ensures
        prepend(done, prepend(one, rest)) == prepend(done + one, rest),
{
    if let Ok((more, end)) = rest {
        assert(done + (one + more) =~= (done + one) + more);
    }
}

/// Reading more segments after some were read gives the same as reading all at once.
pub proof fn lemma_before_twice<A>(done: Seq<A>, one: Seq<A>, rest: Result<Seq<A>, ErrorModel>)
    ensures
        before(done, before(one, rest)) == before(done + one, rest),
{
    if let Ok(more) = rest {
        assert(done + (one + more) =~= (done + one) + more);
    }
}

/// Reads the argument list of an expression at the cursor: nothing where no `(`
/// stands there, and the cursor stays; else the clauses up to the closing `)`, with
/// the cursor behind it. Each clause must be a case or a default, and a `)` must end
/// the list; the error says what was missing, and where.
pub fn parse_media_value_args(state: &mut State) -> (r: Result<
    Option<Vec<MediaValueArg>>,
    ParseError,
>)
    requires
        old(state).wf(),
    ensures
        final(state).input == old(state).input,
        final(state).indices == old(state).indices,
        r matches Err(ParseError::At(at, _)) ==> final(state).cursor == at,
        match parse_args(old(state).text(), old(state).cursor as int) {
            Ok(None) => r matches Ok(None) && final(state).cursor == old(state).cursor,
            Ok(Some((args, next))) => r matches Ok(Some(v)) && v@ == args && final(state).cursor
                == next,
            Err(e) => r matches Err(pe) && pe@ == e,
        },
{
    proof {
        reveal_strlit("(");
        reveal_strlit(")");
        state.lemma_length_fits();
    }
    if !state.skip_next_if("(") {
        return Ok(None);
    }
    let ghost text = state.text();
    let ghost start = state.cursor as int;
    let mut args: Vec<MediaValueArg> = Vec::new();
    assert(prepend(args@, parse_clauses(text, start)) == parse_clauses(text, start)) by {
        if let Ok((more, end)) = parse_clauses(text, start) {
            assert(args@ + more =~= more);
        }
    }
    loop
        invariant_except_break
            parse_clauses(text, start) == prepend(args@, parse_clauses(text, state.cursor as int)),
        invariant
            state.wf(),
            state.input == old(state).input,
            state.indices == old(state).indices,
            text == state.text(),
            text == old(state).text(),
            start == old(state).cursor + 1,
            matches_at(text, old(state).cursor as int, "("@),
            state.cursor <= text.len(),
        ensures
            parse_clauses(text, start) == Ok::<(Seq<MediaValueArg>, int), ErrorModel>(
                (args@, state.cursor as int),
            ),
        decreases text.len() - state.cursor,
    {
        let ghost before_space = state.cursor as int;
        proof {
            lemma_whitespace_end(text, before_space);
        }
        state.skip_whitespace();
        let stop = match state.get_head() {
            None => true,
            Some(c) => c == ')',
        };
        if stop {
            assert(parse_clauses(text, before_space) == Ok::<(Seq<MediaValueArg>, int), ErrorModel>(
                (Seq::empty(), state.cursor as int),
            ));
            assert(args@ + Seq::<MediaValueArg>::empty() =~= args@);
            break ;
        }
        proof {
            lemma_clause_advances(text, state.cursor as int);
        }
        match read_clause(state) {
            Ok(arg) => {
                proof {
                    lemma_prepend_twice(
                        args@,
                        seq![arg],
                        parse_clauses(text, state.cursor as int),
                    );
                    assert(args@.push(arg) =~= args@ + seq![arg]);
                }
                args.push(arg);
            },
            Err(e) => {
                return Err(e);
            },
        }
    }
    if !state.skip_next_if(")") {
        return Err(failure(state, FailureReason::ExpectedChar(')')));
    }
    Ok(Some(args))
}

/// Makes the expression of the clauses read: the cases in their order, and the
/// default. A second default is an error at the position of its keyword.
pub fn args_to_value(args: Vec<MediaValueArg>) -> (r: Result<ResponsiveValue<Bookmark>, ParseError>)
    ensures
        match reduce_args(args@) {
            Ok(v) => r matches Ok(value) && value@ == v,
            Err(e) => r matches Err(pe) && pe@ == e,
        },
{
    let mut default: Option<Bookmark> = None;
    let mut cases: Vec<Case<Bookmark>> = Vec::new();
    let mut i: usize = 0;
    assert(args@.subrange(0, 0) =~= Seq::<MediaValueArg>::empty());
    assert(Seq::new(cases@.len(), |k: int| cases@[k]@) =~= Seq::<Case<Bookmark>>::empty());
    while i < args.len()
        invariant
            0 <= i <= args.len(),
            reduce_args(args@.subrange(0, i as int)) == Ok::<ValueModel<Bookmark>, ErrorModel>(
                ValueModel { cases: Seq::new(cases@.len(), |k: int| cases@[k]@), default },
            ),
        decreases args.len() - i,
    {
        proof {
            let upto = args@.subrange(0, i + 1);
            assert(upto.drop_last() =~= args@.subrange(0, i as int));
            assert(upto.last() == args@[i as int]);
        }
        match args[i] {
            MediaValueArg::Case(media, value) => {
                let ghost had = Seq::new(cases@.len(), |k: int| cases@[k]@);
                cases.push(Case { media, value });
                assert(Seq::new(cases@.len(), |k: int| cases@[k]@) =~= had.push(
                    Case { media, value },
                ));
            },
            MediaValueArg::Else(at, value) => match default {
                None => {
                    default = Some(value);
                },
                Some(_) => {
                    proof {
                        lemma_reduce_prefix_error(args@, i + 1);
                    }
                    return Err(ParseError::At(at, FailureReason::TooManyElseClauses));
                },
            },
        }
        i = i + 1;
    }
    assert(args@.subrange(0, i as int) =~= args@);
    Ok(ResponsiveValue { cases, default })
}

/// Where a prefix of the clauses holds a second default, the whole list fails as it does.
pub proof fn lemma_reduce_prefix_error(args: Seq<MediaValueArg>, upto: int)
    requires
        0 <= upto <= args.len(),
        reduce_args(args.subrange(0, upto)) is Err,
    ensures
        reduce_args(args) == reduce_args(args.subrange(0, upto)),
    decreases args.len() - upto,
{
    if upto < args.len() {
        let next = args.subrange(0, upto + 1);
        assert(next.drop_last() =~= args.subrange(0, upto));
        lemma_reduce_prefix_error(args, upto + 1);
    } else {
        assert(args.subrange(0, upto) =~= args);
    }
}


/// A range over whole code points is empty exactly when it covers none.
pub proof fn lemma_spanning_empty(text: Seq<char>, from: int, to: int)
    requires
        0 <= from <= to <= text.len(),
        encode_utf8(text).len() <= usize::MAX,
    ensures
        Bookmark::spanning(text, from, to).start == Bookmark::spanning(text, from, to).end <==> from
            == to,
{
    lemma_spanning_resolves(text, from, to);
    lemma_byte_offset_monotone(text, from, to);
}

/// Reads the segments of `input` in order. Text up to an expression is a segment
/// before it, unless it is empty; so is the text behind the last expression. A
/// `media-value` that no `(` follows closes a run of text, with the whitespace
/// behind it. The first malformed expression ends the parse with its error.
pub fn parse_segments(input: &str) -> (r: Result<Vec<Segment<Bookmark>>, ParseError>)
    ensures
        match parse_segments_from(input@, 0) {
            Ok(m) => r matches Ok(v) && segment_models(v@) == m,
            Err(e) => r matches Err(pe) && pe@ == e,
        },
{
    let mut state = State::create(input);
    let mut segments: Vec<Segment<Bookmark>> = Vec::new();
    let ghost text = input@;
    proof {
        state.lemma_length_fits();
        assert(segment_models(segments@) =~= Seq::<SegmentModel<Bookmark>>::empty());
        if let Ok(more) = parse_segments_from(text, 0) {
            assert(segment_models(segments@) + more =~= more);
        }
    }
    while state.has_more()
        invariant
            state.wf(),
            state.input == input,
            text == input@,
            encode_utf8(text).len() <= usize::MAX,
            state.cursor <= text.len(),
            parse_segments_from(text, 0) == before(
                segment_models(segments@),
                parse_segments_from(text, state.cursor as int),
            ),
        ensures
            first_match(text, state.cursor as int, media_value_name()) is None,
        decreases text.len() - state.cursor,
    {
        let initial_cursor: usize = state.cursor;
        let ghost done = segment_models(segments@);
        proof {
            lemma_name_advances(text, initial_cursor as int);
        }
        let start = match seek_media_value(&mut state) {
            Some(b) => b,
            None => {
                break ;
            },
        };
        let ghost found = first_match(text, initial_cursor as int, media_value_name()).unwrap();
        state.skip_whitespace();
        let ghost open = state.cursor as int;
        proof {
            lemma_args_advance(text, open);
        }
        match parse_media_value_args(&mut state) {
            Err(e) => {
                return Err(e);
            },
            Ok(None) => {
                match state.bookmark_input(initial_cursor, state.cursor) {
                    Some(run) => {
                        segments.push(Segment::Text(run));
                    },
                    None => {},
                }
                proof {
                    let one = text_run(text, initial_cursor as int, open);
                    assert(segment_models(segments@) =~= done + one);
                    lemma_before_twice(done, one, parse_segments_from(text, open));
                }
            },
            Ok(Some(args)) => {
                let value = match args_to_value(args) {
                    Ok(v) => v,
                    Err(e) => {
                        return Err(e);
                    },
                };
                proof {
                    lemma_spanning_empty(text, initial_cursor as int, found);
                }
                if !start.is_empty() {
                    segments.push(Segment::Text(start));
                }
                segments.push(Segment::Value(value));
                proof {
                    let one = text_run(text, initial_cursor as int, found).push(
                        SegmentModel::Value(value@),
                    );
                    assert(segment_models(segments@) =~= done + one);
                    lemma_before_twice(done, one, parse_segments_from(text, state.cursor as int));
                }
            },
        }
    }
    let ghost done = segment_models(segments@);
    if let Some(remaining) = state.get_remaining() {
        segments.push(Segment::Text(remaining));
    }
    assert(segment_models(segments@) =~= done + text_run(
        text,
        state.cursor as int,
        text.len() as int,
    ));
    Ok(segments)
}

/// The outcome of a parse as a mathematical value.
pub open spec fn outcome<T: View>(r: Result<T, ParseError>) -> Result<T::V, ErrorModel> {
    match r {
        Ok(t) => Ok(t@),
        Err(e) => Err(e@),
    }
}

/// What parsing `text` and resolving the template against the same text yields. (The
/// last error cannot come about where `text` is a text of the machine.)
pub open spec fn parse_resolved(text: Seq<char>) -> Result<TemplateModel<Seq<char>>, ErrorModel> {
    match parse_template(text) {
        Err(e) => Err(e),
        Ok(t) => match resolve_template(t, text) {
            Ok(resolved) => Ok(resolved),
            Err(CheckoutError::At(b)) => Err(ErrorModel::FailedToCheckoutOut(b)),
        },
    }
}

/// Parses `input` into a template over bookmarks: `Responsive` with all segments of
/// the text in order, whether or not an expression is among them.
pub fn parse_property_bookmark(input: &str) -> (r: Result<ResponsiveTemplate<Bookmark>, ParseError>)
    ensures
        outcome(r) == parse_template(input@),
{
    let segments = match parse_segments(input) {
        Ok(s) => s,
        Err(e) => {
            return Err(e);
        },
    };
    Ok(ResponsiveTemplate::Responsive(segments))
}


/// Parses `input` into a template over slices of `input`: the template that
/// `parse_property_bookmark` finds, with each bookmark resolved against `input`.
pub fn parse_property<'a>(input: &'a str) -> (r: Result<ResponsiveTemplate<&'a str>, ParseError>)
    ensures
        outcome(r) == parse_resolved(input@),
        !(r matches Err(ParseError::FailedToCheckoutOut(_))),
{
    let size: usize = input.as_bytes().len();
    proof {
        assert(encode_utf8(input@).len() == size);
        self::laws::lemma_parse_resolves(input@);
        self::laws::lemma_parse_error_placed(input@);
    }
    match parse_property_bookmark(input) {
        Err(e) => Err(e),
        Ok(template) => match template.checkout(input) {
            Ok(resolved) => Ok(resolved),
            Err(e) => Err(ParseError::from(e)),
        },
    }
}

} // verus!
