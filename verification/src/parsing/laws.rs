//! What holds of every parse: its bookmarks fit the text they came from, plain text
//! comes back whole, and the outcome depends on the text alone.

use vstd::prelude::*;
use vstd::utf8::*;
use crate::parsing::bookmark::{lemma_spanning_resolves, Bookmark, CheckoutError};
use crate::parsing::data::{
    resolve_cases, resolve_segments, resolve_template, Case, ErrorModel, ParseError, ReasonModel,
    ResponsiveTemplate, SegmentModel, TemplateModel, ValueModel,
};
use crate::parsing::encoding::{lemma_byte_offset_at_least, lemma_byte_offset_ends};
use crate::parsing::state::{
    char_at, first_match, lemma_closing_quote, lemma_first_match, lemma_whitespace_end, matches_at,
    quoted_at, whitespace_end,
};
use crate::parsing::{
    as_keyword, case_keyword, else_keyword, lemma_args_advance, lemma_clause_advances,
    lemma_clauses_advance, lemma_name_advances, lemma_quoted_advances, media_value_name, outcome,
    parse_args, parse_case, parse_clause, parse_clauses, parse_resolved, parse_segments_from,
    parse_template, quoted_then_space, reduce_args, text_run, MediaValueArg,
};

verus! {

/// Every bookmark of the clause fits `text`.
pub open spec fn arg_fits(arg: MediaValueArg, text: Seq<char>) -> bool {
    match arg {
        MediaValueArg::Case(media, value) => media.valid_in(text) && value.valid_in(text),
        MediaValueArg::Else(_, value) => value.valid_in(text),
    }
}

/// Every bookmark of the expression fits `text`.
pub open spec fn value_fits(v: ValueModel<Bookmark>, text: Seq<char>) -> bool {
    &&& forall|i: int|
        0 <= i < v.cases.len() ==> (#[trigger] v.cases[i]).media.valid_in(text)
            && v.cases[i].value.valid_in(text)
    &&& v.default matches Some(b) ==> b.valid_in(text)
}

/// Every bookmark of the segment fits `text`.
pub open spec fn segment_fits(s: SegmentModel<Bookmark>, text: Seq<char>) -> bool {
    match s {
        SegmentModel::Text(b) => b.valid_in(text),
        SegmentModel::Value(v) => value_fits(v, text),
    }
}

/// Every bookmark of the segments fits `text`.
pub open spec fn segments_fit(segments: Seq<SegmentModel<Bookmark>>, text: Seq<char>) -> bool {
    forall|i: int| 0 <= i < segments.len() ==> segment_fits(#[trigger] segments[i], text)
}

/// Cases whose bookmarks fit the text can all be resolved.
pub proof fn lemma_cases_resolve(cases: Seq<Case<Bookmark>>, text: Seq<char>)
    requires
        forall|i: int|
            0 <= i < cases.len() ==> (#[trigger] cases[i]).media.valid_in(text)
                && cases[i].value.valid_in(text),
    ensures
        resolve_cases(cases, text) is Ok,
    decreases cases.len(),
{
    if cases.len() > 0 {
        lemma_cases_resolve(cases.drop_last(), text);
        assert(cases.last() == cases[cases.len() - 1]);
    }
}

/// Segments whose bookmarks fit the text can all be resolved.
pub proof fn lemma_segments_resolve(segments: Seq<SegmentModel<Bookmark>>, text: Seq<char>)
    requires
        segments_fit(segments, text),
    ensures
        resolve_segments(segments, text) is Ok,
    decreases segments.len(),
{
    if segments.len() > 0 {
        lemma_segments_resolve(segments.drop_last(), text);
        let last = segments[segments.len() - 1];
        assert(segment_fits(last, text));
        if let SegmentModel::Value(v) = last {
            lemma_cases_resolve(v.cases, text);
        }
    }
}

/// The range of a quoted string that was read fits the text.
pub proof fn lemma_quoted_fits(text: Seq<char>, at: int, reason: ReasonModel)
    requires
        0 <= at,
        encode_utf8(text).len() <= usize::MAX,
    ensures
        quoted_then_space(text, at, reason) matches Ok((b, _)) ==> b.valid_in(text),
{
    if let Some(close) = quoted_at(text, at) {
        lemma_closing_quote(text, char_at(text, at).unwrap(), at + 1);
        lemma_spanning_resolves(text, at + 1, close);
    }
}

/// The bookmarks of a clause that was read fit the text.
pub proof fn lemma_clause_fits(text: Seq<char>, at: int)
    requires
        0 <= at,
        encode_utf8(text).len() <= usize::MAX,
    ensures
        parse_clause(text, at) matches Ok((arg, _)) ==> arg_fits(arg, text),
{
    if matches_at(text, at, case_keyword()) {
        let colon = whitespace_end(text, at + case_keyword().len());
        lemma_whitespace_end(text, at + case_keyword().len());
        if matches_at(text, colon, ":"@) {
            let first = whitespace_end(text, colon + 1);
            lemma_whitespace_end(text, colon + 1);
            lemma_quoted_fits(text, first, ReasonModel::ExpectedQuery);
            lemma_quoted_advances(text, first, ReasonModel::ExpectedQuery);
            if let Ok((_, word)) = quoted_then_space(text, first, ReasonModel::ExpectedQuery) {
                if matches_at(text, word, as_keyword()) {
                    let second = whitespace_end(text, word + as_keyword().len());
                    lemma_whitespace_end(text, word + as_keyword().len());
                    if matches_at(text, second, ":"@) {
                        lemma_whitespace_end(text, second + 1);
                        lemma_quoted_fits(
                            text,
                            whitespace_end(text, second + 1),
                            ReasonModel::ExpectedValue,
                        );
                    }
                }
            }
        }
    } else if matches_at(text, at, else_keyword()) {
        lemma_whitespace_end(text, at + else_keyword().len());
        lemma_quoted_fits(
            text,
            whitespace_end(text, at + else_keyword().len()),
            ReasonModel::ExpectedValue,
        );
    }
}

/// The bookmarks of all clauses that were read fit the text.
pub proof fn lemma_clauses_fit(text: Seq<char>, at: int)
    requires
        0 <= at,
        encode_utf8(text).len() <= usize::MAX,
    ensures
        parse_clauses(text, at) matches Ok((args, _)) ==> forall|i: int|
            0 <= i < args.len() ==> arg_fits(#[trigger] args[i], text),
    decreases text.len() - at,
{
    let token = whitespace_end(text, at);
    lemma_whitespace_end(text, at);
    if !(char_at(text, token) is None || char_at(text, token) == Some(')')) {
        lemma_clause_advances(text, token);
        lemma_clause_fits(text, token);
        if let Ok((arg, next)) = parse_clause(text, token) {
            lemma_clauses_fit(text, next);
        }
    }
}

/// The expression made of clauses that fit the text fits it too.
pub proof fn lemma_reduce_fits(args: Seq<MediaValueArg>, text: Seq<char>)
    requires
        forall|i: int| 0 <= i < args.len() ==> arg_fits(#[trigger] args[i], text),
    ensures
        reduce_args(args) matches Ok(v) ==> value_fits(v, text),
    decreases args.len(),
{
    if args.len() > 0 {
        lemma_reduce_fits(args.drop_last(), text);
        assert(arg_fits(args[args.len() - 1], text));
    }
}

/// The bookmarks of all segments that were read fit the text.
pub proof fn lemma_parsed_segments_fit(text: Seq<char>, at: int)
    requires
        0 <= at,
        encode_utf8(text).len() <= usize::MAX,
    ensures
        parse_segments_from(text, at) matches Ok(segments) ==> segments_fit(segments, text),
    decreases text.len() - at,
{
    lemma_name_advances(text, at);
    match first_match(text, at, media_value_name()) {
        None => {
            if at < text.len() {
                lemma_spanning_resolves(text, at, text.len() as int);
            }
        },
        Some(found) => {
            let open = whitespace_end(text, found + media_value_name().len());
            lemma_args_advance(text, open);
            match parse_args(text, open) {
                Err(e) => {},
                Ok(None) => {
                    lemma_spanning_resolves(text, at, open);
                    lemma_parsed_segments_fit(text, open);
                },
                Ok(Some((args, next))) => {
                    lemma_clauses_fit(text, open + 1);
                    lemma_reduce_fits(args, text);
                    if at < found {
                        lemma_spanning_resolves(text, at, found);
                    }
                    lemma_parsed_segments_fit(text, next);
                },
            }
        },
    }
}

/// Every bookmark that a successful parse of a text produces can be resolved against
/// that text: resolving the parsed template never fails.
pub proof fn lemma_parse_resolves(text: Seq<char>)
    requires
        encode_utf8(text).len() <= usize::MAX,
    ensures
        parse_template(text) matches Ok(t) ==> resolve_template(t, text) is Ok,
{
    lemma_parsed_segments_fit(text, 0);
    if let Ok(segments) = parse_segments_from(text, 0) {
        lemma_segments_resolve(segments, text);
    }
}

/// Whether `media-value` stands anywhere in `text`.
pub open spec fn names_media_value(text: Seq<char>) -> bool {
    exists|at: int| matches_at(text, at, media_value_name())
}

/// A text in which `media-value` stands nowhere parses without error, into a
/// template with one run of text that covers all of it. Resolved against the text, the
/// run gives the text back. (An empty text has no run: its template has no segment.)
pub proof fn lemma_plain_text(text: Seq<char>)
    requires
        !names_media_value(text),
        encode_utf8(text).len() <= usize::MAX,
    ensures
        parse_template(text) == Ok::<TemplateModel<Bookmark>, ErrorModel>(
            TemplateModel::Responsive(text_run(text, 0, text.len() as int)),
        ),
        text.len() > 0 ==> parse_template(text) == Ok::<TemplateModel<Bookmark>, ErrorModel>(
            TemplateModel::Responsive(
                seq![SegmentModel::Text(Bookmark::spanning(text, 0, text.len() as int))],
            ),
        ),
        text.len() > 0 ==> Bookmark::spanning(text, 0, text.len() as int).resolve(text) == Ok::<
            Seq<char>,
            CheckoutError,
        >(text),
        text.len() > 0 ==> parse_resolved(text) == Ok::<TemplateModel<Seq<char>>, ErrorModel>(
            TemplateModel::Responsive(seq![SegmentModel::Text(text)]),
        ),
        text.len() == 0 ==> parse_resolved(text) == Ok::<TemplateModel<Seq<char>>, ErrorModel>(
            TemplateModel::Responsive(Seq::empty()),
        ),
{
    lemma_first_match(text, 0, media_value_name());
    lemma_spanning_resolves(text, 0, text.len() as int);
    assert(text.subrange(0, text.len() as int) =~= text);
    let run = text_run(text, 0, text.len() as int);
    if text.len() > 0 {
        assert(run.drop_last() =~= Seq::<SegmentModel<Bookmark>>::empty());
        assert(resolve_segments(run.drop_last(), text) == Ok::<
            Seq<SegmentModel<Seq<char>>>,
            CheckoutError,
        >(Seq::empty()));
        assert(Seq::<SegmentModel<Seq<char>>>::empty().push(SegmentModel::Text(text)) =~= seq![
            SegmentModel::Text(text),
        ]);
    }
}

/// The error is one of malformed text, at a position of `text` or at its end.
pub open spec fn placed_in(e: ErrorModel, text: Seq<char>) -> bool {
    e matches ErrorModel::At(at, _) && 0 <= at <= text.len()
}

/// The keyword of the clause, where it is a default, stands at `at`.
pub open spec fn default_placed(arg: MediaValueArg, at: int) -> bool {
    arg matches MediaValueArg::Else(p, _) ==> p == at
}

/// The keyword of every default among the clauses stands inside `text`.
pub open spec fn defaults_placed(args: Seq<MediaValueArg>, text: Seq<char>) -> bool {
    forall|i: int|
        0 <= i < args.len() ==> ((#[trigger] args[i]) matches MediaValueArg::Else(p, _) ==> p
            <= text.len())
}

/// A text that fits the machine has positions that do.
pub proof fn lemma_positions_fit(text: Seq<char>)
    requires
        encode_utf8(text).len() <= usize::MAX,
    ensures
        text.len() <= usize::MAX,
{
    lemma_byte_offset_at_least(text, text.len() as int);
    lemma_byte_offset_ends(text);
}

/// Where no quoted string can be read, the error lies inside the text.
pub proof fn lemma_quoted_error(text: Seq<char>, at: int, reason: ReasonModel)
    requires
        0 <= at <= text.len(),
    ensures
        quoted_then_space(text, at, reason) matches Err(e) ==> placed_in(e, text),
{
}

/// Where a case clause cannot be read, the error lies inside the text.
pub proof fn lemma_case_error(text: Seq<char>, at: int)
    requires
        0 <= at <= text.len(),
    ensures
        parse_case(text, at) matches Err(e) ==> placed_in(e, text),
{
    reveal_strlit(":");
    let colon = whitespace_end(text, at);
    lemma_whitespace_end(text, at);
    if matches_at(text, colon, ":"@) {
        let first = whitespace_end(text, colon + 1);
        lemma_whitespace_end(text, colon + 1);
        lemma_quoted_error(text, first, ReasonModel::ExpectedQuery);
        lemma_quoted_advances(text, first, ReasonModel::ExpectedQuery);
        if let Ok((_, word)) = quoted_then_space(text, first, ReasonModel::ExpectedQuery) {
            if matches_at(text, word, as_keyword()) {
                let second = whitespace_end(text, word + as_keyword().len());
                lemma_whitespace_end(text, word + as_keyword().len());
                if matches_at(text, second, ":"@) {
                    lemma_whitespace_end(text, second + 1);
                    lemma_quoted_error(
                        text,
                        whitespace_end(text, second + 1),
                        ReasonModel::ExpectedValue,
                    );
                }
            }
        }
    }
}

/// Where a clause cannot be read, the error lies inside the text; where it can, a
/// default's keyword stands where the clause begins.
pub proof fn lemma_clause_error(text: Seq<char>, at: int)
    requires
        0 <= at <= text.len(),
        text.len() <= usize::MAX,
    ensures
        parse_clause(text, at) matches Err(e) ==> placed_in(e, text),
        parse_clause(text, at) matches Ok((arg, _)) ==> default_placed(arg, at),
{
    if matches_at(text, at, case_keyword()) {
        lemma_case_error(text, at + case_keyword().len());
    } else if matches_at(text, at, else_keyword()) {
        lemma_whitespace_end(text, at + else_keyword().len());
        lemma_quoted_error(
            text,
            whitespace_end(text, at + else_keyword().len()),
            ReasonModel::ExpectedValue,
        );
    }
}

/// Where the clauses cannot be read, the error lies inside the text; where they can,
/// the keywords of their defaults do.
pub proof fn lemma_clauses_error(text: Seq<char>, at: int)
    requires
        0 <= at <= text.len(),
        text.len() <= usize::MAX,
    ensures
        parse_clauses(text, at) matches Err(e) ==> placed_in(e, text),
        parse_clauses(text, at) matches Ok((args, _)) ==> defaults_placed(args, text),
    decreases text.len() - at,
{
    let token = whitespace_end(text, at);
    lemma_whitespace_end(text, at);
    if !(char_at(text, token) is None || char_at(text, token) == Some(')')) {
        lemma_clause_advances(text, token);
        lemma_clause_error(text, token);
        if let Ok((arg, next)) = parse_clause(text, token) {
            lemma_clauses_error(text, next);
            if let Ok((rest, _)) = parse_clauses(text, next) {
                let all = seq![arg] + rest;
                assert forall|i: int| 0 <= i < all.len() implies ((#[trigger] all[i]) matches MediaValueArg::Else(
                    p,
                    _,
                ) ==> p <= text.len()) by {
                    if i > 0 {
                        assert(all[i] == rest[i - 1]);
                    }
                }
            }
        }
    }
}

/// Where the clauses hold a second default, the error lies inside the text.
pub proof fn lemma_reduce_error(args: Seq<MediaValueArg>, text: Seq<char>)
    requires
        defaults_placed(args, text),
    ensures
        reduce_args(args) matches Err(e) ==> placed_in(e, text),
    decreases args.len(),
{
    if args.len() > 0 {
        lemma_reduce_error(args.drop_last(), text);
        let last = args[args.len() - 1];
        assert(last matches MediaValueArg::Else(p, _) ==> p <= text.len());
    }
}

/// Where the segments cannot be read, the error lies inside the text.
pub proof fn lemma_segments_error(text: Seq<char>, at: int)
    requires
        0 <= at,
        text.len() <= usize::MAX,
    ensures
        parse_segments_from(text, at) matches Err(e) ==> placed_in(e, text),
    decreases text.len() - at,
{
    lemma_name_advances(text, at);
    if let Some(found) = first_match(text, at, media_value_name()) {
        let open = whitespace_end(text, found + media_value_name().len());
        lemma_args_advance(text, open);
        if matches_at(text, open, "("@) {
            reveal_strlit("(");
            lemma_clauses_error(text, open + 1);
            lemma_clauses_advance(text, open + 1);
        }
        match parse_args(text, open) {
            Err(e) => {},
            Ok(None) => {
                lemma_segments_error(text, open);
            },
            Ok(Some((args, next))) => {
                lemma_reduce_error(args, text);
                lemma_segments_error(text, next);
            },
        }
    }
}

/// Every error of a parse is one of malformed text, and names a position of the text
/// or its end.
pub proof fn lemma_parse_error_placed(text: Seq<char>)
    requires
        encode_utf8(text).len() <= usize::MAX,
    ensures
        parse_template(text) matches Err(e) ==> placed_in(e, text),
{
    lemma_positions_fit(text);
    lemma_segments_error(text, 0);
}

/// Two parses of one text end alike: with the same template, or with the same error.
pub proof fn lemma_parse_deterministic(
    text: Seq<char>,
    first: Result<ResponsiveTemplate<Bookmark>, ParseError>,
    second: Result<ResponsiveTemplate<Bookmark>, ParseError>,
)
    requires
        outcome(first) == parse_template(text),
        outcome(second) == parse_template(text),
    ensures
        outcome(first) == outcome(second),
        first is Ok <==> second is Ok,
{
}

} // verus!
