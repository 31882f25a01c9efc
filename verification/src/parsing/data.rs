//! The parsed template, over bookmarks or over resolved text, and the errors of a parse.

use vstd::prelude::*;
use vstd::string::*;
use vstd::std_specs::convert::FromSpecImpl;
use crate::parsing::bookmark::{option_checkout_result, Bookmark, CheckoutError};
use crate::parsing::text::{decimal, joined, push_char, push_decimal, push_joined};

verus! {

/// A text as a template. `Responsive` holds the segments of the text in its order;
/// `Normal` stands for a text that was not taken apart, and holds nothing.
#[derive(Debug, PartialEq, Eq)]
pub enum ResponsiveTemplate<T> {
    Responsive(Vec<Segment<T>>),
    Normal,
}

/// Why a parse ended without a template.
#[derive(Debug, PartialEq, Eq)]
pub enum ParseError {
    /// The text is malformed at this code-point position.
    At(usize, FailureReason),
    /// A bookmark did not fit the text it was resolved against.
    FailedToCheckoutOut(Bookmark),
}

/// What the parser looked for where the text went wrong.
#[derive(Debug, PartialEq, Eq)]
pub enum FailureReason {
    ExpectedChar(char),
    ExpectedQuery,
    ExpectedValue,
    ExpectedAs,
    ExpectedOneOf(Vec<String>),
    NotImplemented,
    TooManyElseClauses,
}

/// A run of plain text, or one expression.
#[derive(Debug, PartialEq, Eq)]
pub enum Segment<T> {
    Text(T),
    Value(ResponsiveValue<T>),
}

/// One expression: its cases in the order written, and the value of its `else`.
#[derive(Debug, PartialEq, Eq)]
pub struct ResponsiveValue<T> {
    pub cases: Vec<Case<T>>,
    pub default: Option<T>,
}

/// A media query and the value that goes with it.
#[derive(Debug, PartialEq, Eq)]
pub struct Case<T> {
    pub media: T,
    pub value: T,
}

/// An expression as a mathematical value.
pub struct ValueModel<A> {
    pub cases: Seq<Case<A>>,
    pub default: Option<A>,
}

/// A segment as a mathematical value.
pub enum SegmentModel<A> {
    Text(A),
    Value(ValueModel<A>),
}

/// A template as a mathematical value.
pub enum TemplateModel<A> {
    Responsive(Seq<SegmentModel<A>>),
    Normal,
}

/// A failure reason as a mathematical value.
pub enum ReasonModel {
    ExpectedChar(char),
    ExpectedQuery,
    ExpectedValue,
    ExpectedAs,
    ExpectedOneOf(Seq<Seq<char>>),
    NotImplemented,
    TooManyElseClauses,
}

/// A parse error as a mathematical value.
pub enum ErrorModel {
    At(int, ReasonModel),
    FailedToCheckoutOut(Bookmark),
}

impl View for Bookmark {
    type V = Bookmark;

    open spec fn view(&self) -> Bookmark {
        *self
    }
}

impl<T: View> View for Case<T> {
    type V = Case<T::V>;

    open spec fn view(&self) -> Case<T::V> {
        Case { media: self.media@, value: self.value@ }
    }
}

impl<T: View> View for ResponsiveValue<T> {
    type V = ValueModel<T::V>;

    open spec fn view(&self) -> ValueModel<T::V> {
        ValueModel {
            cases: Seq::new(self.cases@.len(), |i: int| self.cases@[i]@),
            default: match self.default {
                Some(d) => Some(d@),
                None => None,
            },
        }
    }
}

impl<T: View> View for Segment<T> {
    type V = SegmentModel<T::V>;

    open spec fn view(&self) -> SegmentModel<T::V> {
        match self {
            Segment::Text(t) => SegmentModel::Text(t@),
            Segment::Value(v) => SegmentModel::Value(v@),
        }
    }
}

/// The models of the segments in a list, in order.
pub open spec fn segment_models<T: View>(segments: Seq<Segment<T>>) -> Seq<SegmentModel<T::V>> {
    Seq::new(segments.len(), |i: int| segments[i]@)
}

impl<T: View> View for ResponsiveTemplate<T> {
    type V = TemplateModel<T::V>;

    open spec fn view(&self) -> TemplateModel<T::V> {
        match self {
            ResponsiveTemplate::Responsive(s) => TemplateModel::Responsive(segment_models(s@)),
            ResponsiveTemplate::Normal => TemplateModel::Normal,
        }
    }
}

impl View for FailureReason {
    type V = ReasonModel;

    open spec fn view(&self) -> ReasonModel {
        match self {
            FailureReason::ExpectedChar(c) => ReasonModel::ExpectedChar(*c),
            FailureReason::ExpectedQuery => ReasonModel::ExpectedQuery,
            FailureReason::ExpectedValue => ReasonModel::ExpectedValue,
            FailureReason::ExpectedAs => ReasonModel::ExpectedAs,
            FailureReason::ExpectedOneOf(v) => ReasonModel::ExpectedOneOf(
                Seq::new(v@.len(), |i: int| v@[i]@),
            ),
            FailureReason::NotImplemented => ReasonModel::NotImplemented,
            FailureReason::TooManyElseClauses => ReasonModel::TooManyElseClauses,
        }
    }
}

impl View for ParseError {
    type V = ErrorModel;

    open spec fn view(&self) -> ErrorModel {
        match self {
            ParseError::At(at, reason) => ErrorModel::At(*at as int, reason@),
            ParseError::FailedToCheckoutOut(b) => ErrorModel::FailedToCheckoutOut(*b),
        }
    }
}

/// A case with both of its bookmarks resolved against `text`, media first.
pub open spec fn resolve_case(c: Case<Bookmark>, text: Seq<char>) -> Result<
    Case<Seq<char>>,
    CheckoutError,
> {
    match c.media.resolve(text) {
        Err(e) => Err(e),
        Ok(media) => match c.value.resolve(text) {
            Err(e) => Err(e),
            Ok(value) => Ok(Case { media, value }),
        },
    }
}

/// The cases resolved in order, up to the first that cannot be.
pub open spec fn resolve_cases(cases: Seq<Case<Bookmark>>, text: Seq<char>) -> Result<
    Seq<Case<Seq<char>>>,
    CheckoutError,
>
    decreases cases.len(),
{
    if cases.len() == 0 {
        Ok(Seq::empty())
    } else {
        match resolve_cases(cases.drop_last(), text) {
            Err(e) => Err(e),
            Ok(done) => match resolve_case(cases.last(), text) {
                Err(e) => Err(e),
                Ok(c) => Ok(done.push(c)),
            },
        }
    }
}

/// An expression resolved against `text`: its cases in order, then its default.
pub open spec fn resolve_value(v: ValueModel<Bookmark>, text: Seq<char>) -> Result<
    ValueModel<Seq<char>>,
    CheckoutError,
> {
    match resolve_cases(v.cases, text) {
        Err(e) => Err(e),
        Ok(cases) => match v.default {
            None => Ok(ValueModel { cases, default: None }),
            Some(b) => match b.resolve(text) {
                Err(e) => Err(e),
                Ok(t) => Ok(ValueModel { cases, default: Some(t) }),
            },
        },
    }
}

/// A segment resolved against `text`.
pub open spec fn resolve_segment(s: SegmentModel<Bookmark>, text: Seq<char>) -> Result<
    SegmentModel<Seq<char>>,
    CheckoutError,
> {
    match s {
        SegmentModel::Text(b) => match b.resolve(text) {
            Err(e) => Err(e),
            Ok(t) => Ok(SegmentModel::Text(t)),
        },
        SegmentModel::Value(v) => match resolve_value(v, text) {
            Err(e) => Err(e),
            Ok(r) => Ok(SegmentModel::Value(r)),
        },
    }
}

/// The segments resolved in order, up to the first that cannot be.
pub open spec fn resolve_segments(segments: Seq<SegmentModel<Bookmark>>, text: Seq<char>) -> Result<
    Seq<SegmentModel<Seq<char>>>,
    CheckoutError,
>
    decreases segments.len(),
{
    if segments.len() == 0 {
        Ok(Seq::empty())
    } else {
        match resolve_segments(segments.drop_last(), text) {
            Err(e) => Err(e),
            Ok(done) => match resolve_segment(segments.last(), text) {
                Err(e) => Err(e),
                Ok(s) => Ok(done.push(s)),
            },
        }
    }
}

/// A template resolved against `text`: the same tree with text for every bookmark, or
/// the first bookmark, in the order of the tree, that does not fit `text`.
pub open spec fn resolve_template(t: TemplateModel<Bookmark>, text: Seq<char>) -> Result<
    TemplateModel<Seq<char>>,
    CheckoutError,
> {
    match t {
        TemplateModel::Normal => Ok(TemplateModel::Normal),
        TemplateModel::Responsive(segments) => match resolve_segments(segments, text) {
            Err(e) => Err(e),
            Ok(s) => Ok(TemplateModel::Responsive(s)),
        },
    }
}


impl Case<Bookmark> {
    /// Resolves both bookmarks against `input`, the media first.
    pub fn checkout<'a>(self: Self, input: &'a str) -> (r: Result<Case<&'a str>, CheckoutError>)
        ensures
            match r {
                Ok(c) => resolve_case(self@, input@) == Ok::<Case<Seq<char>>, CheckoutError>(c@),
                Err(e) => resolve_case(self@, input@) == Err::<Case<Seq<char>>, CheckoutError>(e),
            },
    {
        let Case { media, value } = self;
        let media = match media.checkout_result(input) {
            Ok(m) => m,
            Err(e) => return Err(e),
        };
        let value = match value.checkout_result(input) {
            Ok(v) => v,
            Err(e) => return Err(e),
        };
        Ok(Case { media, value })
    }

    /// As `checkout`, with the content copied out.
    pub fn checkout_owned(self: Self, input: &str) -> (r: Result<Case<String>, CheckoutError>)
        ensures
            match r {
                Ok(c) => resolve_case(self@, input@) == Ok::<Case<Seq<char>>, CheckoutError>(c@),
                Err(e) => resolve_case(self@, input@) == Err::<Case<Seq<char>>, CheckoutError>(e),
            },
    {
        let Case { media, value } = self;
        let media = match media.checkout_result(input) {
            Ok(m) => m.to_owned(),
            Err(e) => return Err(e),
        };
        let value = match value.checkout_result(input) {
            Ok(v) => v.to_owned(),
            Err(e) => return Err(e),
        };
        Ok(Case { media, value })
    }
}

impl ResponsiveValue<Bookmark> {
    /// Resolves the cases in order, then the default.
    pub fn checkout<'a>(self: Self, input: &'a str) -> (r: Result<
        ResponsiveValue<&'a str>,
        CheckoutError,
    >)
        ensures
            match r {
                Ok(v) => resolve_value(self@, input@) == Ok::<ValueModel<Seq<char>>, CheckoutError>(
                    v@,
                ),
                Err(e) => resolve_value(self@, input@) == Err::<
                    ValueModel<Seq<char>>,
                    CheckoutError,
                >(e),
            },
    {
        let ResponsiveValue { cases, default } = self;
        let mut out: Vec<Case<&'a str>> = Vec::new();
        let mut i: usize = 0;
        assert(Seq::new(out@.len(), |k: int| out@[k]@) =~= Seq::<Case<Seq<char>>>::empty());
        assert(self@.cases.subrange(0, 0) =~= Seq::empty());
        while i < cases.len()
            invariant
                0 <= i <= cases.len(),
                cases == self.cases,
                default == self.default,
                resolve_cases(self@.cases.subrange(0, i as int), input@) == Ok::<
                    Seq<Case<Seq<char>>>,
                    CheckoutError,
                >(Seq::new(out@.len(), |k: int| out@[k]@)),
            decreases cases.len() - i,
        {
            let case = Case { media: cases[i].media, value: cases[i].value };
            proof {
                let upto = self@.cases.subrange(0, i + 1);
                assert(upto.drop_last() =~= self@.cases.subrange(0, i as int));
                assert(upto.last() == case@);
            }
            match case.checkout(input) {
                Ok(c) => {
                    let ghost before = Seq::new(out@.len(), |k: int| out@[k]@);
                    out.push(c);
                    assert(Seq::new(out@.len(), |k: int| out@[k]@) =~= before.push(c@));
                },
                Err(e) => {
                    proof {
                        lemma_resolve_cases_prefix_error(self@.cases, i + 1, input@);
                    }
                    return Err(e);
                },
            }
            i = i + 1;
        }
        assert(self@.cases.subrange(0, i as int) =~= self@.cases);
        let pick = |b: &Bookmark| -> (t: Option<&'a str>)
            ensures
                t is Some <==> b.valid_in(input@),
                t matches Some(s) ==> s@ == b.text_in(input@),
            { b.checkout(input) };
        let default = match option_checkout_result(default, pick) {
            Ok(d) => d,
            Err(e) => return Err(e),
        };
        Ok(ResponsiveValue { cases: out, default })
    }

    /// As `checkout`, with the content copied out.
    pub fn checkout_owned(self: Self, input: &str) -> (r: Result<
        ResponsiveValue<String>,
        CheckoutError,
    >)
        ensures
            match r {
                Ok(v) => resolve_value(self@, input@) == Ok::<ValueModel<Seq<char>>, CheckoutError>(
                    v@,
                ),
                Err(e) => resolve_value(self@, input@) == Err::<
                    ValueModel<Seq<char>>,
                    CheckoutError,
                >(e),
            },
    {
        let ResponsiveValue { cases, default } = self;
        let mut out: Vec<Case<String>> = Vec::new();
        let mut i: usize = 0;
        assert(Seq::new(out@.len(), |k: int| out@[k]@) =~= Seq::<Case<Seq<char>>>::empty());
        assert(self@.cases.subrange(0, 0) =~= Seq::empty());
        while i < cases.len()
            invariant
                0 <= i <= cases.len(),
                cases == self.cases,
                default == self.default,
                resolve_cases(self@.cases.subrange(0, i as int), input@) == Ok::<
                    Seq<Case<Seq<char>>>,
                    CheckoutError,
                >(Seq::new(out@.len(), |k: int| out@[k]@)),
            decreases cases.len() - i,
        {
            let case = Case { media: cases[i].media, value: cases[i].value };
            proof {
                let upto = self@.cases.subrange(0, i + 1);
                assert(upto.drop_last() =~= self@.cases.subrange(0, i as int));
                assert(upto.last() == case@);
            }
            match case.checkout_owned(input) {
                Ok(c) => {
                    let ghost before = Seq::new(out@.len(), |k: int| out@[k]@);
                    out.push(c);
                    assert(Seq::new(out@.len(), |k: int| out@[k]@) =~= before.push(c@));
                },
                Err(e) => {
                    proof {
                        lemma_resolve_cases_prefix_error(self@.cases, i + 1, input@);
                    }
                    return Err(e);
                },
            }
            i = i + 1;
        }
        assert(self@.cases.subrange(0, i as int) =~= self@.cases);
        let pick = |b: &Bookmark| -> (t: Option<String>)
            ensures
                t is Some <==> b.valid_in(input@),
                t matches Some(s) ==> s@ == b.text_in(input@),
            { b.checkout_owned(input) };
        let default = match option_checkout_result(default, pick) {
            Ok(d) => d,
            Err(e) => return Err(e),
        };
        Ok(ResponsiveValue { cases: out, default })
    }
}

impl Segment<Bookmark> {
    /// Resolves the segment's bookmarks against `input`.
    pub fn checkout<'a>(self: Self, input: &'a str) -> (r: Result<Segment<&'a str>, CheckoutError>)
        ensures
            match r {
                Ok(s) => resolve_segment(self@, input@) == Ok::<
                    SegmentModel<Seq<char>>,
                    CheckoutError,
                >(s@),
                Err(e) => resolve_segment(self@, input@) == Err::<
                    SegmentModel<Seq<char>>,
                    CheckoutError,
                >(e),
            },
    {
        match self {
            Segment::Text(b) => match b.checkout_result(input) {
                Ok(t) => Ok(Segment::Text(t)),
                Err(e) => Err(e),
            },
            Segment::Value(rv) => match rv.checkout(input) {
                Ok(v) => Ok(Segment::Value(v)),
                Err(e) => Err(e),
            },
        }
    }

    /// As `checkout`, with the content copied out.
    pub fn checkout_owned(self: Self, input: &str) -> (r: Result<Segment<String>, CheckoutError>)
        ensures
            match r {
                Ok(s) => resolve_segment(self@, input@) == Ok::<
                    SegmentModel<Seq<char>>,
                    CheckoutError,
                >(s@),
                Err(e) => resolve_segment(self@, input@) == Err::<
                    SegmentModel<Seq<char>>,
                    CheckoutError,
                >(e),
            },
    {
        match self {
            Segment::Text(b) => match b.checkout_result(input) {
                Ok(t) => Ok(Segment::Text(t.to_owned())),
                Err(e) => Err(e),
            },
            Segment::Value(rv) => match rv.checkout_owned(input) {
                Ok(v) => Ok(Segment::Value(v)),
                Err(e) => Err(e),
            },
        }
    }
}

impl ResponsiveTemplate<Bookmark> {
    /// Resolves every bookmark of the template against `input`, in the order of the
    /// tree, and stops at the first that does not fit.
    pub fn checkout<'a>(self: Self, input: &'a str) -> (r: Result<
        ResponsiveTemplate<&'a str>,
        CheckoutError,
    >)
        ensures
            match r {
                Ok(t) => resolve_template(self@, input@) == Ok::<
                    TemplateModel<Seq<char>>,
                    CheckoutError,
                >(t@),
                Err(e) => resolve_template(self@, input@) == Err::<
                    TemplateModel<Seq<char>>,
                    CheckoutError,
                >(e),
            },
    {
        match self {
            ResponsiveTemplate::Normal => Ok(ResponsiveTemplate::Normal),
            ResponsiveTemplate::Responsive(segments) => {
                let ghost all = segment_models(segments@);
                let mut mapped: Vec<Segment<&'a str>> = Vec::new();
                assert(segment_models(mapped@) =~= Seq::<SegmentModel<Seq<char>>>::empty());
                assert(all.subrange(0, 0) =~= Seq::empty());
                for segment in it: segments.into_iter()
                    invariant
                        it.seq() == segments@,
                        all == segment_models(segments@),
                        self@ == TemplateModel::Responsive(all),
                        resolve_segments(all.subrange(0, it.index() as int), input@) == Ok::<
                            Seq<SegmentModel<Seq<char>>>,
                            CheckoutError,
                        >(segment_models(mapped@)),
                {
                    proof {
                        let upto = all.subrange(0, it.index() + 1);
                        assert(upto.drop_last() =~= all.subrange(0, it.index() as int));
                        assert(upto.last() == segment@);
                    }
                    match segment.checkout(input) {
                        Ok(s) => {
                            let ghost before = segment_models(mapped@);
                            mapped.push(s);
                            assert(segment_models(mapped@) =~= before.push(s@));
                        },
                        Err(e) => {
                            proof {
                                lemma_resolve_segments_prefix_error(all, it.index() + 1, input@);
                            }
                            return Err(e);
                        },
                    }
                }
                assert(all.subrange(0, all.len() as int) =~= all);
                Ok(ResponsiveTemplate::Responsive(mapped))
            },
        }
    }

    /// As `checkout`, with the content copied out.
    pub fn checkout_owned(self: Self, input: &str) -> (r: Result<
        ResponsiveTemplate<String>,
        CheckoutError,
    >)
        ensures
            match r {
                Ok(t) => resolve_template(self@, input@) == Ok::<
                    TemplateModel<Seq<char>>,
                    CheckoutError,
                >(t@),
                Err(e) => resolve_template(self@, input@) == Err::<
                    TemplateModel<Seq<char>>,
                    CheckoutError,
                >(e),
            },
    {
        match self {
            ResponsiveTemplate::Normal => Ok(ResponsiveTemplate::Normal),
            ResponsiveTemplate::Responsive(segments) => {
                let ghost all = segment_models(segments@);
                let mut mapped: Vec<Segment<String>> = Vec::new();
                assert(segment_models(mapped@) =~= Seq::<SegmentModel<Seq<char>>>::empty());
                assert(all.subrange(0, 0) =~= Seq::empty());
                for segment in it: segments.into_iter()
                    invariant
                        it.seq() == segments@,
                        all == segment_models(segments@),
                        self@ == TemplateModel::Responsive(all),
                        resolve_segments(all.subrange(0, it.index() as int), input@) == Ok::<
                            Seq<SegmentModel<Seq<char>>>,
                            CheckoutError,
                        >(segment_models(mapped@)),
                {
                    proof {
                        let upto = all.subrange(0, it.index() + 1);
                        assert(upto.drop_last() =~= all.subrange(0, it.index() as int));
                        assert(upto.last() == segment@);
                    }
                    match segment.checkout_owned(input) {
                        Ok(s) => {
                            let ghost before = segment_models(mapped@);
                            mapped.push(s);
                            assert(segment_models(mapped@) =~= before.push(s@));
                        },
                        Err(e) => {
                            proof {
                                lemma_resolve_segments_prefix_error(all, it.index() + 1, input@);
                            }
                            return Err(e);
                        },
                    }
                }
                assert(all.subrange(0, all.len() as int) =~= all);
                Ok(ResponsiveTemplate::Responsive(mapped))
            },
        }
    }
}

/// Where a prefix of the cases cannot be resolved, the whole list fails on the same
/// bookmark.
pub proof fn lemma_resolve_cases_prefix_error(
    cases: Seq<Case<Bookmark>>,
    upto: int,
    text: Seq<char>,
)
    requires
        0 <= upto <= cases.len(),
        resolve_cases(cases.subrange(0, upto), text) is Err,
    ensures
        resolve_cases(cases, text) == resolve_cases(cases.subrange(0, upto), text),
    decreases cases.len() - upto,
{
    if upto < cases.len() {
        let next = cases.subrange(0, upto + 1);
        assert(next.drop_last() =~= cases.subrange(0, upto));
        lemma_resolve_cases_prefix_error(cases, upto + 1, text);
    } else {
        assert(cases.subrange(0, upto) =~= cases);
    }
}

/// Where a prefix of the segments cannot be resolved, the whole list fails on the same
/// bookmark.
pub proof fn lemma_resolve_segments_prefix_error(
    segments: Seq<SegmentModel<Bookmark>>,
    upto: int,
    text: Seq<char>,
)
    requires
        0 <= upto <= segments.len(),
        resolve_segments(segments.subrange(0, upto), text) is Err,
    ensures
        resolve_segments(segments, text) == resolve_segments(segments.subrange(0, upto), text),
    decreases segments.len() - upto,
{
    if upto < segments.len() {
        let next = segments.subrange(0, upto + 1);
        assert(next.drop_last() =~= segments.subrange(0, upto));
        lemma_resolve_segments_prefix_error(segments, upto + 1, text);
    } else {
        assert(segments.subrange(0, upto) =~= segments);
    }
}


/// What a failure reason says in a message.
pub open spec fn reason_text(reason: ReasonModel) -> Seq<char> {
    match reason {
        ReasonModel::NotImplemented => "undocumented error"@,
        ReasonModel::ExpectedChar(c) => "expected "@.push(c),
        ReasonModel::ExpectedQuery => "expected 'media query'"@,
        ReasonModel::ExpectedValue => "expected 'value of query'"@,
        ReasonModel::ExpectedAs => "expected 'as-keyword'"@,
        ReasonModel::ExpectedOneOf(v) => "expected one of ("@ + joined(v, ", "@) + ")"@,
        ReasonModel::TooManyElseClauses => "unexpected else keyword (you may have too many)"@,
    }
}

/// The message for an error of a parse of `input`: for a malformed text the reason,
/// the code-point position and the text itself; for a bookmark that did not fit, a
/// line of its own kind with the bookmark's range.
pub open spec fn error_text(error: ErrorModel, input: Seq<char>) -> Seq<char> {
    match error {
        ErrorModel::FailedToCheckoutOut(b) => "internal error with translating bookmarks, "@
            + b.text(),
        ErrorModel::At(at, reason) => reason_text(reason) + " @ "@ + decimal(at as nat) + " in "@
            + input,
    }
}

impl FailureReason {
    /// Appends what the reason says to `s`.
    fn push_text(self: &Self, s: &mut String)
        ensures
            final(s)@ == old(s)@ + reason_text(self@),
    {
        match self {
            FailureReason::NotImplemented => {
                s.append("undocumented error");
            },
            FailureReason::ExpectedChar(c) => {
                s.append("expected ");
                push_char(s, *c);
                assert(s@ =~= old(s)@ + reason_text(self@));
            },
            FailureReason::ExpectedQuery => {
                s.append("expected 'media query'");
            },
            FailureReason::ExpectedValue => {
                s.append("expected 'value of query'");
            },
            FailureReason::ExpectedAs => {
                s.append("expected 'as-keyword'");
            },
            FailureReason::ExpectedOneOf(v) => {
                s.append("expected one of (");
                push_joined(s, v, ", ");
                s.append(")");
                assert(s@ =~= old(s)@ + reason_text(self@));
            },
            FailureReason::TooManyElseClauses => {
                s.append("unexpected else keyword (you may have too many)");
            },
        }
    }
}

impl ParseError {
    /// The message for this error of a parse of `input`.
    pub fn to_string(self: Self, input: &str) -> (r: String)
        ensures
            r@ == error_text(self@, input@),
    {
        let mut r = String::new();
        match self {
            ParseError::FailedToCheckoutOut(bookmark) => {
                r.append("internal error with translating bookmarks, ");
                let range = bookmark.to_string();
                r.append(range.as_str());
                assert(r@ =~= error_text(self@, input@));
            },
            ParseError::At(at, reason) => {
                reason.push_text(&mut r);
                r.append(" @ ");
                push_decimal(&mut r, at);
                r.append(" in ");
                r.append(input);
                assert(r@ =~= error_text(self@, input@));
            },
        }
        r
    }
}

impl From<CheckoutError> for ParseError {
    fn from(error: CheckoutError) -> (r: ParseError) {
        match error {
            CheckoutError::At(bookmark) => ParseError::FailedToCheckoutOut(bookmark),
        }
    }
}

impl FromSpecImpl<CheckoutError> for ParseError {
    open spec fn obeys_from_spec() -> bool {
        true
    }

    open spec fn from_spec(error: CheckoutError) -> ParseError {
        match error {
            CheckoutError::At(bookmark) => ParseError::FailedToCheckoutOut(bookmark),
        }
    }
}

} // verus!
