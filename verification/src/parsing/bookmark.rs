//! Byte ranges into a text, resolved into content only on request.

use vstd::prelude::*;
use vstd::string::*;
use vstd::utf8::*;
use crate::parsing::text::{decimal, push_decimal};
use crate::parsing::encoding::{
    byte_offset, lemma_boundary_in_prefix, lemma_byte_offset_is_boundary,
    lemma_byte_offset_monotone, lemma_bytes_between,
};

verus! {

/// A half-open range of byte offsets into some text. Creating one copies nothing.
#[derive(Clone, Copy, Debug, PartialEq, Eq, Structural)]
pub struct Bookmark {
    pub start: usize,
    pub end: usize,
}

/// A bookmark that does not fit the text it was resolved against.
#[derive(Clone, Copy, Debug, PartialEq, Eq, Structural)]
pub enum CheckoutError {
    At(Bookmark),
}

impl Bookmark {
    /// The range is ordered, lies inside the encoding of `text`, and both of its ends
    /// fall between code points.
    pub open spec fn valid_in(self, text: Seq<char>) -> bool {
        let bytes = encode_utf8(text);
        &&& self.start <= self.end <= bytes.len()
        &&& is_char_boundary(bytes, self.start as int)
        &&& is_char_boundary(bytes, self.end as int)
    }

    /// The bytes of `text` that the range covers.
    pub open spec fn bytes_in(self, text: Seq<char>) -> Seq<u8> {
        encode_utf8(text).subrange(self.start as int, self.end as int)
    }

    /// The code points of `text` that the range covers.
    pub open spec fn text_in(self, text: Seq<char>) -> Seq<char> {
        decode_utf8(self.bytes_in(text))
    }

    /// What resolving the range against `text` yields.
    pub open spec fn resolve(self, text: Seq<char>) -> Result<Seq<char>, CheckoutError> {
        if self.valid_in(text) {
            Ok(self.text_in(text))
        } else {
            Err(CheckoutError::At(self))
        }
    }

    /// The bookmark that covers code points `from..to` of `text`.
    pub open spec fn spanning(text: Seq<char>, from: int, to: int) -> Bookmark
        recommends
            0 <= from <= to <= text.len(),
            encode_utf8(text).len() <= usize::MAX,
    {
        Bookmark { start: byte_offset(text, from) as usize, end: byte_offset(text, to) as usize }
    }

    /// The range in writing: both ends in decimal, in round brackets.
    pub open spec fn text(self) -> Seq<char> {
        "("@ + decimal(self.start as nat) + " "@ + decimal(self.end as nat) + ")"@
    }

    /// The range in writing, as `text` gives it.
    pub fn to_string(self: &Self) -> (r: String)
        ensures
            r@ == self.text(),
    {
        let mut r = String::new();
        r.append("(");
        push_decimal(&mut r, self.start);
        r.append(" ");
        push_decimal(&mut r, self.end);
        r.append(")");
        assert(r@ =~= self.text());
        r
    }

    pub fn create(start: usize, end: usize) -> (b: Self)
        ensures
            b == (Bookmark { start, end }),
    {
        Bookmark { start, end }
    }

    pub fn is_empty(self: &Self) -> (r: bool)
        ensures
            r <==> self.start == self.end,
    {
        self.start == self.end
    }

    /// Resolves the range against `s`: the slice it covers, or `None` where the range
    /// is not a valid one for `s`.
    pub fn checkout<'a>(self: &Self, s: &'a str) -> (r: Option<&'a str>)
        ensures
            r is Some <==> self.valid_in(s@),
            r matches Some(t) ==> t@ == self.text_in(s@) && t.spec_bytes() == self.bytes_in(s@),
    {
        broadcast use encode_utf8_valid_utf8, encode_utf8_decode_utf8;

        let n = s.as_bytes().len();
        if self.start <= self.end && self.end <= n && s.is_char_boundary(self.start)
            && s.is_char_boundary(self.end) {
            proof {
                lemma_boundary_in_prefix(s.spec_bytes(), self.start as int, self.end as int);
            }
            let (head, _) = s.split_at(self.end);
            let (_, slice) = head.split_at(self.start);
            assert(slice.spec_bytes() =~= self.bytes_in(s@));
            Some(slice)
        } else {
            None
        }
    }

    /// As `checkout`, with the content copied out.
    pub fn checkout_owned(self: &Self, s: &str) -> (r: Option<String>)
        ensures
            r is Some <==> self.valid_in(s@),
            r matches Some(t) ==> t@ == self.text_in(s@),
    {
        match self.checkout(s) {
            Some(slice) => Some(slice.to_owned()),
            None => None,
        }
    }

    /// As `checkout`, naming the bookmark where it cannot be resolved.
    pub fn checkout_result<'a>(self: Self, s: &'a str) -> (r: Result<&'a str, CheckoutError>)
        ensures
            r is Ok <==> self.valid_in(s@),
            r matches Ok(t) ==> self.resolve(s@) == Ok::<Seq<char>, CheckoutError>(t@),
            r matches Err(e) ==> self.resolve(s@) == Err::<Seq<char>, CheckoutError>(e),
    {
        match self.checkout(s) {
            Some(slice) => Ok(slice),
            None => Err(CheckoutError::At(self)),
        }
    }
}

/// Applies `f` to the bookmark, if there is one, and names the bookmark where `f`
/// finds nothing for it.
pub fn option_checkout_result<T, F>(option: Option<Bookmark>, f: F) -> (r: Result<
    Option<T>,
    CheckoutError,
>) where F: Fn(&Bookmark) -> Option<T>
    requires
        option matches Some(b) ==> f.requires((&b,)),
    ensures
        option is None ==> r == Ok::<Option<T>, CheckoutError>(None),
        option matches Some(b) ==> match r {
            Ok(Some(v)) => f.ensures((&b,), Some(v)),
            Ok(None) => false,
            Err(e) => e == CheckoutError::At(b) && f.ensures((&b,), None),
        },
{
    match option {
        None => Ok(None),
        Some(b) => match f(&b) {
            Some(v) => Ok(Some(v)),
            None => Err(CheckoutError::At(b)),
        },
    }
}

/// A bookmark that spans whole code points of a text is valid in it and covers
/// exactly those code points.
pub proof fn lemma_spanning_resolves(text: Seq<char>, from: int, to: int)
    requires
        0 <= from <= to <= text.len(),
        encode_utf8(text).len() <= usize::MAX,
    ensures
        Bookmark::spanning(text, from, to).valid_in(text),
        Bookmark::spanning(text, from, to).text_in(text) == text.subrange(from, to),
        Bookmark::spanning(text, from, to).start == byte_offset(text, from),
        Bookmark::spanning(text, from, to).end == byte_offset(text, to),
{
    broadcast use encode_utf8_decode_utf8;

    lemma_byte_offset_monotone(text, from, to);
    lemma_byte_offset_monotone(text, to, text.len() as int);
    lemma_byte_offset_is_boundary(text, from);
    lemma_byte_offset_is_boundary(text, to);
    lemma_bytes_between(text, from, to);
}

} // verus!
