//! The scanner: a cursor over the code points of a text.

use vstd::prelude::*;
use vstd::string::*;
use vstd::utf8::*;
use crate::parsing::bookmark::Bookmark;
use crate::parsing::encoding::{
    byte_offset, lemma_byte_offset_ends, lemma_byte_offset_monotone, lemma_byte_offset_step,
};

verus! {

/// The code point at position `i` of `text`, if there is one.
pub open spec fn char_at(text: Seq<char>, i: int) -> Option<char> {
    if 0 <= i < text.len() {
        Some(text[i])
    } else {
        None
    }
}

/// The code points of `text`, in order.
pub fn code_points(text: &str) -> (v: Vec<char>)
    ensures
        v@ == text@,
{
    let mut v: Vec<char> = Vec::new();
    for c in it: text.chars()
        invariant
            it.seq() == text@,
            v@ == text@.subrange(0, it.index() as int),
    {
        v.push(c);
        assert(v@ =~= text@.subrange(0, it.index() + 1));
    }
    assert(v@ =~= text@);
    v
}

/// The number of bytes that `c` takes in UTF-8.
pub fn utf8_width(c: char) -> (w: usize)
    ensures
        w == encode_scalar(c as u32).len(),
{
    let v: u32 = c as u32;
    if v < 0x80 {
        1
    } else if v < 0x800 {
        2
    } else if v < 0x10000 {
        3
    } else {
        4
    }
}

/// Whether `c`, a code point beyond ASCII, has the Unicode property White_Space, as
/// the standard library's `char::is_whitespace` decides it.
pub uninterp spec fn unicode_whitespace(c: char) -> bool;

/// Whether `c` is whitespace: within ASCII the space and the controls from U+0009 to
/// U+000D, beyond ASCII what `unicode_whitespace` names.
pub open spec fn whitespace(c: char) -> bool {
    if (c as u32) <= 0x7f {
        c == ' ' || 0x09 <= (c as u32) <= 0x0d
    } else {
        unicode_whitespace(c)
    }
}

/// `char::is_whitespace` says whether the code point has the property White_Space. It
/// is a function of the code point alone. Within ASCII the property holds of the space
/// and of U+0009 to U+000D and of nothing else; beyond ASCII the result is the one
/// named by `unicode_whitespace`.
pub assume_specification[ char::is_whitespace ](c: char) -> (b: bool)
    ensures
        (c as u32) <= 0x7f ==> (b <==> (c == ' ' || 0x09 <= (c as u32) <= 0x0d)),
        (c as u32) > 0x7f ==> b == unicode_whitespace(c),
;

/// The first position at or after `from` that holds no whitespace: where a maximal
/// run of whitespace that starts at `from` ends.
pub open spec fn whitespace_end(text: Seq<char>, from: int) -> int
    decreases text.len() - from,
{
    if 0 <= from < text.len() && whitespace(text[from]) {
        whitespace_end(text, from + 1)
    } else {
        from
    }
}

/// Whether `lit` stands in `text` at position `at`, code point for code point.
pub open spec fn matches_at(text: Seq<char>, at: int, lit: Seq<char>) -> bool {
    &&& 0 <= at
    &&& at + lit.len() <= text.len()
    &&& text.subrange(at, at + lit.len()) =~= lit
}

/// The first position at or after `from`, and before the end of `text`, at which
/// `lit` stands.
pub open spec fn first_match(text: Seq<char>, from: int, lit: Seq<char>) -> Option<int>
    decreases text.len() - from,
{
    if from < 0 || from >= text.len() {
        None
    } else if matches_at(text, from, lit) {
        Some(from)
    } else {
        first_match(text, from + 1, lit)
    }
}

/// Whether position `at` holds `quote` with no backslash directly before it.
pub open spec fn closes_at(text: Seq<char>, quote: char, at: int) -> bool {
    1 <= at < text.len() && text[at] == quote && text[at - 1] != '\\'
}

/// The first position at or after `from` that closes a string opened with `quote`.
pub open spec fn closing_quote(text: Seq<char>, quote: char, from: int) -> Option<int>
    decreases text.len() - from,
{
    if from < 1 || from >= text.len() {
        None
    } else if closes_at(text, quote, from) {
        Some(from)
    } else {
        closing_quote(text, quote, from + 1)
    }
}

/// Whether `c` opens a quoted string.
pub open spec fn is_quote(c: char) -> bool {
    c == '"' || c == '\''
}

/// Where the quoted string that opens at `at` closes, if one opens there and closes
/// before the text ends.
pub open spec fn quoted_at(text: Seq<char>, at: int) -> Option<int> {
    match char_at(text, at) {
        Some(q) => if is_quote(q) {
            closing_quote(text, q, at + 1)
        } else {
            None
        },
        None => None,
    }
}

/// What `whitespace_end` finds: everything skipped is whitespace, and what follows is not.
pub proof fn lemma_whitespace_end(text: Seq<char>, from: int)
    ensures
        from <= whitespace_end(text, from),
        0 <= from <= text.len() ==> whitespace_end(text, from) <= text.len(),
        !(0 <= from < text.len()) ==> whitespace_end(text, from) == from,
        forall|k: int|
            from <= k < whitespace_end(text, from) ==> 0 <= k < text.len() && whitespace(
                #[trigger] text[k],
            ),
        char_at(text, whitespace_end(text, from)) matches Some(c) ==> !whitespace(c),
    decreases text.len() - from,
{
    if 0 <= from < text.len() && whitespace(text[from]) {
        lemma_whitespace_end(text, from + 1);
    }
}

/// What `first_match` finds: the least position from `from` on at which `lit` stands.
pub proof fn lemma_first_match(text: Seq<char>, from: int, lit: Seq<char>)
    requires
        0 <= from,
    ensures
        match first_match(text, from, lit) {
            Some(p) => from <= p < text.len() && matches_at(text, p, lit) && forall|k: int|
                from <= k < p ==> !matches_at(text, k, lit),
            None => forall|k: int| from <= k < text.len() ==> !matches_at(text, k, lit),
        },
    decreases text.len() - from,
{
    if from < text.len() && !matches_at(text, from, lit) {
        lemma_first_match(text, from + 1, lit);
    }
}

/// What `closing_quote` finds: the least position from `from` on that closes the string.
pub proof fn lemma_closing_quote(text: Seq<char>, quote: char, from: int)
    requires
        1 <= from,
    ensures
        match closing_quote(text, quote, from) {
            Some(p) => from <= p < text.len() && closes_at(text, quote, p) && forall|k: int|
                from <= k < p ==> !closes_at(text, quote, k),
            None => forall|k: int| from <= k < text.len() ==> !closes_at(text, quote, k),
        },
    decreases text.len() - from,
{
    if from < text.len() && !closes_at(text, quote, from) {
        lemma_closing_quote(text, quote, from + 1);
    }
}


/// A cursor over the code points of `input`.
pub struct State<'a> {
    pub input: &'a str,
    pub cursor: usize,
    pub indices: Vec<(usize, char)>,
}

/// Whether a search arrived at what it looked for.
#[derive(Clone, Copy, Debug, PartialEq, Eq, Structural)]
pub enum SeekResult {
    CouldSeek,
    CannotSeek,
}

impl<'a> State<'a> {
    /// The text that the cursor moves over, as code points.
    pub open spec fn text(&self) -> Seq<char> {
        self.input@
    }

    /// The table of code points agrees with `input`: entry `i` holds code point `i`
    /// and the byte offset at which it starts.
    pub open spec fn wf(&self) -> bool {
        &&& self.indices@.len() == self.input@.len()
        &&& encode_utf8(self.input@).len() <= usize::MAX
        &&& forall|i: int|
            0 <= i < self.indices@.len() ==> (#[trigger] self.indices@[i]).1 == self.input@[i]
                && self.indices@[i].0 == byte_offset(self.input@, i)
    }

    /// The positions of a well-formed scanner's text fit a machine word.
    pub proof fn lemma_length_fits(&self)
        requires
            self.wf(),
        ensures
            self.text().len() <= usize::MAX,
            encode_utf8(self.text()).len() <= usize::MAX,
    {
        assert(self.indices.len() <= usize::MAX);
    }

    /// A scanner at the first code point of `input`.
    pub fn create<'b>(input: &'b str) -> (state: State<'b>)
        ensures
            state.wf(),
            state.input == input,
            state.cursor == 0,
    {
        let chars = code_points(input);
        let total: usize = input.as_bytes().len();
        let mut indices: Vec<(usize, char)> = Vec::new();
        let mut offset: usize = 0;
        let mut i: usize = 0;
        proof {
            lemma_byte_offset_ends(input@);
        }
        while i < chars.len()
            invariant
                chars@ == input@,
                total == encode_utf8(input@).len(),
                0 <= i <= chars.len(),
                indices@.len() == i,
                offset == byte_offset(input@, i as int),
                forall|k: int|
                    0 <= k < i ==> (#[trigger] indices@[k]).1 == input@[k] && indices@[k].0
                        == byte_offset(input@, k),
            decreases chars.len() - i,
        {
            let c = chars[i];
            proof {
                lemma_byte_offset_step(input@, i as int);
                lemma_byte_offset_monotone(input@, i + 1, input@.len() as int);
            }
            indices.push((offset, c));
            offset = offset + utf8_width(c);
            i = i + 1;
        }
        State { input, indices, cursor: 0 }
    }

    /// The number of code points in the text.
    pub fn length(self: &Self) -> (n: usize)
        requires
            self.wf(),
        ensures
            n == self.text().len(),
    {
        self.indices.len()
    }

    /// The code point at the cursor.
    pub fn get_head(self: &Self) -> (r: Option<char>)
        requires
            self.wf(),
        ensures
            r == char_at(self.text(), self.cursor as int),
    {
        if self.cursor < self.indices.len() {
            Some(self.indices[self.cursor].1)
        } else {
            None
        }
    }

    /// The range from the cursor to the end of the text, unless the cursor is at the end.
    pub fn get_remaining(self: &Self) -> (r: Option<Bookmark>)
        requires
            self.wf(),
        ensures
            r == if self.cursor < self.text().len() {
                Some(Bookmark::spanning(self.text(), self.cursor as int, self.text().len() as int))
            } else {
                None
            },
    {
        if self.cursor < self.indices.len() {
            proof {
                lemma_byte_offset_ends(self.input@);
            }
            let end: usize = self.input.as_bytes().len();
            Some(Bookmark { start: self.indices[self.cursor].0, end })
        } else {
            None
        }
    }

    /// Whether the cursor stands on a code point.
    pub fn has_more(self: &Self) -> (r: bool)
        requires
            self.wf(),
        ensures
            r <==> self.cursor < self.text().len(),
    {
        self.cursor < self.indices.len()
    }

    /// The code point `depth` places before the cursor.
    pub fn look_back(self: &Self, depth: usize) -> (r: Option<char>)
        requires
            self.wf(),
        ensures
            r == char_at(self.text(), self.cursor - depth),
    {
        if depth <= self.cursor && self.cursor - depth < self.indices.len() {
            Some(self.indices[self.cursor - depth].1)
        } else {
            None
        }
    }

    /// The code point `nth` places after the cursor.
    pub fn nth_from_cursor(self: &Self, nth: usize) -> (r: Option<char>)
        requires
            self.wf(),
        ensures
            r == char_at(self.text(), self.cursor + nth),
    {
        let n: usize = self.indices.len();
        if nth < n && self.cursor < n - nth {
            Some(self.indices[self.cursor + nth].1)
        } else {
            None
        }
    }

    /// The byte offset of position `at`, which may be the end of the text.
    fn offset_of(self: &Self, at: usize) -> (r: usize)
        requires
            self.wf(),
            at <= self.text().len(),
        ensures
            r == byte_offset(self.text(), at as int),
    {
        if at < self.indices.len() {
            self.indices[at].0
        } else {
            proof {
                lemma_byte_offset_ends(self.input@);
            }
            self.input.as_bytes().len()
        }
    }

    /// The range that covers code points `from..to`, where these are positions of the
    /// text in order.
    pub fn bookmark_input(self: &Self, from: usize, to: usize) -> (r: Option<Bookmark>)
        requires
            self.wf(),
        ensures
            r == if from <= to <= self.text().len() {
                Some(Bookmark::spanning(self.text(), from as int, to as int))
            } else {
                None
            },
    {
        if from <= to && to <= self.indices.len() {
            Some(Bookmark { start: self.offset_of(from), end: self.offset_of(to) })
        } else {
            None
        }
    }

    /// Moves the cursor one code point on.
    pub fn increment(self: &mut Self)
        requires
            old(self).cursor < usize::MAX,
        ensures
            final(self).cursor == old(self).cursor + 1,
            final(self).input == old(self).input,
            final(self).indices == old(self).indices,
    {
        self.cursor = self.cursor + 1;
    }

    /// Moves the cursor on by the number of code points in `string`.
    pub fn increment_over(self: &mut Self, string: &str)
        requires
            old(self).cursor + string@.len() <= usize::MAX,
        ensures
            final(self).cursor == old(self).cursor + string@.len(),
            final(self).input == old(self).input,
            final(self).indices == old(self).indices,
    {
        self.cursor = self.cursor + string.unicode_len();
    }

    /// Puts the cursor at `value`, wherever it stood.
    pub fn override_cursor(self: &mut Self, value: usize)
        ensures
            final(self).cursor == value,
            final(self).input == old(self).input,
            final(self).indices == old(self).indices,
    {
        self.cursor = value;
    }

    /// Moves the cursor over the whitespace that it stands on, up to the first code
    /// point that is none.
    pub fn skip_whitespace(self: &mut Self)
        requires
            old(self).wf(),
        ensures
            final(self).input == old(self).input,
            final(self).indices == old(self).indices,
            final(self).cursor == whitespace_end(old(self).text(), old(self).cursor as int),
    {
        while self.cursor < self.indices.len() && self.indices[self.cursor].1.is_whitespace()
            invariant
                self.wf(),
                self.input == old(self).input,
                self.indices == old(self).indices,
                old(self).cursor <= self.cursor,
                whitespace_end(self.text(), self.cursor as int) == whitespace_end(
                    old(self).text(),
                    old(self).cursor as int,
                ),
            decreases self.indices.len() - self.cursor,
        {
            self.cursor = self.cursor + 1;
        }
    }

    /// Whether `lit` stands at the cursor.
    fn matches_here(self: &Self, lit: &Vec<char>) -> (r: bool)
        requires
            self.wf(),
        ensures
            r == matches_at(self.text(), self.cursor as int, lit@),
    {
        let n: usize = lit.len();
        let len: usize = self.indices.len();
        if n > len || self.cursor > len - n {
            return false;
        }
        let mut i: usize = 0;
        while i < n
            invariant
                self.wf(),
                n == lit@.len(),
                len == self.text().len(),
                self.cursor + n <= len,
                0 <= i <= n,
                forall|k: int| 0 <= k < i ==> self.text()[self.cursor + k] == lit@[k],
            decreases n - i,
        {
            if self.indices[self.cursor + i].1 != lit[i] {
                assert(self.text().subrange(self.cursor as int, self.cursor + n)[i as int]
                    != lit@[i as int]);
                return false;
            }
            i = i + 1;
        }
        true
    }

    /// Moves the cursor over `string` where it stands at the cursor, and says whether
    /// it did; the cursor stays where `string` does not stand there.
    pub fn skip_next_if(self: &mut Self, string: &str) -> (r: bool)
        requires
            old(self).wf(),
        ensures
            final(self).input == old(self).input,
            final(self).indices == old(self).indices,
            r == matches_at(old(self).text(), old(self).cursor as int, string@),
            final(self).cursor == if r {
                old(self).cursor + string@.len()
            } else {
                old(self).cursor as int
            },
    {
        let lit = code_points(string);
        if self.matches_here(&lit) {
            assert(self.cursor + lit.len() <= self.indices.len());
            self.cursor = self.cursor + lit.len();
            true
        } else {
            false
        }
    }

    /// Moves the cursor to the first place from it on where `seek_string` stands. Where
    /// there is none, the cursor ends at the end of the text.
    pub fn seek_to_substring(self: &mut Self, seek_string: &str) -> (r: SeekResult)
        requires
            old(self).wf(),
        ensures
            final(self).input == old(self).input,
            final(self).indices == old(self).indices,
            match first_match(old(self).text(), old(self).cursor as int, seek_string@) {
                Some(p) => r == SeekResult::CouldSeek && final(self).cursor == p,
                None => r == SeekResult::CannotSeek && final(self).cursor == if old(self).cursor
                    < old(self).text().len() {
                    old(self).text().len()
                } else {
                    old(self).cursor as nat
                },
            },
    {
        let lit = code_points(seek_string);
        while self.cursor < self.indices.len()
            invariant
                self.wf(),
                self.input == old(self).input,
                self.indices == old(self).indices,
                lit@ == seek_string@,
                old(self).cursor <= self.cursor,
                old(self).cursor < self.text().len() ==> self.cursor <= self.text().len(),
                old(self).cursor >= self.text().len() ==> self.cursor == old(self).cursor,
                first_match(self.text(), self.cursor as int, lit@) == first_match(
                    old(self).text(),
                    old(self).cursor as int,
                    lit@,
                ),
            decreases self.indices.len() - self.cursor,
        {
            if self.matches_here(&lit) {
                return SeekResult::CouldSeek;
            }
            self.cursor = self.cursor + 1;
        }
        SeekResult::CannotSeek
    }

    /// Reads a quoted string that opens at the cursor with `"` or `'` and closes at the
    /// next such quote that no backslash stands directly before. Gives the range between
    /// the quotes and leaves the cursor behind the closing one. Where no string opens at
    /// the cursor, the cursor stays; where one opens and the text ends before it closes,
    /// the cursor ends at the end of the text.
    pub fn match_string(self: &mut Self) -> (r: Option<Bookmark>)
        requires
            old(self).wf(),
        ensures
            final(self).input == old(self).input,
            final(self).indices == old(self).indices,
            match quoted_at(old(self).text(), old(self).cursor as int) {
                Some(close) => r == Some(
                    Bookmark::spanning(old(self).text(), old(self).cursor + 1, close),
                ) && final(self).cursor == close + 1,
                None => r is None && final(self).cursor == match char_at(
                    old(self).text(),
                    old(self).cursor as int,
                ) {
                    Some(q) => if is_quote(q) {
                        old(self).text().len()
                    } else {
                        old(self).cursor as nat
                    },
                    None => old(self).cursor as nat,
                },
            },
    {
        let start: usize = self.cursor;
        let len: usize = self.indices.len();
        if start >= len {
            return None;
        }
        let quote: char = self.indices[start].1;
        if quote != '"' && quote != '\'' {
            return None;
        }
        let mut at: usize = start + 1;
        while at < len
            invariant
                self.wf(),
                self.input == old(self).input,
                self.indices == old(self).indices,
                self.cursor == start,
                start == old(self).cursor,
                len == self.text().len(),
                start < at <= len,
                is_quote(quote),
                self.text()[start as int] == quote,
                closing_quote(self.text(), quote, at as int) == closing_quote(
                    self.text(),
                    quote,
                    start + 1,
                ),
            decreases len - at,
        {
            if self.indices[at].1 == quote && self.indices[at - 1].1 != '\\' {
                let from: usize = self.offset_of(start + 1);
                let to: usize = self.offset_of(at);
                self.cursor = at + 1;
                return Some(Bookmark { start: from, end: to });
            }
            at = at + 1;
        }
        self.cursor = len;
        None
    }
}

} // verus!
