//! Headers and the scanner that extracts them from a text.
use crate::decode::{decode_text, decode_text_spec, DecodeError};
use crate::response::RESPONSE_SKIP_LINES;
use crate::text::{
    find_char, is_blank, is_position_of, leading_blanks, lemma_carriage_return_is_kept,
    lemma_leading_blanks, lemma_lines_after_step, lemma_position_of, lemma_split_lines_concat,
    lemma_split_lines_first, lines_after, position_of, split_lines, trim, trim_range, trim_start,
    CARRIAGE_RETURN, COLON, LINE_FEED,
};
use std::rc::Rc;
use vstd::prelude::*;
use vstd::std_specs::cmp::PartialEqSpecImpl;
use vstd::utf8::{encode_utf8, encode_utf8_decode_utf8, encode_utf8_valid_utf8};

verus! {

/// What a header is: a name and a value, both as sequences of characters.
pub struct HeaderView {
    pub name: Seq<char>,
    pub value: Seq<char>,
}

/// One header of a message.
#[derive(Debug)]
pub struct HTTPHeader {
    pub name: String,
    pub value: String,
}

impl View for HTTPHeader {
    type V = HeaderView;

    open spec fn view(&self) -> HeaderView {
        HeaderView { name: self.name@, value: self.value@ }
    }
}

/// The headers of a message, in the order in which they appear in it. A name
/// that occurs twice gives two entries.
#[derive(Debug)]
pub struct HTTPHeaders(pub Vec<HTTPHeader>);

/// The views of a sequence of headers, in the same order.
pub open spec fn headers_view(headers: Seq<HTTPHeader>) -> Seq<HeaderView> {
    headers.map_values(|h: HTTPHeader| h@)
}

impl View for HTTPHeaders {
    type V = Seq<HeaderView>;

    open spec fn view(&self) -> Seq<HeaderView> {
        headers_view(self.0@)
    }
}

/// The header that a line holds: the line is cut at its first colon and both
/// parts are trimmed. A line without a colon holds none.
pub open spec fn parse_header_line(line: Seq<char>) -> Option<HeaderView> {
    let at = position_of(line, COLON) as int;
    if at < line.len() {
        Some(HeaderView { name: trim(line.take(at)), value: trim(line.skip(at + 1)) })
    } else {
        None
    }
}

/// The headers of the lines up to the first empty line, in order. The empty
/// line and everything after it are not looked at.
pub open spec fn collect_headers(lines: Seq<Seq<char>>) -> Seq<HeaderView>
    decreases lines.len(),
{
    if lines.len() == 0 || lines[0].len() == 0 {
        Seq::empty()
    } else {
        let rest = collect_headers(lines.drop_first());
        match parse_header_line(lines[0]) {
            Some(header) => seq![header] + rest,
            None => rest,
        }
    }
}

/// The headers of `text`: its lines are those between line feeds, the first
/// `skip_lines` of them are passed over whatever they hold, and the headers
/// are collected from the following lines up to the first empty one.
pub open spec fn scan_headers_spec(text: Seq<char>, skip_lines: nat) -> Seq<HeaderView> {
    collect_headers(lines_after(split_lines(text), skip_lines))
}

/// The headers of a run of bytes: those of its text, if it is text. Every
/// byte counts: this is for the bytes that were read, without padding.
pub open spec fn scan_buffer_spec(buffer: Seq<u8>, skip_lines: nat) -> Result<
    Seq<HeaderView>,
    DecodeError,
> {
    match decode_text_spec(buffer) {
        Ok(text) => Ok(scan_headers_spec(text, skip_lines)),
        Err(e) => Err(e),
    }
}

/// `r` is what scanning `buffer` gives: its headers, or why it has none.
pub open spec fn is_scan_of(
    buffer: Seq<u8>,
    skip_lines: nat,
    r: Result<HTTPHeaders, DecodeError>,
) -> bool {
    match r {
        Ok(headers) => scan_buffer_spec(buffer, skip_lines) == Ok::<Seq<HeaderView>, DecodeError>(
            headers@,
        ),
        Err(e) => scan_buffer_spec(buffer, skip_lines) == Err::<Seq<HeaderView>, DecodeError>(e),
    }
}

/// The text form of one header: name, colon, space, value, line feed.
pub open spec fn header_text(header: HeaderView) -> Seq<char> {
    header.name + ": "@ + header.value + "\n"@
}

/// The text forms of `headers` one after the other.
pub open spec fn headers_text(headers: Seq<HeaderView>) -> Seq<char>
    decreases headers.len(),
{
    if headers.len() == 0 {
        Seq::empty()
    } else {
        headers_text(headers.drop_last()) + header_text(headers.last())
    }
}

/// The lines of `text` from position `pos` on start with the line that ends
/// at the next line feed, if there is one, and else are the rest of the text.
proof fn lemma_split_lines_at(text: Seq<char>, pos: int, end: int)
    requires
        0 <= pos <= end <= text.len(),
        end - pos == position_of(text.skip(pos), LINE_FEED),
    ensures
        split_lines(text.skip(pos)) == if end == text.len() {
            seq![text.subrange(pos, end)]
        } else {
            seq![text.subrange(pos, end)] + split_lines(text.skip(end + 1))
        },
{
    let rest = text.skip(pos);
    if end == text.len() {
        assert(rest =~= text.subrange(pos, end));
    } else {
        assert(rest.take(end - pos) =~= text.subrange(pos, end));
        assert(rest.skip(end - pos + 1) =~= text.skip(end + 1));
    }
}

/// What `collect_headers` does with the first of its lines.
proof fn lemma_collect_headers_step(line: Seq<char>, rest: Seq<Seq<char>>)
    ensures
        collect_headers(seq![line] + rest) == if line.len() == 0 {
            Seq::<HeaderView>::empty()
        } else {
            match parse_header_line(line) {
                Some(header) => seq![header] + collect_headers(rest),
                None => collect_headers(rest),
            }
        },
{
    let lines = seq![line] + rest;
    assert(lines[0] == line);
    assert(lines.drop_first() =~= rest);
}

/// The header of the line `text[pos..end]` whose first colon, if it has one,
/// is at `colon`.
proof fn lemma_parse_header_line_at(text: Seq<char>, pos: int, colon: int, end: int)
    requires
        0 <= pos <= colon <= end <= text.len(),
        colon - pos == position_of(text.subrange(pos, end), COLON),
    ensures
        parse_header_line(text.subrange(pos, end)) == if colon < end {
            Some(
                HeaderView {
                    name: trim(text.subrange(pos, colon)),
                    value: trim(text.subrange(colon + 1, end)),
                },
            )
        } else {
            None
        },
{
    let line = text.subrange(pos, end);
    if colon < end {
        assert(line.take(colon - pos) =~= text.subrange(pos, colon));
        assert(line.skip(colon - pos + 1) =~= text.subrange(colon + 1, end));
    }
}

/// The characters of `text`, for access by position.
fn collect_chars(text: &str) -> (chars: Vec<char>)
    ensures
        chars@ == text@,
{
    let mut chars: Vec<char> = Vec::new();
    for c in it: text.chars()
        invariant
            chars@ == it.seq().take(it.index() as int),
            it.seq() == text@,
    {
        chars.push(c);
    }
    chars
}

/// A copy of the characters `from..to` of `text`.
fn piece(text: &str, from: usize, to: usize) -> (r: String)
    requires
        from <= to <= text@.len(),
    ensures
        r@ == text@.subrange(from as int, to as int),
{
    text.substring_char(from, to).to_owned()
}

impl HTTPHeader {
    /// The header as a line of text: name, colon, space, value, line feed.
    pub fn to_text(&self) -> (text: String)
        ensures
            text@ == header_text(self@),
    {
        let mut text = self.name.clone();
        text.append(": ");
        text.append(self.value.as_str());
        text.append("\n");
        text
    }
}

impl Clone for HTTPHeader {
    fn clone(&self) -> (copy: Self)
        ensures
            copy@ == self@,
    {
        HTTPHeader { name: self.name.clone(), value: self.value.clone() }
    }
}

impl PartialEq for HTTPHeader {
    fn eq(&self, other: &Self) -> (r: bool) {
        self.name == other.name && self.value == other.value
    }
}

impl PartialEqSpecImpl for HTTPHeader {
    open spec fn obeys_eq_spec() -> bool {
        true
    }

    open spec fn eq_spec(&self, other: &Self) -> bool {
        self@ == other@
    }
}

impl HTTPHeaders {
    /// Scans `text` for headers. The first `skip_lines` lines are passed over
    /// unread; each following line up to the first empty one gives a header
    /// if it holds a colon and is dropped if it holds none. A carriage return
    /// is not a line end and is not trimmed: one before a line feed stays in
    /// the line, and so at the end of the value that the line gives.
    pub fn scan(text: &str, skip_lines: usize) -> (headers: HTTPHeaders)
        ensures
            headers@ == scan_headers_spec(text@, skip_lines as nat),
    {
        let chars = collect_chars(text);
        let n = chars.len();
        let ghost whole = text@;
        let ghost target = scan_headers_spec(whole, skip_lines as nat);
        let mut found: Vec<HTTPHeader> = Vec::new();
        let mut pos: usize = 0;
        let mut skipped: usize = 0;
        proof {
            assert(whole.skip(0) =~= whole);
        }
        while skipped < skip_lines
            invariant
                chars@ == whole,
                text@ == whole,
                target == scan_headers_spec(whole, skip_lines as nat),
                n == whole.len(),
                pos <= n,
                skipped <= skip_lines,
                found@.len() == 0,
                target == collect_headers(
                    lines_after(split_lines(whole.skip(pos as int)), (skip_lines - skipped) as nat),
                ),
            decreases skip_lines - skipped,
        {
            let end = find_char(chars.as_slice(), pos, n, LINE_FEED);
            proof {
                assert(chars@.subrange(pos as int, n as int) =~= whole.skip(pos as int));
                lemma_split_lines_at(whole, pos as int, end as int);
            }
            if end == n {
                proof {
                    assert(headers_view(found@) =~= Seq::<HeaderView>::empty());
                }
                return HTTPHeaders(found);
            }
            proof {
                lemma_lines_after_step(
                    whole.subrange(pos as int, end as int),
                    split_lines(whole.skip(end + 1)),
                    (skip_lines - skipped) as nat,
                );
            }
            pos = end + 1;
            skipped += 1;
        }
        proof {
            let lines = split_lines(whole.skip(pos as int));
            assert(lines.len() > 0);
            assert(lines_after(lines, 0) =~= lines);
            assert(headers_view(found@) =~= Seq::<HeaderView>::empty());
            assert(target =~= headers_view(found@) + collect_headers(lines));
        }
        loop
            invariant
                chars@ == whole,
                text@ == whole,
                target == scan_headers_spec(whole, skip_lines as nat),
                n == whole.len(),
                pos <= n,
                target == headers_view(found@) + collect_headers(
                    split_lines(whole.skip(pos as int)),
                ),
            decreases n - pos,
        {
            let end = find_char(chars.as_slice(), pos, n, LINE_FEED);
            let ghost line = whole.subrange(pos as int, end as int);
            let ghost following = if end == n {
                Seq::<Seq<char>>::empty()
            } else {
                split_lines(whole.skip(end + 1))
            };
            proof {
                assert(chars@.subrange(pos as int, n as int) =~= whole.skip(pos as int));
                lemma_split_lines_at(whole, pos as int, end as int);
                assert(split_lines(whole.skip(pos as int)) =~= seq![line] + following);
                lemma_collect_headers_step(line, following);
            }
            if end == pos {
                proof {
                    assert(target =~= headers_view(found@));
                }
                return HTTPHeaders(found);
            }
            let colon = find_char(chars.as_slice(), pos, end, COLON);
            proof {
                lemma_parse_header_line_at(whole, pos as int, colon as int, end as int);
            }
            if colon < end {
                let name = trim_range(chars.as_slice(), pos, colon);
                let value = trim_range(chars.as_slice(), colon + 1, end);
                let header = HTTPHeader {
                    name: piece(text, name.0, name.1),
                    value: piece(text, value.0, value.1),
                };
                proof {
                    assert(parse_header_line(line) == Some(header@));
                    assert(headers_view(found@.push(header)) =~= headers_view(found@) + seq![
                        header@,
                    ]);
                    assert(target =~= headers_view(found@.push(header)) + collect_headers(
                        following,
                    ));
                }
                found.push(header);
            }
            if end == n {
                proof {
                    assert(target =~= headers_view(found@));
                }
                return HTTPHeaders(found);
            }
            pos = end + 1;
        }
    }

    /// Scans bytes for headers: decodes them as UTF-8, strictly, and scans
    /// the text. Bytes that are not well-formed UTF-8 are rejected whole.
    /// All of `buffer` is scanned: it is to hold the bytes that were read
    /// and no padding.
    pub fn scan_buffer(buffer: &[u8], skip_lines: usize) -> (r: Result<HTTPHeaders, DecodeError>)
        ensures
            is_scan_of(buffer@, skip_lines as nat, r),
    {
        match decode_text(buffer) {
            Ok(text) => Ok(HTTPHeaders::scan(text.as_str(), skip_lines)),
            Err(e) => Err(e),
        }
    }

    /// The headers of a response text: those after its first two lines.
    pub fn from_raw(payload: Rc<String>) -> (headers: HTTPHeaders)
        ensures
            headers@ == scan_headers_spec(payload@, RESPONSE_SKIP_LINES as nat),
    {
        HTTPHeaders::scan(payload.as_str(), RESPONSE_SKIP_LINES)
    }

    /// The headers as text, one line each, in order.
    pub fn to_text(&self) -> (text: String)
        ensures
            text@ == headers_text(self@),
    {
        let mut text = String::new();
        let mut i: usize = 0;
        while i < self.0.len()
            invariant
                i <= self.0.len(),
                text@ == headers_text(self@.take(i as int)),
            decreases self.0.len() - i,
        {
            let line = self.0[i].to_text();
            proof {
                let upto = self@.take(i + 1);
                assert(upto.drop_last() =~= self@.take(i as int));
                assert(upto.last() == self.0[i as int]@);
            }
            text.append(line.as_str());
            i += 1;
        }
        proof {
            assert(self@.take(i as int) =~= self@);
        }
        text
    }
}

impl Clone for HTTPHeaders {
    fn clone(&self) -> (copy: Self)
        ensures
            copy@ == self@,
    {
        let mut copies: Vec<HTTPHeader> = Vec::new();
        let mut i: usize = 0;
        while i < self.0.len()
            invariant
                i <= self.0.len(),
                headers_view(copies@) == self@.take(i as int),
            decreases self.0.len() - i,
        {
            let copy = self.0[i].clone();
            proof {
                assert(self@.take(i + 1) =~= self@.take(i as int).push(self.0[i as int]@));
                assert(headers_view(copies@.push(copy)) =~= headers_view(copies@).push(copy@));
            }
            copies.push(copy);
            i += 1;
        }
        proof {
            assert(self@.take(i as int) =~= self@);
        }
        HTTPHeaders(copies)
    }
}

impl PartialEq for HTTPHeaders {
    fn eq(&self, other: &Self) -> (r: bool) {
        if self.0.len() != other.0.len() {
            proof {
                assert(self@.len() != other@.len());
            }
            return false;
        }
        let mut i: usize = 0;
        while i < self.0.len()
            invariant
                i <= self.0.len(),
                self.0.len() == other.0.len(),
                forall|j: int| 0 <= j < i ==> self@[j] == other@[j],
            decreases self.0.len() - i,
        {
            if !self.0[i].eq(&other.0[i]) {
                proof {
                    assert(self@[i as int] != other@[i as int]);
                }
                return false;
            }
            i += 1;
        }
        proof {
            assert(self@ =~= other@);
        }
        true
    }
}

impl PartialEqSpecImpl for HTTPHeaders {
    open spec fn obeys_eq_spec() -> bool {
        true
    }

    open spec fn eq_spec(&self, other: &Self) -> bool {
        self@ == other@
    }
}

/// A header as it stands in a line: name, colon, value.
pub open spec fn header_line(header: HeaderView) -> Seq<char> {
    header.name + seq![COLON] + header.value
}

/// A header that can stand in a line and be found there again: no colon in
/// its name, and no line feed in its name or its value.
pub open spec fn fits_in_line(header: HeaderView) -> bool {
    &&& !header.name.contains(COLON)
    &&& !header.name.contains(LINE_FEED)
    &&& !header.value.contains(LINE_FEED)
}

/// The header with the blanks around its name and around its value
/// removed.
pub open spec fn trimmed(header: HeaderView) -> HeaderView {
    HeaderView { name: trim(header.name), value: trim(header.value) }
}

/// The text made of `lines`, each followed by a line feed.
pub open spec fn lines_text(lines: Seq<Seq<char>>) -> Seq<char>
    decreases lines.len(),
{
    if lines.len() == 0 {
        Seq::empty()
    } else {
        lines.first() + seq![LINE_FEED] + lines_text(lines.drop_first())
    }
}

/// The lines of `headers`, in order.
pub open spec fn header_lines(headers: Seq<HeaderView>) -> Seq<Seq<char>> {
    headers.map_values(|h: HeaderView| header_line(h))
}

/// Every text has at least one line.
pub proof fn lemma_split_lines_nonempty(text: Seq<char>)
    ensures
        split_lines(text).len() >= 1,
{
}

/// The lines of a text that was made of lines are those lines, followed by
/// the lines of whatever text comes after them.
pub proof fn lemma_split_lines_text(lines: Seq<Seq<char>>, rest: Seq<char>)
    requires
        forall|i: int| 0 <= i < lines.len() ==> !lines[i].contains(LINE_FEED),
    ensures
        split_lines(lines_text(lines) + rest) == lines + split_lines(rest),
    decreases lines.len(),
{
    if lines.len() == 0 {
        assert(lines_text(lines) + rest =~= rest);
        assert(lines + split_lines(rest) =~= split_lines(rest));
    } else {
        let first = lines.first();
        let others = lines.drop_first();
        assert(!first.contains(LINE_FEED));
        assert forall|i: int| 0 <= i < others.len() implies !others[i].contains(LINE_FEED) by {
            assert(others[i] == lines[i + 1]);
        }
        assert(lines_text(lines) + rest =~= first + seq![LINE_FEED] + (lines_text(others) + rest));
        lemma_split_lines_first(first, lines_text(others) + rest);
        lemma_split_lines_text(others, rest);
        assert(seq![first] + (others + split_lines(rest)) =~= lines + split_lines(rest));
    }
}

/// The line of a header whose name holds no colon is not empty and holds
/// that header, trimmed; it holds no line feed where the header has none.
pub proof fn lemma_parse_header_line(header: HeaderView)
    requires
        !header.name.contains(COLON),
    ensures
        header_line(header).len() > 0,
        parse_header_line(header_line(header)) == Some(trimmed(header)),
        fits_in_line(header) ==> !header_line(header).contains(LINE_FEED),
{
    let line = header_line(header);
    let at = header.name.len() as int;
    lemma_position_of(line, COLON);
    assert forall|j: int| 0 <= j < at implies line[j] != COLON by {
        assert(line[j] == header.name[j]);
    }
    assert(line[at] == COLON);
    assert(is_position_of(line, COLON, at));
    assert(line.take(at) =~= header.name);
    assert(line.skip(at + 1) =~= header.value);
    if line.contains(LINE_FEED) {
        let i = choose|i: int| 0 <= i < line.len() && line[i] == LINE_FEED;
        if i < at {
            assert(header.name[i] == LINE_FEED);
        } else {
            assert(header.value[i - at - 1] == LINE_FEED);
        }
    }
}

/// A line that ends in a carriage return gives a value that ends in one:
/// nothing is cut from the end of that value.
pub proof fn lemma_value_keeps_carriage_return(header: HeaderView)
    requires
        !header.name.contains(COLON),
        header.value.len() > 0,
        header.value.last() == CARRIAGE_RETURN,
    ensures
        header_line(header).last() == CARRIAGE_RETURN,
        parse_header_line(header_line(header)) matches Some(found) && found.value == trim_start(
            header.value,
        ) && found.value.len() > 0 && found.value.last() == CARRIAGE_RETURN,
{
    lemma_parse_header_line(header);
    lemma_carriage_return_is_kept(header.value);
}

/// From lines that hold one header each, then an empty line, the headers
/// are collected in order, trimmed, whatever lines follow the empty one.
pub proof fn lemma_collect_header_lines(headers: Seq<HeaderView>, after: Seq<Seq<char>>)
    requires
        forall|i: int| 0 <= i < headers.len() ==> !(#[trigger] headers[i]).name.contains(COLON),
    ensures
        collect_headers(header_lines(headers) + seq![Seq::<char>::empty()] + after)
            == headers.map_values(|h: HeaderView| trimmed(h)),
    decreases headers.len(),
{
    let lines = header_lines(headers) + seq![Seq::<char>::empty()] + after;
    let expected = headers.map_values(|h: HeaderView| trimmed(h));
    if headers.len() == 0 {
        assert(lines[0].len() == 0);
        assert(expected =~= Seq::<HeaderView>::empty());
    } else {
        let first = headers.first();
        let others = headers.drop_first();
        assert(lines[0] == header_line(first));
        assert(lines.drop_first() =~= header_lines(others) + seq![Seq::<char>::empty()] + after);
        lemma_parse_header_line(first);
        assert forall|i: int| 0 <= i < others.len() implies !(#[trigger] others[i]).name.contains(
            COLON,
        ) by {
            assert(others[i] == headers[i + 1]);
        }
        lemma_collect_header_lines(others, after);
        assert(seq![trimmed(first)] + others.map_values(|h: HeaderView| trimmed(h)) =~= expected);
    }
}

/// Header round trip. Take any lines to be skipped, then any headers, each
/// written as a line of name, colon and value, then an empty line, then any
/// text at all. Scanning that text, past as many lines as were to be
/// skipped, gives exactly those headers: in the order in which they stand,
/// each name and each value without the blanks around it, twice where
/// one stands twice, and none from what follows the empty line.
pub proof fn lemma_header_round_trip(
    skipped: Seq<Seq<char>>,
    headers: Seq<HeaderView>,
    rest: Seq<char>,
)
    requires
        forall|i: int| 0 <= i < skipped.len() ==> !skipped[i].contains(LINE_FEED),
        forall|i: int| 0 <= i < headers.len() ==> fits_in_line(#[trigger] headers[i]),
    ensures
        scan_headers_spec(
            lines_text(skipped) + lines_text(header_lines(headers)) + seq![LINE_FEED] + rest,
            skipped.len(),
        ) == headers.map_values(|h: HeaderView| trimmed(h)),
{
    let block = header_lines(headers);
    let tail = lines_text(block) + seq![LINE_FEED] + rest;
    let text = lines_text(skipped) + lines_text(block) + seq![LINE_FEED] + rest;
    assert(text =~= lines_text(skipped) + tail);
    lemma_split_lines_text(skipped, tail);
    assert forall|i: int| 0 <= i < block.len() implies !block[i].contains(LINE_FEED) by {
        lemma_parse_header_line(headers[i]);
    }
    let blank = Seq::<char>::empty();
    assert(tail =~= lines_text(block) + (blank + seq![LINE_FEED] + rest));
    lemma_split_lines_text(block, blank + seq![LINE_FEED] + rest);
    lemma_split_lines_first(blank, rest);
    let found = block + (seq![blank] + split_lines(rest));
    assert(split_lines(tail) == found);
    assert(lines_after(skipped + found, skipped.len()) =~= found);
    assert(found =~= block + seq![blank] + split_lines(rest));
    lemma_collect_header_lines(headers, split_lines(rest));
}

/// The same of a buffer: one that holds such a text in UTF-8 is accepted,
/// and scanning it gives exactly those headers.
pub proof fn lemma_header_round_trip_in_buffer(
    skipped: Seq<Seq<char>>,
    headers: Seq<HeaderView>,
    rest: Seq<char>,
)
    requires
        forall|i: int| 0 <= i < skipped.len() ==> !skipped[i].contains(LINE_FEED),
        forall|i: int| 0 <= i < headers.len() ==> fits_in_line(#[trigger] headers[i]),
    ensures
        scan_buffer_spec(
            encode_utf8(
                lines_text(skipped) + lines_text(header_lines(headers)) + seq![LINE_FEED] + rest,
            ),
            skipped.len(),
        ) == Ok::<Seq<HeaderView>, DecodeError>(headers.map_values(|h: HeaderView| trimmed(h))),
{
    let text = lines_text(skipped) + lines_text(header_lines(headers)) + seq![LINE_FEED] + rest;
    encode_utf8_valid_utf8(text);
    encode_utf8_decode_utf8(text);
    lemma_header_round_trip(skipped, headers, rest);
}

/// A header that has no blanks around its name or around its value.
pub open spec fn is_trimmed(header: HeaderView) -> bool {
    &&& trim(header.name) == header.name
    &&& trim(header.value) == header.value
}

/// The header with a space before its value, as its text form has it.
pub open spec fn spaced(header: HeaderView) -> HeaderView {
    HeaderView { name: header.name, value: seq![' '] + header.value }
}

/// The text of two runs of lines is the text of the one after that of the
/// other.
pub proof fn lemma_lines_text_concat(first: Seq<Seq<char>>, second: Seq<Seq<char>>)
    ensures
        lines_text(first + second) == lines_text(first) + lines_text(second),
    decreases first.len(),
{
    if first.len() == 0 {
        assert(first + second =~= second);
        assert(lines_text(first) + lines_text(second) =~= lines_text(second));
    } else {
        let all = first + second;
        assert(all.first() == first.first());
        assert(all.drop_first() =~= first.drop_first() + second);
        lemma_lines_text_concat(first.drop_first(), second);
        assert(lines_text(all) =~= lines_text(first) + lines_text(second));
    }
}

/// The text form of headers is made of their lines, each with a space
/// after the colon.
pub proof fn lemma_headers_text_lines(headers: Seq<HeaderView>)
    ensures
        headers_text(headers) == lines_text(
            header_lines(headers.map_values(|h: HeaderView| spaced(h))),
        ),
    decreases headers.len(),
{
    let lines = header_lines(headers.map_values(|h: HeaderView| spaced(h)));
    if headers.len() == 0 {
        assert(lines =~= Seq::<Seq<char>>::empty());
    } else {
        let front = headers.drop_last();
        let last = headers.last();
        let front_lines = header_lines(front.map_values(|h: HeaderView| spaced(h)));
        let last_line = header_line(spaced(last));
        lemma_headers_text_lines(front);
        assert(lines =~= front_lines + seq![last_line]);
        lemma_lines_text_concat(front_lines, seq![last_line]);
        assert(seq![last_line].drop_first() =~= Seq::<Seq<char>>::empty());
        assert(lines_text(Seq::<Seq<char>>::empty()) =~= Seq::<char>::empty());
        reveal_strlit(": ");
        reveal_strlit("\n");
        assert(": "@ =~= seq![COLON, ' ']);
        assert("\n"@ =~= seq![LINE_FEED]);
        assert(lines_text(seq![last_line]) =~= header_text(last));
    }
}

/// A space before a trimmed value is trimmed away again.
pub proof fn lemma_trimmed_spaced(header: HeaderView)
    requires
        is_trimmed(header),
    ensures
        trimmed(spaced(header)) == header,
        fits_in_line(header) ==> fits_in_line(spaced(header)),
{
    let value = seq![' '] + header.value;
    assert(value.drop_first() =~= header.value);
    assert(value[0] == ' ');
    assert(is_blank(value[0]));
    assert(leading_blanks(value) == 1 + leading_blanks(header.value));
    lemma_leading_blanks(header.value);
    assert(trim_start(value) =~= trim_start(header.value));
    if fits_in_line(header) && value.contains(LINE_FEED) {
        let i = choose|i: int| 0 <= i < value.len() && value[i] == LINE_FEED;
        assert(header.value[i - 1] == LINE_FEED);
    }
}

/// Headers that were written as text are found again. Take any lines to be
/// skipped, then the text form of any headers that are trimmed and can
/// stand in a line, then an empty line, then any text at all: scanning past
/// the lines to be skipped gives those headers back, each as it was.
pub proof fn lemma_headers_text_round_trip(
    skipped: Seq<Seq<char>>,
    headers: Seq<HeaderView>,
    rest: Seq<char>,
)
    requires
        forall|i: int| 0 <= i < skipped.len() ==> !skipped[i].contains(LINE_FEED),
        forall|i: int|
            0 <= i < headers.len() ==> fits_in_line(#[trigger] headers[i]) && is_trimmed(
                headers[i],
            ),
    ensures
        scan_headers_spec(
            lines_text(skipped) + headers_text(headers) + seq![LINE_FEED] + rest,
            skipped.len(),
        ) == headers,
{
    let written = headers.map_values(|h: HeaderView| spaced(h));
    lemma_headers_text_lines(headers);
    assert forall|i: int| 0 <= i < written.len() implies fits_in_line(#[trigger] written[i]) by {
        lemma_trimmed_spaced(headers[i]);
    }
    lemma_header_round_trip(skipped, written, rest);
    let found = written.map_values(|h: HeaderView| trimmed(h));
    assert forall|i: int| 0 <= i < headers.len() implies found[i] == headers[i] by {
        lemma_trimmed_spaced(headers[i]);
    }
    assert(found =~= headers);
}

/// A line without a colon holds no header.
pub proof fn lemma_line_without_colon(line: Seq<char>)
    requires
        !line.contains(COLON),
    ensures
        parse_header_line(line) is None,
{
    lemma_position_of(line, COLON);
    let at = position_of(line, COLON) as int;
    if at < line.len() {
        assert(line[at] == COLON);
    }
}

/// A line that is not empty and holds no colon adds nothing to the headers
/// that are collected, and takes nothing from them.
pub proof fn lemma_collect_without_colon(
    before: Seq<Seq<char>>,
    line: Seq<char>,
    after: Seq<Seq<char>>,
)
    requires
        !line.contains(COLON),
        line.len() > 0,
    ensures
        collect_headers(before + seq![line] + after) == collect_headers(before + after),
    decreases before.len(),
{
    let with = before + seq![line] + after;
    let without = before + after;
    if before.len() == 0 {
        assert(with =~= seq![line] + after);
        assert(without =~= after);
        lemma_collect_headers_step(line, after);
        lemma_line_without_colon(line);
    } else {
        let first = before.first();
        let others = before.drop_first();
        assert(with =~= seq![first] + (others + seq![line] + after));
        assert(without =~= seq![first] + (others + after));
        lemma_collect_headers_step(first, others + seq![line] + after);
        lemma_collect_headers_step(first, others + after);
        lemma_collect_without_colon(others, line, after);
    }
}

/// Lines without a colon are left out, and nothing else changes. Take a
/// text and put into it, after at least as many lines as are skipped, one
/// more line that is not empty and holds no colon: scanning gives the same
/// headers as without that line.
pub proof fn lemma_line_without_colon_is_omitted(
    before: Seq<char>,
    line: Seq<char>,
    after: Seq<char>,
    skip_lines: nat,
)
    requires
        !line.contains(COLON),
        !line.contains(LINE_FEED),
        line.len() > 0,
        skip_lines <= split_lines(before).len(),
    ensures
        scan_headers_spec(
            before + seq![LINE_FEED] + line + seq![LINE_FEED] + after,
            skip_lines,
        ) == scan_headers_spec(before + seq![LINE_FEED] + after, skip_lines),
{
    let head = split_lines(before);
    let tail = split_lines(after);
    let with = before + seq![LINE_FEED] + line + seq![LINE_FEED] + after;
    let without = before + seq![LINE_FEED] + after;
    lemma_split_lines_nonempty(after);
    assert(with =~= before + seq![LINE_FEED] + (line + seq![LINE_FEED] + after));
    lemma_split_lines_concat(before, line + seq![LINE_FEED] + after);
    lemma_split_lines_first(line, after);
    lemma_split_lines_concat(before, after);
    let kept = if skip_lines == head.len() {
        Seq::<Seq<char>>::empty()
    } else {
        head.skip(skip_lines as int)
    };
    assert(lines_after(head + (seq![line] + tail), skip_lines) =~= kept + seq![line] + tail);
    assert(lines_after(head + tail, skip_lines) =~= kept + tail);
    lemma_collect_without_colon(kept, line, tail);
}

} // verus!
