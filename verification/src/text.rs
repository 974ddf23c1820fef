//! Character-level vocabulary of the header scanner: blanks, trimming,
//! the position of a separator and the division of a text into lines.
//!
//! Every notion is given twice: as a specification over `Seq<char>` and as
//! executable code over a slice of characters that is proved to compute it.
use vstd::prelude::*;

verus! {

/// The line separator. A carriage return before it is ordinary content.
pub const LINE_FEED: char = '\n';

/// The separator between a header's name and its value.
pub const COLON: char = ':';

/// The carriage return. It ends no line and is not trimmed away: a line
/// that ends in one gives a value that ends in one.
pub const CARRIAGE_RETURN: char = '\r';

/// The characters with the Unicode property `White_Space`.
pub open spec fn is_whitespace(c: char) -> bool {
    let u = c as u32;
    ||| 0x09 <= u <= 0x0D
    ||| u == 0x20
    ||| u == 0x85
    ||| u == 0xA0
    ||| u == 0x1680
    ||| 0x2000 <= u <= 0x200A
    ||| u == 0x2028
    ||| u == 0x2029
    ||| u == 0x202F
    ||| u == 0x205F
    ||| u == 0x3000
}

/// The characters that trimming removes: every whitespace character but the
/// carriage return.
pub open spec fn is_blank(c: char) -> bool {
    is_whitespace(c) && c != CARRIAGE_RETURN
}

/// Position of the first occurrence of `c` in `s`, or `s.len()` if there is none.
pub open spec fn position_of(s: Seq<char>, c: char) -> nat
    decreases s.len(),
{
    if s.len() == 0 || s[0] == c {
        0
    } else {
        1 + position_of(s.drop_first(), c)
    }
}

/// `i` is where `c` first occurs in `s`, or the length of `s` if it never does.
pub open spec fn is_position_of(s: Seq<char>, c: char, i: int) -> bool {
    &&& 0 <= i <= s.len()
    &&& forall|j: int| 0 <= j < i ==> s[j] != c
    &&& i < s.len() ==> s[i] == c
}

/// Number of blank characters at the front of `s`.
pub open spec fn leading_blanks(s: Seq<char>) -> nat
    decreases s.len(),
{
    if s.len() > 0 && is_blank(s[0]) {
        1 + leading_blanks(s.drop_first())
    } else {
        0
    }
}

/// Number of blank characters at the back of `s`.
pub open spec fn trailing_blanks(s: Seq<char>) -> nat
    decreases s.len(),
{
    if s.len() > 0 && is_blank(s.last()) {
        1 + trailing_blanks(s.drop_last())
    } else {
        0
    }
}

/// `s` without the blanks at its front.
pub open spec fn trim_start(s: Seq<char>) -> Seq<char> {
    s.skip(leading_blanks(s) as int)
}

/// `s` without the blanks at its back.
pub open spec fn trim_end(s: Seq<char>) -> Seq<char> {
    s.take(s.len() - trailing_blanks(s))
}

/// `s` without the blanks that surround it. Blanks inside stay, and so
/// does a carriage return wherever it stands.
pub open spec fn trim(s: Seq<char>) -> Seq<char> {
    trim_end(trim_start(s))
}

/// The pieces of `text` between line feeds, in order. A text with `k` line
/// feeds has `k + 1` lines; the empty text has one, empty, line.
pub open spec fn split_lines(text: Seq<char>) -> Seq<Seq<char>>
    decreases text.len(),
{
    let i = position_of(text, LINE_FEED) as int;
    if i >= text.len() {
        seq![text]
    } else {
        seq![text.take(i)] + split_lines(text.skip(i + 1))
    }
}

/// `lines` without its first `count` entries; nothing is left when there are
/// no more than `count` of them.
pub open spec fn lines_after(lines: Seq<Seq<char>>, count: nat) -> Seq<Seq<char>> {
    if count >= lines.len() {
        Seq::empty()
    } else {
        lines.skip(count as int)
    }
}

/// `position_of` is the one index that `is_position_of` accepts.
pub proof fn lemma_position_of(s: Seq<char>, c: char)
    ensures
        is_position_of(s, c, position_of(s, c) as int),
        forall|i: int| is_position_of(s, c, i) ==> i == position_of(s, c),
    decreases s.len(),
{
    if s.len() == 0 || s[0] == c {
    } else {
        let tail = s.drop_first();
        lemma_position_of(tail, c);
        let p = position_of(tail, c) as int;
        assert forall|j: int| 0 <= j < p + 1 implies s[j] != c by {
            if j > 0 {
                assert(s[j] == tail[j - 1]);
            }
        }
        if p + 1 < s.len() {
            assert(s[p + 1] == tail[p]);
        }
    }
    let found = position_of(s, c) as int;
    assert forall|i: int| is_position_of(s, c, i) implies i == found by {
        if i < found {
            assert(s[i] == c);
        } else if found < i {
            assert(s[found] == c);
        }
    }
}

/// `k` blank characters stand at the front of `s`, and no more.
pub open spec fn is_leading_blanks(s: Seq<char>, k: int) -> bool {
    &&& 0 <= k <= s.len()
    &&& forall|j: int| 0 <= j < k ==> is_blank(s[j])
    &&& k < s.len() ==> !is_blank(s[k])
}

/// `k` blank characters stand at the back of `s`, and no more.
pub open spec fn is_trailing_blanks(s: Seq<char>, k: int) -> bool {
    &&& 0 <= k <= s.len()
    &&& forall|j: int| s.len() - k <= j < s.len() ==> is_blank(s[j])
    &&& k < s.len() ==> !is_blank(s[s.len() - k - 1])
}

/// `leading_blanks` is the one count that `is_leading_blanks` accepts.
pub proof fn lemma_leading_blanks(s: Seq<char>)
    ensures
        is_leading_blanks(s, leading_blanks(s) as int),
        forall|k: int| is_leading_blanks(s, k) ==> k == leading_blanks(s),
    decreases s.len(),
{
    if s.len() > 0 && is_blank(s[0]) {
        let tail = s.drop_first();
        lemma_leading_blanks(tail);
        let p = leading_blanks(tail) as int;
        assert forall|j: int| 0 <= j < p + 1 implies is_blank(s[j]) by {
            if j > 0 {
                assert(s[j] == tail[j - 1]);
            }
        }
        if p + 1 < s.len() {
            assert(s[p + 1] == tail[p]);
        }
    }
    let found = leading_blanks(s) as int;
    assert forall|k: int| is_leading_blanks(s, k) implies k == found by {
        if k < found {
            assert(is_blank(s[k]));
        } else if found < k {
            assert(is_blank(s[found]));
        }
    }
}

/// `trailing_blanks` is the one count that `is_trailing_blanks` accepts.
pub proof fn lemma_trailing_blanks(s: Seq<char>)
    ensures
        is_trailing_blanks(s, trailing_blanks(s) as int),
        forall|k: int| is_trailing_blanks(s, k) ==> k == trailing_blanks(s),
    decreases s.len(),
{
    if s.len() > 0 && is_blank(s.last()) {
        let front = s.drop_last();
        lemma_trailing_blanks(front);
        let p = trailing_blanks(front) as int;
        assert forall|j: int| s.len() - (p + 1) <= j < s.len() implies is_blank(s[j]) by {
            if j < s.len() - 1 {
                assert(s[j] == front[j]);
            }
        }
        if p + 1 < s.len() {
            assert(s[s.len() - (p + 1) - 1] == front[front.len() - p - 1]);
        }
    }
    let found = trailing_blanks(s) as int;
    assert forall|k: int| is_trailing_blanks(s, k) implies k == found by {
        if k < found {
            assert(is_blank(s[s.len() - k - 1]));
        } else if found < k {
            assert(is_blank(s[s.len() - found - 1]));
        }
    }
}

/// Trimming cuts blanks only, from both ends, until none is left there:
/// `trim(s)` is the piece of `s` between its leading and its trailing
/// blanks, and it neither starts nor ends with a blank character.
pub proof fn lemma_trim(s: Seq<char>)
    ensures
        leading_blanks(s) + trim(s).len() <= s.len(),
        trim(s) == s.subrange(
            leading_blanks(s) as int,
            (leading_blanks(s) + trim(s).len()) as int,
        ),
        forall|j: int| 0 <= j < leading_blanks(s) ==> is_blank(s[j]),
        forall|j: int|
            leading_blanks(s) + trim(s).len() <= j < s.len() ==> is_blank(s[j]),
        trim(s).len() > 0 ==> !is_blank(trim(s).first()) && !is_blank(trim(s).last()),
{
    lemma_leading_blanks(s);
    let lead = leading_blanks(s) as int;
    let rest = trim_start(s);
    lemma_trailing_blanks(rest);
    let trail = trailing_blanks(rest) as int;
    assert(trim(s) =~= s.subrange(lead, lead + trim(s).len()));
    assert forall|j: int| lead + trim(s).len() <= j < s.len() implies is_blank(s[j]) by {
        assert(s[j] == rest[j - lead]);
    }
    if trim(s).len() > 0 {
        assert(trim(s).first() == s[lead]);
        assert(trim(s).last() == rest[rest.len() - trail - 1]);
    }
}

/// A carriage return at the end is kept: trimming what ends in one cuts
/// nothing from its end, so that what is left ends in one too.
pub proof fn lemma_carriage_return_is_kept(s: Seq<char>)
    requires
        s.len() > 0,
        s.last() == CARRIAGE_RETURN,
    ensures
        trim(s) == trim_start(s),
        trim(s).len() > 0,
        trim(s).last() == CARRIAGE_RETURN,
{
    lemma_leading_blanks(s);
    let lead = leading_blanks(s) as int;
    if lead == s.len() {
        assert(is_blank(s[s.len() - 1]));
    }
    let rest = trim_start(s);
    assert(rest.last() == s.last());
    assert(trim_end(rest) =~= rest);
}

/// A text that starts with a line and a line feed splits into that line and
/// the lines of what follows.
pub proof fn lemma_split_lines_first(line: Seq<char>, rest: Seq<char>)
    requires
        !line.contains(LINE_FEED),
    ensures
        split_lines(line + seq![LINE_FEED] + rest) == seq![line] + split_lines(rest),
{
    let text = line + seq![LINE_FEED] + rest;
    lemma_position_of(text, LINE_FEED);
    let n = line.len() as int;
    assert forall|j: int| 0 <= j < n implies text[j] != LINE_FEED by {
        assert(text[j] == line[j]);
    }
    assert(text[n] == LINE_FEED);
    assert(is_position_of(text, LINE_FEED, n));
    assert(text.take(n) =~= line);
    assert(text.skip(n + 1) =~= rest);
}

/// Splitting distributes over a line feed: the lines of `a`, a line feed and
/// `b` are the lines of `a` followed by the lines of `b`.
pub proof fn lemma_split_lines_concat(a: Seq<char>, b: Seq<char>)
    ensures
        split_lines(a + seq![LINE_FEED] + b) == split_lines(a) + split_lines(b),
    decreases a.len(),
{
    lemma_position_of(a, LINE_FEED);
    let i = position_of(a, LINE_FEED) as int;
    if i >= a.len() {
        assert(!a.contains(LINE_FEED));
        lemma_split_lines_first(a, b);
    } else {
        let head = a.take(i);
        let tail = a.skip(i + 1);
        assert(!head.contains(LINE_FEED));
        assert(a + seq![LINE_FEED] + b =~= head + seq![LINE_FEED] + (tail + seq![LINE_FEED] + b));
        lemma_split_lines_first(head, tail + seq![LINE_FEED] + b);
        lemma_split_lines_concat(tail, b);
        assert(seq![head] + (split_lines(tail) + split_lines(b)) =~= (seq![head] + split_lines(
            tail,
        )) + split_lines(b));
    }
}

/// Skipping one more line of a text that has one is skipping it in the rest.
pub proof fn lemma_lines_after_step(first: Seq<char>, rest: Seq<Seq<char>>, count: nat)
    requires
        count > 0,
    ensures
        lines_after(seq![first] + rest, count) == lines_after(rest, (count - 1) as nat),
{
    let lines = seq![first] + rest;
    if count < lines.len() {
        assert(lines.skip(count as int) =~= rest.skip(count - 1));
    }
}

/// Tells whether `c` is a whitespace character.
pub fn char_is_whitespace(c: char) -> (r: bool)
    ensures
        r == is_whitespace(c),
{
    let u: u32 = c as u32;
    (0x09 <= u && u <= 0x0D) || u == 0x20 || u == 0x85 || u == 0xA0 || u == 0x1680 || (0x2000 <= u
        && u <= 0x200A) || u == 0x2028 || u == 0x2029 || u == 0x202F || u == 0x205F || u == 0x3000
}

/// Tells whether trimming removes `c`.
pub fn char_is_blank(c: char) -> (r: bool)
    ensures
        r == is_blank(c),
{
    c != CARRIAGE_RETURN && char_is_whitespace(c)
}

/// Finds the first `c` in `chars[from..to]`. The result is an index into
/// `chars`; it is `to` where that piece holds no `c`.
pub fn find_char(chars: &[char], from: usize, to: usize, c: char) -> (at: usize)
    requires
        from <= to <= chars@.len(),
    ensures
        from <= at <= to,
        at - from == position_of(chars@.subrange(from as int, to as int), c),
{
    let ghost piece = chars@.subrange(from as int, to as int);
    let mut at: usize = from;
    while at < to && chars[at] != c
        invariant
            from <= at <= to <= chars@.len(),
            piece == chars@.subrange(from as int, to as int),
            forall|j: int| 0 <= j < at - from ==> piece[j] != c,
        decreases to - at,
    {
        at += 1;
    }
    proof {
        lemma_position_of(piece, c);
        assert(is_position_of(piece, c, at - from));
    }
    at
}

/// Trims `chars[from..to]`: returns the bounds, as indices into `chars`, of
/// what is left of that piece without its surrounding blanks.
pub fn trim_range(chars: &[char], from: usize, to: usize) -> (bounds: (usize, usize))
    requires
        from <= to <= chars@.len(),
    ensures
        from <= bounds.0 <= bounds.1 <= to,
        chars@.subrange(bounds.0 as int, bounds.1 as int) == trim(
            chars@.subrange(from as int, to as int),
        ),
{
    let ghost piece = chars@.subrange(from as int, to as int);
    let mut lo: usize = from;
    while lo < to && char_is_blank(chars[lo])
        invariant
            from <= lo <= to <= chars@.len(),
            piece == chars@.subrange(from as int, to as int),
            forall|j: int| 0 <= j < lo - from ==> is_blank(piece[j]),
        decreases to - lo,
    {
        lo += 1;
    }
    let ghost rest = chars@.subrange(lo as int, to as int);
    let mut hi: usize = to;
    while hi > lo && char_is_blank(chars[hi - 1])
        invariant
            lo <= hi <= to <= chars@.len(),
            rest == chars@.subrange(lo as int, to as int),
            forall|j: int| hi - lo <= j < rest.len() ==> is_blank(rest[j]),
        decreases hi - lo,
    {
        hi -= 1;
    }
    proof {
        lemma_leading_blanks(piece);
        assert(is_leading_blanks(piece, lo - from));
        assert(trim_start(piece) =~= rest);
        lemma_trailing_blanks(rest);
        assert(is_trailing_blanks(rest, to - hi));
        assert(chars@.subrange(lo as int, hi as int) =~= trim_end(rest));
    }
    (lo, hi)
}

} // verus!
