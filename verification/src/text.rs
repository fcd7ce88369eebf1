//! Character-level reading of text: lines, whitespace-separated words,
//! trimming, delimiter-separated fields and word comparison.
//!
//! A text is held as a `Vec<char>`; a piece of it is a [`Span`] of indices,
//! so that no piece is copied while the text is read.

use vstd::prelude::*;

verus! {

/// A half-open range of character positions in a text.
#[derive(Clone, Copy, Debug)]
pub struct Span {
    pub start: usize,
    pub end: usize,
}

impl Span {
    /// The span lies inside a text of `len` characters.
    pub open spec fn within(self, len: nat) -> bool {
        self.start <= self.end <= len
    }

    /// The characters of `text` that the span covers.
    pub open spec fn of(self, text: Seq<char>) -> Seq<char> {
        text.subrange(self.start as int, self.end as int)
    }

    /// Number of characters covered.
    pub fn len(&self) -> (n: usize)
        requires
            self.start <= self.end,
        ensures
            n == self.end - self.start,
    {
        self.end - self.start
    }
}

/// Every span lies inside a text of `len` characters.
pub open spec fn all_within(spans: Seq<Span>, len: nat) -> bool {
    forall|k: int| 0 <= k < spans.len() ==> (#[trigger] spans[k]).within(len)
}

/// `spans` are, in order, the places in `text` of the pieces `pieces`.
pub open spec fn spans_cover(text: Seq<char>, spans: Seq<Span>, pieces: Seq<Seq<char>>) -> bool {
    &&& spans.len() == pieces.len()
    &&& forall|k: int|
        0 <= k < spans.len() ==> (#[trigger] spans[k]).within(text.len()) && spans[k].of(text)
            == pieces[k]
}

/// The characters with the Unicode property `White_Space`.
pub open spec fn is_space(c: char) -> bool {
    let u = c as u32;
    ||| 0x09 <= u <= 0x0D
    ||| u == 0x20
    ||| u == 0x85
    ||| u == 0xA0
    ||| u == 0x1680
    ||| 0x2000 <= u <= 0x200A
    ||| u == 0x2028
    ||| u == 0x2029
    ||| u == 0x202F
    ||| u == 0x205F
    ||| u == 0x3000
}

/// Whether a character is whitespace.
pub fn is_whitespace(c: char) -> (r: bool)
    ensures
        r == is_space(c),
{
    let u: u32 = c as u32;
    (0x09 <= u && u <= 0x0D) || u == 0x20 || u == 0x85 || u == 0xA0 || u == 0x1680 || (0x2000 <= u
        && u <= 0x200A) || u == 0x2028 || u == 0x2029 || u == 0x202F || u == 0x205F || u == 0x3000
}

/// The characters of a string, in order.
pub fn chars_of(s: &str) -> (v: Vec<char>)
    ensures
        v@ == s@,
{
    let mut v: Vec<char> = Vec::new();
    let chars = s.chars();
    for c in it: chars
        invariant
            v@ == it.seq().take(it.index() as int),
            it.seq() == s@,
    {
        v.push(c);
    }
    v
}

/// A line starts with a whitespace character.
pub open spec fn is_indented(line: Seq<char>) -> bool {
    line.len() > 0 && is_space(line[0])
}

/// Whether a line is indented.
pub fn starts_with_space(text: &Vec<char>, line: Span) -> (r: bool)
    requires
        line.within(text@.len()),
    ensures
        r == is_indented(line.of(text@)),
{
    line.start < line.end && is_whitespace(text[line.start])
}

/// Number of characters before the first line feed of `t`, or the whole
/// length where it holds none.
pub open spec fn line_len(t: Seq<char>) -> nat
    decreases t.len(),
{
    if t.len() == 0 || t[0] == '\n' {
        0
    } else {
        1 + line_len(t.skip(1))
    }
}

/// A line without the carriage return that may end it.
pub open spec fn strip_cr(line: Seq<char>) -> Seq<char> {
    if line.len() > 0 && line.last() == '\r' {
        line.drop_last()
    } else {
        line
    }
}

/// The lines of a text. A line ends at a line feed, or at a carriage return
/// directly followed by one; neither belongs to the line. The last line
/// needs no line feed, and keeps a carriage return that ends it.
pub open spec fn lines(t: Seq<char>) -> Seq<Seq<char>>
    decreases t.len(),
{
    if t.len() == 0 {
        Seq::empty()
    } else {
        let n = line_len(t) as int;
        if n >= t.len() {
            seq![t]
        } else {
            seq![strip_cr(t.take(n))] + lines(t.skip(n + 1))
        }
    }
}

/// The position of the first line feed at or after `from`, or the length of
/// the text.
pub fn line_end(text: &Vec<char>, from: usize) -> (end: usize)
    requires
        from <= text@.len(),
    ensures
        end == from + line_len(text@.skip(from as int)),
        from <= end <= text@.len(),
{
    let mut i: usize = from;
    while i < text.len() && text[i] != '\n'
        invariant
            from <= i <= text@.len(),
            line_len(text@.skip(from as int)) == (i - from) + line_len(text@.skip(i as int)),
        decreases text@.len() - i,
    {
        assert(text@.skip(i as int).skip(1) =~= text@.skip(i + 1));
        i += 1;
    }
    i
}

/// The places of the lines of a text.
pub fn split_lines(text: &Vec<char>) -> (spans: Vec<Span>)
    ensures
        spans_cover(text@, spans@, lines(text@)),
{
    let mut spans: Vec<Span> = Vec::new();
    let mut pos: usize = 0;
    let ghost mut done: Seq<Seq<char>> = Seq::empty();
    assert(text@.skip(0) =~= text@);
    while pos < text.len()
        invariant
            pos <= text@.len(),
            spans_cover(text@, spans@, done),
            lines(text@) == done + lines(text@.skip(pos as int)),
        decreases text@.len() - pos,
    {
        let ghost rest = text@.skip(pos as int);
        let end = line_end(text, pos);
        let ghost n = (end - pos) as int;
        if end == text.len() {
            let span = Span { start: pos, end };
            assert(span.of(text@) =~= rest);
            proof {
                assert(lines(rest) =~= seq![rest]);
                assert(lines(text@.skip(end as int)) =~= Seq::<Seq<char>>::empty());
                assert(lines(text@) =~= done.push(rest) + lines(text@.skip(end as int)));
                done = done.push(rest);
            }
            spans.push(span);
            pos = end;
        } else {
            let stop = if end > pos && text[end - 1] == '\r' {
                end - 1
            } else {
                end
            };
            let span = Span { start: pos, end: stop };
            proof {
                assert(rest.take(n) =~= text@.subrange(pos as int, end as int));
                assert(span.of(text@) =~= strip_cr(rest.take(n)));
                assert(rest.skip(n + 1) =~= text@.skip(end + 1));
                assert(lines(text@) =~= done.push(span.of(text@)) + lines(text@.skip(end + 1)));
                done = done.push(span.of(text@));
            }
            spans.push(span);
            pos = end + 1;
        }
    }
    assert(lines(text@.skip(pos as int)) =~= Seq::<Seq<char>>::empty());
    assert(done + Seq::<Seq<char>>::empty() =~= done);
    spans
}

/// Number of leading characters of `l` that are no whitespace.
pub open spec fn word_len(l: Seq<char>) -> nat
    decreases l.len(),
{
    if l.len() == 0 || is_space(l[0]) {
        0
    } else {
        1 + word_len(l.skip(1))
    }
}

/// A word ends at the first whitespace character or at the end of the
/// line, and a line that starts with another character starts with a word.
pub proof fn lemma_word_len_bound(l: Seq<char>)
    ensures
        word_len(l) <= l.len(),
        l.len() > 0 && !is_space(l[0]) ==> word_len(l) > 0,
        word_len(l) < l.len() ==> is_space(l[word_len(l) as int]),
        forall|k: int| 0 <= k < word_len(l) ==> !is_space(l[k]),
    decreases l.len(),
{
    if l.len() == 0 || is_space(l[0]) {
    } else {
        lemma_word_len_bound(l.skip(1));
        assert forall|k: int| 0 <= k < word_len(l) implies !is_space(l[k]) by {
            if k > 0 {
                assert(l.skip(1)[k - 1] == l[k]);
            }
        }
    }
}

/// The words of a line: its maximal runs of characters that are no
/// whitespace, in order.
pub open spec fn tokens(l: Seq<char>) -> Seq<Seq<char>>
    decreases l.len(),
{
    if l.len() == 0 {
        Seq::empty()
    } else if is_space(l[0]) {
        tokens(l.skip(1))
    } else {
        let n = word_len(l) as int;
        proof {
            lemma_word_len_bound(l);
        }
        seq![l.take(n)] + tokens(l.skip(n))
    }
}

/// The position of the first whitespace character in `from..to`, or `to`.
pub fn word_end(text: &Vec<char>, from: usize, to: usize) -> (end: usize)
    requires
        from <= to <= text@.len(),
    ensures
        end == from + word_len(text@.subrange(from as int, to as int)),
        from <= end <= to,
{
    let mut i: usize = from;
    while i < to && !is_whitespace(text[i])
        invariant
            from <= i <= to <= text@.len(),
            word_len(text@.subrange(from as int, to as int)) == (i - from) + word_len(
                text@.subrange(i as int, to as int),
            ),
        decreases to - i,
    {
        assert(text@.subrange(i as int, to as int).skip(1) =~= text@.subrange(i + 1, to as int));
        i += 1;
    }
    i
}

/// The places of the words of a line.
pub fn split_words(text: &Vec<char>, line: Span) -> (spans: Vec<Span>)
    requires
        line.within(text@.len()),
    ensures
        spans_cover(text@, spans@, tokens(line.of(text@))),
{
    let mut spans: Vec<Span> = Vec::new();
    let mut pos: usize = line.start;
    let to: usize = line.end;
    let ghost mut done: Seq<Seq<char>> = Seq::empty();
    while pos < to
        invariant
            line.start <= pos <= to <= text@.len(),
            to == line.end,
            spans_cover(text@, spans@, done),
            tokens(line.of(text@)) == done + tokens(text@.subrange(pos as int, to as int)),
        decreases to - pos,
    {
        let ghost rest = text@.subrange(pos as int, to as int);
        if is_whitespace(text[pos]) {
            assert(rest.skip(1) =~= text@.subrange(pos + 1, to as int));
            pos += 1;
        } else {
            let end = word_end(text, pos, to);
            let span = Span { start: pos, end };
            proof {
                let n = (end - pos) as int;
                assert(n > 0);
                assert(rest.take(n) =~= span.of(text@));
                assert(rest.skip(n) =~= text@.subrange(end as int, to as int));
                assert(tokens(line.of(text@)) =~= done.push(span.of(text@)) + tokens(
                    text@.subrange(end as int, to as int),
                ));
                done = done.push(span.of(text@));
            }
            spans.push(span);
            pos = end;
        }
    }
    assert(tokens(text@.subrange(pos as int, to as int)) =~= Seq::<Seq<char>>::empty());
    assert(done + Seq::<Seq<char>>::empty() =~= done);
    spans
}

/// A line without the whitespace that starts it.
pub open spec fn trim_start(l: Seq<char>) -> Seq<char>
    decreases l.len(),
{
    if l.len() > 0 && is_space(l[0]) {
        trim_start(l.skip(1))
    } else {
        l
    }
}

/// A line without the whitespace that ends it.
pub open spec fn trim_end(l: Seq<char>) -> Seq<char>
    decreases l.len(),
{
    if l.len() > 0 && is_space(l.last()) {
        trim_end(l.drop_last())
    } else {
        l
    }
}

/// A line without the whitespace around it.
pub open spec fn trim(l: Seq<char>) -> Seq<char> {
    trim_end(trim_start(l))
}

/// The place of a line's content without the whitespace around it.
pub fn trim_span(text: &Vec<char>, line: Span) -> (inner: Span)
    requires
        line.within(text@.len()),
    ensures
        inner.within(text@.len()),
        line.start <= inner.start <= inner.end <= line.end,
        inner.of(text@) == trim(line.of(text@)),
{
    let mut a: usize = line.start;
    let mut b: usize = line.end;
    while a < b && is_whitespace(text[a])
        invariant
            line.start <= a <= b,
            b == line.end,
            b <= text@.len(),
            trim_start(line.of(text@)) == trim_start(text@.subrange(a as int, b as int)),
        decreases b - a,
    {
        assert(text@.subrange(a as int, b as int).skip(1) =~= text@.subrange(a + 1, b as int));
        a += 1;
    }
    assert(trim_start(line.of(text@)) == text@.subrange(a as int, b as int));
    while a < b && is_whitespace(text[b - 1])
        invariant
            line.start <= a <= b <= line.end,
            line.end <= text@.len(),
            trim(line.of(text@)) == trim_end(text@.subrange(a as int, b as int)),
        decreases b - a,
    {
        assert(text@.subrange(a as int, b as int).drop_last() =~= text@.subrange(
            a as int,
            b - 1,
        ));
        b -= 1;
    }
    Span { start: a, end: b }
}

/// `c` separates the numbers of a geometry word.
pub open spec fn is_delimiter(c: char) -> bool {
    c == 'x' || c == '+'
}

/// Number of leading characters of `l` that are no delimiter.
pub open spec fn field_len(l: Seq<char>) -> nat
    decreases l.len(),
{
    if l.len() == 0 || is_delimiter(l[0]) {
        0
    } else {
        1 + field_len(l.skip(1))
    }
}

/// The fields of a word: what stands between its delimiters, before the
/// first and after the last. A word with `n` delimiters has `n + 1` fields,
/// some of which may be empty.
pub open spec fn fields(l: Seq<char>) -> Seq<Seq<char>>
    decreases l.len(),
{
    let n = field_len(l) as int;
    if n >= l.len() {
        seq![l]
    } else {
        seq![l.take(n)] + fields(l.skip(n + 1))
    }
}

/// The position of the first delimiter in `from..to`, or `to`.
pub fn field_end(text: &Vec<char>, from: usize, to: usize) -> (end: usize)
    requires
        from <= to <= text@.len(),
    ensures
        end == from + field_len(text@.subrange(from as int, to as int)),
        from <= end <= to,
{
    let mut i: usize = from;
    while i < to && !(text[i] == 'x' || text[i] == '+')
        invariant
            from <= i <= to <= text@.len(),
            field_len(text@.subrange(from as int, to as int)) == (i - from) + field_len(
                text@.subrange(i as int, to as int),
            ),
        decreases to - i,
    {
        assert(text@.subrange(i as int, to as int).skip(1) =~= text@.subrange(i + 1, to as int));
        i += 1;
    }
    i
}

/// The places of the fields of a word.
pub fn split_fields(text: &Vec<char>, word: Span) -> (spans: Vec<Span>)
    requires
        word.within(text@.len()),
    ensures
        spans_cover(text@, spans@, fields(word.of(text@))),
{
    let mut spans: Vec<Span> = Vec::new();
    let mut pos: usize = word.start;
    let to: usize = word.end;
    let ghost mut done: Seq<Seq<char>> = Seq::empty();
    loop
        invariant_except_break
            spans_cover(text@, spans@, done),
            fields(word.of(text@)) == done + fields(text@.subrange(pos as int, to as int)),
        invariant
            word.start <= pos <= to <= text@.len(),
            to == word.end,
        ensures
            spans_cover(text@, spans@, fields(word.of(text@))),
        decreases to - pos,
    {
        let ghost rest = text@.subrange(pos as int, to as int);
        let end = field_end(text, pos, to);
        let span = Span { start: pos, end };
        let ghost n = (end - pos) as int;
        if end == to {
            proof {
                assert(span.of(text@) =~= rest);
                assert(fields(rest) =~= seq![rest]);
                assert(done + seq![rest] =~= done.push(rest));
            }
            spans.push(span);
            break ;
        }
        proof {
            assert(rest.take(n) =~= span.of(text@));
            assert(rest.skip(n + 1) =~= text@.subrange(end + 1, to as int));
            assert(fields(word.of(text@)) =~= done.push(span.of(text@)) + fields(
                text@.subrange(end + 1, to as int),
            ));
            done = done.push(span.of(text@));
        }
        spans.push(span);
        pos = end + 1;
    }
    spans
}

/// `s` begins with `word`.
pub open spec fn starts_with(s: Seq<char>, word: Seq<char>) -> bool {
    word.len() <= s.len() && s.take(word.len() as int) == word
}

/// `s` ends with `word`.
pub open spec fn ends_with(s: Seq<char>, word: Seq<char>) -> bool {
    word.len() <= s.len() && s.skip(s.len() - word.len()) == word
}

/// Whether the span holds exactly the characters of `word`.
pub fn span_is(text: &Vec<char>, span: Span, word: &str) -> (r: bool)
    requires
        span.within(text@.len()),
    ensures
        r == (span.of(text@) == word@),
{
    let n = word.unicode_len();
    if span.len() != n {
        return false;
    }
    let mut i: usize = 0;
    while i < n
        invariant
            i <= n,
            n == word@.len(),
            span.within(text@.len()),
            span.end - span.start == n,
            forall|k: int| 0 <= k < i ==> text@[span.start + k] == word@[k],
        decreases n - i,
    {
        if text[span.start + i] != word.get_char(i) {
            assert(span.of(text@)[i as int] != word@[i as int]);
            return false;
        }
        i += 1;
    }
    assert(span.of(text@) =~= word@);
    true
}

/// Whether the characters of the span begin with `word`.
pub fn span_starts_with(text: &Vec<char>, span: Span, word: &str) -> (r: bool)
    requires
        span.within(text@.len()),
    ensures
        r == starts_with(span.of(text@), word@),
{
    let n = word.unicode_len();
    if span.len() < n {
        return false;
    }
    let head = Span { start: span.start, end: span.start + n };
    assert(head.of(text@) =~= span.of(text@).take(n as int));
    span_is(text, head, word)
}

/// Whether the characters of the span end with `word`.
pub fn span_ends_with(text: &Vec<char>, span: Span, word: &str) -> (r: bool)
    requires
        span.within(text@.len()),
    ensures
        r == ends_with(span.of(text@), word@),
{
    let n = word.unicode_len();
    if span.len() < n {
        return false;
    }
    let tail = Span { start: span.end - n, end: span.end };
    assert(tail.of(text@) =~= span.of(text@).skip(span.of(text@).len() - n));
    span_is(text, tail, word)
}

/// The characters of a span as a string of its own.
pub fn span_string(source: &str, span: Span) -> (r: String)
    requires
        span.within(source@.len()),
    ensures
        r@ == span.of(source@),
{
    source.substring_char(span.start, span.end).to_owned()
}

/// The order of strings: by the code points of their characters, the first
/// difference deciding, a string before every longer one that it begins.
pub open spec fn lex_le(a: Seq<char>, b: Seq<char>) -> bool
    decreases a.len(),
{
    if a.len() == 0 {
        true
    } else if b.len() == 0 {
        false
    } else if a[0] != b[0] {
        (a[0] as u32) < (b[0] as u32)
    } else {
        lex_le(a.skip(1), b.skip(1))
    }
}

/// Different characters have different code points.
proof fn lemma_code_points_differ(x: char, y: char)
    requires
        x != y,
    ensures
        x as u32 != y as u32,
{
}

/// Of two strings one comes no later than the other.
pub proof fn lemma_lex_le_total(a: Seq<char>, b: Seq<char>)
    ensures
        lex_le(a, b) || lex_le(b, a),
    decreases a.len(),
{
    if a.len() > 0 && b.len() > 0 {
        if a[0] == b[0] {
            lemma_lex_le_total(a.skip(1), b.skip(1));
        } else {
            lemma_code_points_differ(a[0], b[0]);
        }
    }
}

/// The order of strings is transitive.
pub proof fn lemma_lex_le_transitive(a: Seq<char>, b: Seq<char>, c: Seq<char>)
    requires
        lex_le(a, b),
        lex_le(b, c),
    ensures
        lex_le(a, c),
    decreases a.len(),
{
    if a.len() > 0 && b.len() > 0 && c.len() > 0 && a[0] == b[0] && b[0] == c[0] {
        lemma_lex_le_transitive(a.skip(1), b.skip(1), c.skip(1));
    }
}

/// Two strings that each come no later than the other are the same.
pub proof fn lemma_lex_le_antisymmetric(a: Seq<char>, b: Seq<char>)
    requires
        lex_le(a, b),
        lex_le(b, a),
    ensures
        a == b,
    decreases a.len(),
{
    if a.len() > 0 && b.len() > 0 {
        lemma_lex_le_antisymmetric(a.skip(1), b.skip(1));
        assert(a =~= seq![a[0]] + a.skip(1));
        assert(b =~= seq![b[0]] + b.skip(1));
    } else {
        assert(a =~= b);
    }
}

/// The strings stand in order.
pub open spec fn is_sorted(names: Seq<Seq<char>>) -> bool {
    forall|i: int, j: int| 0 <= i < j < names.len() ==> lex_le(#[trigger] names[i], #[trigger] names[j])
}

/// Strings in order are fixed by what they are and how often each occurs:
/// two sorted lists of the same strings are the same list.
pub proof fn lemma_sorted_names_unique(a: Seq<Seq<char>>, b: Seq<Seq<char>>)
    requires
        is_sorted(a),
        is_sorted(b),
        a.to_multiset() == b.to_multiset(),
    ensures
        a == b,
{
    let leq = |x: Seq<char>, y: Seq<char>| lex_le(x, y);
    assert(vstd::relations::total_ordering(leq)) by {
        assert forall|x: Seq<char>| #[trigger] leq(x, x) by {
            lemma_lex_le_total(x, x);
        }
        assert forall|x: Seq<char>, y: Seq<char>| #[trigger]
            leq(x, y) && #[trigger] leq(y, x) implies x == y by {
            lemma_lex_le_antisymmetric(x, y);
        }
        assert forall|x: Seq<char>, y: Seq<char>, z: Seq<char>| #[trigger]
            leq(x, y) && #[trigger] leq(y, z) implies leq(x, z) by {
            lemma_lex_le_transitive(x, y, z);
        }
        assert forall|x: Seq<char>, y: Seq<char>| #[trigger] leq(x, y) || #[trigger] leq(y, x) by {
            lemma_lex_le_total(x, y);
        }
    }
    assert(vstd::relations::sorted_by(a, leq));
    assert(vstd::relations::sorted_by(b, leq));
    vstd::seq_lib::lemma_sorted_unique(a, b, leq);
}

/// The characters that each of the spans covers.
pub open spec fn pieces(text: Seq<char>, spans: Seq<Span>) -> Seq<Seq<char>> {
    Seq::new(spans.len(), |i: int| spans[i].of(text))
}

/// Whether the characters of `a` come no later in the order of strings than
/// those of `b`.
pub fn span_le(text: &Vec<char>, a: Span, b: Span) -> (r: bool)
    requires
        a.within(text@.len()),
        b.within(text@.len()),
    ensures
        r == lex_le(a.of(text@), b.of(text@)),
{
    let mut i: usize = a.start;
    let mut j: usize = b.start;
    loop
        invariant
            a.within(text@.len()),
            b.within(text@.len()),
            a.start <= i <= a.end,
            b.start <= j <= b.end,
            lex_le(a.of(text@), b.of(text@)) == lex_le(
                text@.subrange(i as int, a.end as int),
                text@.subrange(j as int, b.end as int),
            ),
        decreases a.end - i,
    {
        if i == a.end {
            return true;
        }
        if j == b.end {
            return false;
        }
        let x = text[i];
        let y = text[j];
        if x != y {
            return (x as u32) < (y as u32);
        }
        assert(text@.subrange(i as int, a.end as int).skip(1) =~= text@.subrange(
            i + 1,
            a.end as int,
        ));
        assert(text@.subrange(j as int, b.end as int).skip(1) =~= text@.subrange(
            j + 1,
            b.end as int,
        ));
        i += 1;
        j += 1;
    }
}

/// The spans in the order of the strings that they cover.
pub fn sort_spans(text: &Vec<char>, spans: &Vec<Span>) -> (sorted: Vec<Span>)
    requires
        all_within(spans@, text@.len()),
    ensures
        all_within(sorted@, text@.len()),
        is_sorted(pieces(text@, sorted@)),
        pieces(text@, sorted@).to_multiset() == pieces(text@, spans@).to_multiset(),
{
    let mut sorted: Vec<Span> = Vec::new();
    let mut i: usize = 0;
    assert(pieces(text@, sorted@) =~= pieces(text@, spans@.take(0)));
    while i < spans.len()
        invariant
            i <= spans@.len(),
            all_within(spans@, text@.len()),
            all_within(sorted@, text@.len()),
            is_sorted(pieces(text@, sorted@)),
            pieces(text@, sorted@).to_multiset() == pieces(text@, spans@.take(i as int)).to_multiset(),
        decreases spans@.len() - i,
    {
        let span = spans[i];
        let ghost before = sorted@;
        let mut p: usize = 0;
        while p < sorted.len() && span_le(text, sorted[p], span)
            invariant
                p <= sorted@.len(),
                span.within(text@.len()),
                all_within(sorted@, text@.len()),
                forall|k: int| 0 <= k < p ==> lex_le((#[trigger] sorted@[k]).of(text@), span.of(text@)),
            decreases sorted@.len() - p,
        {
            p += 1;
        }
        sorted.insert(p, span);
        proof {
            let old_names = pieces(text@, before);
            let new_names = pieces(text@, sorted@);
            let name = span.of(text@);
            assert(new_names =~= old_names.insert(p as int, name));
            vstd::seq_lib::to_multiset_insert(old_names, p as int, name);
            assert(pieces(text@, spans@.take(i + 1)) =~= pieces(text@, spans@.take(i as int)).push(
                name,
            ));
            vstd::seq_lib::to_multiset_build(pieces(text@, spans@.take(i as int)), name);
            assert forall|a: int, b: int| 0 <= a < b < new_names.len() implies lex_le(
                #[trigger] new_names[a],
                #[trigger] new_names[b],
            ) by {
                if b < p {
                    assert(new_names[a] == old_names[a] && new_names[b] == old_names[b]);
                } else if b == p {
                    assert(new_names[a] == before[a].of(text@));
                } else if a == p {
                    // the entry that stopped the search comes later than the new one
                    assert(new_names[b] == old_names[b - 1]);
                    assert(old_names[p as int] == before[p as int].of(text@));
                    lemma_lex_le_total(name, old_names[p as int]);
                    if b - 1 > p {
                        assert(lex_le(old_names[p as int], old_names[b - 1]));
                        lemma_lex_le_transitive(name, old_names[p as int], old_names[b - 1]);
                    }
                } else if a < p {
                    assert(new_names[a] == old_names[a] && new_names[b] == old_names[b - 1]);
                } else {
                    assert(new_names[a] == old_names[a - 1] && new_names[b] == old_names[b - 1]);
                }
            }
        }
        i += 1;
    }
    assert(spans@.take(i as int) =~= spans@);
    sorted
}

} // verus!
