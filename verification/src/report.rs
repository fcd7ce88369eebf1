//! The state report of the display tool, read into the live outputs and
//! the names of all ports.
//!
//! A report starts with screen headers. Below them each port has a line
//! that is not indented, followed by indented lines with its properties.
//! Among those, for a connected port, stands the marker `EDID:` and under
//! it the sixteen lines of the monitor's descriptor block in hexadecimal.

use crate::decimal::{parse_number, read_number};
use crate::edid::{decode_hex, edid_identity, hex_bytes, is_hex_text, read_identity};
use crate::model::{
    names_view, Geometry, Orientation, Output, OutputNames, OutputView, ParseError,
};
use crate::outputs::{inserted, ConnectedOutputs, Entries};
use crate::text::{
    all_within, chars_of, ends_with, fields, is_indented, is_sorted, lines, pieces, sort_spans,
    span_ends_with, span_is, span_starts_with, span_string, split_fields, split_lines,
    split_words, starts_with, starts_with_space, tokens, trim, trim_span, Span,
};
use vstd::prelude::*;

verus! {

/// Number of lines that hold an EDID block.
pub const EDID_LINES: usize = 16;

/// Number of characters in the hexadecimal text of an EDID block.
pub const EDID_CHARS: usize = 512;

/// The rotation that a word of the report names. A word that names none
/// stands for `Normal`.
pub open spec fn orientation_of(word: Seq<char>) -> Orientation {
    if word == "normal"@ {
        Orientation::Normal
    } else if word == "left"@ {
        Orientation::Left
    } else if word == "inverted"@ {
        Orientation::Inverted
    } else if word == "right"@ {
        Orientation::Right
    } else {
        Orientation::Normal
    }
}

/// The four numbers of a geometry word `WIDTHxHEIGHT+X+Y`: its first four
/// fields, each read as a number.
pub open spec fn placement(word: Seq<char>) -> Option<(usize, usize, usize, usize)> {
    let f = fields(word);
    if f.len() >= 4 && parse_number(f[0]).is_some() && parse_number(f[1]).is_some()
        && parse_number(f[2]).is_some() && parse_number(f[3]).is_some() {
        Some(
            (
                parse_number(f[0]).unwrap(),
                parse_number(f[1]).unwrap(),
                parse_number(f[2]).unwrap(),
                parse_number(f[3]).unwrap(),
            ),
        )
    } else {
        None
    }
}

/// The word ends a group in parentheses.
pub open spec fn closes_group(word: Seq<char>) -> bool {
    word.len() > 0 && word.last() == ')'
}

/// What the line of a port says.
pub struct PortLine {
    /// The port's label.
    pub label: Seq<char>,
    /// The label belongs to the names of all ports.
    pub listed: bool,
    /// The port is connected, so that its EDID block follows.
    pub active: bool,
    /// Where the port stands on the desktop, if it is part of it.
    pub geometry: Option<Geometry>,
}

/// Reads the words of a port's line.
///
/// The first word is the label, the second the state. A label is listed
/// where the state ends in `connected` and the label does not begin with
/// `VIRTUAL`; the port is active where the state is `connected` itself.
/// Only an active port is read further: an optional word `primary`, then
/// either `(normal`, for a port outside the desktop, or the geometry word,
/// one more word, and the rotation. The rotation is the word after that
/// one where that one closes a group in parentheses, else that one itself.
pub open spec fn port_line(words: Seq<Seq<char>>) -> Result<PortLine, ParseError> {
    if words.len() < 2 {
        Err(ParseError::MissingToken)
    } else {
        let label = words[0];
        let synthetic = starts_with(label, "VIRTUAL"@);
        let listed = ends_with(words[1], "connected"@) && !synthetic;
        let active = words[1] == "connected"@ && !synthetic;
        if !active {
            Ok(PortLine { label, listed, active, geometry: None })
        } else if words.len() < 3 {
            Err(ParseError::MissingToken)
        } else {
            let is_primary = words[2] == "primary"@;
            let at: int = if is_primary {
                3
            } else {
                2
            };
            if words.len() <= at {
                Err(ParseError::MissingToken)
            } else if words[at] == "(normal"@ {
                Ok(PortLine { label, listed, active, geometry: None })
            } else {
                match placement(words[at]) {
                    None => Err(ParseError::BadGeometry),
                    Some((width, height, x_offset, y_offset)) => {
                        if words.len() <= at + 1 {
                            Err(ParseError::MissingToken)
                        } else if closes_group(words[at + 1]) && words.len() <= at + 2 {
                            Err(ParseError::MissingToken)
                        } else {
                            let word = if closes_group(words[at + 1]) {
                                words[at + 2]
                            } else {
                                words[at + 1]
                            };
                            Ok(
                                PortLine {
                                    label,
                                    listed,
                                    active,
                                    geometry: Some(
                                        Geometry {
                                            width,
                                            height,
                                            x_offset,
                                            y_offset,
                                            orientation: orientation_of(word),
                                            is_primary,
                                        },
                                    ),
                                },
                            )
                        }
                    },
                }
            }
        }
    }
}

/// The line at or after `from` that holds the EDID marker, if only indented
/// lines stand before it.
pub open spec fn find_marker(ls: Seq<Seq<char>>, from: int) -> Option<int>
    decreases ls.len() - from,
{
    if from < 0 || from >= ls.len() || !is_indented(ls[from]) {
        None
    } else if trim(ls[from]) == "EDID:"@ {
        Some(from)
    } else {
        find_marker(ls, from + 1)
    }
}

/// The marker, where it is found, stands on an indented line at or after
/// the line at which the search began.
pub proof fn lemma_find_marker(ls: Seq<Seq<char>>, from: int)
    ensures
        find_marker(ls, from) matches Some(m) ==> from <= m < ls.len() && is_indented(ls[m])
            && trim(ls[m]) == "EDID:"@,
    decreases ls.len() - from,
{
    if from < 0 || from >= ls.len() || !is_indented(ls[from]) {
    } else if trim(ls[from]) == "EDID:"@ {
    } else {
        lemma_find_marker(ls, from + 1);
    }
}

/// The `count` lines from `from` on, each without the whitespace around
/// it, one after the other.
pub open spec fn joined(ls: Seq<Seq<char>>, from: int, count: nat) -> Seq<char>
    decreases count,
{
    if count == 0 {
        Seq::empty()
    } else {
        joined(ls, from, (count - 1) as nat) + trim(ls[from + count - 1])
    }
}

/// What the lines of a connected port give.
pub struct PortBlock {
    /// The identity of the monitor.
    pub name: Seq<char>,
    /// The output as it is entered under that identity.
    pub output: OutputView,
    /// The line at which reading goes on.
    pub next: int,
}

/// Reads the lines below the line `at` of a connected port: the marker,
/// the sixteen lines of hexadecimal text under it, and from their bytes the
/// identity of the monitor.
pub open spec fn port_block(ls: Seq<Seq<char>>, at: int, line: PortLine) -> Result<
    PortBlock,
    ParseError,
> {
    match find_marker(ls, at + 1) {
        None => Err(ParseError::MissingEdid),
        Some(marker) => {
            if marker + EDID_LINES >= ls.len() {
                Err(ParseError::EdidLength)
            } else {
                let hex = joined(ls, marker + 1, EDID_LINES as nat);
                if hex.len() != EDID_CHARS {
                    Err(ParseError::EdidLength)
                } else if !is_hex_text(hex) {
                    Err(ParseError::EdidHex)
                } else {
                    match edid_identity(hex_bytes(hex)) {
                        Err(e) => Err(e),
                        Ok(identity) => Ok(
                            PortBlock {
                                name: identity.product_name,
                                output: OutputView {
                                    edid: hex,
                                    connection_name: line.label,
                                    geometry: line.geometry,
                                },
                                next: marker + EDID_LINES + 1,
                            },
                        ),
                    }
                }
            }
        },
    }
}

/// What a report holds.
pub struct Report {
    /// The connected outputs under the identities of their monitors.
    pub outputs: Entries,
    /// The labels of the listed ports, as they follow each other.
    pub names: Seq<Seq<char>>,
}

/// Reads the ports from line `at` on, after `so_far` was read. Indented
/// lines on the way belong to a port already read and are passed over.
pub open spec fn read_ports(ls: Seq<Seq<char>>, at: int, so_far: Report) -> Result<
    Report,
    ParseError,
>
    decreases ls.len() - at,
{
    if at < 0 || at >= ls.len() {
        Ok(so_far)
    } else if is_indented(ls[at]) {
        read_ports(ls, at + 1, so_far)
    } else {
        match port_line(tokens(ls[at])) {
            Err(e) => Err(e),
            Ok(line) => {
                let names = if line.listed {
                    so_far.names.push(line.label)
                } else {
                    so_far.names
                };
                if !line.active {
                    read_ports(ls, at + 1, Report { outputs: so_far.outputs, names })
                } else {
                    match port_block(ls, at, line) {
                        Err(e) => Err(e),
                        Ok(block) => {
                            proof {
                                lemma_find_marker(ls, at + 1);
                            }
                            read_ports(
                                ls,
                                block.next,
                                Report {
                                    outputs: inserted(so_far.outputs, block.name, block.output),
                                    names,
                                },
                            )
                        },
                    }
                }
            },
        }
    }
}

/// The first line at or after `from` that is no screen header.
pub open spec fn first_port_line(ls: Seq<Seq<char>>, from: int) -> int
    decreases ls.len() - from,
{
    if 0 <= from < ls.len() && starts_with(ls[from], "Screen"@) {
        first_port_line(ls, from + 1)
    } else {
        from
    }
}

/// What a report says: its ports, read from the first line below the
/// screen headers on. A report without such a line says nothing.
pub open spec fn parse_report(report: Seq<char>) -> Result<Report, ParseError> {
    let ls = lines(report);
    let start = first_port_line(ls, 0);
    if start >= ls.len() {
        Err(ParseError::NoOutputs)
    } else {
        read_ports(ls, start, Report { outputs: Seq::empty(), names: Seq::empty() })
    }
}

/// The rotation that the word at `word` names.
fn read_orientation(text: &Vec<char>, word: Span) -> (r: Orientation)
    requires
        word.within(text@.len()),
    ensures
        r == orientation_of(word.of(text@)),
{
    proof {
        reveal_strlit("normal");
        reveal_strlit("left");
        reveal_strlit("inverted");
        reveal_strlit("right");
        assert("normal"@.len() == 6 && "left"@.len() == 4 && "inverted"@.len() == 8
            && "right"@.len() == 5);
    }
    if span_is(text, word, "left") {
        Orientation::Left
    } else if span_is(text, word, "inverted") {
        Orientation::Inverted
    } else if span_is(text, word, "right") {
        Orientation::Right
    } else {
        Orientation::Normal
    }
}

/// The rotation that a word names: `left`, `inverted` or `right`, and
/// `Normal` for `normal` and for every other word.
pub fn orientation_from_word(word: &str) -> (r: Orientation)
    ensures
        r == orientation_of(word@),
        word@ != "left"@ && word@ != "inverted"@ && word@ != "right"@ ==> r == Orientation::Normal,
{
    let text = crate::text::chars_of(word);
    let whole = Span { start: 0, end: text.len() };
    assert(whole.of(text@) =~= word@);
    read_orientation(&text, whole)
}

/// The four numbers of the geometry word at `word`.
fn read_placement(text: &Vec<char>, word: Span) -> (r: Option<(usize, usize, usize, usize)>)
    requires
        word.within(text@.len()),
    ensures
        r == placement(word.of(text@)),
{
    let parts = split_fields(text, word);
    if parts.len() < 4 {
        return None;
    }
    let width = read_number(text, parts[0]);
    let height = read_number(text, parts[1]);
    let x_offset = read_number(text, parts[2]);
    let y_offset = read_number(text, parts[3]);
    match (width, height, x_offset, y_offset) {
        (Some(w), Some(h), Some(x), Some(y)) => Some((w, h, x, y)),
        _ => None,
    }
}

/// The line of a port as the reader holds it: the label by its place.
#[derive(Clone, Copy)]
struct PortHeader {
    label: Span,
    listed: bool,
    active: bool,
    geometry: Option<Geometry>,
}

impl PortHeader {
    /// What the header says, with the label by its characters.
    spec fn line(self, text: Seq<char>) -> PortLine {
        PortLine {
            label: self.label.of(text),
            listed: self.listed,
            active: self.active,
            geometry: self.geometry,
        }
    }
}

/// Reads the words of a port's line, as [`port_line`] states it.
fn read_port_line(text: &Vec<char>, words: &Vec<Span>) -> (r: Result<PortHeader, ParseError>)
    requires
        all_within(words@, text@.len()),
    ensures
        match r {
            Ok(header) => header.label.within(text@.len()) && port_line(pieces(text@, words@))
                == Ok::<PortLine, ParseError>(header.line(text@)),
            Err(e) => port_line(pieces(text@, words@)) == Err::<PortLine, ParseError>(e),
        },
{
    let ghost ws = pieces(text@, words@);
    if words.len() < 2 {
        return Err(ParseError::MissingToken);
    }
    let label = words[0];
    let state = words[1];
    assert(ws[0] == label.of(text@) && ws[1] == state.of(text@));
    let synthetic = span_starts_with(text, label, "VIRTUAL");
    let listed = span_ends_with(text, state, "connected") && !synthetic;
    let active = span_is(text, state, "connected") && !synthetic;
    if !active {
        return Ok(PortHeader { label, listed, active, geometry: None });
    }
    if words.len() < 3 {
        return Err(ParseError::MissingToken);
    }
    assert(ws[2] == words@[2].of(text@));
    let is_primary = span_is(text, words[2], "primary");
    let at: usize = if is_primary {
        3
    } else {
        2
    };
    if words.len() <= at {
        return Err(ParseError::MissingToken);
    }
    assert(ws[at as int] == words@[at as int].of(text@));
    if span_is(text, words[at], "(normal") {
        return Ok(PortHeader { label, listed, active, geometry: None });
    }
    let (width, height, x_offset, y_offset) = match read_placement(text, words[at]) {
        Some(numbers) => numbers,
        None => {
            return Err(ParseError::BadGeometry);
        },
    };
    if words.len() <= at + 1 {
        return Err(ParseError::MissingToken);
    }
    let skipped = words[at + 1];
    assert(ws[at + 1] == skipped.of(text@));
    let closes = skipped.start < skipped.end && text[skipped.end - 1] == ')';
    assert(closes == closes_group(skipped.of(text@)));
    let word = if closes {
        if words.len() <= at + 2 {
            return Err(ParseError::MissingToken);
        }
        assert(ws[at + 2] == words@[at + 2].of(text@));
        words[at + 2]
    } else {
        skipped
    };
    let orientation = read_orientation(text, word);
    Ok(
        PortHeader {
            label,
            listed,
            active,
            geometry: Some(
                Geometry { width, height, x_offset, y_offset, orientation, is_primary },
            ),
        },
    )
}

/// The line of the EDID marker, searched from line `from` on.
fn find_edid_marker(text: &Vec<char>, line_spans: &Vec<Span>, from: usize) -> (r: Option<usize>)
    requires
        all_within(line_spans@, text@.len()),
    ensures
        match r {
            Some(m) => find_marker(pieces(text@, line_spans@), from as int) == Some(m as int),
            None => find_marker(pieces(text@, line_spans@), from as int).is_none(),
        },
{
    let ghost ls = pieces(text@, line_spans@);
    let mut i: usize = from;
    while i < line_spans.len()
        invariant
            from <= i,
            all_within(line_spans@, text@.len()),
            ls == pieces(text@, line_spans@),
            find_marker(ls, from as int) == find_marker(ls, i as int),
        decreases line_spans@.len() - i,
    {
        let line = line_spans[i];
        assert(ls[i as int] == line.of(text@));
        if !starts_with_space(text, line) {
            return None;
        }
        if span_is(text, trim_span(text, line), "EDID:") {
            return Some(i);
        }
        i += 1;
    }
    None
}

/// The hexadecimal text on the sixteen lines from `from` on.
fn join_lines(source: &str, text: &Vec<char>, line_spans: &Vec<Span>, from: usize) -> (r: String)
    requires
        source@ == text@,
        all_within(line_spans@, text@.len()),
        from + EDID_LINES <= line_spans@.len(),
    ensures
        r@ == joined(pieces(text@, line_spans@), from as int, EDID_LINES as nat),
{
    let ghost ls = pieces(text@, line_spans@);
    let mut out = String::new();
    let mut k: usize = 0;
    let count = line_spans.len();
    while k < EDID_LINES
        invariant
            k <= EDID_LINES,
            count == line_spans@.len(),
            source@ == text@,
            all_within(line_spans@, text@.len()),
            from + EDID_LINES <= line_spans@.len(),
            ls == pieces(text@, line_spans@),
            out@ == joined(ls, from as int, k as nat),
        decreases EDID_LINES - k,
    {
        let line = line_spans[from + k];
        assert(ls[from + k] == line.of(text@));
        let inner = trim_span(text, line);
        out.append(source.substring_char(inner.start, inner.end));
        k += 1;
    }
    out
}

/// Reads the lines below the line `at` of a connected port, as
/// [`port_block`] states it.
fn read_port_block(
    source: &str,
    text: &Vec<char>,
    line_spans: &Vec<Span>,
    at: usize,
    header: PortHeader,
) -> (r: Result<(String, Output, usize), ParseError>)
    requires
        source@ == text@,
        all_within(line_spans@, text@.len()),
        at < line_spans@.len(),
        header.label.within(text@.len()),
    ensures
        match r {
            Ok((name, output, next)) => at < next <= line_spans@.len() && port_block(
                pieces(text@, line_spans@),
                at as int,
                header.line(text@),
            ) == Ok::<PortBlock, ParseError>(
                PortBlock { name: name@, output: output@, next: next as int },
            ),
            Err(e) => port_block(pieces(text@, line_spans@), at as int, header.line(text@))
                == Err::<PortBlock, ParseError>(e),
        },
{
    let ghost ls = pieces(text@, line_spans@);
    proof {
        lemma_find_marker(ls, at + 1);
    }
    let count = line_spans.len();
    let marker = match find_edid_marker(text, line_spans, at + 1) {
        Some(m) => m,
        None => {
            return Err(ParseError::MissingEdid);
        },
    };
    if count - marker <= EDID_LINES {
        return Err(ParseError::EdidLength);
    }
    let hex = join_lines(source, text, line_spans, marker + 1);
    if hex.as_str().unicode_len() != EDID_CHARS {
        return Err(ParseError::EdidLength);
    }
    let bytes = match decode_hex(hex.as_str()) {
        Ok(bytes) => bytes,
        Err(e) => {
            return Err(e);
        },
    };
    let identity = match read_identity(bytes.as_slice()) {
        Ok(identity) => identity,
        Err(e) => {
            return Err(e);
        },
    };
    let output = Output {
        edid: hex,
        connection_name: span_string(source, header.label),
        geometry: header.geometry,
    };
    Ok((identity.product_name, output, marker + EDID_LINES + 1))
}

/// Reads a report into the live outputs and the names of all ports.
///
/// On success the outputs are those of [`parse_report`], and the names are
/// its names in the order of strings. Each name is then the label of a
/// port that the report lists, each output that of a port that it shows
/// connected. A report that cannot be read gives the error that
/// [`parse_report`] gives, and nothing of what was read before.
pub fn parse_xrandr(s: &str) -> (r: Result<(ConnectedOutputs, OutputNames), ParseError>)
    ensures
        match r {
            Ok((outputs, names)) => {
                &&& parse_report(s@) matches Ok(report)
                &&& outputs@ == report.outputs
                &&& is_sorted(names_view(names@))
                &&& names_view(names@).to_multiset() == report.names.to_multiset()
                &&& names_listed(lines(s@), names_view(names@))
                &&& outputs_connected(lines(s@), outputs@)
            },
            Err(e) => parse_report(s@) == Err::<Report, ParseError>(e),
        },
{
    let text = chars_of(s);
    let line_spans = split_lines(&text);
    let count = line_spans.len();
    let ghost ls = lines(text@);
    assert(pieces(text@, line_spans@) =~= ls);
    let mut at: usize = 0;
    while at < count && span_starts_with(&text, line_spans[at], "Screen")
        invariant
            at <= count,
            count == line_spans@.len(),
            all_within(line_spans@, text@.len()),
            pieces(text@, line_spans@) == ls,
            first_port_line(ls, 0) == first_port_line(ls, at as int),
        decreases count - at,
    {
        assert(ls[at as int] == line_spans@[at as int].of(text@));
        at += 1;
    }
    assert(at < count ==> ls[at as int] == line_spans@[at as int].of(text@));
    if at >= count {
        return Err(ParseError::NoOutputs);
    }
    let mut outputs = ConnectedOutputs::new();
    let mut listed: Vec<Span> = Vec::new();
    assert(pieces(text@, listed@) =~= Seq::<Seq<char>>::empty());
    while at < count
        invariant
            at <= count,
            count == line_spans@.len(),
            text@ == s@,
            all_within(line_spans@, text@.len()),
            all_within(listed@, text@.len()),
            pieces(text@, line_spans@) == ls,
            parse_report(s@) == read_ports(
                ls,
                at as int,
                Report { outputs: outputs@, names: pieces(text@, listed@) },
            ),
        decreases count - at,
    {
        let line = line_spans[at];
        assert(ls[at as int] == line.of(text@));
        let ghost so_far = Report { outputs: outputs@, names: pieces(text@, listed@) };
        if starts_with_space(&text, line) {
            at += 1;
        } else {
            let words = split_words(&text, line);
            assert(pieces(text@, words@) =~= tokens(ls[at as int]));
            let header = match read_port_line(&text, &words) {
                Ok(header) => header,
                Err(e) => {
                    return Err(e);
                },
            };
            if header.listed {
                listed.push(header.label);
                assert(pieces(text@, listed@) =~= so_far.names.push(header.label.of(text@)));
            }
            if !header.active {
                at += 1;
            } else {
                let (name, output, next) = match read_port_block(
                    s,
                    &text,
                    &line_spans,
                    at,
                    header,
                ) {
                    Ok(block) => block,
                    Err(e) => {
                        return Err(e);
                    },
                };
                outputs.insert(name, output);
                at = next;
            }
        }
    }
    let sorted = sort_spans(&text, &listed);
    let mut names: Vec<String> = Vec::new();
    let mut k: usize = 0;
    assert(names_view(names@) =~= pieces(text@, sorted@.take(0)));
    while k < sorted.len()
        invariant
            k <= sorted@.len(),
            text@ == s@,
            all_within(sorted@, text@.len()),
            names@.len() == k,
            names_view(names@) == pieces(text@, sorted@.take(k as int)),
        decreases sorted@.len() - k,
    {
        let ghost before = names_view(names@);
        names.push(span_string(s, sorted[k]));
        assert(names_view(names@) =~= pieces(text@, sorted@.take(k + 1))) by {
            assert forall|j: int| 0 <= j < k implies names_view(names@)[j] == sorted@[j].of(
                text@,
            ) by {
                assert(names_view(names@)[j] == before[j]);
                assert(before[j] == sorted@.take(k as int)[j].of(text@));
            }
        }
        k += 1;
    }
    assert(sorted@.take(k as int) =~= sorted@);
    proof {
        let report = parse_report(s@).unwrap();
        let given = names_view(names@);
        lemma_names_are_listed_ports(s@);
        lemma_outputs_are_connected_ports(s@);
        assert forall|j: int| 0 <= j < given.len() implies is_listed(
            lines(s@),
            #[trigger] given[j],
        ) by {
            vstd::seq_lib::to_multiset_contains(given, given[j]);
            vstd::seq_lib::to_multiset_contains(report.names, given[j]);
            assert(given.contains(given[j]));
            let at = choose|at: int| 0 <= at < report.names.len() && report.names[at] == given[j];
            assert(is_listed(lines(s@), report.names[at]));
        }
    }
    Ok((outputs, names))
}

/// Line `at` is the line of a port labelled `label` whose state ends in
/// `connected`, and the label does not begin with `VIRTUAL`.
pub open spec fn lists_port(ls: Seq<Seq<char>>, at: int, label: Seq<char>) -> bool {
    &&& 0 <= at < ls.len()
    &&& !is_indented(ls[at])
    &&& tokens(ls[at]).len() >= 2
    &&& tokens(ls[at])[0] == label
    &&& ends_with(tokens(ls[at])[1], "connected"@)
    &&& !starts_with(label, "VIRTUAL"@)
}

/// Line `at` is the line of a port labelled `label` whose state is
/// `connected`, and the label does not begin with `VIRTUAL`.
pub open spec fn connects_port(ls: Seq<Seq<char>>, at: int, label: Seq<char>) -> bool {
    &&& 0 <= at < ls.len()
    &&& !is_indented(ls[at])
    &&& tokens(ls[at]).len() >= 2
    &&& tokens(ls[at])[0] == label
    &&& tokens(ls[at])[1] == "connected"@
    &&& !starts_with(label, "VIRTUAL"@)
}

/// Some line lists a port labelled `label`.
pub open spec fn is_listed(ls: Seq<Seq<char>>, label: Seq<char>) -> bool {
    exists|at: int| lists_port(ls, at, label)
}

/// Some line has a connected port labelled `label`.
pub open spec fn is_connected(ls: Seq<Seq<char>>, label: Seq<char>) -> bool {
    exists|at: int| connects_port(ls, at, label)
}

/// Every name is the label of a listed port.
pub open spec fn names_listed(ls: Seq<Seq<char>>, names: Seq<Seq<char>>) -> bool {
    forall|k: int| 0 <= k < names.len() ==> is_listed(ls, #[trigger] names[k])
}

/// Every output is that of a connected port.
pub open spec fn outputs_connected(ls: Seq<Seq<char>>, outputs: Entries) -> bool {
    forall|k: int|
        0 <= k < outputs.len() ==> is_connected(ls, (#[trigger] outputs[k]).1.connection_name)
}

/// Reading on keeps every name the label of a listed port and every
/// output that of a connected port.
proof fn lemma_read_ports_sound(ls: Seq<Seq<char>>, at: int, so_far: Report)
    requires
        names_listed(ls, so_far.names),
        outputs_connected(ls, so_far.outputs),
        read_ports(ls, at, so_far).is_ok(),
    ensures
        names_listed(ls, read_ports(ls, at, so_far).unwrap().names),
        outputs_connected(ls, read_ports(ls, at, so_far).unwrap().outputs),
    decreases ls.len() - at,
{
    if at < 0 || at >= ls.len() {
    } else if is_indented(ls[at]) {
        lemma_read_ports_sound(ls, at + 1, so_far);
    } else {
        let line = port_line(tokens(ls[at])).unwrap();
        let names = if line.listed {
            so_far.names.push(line.label)
        } else {
            so_far.names
        };
        assert(names_listed(ls, names)) by {
            assert forall|k: int| 0 <= k < names.len() implies is_listed(
                ls,
                #[trigger] names[k],
            ) by {
                if k < so_far.names.len() {
                    assert(names[k] == so_far.names[k]);
                } else {
                    assert(lists_port(ls, at, names[k]));
                }
            }
        }
        if !line.active {
            lemma_read_ports_sound(ls, at + 1, Report { outputs: so_far.outputs, names });
        } else {
            let block = port_block(ls, at, line).unwrap();
            let outputs = inserted(so_far.outputs, block.name, block.output);
            assert(outputs_connected(ls, outputs)) by {
                crate::outputs::lemma_find_name(so_far.outputs, block.name);
                assert forall|k: int| 0 <= k < outputs.len() implies is_connected(
                    ls,
                    (#[trigger] outputs[k]).1.connection_name,
                ) by {
                    if outputs[k] == (block.name, block.output) {
                        assert(connects_port(ls, at, outputs[k].1.connection_name));
                    } else {
                        assert(outputs[k] == so_far.outputs[k]);
                    }
                }
            }
            lemma_find_marker(ls, at + 1);
            lemma_read_ports_sound(ls, block.next, Report { outputs, names });
        }
    }
}

/// Every name that a report gives is the label of a port whose state ends
/// in `connected`.
pub proof fn lemma_names_are_listed_ports(report: Seq<char>)
    requires
        parse_report(report).is_ok(),
    ensures
        names_listed(lines(report), parse_report(report).unwrap().names),
{
    let ls = lines(report);
    let nothing = Report { outputs: Seq::empty(), names: Seq::empty() };
    lemma_read_ports_sound(ls, first_port_line(ls, 0), nothing);
}

/// Every output that a report gives belongs to a port whose state is
/// `connected` and whose label does not begin with `VIRTUAL`.
pub proof fn lemma_outputs_are_connected_ports(report: Seq<char>)
    requires
        parse_report(report).is_ok(),
    ensures
        outputs_connected(lines(report), parse_report(report).unwrap().outputs),
{
    let ls = lines(report);
    let nothing = Report { outputs: Seq::empty(), names: Seq::empty() };
    lemma_read_ports_sound(ls, first_port_line(ls, 0), nothing);
}

/// The live state as one report gives it.
pub struct ConfigAndXrandr {
    pub connected_outputs: ConnectedOutputs,
    pub output_names: OutputNames,
}

impl ConfigAndXrandr {
    /// Reads the live state from a report, as [`parse_xrandr`] does.
    pub fn from_report(report: &str) -> (r: Result<ConfigAndXrandr, ParseError>)
        ensures
            match r {
                Ok(live) => {
                    &&& parse_report(report@) matches Ok(read)
                    &&& live.connected_outputs@ == read.outputs
                    &&& is_sorted(names_view(live.output_names@))
                    &&& names_view(live.output_names@).to_multiset() == read.names.to_multiset()
                    &&& names_listed(lines(report@), names_view(live.output_names@))
                    &&& outputs_connected(lines(report@), live.connected_outputs@)
                },
                Err(e) => parse_report(report@) == Err::<Report, ParseError>(e),
            },
    {
        match parse_xrandr(report) {
            Ok((connected_outputs, output_names)) => Ok(
                ConfigAndXrandr { connected_outputs, output_names },
            ),
            Err(e) => Err(e),
        }
    }
}

} // verus!
