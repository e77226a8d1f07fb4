//! The text format: a file is a sequence of lines; `[name]` opens a section,
//! `key=value` adds an occurrence of a key to the open section, and blank
//! lines carry nothing. Lines before the first
//! section are ignored. Repeated keys merge into one value, joined by `", "`;
//! writing a document out splits such a value back into one line per piece.
use vstd::prelude::*;
use crate::document::{
    Document, entries_with_occurrence, section_index, with_section, DocumentView, EntryView, SectionView,
};
use crate::text::{append_decimal, decimal, chars_of, find_char, find_in, trim_bounds, lines_of, split_from, split_value, trim};

verus! {

/// Marker type for the format's reader and writer.
pub struct QuadletParser;

/// Why a text could not be read; lines are numbered from 1.
#[derive(Debug, Clone, Copy, PartialEq, Eq, Structural)]
pub enum ParseError {
    /// The text opens no section.
    EmptyDocument,
    /// A line starting with `[` is not a well-formed `[name]` header.
    MalformedSection { line: usize },
    /// A line inside a section is neither blank, a header, nor `key=value`.
    MalformedEntry { line: usize },
}

/// The description of a parse error: what went wrong, and on which line.
pub open spec fn parse_error_text(e: ParseError) -> Seq<char> {
    match e {
        ParseError::EmptyDocument => "empty or invalid file"@,
        ParseError::MalformedSection { line } => "line "@ + decimal(line as nat)
            + ": malformed section header"@,
        ParseError::MalformedEntry { line } => "line "@ + decimal(line as nat)
            + ": expected key=value"@,
    }
}

impl ParseError {
    /// A human-readable description of the error and its line.
    pub fn message(&self) -> (r: String)
        ensures
            r@ == parse_error_text(*self),
    {
        match self {
            ParseError::EmptyDocument => "empty or invalid file".to_owned(),
            ParseError::MalformedSection { line } => {
                let mut r = "line ".to_owned();
                append_decimal(&mut r, *line);
                r.append(": malformed section header");
                r
            },
            ParseError::MalformedEntry { line } => {
                let mut r = "line ".to_owned();
                append_decimal(&mut r, *line);
                r.append(": expected key=value");
                r
            },
        }
    }
}

/// What one line of text is, once trimmed.
pub enum LineKind {
    Blank,
    Header(Seq<char>),
    BadHeader,
    Pair(Seq<char>, Seq<char>),
    BadPair,
}

pub open spec fn no_brackets(s: Seq<char>) -> bool {
    forall|i: int| 0 <= i < s.len() ==> s[i] != '[' && s[i] != ']'
}

pub open spec fn line_kind(line: Seq<char>) -> LineKind {
    let t = trim(line);
    if t.len() == 0 {
        LineKind::Blank
    } else if t[0] == '[' {
        if t.len() >= 2 && t.last() == ']' && no_brackets(t.subrange(1, t.len() - 1)) {
            LineKind::Header(t.subrange(1, t.len() - 1))
        } else {
            LineKind::BadHeader
        }
    } else {
        let eq = find_char(t, '=', 0);
        if eq < t.len() && trim(t.subrange(0, eq)).len() > 0 {
            LineKind::Pair(trim(t.subrange(0, eq)), trim(t.subrange(eq + 1, t.len() as int)))
        } else {
            LineKind::BadPair
        }
    }
}

/// The reader's state between lines: the document so far and the index of the
/// open section, or the error that stopped it.
pub type ParseState = Result<(DocumentView, Option<int>), ParseError>;

/// The state after reading `line`, the line at 0-based position `index`.
pub open spec fn parse_step(st: ParseState, line: Seq<char>, index: int) -> ParseState {
    match st {
        Err(e) => Err(e),
        Ok((d, cur)) => match line_kind(line) {
            LineKind::Blank => Ok((d, cur)),
            LineKind::Header(name) => {
                let d1 = with_section(d, name);
                Ok((d1, Some(section_index(d1, name))))
            },
            LineKind::BadHeader => Err(ParseError::MalformedSection { line: (index + 1) as usize }),
            LineKind::Pair(key, value) => match cur {
                None => Ok((d, cur)),
                Some(si) => Ok(
                    (d.update(si, (d[si].0, entries_with_occurrence(d[si].1, key, value))), cur),
                ),
            },
            LineKind::BadPair => match cur {
                None => Ok((d, cur)),
                Some(_) => Err(ParseError::MalformedEntry { line: (index + 1) as usize }),
            },
        },
    }
}

/// The state after reading the lines `ls` in order from `st`; the first of them
/// stands at 0-based position `offset` of the text.
pub open spec fn parse_from(st: ParseState, ls: Seq<Seq<char>>, offset: int) -> ParseState
    decreases ls.len(),
{
    if ls.len() == 0 {
        st
    } else {
        parse_step(parse_from(st, ls.drop_last(), offset), ls.last(), offset + ls.len() - 1)
    }
}

pub open spec fn initial_state() -> ParseState {
    Ok((Seq::<SectionView>::empty(), None))
}

/// What reading the text `s` gives.
pub open spec fn parse_text(s: Seq<char>) -> Result<DocumentView, ParseError> {
    match parse_from(initial_state(), lines_of(s), 0) {
        Err(e) => Err(e),
        Ok((d, _)) => if d.len() == 0 {
            Err(ParseError::EmptyDocument)
        } else {
            Ok(d)
        },
    }
}

pub open spec fn header_line(name: Seq<char>) -> Seq<char> {
    seq!['['] + name + seq![']']
}

pub open spec fn entry_line(key: Seq<char>, piece: Seq<char>) -> Seq<char> {
    key + seq!['='] + piece
}

/// One `key=piece` line per piece.
pub open spec fn piece_lines(key: Seq<char>, pieces: Seq<Seq<char>>) -> Seq<Seq<char>> {
    pieces.map_values(|p: Seq<char>| entry_line(key, p))
}

pub open spec fn entries_lines(es: Seq<EntryView>) -> Seq<Seq<char>>
    decreases es.len(),
{
    if es.len() == 0 {
        Seq::empty()
    } else {
        entries_lines(es.drop_last()) + piece_lines(es.last().0, split_value(es.last().1))
    }
}

/// A section written out: its header, its entries, and a blank line.
pub open spec fn section_lines(s: SectionView) -> Seq<Seq<char>> {
    seq![header_line(s.0)] + entries_lines(s.1) + seq![Seq::<char>::empty()]
}

pub open spec fn document_lines(d: DocumentView) -> Seq<Seq<char>>
    decreases d.len(),
{
    if d.len() == 0 {
        Seq::empty()
    } else {
        document_lines(d.drop_last()) + section_lines(d.last())
    }
}

/// Each line followed by a newline.
pub open spec fn text_of_lines(ls: Seq<Seq<char>>) -> Seq<char>
    decreases ls.len(),
{
    if ls.len() == 0 {
        Seq::empty()
    } else {
        text_of_lines(ls.drop_last()) + ls.last() + seq!['\n']
    }
}

/// What writing the document `d` out gives.
pub open spec fn document_text(d: DocumentView) -> Seq<char> {
    text_of_lines(document_lines(d))
}

/// The pieces of `value`, cut at each `", "`.
pub fn split_value_pieces(value: &str) -> (r: Vec<String>)
    ensures
        r@.map_values(|p: String| p@) == split_value(value@),
{
    let chars = chars_of(value);
    let n = chars.len();
    let mut pieces: Vec<String> = Vec::new();
    let mut start: usize = 0;
    let mut i: usize = 0;
    while i < n && i + 1 < n
        invariant
            chars@ == value@,
            n == chars@.len(),
            start <= i <= n,
            pieces@.map_values(|p: String| p@) + split_from(value@, start as int, i as int)
                == split_value(value@),
        decreases n - i,
    {
        if chars[i] == ',' && chars[i + 1] == ' ' {
            let piece = value.substring_char(start, i).to_owned();
            let ghost before = pieces@.map_values(|p: String| p@);
            pieces.push(piece);
            assert(pieces@.map_values(|p: String| p@) =~= before.push(piece@));
            assert(pieces@.map_values(|p: String| p@) + split_from(value@, i + 2, i + 2)
                =~= before + split_from(value@, start as int, i as int));
            i = i + 2;
            start = i;
        } else {
            i = i + 1;
        }
    }
    let last = value.substring_char(start, n).to_owned();
    let ghost before = pieces@.map_values(|p: String| p@);
    pieces.push(last);
    assert(pieces@.map_values(|p: String| p@) =~= before + split_from(value@, start as int, i as int));
    pieces
}

proof fn lemma_literals()
    ensures
        "["@ == seq!['['],
        "]"@ == seq![']'],
        "="@ == seq!['='],
        "\n"@ == seq!['\n'],
{
    reveal_strlit("[");
    reveal_strlit("]");
    reveal_strlit("=");
    reveal_strlit("\n");
    assert("["@ =~= seq!['[']);
    assert("]"@ =~= seq![']']);
    assert("="@ =~= seq!['=']);
    assert("\n"@ =~= seq!['\n']);
}

pub proof fn lemma_text_push(ls: Seq<Seq<char>>, l: Seq<char>)
    ensures
        text_of_lines(ls.push(l)) == text_of_lines(ls) + l + seq!['\n'],
{
    assert(ls.push(l).drop_last() =~= ls);
}

/// Writes `data` out: for each section its header, then one `key=piece` line
/// for each piece of each value, then a blank line.
pub fn serialize_quadlet(data: &Document) -> (r: String)
    ensures
        r@ == document_text(data@),
{
    let mut out = String::new();
    let ghost mut emitted: Seq<Seq<char>> = Seq::empty();
    let mut i: usize = 0;
    while i < data.sections.len()
        invariant
            i <= data.sections@.len(),
            out@ == text_of_lines(emitted),
            emitted == document_lines(data@.subrange(0, i as int)),
        decreases data.sections@.len() - i,
    {
        let sec = &data.sections[i];
        let ghost es = data@[i as int].1;
        let ghost before = emitted;
        out.append("[");
        out.append(sec.name.as_str());
        out.append("]");
        out.append("\n");
        proof {
            lemma_literals();
            lemma_text_push(emitted, header_line(sec.name@));
            emitted = emitted.push(header_line(sec.name@));
            assert(out@ =~= text_of_lines(emitted));
            assert(entries_lines(es.subrange(0, 0)) =~= Seq::<Seq<char>>::empty());
            assert(emitted =~= before + seq![header_line(sec.name@)] + entries_lines(es.subrange(0, 0)));
        }
        let mut j: usize = 0;
        while j < sec.entries.len()
            invariant
                j <= sec.entries@.len(),
                es == sec.entries@.map_values(|e: crate::document::Entry| e@),
                out@ == text_of_lines(emitted),
                emitted == before + seq![header_line(sec.name@)] + entries_lines(
                    es.subrange(0, j as int),
                ),
            decreases sec.entries@.len() - j,
        {
            let entry = &sec.entries[j];
            let pieces = split_value_pieces(entry.value.as_str());
            let ghost pv = pieces@.map_values(|p: String| p@);
            let ghost base = emitted;
            let mut k: usize = 0;
            while k < pieces.len()
                invariant
                    k <= pieces@.len(),
                    pv == pieces@.map_values(|p: String| p@),
                    out@ == text_of_lines(emitted),
                    emitted == base + piece_lines(entry.key@, pv.subrange(0, k as int)),
                decreases pieces@.len() - k,
            {
                out.append(entry.key.as_str());
                out.append("=");
                out.append(pieces[k].as_str());
                out.append("\n");
                proof {
                    let l = entry_line(entry.key@, pieces[k as int]@);
                    lemma_literals();
                    lemma_text_push(emitted, l);
                    emitted = emitted.push(l);
                    assert(out@ =~= text_of_lines(emitted));
                    assert(piece_lines(entry.key@, pv.subrange(0, k + 1)) =~= piece_lines(
                        entry.key@,
                        pv.subrange(0, k as int),
                    ).push(l));
                }
                k = k + 1;
            }
            proof {
                assert(pv.subrange(0, k as int) =~= pv);
                assert(es.subrange(0, j + 1).drop_last() =~= es.subrange(0, j as int));
                assert(es[j as int] == entry@);
            }
            j = j + 1;
        }
        out.append("\n");
        proof {
            lemma_literals();
            lemma_text_push(emitted, Seq::<char>::empty());
            emitted = emitted.push(Seq::<char>::empty());
            assert(out@ =~= text_of_lines(emitted));
            assert(es.subrange(0, j as int) =~= es);
            assert(data@.subrange(0, i + 1).drop_last() =~= data@.subrange(0, i as int));
            assert(emitted =~= before + section_lines(data@[i as int]));
        }
        i = i + 1;
    }
    proof {
        assert(data@.subrange(0, i as int) =~= data@);
    }
    out
}

spec fn opt_int(o: Option<usize>) -> Option<int> {
    match o {
        Some(x) => Some(x as int),
        None => None,
    }
}

/// The reader's state as held by `parse_quadlet`.
spec fn reader_state(
    failure: Option<ParseError>,
    d: DocumentView,
    cur: Option<usize>,
) -> ParseState {
    match failure {
        Some(e) => Err(e),
        None => Ok((d, opt_int(cur))),
    }
}

fn no_brackets_in(chars: &Vec<char>, a: usize, b: usize) -> (r: bool)
    requires
        a <= b <= chars@.len(),
    ensures
        r == no_brackets(chars@.subrange(a as int, b as int)),
{
    let mut i = a;
    while i < b
        invariant
            a <= i <= b <= chars@.len(),
            forall|j: int| a <= j < i ==> chars@[j] != '[' && chars@[j] != ']',
        decreases b - i,
    {
        if chars[i] == '[' || chars[i] == ']' {
            assert(chars@.subrange(a as int, b as int)[i - a] == chars@[i as int]);
            return false;
        }
        i = i + 1;
    }
    assert forall|j: int| 0 <= j < b - a implies chars@.subrange(a as int, b as int)[j] != '['
        && chars@.subrange(a as int, b as int)[j] != ']' by {
        assert(chars@.subrange(a as int, b as int)[j] == chars@[a + j]);
    }
    true
}

/// Reads the line `chars[a..b]`, at 0-based position `index`, into `doc`.
fn read_line(
    content: &str,
    chars: &Vec<char>,
    a: usize,
    b: usize,
    index: usize,
    doc: &mut Document,
    current: &mut Option<usize>,
) -> (r: Result<(), ParseError>)
    requires
        chars@ == content@,
        a <= b <= chars@.len(),
        index <= a,
        old(doc).wf(),
        *old(current) matches Some(si) ==> si < old(doc)@.len(),
    ensures
        final(doc).wf(),
        *final(current) matches Some(si) ==> si < final(doc)@.len(),
        match parse_step(
            Ok((old(doc)@, opt_int(*old(current)))),
            chars@.subrange(a as int, b as int),
            index as int,
        ) {
            Ok((d, c)) => {
                &&& r is Ok
                &&& final(doc)@ == d
                &&& opt_int(*final(current)) == c
                &&& final(doc).wf()
                &&& *final(current) matches Some(si) ==> si < final(doc)@.len()
            },
            Err(e) => r == Err::<(), ParseError>(e),
        },
{
    let ghost line = chars@.subrange(a as int, b as int);
    let (ta, tb) = trim_bounds(chars, a, b);
    let ghost t = chars@.subrange(ta as int, tb as int);
    assert(t == trim(line));
    if ta == tb {
        return Ok(());
    }
    assert(t[0] == chars@[ta as int]);
    let c0 = chars[ta];
    if c0 == '[' {
        if tb - ta >= 2 && chars[tb - 1] == ']' && no_brackets_in(chars, ta + 1, tb - 1) {
            let name = content.substring_char(ta + 1, tb - 1);
            assert(name@ =~= t.subrange(1, t.len() - 1));
            let si = doc.add_section(name);
            *current = Some(si);
            return Ok(());
        } else {
            if tb - ta >= 2 {
                assert(t.last() == chars@[tb - 1]);
                assert(chars@.subrange(ta + 1, tb - 1) =~= t.subrange(1, t.len() - 1));
            }
            return Err(ParseError::MalformedSection { line: index + 1 });
        }
    }
    let eq = find_in(chars, '=', ta, ta, tb);
    if eq < tb {
        let (ka, kb) = trim_bounds(chars, ta, eq);
        assert(chars@.subrange(ta as int, eq as int) =~= t.subrange(0, eq - ta));
        if ka < kb {
            match *current {
                Some(si) => {
                    let (va, vb) = trim_bounds(chars, eq + 1, tb);
                    assert(chars@.subrange(eq + 1, tb as int) =~= t.subrange(
                        eq - ta + 1,
                        t.len() as int,
                    ));
                    let key = content.substring_char(ka, kb);
                    let value = content.substring_char(va, vb);
                    doc.add_occurrence(si, key, value);
                    return Ok(());
                },
                None => {
                    return Ok(());
                },
            }
        }
    }
    match *current {
        Some(_) => Err(ParseError::MalformedEntry { line: index + 1 }),
        None => Ok(()),
    }
}

/// Reads a unit-definition file. Succeeds exactly when `parse_text` does, with
/// the document it describes.
pub fn parse_quadlet(content: &str) -> (r: Result<Document, ParseError>)
    ensures
        match r {
            Ok(d) => parse_text(content@) == Ok::<DocumentView, ParseError>(d@) && d.wf(),
            Err(e) => parse_text(content@) == Err::<DocumentView, ParseError>(e),
        },
{
    let chars = chars_of(content);
    let n = chars.len();
    let mut doc = Document::new();
    let mut current: Option<usize> = None;
    let mut failure: Option<ParseError> = None;
    let mut start: usize = 0;
    let mut index: usize = 0;
    let mut i: usize = 0;
    assert(chars@.subrange(0, 0) =~= Seq::<char>::empty());
    while i < n
        invariant
            chars@ == content@,
            n == chars@.len(),
            index <= start <= i <= n,
            lines_of(chars@.subrange(0, i as int)).len() == index + 1,
            lines_of(chars@.subrange(0, i as int)).last() == chars@.subrange(start as int, i as int),
            parse_from(initial_state(), lines_of(chars@.subrange(0, i as int)).drop_last(), 0)
                == reader_state(failure, doc@, current),
            doc.wf(),
            current matches Some(si) ==> si < doc@.len(),
        decreases n - i,
    {
        let ghost ls = lines_of(chars@.subrange(0, i as int));
        assert(chars@.subrange(0, i + 1).drop_last() =~= chars@.subrange(0, i as int));
        if chars[i] == '\n' {
            assert(lines_of(chars@.subrange(0, i + 1)) == ls.push(Seq::<char>::empty()));
            assert(ls.push(Seq::<char>::empty()).drop_last() =~= ls);
            assert(ls.drop_last().push(ls.last()) =~= ls);
            if failure.is_none() {
                let step = read_line(content, &chars, start, i, index, &mut doc, &mut current);
                if let Err(e) = step {
                    failure = Some(e);
                }
            }
            start = i + 1;
            index = index + 1;
        } else {
            assert(chars@.subrange(start as int, i + 1) =~= chars@.subrange(
                start as int,
                i as int,
            ).push(chars@[i as int]));
            assert(lines_of(chars@.subrange(0, i + 1)).drop_last() =~= ls.drop_last());
        }
        i = i + 1;
    }
    assert(chars@.subrange(0, n as int) =~= content@);
    let ghost ls = lines_of(content@);
    assert(ls.drop_last().push(ls.last()) =~= ls);
    if failure.is_none() {
        let step = read_line(content, &chars, start, n, index, &mut doc, &mut current);
        if let Err(e) = step {
            failure = Some(e);
        }
    }
    match failure {
        Some(e) => Err(e),
        None => {
            if doc.sections.len() == 0 {
                Err(ParseError::EmptyDocument)
            } else {
                Ok(doc)
            }
        },
    }
}

} // verus!
