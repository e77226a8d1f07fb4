//! Reading back what was written out gives the same document, for every
//! document whose names, keys and values the line format can carry.
use vstd::prelude::*;
use crate::document::{
    document_wf, entries_with_occurrence, keys_unique, lemma_key_index_absent,
    lemma_section_index_from, names_unique, section_index, with_section, DocumentView, EntryView,
    SectionView,
};
use crate::parser::{
    document_lines, document_text, entries_lines, entry_line, header_line, initial_state,
    line_kind, no_brackets, parse_from, parse_step, parse_text, piece_lines, section_lines,
    text_of_lines, LineKind, ParseState,
};
use crate::text::{
    contains_separator, find_char, is_blank_char, lemma_lines_nonempty, lines_of, separator_at,
    split_from, split_value, trim, trim_end, trim_start,
};

verus! {

pub open spec fn no_newline(s: Seq<char>) -> bool {
    forall|i: int| 0 <= i < s.len() ==> s[i] != '\n'
}

/// A section name that a `[name]` header line carries unchanged.
pub open spec fn plain_name(n: Seq<char>) -> bool {
    &&& no_newline(n)
    &&& no_brackets(n)
}

/// A key that a `key=value` line carries unchanged: not empty, without `=` or
/// newline, not blank at either end, and not read as a header.
pub open spec fn plain_key(k: Seq<char>) -> bool {
    &&& k.len() > 0
    &&& no_newline(k)
    &&& forall|i: int| 0 <= i < k.len() ==> k[i] != '='
    &&& !is_blank_char(k[0])
    &&& !is_blank_char(k.last())
    &&& k[0] != '['
}

/// A value that one `key=value` line carries unchanged: without newline, not
/// blank at either end, and without the `", "` that would split it.
pub open spec fn plain_value(v: Seq<char>) -> bool {
    &&& no_newline(v)
    &&& !contains_separator(v)
    &&& v.len() > 0 ==> !is_blank_char(v[0]) && !is_blank_char(v.last())
}

pub open spec fn plain_entry(e: EntryView) -> bool {
    plain_key(e.0) && plain_value(e.1)
}

pub open spec fn plain_section(s: SectionView) -> bool {
    &&& plain_name(s.0)
    &&& forall|j: int| 0 <= j < s.1.len() ==> plain_entry(#[trigger] s.1[j])
}

/// A document that the text format carries without loss: at least one
/// section, and only plain names, keys and values.
pub open spec fn representable(d: DocumentView) -> bool {
    &&& d.len() > 0
    &&& forall|i: int| 0 <= i < d.len() ==> plain_section(#[trigger] d[i])
}

proof fn lemma_lines_append_chunk(s: Seq<char>, t: Seq<char>)
    requires
        no_newline(t),
    ensures
        lines_of(s + t) == lines_of(s).update(lines_of(s).len() - 1, lines_of(s).last() + t),
    decreases t.len(),
{
    lemma_lines_nonempty(s);
    let ls = lines_of(s);
    if t.len() == 0 {
        assert(s + t =~= s);
        assert(ls.last() + t =~= ls.last());
        assert(ls.update(ls.len() - 1, ls.last()) =~= ls);
    } else {
        let t0 = t.drop_last();
        assert(no_newline(t0));
        lemma_lines_append_chunk(s, t0);
        assert((s + t).drop_last() =~= s + t0);
        assert((s + t).last() == t.last());
        let init = lines_of(s + t0);
        assert(init.last() + seq![t.last()] =~= ls.last() + t) by {
            assert(t0.push(t.last()) =~= t);
        }
        assert(lines_of(s + t) =~= ls.update(ls.len() - 1, ls.last() + t));
    }
}

proof fn lemma_lines_of_text(ls: Seq<Seq<char>>)
    requires
        forall|i: int| 0 <= i < ls.len() ==> no_newline(#[trigger] ls[i]),
    ensures
        lines_of(text_of_lines(ls)) == ls.push(Seq::<char>::empty()),
    decreases ls.len(),
{
    if ls.len() == 0 {
        assert(lines_of(Seq::<char>::empty()) =~= seq![Seq::<char>::empty()]);
        assert(ls.push(Seq::<char>::empty()) =~= seq![Seq::<char>::empty()]);
    } else {
        let init = ls.drop_last();
        let l = ls.last();
        assert(no_newline(l));
        assert forall|i: int| 0 <= i < init.len() implies no_newline(#[trigger] init[i]) by {
            assert(init[i] == ls[i]);
        }
        lemma_lines_of_text(init);
        let t0 = text_of_lines(init);
        lemma_lines_append_chunk(t0, l);
        let full = t0 + l + seq!['\n'];
        assert(full.drop_last() =~= t0 + l);
        let lines_l = lines_of(t0 + l);
        assert(Seq::<char>::empty() + l =~= l);
        assert(lines_l =~= ls);
        assert(lines_of(full) == lines_l.push(Seq::<char>::empty()));
    }
}

proof fn lemma_parse_from_concat(st: ParseState, a: Seq<Seq<char>>, b: Seq<Seq<char>>, off: int)
    ensures
        parse_from(st, a + b, off) == parse_from(parse_from(st, a, off), b, off + a.len()),
    decreases b.len(),
{
    if b.len() == 0 {
        assert(a + b =~= a);
    } else {
        lemma_parse_from_concat(st, a, b.drop_last(), off);
        assert((a + b).drop_last() =~= a + b.drop_last());
        assert((a + b).last() == b.last());
    }
}

proof fn lemma_parse_one(st: ParseState, l: Seq<char>, off: int)
    ensures
        parse_from(st, seq![l], off) == parse_step(st, l, off),
{
    assert(seq![l].drop_last() =~= Seq::<Seq<char>>::empty());
    assert(parse_from(st, Seq::<Seq<char>>::empty(), off) == st);
}

/// A text without blank characters at its ends is its own trim.
proof fn lemma_trim_unchanged(s: Seq<char>)
    requires
        s.len() > 0 ==> !is_blank_char(s[0]) && !is_blank_char(s.last()),
    ensures
        trim(s) == s,
{
    assert(trim_start(s) == s);
    assert(trim_end(s) == s);
}

proof fn lemma_find_char_at(s: Seq<char>, c: char, from: int, j: int)
    requires
        0 <= from <= j < s.len(),
        s[j] == c,
        forall|i: int| from <= i < j ==> s[i] != c,
    ensures
        find_char(s, c, from) == j,
    decreases j - from,
{
    if from < j {
        lemma_find_char_at(s, c, from + 1, j);
    }
}

proof fn lemma_split_plain(v: Seq<char>, start: int, i: int)
    requires
        0 <= start <= i,
        start <= v.len(),
        forall|k: int| i <= k ==> !separator_at(v, k),
    ensures
        split_from(v, start, i) == seq![v.subrange(start, v.len() as int)],
    decreases v.len() - i,
{
    if i + 1 < v.len() {
        lemma_split_plain(v, start, i + 1);
    }
}

proof fn lemma_header_line(name: Seq<char>)
    requires
        plain_name(name),
    ensures
        line_kind(header_line(name)) == LineKind::Header(name),
        no_newline(header_line(name)),
{
    let h = header_line(name);
    lemma_trim_unchanged(h);
    assert(h.subrange(1, h.len() - 1) =~= name);
    assert forall|i: int| 0 <= i < h.len() implies h[i] != '\n' by {
        if 1 <= i < h.len() - 1 {
            assert(h[i] == name[i - 1]);
        }
    }
}

proof fn lemma_entry_line(key: Seq<char>, value: Seq<char>)
    requires
        plain_key(key),
        plain_value(value),
    ensures
        line_kind(entry_line(key, value)) == LineKind::Pair(key, value),
        no_newline(entry_line(key, value)),
{
    let l = entry_line(key, value);
    let n = key.len() as int;
    assert(l[0] == key[0]);
    if value.len() > 0 {
        assert(l.last() == value.last());
    }
    lemma_trim_unchanged(l);
    assert forall|i: int| 0 <= i < n implies l[i] != '=' by {
        assert(l[i] == key[i]);
    }
    lemma_find_char_at(l, '=', 0, n);
    assert(l.subrange(0, n) =~= key);
    assert(l.subrange(n + 1, l.len() as int) =~= value);
    lemma_trim_unchanged(key);
    lemma_trim_unchanged(value);
    assert forall|i: int| 0 <= i < l.len() implies l[i] != '\n' by {
        if i < n {
            assert(l[i] == key[i]);
        } else if i > n {
            assert(l[i] == value[i - n - 1]);
        }
    }
}

/// The lines of a plain value's entry: exactly one.
proof fn lemma_plain_entry_lines(key: Seq<char>, value: Seq<char>)
    requires
        plain_value(value),
    ensures
        piece_lines(key, split_value(value)) == seq![entry_line(key, value)],
{
    assert forall|k: int| 0 <= k implies !separator_at(value, k) by {
        if separator_at(value, k) {
            assert(contains_separator(value));
        }
    }
    lemma_split_plain(value, 0, 0);
    assert(value.subrange(0, value.len() as int) =~= value);
    assert(piece_lines(key, seq![value]) =~= seq![entry_line(key, value)]);
}

proof fn lemma_entries_read_back(
    d0: DocumentView,
    name: Seq<char>,
    es: Seq<EntryView>,
    off: int,
)
    requires
        keys_unique(es),
        forall|j: int| 0 <= j < es.len() ==> plain_entry(#[trigger] es[j]),
    ensures
        parse_from(
            Ok((d0.push((name, Seq::<EntryView>::empty())), Some(d0.len() as int))),
            entries_lines(es),
            off,
        ) == Ok::<(DocumentView, Option<int>), crate::parser::ParseError>(
            (d0.push((name, es)), Some(d0.len() as int)),
        ),
        forall|i: int|
            0 <= i < entries_lines(es).len() ==> no_newline(#[trigger] entries_lines(es)[i]),
    decreases es.len(),
{
    let st0: ParseState = Ok((d0.push((name, Seq::<EntryView>::empty())), Some(d0.len() as int)));
    if es.len() == 0 {
        assert(es =~= Seq::<EntryView>::empty());
    } else {
        let init = es.drop_last();
        let (key, value) = es.last();
        assert(plain_entry(es[es.len() - 1]));
        assert forall|j: int| 0 <= j < init.len() implies plain_entry(#[trigger] init[j]) by {
            assert(init[j] == es[j]);
        }
        assert(keys_unique(init));
        lemma_entries_read_back(d0, name, init, off);
        lemma_plain_entry_lines(key, value);
        let prev = entries_lines(init);
        lemma_parse_from_concat(st0, prev, seq![entry_line(key, value)], off);
        lemma_parse_one(
            Ok((d0.push((name, init)), Some(d0.len() as int))),
            entry_line(key, value),
            off + prev.len(),
        );
        lemma_entry_line(key, value);
        assert forall|j: int| 0 <= j < init.len() implies init[j].0 != key by {
            assert(es[j].0 != es[es.len() - 1].0);
        }
        lemma_key_index_absent(init, key);
        let d = d0.push((name, init));
        assert(d[d0.len() as int] == (name, init));
        assert(entries_with_occurrence(init, key, value) =~= es);
        assert(d.update(d0.len() as int, (name, es)) =~= d0.push((name, es)));
        let all = entries_lines(es);
        assert(all == prev + seq![entry_line(key, value)]);
        assert forall|i: int| 0 <= i < all.len() implies no_newline(#[trigger] all[i]) by {
            if i < prev.len() {
                assert(all[i] == prev[i]);
            } else {
                assert(all[i] == entry_line(key, value));
            }
        }
    }
}

proof fn lemma_blank_line(st: ParseState, off: int)
    ensures
        parse_step(st, Seq::<char>::empty(), off) == st,
{
    assert(trim_start(Seq::<char>::empty()) == Seq::<char>::empty());
    assert(trim_end(Seq::<char>::empty()) == Seq::<char>::empty());
}

proof fn lemma_section_read_back(d0: DocumentView, cur: Option<int>, s: SectionView, off: int)
    requires
        plain_section(s),
        keys_unique(s.1),
        forall|j: int| 0 <= j < d0.len() ==> d0[j].0 != s.0,
    ensures
        parse_from(Ok((d0, cur)), section_lines(s), off) == Ok::<
            (DocumentView, Option<int>),
            crate::parser::ParseError,
        >((d0.push(s), Some(d0.len() as int))),
        forall|i: int| 0 <= i < section_lines(s).len() ==> no_newline(#[trigger] section_lines(s)[i]),
{
    let (name, es) = s;
    let h = header_line(name);
    let body = entries_lines(es);
    let st0: ParseState = Ok((d0, cur));
    lemma_header_line(name);
    lemma_section_index_from(d0, name, 0);
    let d1 = d0.push((name, Seq::<EntryView>::empty()));
    assert(with_section(d0, name) == d1);
    lemma_section_index_from(d1, name, 0);
    assert(d1[d0.len() as int].0 == name);
    let r = section_index(d1, name);
    if r < d0.len() {
        assert(d1[r] == d0[r]);
    }
    assert(section_index(d1, name) == d0.len());
    lemma_parse_one(st0, h, off);
    let st1: ParseState = Ok((d1, Some(d0.len() as int)));
    assert(parse_step(st0, h, off) == st1);
    lemma_entries_read_back(d0, name, es, off + 1);
    let st2: ParseState = Ok((d0.push(s), Some(d0.len() as int)));
    lemma_parse_from_concat(st0, seq![h], body, off);
    lemma_parse_from_concat(st0, seq![h] + body, seq![Seq::<char>::empty()], off);
    lemma_parse_one(st2, Seq::<char>::empty(), off + 1 + body.len());
    lemma_blank_line(st2, off + 1 + body.len());
    let all = section_lines(s);
    assert forall|i: int| 0 <= i < all.len() implies no_newline(#[trigger] all[i]) by {
        if i == 0 {
            assert(all[i] == h);
        } else if i <= body.len() {
            assert(all[i] == body[i - 1]);
        } else {
            assert(all[i] == Seq::<char>::empty());
        }
    }
}

proof fn lemma_document_read_back(d: DocumentView)
    requires
        document_wf(d),
        forall|i: int| 0 <= i < d.len() ==> plain_section(#[trigger] d[i]),
    ensures
        parse_from(initial_state(), document_lines(d), 0) == Ok::<
            (DocumentView, Option<int>),
            crate::parser::ParseError,
        >((d, if d.len() == 0 { None } else { Some(d.len() - 1) })),
        forall|i: int| 0 <= i < document_lines(d).len() ==> no_newline(#[trigger] document_lines(d)[i]),
    decreases d.len(),
{
    if d.len() == 0 {
        assert(d =~= Seq::<SectionView>::empty());
    } else {
        let init = d.drop_last();
        let s = d.last();
        assert(plain_section(d[d.len() - 1]));
        assert forall|i: int| 0 <= i < init.len() implies plain_section(#[trigger] init[i]) by {
            assert(init[i] == d[i]);
        }
        assert(names_unique(init));
        assert forall|i: int| 0 <= i < init.len() implies keys_unique(#[trigger] init[i].1) by {
            assert(init[i] == d[i]);
        }
        lemma_document_read_back(init);
        assert(keys_unique(d[d.len() - 1].1));
        assert forall|j: int| 0 <= j < init.len() implies init[j].0 != s.0 by {
            assert(d[j].0 != d[d.len() - 1].0);
        }
        let prev = document_lines(init);
        let cur = if init.len() == 0 { None } else { Some(init.len() - 1) };
        lemma_parse_from_concat(initial_state(), prev, section_lines(s), 0);
        lemma_section_read_back(init, cur, s, prev.len() as int);
        assert(init.push(s) =~= d);
        let all = document_lines(d);
        let sl = section_lines(s);
        assert forall|i: int| 0 <= i < all.len() implies no_newline(#[trigger] all[i]) by {
            if i < prev.len() {
                assert(all[i] == prev[i]);
            } else {
                assert(all[i] == sl[i - prev.len()]);
            }
        }
    }
}

/// Writing a document out and reading the text back gives the same document,
/// with its sections and keys in the same order, whenever the document is
/// well formed and its names, keys and values are plain; in particular no
/// value holds the separator `", "`.
pub proof fn lemma_round_trip(d: DocumentView)
    requires
        document_wf(d),
        representable(d),
    ensures
        parse_text(document_text(d)) == Ok::<DocumentView, crate::parser::ParseError>(d),
{
    lemma_document_read_back(d);
    let ls = document_lines(d);
    lemma_lines_of_text(ls);
    let full = ls.push(Seq::<char>::empty());
    assert(full.drop_last() =~= ls);
    lemma_blank_line(parse_from(initial_state(), ls, 0), ls.len() as int);
}

} // verus!
