//! The store's file format, as a mathematical model.
//!
//! A store file is text. Each line holds one record: the key, a tab, the
//! value. Nothing is escaped. A line ends at a line feed and nowhere else;
//! a carriage return is a character like any other.

use crate::kvstore::model::{distinct, keys, lemma_position_absent, map_of, put};
use crate::text::lemma_first_at;
use vstd::prelude::*;

verus! {

/// The text of one record without its line ending.
pub open spec fn record_text(rec: (Seq<char>, Seq<char>)) -> Seq<char> {
    rec.0 + seq!['\t'] + rec.1
}

/// The file image of a sequence of records: one line per record, each
/// closed by a line feed.
pub open spec fn render(recs: Seq<(Seq<char>, Seq<char>)>) -> Seq<char>
    decreases recs.len(),
{
    if recs.len() == 0 {
        Seq::empty()
    } else {
        render(recs.drop_last()) + record_text(recs.last()) + seq!['\n']
    }
}

/// The lines of a text. A line feed ends a line. The text after the last
/// line feed is a line of its own unless it is empty.
pub open spec fn lines(text: Seq<char>) -> Seq<Seq<char>>
    decreases text.len(),
{
    if text.len() == 0 {
        Seq::empty()
    } else {
        let at = text.index_of_first('\n');
        if at is Some && 0 <= at->0 < text.len() {
            seq![text.take(at->0)] + lines(text.skip(at->0 + 1))
        } else {
            seq![text]
        }
    }
}

/// The record that a line holds: the key is what stands before the first
/// tab, the value is everything after it. A line without a tab holds none.
pub open spec fn parse_record(line: Seq<char>) -> Option<(Seq<char>, Seq<char>)> {
    match line.index_of_first('\t') {
        Some(i) => Some((line.take(i), line.skip(i + 1))),
        None => None,
    }
}

/// The records that a sequence of lines leaves behind when each is put into
/// the store in turn.
pub open spec fn load(lines: Seq<Seq<char>>) -> Seq<(Seq<char>, Seq<char>)>
    decreases lines.len(),
{
    if lines.len() == 0 {
        Seq::empty()
    } else {
        let rec = parse_record(lines.last())->0;
        put(load(lines.drop_last()), rec.0, rec.1)
    }
}

/// Every line holds a record.
pub open spec fn well_formed(lines: Seq<Seq<char>>) -> bool {
    forall|i: int| 0 <= i < lines.len() ==> (#[trigger] parse_record(lines[i])) is Some
}

/// The records that a file image holds, or `None` where one of its lines
/// holds no record.
pub open spec fn decode(text: Seq<char>) -> Option<Seq<(Seq<char>, Seq<char>)>> {
    if well_formed(lines(text)) {
        Some(load(lines(text)))
    } else {
        None
    }
}

/// A key that the format can hold: it has no tab and no line feed in it.
pub open spec fn clean_key(key: Seq<char>) -> bool {
    !key.contains('\t') && !key.contains('\n')
}

/// A value that the format can hold: it has no line feed in it. Tabs do
/// no harm: only the first tab of a line parts the key from the value.
pub open spec fn clean_value(value: Seq<char>) -> bool {
    !value.contains('\n')
}

/// Every record has a key and a value that the format can hold.
pub open spec fn clean(recs: Seq<(Seq<char>, Seq<char>)>) -> bool {
    forall|i: int|
        0 <= i < recs.len() ==> clean_key((#[trigger] recs[i]).0) && clean_value(recs[i].1)
}

/// The image of a sequence of records begins with the line of the first.
proof fn lemma_render_front(recs: Seq<(Seq<char>, Seq<char>)>)
    requires
        recs.len() > 0,
    ensures
        render(recs) == record_text(recs.first()) + seq!['\n'] + render(recs.drop_first()),
    decreases recs.len(),
{
    if recs.len() == 1 {
        assert(recs.drop_last() =~= Seq::<(Seq<char>, Seq<char>)>::empty());
        assert(recs.drop_first() =~= Seq::<(Seq<char>, Seq<char>)>::empty());
        assert(render(recs) =~= record_text(recs.first()) + seq!['\n'] + render(
            recs.drop_first(),
        ));
    } else {
        let front = recs.drop_last();
        lemma_render_front(front);
        assert(front.first() == recs.first());
        assert(front.drop_first() =~= recs.drop_first().drop_last());
        assert(recs.drop_first().last() == recs.last());
        assert(render(recs) =~= record_text(recs.first()) + seq!['\n'] + render(
            recs.drop_first(),
        ));
    }
}

/// A text that begins with the line of a clean record has that record's
/// text as its first line.
proof fn lemma_lines_front(rec: (Seq<char>, Seq<char>), rest: Seq<char>)
    requires
        clean_key(rec.0),
        clean_value(rec.1),
    ensures
        lines(record_text(rec) + seq!['\n'] + rest) == seq![record_text(rec)] + lines(rest),
{
    let line = record_text(rec);
    let text = line + seq!['\n'] + rest;
    assert forall|j: int| 0 <= j < line.len() implies text[j] != '\n' by {
        if j < rec.0.len() {
            assert(rec.0[j] == text[j]);
        } else if j > rec.0.len() {
            assert(rec.1[j - rec.0.len() - 1] == text[j]);
        }
    }
    lemma_first_at(text, '\n', line.len() as int);
    assert(text.take(line.len() as int) =~= line);
    assert(text.skip(line.len() as int + 1) =~= rest);
}

/// The lines of an image of clean records are the texts of the records.
proof fn lemma_lines_render(recs: Seq<(Seq<char>, Seq<char>)>)
    requires
        clean(recs),
    ensures
        lines(render(recs)) == recs.map_values(|r: (Seq<char>, Seq<char>)| record_text(r)),
    decreases recs.len(),
{
    let texts = recs.map_values(|r: (Seq<char>, Seq<char>)| record_text(r));
    if recs.len() == 0 {
        assert(lines(render(recs)) =~= texts);
    } else {
        let tail = recs.drop_first();
        assert forall|i: int| 0 <= i < tail.len() implies clean_key((#[trigger] tail[i]).0)
            && clean_value(tail[i].1) by {
            assert(tail[i] == recs[i + 1]);
        }
        lemma_render_front(recs);
        lemma_lines_front(recs.first(), render(tail));
        lemma_lines_render(tail);
        assert(seq![record_text(recs.first())] + tail.map_values(
            |r: (Seq<char>, Seq<char>)| record_text(r),
        ) =~= texts);
    }
}

/// The line of a record with a clean key holds that record.
proof fn lemma_parse_record_text(rec: (Seq<char>, Seq<char>))
    requires
        !rec.0.contains('\t'),
    ensures
        parse_record(record_text(rec)) == Some(rec),
{
    let line = record_text(rec);
    assert forall|j: int| 0 <= j < rec.0.len() implies line[j] != '\t' by {
        assert(rec.0[j] == line[j]);
    }
    lemma_first_at(line, '\t', rec.0.len() as int);
    assert(line.take(rec.0.len() as int) =~= rec.0);
    assert(line.skip(rec.0.len() as int + 1) =~= rec.1);
}

/// Loading the lines of clean records without a repeated key gives the
/// records back, in their order.
proof fn lemma_load_texts(recs: Seq<(Seq<char>, Seq<char>)>)
    requires
        distinct(recs),
        clean(recs),
    ensures
        load(recs.map_values(|r: (Seq<char>, Seq<char>)| record_text(r))) == recs,
    decreases recs.len(),
{
    let texts = recs.map_values(|r: (Seq<char>, Seq<char>)| record_text(r));
    if recs.len() == 0 {
        assert(load(texts) =~= recs);
    } else {
        let front = recs.drop_last();
        assert(texts.drop_last() =~= front.map_values(
            |r: (Seq<char>, Seq<char>)| record_text(r),
        ));
        assert forall|i: int| 0 <= i < front.len() implies clean_key((#[trigger] front[i]).0)
            && clean_value(front[i].1) by {
            assert(front[i] == recs[i]);
        }
        assert forall|i: int, j: int|
            0 <= i < front.len() && 0 <= j < front.len() && i != j implies keys(front)[i] != keys(
            front,
        )[j] by {
            assert(keys(front)[i] == keys(recs)[i] && keys(front)[j] == keys(recs)[j]);
        }
        lemma_load_texts(front);
        lemma_parse_record_text(recs.last());
        assert forall|j: int| 0 <= j < front.len() implies front[j].0 != recs.last().0 by {
            assert(keys(recs)[j] == front[j].0);
            assert(keys(recs)[recs.len() - 1] == recs.last().0);
        }
        lemma_position_absent(front, recs.last().0);
        assert(front.push(recs.last()) =~= recs);
    }
}

/// Round trip. Take any records without a repeated key, each with a key
/// that holds no tab and no line feed and a value that holds no line feed.
/// Then the image that is written for them is well formed, and reading it
/// gives the same records back, in the same order, and so the same mapping.
pub proof fn lemma_round_trip(recs: Seq<(Seq<char>, Seq<char>)>)
    requires
        distinct(recs),
        clean(recs),
    ensures
        decode(render(recs)) == Some(recs),
        map_of(decode(render(recs))->0) == map_of(recs),
{
    lemma_lines_render(recs);
    lemma_load_texts(recs);
    let texts = recs.map_values(|r: (Seq<char>, Seq<char>)| record_text(r));
    assert forall|i: int| 0 <= i < texts.len() implies (#[trigger] parse_record(texts[i])) is Some by {
        lemma_parse_record_text(recs[i]);
    }
}

/// The empty store and the empty file stand for each other. The image of
/// no records is the empty text, the empty text holds no records, and the
/// mapping of no records has no key. So a store that has just been emptied
/// has no entry for any key, the image written for it is the empty file,
/// and a store opened on an empty file, or on that image, is empty again.
pub proof fn lemma_empty_image()
    ensures
        render(Seq::<(Seq<char>, Seq<char>)>::empty()) == Seq::<char>::empty(),
        decode(Seq::<char>::empty()) == Some(Seq::<(Seq<char>, Seq<char>)>::empty()),
        map_of(Seq::<(Seq<char>, Seq<char>)>::empty()) == Map::<Seq<char>, Seq<char>>::empty(),
{
    assert(lines(Seq::<char>::empty()) =~= Seq::<Seq<char>>::empty());
    assert(map_of(Seq::<(Seq<char>, Seq<char>)>::empty()) =~= Map::<
        Seq<char>,
        Seq<char>,
    >::empty());
}

} // verus!
