//! Rewriting of the header section of a raw RFC 5322 message: new headers
//! in front of it, and replacement or removal of existing ones by name and
//! ordinal.
//!
//! Carriage returns and line feeds inside a new header value are written as
//! `%0D` and `%0A`, so a value can never open a header line of its own.

use vstd::prelude::*;
use vstd::utf8::encode_utf8;
use vstd::slice::slice_subrange;
use crate::bytes::{
    append_bytes, bytes_eq_ignore_case, copy_range, eq_ignore_case, find_byte, index_of, is_blank,
    is_blank_byte, lemma_index_of, option_bytes, COLON, CR, LF, SPACE,
};

verus! {

/// What one byte of a header value becomes when it is written out.
pub open spec fn encode_byte(b: u8) -> Seq<u8> {
    if b == CR {
        seq![37u8, 48u8, 68u8]
    } else if b == LF {
        seq![37u8, 48u8, 65u8]
    } else {
        seq![b]
    }
}

/// A header value with every CR written as `%0D` and every LF as `%0A`.
pub open spec fn encode_value(value: Seq<u8>) -> Seq<u8>
    decreases value.len(),
{
    if value.len() == 0 {
        Seq::empty()
    } else {
        encode_value(value.drop_last()) + encode_byte(value.last())
    }
}

/// The line that adds header `name` with `value`: `name: value\r\n`, the
/// value encoded.
pub open spec fn added_line(name: Seq<u8>, value: Seq<u8>) -> Seq<u8> {
    name + seq![COLON, SPACE] + encode_value(value) + seq![CR, LF]
}

/// The lines for `adds`, in order.
pub open spec fn added_lines(adds: Seq<(Seq<u8>, Seq<u8>)>) -> Seq<u8>
    decreases adds.len(),
{
    if adds.len() == 0 {
        Seq::empty()
    } else {
        added_lines(adds.drop_last()) + added_line(adds.last().0, adds.last().1)
    }
}

/// The UTF-8 bytes of each name and value.
pub open spec fn pairs_as_bytes(adds: Seq<(String, String)>) -> Seq<(Seq<u8>, Seq<u8>)> {
    adds.map_values(|p: (String, String)| (encode_utf8(p.0@), encode_utf8(p.1@)))
}

/// Whether `prefix` is how `s` begins.
pub open spec fn starts_with(s: Seq<u8>, prefix: Seq<u8>) -> bool {
    prefix.len() <= s.len() && s.take(prefix.len() as int) == prefix
}

/// Whether `s` holds neither a carriage return nor a line feed.
pub open spec fn has_no_line_break(s: Seq<u8>) -> bool {
    forall|i: int| 0 <= i < s.len() ==> #[trigger] s[i] != CR && s[i] != LF
}

/// An encoded value holds no carriage return and no line feed, whatever the
/// value held.
pub proof fn lemma_encoded_value_has_no_line_break(value: Seq<u8>)
    ensures
        has_no_line_break(encode_value(value)),
    decreases value.len(),
{
    if value.len() > 0 {
        lemma_encoded_value_has_no_line_break(value.drop_last());
    }
}

/// A value without line breaks is written out as it is.
pub proof fn lemma_encode_value_plain(value: Seq<u8>)
    requires
        has_no_line_break(value),
    ensures
        encode_value(value) == value,
    decreases value.len(),
{
    if value.len() > 0 {
        let front = value.drop_last();
        assert forall|i: int| 0 <= i < front.len() implies #[trigger] front[i] != CR && front[i]
            != LF by {
            assert(front[i] == value[i]);
        }
        lemma_encode_value_plain(front);
        assert(value.last() == value[value.len() - 1]);
        assert(value == front + seq![value.last()]);
    }
}

/// With at least one header to add, the lines begin with the first name,
/// a colon and a space, whatever follows them.
pub proof fn lemma_added_lines_start(adds: Seq<(Seq<u8>, Seq<u8>)>, raw: Seq<u8>)
    requires
        adds.len() > 0,
    ensures
        starts_with(added_lines(adds) + raw, adds[0].0 + seq![COLON, SPACE]),
    decreases adds.len(),
{
    let prefix = adds[0].0 + seq![COLON, SPACE];
    let lines = added_lines(adds);
    if adds.len() == 1 {
        assert(added_lines(adds.drop_last()) == Seq::<u8>::empty());
        assert(lines == added_line(adds[0].0, adds[0].1));
        assert(lines.take(prefix.len() as int) == prefix);
    } else {
        let front = adds.drop_last();
        lemma_added_lines_start(front, Seq::empty());
        assert(front[0] == adds[0]);
        assert(added_lines(front) + Seq::<u8>::empty() == added_lines(front));
        assert(added_lines(front).take(prefix.len() as int) == prefix);
        assert(lines.take(prefix.len() as int) == added_lines(front).take(prefix.len() as int));
    }
    assert((lines + raw).take(prefix.len() as int) == lines.take(prefix.len() as int));
}

/// Every line feed in a line that adds a header is either the one that ends
/// the line or was already in the header's name: none comes from the value.
pub proof fn lemma_added_line_breaks(name: Seq<u8>, value: Seq<u8>, i: int)
    requires
        0 <= i < added_line(name, value).len(),
        added_line(name, value)[i] == CR || added_line(name, value)[i] == LF,
    ensures
        i < name.len() || i >= added_line(name, value).len() - 2,
{
    lemma_encoded_value_has_no_line_break(value);
    let line = added_line(name, value);
    let enc = encode_value(value);
    if name.len() + 2 <= i < line.len() - 2 {
        assert(line[i] == enc[i - name.len() - 2]);
    }
}

/// Appends the encoded form of `value` to `out`.
pub fn push_encoded_value(out: &mut Vec<u8>, value: &[u8])
    ensures
        final(out)@ == old(out)@ + encode_value(value@),
{
    let mut i: usize = 0;
    while i < value.len()
        invariant
            i <= value@.len(),
            out@ == old(out)@ + encode_value(value@.take(i as int)),
        decreases value@.len() - i,
    {
        let b = value[i];
        if b == CR {
            out.push(37u8);
            out.push(48u8);
            out.push(68u8);
        } else if b == LF {
            out.push(37u8);
            out.push(48u8);
            out.push(65u8);
        } else {
            out.push(b);
        }
        i += 1;
        proof {
            let next = value@.take(i as int);
            assert(next.drop_last() == value@.take(i - 1));
            assert(next.last() == b);
            assert(out@ == old(out)@ + (encode_value(value@.take(i - 1)) + encode_byte(b)));
        }
    }
    assert(value@.take(value@.len() as int) == value@);
}

/// Puts one header line for each pair of `add_headers`, in the order given,
/// in front of `raw`, which follows unchanged.
pub fn apply_add_header_modifications(
    add_headers: &[(String, String)],
    raw: &[u8],
) -> (out: Vec<u8>)
    ensures
        out@ == added_lines(pairs_as_bytes(add_headers@)) + raw@,
        add_headers@.len() > 0 ==> starts_with(
            out@,
            encode_utf8(add_headers@[0].0@) + seq![COLON, SPACE],
        ),
{
    let mut out: Vec<u8> = Vec::new();
    let mut i: usize = 0;
    while i < add_headers.len()
        invariant
            i <= add_headers@.len(),
            out@ == added_lines(pairs_as_bytes(add_headers@).take(i as int)),
        decreases add_headers@.len() - i,
    {
        let ghost before = out@;
        let name = add_headers[i].0.as_str().as_bytes();
        let value = add_headers[i].1.as_str().as_bytes();
        append_bytes(&mut out, name);
        out.push(COLON);
        out.push(SPACE);
        push_encoded_value(&mut out, value);
        out.push(CR);
        out.push(LF);
        i += 1;
        proof {
            let all = pairs_as_bytes(add_headers@);
            let next = all.take(i as int);
            assert(next.drop_last() == all.take(i - 1));
            assert(next.last() == (name@, value@));
            assert(out@ == before + added_line(name@, value@));
        }
    }
    proof {
        let all = pairs_as_bytes(add_headers@);
        assert(all.take(all.len() as int) == all);
    }
    append_bytes(&mut out, raw);
    proof {
        if add_headers@.len() > 0 {
            lemma_added_lines_start(pairs_as_bytes(add_headers@), raw@);
        }
    }
    out
}


/// One header field of a message: its name, and its value with the line
/// breaks of folding kept inside.
#[derive(Debug, Clone, PartialEq, Eq)]
pub struct HeaderField {
    pub name: Vec<u8>,
    pub value: Vec<u8>,
}

/// A header field as a pair of byte strings.
pub struct Field {
    pub name: Seq<u8>,
    pub value: Seq<u8>,
}

impl View for HeaderField {
    type V = Field;

    open spec fn view(&self) -> Field {
        Field { name: self.name@, value: self.value@ }
    }
}

/// The fields of a list, each by its view.
pub open spec fn fields_view(fields: Seq<HeaderField>) -> Seq<Field> {
    fields.map_values(|f: HeaderField| f@)
}

/// Whether an empty line in CRLF form (`\r\n\r\n`) begins at index `i`.
pub open spec fn is_terminator_at(raw: Seq<u8>, i: int) -> bool {
    &&& 0 <= i
    &&& i + 4 <= raw.len()
    &&& raw[i] == CR
    &&& raw[i + 1] == LF
    &&& raw[i + 2] == CR
    &&& raw[i + 3] == LF
}

/// Index of the first `\r\n\r\n` at or after `from`; `raw.len()` if there
/// is none.
pub open spec fn terminator_from(raw: Seq<u8>, from: int) -> int
    decreases raw.len() - from,
{
    if from < 0 || from + 4 > raw.len() {
        raw.len() as int
    } else if is_terminator_at(raw, from) {
        from
    } else {
        terminator_from(raw, from + 1)
    }
}

/// Whether the message has a `\r\n\r\n` that ends its header section.
pub open spec fn has_terminator(raw: Seq<u8>) -> bool {
    terminator_from(raw, 0) < raw.len()
}

/// The header section: everything up to and including the line break of
/// the last header line; the whole message where no `\r\n\r\n` ends it.
pub open spec fn header_section(raw: Seq<u8>) -> Seq<u8> {
    if has_terminator(raw) {
        raw.take(terminator_from(raw, 0) + 2)
    } else {
        raw
    }
}

/// The body: everything after the first `\r\n\r\n`; empty where there is
/// none.
pub open spec fn body_section(raw: Seq<u8>) -> Seq<u8> {
    if has_terminator(raw) {
        raw.skip(terminator_from(raw, 0) + 4)
    } else {
        Seq::empty()
    }
}

/// `terminator_from` is the least index at or after `from` where an empty
/// line begins.
pub proof fn lemma_terminator_from(raw: Seq<u8>, from: int)
    requires
        0 <= from,
    ensures
        terminator_from(raw, from) < raw.len() ==> from <= terminator_from(raw, from)
            && is_terminator_at(raw, terminator_from(raw, from)),
        terminator_from(raw, from) >= raw.len() ==> terminator_from(raw, from) == raw.len(),
        forall|i: int| from <= i < terminator_from(raw, from) ==> !is_terminator_at(raw, i),
    decreases raw.len() - from,
{
    if from + 4 <= raw.len() && !is_terminator_at(raw, from) {
        lemma_terminator_from(raw, from + 1);
    }
}

/// Index at which the last line of `s` begins: after its last line feed, or
/// 0.
pub open spec fn last_line_start(s: Seq<u8>) -> int
    decreases s.len(),
{
    if s.len() == 0 {
        0
    } else if s.last() == LF {
        s.len() as int
    } else {
        last_line_start(s.drop_last())
    }
}

/// `s` without the line feed that ends it, if one does.
pub open spec fn without_final_lf(s: Seq<u8>) -> Seq<u8> {
    if s.len() > 0 && s.last() == LF {
        s.drop_last()
    } else {
        s
    }
}

/// `s` without the carriage return that ends it, if one does.
pub open spec fn without_final_cr(s: Seq<u8>) -> Seq<u8> {
    if s.len() > 0 && s.last() == CR {
        s.drop_last()
    } else {
        s
    }
}

/// What follows the colon of a header line, less one leading space.
pub open spec fn after_colon(rest: Seq<u8>) -> Seq<u8> {
    if rest.len() > 0 && rest[0] == SPACE {
        rest.skip(1)
    } else {
        rest
    }
}

/// The field list after one more line, given without its line break.
///
/// A line that begins with a space or a tab continues the value of the last
/// field, after a CRLF that keeps the fold; before any field it is dropped.
/// Any other line with a colon opens a field; one without is dropped.
pub open spec fn take_line(fields: Seq<Field>, line: Seq<u8>) -> Seq<Field> {
    if line.len() > 0 && is_blank(line[0]) {
        if fields.len() > 0 {
            fields.drop_last().push(
                Field {
                    name: fields.last().name,
                    value: fields.last().value + seq![CR, LF] + line,
                },
            )
        } else {
            fields
        }
    } else {
        let colon = index_of(line, COLON, 0);
        if colon < line.len() {
            fields.push(Field { name: line.take(colon), value: after_colon(line.skip(colon + 1)) })
        } else {
            fields
        }
    }
}

/// The header fields of a header section. Lines end at a line feed; a
/// carriage return before it belongs to the line break.
pub open spec fn tokenize(section: Seq<u8>) -> Seq<Field>
    decreases section.len(),
{
    let text = without_final_lf(section);
    let start = last_line_start(text);
    if section.len() == 0 || start < 0 || start >= section.len() {
        Seq::empty()
    } else {
        take_line(tokenize(section.take(start)), without_final_cr(text.skip(start)))
    }
}

/// The last line of `s` begins at `start` when a line feed stands before
/// `start` and none after it.
pub proof fn lemma_last_line_start(s: Seq<u8>, start: int)
    requires
        0 <= start <= s.len(),
        start == 0 || s[start - 1] == LF,
        forall|i: int| start <= i < s.len() ==> s[i] != LF,
    ensures
        last_line_start(s) == start,
    decreases s.len(),
{
    if s.len() > start {
        lemma_last_line_start(s.drop_last(), start);
    }
}

/// Tokenizing up to the end of one more line adds that line to the fields
/// of what came before it.
pub proof fn lemma_tokenize_line(s: Seq<u8>, start: int)
    requires
        0 <= start < s.len(),
        start == 0 || s[start - 1] == LF,
    ensures
        ({
            let end = index_of(s, LF, start);
            let next = if end < s.len() { end + 1 } else { end };
            tokenize(s.take(next)) == take_line(
                tokenize(s.take(start)),
                without_final_cr(s.subrange(start, end)),
            )
        }),
{
    lemma_index_of(s, LF, start);
    let end = index_of(s, LF, start);
    let next = if end < s.len() { end + 1 } else { end };
    let upto = s.take(next);
    let text = without_final_lf(upto);
    assert(text == s.take(end));
    lemma_last_line_start(text, start);
    assert(upto.take(start) == s.take(start));
    assert(text.skip(start) == s.subrange(start, end));
}

/// Splits a header section into its fields.
pub fn parse_header_section(section: &[u8]) -> (fields: Vec<HeaderField>)
    ensures
        fields_view(fields@) == tokenize(section@),
{
    let mut fields: Vec<HeaderField> = Vec::new();
    let mut pos: usize = 0;
    assert(section@.take(0) == Seq::<u8>::empty());
    assert(fields_view(fields@) == Seq::<Field>::empty());
    while pos < section.len()
        invariant
            pos <= section@.len(),
            pos < section@.len() ==> pos == 0 || section@[pos - 1] == LF,
            fields_view(fields@) == tokenize(section@.take(pos as int)),
        decreases section@.len() - pos,
    {
        let end = find_byte(section, LF, pos);
        proof {
            lemma_index_of(section@, LF, pos as int);
            lemma_tokenize_line(section@, pos as int);
        }
        let mut line_end = end;
        if line_end > pos && section[line_end - 1] == CR {
            line_end = line_end - 1;
        }
        let line = slice_subrange(section, pos, line_end);
        assert(line@ == without_final_cr(section@.subrange(pos as int, end as int)));
        let ghost before = fields_view(fields@);
        if line.len() > 0 && is_blank_byte(line[0]) {
            if fields.len() > 0 {
                let ghost old_fields = fields@;
                let last = fields.pop().unwrap();
                let mut value = last.value;
                value.push(CR);
                value.push(LF);
                append_bytes(&mut value, line);
                assert(value@ == last.value@ + seq![CR, LF] + line@);
                fields.push(HeaderField { name: last.name, value });
                assert(before.last() == old_fields.last()@);
                assert(fields_view(fields@) =~= take_line(before, line@));
            }
        } else {
            let colon = find_byte(line, COLON, 0);
            if colon < line.len() {
                let name = copy_range(line, 0, colon);
                let mut from = colon + 1;
                if from < line.len() && line[from] == SPACE {
                    from = from + 1;
                }
                let value = copy_range(line, from, line.len());
                assert(name@ == line@.take(colon as int));
                assert(value@ == after_colon(line@.skip(colon + 1)));
                fields.push(HeaderField { name, value });
                assert(fields_view(fields@) =~= take_line(before, line@));
            }
        }
        pos = if end < section.len() { end + 1 } else { end };
    }
    assert(section@.take(section@.len() as int) == section@);
    fields
}


/// How many of `fields` are named `name`, letter case aside.
pub open spec fn count_matches(fields: Seq<Field>, name: Seq<u8>) -> nat
    decreases fields.len(),
{
    if fields.len() == 0 {
        0
    } else {
        count_matches(fields.drop_last(), name) + if eq_ignore_case(fields.last().name, name) {
            1nat
        } else {
            0nat
        }
    }
}

/// Whether the field at `position` is the `index`-th one named `name`,
/// counting from 1.
pub open spec fn is_occurrence(fields: Seq<Field>, name: Seq<u8>, index: int, position: int) -> bool {
    &&& 0 <= position < fields.len()
    &&& eq_ignore_case(fields[position].name, name)
    &&& count_matches(fields.take(position), name) + 1 == index
}

/// Whether `fields` holds an `index`-th field named `name`.
pub open spec fn has_occurrence(fields: Seq<Field>, name: Seq<u8>, index: int) -> bool {
    exists|position: int| is_occurrence(fields, name, index, position)
}

/// Where the `index`-th field named `name` stands, if there is one.
pub open spec fn occurrence(fields: Seq<Field>, name: Seq<u8>, index: int) -> int {
    choose|position: int| is_occurrence(fields, name, index, position)
}

/// The count of matches in a prefix grows with the prefix, and by at least
/// one across a match.
pub proof fn lemma_count_matches_grows(fields: Seq<Field>, name: Seq<u8>, p: int, q: int)
    requires
        0 <= p <= q <= fields.len(),
    ensures
        count_matches(fields.take(p), name) <= count_matches(fields.take(q), name),
        p < q && eq_ignore_case(fields[p].name, name) ==> count_matches(fields.take(p), name) + 1
            <= count_matches(fields.take(q), name),
    decreases q - p,
{
    if p < q {
        assert(fields.take(q).drop_last() == fields.take(q - 1));
        lemma_count_matches_grows(fields, name, p, q - 1);
    }
}

/// At most one position holds the `index`-th field of a name.
pub proof fn lemma_occurrence_unique(fields: Seq<Field>, name: Seq<u8>, index: int, p: int, q: int)
    requires
        is_occurrence(fields, name, index, p),
        is_occurrence(fields, name, index, q),
    ensures
        p == q,
{
    if p < q {
        lemma_count_matches_grows(fields, name, p, q);
    } else if q < p {
        lemma_count_matches_grows(fields, name, q, p);
    }
}

/// A header has an `index`-th occurrence exactly when `index` is at least 1
/// and at most the number of fields of that name.
pub proof fn lemma_occurrence_iff_count(fields: Seq<Field>, name: Seq<u8>, index: int)
    ensures
        has_occurrence(fields, name, index) <==> 1 <= index <= count_matches(fields, name),
    decreases fields.len(),
{
    assert(fields.take(fields.len() as int) == fields);
    if has_occurrence(fields, name, index) {
        let p = occurrence(fields, name, index);
        lemma_count_matches_grows(fields, name, p, fields.len() as int);
    }
    if fields.len() > 0 && 1 <= index <= count_matches(fields, name) {
        let front = fields.drop_last();
        lemma_occurrence_iff_count(front, name, index);
        if index <= count_matches(front, name) {
            let p = occurrence(front, name, index);
            assert(front.take(p) == fields.take(p));
            assert(is_occurrence(fields, name, index, p));
        } else {
            assert(fields.take(fields.len() - 1) == front);
            assert(is_occurrence(fields, name, index, fields.len() - 1));
        }
    }
}

/// Looks for the `index`-th field named `name`, letter case aside.
pub fn find_occurrence(fields: &Vec<HeaderField>, name: &[u8], index: u32) -> (found: Option<usize>)
    ensures
        match found {
            Some(position) => is_occurrence(
                fields_view(fields@),
                name@,
                index as int,
                position as int,
            ),
            None => !has_occurrence(fields_view(fields@), name@, index as int),
        },
{
    let ghost list = fields_view(fields@);
    if index == 0 {
        return None;
    }
    let mut seen: u32 = 0;
    let mut i: usize = 0;
    assert(list.take(0) == Seq::<Field>::empty());
    while i < fields.len()
        invariant
            list == fields_view(fields@),
            i <= fields@.len(),
            seen == count_matches(list.take(i as int), name@),
            seen < index,
            forall|p: int| 0 <= p < i ==> !is_occurrence(list, name@, index as int, p),
        decreases fields@.len() - i,
    {
        assert(list.take(i + 1).drop_last() == list.take(i as int));
        if bytes_eq_ignore_case(fields[i].name.as_slice(), name) {
            if seen + 1 == index {
                return Some(i);
            }
            seen = seen + 1;
        }
        i += 1;
    }
    None
}

/// One replacement: the `index`-th header named `name` gets `value`, or is
/// removed where `value` is empty.
pub struct Replacement {
    pub index: int,
    pub name: Seq<u8>,
    pub value: Seq<u8>,
}

/// The replacements asked for, names and values as UTF-8 bytes.
pub open spec fn replacements_as_bytes(ops: Seq<(u32, String, String)>) -> Seq<Replacement> {
    ops.map_values(
        |op: (u32, String, String)|
            Replacement { index: op.0 as int, name: encode_utf8(op.1@), value: encode_utf8(op.2@) },
    )
}

/// Whether `op` finds its header in `fields`.
pub open spec fn applies(fields: Seq<Field>, op: Replacement) -> bool {
    has_occurrence(fields, op.name, op.index)
}

/// The fields after `op`: unchanged where it finds no header.
pub open spec fn apply_one(fields: Seq<Field>, op: Replacement) -> Seq<Field> {
    if applies(fields, op) {
        let position = occurrence(fields, op.name, op.index);
        if op.value.len() == 0 {
            fields.remove(position)
        } else {
            fields.update(
                position,
                Field { name: fields[position].name, value: encode_value(op.value) },
            )
        }
    } else {
        fields
    }
}

/// The fields after all of `ops`, one after the other.
pub open spec fn apply_all(fields: Seq<Field>, ops: Seq<Replacement>) -> Seq<Field>
    decreases ops.len(),
{
    if ops.len() == 0 {
        fields
    } else {
        apply_one(apply_all(fields, ops.drop_last()), ops.last())
    }
}

/// Whether any of `ops` found its header when its turn came.
pub open spec fn any_applied(fields: Seq<Field>, ops: Seq<Replacement>) -> bool
    decreases ops.len(),
{
    if ops.len() == 0 {
        false
    } else {
        any_applied(fields, ops.drop_last()) || applies(
            apply_all(fields, ops.drop_last()),
            ops.last(),
        )
    }
}

/// Replacements of which none finds its header leave the fields as they
/// are, and none finds its header exactly when none finds it in the fields
/// as they were at first.
pub proof fn lemma_none_applied(fields: Seq<Field>, ops: Seq<Replacement>)
    ensures
        !any_applied(fields, ops) <==> forall|k: int|
            0 <= k < ops.len() ==> !applies(fields, #[trigger] ops[k]),
        !any_applied(fields, ops) ==> apply_all(fields, ops) == fields,
    decreases ops.len(),
{
    if ops.len() > 0 {
        let front = ops.drop_last();
        lemma_none_applied(fields, front);
        if !any_applied(fields, ops) {
            assert forall|k: int| 0 <= k < ops.len() implies !applies(fields, #[trigger] ops[k]) by {
                if k < front.len() {
                    assert(front[k] == ops[k]);
                }
            }
        }
        if forall|k: int| 0 <= k < ops.len() ==> !applies(fields, #[trigger] ops[k]) {
            assert forall|k: int| 0 <= k < front.len() implies !applies(
                fields,
                #[trigger] front[k],
            ) by {
                assert(front[k] == ops[k]);
            }
            assert(!applies(fields, ops[ops.len() - 1]));
        }
    }
}

/// The message is left alone (`None`) exactly when no replacement names a
/// header that the message has often enough: for each, the ordinal is 0 or
/// greater than the number of headers of that name.
pub proof fn lemma_unchanged_iff_no_match(ops: Seq<Replacement>, raw: Seq<u8>)
    ensures
        replaced_message(ops, raw) is None <==> forall|k: int|
            0 <= k < ops.len() ==> !(1 <= (#[trigger] ops[k]).index <= count_matches(
                tokenize(header_section(raw)),
                ops[k].name,
            )),
{
    let fields = tokenize(header_section(raw));
    lemma_none_applied(fields, ops);
    assert forall|k: int| 0 <= k < ops.len() implies (applies(fields, #[trigger] ops[k]) <==> 1
        <= ops[k].index <= count_matches(fields, ops[k].name)) by {
        lemma_occurrence_iff_count(fields, ops[k].name, ops[k].index);
    }
}

/// One field written out: the name, a colon, a space unless the value
/// brings its own blank, the value, and a CRLF unless the value ends in a
/// line feed.
pub open spec fn field_line(field: Field) -> Seq<u8> {
    field.name + (if field.value.len() > 0 && is_blank(field.value[0]) {
        seq![COLON]
    } else {
        seq![COLON, SPACE]
    }) + field.value + (if field.value.len() > 0 && field.value.last() == LF {
        Seq::<u8>::empty()
    } else {
        seq![CR, LF]
    })
}

/// The fields written out one after the other.
pub open spec fn field_lines(fields: Seq<Field>) -> Seq<u8>
    decreases fields.len(),
{
    if fields.len() == 0 {
        Seq::empty()
    } else {
        field_lines(fields.drop_last()) + field_line(fields.last())
    }
}

/// The message after the replacements `ops`: `None` where none of them
/// found its header; else the fields that are left, an empty line, and the
/// body as it was.
pub open spec fn replaced_message(ops: Seq<Replacement>, raw: Seq<u8>) -> Option<Seq<u8>> {
    let fields = tokenize(header_section(raw));
    if any_applied(fields, ops) {
        Some(field_lines(apply_all(fields, ops)) + seq![CR, LF] + body_section(raw))
    } else {
        None
    }
}

/// Index of the first `\r\n\r\n` in `raw`, or `raw.len()`.
pub fn find_terminator(raw: &[u8]) -> (end: usize)
    ensures
        end == terminator_from(raw@, 0),
        end <= raw@.len(),
        end < raw@.len() ==> end + 4 <= raw@.len(),
{
    let mut i: usize = 0;
    while i < raw.len() && raw.len() - i >= 4
        invariant
            i <= raw@.len(),
            terminator_from(raw@, 0) == terminator_from(raw@, i as int),
        decreases raw@.len() - i,
    {
        if raw[i] == CR && raw[i + 1] == LF && raw[i + 2] == CR && raw[i + 3] == LF {
            return i;
        }
        i += 1;
    }
    raw.len()
}

/// Appends `field` as it is written out.
pub fn push_field_line(out: &mut Vec<u8>, field: &HeaderField)
    ensures
        final(out)@ == old(out)@ + field_line(field@),
{
    append_bytes(out, field.name.as_slice());
    out.push(COLON);
    let n = field.value.len();
    if !(n > 0 && is_blank_byte(field.value[0])) {
        out.push(SPACE);
    }
    append_bytes(out, field.value.as_slice());
    if !(n > 0 && field.value[n - 1] == LF) {
        out.push(CR);
        out.push(LF);
    }
    assert(out@ == old(out)@ + field_line(field@));
}

/// Replaces or removes headers by name and ordinal.
///
/// Each of `replace_headers` is `(index, name, value)`: the `index`-th
/// header named `name`, counting from 1 and letter case aside, gets
/// `value`, encoded as a new header value is, or is removed where `value`
/// is empty. They are applied in order, each to the list that the ones
/// before it left. Returns `None` where none of them found its header.
/// `session_id` does not bear on the result.
pub fn apply_replace_header_modifications(
    replace_headers: &[(u32, String, String)],
    raw: &[u8],
    session_id: u64,
) -> (out: Option<Vec<u8>>)
    ensures
        option_bytes(out) == replaced_message(
            replacements_as_bytes(replace_headers@),
            raw@,
        ),
{
    let ghost ops = replacements_as_bytes(replace_headers@);
    let end = find_terminator(raw);
    let found = end < raw.len();
    let section = if found {
        slice_subrange(raw, 0, end + 2)
    } else {
        raw
    };
    assert(section@ == header_section(raw@));
    let mut fields = parse_header_section(section);
    let ghost parsed = fields_view(fields@);
    let mut modified = false;
    let mut k: usize = 0;
    assert(ops.take(0) == Seq::<Replacement>::empty());
    while k < replace_headers.len()
        invariant
            k <= replace_headers@.len(),
            ops == replacements_as_bytes(replace_headers@),
            fields_view(fields@) == apply_all(parsed, ops.take(k as int)),
            modified == any_applied(parsed, ops.take(k as int)),
        decreases replace_headers@.len() - k,
    {
        let name = replace_headers[k].1.as_str().as_bytes();
        let value = replace_headers[k].2.as_str().as_bytes();
        let index = replace_headers[k].0;
        let ghost op = ops[k as int];
        let ghost before = fields_view(fields@);
        proof {
            assert(ops.take(k + 1).drop_last() == ops.take(k as int));
            assert(ops.take(k + 1).last() == op);
            assert(op.name == name@ && op.value == value@ && op.index == index);
        }
        match find_occurrence(&fields, name, index) {
            Some(position) => {
                proof {
                    lemma_occurrence_unique(
                        before,
                        op.name,
                        op.index,
                        position as int,
                        occurrence(before, op.name, op.index),
                    );
                }
                modified = true;
                let old_field = fields.remove(position);
                if value.len() > 0 {
                    let mut encoded: Vec<u8> = Vec::new();
                    push_encoded_value(&mut encoded, value);
                    assert(encoded@ == encode_value(value@));
                    fields.insert(position, HeaderField { name: old_field.name, value: encoded });
                }
                assert(fields_view(fields@) =~= apply_one(before, op));
            },
            None => {},
        }
        k += 1;
    }
    assert(ops.take(ops.len() as int) == ops);
    if !modified {
        return None;
    }
    let mut out: Vec<u8> = Vec::new();
    let mut i: usize = 0;
    let ghost list = fields_view(fields@);
    assert(list.take(0) == Seq::<Field>::empty());
    while i < fields.len()
        invariant
            i <= fields@.len(),
            list == fields_view(fields@),
            out@ == field_lines(list.take(i as int)),
        decreases fields@.len() - i,
    {
        assert(list.take(i + 1).drop_last() == list.take(i as int));
        push_field_line(&mut out, &fields[i]);
        i += 1;
    }
    assert(list.take(list.len() as int) == list);
    out.push(CR);
    out.push(LF);
    if found {
        append_bytes(&mut out, slice_subrange(raw, end + 4, raw.len()));
    }
    assert(out@ == field_lines(list) + seq![CR, LF] + body_section(raw@));
    Some(out)
}

} // verus!
