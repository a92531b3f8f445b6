//! What holds of a message whose headers were replaced: read again, it
//! shows the headers that the replacements left, and the body it had.

use vstd::prelude::*;
use crate::bytes::{index_of, is_blank, lemma_index_of, COLON, CR, LF, SPACE};
use crate::rewrite::{
    after_colon, applies, apply_all, apply_one, body_section, encode_value, field_line,
    field_lines, has_no_line_break, header_section, is_occurrence, is_terminator_at,
    last_line_start, lemma_encoded_value_has_no_line_break, lemma_terminator_from,
    lemma_tokenize_line, occurrence, replaced_message, take_line, terminator_from, tokenize,
    without_final_cr, without_final_lf, Field, Replacement,
};

verus! {

/// Whether `name` can be read back as the name of a header: it holds no
/// line feed and no colon, and does not begin with a space or a tab.
pub open spec fn name_reads_back(name: Seq<u8>) -> bool {
    &&& forall|i: int| 0 <= i < name.len() ==> #[trigger] name[i] != LF && name[i] != COLON
    &&& name.len() > 0 ==> !is_blank(name[0])
}

/// Whether every line feed in `value` belongs to a fold: a carriage return
/// stands before it and a space or a tab after it.
pub open spec fn is_folded(value: Seq<u8>) -> bool {
    forall|i: int|
        0 <= i < value.len() && #[trigger] value[i] == LF ==> {
            &&& 0 < i
            &&& value[i - 1] == CR
            &&& i + 1 < value.len()
            &&& is_blank(value[i + 1])
        }
}

/// What holds of every field that the tokenizer finds, and of every field
/// that a replacement leaves.
pub open spec fn is_well_formed(field: Field) -> bool {
    name_reads_back(field.name) && is_folded(field.value)
}

/// Whether the value of `field` does not begin with a space. One space
/// after the colon is not part of a value, so a value that begins with one
/// is read back without it.
pub open spec fn keeps_its_start(field: Field) -> bool {
    field.value.len() == 0 || field.value[0] != SPACE
}

/// What stands between the name and the value of a field written out.
pub open spec fn separator(value: Seq<u8>) -> Seq<u8> {
    if value.len() > 0 && is_blank(value[0]) {
        seq![COLON]
    } else {
        seq![COLON, SPACE]
    }
}

/// Whether no line of `s` but the last is empty: no line feed is followed
/// by a carriage return and a line feed.
pub open spec fn has_no_empty_line(s: Seq<u8>) -> bool {
    forall|j: int|
        0 <= j && j + 2 < s.len() && #[trigger] s[j] == LF ==> !(s[j + 1] == CR && s[j + 2] == LF)
}

/// Whether `s` is empty or ends with a carriage return and a line feed.
pub open spec fn ends_in_crlf(s: Seq<u8>) -> bool {
    s.len() == 0 || (s.len() >= 2 && s[s.len() - 2] == CR && s[s.len() - 1] == LF)
}

/// No line feed stands at or after the start of the last line, and one
/// stands right before it unless the last line is the first.
pub proof fn lemma_last_line(s: Seq<u8>)
    ensures
        0 <= last_line_start(s) <= s.len(),
        forall|i: int| last_line_start(s) <= i < s.len() ==> s[i] != LF,
        last_line_start(s) > 0 ==> s[last_line_start(s) - 1] == LF,
    decreases s.len(),
{
    if s.len() > 0 && s.last() != LF {
        lemma_last_line(s.drop_last());
        let q = last_line_start(s.drop_last());
        assert forall|i: int| q <= i < s.len() implies s[i] != LF by {
            if i < s.len() - 1 {
                assert(s.drop_last()[i] == s[i]);
            }
        }
        if q > 0 {
            assert(s.drop_last()[q - 1] == s[q - 1]);
        }
    }
}

/// A well-formed field is written out as its name, the separator, its
/// value and a CRLF.
pub proof fn lemma_field_line(field: Field)
    requires
        is_well_formed(field),
    ensures
        field_line(field) == field.name + separator(field.value) + field.value + seq![CR, LF],
{
    let v = field.value;
    if v.len() > 0 && v.last() == LF {
        assert(v[v.len() - 1] == LF);
    }
}

/// The first line feed at or after `start` is the last byte of `s` where
/// no other byte from `start` on is one.
proof fn lemma_line_ends_at_end(s: Seq<u8>, start: int)
    requires
        0 <= start < s.len(),
        s.last() == LF,
        forall|i: int| start <= i < s.len() - 1 ==> s[i] != LF,
    ensures
        index_of(s, LF, start) == s.len() - 1,
{
    lemma_index_of(s, LF, start);
    let r = index_of(s, LF, start);
    if r > s.len() - 1 {
        assert(s[s.len() - 1] != LF);
    }
}

/// A line that opens a field is read as that field.
proof fn lemma_take_opening_line(fields: Seq<Field>, field: Field)
    requires
        name_reads_back(field.name),
        keeps_its_start(field),
        has_no_line_feed(field.value),
    ensures
        take_line(fields, field.name + separator(field.value) + field.value) == fields.push(field),
{
    let name = field.name;
    let v = field.value;
    let sep = separator(v);
    let line = name + sep + v;
    assert(line[name.len() as int] == COLON);
    if name.len() > 0 {
        assert(line[0] == name[0]);
    }
    lemma_index_of(line, COLON, 0);
    let colon = index_of(line, COLON, 0);
    assert(colon == name.len()) by {
        if colon < name.len() {
            assert(line[colon] == name[colon]);
        }
    }
    assert(line.take(colon) =~= name);
    let rest = line.skip(colon + 1);
    if v.len() > 0 && is_blank(v[0]) {
        assert(rest =~= v);
        assert(rest[0] == v[0]);
    } else {
        assert(rest =~= seq![SPACE] + v);
        assert(rest[0] == SPACE);
        assert(rest.skip(1) =~= v);
    }
    assert(after_colon(rest) =~= v);
}

/// Whether `s` holds no line feed.
pub open spec fn has_no_line_feed(s: Seq<u8>) -> bool {
    forall|i: int| 0 <= i < s.len() ==> #[trigger] s[i] != LF
}

/// Behind text that ends a line, one more line with its CRLF is read as
/// that line.
proof fn lemma_tokenize_last_line(before: Seq<u8>, line: Seq<u8>)
    requires
        before.len() == 0 || before.last() == LF,
        has_no_line_feed(line),
    ensures
        tokenize(before + line + seq![CR, LF]) == take_line(tokenize(before), line),
{
    let s = before + line + seq![CR, LF];
    let start = before.len() as int;
    assert forall|i: int| start <= i < s.len() - 1 implies s[i] != LF by {
        if i < start + line.len() {
            assert(s[i] == line[i - start]);
        } else {
            assert(s[i] == CR);
        }
    }
    if start > 0 {
        assert(s[start - 1] == before.last());
    }
    assert(s.last() == LF);
    lemma_line_ends_at_end(s, start);
    lemma_tokenize_line(s, start);
    assert(s.take(s.len() as int) =~= s);
    assert(s.take(start) =~= before);
    assert(s.subrange(start, s.len() - 1) =~= line + seq![CR]);
    assert(without_final_cr(line + seq![CR]) =~= line);
}

/// A folded value with a line feed in it is a shorter folded value, a
/// CRLF, and a last line that begins with a space or a tab.
proof fn lemma_last_fold(value: Seq<u8>)
    requires
        is_folded(value),
        last_line_start(value) > 0,
    ensures
        ({
            let q = last_line_start(value);
            let shorter = value.take(q - 2);
            let tail = value.skip(q);
            &&& 2 <= q < value.len()
            &&& value == shorter + seq![CR, LF] + tail
            &&& is_folded(shorter)
            &&& separator(shorter) == separator(value)
            &&& shorter.len() > 0 ==> shorter[0] == value[0]
            &&& has_no_line_feed(tail)
            &&& is_blank(tail[0])
        }),
{
    lemma_last_line(value);
    let q = last_line_start(value);
    let p = q - 1;
    assert(value[p] == LF);
    let shorter = value.take(p - 1);
    let tail = value.skip(q);
    assert(value =~= shorter + seq![CR, LF] + tail);
    assert forall|i: int| 0 <= i < shorter.len() && #[trigger] shorter[i] == LF implies 0 < i
        && shorter[i - 1] == CR && i + 1 < shorter.len() && is_blank(shorter[i + 1]) by {
        assert(value[i] == LF);
        if i + 1 == shorter.len() {
            assert(value[i + 1] == CR);
        }
    }
    if shorter.len() > 0 {
        assert(shorter[0] == value[0]);
    } else {
        assert(value[0] == CR);
    }
    assert forall|i: int| 0 <= i < tail.len() implies #[trigger] tail[i] != LF by {
        assert(tail[i] == value[q + i]);
    }
    assert(tail[0] == value[q]);
}

/// A line that continues a field is read into the value of that field.
proof fn lemma_take_continuation(fields: Seq<Field>, name: Seq<u8>, shorter: Seq<u8>, tail: Seq<u8>)
    requires
        tail.len() > 0,
        is_blank(tail[0]),
    ensures
        take_line(fields.push(Field { name, value: shorter }), tail) == fields.push(
            Field { name, value: shorter + seq![CR, LF] + tail },
        ),
{
    let grown = fields.push(Field { name, value: shorter });
    assert(grown.drop_last() =~= fields);
}

/// Written out behind text that ends a line, a field is read back as it
/// is, after the fields of that text.
pub proof fn lemma_tokenize_field_line(before: Seq<u8>, field: Field)
    requires
        before.len() == 0 || before.last() == LF,
        is_well_formed(field),
        keeps_its_start(field),
    ensures
        tokenize(before + field_line(field)) == tokenize(before).push(field),
    decreases field.value.len(),
{
    let name = field.name;
    let v = field.value;
    let sep = separator(v);
    lemma_field_line(field);
    lemma_last_line(v);
    if last_line_start(v) == 0 {
        let line = name + sep + v;
        assert forall|i: int| 0 <= i < line.len() implies #[trigger] line[i] != LF by {
            if i < name.len() {
                assert(line[i] == name[i]);
            } else if i < name.len() + sep.len() {
                assert(line[i] == sep[i - name.len()]);
            } else {
                assert(line[i] == v[i - name.len() - sep.len()]);
            }
        }
        assert(before + field_line(field) =~= before + line + seq![CR, LF]);
        lemma_tokenize_last_line(before, line);
        lemma_take_opening_line(tokenize(before), field);
    } else {
        lemma_last_fold(v);
        let q = last_line_start(v);
        let shorter = v.take(q - 2);
        let tail = v.skip(q);
        let front = Field { name, value: shorter };
        lemma_field_line(front);
        lemma_tokenize_field_line(before, front);
        let prefix = before + field_line(front);
        assert(prefix.last() == LF);
        assert(before + field_line(field) =~= prefix + tail + seq![CR, LF]);
        lemma_tokenize_last_line(prefix, tail);
        lemma_take_continuation(tokenize(before), name, shorter, tail);
    }
}

/// Fields written out one after the other are read back as they are.
pub proof fn lemma_tokenize_field_lines(fields: Seq<Field>)
    requires
        forall|k: int| 0 <= k < fields.len() ==> is_well_formed(#[trigger] fields[k]),
        forall|k: int| 0 <= k < fields.len() ==> keeps_its_start(#[trigger] fields[k]),
    ensures
        tokenize(field_lines(fields)) == fields,
        ends_in_crlf(field_lines(fields)),
        has_no_empty_line(field_lines(fields)),
        fields.len() > 0 ==> field_lines(fields).len() >= 2,
    decreases fields.len(),
{
    if fields.len() == 0 {
        assert(tokenize(field_lines(fields)) =~= fields);
    } else {
        let front = fields.drop_last();
        let last = fields.last();
        assert forall|k: int| 0 <= k < front.len() implies is_well_formed(#[trigger] front[k])
            && keeps_its_start(front[k]) by {
            assert(front[k] == fields[k]);
        }
        lemma_tokenize_field_lines(front);
        let before = field_lines(front);
        let line = field_line(last);
        lemma_field_line(last);
        lemma_tokenize_field_line(before, last);
        assert(front.push(last) =~= fields);
        let s = before + line;
        let name = last.name;
        let sep = separator(last.value);
        let v = last.value;
        assert(line.len() >= 3);
        assert(s[s.len() - 1] == line[line.len() - 1]);
        assert(s[s.len() - 2] == line[line.len() - 2]);
        assert forall|j: int| 0 <= j && j + 2 < s.len() && #[trigger] s[j] == LF implies !(s[j
            + 1] == CR && s[j + 2] == LF) by {
            if j + 2 < before.len() {
                assert(before[j] == LF);
                assert(s[j + 1] == before[j + 1] && s[j + 2] == before[j + 2]);
            } else if j < before.len() {
                if j == before.len() - 1 {
                    assert(s[j + 1] == line[0] && s[j + 2] == line[1]);
                    if name.len() == 0 {
                        assert(line[0] == COLON);
                    } else if name.len() == 1 {
                        assert(line[1] == COLON);
                    } else {
                        assert(line[1] == name[1]);
                    }
                } else {
                    assert(s[j] == before[j]);
                    assert(before[before.len() - 2] == CR);
                }
            } else {
                let i = j - before.len();
                assert(line[i] == LF);
                let offset = name.len() + sep.len();
                if i < name.len() {
                    assert(line[i] == name[i]);
                } else if i < offset {
                    assert(line[i] == sep[i - name.len()]);
                } else if i < offset + v.len() {
                    assert(line[i] == v[i - offset]);
                    assert(v[i - offset] == LF);
                    assert(s[j + 1] == line[i + 1]);
                    assert(line[i + 1] == v[i + 1 - offset]);
                } else {
                    assert(i == line.len() - 1);
                }
            }
        }
    }
}

/// Every field that the tokenizer finds is well formed.
pub proof fn lemma_tokenize_well_formed(section: Seq<u8>)
    ensures
        forall|k: int|
            0 <= k < tokenize(section).len() ==> is_well_formed(#[trigger] tokenize(section)[k]),
    decreases section.len(),
{
    let text = without_final_lf(section);
    let start = last_line_start(text);
    if !(section.len() == 0 || start < 0 || start >= section.len()) {
        lemma_last_line(text);
        let before = tokenize(section.take(start));
        lemma_tokenize_well_formed(section.take(start));
        let whole = text.skip(start);
        let line = without_final_cr(whole);
        assert forall|i: int| 0 <= i < line.len() implies line[i] != LF by {
            assert(line[i] == whole[i]);
            assert(whole[i] == text[start + i]);
        }
        let after = take_line(before, line);
        assert(tokenize(section) == after);
        if line.len() > 0 && is_blank(line[0]) {
            if before.len() > 0 {
                let old = before.last();
                let value = old.value + seq![CR, LF] + line;
                assert(is_well_formed(old));
                assert(is_folded(value)) by {
                    assert forall|i: int| 0 <= i < value.len() && #[trigger] value[i]
                        == LF implies 0 < i && value[i - 1] == CR && i + 1 < value.len()
                        && is_blank(value[i + 1]) by {
                        if i < old.value.len() {
                            assert(old.value[i] == LF);
                            assert(value[i - 1] == old.value[i - 1]);
                            if i + 1 < old.value.len() {
                                assert(value[i + 1] == old.value[i + 1]);
                            }
                        } else if i == old.value.len() + 1 {
                            assert(value[i - 1] == CR);
                            assert(value[i + 1] == line[0]);
                        } else if i > old.value.len() + 1 {
                            assert(value[i] == line[i - old.value.len() - 2]);
                        } else {
                            assert(value[i] == CR);
                        }
                    }
                }
                assert forall|k: int| 0 <= k < after.len() implies is_well_formed(
                    #[trigger] after[k],
                ) by {
                    if k < before.len() - 1 {
                        assert(after[k] == before[k]);
                    }
                }
            }
        } else {
            lemma_index_of(line, COLON, 0);
            let colon = index_of(line, COLON, 0);
            if colon < line.len() {
                let name = line.take(colon);
                let value = after_colon(line.skip(colon + 1));
                assert(name_reads_back(name)) by {
                    assert forall|i: int| 0 <= i < name.len() implies #[trigger] name[i] != LF
                        && name[i] != COLON by {
                        assert(name[i] == line[i]);
                    }
                    if name.len() > 0 {
                        assert(name[0] == line[0]);
                    }
                }
                assert(is_folded(value)) by {
                    assert forall|i: int| 0 <= i < value.len() implies #[trigger] value[i]
                        != LF by {
                        let rest = line.skip(colon + 1);
                        if rest.len() > 0 && rest[0] == SPACE {
                            assert(value[i] == rest[i + 1]);
                            assert(rest[i + 1] == line[colon + 1 + i + 1]);
                        } else {
                            assert(value[i] == rest[i]);
                            assert(rest[i] == line[colon + 1 + i]);
                        }
                    }
                }
                assert forall|k: int| 0 <= k < after.len() implies is_well_formed(
                    #[trigger] after[k],
                ) by {
                    if k < before.len() {
                        assert(after[k] == before[k]);
                    }
                }
            }
        }
    }
}

/// What a replacement that finds its header does: the header stands where
/// the ordinal says, and is either removed or keeps its name and gets the
/// encoded value; every other field stays as it is.
pub proof fn lemma_apply_one(fields: Seq<Field>, op: Replacement)
    requires
        applies(fields, op),
    ensures
        ({
            let position = occurrence(fields, op.name, op.index);
            &&& is_occurrence(fields, op.name, op.index, position)
            &&& op.value.len() == 0 ==> apply_one(fields, op) == fields.remove(position)
            &&& op.value.len() > 0 ==> {
                &&& apply_one(fields, op).len() == fields.len()
                &&& apply_one(fields, op)[position].name == fields[position].name
                &&& apply_one(fields, op)[position].value == encode_value(op.value)
                &&& has_no_line_break(apply_one(fields, op)[position].value)
                &&& forall|k: int|
                    0 <= k < fields.len() && k != position ==> apply_one(fields, op)[k]
                        == fields[k]
            }
        }),
{
    lemma_encoded_value_has_no_line_break(op.value);
}

/// Replacements leave well-formed fields well formed.
pub proof fn lemma_apply_all_well_formed(fields: Seq<Field>, ops: Seq<Replacement>)
    requires
        forall|k: int| 0 <= k < fields.len() ==> is_well_formed(#[trigger] fields[k]),
    ensures
        forall|k: int|
            0 <= k < apply_all(fields, ops).len() ==> is_well_formed(
                #[trigger] apply_all(fields, ops)[k],
            ),
    decreases ops.len(),
{
    if ops.len() > 0 {
        lemma_apply_all_well_formed(fields, ops.drop_last());
        let before = apply_all(fields, ops.drop_last());
        let op = ops.last();
        let after = apply_one(before, op);
        if applies(before, op) {
            lemma_apply_one(before, op);
            let position = occurrence(before, op.name, op.index);
            assert forall|k: int| 0 <= k < after.len() implies is_well_formed(
                #[trigger] after[k],
            ) by {
                if op.value.len() == 0 {
                    if k < position {
                        assert(after[k] == before[k]);
                    } else {
                        assert(after[k] == before[k + 1]);
                    }
                } else if k == position {
                    assert(is_well_formed(before[position]));
                    let value = after[k].value;
                    assert forall|i: int| 0 <= i < value.len() implies #[trigger] value[i]
                        != LF by {}
                } else {
                    assert(after[k] == before[k]);
                }
            }
        }
    }
}

/// Where a rewritten message begins with at least one header line, its
/// header section is these lines and its body is what follows the empty
/// line behind them.
pub proof fn lemma_sections_of_rewritten(lines: Seq<u8>, body: Seq<u8>)
    requires
        lines.len() >= 2,
        ends_in_crlf(lines),
        has_no_empty_line(lines),
    ensures
        header_section(lines + seq![CR, LF] + body) == lines,
        body_section(lines + seq![CR, LF] + body) == body,
{
    let out = lines + seq![CR, LF] + body;
    let end = lines.len() - 2;
    assert(out[end] == lines[end]);
    assert(out[end + 1] == lines[end + 1]);
    assert(out[end + 2] == CR);
    assert(out[end + 3] == LF);
    assert(is_terminator_at(out, end));
    assert forall|i: int| 0 <= i < end implies !is_terminator_at(out, i) by {
        if is_terminator_at(out, i) {
            let j = i + 1;
            assert(out[j] == lines[j]);
            if j + 2 < lines.len() {
                assert(out[j + 1] == lines[j + 1]);
                assert(out[j + 2] == lines[j + 2]);
                assert(lines[j] == LF);
            } else {
                assert(j == end);
            }
        }
    }
    lemma_terminator_from(out, 0);
    let found = terminator_from(out, 0);
    assert(found == end) by {
        if found > end {
            assert(!is_terminator_at(out, end));
        }
    }
    assert(out.take(end + 2) =~= lines);
    assert(out.skip(end + 4) =~= body);
}

/// A message whose headers were replaced reads back as what the
/// replacements left: its fields are the fields of the message it was made
/// from with each replacement applied in turn, and its body is the body of
/// that message.
///
/// Two things are asked of what the replacements left. At least one field
/// is left: where none is, the body would be read as headers. And no value
/// begins with a space: a value that does is written out with one space
/// less than it is read with, as the single space after the colon is not
/// part of a value. A header line `Subject:  late` (two spaces) and a
/// replacement with the value ` late` both give such a value.
pub proof fn lemma_replaced_message_reads_back(ops: Seq<Replacement>, raw: Seq<u8>)
    requires
        replaced_message(ops, raw) is Some,
        apply_all(tokenize(header_section(raw)), ops).len() > 0,
        forall|k: int|
            0 <= k < apply_all(tokenize(header_section(raw)), ops).len() ==> keeps_its_start(
                #[trigger] apply_all(tokenize(header_section(raw)), ops)[k],
            ),
    ensures
        tokenize(header_section(replaced_message(ops, raw).unwrap())) == apply_all(
            tokenize(header_section(raw)),
            ops,
        ),
        body_section(replaced_message(ops, raw).unwrap()) == body_section(raw),
{
    let parsed = tokenize(header_section(raw));
    let left = apply_all(parsed, ops);
    lemma_tokenize_well_formed(header_section(raw));
    lemma_apply_all_well_formed(parsed, ops);
    lemma_tokenize_field_lines(left);
    lemma_sections_of_rewritten(field_lines(left), body_section(raw));
}

} // verus!
