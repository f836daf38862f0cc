//! The history of a Library: a file that checkpoints are appended to, and that
//! keeps every byte that was ever in it.

use vstd::prelude::*;
use vstd::slice::slice_to_vec;
use vstd::utf8::{
    char_is_scalar, decode_utf8, decode_utf8_encode_utf8, encode_scalar, encode_utf8,
    encode_utf8_decode_utf8, encode_utf8_valid_utf8, has_width_1_encoding, valid_utf8,
};
use crate::outside::text_from_utf8;
use crate::scaffold::has_line;
use crate::text::{
    chars_of, contains_text, decimal, decimal_string, lemma_contained, lemma_pieces_concat,
    lemma_pieces_single, lemma_pieces_some, pieces, same_text, starts_with, string_of, trim,
    trimmed, white_space, Text,
};

verus! {

/// The heading of a checkpoint.
pub open spec fn checkpoint_heading(revision: Text) -> Text {
    "## Checkpoint "@ + revision
}

/// What is appended to the history at a checkpoint.
pub open spec fn checkpoint_record(revision: Text, unix_time: nat) -> Text {
    "\n## Checkpoint "@ + revision + "\n\n- unix_time: "@ + decimal(unix_time)
        + "\n- validated_revision: "@ + revision + "\n"@
}

/// The bytes are text that says `line`, with or without white space around it.
pub open spec fn says(bytes: Seq<u8>, line: Text) -> bool {
    valid_utf8(bytes) && trimmed(decode_utf8(bytes)) == line
}

/// One of the lines of `content` says `line`. The other lines need not be text.
pub open spec fn says_line(content: Seq<u8>, line: Text) -> bool {
    exists|i: int|
        0 <= i < pieces(content, 10u8).len() && says(#[trigger] pieces(content, 10u8)[i], line)
}

/// The history with a checkpoint appended to whatever bytes it holds. One that is
/// in it already is not appended again.
pub open spec fn history_after(content: Seq<u8>, revision: Text, unix_time: nat) -> Option<Seq<u8>> {
    if says_line(content, checkpoint_heading(revision)) {
        None
    } else {
        Some(content + encode_utf8(checkpoint_record(revision, unix_time)))
    }
}

/// The views of a list of byte vectors.
pub open spec fn byte_lists(items: Seq<Vec<u8>>) -> Seq<Seq<u8>> {
    Seq::new(items.len(), |i: int| items[i]@)
}

/// The view of optional bytes.
pub open spec fn optional_bytes(item: Option<Vec<u8>>) -> Option<Seq<u8>> {
    match item {
        Some(bytes) => Some(bytes@),
        None => None,
    }
}

/// The lines of `content`.
fn byte_lines(content: &[u8]) -> (r: Vec<Vec<u8>>)
    ensures
        byte_lists(r@) == pieces(content@, 10u8),
{
    let mut done: Vec<Vec<u8>> = Vec::new();
    let mut current: Vec<u8> = Vec::new();
    let mut i: usize = 0;
    assert(content@.take(0) =~= Seq::<u8>::empty());
    assert(byte_lists(done@).push(current@) =~= pieces(content@.take(0), 10u8));
    while i < content.len()
        invariant
            i <= content@.len(),
            byte_lists(done@).push(current@) == pieces(content@.take(i as int), 10u8),
        decreases content@.len() - i,
    {
        let ghost before = byte_lists(done@);
        let ghost piece = current@;
        assert(content@.take(i + 1).drop_last() =~= content@.take(i as int));
        assert(content@.take(i + 1).last() == content@[i as int]);
        if content[i] == 10 {
            done.push(current);
            current = Vec::new();
            assert(byte_lists(done@) =~= before.push(piece));
        } else {
            current.push(content[i]);
            assert(before.push(piece).drop_last() =~= before);
        }
        i += 1;
    }
    assert(content@.take(i as int) =~= content@);
    let ghost before = byte_lists(done@);
    let ghost piece = current@;
    done.push(current);
    assert(byte_lists(done@) =~= before.push(piece));
    done
}

/// Whether one of the lines of `content` says `line`.
fn line_said(content: &[u8], line: &str) -> (r: bool)
    ensures
        r == says_line(content@, line@),
{
    let parts = byte_lines(content);
    let ghost all = byte_lists(parts@);
    let mut i: usize = 0;
    while i < parts.len()
        invariant
            i <= parts@.len(),
            all == byte_lists(parts@),
            all == pieces(content@, 10u8),
            forall|j: int| 0 <= j < i ==> !says(#[trigger] all[j], line@),
        decreases parts@.len() - i,
    {
        assert(all[i as int] == parts@[i as int]@);
        match text_from_utf8(parts[i].clone()) {
            Err(_) => {},
            Ok(text) => {
                let chars = chars_of(text.as_str());
                let inner = string_of(trim(chars.as_slice()));
                if same_text(inner.as_str(), line) {
                    return true;
                }
            },
        }
        i += 1;
    }
    false
}

/// The history with a checkpoint appended to whatever bytes it holds. One that is
/// in it already is not appended again.
pub fn append_history(content: &[u8], revision: &str, unix_time: u64) -> (r: Option<Vec<u8>>)
    ensures
        optional_bytes(r) == history_after(content@, revision@, unix_time as nat),
        valid_utf8(content@) ==> (r is None <==> has_line(
            decode_utf8(content@),
            checkpoint_heading(revision@),
        )),
        r matches Some(new) ==> content@.is_prefix_of(new@),
{
    proof {
        if valid_utf8(content@) {
            decode_utf8_encode_utf8(content@);
            law_history_of_text(decode_utf8(content@), revision@, unix_time as nat);
        }
    }
    let heading = "## Checkpoint ".to_owned().concat(revision);
    if line_said(content, heading.as_str()) {
        return None;
    }
    let record = "\n## Checkpoint ".to_owned().concat(revision).concat("\n\n- unix_time: ").concat(
        decimal_string(unix_time as u128).as_str(),
    ).concat("\n- validated_revision: ").concat(revision).concat("\n");
    let added = record.as_str().as_bytes();
    let mut new = slice_to_vec(content);
    let mut i: usize = 0;
    assert(added@.take(0) =~= Seq::<u8>::empty());
    while i < added.len()
        invariant
            i <= added@.len(),
            new@ == content@ + added@.take(i as int),
        decreases added@.len() - i,
    {
        new.push(added[i]);
        assert(added@.take(i + 1) =~= added@.take(i as int).push(added@[i as int]));
        i += 1;
    }
    assert(added@.take(i as int) =~= added@);
    Some(new)
}

/// The bytes of two texts one after the other are those of the first and then
/// those of the second.
proof fn lemma_encode_concat(a: Text, b: Text)
    ensures
        encode_utf8(a + b) == encode_utf8(a) + encode_utf8(b),
    decreases a.len(),
{
    if a.len() == 0 {
        assert(a + b =~= b);
        assert(encode_utf8(a) + encode_utf8(b) =~= encode_utf8(b));
    } else {
        assert((a + b).drop_first() =~= a.drop_first() + b);
        lemma_encode_concat(a.drop_first(), b);
        assert(encode_utf8(a + b) =~= encode_utf8(a) + encode_utf8(b));
    }
}

/// The line break is one byte, and no other character has that byte in it.
proof fn lemma_scalar_bytes(c: char)
    ensures
        encode_utf8(seq![c]) == encode_scalar(c as u32),
        c == '\n' ==> encode_scalar(c as u32) == seq![10u8],
        c != '\n' ==> !encode_scalar(c as u32).contains(10u8),
{
    let v = c as u32;
    assert(seq![c].drop_first() =~= Seq::<char>::empty());
    assert(encode_utf8(Seq::<char>::empty()) =~= Seq::<u8>::empty());
    assert(encode_utf8(seq![c]) =~= encode_scalar(v));
    char_is_scalar(c);
    if has_width_1_encoding(v) {
        assert(((v & 0x7F) as u8 == 10u8) == (v == 10)) by (bit_vector)
            requires
                v <= 0x7F,
        ;
        if c == '\n' {
            assert(encode_scalar(v) =~= seq![10u8]);
        }
    } else {
        assert(forall|x: u8| #[trigger] (0x80u8 | x) != 10u8) by (bit_vector);
        assert(forall|x: u8| #[trigger] (0xC0u8 | x) != 10u8) by (bit_vector);
        assert(forall|x: u8| #[trigger] (0xE0u8 | x) != 10u8) by (bit_vector);
        assert(forall|x: u8| #[trigger] (0xF0u8 | x) != 10u8) by (bit_vector);
    }
}

/// What holds no separator only makes the last piece longer.
proof fn lemma_pieces_extend<T>(s: Seq<T>, tail: Seq<T>, separator: T)
    requires
        !tail.contains(separator),
    ensures
        pieces(s + tail, separator) == pieces(s, separator).drop_last().push(
            pieces(s, separator).last() + tail,
        ),
    decreases tail.len(),
{
    lemma_pieces_some(s, separator);
    let start = pieces(s, separator);
    if tail.len() == 0 {
        assert(s + tail =~= s);
        assert(start.last() + tail =~= start.last());
        assert(start.drop_last().push(start.last()) =~= start);
    } else {
        let front = tail.drop_last();
        assert forall|i: int| 0 <= i < front.len() implies front[i] != separator by {
            assert(front[i] == tail[i]);
        }
        lemma_pieces_extend(s, front, separator);
        assert((s + tail).drop_last() =~= s + front);
        assert((s + tail).last() == tail[tail.len() - 1]);
        let before = pieces(s + front, separator);
        assert(before.drop_last() =~= start.drop_last());
        assert((start.last() + front).push(tail.last()) =~= start.last() + tail);
    }
}

/// The bytes of each text.
spec fn encoded(list: Seq<Text>) -> Seq<Seq<u8>> {
    Seq::new(list.len(), |i: int| encode_utf8(list[i]))
}

/// The lines of the bytes of a text are the bytes of its lines.
proof fn lemma_encoded_lines(s: Text)
    ensures
        pieces(encode_utf8(s), 10u8) == encoded(pieces(s, '\n')),
    decreases s.len(),
{
    if s.len() == 0 {
        assert(encode_utf8(s) =~= Seq::<u8>::empty());
        assert(encode_utf8(Seq::<char>::empty()) =~= Seq::<u8>::empty());
        assert(pieces(encode_utf8(s), 10u8) =~= encoded(pieces(s, '\n')));
    } else {
        let front = s.drop_last();
        let c = s.last();
        let before = pieces(front, '\n');
        lemma_pieces_some(front, '\n');
        lemma_encoded_lines(front);
        assert(s =~= front + seq![c]);
        lemma_encode_concat(front, seq![c]);
        lemma_scalar_bytes(c);
        let start = encode_utf8(front);
        if c == '\n' {
            assert(encode_utf8(s) =~= start.push(10u8));
            assert(start.push(10u8).drop_last() =~= start);
            assert(encode_utf8(Seq::<char>::empty()) =~= Seq::<u8>::empty());
            assert(encoded(before.push(Seq::empty())) =~= encoded(before).push(Seq::empty()));
        } else {
            let tail = encode_scalar(c as u32);
            lemma_pieces_extend(start, tail, 10u8);
            lemma_encode_concat(before.last(), seq![c]);
            assert(before.last() + seq![c] =~= before.last().push(c));
            assert(encoded(pieces(s, '\n')) =~= encoded(before).drop_last().push(
                encoded(before).last() + tail,
            ));
        }
    }
}

/// A text without a line break has none in its bytes.
proof fn lemma_encoded_clean(s: Text)
    requires
        !s.contains('\n'),
    ensures
        !encode_utf8(s).contains(10u8),
    decreases s.len(),
{
    if s.len() > 0 {
        let rest = s.drop_first();
        assert forall|i: int| 0 <= i < rest.len() implies rest[i] != '\n' by {
            assert(rest[i] == s[i + 1]);
        }
        lemma_encoded_clean(rest);
        assert(s[0] != '\n');
        lemma_scalar_bytes(s[0]);
        let (head, tail) = (encode_scalar(s[0] as u32), encode_utf8(rest));
        assert forall|i: int| 0 <= i < encode_utf8(s).len() implies encode_utf8(s)[i] != 10u8 by {
            if i < head.len() {
                assert(encode_utf8(s)[i] == head[i]);
            } else {
                assert(encode_utf8(s)[i] == tail[i - head.len()]);
            }
        }
    }
}

/// A history that is text is kept as text: the heading is looked for among its
/// lines, and the record follows its last character.
pub proof fn law_history_of_text(content: Text, revision: Text, unix_time: nat)
    ensures
        history_after(encode_utf8(content), revision, unix_time) == (if has_line(
            content,
            checkpoint_heading(revision),
        ) {
            None::<Seq<u8>>
        } else {
            Some(encode_utf8(content + checkpoint_record(revision, unix_time)))
        }),
{
    let bytes = encode_utf8(content);
    let line = checkpoint_heading(revision);
    let (lines, parts) = (pieces(content, '\n'), pieces(bytes, 10u8));
    lemma_encoded_lines(content);
    lemma_encode_concat(content, checkpoint_record(revision, unix_time));
    assert forall|i: int| 0 <= i < lines.len() implies says(#[trigger] parts[i], line) == (trimmed(
        lines[i],
    ) == line) by {
        encode_utf8_valid_utf8(lines[i]);
        encode_utf8_decode_utf8(lines[i]);
    }
    if has_line(content, line) {
        let i = choose|i: int| 0 <= i < lines.len() && trimmed(#[trigger] lines[i]) == line;
        assert(says(parts[i], line));
    }
    if says_line(bytes, line) {
        let i = choose|i: int| 0 <= i < parts.len() && says(#[trigger] parts[i], line);
        assert(trimmed(lines[i]) == line);
    }
}

/// The bytes of a record: a line break, the heading, a line break, and the rest.
proof fn lemma_record_bytes(revision: Text, unix_time: nat) -> (rest: Seq<u8>)
    ensures
        encode_utf8(checkpoint_record(revision, unix_time)) == seq![10u8] + (encode_utf8(
            checkpoint_heading(revision),
        ).push(10u8) + rest),
{
    reveal_strlit("## Checkpoint ");
    reveal_strlit("\n## Checkpoint ");
    reveal_strlit("\n\n- unix_time: ");
    let heading = checkpoint_heading(revision);
    let record = checkpoint_record(revision, unix_time);
    let tail = record.skip(heading.len() as int + 2);
    let break_text = seq!['\n'];
    assert("\n## Checkpoint "@ =~= break_text + "## Checkpoint "@);
    assert(record[heading.len() as int + 1] == '\n');
    assert(record =~= break_text + (heading + (break_text + tail)));
    lemma_encode_concat(break_text, heading + (break_text + tail));
    lemma_encode_concat(heading, break_text + tail);
    lemma_encode_concat(break_text, tail);
    lemma_scalar_bytes('\n');
    let rest = encode_utf8(tail);
    assert(encode_utf8(record) =~= seq![10u8] + (encode_utf8(heading).push(10u8) + rest));
    rest
}

/// The history only grows: whatever bytes it holds, a checkpoint keeps them all in
/// front, and every line stays.
pub proof fn law_history_only_grows(
    content: Seq<u8>,
    revision: Text,
    unix_time: nat,
    line: Text,
)
    ensures
        history_after(content, revision, unix_time) matches Some(new) ==> {
            &&& content.is_prefix_of(new)
            &&& says_line(content, line) ==> says_line(new, line)
        },
{
    if let Some(new) = history_after(content, revision, unix_time) {
        let rest = lemma_record_bytes(revision, unix_time);
        let tail = encode_utf8(checkpoint_heading(revision)).push(10u8) + rest;
        assert(new =~= content.push(10u8) + tail);
        lemma_pieces_concat(content, tail, 10u8);
        if says_line(content, line) {
            let i = choose|i: int|
                0 <= i < pieces(content, 10u8).len() && says(
                    #[trigger] pieces(content, 10u8)[i],
                    line,
                );
            assert(pieces(new, 10u8)[i] == pieces(content, 10u8)[i]);
        }
    }
}

/// A checkpoint stands in the history once, whatever else it holds: after it was
/// appended its heading is found, so that it is not appended again. A revision that
/// spans lines or ends in white space is not found.
pub proof fn law_checkpoint_is_recorded_once(
    content: Seq<u8>,
    revision: Text,
    unix_time: nat,
    later: nat,
)
    requires
        revision.len() > 0,
        !revision.contains('\n'),
        !white_space(revision.last()),
    ensures
        history_after(content, revision, unix_time) matches Some(new) ==> history_after(
            new,
            revision,
            later,
        ) is None,
{
    if let Some(new) = history_after(content, revision, unix_time) {
        reveal_strlit("## Checkpoint ");
        let heading = checkpoint_heading(revision);
        let start = "## Checkpoint "@;
        assert(heading[0] == '#');
        assert(heading.last() == revision.last());
        assert(trimmed(heading) == heading);
        assert forall|i: int| 0 <= i < heading.len() implies heading[i] != '\n' by {
            if i >= start.len() {
                assert(heading[i] == revision[i - start.len()]);
            }
        }
        let bytes = encode_utf8(heading);
        let rest = lemma_record_bytes(revision, unix_time);
        let tail = bytes.push(10u8) + rest;
        assert(new =~= content.push(10u8) + tail);
        lemma_encoded_clean(heading);
        lemma_pieces_single(bytes, 10u8);
        lemma_pieces_concat(bytes, rest, 10u8);
        lemma_pieces_concat(content, tail, 10u8);
        let at = pieces(content, 10u8).len() as int;
        assert(pieces(tail, 10u8)[0] == bytes);
        assert(pieces(new, 10u8)[at] == bytes);
        encode_utf8_valid_utf8(heading);
        encode_utf8_decode_utf8(heading);
        assert(says(pieces(new, 10u8)[at], heading));
    }
}

/// A record names its checkpoint, when it was made and what it validated, each on a
/// line of its own, after a line break and before the end of a line.
pub proof fn law_records_tell_revision_and_time(revision: Text, unix_time: nat)
    ensures
        ({
            let record = checkpoint_record(revision, unix_time);
            &&& starts_with(record, "\n## Checkpoint "@ + revision + "\n"@)
            &&& contains_text(record, "\n- unix_time: "@ + decimal(unix_time) + "\n"@)
            &&& contains_text(record, "\n- validated_revision: "@ + revision + "\n"@)
            &&& record.last() == '\n'
        }),
{
    reveal_strlit("\n");
    reveal_strlit("\n- unix_time: ");
    reveal_strlit("\n\n- unix_time: ");
    reveal_strlit("\n## Checkpoint ");
    reveal_strlit("\n- validated_revision: ");
    let record = checkpoint_record(revision, unix_time);
    let (a, b, c) = ("\n## Checkpoint "@, "\n\n- unix_time: "@, "\n- validated_revision: "@);
    let head = a + revision + "\n"@;
    assert(record.subrange(0, head.len() as int) =~= head);
    let time = "\n- unix_time: "@ + decimal(unix_time) + "\n"@;
    assert(b =~= "\n"@ + "\n- unix_time: "@);
    assert(c =~= "\n"@ + c.drop_first());
    assert(record =~= (a + revision + "\n"@) + time + (c.drop_first() + revision + "\n"@));
    lemma_contained(
        record,
        a + revision + "\n"@,
        time,
        c.drop_first() + revision + "\n"@,
    );
    assert(record =~= (a + revision + b + decimal(unix_time)) + (c + revision + "\n"@)
        + Seq::<char>::empty());
    lemma_contained(
        record,
        a + revision + b + decimal(unix_time),
        c + revision + "\n"@,
        Seq::empty(),
    );
}

/// A checkpoint is left out exactly where one of the lines of the history is its
/// heading, and is appended otherwise.
pub proof fn law_history_is_left_alone_exactly_when_recorded(
    content: Seq<u8>,
    revision: Text,
    unix_time: nat,
)
    ensures
        history_after(content, revision, unix_time) is None <==> exists|i: int|
            0 <= i < pieces(content, 10u8).len() && valid_utf8(
                #[trigger] pieces(content, 10u8)[i],
            ) && trimmed(decode_utf8(pieces(content, 10u8)[i])) == "## Checkpoint "@ + revision,
        history_after(content, revision, unix_time) matches Some(new) ==> new == content
            + encode_utf8(checkpoint_record(revision, unix_time)),
{
    if history_after(content, revision, unix_time) is None {
        let i = choose|i: int|
            0 <= i < pieces(content, 10u8).len() && says(
                #[trigger] pieces(content, 10u8)[i],
                checkpoint_heading(revision),
            );
        assert(valid_utf8(pieces(content, 10u8)[i]));
    }
    if exists|i: int|
        0 <= i < pieces(content, 10u8).len() && valid_utf8(#[trigger] pieces(content, 10u8)[i])
            && trimmed(decode_utf8(pieces(content, 10u8)[i])) == "## Checkpoint "@ + revision {
        let i = choose|i: int|
            0 <= i < pieces(content, 10u8).len() && valid_utf8(#[trigger] pieces(content, 10u8)[i])
                && trimmed(decode_utf8(pieces(content, 10u8)[i])) == "## Checkpoint "@ + revision;
        assert(says(pieces(content, 10u8)[i], checkpoint_heading(revision)));
    }
}

} // verus!
