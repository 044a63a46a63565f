//! How a stream of bytes becomes lines, and how text is quoted on the wire.

use crate::wire::failure::ProtocolViolationKind;
use crate::wire::frame::{fed, fed_all, Decoded};
use crate::wire::json::{array_items, array_text, escaped, escaped_all, hex_digit, quoted};
use vstd::prelude::*;
use vstd::utf8::{decode_utf8, valid_utf8};

verus! {

/// Bytes without a line feed are only collected, as many as fit in a frame.
pub proof fn law_a_line_is_collected(d: Decoded, line: Seq<u8>)
    requires
        d.fault is None,
        forall|i: int| 0 <= i < line.len() ==> #[trigger] line[i] != 10,
        d.pending.len() + line.len() <= 524_288,
    ensures
        fed_all(d, line) == (Decoded {
            frames: d.frames,
            pending: d.pending + line,
            fault: None,
        }),
    decreases line.len(),
{
    if line.len() > 0 {
        let front = line.drop_last();
        assert forall|i: int| 0 <= i < front.len() implies #[trigger] front[i] != 10 by {
            assert(front[i] == line[i]);
        }
        assert(line[line.len() - 1] != 10);
        law_a_line_is_collected(d, front);
        assert((d.pending + front).push(line.last()) =~= d.pending + line);
    } else {
        assert(d.pending + line =~= d.pending);
    }
}

/// A line feed ends a frame: what was collected is the frame, if it is text, and the next
/// one begins with nothing. What is no text is a fault.
pub proof fn law_a_line_feed_ends_a_frame(d: Decoded)
    requires
        d.fault is None,
    ensures
        valid_utf8(d.pending) ==> fed(d, 10) == (Decoded {
            frames: d.frames.push(decode_utf8(d.pending)),
            pending: Seq::empty(),
            fault: None,
        }),
        !valid_utf8(d.pending) ==> fed(d, 10) == (Decoded {
            frames: d.frames,
            pending: d.pending,
            fault: Some(ProtocolViolationKind::NotUtf8),
        }),
{
}

/// A frame of more than 524288 bytes is a fault, at the first byte that is too much.
pub proof fn law_a_frame_is_bounded(d: Decoded, byte: u8)
    requires
        d.fault is None,
        d.pending.len() == 524_288,
        byte != 10,
    ensures
        fed(d, byte) == (Decoded {
            frames: d.frames,
            pending: d.pending,
            fault: Some(ProtocolViolationKind::OversizeFrame),
        }),
{
}

/// Nothing is decoded behind a fault.
pub proof fn law_nothing_is_decoded_behind_a_fault(d: Decoded, bytes: Seq<u8>)
    requires
        d.fault is Some,
    ensures
        fed_all(d, bytes) == d,
    decreases bytes.len(),
{
    if bytes.len() > 0 {
        law_nothing_is_decoded_behind_a_fault(d, bytes.drop_last());
    }
}

/// A hexadecimal digit is lower case.
pub proof fn law_hexadecimal_digits(n: nat)
    requires
        n < 16,
    ensures
        hex_digit(n) == seq![
            '0',
            '1',
            '2',
            '3',
            '4',
            '5',
            '6',
            '7',
            '8',
            '9',
            'a',
            'b',
            'c',
            'd',
            'e',
            'f',
        ][n as int],
{
}

/// How a character is written between quotes: quotes, backslashes and control characters
/// are escaped, in the short form where there is one; everything else stands for itself.
pub proof fn law_what_is_escaped(c: char)
    ensures
        c == '"' ==> escaped(c) == seq!['\\', '"'],
        c == '\\' ==> escaped(c) == seq!['\\', '\\'],
        c == '\u{8}' ==> escaped(c) == seq!['\\', 'b'],
        c == '\u{c}' ==> escaped(c) == seq!['\\', 'f'],
        c == '\n' ==> escaped(c) == seq!['\\', 'n'],
        c == '\r' ==> escaped(c) == seq!['\\', 'r'],
        c == '\t' ==> escaped(c) == seq!['\\', 't'],
        (c as nat) < 32 && c != '\u{8}' && c != '\u{c}' && c != '\n' && c != '\r' && c != '\t'
            ==> escaped(c) == seq![
            '\\',
            'u',
            '0',
            '0',
            hex_digit(c as nat / 16),
            hex_digit(c as nat % 16),
        ],
        (c as nat) >= 32 && c != '"' && c != '\\' ==> escaped(c) == seq![c],
{
}

/// A text is quoted character by character.
pub proof fn law_a_text_is_quoted_in_order(s: Seq<char>, c: char)
    ensures
        quoted(s) == seq!['"'] + escaped_all(s) + seq!['"'],
        escaped_all(Seq::empty()).len() == 0,
        escaped_all(s.push(c)) == escaped_all(s) + escaped(c),
{
    assert(s.push(c).drop_last() =~= s);
}

/// A list of texts is written in brackets, with commas between them and nothing else.
pub proof fn law_a_list_is_written_in_order(texts: Seq<Seq<char>>, text: Seq<char>)
    ensures
        array_text(texts) == "["@ + array_items(texts) + "]"@,
        array_items(Seq::empty()).len() == 0,
        array_items(seq![text]) == quoted(text),
        texts.len() > 0 ==> array_items(texts.push(text)) == array_items(texts) + ","@ + quoted(
            text,
        ),
{
    assert(texts.push(text).drop_last() =~= texts);
}

} // verus!
