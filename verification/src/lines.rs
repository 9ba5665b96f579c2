//! From the bytes of a text file to its lines.

use vstd::prelude::*;

verus! {

/// `std::io::Error`, opaque.
#[verifier::external_type_specification]
#[verifier::external_body]
pub struct ExIoError(std::io::Error);

/// The line feed that ends a line.
pub open spec fn line_feed() -> u8 {
    0x0a
}

/// How many bytes stand before the first line feed.
pub open spec fn line_len(bytes: Seq<u8>) -> nat
    decreases bytes.len(),
{
    if bytes.len() == 0 || bytes[0] == line_feed() {
        0
    } else {
        1 + line_len(bytes.skip(1))
    }
}

/// A line without the carriage return at its end.
pub open spec fn without_cr(line: Seq<u8>) -> Seq<u8> {
    if line.len() > 0 && line.last() == 0x0d {
        line.drop_last()
    } else {
        line
    }
}

/// The lines of a file, without the line feed, or the carriage return and line
/// feed, that end them. What follows the last line feed is a line too, if it is
/// not empty and the file is `complete`; if reading stopped early it is the
/// start of a line that nobody has seen whole, and left out.
pub open spec fn lines(bytes: Seq<u8>, complete: bool) -> Seq<Seq<u8>>
    decreases bytes.len(),
    via lines_decreases
{
    let n = line_len(bytes) as int;
    if bytes.len() == 0 {
        Seq::empty()
    } else if n == bytes.len() {
        if complete {
            seq![bytes]
        } else {
            Seq::empty()
        }
    } else {
        seq![without_cr(bytes.take(n))] + lines(bytes.skip(n + 1), complete)
    }
}

#[via_fn]
proof fn lines_decreases(bytes: Seq<u8>, complete: bool) {
    lemma_line_len_bound(bytes);
}

proof fn lemma_line_len_bound(bytes: Seq<u8>)
    ensures
        line_len(bytes) <= bytes.len(),
    decreases bytes.len(),
{
    if bytes.len() > 0 && bytes[0] != line_feed() {
        lemma_line_len_bound(bytes.skip(1));
    }
}

/// `line_len` is the least index of a line feed, or the length.
proof fn lemma_line_len(bytes: Seq<u8>, n: int)
    requires
        0 <= n <= bytes.len(),
        forall|i: int| 0 <= i < n ==> #[trigger] bytes[i] != line_feed(),
        n == bytes.len() || bytes[n] == line_feed(),
    ensures
        line_len(bytes) == n,
    decreases bytes.len(),
{
    if n > 0 {
        let rest = bytes.skip(1);
        assert forall|i: int| 0 <= i < n - 1 implies #[trigger] rest[i] != line_feed() by {
            assert(rest[i] == bytes[i + 1]);
        }
        if n < bytes.len() {
            assert(rest[n - 1] == bytes[n]);
        }
        lemma_line_len(rest, n - 1);
    }
}

/// The first line feed of `bytes` is also the first of `bytes + rest`.
proof fn lemma_line_len_of_longer(bytes: Seq<u8>, rest: Seq<u8>)
    requires
        line_len(bytes) < bytes.len(),
    ensures
        line_len(bytes + rest) == line_len(bytes),
    decreases bytes.len(),
{
    if bytes[0] != line_feed() {
        lemma_line_len_of_longer(bytes.skip(1), rest);
        assert((bytes + rest).skip(1) =~= bytes.skip(1) + rest);
    }
}

/// A line feed behind bytes without one is the first.
proof fn lemma_line_len_of_line(bytes: Seq<u8>)
    requires
        line_len(bytes) == bytes.len(),
    ensures
        line_len(bytes.push(line_feed())) == bytes.len(),
    decreases bytes.len(),
{
    if bytes.len() > 0 {
        lemma_line_len_of_line(bytes.skip(1));
        assert(bytes.push(line_feed()).skip(1) =~= bytes.skip(1).push(line_feed()));
    }
}

/// What ends in a line feed keeps its lines, whatever follows.
pub proof fn lemma_lines_of_sum(bytes: Seq<u8>, rest: Seq<u8>, complete: bool)
    ensures
        lines(bytes.push(line_feed()) + rest, complete) == lines(bytes.push(line_feed()), true)
            + lines(rest, complete),
    decreases bytes.len(),
{
    let ended = bytes.push(line_feed());
    let whole = ended + rest;
    let n = line_len(bytes) as int;
    lemma_line_len_bound(bytes);
    if n == bytes.len() {
        lemma_line_len_of_line(bytes);
        lemma_line_len_of_longer(ended, rest);
        assert(whole.take(n) =~= ended.take(n));
        assert(whole.skip(n + 1) =~= rest);
        assert(ended.skip(n + 1) =~= Seq::<u8>::empty());
        assert(lines(Seq::empty(), true) =~= Seq::<Seq<u8>>::empty());
    } else {
        lemma_line_len_of_longer(bytes, seq![line_feed()]);
        assert(bytes + seq![line_feed()] =~= ended);
        lemma_line_len_of_longer(ended, rest);
        lemma_lines_of_sum(bytes.skip(n + 1), rest, complete);
        assert(whole.take(n) =~= ended.take(n));
        assert(ended.skip(n + 1) =~= bytes.skip(n + 1).push(line_feed()));
        assert(whole.skip(n + 1) =~= bytes.skip(n + 1).push(line_feed()) + rest);
    }
    assert(lines(whole, complete) =~= lines(ended, true) + lines(rest, complete));
}

/// A line feed at the end completes the last line, or adds an empty one; all
/// lines before stay.
pub proof fn lemma_lines_of_ended(bytes: Seq<u8>)
    ensures
        ({
            let n = line_len(bytes) as int;
            let ended = bytes.push(line_feed());
            if n == bytes.len() {
                lines(ended, true) == seq![without_cr(bytes)]
            } else {
                &&& 0 <= n < bytes.len()
                &&& lines(bytes, true) == seq![without_cr(bytes.take(n))] + lines(
                    bytes.skip(n + 1),
                    true,
                )
                &&& lines(ended, true) == seq![without_cr(bytes.take(n))] + lines(
                    bytes.skip(n + 1).push(line_feed()),
                    true,
                )
            }
        }),
{
    let ended = bytes.push(line_feed());
    let n = line_len(bytes) as int;
    lemma_line_len_bound(bytes);
    if n == bytes.len() {
        lemma_line_len_of_line(bytes);
        assert(ended.take(n) =~= bytes);
        assert(ended.skip(n + 1) =~= Seq::<u8>::empty());
        assert(lines(Seq::empty(), true) =~= Seq::<Seq<u8>>::empty());
        assert(lines(ended, true) =~= seq![without_cr(bytes)]);
    } else {
        lemma_line_len_of_longer(bytes, seq![line_feed()]);
        assert(bytes + seq![line_feed()] =~= ended);
        assert(ended.take(n) =~= bytes.take(n));
        assert(ended.skip(n + 1) =~= bytes.skip(n + 1).push(line_feed()));
    }
}

/// A carriage return behind a line keeps it text, or not, and is the last
/// character of the text.
pub proof fn lemma_text_of_longer(line: Seq<u8>)
    ensures
        vstd::utf8::valid_utf8(line.push(0x0d)) == vstd::utf8::valid_utf8(line),
        vstd::utf8::valid_utf8(line) ==> vstd::utf8::decode_utf8(line.push(0x0d))
            == vstd::utf8::decode_utf8(line).push('\r'),
    decreases line.len(),
{
    let longer = line.push(0x0d);
    if line.len() == 0 {
        reveal_with_fuel(vstd::utf8::valid_utf8, 2);
        reveal_with_fuel(vstd::utf8::decode_utf8, 2);
        assert(vstd::utf8::pop_first_scalar(longer) =~= Seq::<u8>::empty());
        assert(vstd::utf8::codepoint_width_1(0x0d) == 0x0d) by (bit_vector);
        assert(vstd::utf8::decode_utf8(longer) =~= seq!['\r']);
    } else if vstd::utf8::valid_first_scalar(line) {
        let rest = vstd::utf8::pop_first_scalar(line);
        assert(vstd::utf8::valid_first_scalar(longer));
        assert(vstd::utf8::pop_first_scalar(longer) =~= rest.push(0x0d));
        lemma_text_of_longer(rest);
        if vstd::utf8::valid_utf8(line) {
            assert(vstd::utf8::decode_utf8(longer) =~= vstd::utf8::decode_utf8(line).push('\r'));
        }
    } else {
        assert(!vstd::utf8::valid_first_scalar(longer));
    }
}

/// The views of a list of byte strings.
pub open spec fn byte_views(list: Seq<Vec<u8>>) -> Seq<Seq<u8>> {
    list.map_values(|line: Vec<u8>| line@)
}

/// Splits a file into its lines.
pub fn split_lines(bytes: &Vec<u8>, complete: bool) -> (r: Vec<Vec<u8>>)
    ensures
        byte_views(r@) == lines(bytes@, complete),
{
    let mut r: Vec<Vec<u8>> = Vec::new();
    let mut i: usize = 0;
    assert(bytes@.skip(0) =~= bytes@);
    assert(byte_views(r@) + lines(bytes@.skip(0), complete) =~= lines(bytes@, complete));
    while i < bytes.len()
        invariant
            i <= bytes@.len(),
            byte_views(r@) + lines(bytes@.skip(i as int), complete) == lines(bytes@, complete),
        decreases bytes@.len() - i,
    {
        let start = i;
        let ghost rest = bytes@.skip(start as int);
        let mut line: Vec<u8> = Vec::new();
        while i < bytes.len() && bytes[i] != 0x0a
            invariant
                start <= i <= bytes@.len(),
                line@ == bytes@.subrange(start as int, i as int),
                forall|j: int| start <= j < i ==> #[trigger] bytes@[j] != line_feed(),
            ensures
                i == bytes@.len() || bytes@[i as int] == line_feed(),
            decreases bytes@.len() - i,
        {
            proof {
                assert(bytes@.subrange(start as int, i + 1) =~= bytes@.subrange(
                    start as int,
                    i as int,
                ).push(bytes@[i as int]));
            }
            line.push(bytes[i]);
            i = i + 1;
        }
        proof {
            let n = i - start;
            assert forall|j: int| 0 <= j < n implies #[trigger] rest[j] != line_feed() by {
                assert(rest[j] == bytes@[start + j]);
            }
            if i < bytes@.len() {
                assert(rest[n] == bytes@[i as int]);
            }
            lemma_line_len(rest, n);
            assert(rest.take(n) =~= line@);
        }
        let ghost whole = line@;
        if i < bytes.len() {
            if line.len() > 0 && line[line.len() - 1] == 0x0d {
                line.pop();
                assert(line@ =~= whole.drop_last());
            }
            proof {
                assert(line@ == without_cr(whole));
                assert(rest.skip(i - start + 1) =~= bytes@.skip(i + 1));
                assert(byte_views(r@.push(line)) =~= byte_views(r@).push(line@));
                let tail = lines(bytes@.skip(i + 1), complete);
                assert(byte_views(r@).push(line@) + tail =~= byte_views(r@) + (seq![line@] + tail));
            }
            r.push(line);
            i = i + 1;
        } else {
            proof {
                assert(rest =~= whole);
                assert(bytes@.skip(i as int) =~= Seq::<u8>::empty());
                assert(byte_views(r@.push(line)) =~= byte_views(r@).push(line@));
                assert(byte_views(r@).push(line@) =~= byte_views(r@) + seq![line@]);
                assert(byte_views(r@) =~= byte_views(r@) + Seq::<Seq<u8>>::empty());
                let tail = lines(bytes@.skip(i as int), complete);
                assert(tail =~= Seq::<Seq<u8>>::empty());
            }
            if complete {
                r.push(line);
            }
            assert(byte_views(r@) + lines(bytes@.skip(i as int), complete) =~= lines(
                bytes@,
                complete,
            ));
        }
    }
    assert(lines(bytes@.skip(i as int), complete) =~= Seq::<Seq<u8>>::empty());
    assert(byte_views(r@) =~= lines(bytes@, complete));
    r
}

/// Calls `String::from_utf8`: the bytes make a string exactly if they are valid
/// UTF-8, and then the string has the characters that they encode.
#[verifier::external_body]
pub(crate) fn decode(bytes: Vec<u8>) -> (r: Option<String>)
    ensures
        r is Some <==> vstd::utf8::valid_utf8(bytes@),
        r matches Some(s) ==> s@ == vstd::utf8::decode_utf8(bytes@),
{
    String::from_utf8(bytes).ok()
}

/// The error of the kind `InvalidData` that `std::io::Error::new` makes of a
/// message.
pub uninterp spec fn invalid_data_error(message: Seq<char>) -> std::io::Error;

/// Calls `std::io::Error::new` for an error of the kind `InvalidData`. What the
/// error holds depends on the message alone.
#[verifier::external_body]
pub(crate) fn invalid_data(message: &str) -> (r: std::io::Error)
    ensures
        r == invalid_data_error(message@),
{
    std::io::Error::new(std::io::ErrorKind::InvalidData, message)
}

/// A file is read line by line: what stands before the first line feed, less a
/// carriage return at its end, is the first line, and the other lines are those
/// of what follows. What no line feed ends is a line if the file is complete and
/// it is not empty.
pub proof fn law_line_feeds_end_lines(line: Seq<u8>, rest: Seq<u8>, complete: bool)
    requires
        !line.contains(0x0a),
    ensures
        lines(line + seq![0x0au8] + rest, complete) == seq![
            if line.len() > 0 && line.last() == 0x0d {
                line.drop_last()
            } else {
                line
            },
        ] + lines(rest, complete),
        lines(line, complete) == if complete && line.len() > 0 {
            seq![line]
        } else {
            Seq::empty()
        },
{
    let n = line.len() as int;
    let whole = line + seq![0x0au8] + rest;
    assert forall|i: int| 0 <= i < n implies #[trigger] line[i] != line_feed() by {
        assert(line.contains(line[i]));
    }
    lemma_line_len(line, n);
    assert forall|i: int| 0 <= i < n implies #[trigger] whole[i] != line_feed() by {
        assert(whole[i] == line[i]);
    }
    assert(whole[n] == 0x0a);
    lemma_line_len(whole, n);
    assert(whole.take(n) =~= line);
    assert(whole.skip(n + 1) =~= rest);
}

} // verus!
