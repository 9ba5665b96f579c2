//! The lines of a `.gitattributes` file.
//!
//! Only lines that put files under Git LFS matter here: such a line names a
//! pattern and carries the attribute `filter=lfs`.

use crate::ignore_rules;
use crate::lines;
use crate::text;
use vstd::prelude::*;

verus! {

/// What a line asks for.
pub enum LineKind {
    /// Nothing.
    Skip,
    /// That files which match the pattern be matched.
    Pattern(Seq<char>),
    /// A negative pattern, which these files cannot have.
    Negative,
    /// Nothing that can be read: the line is not UTF-8.
    NotText,
}

/// The attribute that puts files under Git LFS.
pub open spec fn lfs_attribute() -> Seq<char> {
    "filter=lfs"@
}

/// How a pattern spells a space.
pub open spec fn space_class() -> Seq<char> {
    "[[:space:]]"@
}

/// Whether one of the words behind the first is the LFS attribute.
pub open spec fn is_lfs(words: Seq<Seq<char>>) -> bool {
    exists|i: int| 1 <= i < words.len() && #[trigger] words[i] == lfs_attribute()
}

/// What the words of a line ask for.
pub open spec fn kind_of_words(words: Seq<Seq<char>>) -> LineKind {
    if words.len() == 0 || words[0][0] == '#' || !is_lfs(words) {
        LineKind::Skip
    } else if words[0][0] == '!' {
        LineKind::Negative
    } else if words[0].last() == '/' {
        LineKind::Skip
    } else {
        LineKind::Pattern(text::replaced(words[0], space_class(), seq![' ']))
    }
}

/// What a line asks for. A comment, a line without the LFS attribute and a
/// pattern that ends in `/` ask for nothing.
pub open spec fn kind_of_text(line: Seq<char>) -> LineKind {
    kind_of_words(text::words(line))
}

/// What a line asks for, given its bytes.
pub open spec fn kind_of_line(line: Seq<u8>) -> LineKind {
    if vstd::utf8::valid_utf8(line) {
        kind_of_text(vstd::utf8::decode_utf8(line))
    } else {
        LineKind::NotText
    }
}

/// What a line of text asks for.
#[derive(Debug, PartialEq, Eq)]
pub enum LineRule {
    /// Nothing.
    Skip,
    /// That files which match the pattern be matched.
    Pattern(String),
    /// A negative pattern.
    Negative,
}

impl View for LineRule {
    type V = LineKind;

    open spec fn view(&self) -> LineKind {
        match self {
            LineRule::Skip => LineKind::Skip,
            LineRule::Pattern(pattern) => LineKind::Pattern(pattern@),
            LineRule::Negative => LineKind::Negative,
        }
    }
}

/// Reads one line.
pub fn parse_line(line: &str) -> (r: LineRule)
    ensures
        r@ == kind_of_text(line@),
{
    let chars = text::chars_of(line);
    let words = text::split_words(&chars);
    let ghost views = text::words(line@);
    if words.len() == 0 {
        assert(views.len() == 0);
        return LineRule::Skip;
    }
    let pattern = &words[0];
    proof {
        assert(views[0] == pattern@);
        text::lemma_words_are_solid(line@, 0, 0);
    }
    if pattern[0] == '#' {
        return LineRule::Skip;
    }
    let attribute = text::chars_of("filter=lfs");
    let mut lfs = false;
    let mut i: usize = 1;
    while i < words.len() && !lfs
        invariant
            1 <= i <= words@.len(),
            attribute@ == lfs_attribute(),
            views == text::char_views(words@),
            lfs ==> is_lfs(views),
            !lfs ==> forall|j: int| 1 <= j < i ==> #[trigger] views[j] != lfs_attribute(),
        decreases words@.len() - i,
    {
        assert(views[i as int] == words@[i as int]@);
        if words[i].len() == attribute.len() && text::occurs_at(&words[i], 0, &attribute) {
            proof {
                assert(words@[i as int]@.skip(0) =~= words@[i as int]@);
                assert(views[i as int] =~= lfs_attribute());
            }
            lfs = true;
        } else {
            assert(words@[i as int]@.skip(0) =~= words@[i as int]@);
        }
        i = i + 1;
    }
    if !lfs {
        return LineRule::Skip;
    }
    if pattern[0] == '!' {
        return LineRule::Negative;
    }
    if pattern[pattern.len() - 1] == '/' {
        return LineRule::Skip;
    }
    let class = text::chars_of("[[:space:]]");
    proof {
        reveal_strlit("[[:space:]]");
    }
    let replaced = text::replace(pattern, &class, ' ');
    LineRule::Pattern(text::string_of(&replaced))
}

/// Whether a line ends the reading of the file: a negative pattern, bytes that
/// are not UTF-8, or a pattern that does not parse.
pub open spec fn is_bad(kind: LineKind) -> bool {
    match kind {
        LineKind::Skip => false,
        LineKind::Pattern(pattern) => ignore_rules::carries_glob(pattern)
            && !ignore_rules::glob_parses(ignore_rules::glob_text(pattern)),
        LineKind::Negative => true,
        LineKind::NotText => true,
    }
}

/// How many lines stand before the first bad one.
pub open spec fn clean_len(lines: Seq<Seq<u8>>) -> nat
    decreases lines.len(),
{
    if lines.len() == 0 || is_bad(kind_of_line(lines[0])) {
        0
    } else {
        1 + clean_len(lines.skip(1))
    }
}

/// The pattern that a line puts into the pattern set, if it does.
pub open spec fn line_glob(line: Seq<u8>) -> Option<Seq<char>> {
    match kind_of_line(line) {
        LineKind::Pattern(pattern) if ignore_rules::carries_glob(pattern) => Some(
            ignore_rules::glob_text(pattern),
        ),
        _ => None,
    }
}

/// The patterns that the lines put into the pattern set, in order.
pub open spec fn globs_of(lines: Seq<Seq<u8>>) -> Seq<Seq<char>>
    decreases lines.len(),
{
    if lines.len() == 0 {
        Seq::empty()
    } else {
        let before = globs_of(lines.drop_last());
        match line_glob(lines.last()) {
            Some(glob) => before.push(glob),
            None => before,
        }
    }
}

/// The first bad line, if there is one.
pub open spec fn first_bad(lines: Seq<Seq<u8>>) -> Option<LineKind> {
    let n = clean_len(lines) as int;
    if n == lines.len() {
        None
    } else {
        Some(kind_of_line(lines[n]))
    }
}

/// The patterns of the lines before the first bad one, in order.
pub open spec fn taken_globs(lines: Seq<Seq<u8>>) -> Seq<Seq<char>> {
    globs_of(lines.take(clean_len(lines) as int))
}

/// `clean_len` is the least index of a bad line, or the length.
pub proof fn lemma_clean_len(lines: Seq<Seq<u8>>, n: int)
    requires
        0 <= n <= lines.len(),
        forall|i: int| 0 <= i < n ==> !is_bad(kind_of_line(#[trigger] lines[i])),
        n == lines.len() || is_bad(kind_of_line(lines[n])),
    ensures
        clean_len(lines) == n,
    decreases lines.len(),
{
    if n > 0 {
        let rest = lines.skip(1);
        assert forall|i: int| 0 <= i < n - 1 implies !is_bad(kind_of_line(#[trigger] rest[i])) by {
            assert(rest[i] == lines[i + 1]);
        }
        if n < lines.len() {
            assert(rest[n - 1] == lines[n]);
        }
        lemma_clean_len(rest, n - 1);
    }
}

/// Of two lists of lines the patterns of the second follow.
pub proof fn lemma_globs_of_sum(one: Seq<Seq<u8>>, other: Seq<Seq<u8>>)
    ensures
        globs_of(one + other) == globs_of(one) + globs_of(other),
    decreases other.len(),
{
    if other.len() == 0 {
        assert(one + other =~= one);
    } else {
        assert((one + other).drop_last() =~= one + other.drop_last());
        lemma_globs_of_sum(one, other.drop_last());
    }
    assert(globs_of(one + other) =~= globs_of(one) + globs_of(other));
}

/// What reading one line after the other comes to.
proof fn lemma_read_first(line: Seq<u8>, rest: Seq<Seq<u8>>)
    ensures
        first_bad(seq![line] + rest) == if is_bad(kind_of_line(line)) {
            Some(kind_of_line(line))
        } else {
            first_bad(rest)
        },
        taken_globs(seq![line] + rest) == if is_bad(kind_of_line(line)) {
            Seq::empty()
        } else {
            globs_of(seq![line]) + taken_globs(rest)
        },
{
    let all = seq![line] + rest;
    assert(all.skip(1) =~= rest);
    if is_bad(kind_of_line(line)) {
        assert(all.take(0) =~= Seq::<Seq<u8>>::empty());
    } else {
        let n = clean_len(rest) as int;
        lemma_clean_len_bound(rest);
        lemma_globs_of_sum(seq![line], rest.take(n));
        assert(all.take(n + 1) =~= seq![line] + rest.take(n));
    }
}

proof fn lemma_clean_len_bound(lines: Seq<Seq<u8>>)
    ensures
        clean_len(lines) <= lines.len(),
    decreases lines.len(),
{
    if lines.len() > 0 {
        lemma_clean_len_bound(lines.skip(1));
    }
}

/// Reading goes on to the second of two lists of lines if the first holds no bad
/// line.
pub proof fn lemma_read_sum(one: Seq<Seq<u8>>, other: Seq<Seq<u8>>)
    ensures
        first_bad(one + other) == if first_bad(one) is Some {
            first_bad(one)
        } else {
            first_bad(other)
        },
        taken_globs(one + other) == if first_bad(one) is Some {
            taken_globs(one)
        } else {
            taken_globs(one) + taken_globs(other)
        },
    decreases one.len(),
{
    if one.len() == 0 {
        assert(one + other =~= other);
        assert(one.take(0) =~= one);
        assert(taken_globs(one) + taken_globs(other) =~= taken_globs(other));
    } else {
        let rest = one.skip(1);
        lemma_read_sum(rest, other);
        lemma_read_first(one[0], rest);
        lemma_read_first(one[0], rest + other);
        assert(seq![one[0]] + rest =~= one);
        assert(seq![one[0]] + (rest + other) =~= one + other);
        assert(taken_globs(one + other) =~= if first_bad(one) is Some {
            taken_globs(one)
        } else {
            taken_globs(one) + taken_globs(other)
        });
    }
}

/// A carriage return at the end of a line does not change what it asks for.
proof fn lemma_kind_of_longer(line: Seq<u8>)
    ensures
        kind_of_line(lines::without_cr(line)) == kind_of_line(line),
{
    if line.len() > 0 && line.last() == 0x0d {
        let shorter = line.drop_last();
        assert(shorter.push(0x0d) =~= line);
        lines::lemma_text_of_longer(shorter);
        if vstd::utf8::valid_utf8(shorter) {
            text::lemma_words_of_longer(vstd::utf8::decode_utf8(shorter), '\r');
        }
    }
}

/// A line feed at the end of a file does not change how it is read.
pub proof fn lemma_read_ended(bytes: Seq<u8>)
    ensures
        first_bad(lines::lines(bytes.push(lines::line_feed()), true)) == first_bad(
            lines::lines(bytes, true),
        ),
        taken_globs(lines::lines(bytes.push(lines::line_feed()), true)) == taken_globs(
            lines::lines(bytes, true),
        ),
    decreases bytes.len(),
{
    let n = lines::line_len(bytes) as int;
    let none = Seq::<Seq<u8>>::empty();
    lines::lemma_lines_of_ended(bytes);
    if n == bytes.len() {
        let line = lines::without_cr(bytes);
        lemma_kind_of_longer(bytes);
        lemma_read_first(line, none);
        lemma_read_first(bytes, none);
        assert(seq![line] + none =~= seq![line]);
        assert(seq![bytes] + none =~= seq![bytes]);
        assert(seq![line].drop_last() =~= none);
        assert(seq![bytes].drop_last() =~= none);
        if bytes.len() == 0 {
            assert(none.take(0) =~= none);
            assert(bytes =~= Seq::<u8>::empty());
            assert(text::words(vstd::utf8::decode_utf8(bytes)).len() == 0);
        }
    } else {
        lemma_read_ended(bytes.skip(n + 1));
        lemma_read_first(
            lines::without_cr(bytes.take(n)),
            lines::lines(bytes.skip(n + 1), true),
        );
        lemma_read_first(
            lines::without_cr(bytes.take(n)),
            lines::lines(bytes.skip(n + 1).push(lines::line_feed()), true),
        );
    }
}

/// A pattern that a line asks for is not empty, is neither a comment nor
/// negative, does not end in `/`, spells no space as a class, and holds no white
/// space but spaces.
pub proof fn law_patterns_are_plain(line: Seq<char>)
    requires
        kind_of_text(line) is Pattern,
    ensures
        ({
            let pattern = kind_of_text(line)->Pattern_0;
            &&& pattern.len() > 0
            &&& pattern[0] != '#'
            &&& pattern[0] != '!'
            &&& pattern.last() != '/'
            &&& !text::occurs(space_class(), pattern)
            &&& forall|i: int|
                0 <= i < pattern.len() && text::is_white_space(#[trigger] pattern[i])
                    ==> pattern[i] == ' '
        }),
{
    let word = text::words(line)[0];
    let pattern = kind_of_text(line)->Pattern_0;
    reveal_strlit("[[:space:]]");
    text::lemma_words_are_solid(line, 0, 0);
    assert(!space_class().contains(' '));
    text::lemma_replaced_ends(word, space_class(), ' ');
    text::lemma_replaced_is_clean(word, space_class(), ' ');
    assert forall|i: int|
        0 <= i < pattern.len() && text::is_white_space(#[trigger] pattern[i]) implies pattern[i]
        == ' ' by {
        text::lemma_replaced_chars(word, space_class(), ' ', i);
        if word.contains(pattern[i]) {
            text::lemma_words_are_solid(line, 0, word.index_of(pattern[i]));
        }
    }
}

/// No pattern that lines put into the pattern set is negative, and each comes
/// from one of them.
pub proof fn lemma_globs_come_from_lines(lines: Seq<Seq<u8>>, i: int) -> (j: int)
    requires
        0 <= i < globs_of(lines).len(),
    ensures
        0 <= j < lines.len(),
        line_glob(lines[j]) == Some(globs_of(lines)[i]),
        globs_of(lines)[i].len() > 0,
        globs_of(lines)[i][0] != '!',
    decreases lines.len(),
{
    let before = globs_of(lines.drop_last());
    if i < before.len() {
        lemma_globs_come_from_lines(lines.drop_last(), i)
    } else {
        let line = lines.last();
        let text = vstd::utf8::decode_utf8(line);
        law_patterns_are_plain(text);
        ignore_rules::lemma_trimmed_start(kind_of_text(text)->Pattern_0);
        lines.len() - 1
    }
}

/// Each line puts its pattern into the pattern set.
pub proof fn lemma_lines_give_globs(lines: Seq<Seq<u8>>, j: int) -> (i: int)
    requires
        0 <= j < lines.len(),
        line_glob(lines[j]) is Some,
    ensures
        0 <= i < globs_of(lines).len(),
        line_glob(lines[j]) == Some(globs_of(lines)[i]),
    decreases lines.len(),
{
    let before = globs_of(lines.drop_last());
    if j < lines.len() - 1 {
        lemma_lines_give_globs(lines.drop_last(), j)
    } else {
        before.len() as int
    }
}

/// A line without the attribute `filter=lfs` behind its pattern asks for
/// nothing.
pub proof fn law_only_lfs_lines_count(line: Seq<char>)
    requires
        !is_lfs(text::words(line)),
    ensures
        kind_of_text(line) is Skip,
{
}

/// Which lines count, and for what. A line asks for nothing if and only if it
/// has no word, its first word starts with `#`, no later word is `filter=lfs`,
/// or its first word ends in `/` and does not start with `!`. Any other line is
/// negative if its first word starts with `!`, and otherwise asks for its first
/// word, with `[[:space:]]` spelled as a space.
pub proof fn law_which_lines_count(line: Seq<char>)
    ensures
        ({
            let words = text::words(line);
            let lfs = exists|i: int| 1 <= i < words.len() && #[trigger] words[i] == "filter=lfs"@;
            &&& kind_of_text(line) is Skip <==> words.len() == 0 || words[0][0] == '#' || !lfs || (
            words[0][0] != '!' && words[0].last() == '/')
            &&& kind_of_text(line) is Negative <==> words.len() > 0 && words[0][0] == '!' && lfs
            &&& kind_of_text(line) is Pattern <==> words.len() > 0 && words[0][0] != '#'
                && words[0][0] != '!' && words[0].last() != '/' && lfs
            &&& kind_of_text(line) is Pattern ==> kind_of_text(line)->Pattern_0 == text::replaced(
                words[0],
                "[[:space:]]"@,
                seq![' '],
            )
            &&& kind_of_text(line) is Pattern && !text::occurs("[[:space:]]"@, words[0])
                ==> kind_of_text(line)->Pattern_0 == words[0]
        }),
{
    let words = text::words(line);
    let lfs = exists|i: int| 1 <= i < words.len() && #[trigger] words[i] == "filter=lfs"@;
    assert(is_lfs(words) == lfs);
    if kind_of_text(line) is Pattern && !text::occurs("[[:space:]]"@, words[0]) {
        reveal_strlit("[[:space:]]");
        text::law_replacing_goes_from_left_to_right(
            words[0],
            Seq::empty(),
            "[[:space:]]"@,
            seq![' '],
        );
    }
}

/// Bytes that are text count for what the text does, and the pattern that a line
/// asks for is the one that it adds.
pub proof fn law_line_adds_its_pattern(line: Seq<u8>)
    ensures
        vstd::utf8::valid_utf8(line) ==> kind_of_line(line) == kind_of_text(
            vstd::utf8::decode_utf8(line),
        ),
        kind_of_line(line) is NotText <==> !vstd::utf8::valid_utf8(line),
        kind_of_line(line) !is Pattern ==> line_glob(line) is None,
        kind_of_line(line) matches LineKind::Pattern(pattern) ==> line_glob(line)
            == if ignore_rules::glob_text(pattern).len() > 0 {
            Some(ignore_rules::glob_text(pattern))
        } else {
            None
        },
        kind_of_line(line) matches LineKind::Pattern(pattern) ==> !text::is_white_space(
            pattern.last(),
        ) ==> line_glob(line) == Some(pattern),
{
    if vstd::utf8::valid_utf8(line) {
        law_which_lines_count(vstd::utf8::decode_utf8(line));
        if kind_of_line(line) is Pattern {
            let pattern = kind_of_line(line)->Pattern_0;
            law_patterns_are_plain(vstd::utf8::decode_utf8(line));
            ignore_rules::lemma_trimmed_start(pattern);
        }
    }
}

} // verus!
