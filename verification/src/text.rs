//! Strings as sequences of characters: white space, words, replacement,
//! joining and decimal numerals.

use vstd::prelude::*;

verus! {

/// `String::push` appends one character at the end.
pub assume_specification[ String::push ](s: &mut String, c: char)
    ensures
        final(s)@ == old(s)@.push(c),
;

/// The characters that Unicode lists with the property `White_Space`.
pub open spec fn is_white_space(c: char) -> bool {
    ||| '\u{9}' <= c <= '\u{d}'
    ||| c == '\u{20}'
    ||| c == '\u{85}'
    ||| c == '\u{a0}'
    ||| c == '\u{1680}'
    ||| '\u{2000}' <= c <= '\u{200a}'
    ||| c == '\u{2028}'
    ||| c == '\u{2029}'
    ||| c == '\u{202f}'
    ||| c == '\u{205f}'
    ||| c == '\u{3000}'
}

/// Whether `c` is white space.
pub fn white_space(c: char) -> (r: bool)
    ensures
        r == is_white_space(c),
{
    ('\u{9}' <= c && c <= '\u{d}') || c == '\u{20}' || c == '\u{85}' || c == '\u{a0}' || c
        == '\u{1680}' || ('\u{2000}' <= c && c <= '\u{200a}') || c == '\u{2028}' || c == '\u{2029}'
        || c == '\u{202f}' || c == '\u{205f}' || c == '\u{3000}'
}

/// The views of a list of strings.
pub open spec fn views(list: Seq<String>) -> Seq<Seq<char>> {
    list.map_values(|s: String| s@)
}

/// The views of a list of character vectors.
pub open spec fn char_views(list: Seq<Vec<char>>) -> Seq<Seq<char>> {
    list.map_values(|s: Vec<char>| s@)
}

/// The characters of a string, in order.
pub fn chars_of(s: &str) -> (r: Vec<char>)
    ensures
        r@ == s@,
{
    let mut r: Vec<char> = Vec::new();
    for c in it: s.chars()
        invariant
            it.seq() == s@,
            r@ == s@.take(it.index()),
    {
        proof {
            assert(s@.take(it.index() + 1) =~= s@.take(it.index()).push(c));
        }
        r.push(c);
    }
    assert(s@.take(s@.len() as int) =~= s@);
    r
}

/// The string made of the given characters.
pub fn string_of(chars: &Vec<char>) -> (r: String)
    ensures
        r@ == chars@,
{
    let mut r = String::new();
    for i in 0..chars.len()
        invariant
            r@ == chars@.take(i as int),
    {
        proof {
            assert(chars@.take(i + 1) =~= chars@.take(i as int).push(chars@[i as int]));
        }
        r.push(chars[i]);
    }
    assert(chars@.take(chars@.len() as int) =~= chars@);
    r
}

/// How many characters stand before the first white space.
pub open spec fn word_len(s: Seq<char>) -> nat
    decreases s.len(),
{
    if s.len() == 0 || is_white_space(s[0]) {
        0
    } else {
        1 + word_len(s.skip(1))
    }
}

/// The maximal runs of characters that are not white space, in order.
pub open spec fn words(s: Seq<char>) -> Seq<Seq<char>>
    decreases s.len(),
    via words_decreases
{
    if s.len() == 0 {
        Seq::empty()
    } else if is_white_space(s[0]) {
        words(s.skip(1))
    } else {
        seq![s.take(word_len(s) as int)] + words(s.skip(word_len(s) as int))
    }
}

#[via_fn]
proof fn words_decreases(s: Seq<char>) {
    lemma_word_len_bound(s);
}

proof fn lemma_word_len_bound(s: Seq<char>)
    ensures
        word_len(s) <= s.len(),
        s.len() > 0 && !is_white_space(s[0]) ==> word_len(s) > 0,
    decreases s.len(),
{
    if s.len() > 0 && !is_white_space(s[0]) {
        lemma_word_len_bound(s.skip(1));
    }
}

/// White space at the end of a text changes none of its words.
pub proof fn lemma_words_of_longer(s: Seq<char>, c: char)
    requires
        is_white_space(c),
    ensures
        words(s.push(c)) == words(s),
    decreases s.len(),
{
    let longer = s.push(c);
    if s.len() == 0 {
        assert(longer.skip(1) =~= s);
    } else if is_white_space(s[0]) {
        lemma_words_of_longer(s.skip(1), c);
        assert(longer.skip(1) =~= s.skip(1).push(c));
    } else {
        let n = word_len(s) as int;
        lemma_word_len_bound(s);
        lemma_word_len_of_longer(s, c);
        lemma_words_of_longer(s.skip(n), c);
        assert(longer.take(n) =~= s.take(n));
        assert(longer.skip(n) =~= s.skip(n).push(c));
    }
}

proof fn lemma_word_len_of_longer(s: Seq<char>, c: char)
    requires
        is_white_space(c),
    ensures
        word_len(s.push(c)) == word_len(s),
    decreases s.len(),
{
    if s.len() > 0 && !is_white_space(s[0]) {
        lemma_word_len_of_longer(s.skip(1), c);
        assert(s.push(c).skip(1) =~= s.skip(1).push(c));
    }
}

/// `word_len` is the least index of a white space, or the length.
proof fn lemma_word_len(s: Seq<char>, n: int)
    requires
        0 <= n <= s.len(),
        forall|i: int| 0 <= i < n ==> !is_white_space(#[trigger] s[i]),
        n == s.len() || is_white_space(s[n]),
    ensures
        word_len(s) == n,
    decreases s.len(),
{
    if n > 0 {
        let rest = s.skip(1);
        assert forall|i: int| 0 <= i < n - 1 implies !is_white_space(#[trigger] rest[i]) by {
            assert(rest[i] == s[i + 1]);
        }
        if n < s.len() {
            assert(rest[n - 1] == s[n]);
        }
        lemma_word_len(rest, n - 1);
    }
}

/// The first `word_len` characters are not white space.
proof fn lemma_word_solid(s: Seq<char>)
    ensures
        word_len(s) <= s.len(),
        forall|i: int| 0 <= i < word_len(s) ==> !is_white_space(#[trigger] s[i]),
    decreases s.len(),
{
    if s.len() > 0 && !is_white_space(s[0]) {
        lemma_word_solid(s.skip(1));
        assert forall|i: int| 0 <= i < word_len(s) implies !is_white_space(#[trigger] s[i]) by {
            if i > 0 {
                assert(s.skip(1)[i - 1] == s[i]);
            }
        }
    }
}

/// No word is empty, and no word holds white space.
pub proof fn lemma_words_are_solid(s: Seq<char>, w: int, i: int)
    requires
        0 <= w < words(s).len(),
    ensures
        words(s)[w].len() > 0,
        0 <= i < words(s)[w].len() ==> !is_white_space(words(s)[w][i]),
    decreases s.len(),
{
    lemma_word_len_bound(s);
    if is_white_space(s[0]) {
        lemma_words_are_solid(s.skip(1), w, i);
    } else {
        let n = word_len(s) as int;
        if w == 0 {
            lemma_word_solid(s);
        } else {
            lemma_words_are_solid(s.skip(n), w - 1, i);
        }
    }
}

/// Splits a line into its words.
pub fn split_words(s: &Vec<char>) -> (r: Vec<Vec<char>>)
    ensures
        char_views(r@) == words(s@),
{
    let mut r: Vec<Vec<char>> = Vec::new();
    let mut i: usize = 0;
    assert(s@.skip(0) =~= s@);
    assert(char_views(r@) + words(s@.skip(0)) =~= words(s@));
    while i < s.len()
        invariant
            i <= s@.len(),
            char_views(r@) + words(s@.skip(i as int)) == words(s@),
        decreases s@.len() - i,
    {
        let ghost rest = s@.skip(i as int);
        if white_space(s[i]) {
            assert(rest.skip(1) =~= s@.skip(i + 1));
            i = i + 1;
        } else {
            let start = i;
            let mut word: Vec<char> = Vec::new();
            while i < s.len() && !white_space(s[i])
                invariant
                    start <= i <= s@.len(),
                    start < s@.len(),
                    !is_white_space(s@[start as int]),
                    word@ == s@.subrange(start as int, i as int),
                    forall|j: int| start <= j < i ==> !is_white_space(#[trigger] s@[j]),
                ensures
                    i == s@.len() || is_white_space(s@[i as int]),
                    i > start,
                decreases s@.len() - i,
            {
                proof {
                    assert(s@.subrange(start as int, i + 1) =~= s@.subrange(
                        start as int,
                        i as int,
                    ).push(s@[i as int]));
                }
                word.push(s[i]);
                i = i + 1;
            }
            proof {
                let n = i - start;
                assert forall|j: int| 0 <= j < n implies !is_white_space(#[trigger] rest[j]) by {
                    assert(rest[j] == s@[start + j]);
                }
                lemma_word_len(rest, n);
                assert(rest.take(n) =~= word@);
                assert(rest.skip(n) =~= s@.skip(i as int));
                assert(char_views(r@.push(word)) =~= char_views(r@).push(word@));
                assert(char_views(r@).push(word@) + words(s@.skip(i as int)) =~= char_views(r@) + (
                seq![word@] + words(s@.skip(i as int))));
            }
            r.push(word);
        }
    }
    assert(words(s@.skip(i as int)) =~= Seq::<Seq<char>>::empty());
    assert(char_views(r@) =~= words(s@));
    r
}

/// `s` with every occurrence of `needle` replaced by `by`, where occurrences
/// are looked for from the left and do not overlap.
pub open spec fn replaced(s: Seq<char>, needle: Seq<char>, by: Seq<char>) -> Seq<char>
    decreases s.len(),
{
    if needle.len() == 0 || s.len() < needle.len() {
        s
    } else if needle.is_prefix_of(s) {
        by + replaced(s.skip(needle.len() as int), needle, by)
    } else {
        seq![s[0]] + replaced(s.skip(1), needle, by)
    }
}

/// Whether `needle` occurs in `s`.
pub open spec fn occurs(needle: Seq<char>, s: Seq<char>) -> bool {
    exists|i: int| 0 <= i <= s.len() && needle.is_prefix_of(#[trigger] s.skip(i))
}

/// What replacing does to the ends of a text that it is not to empty: the first
/// and the last character are those of the text or of the replacement.
pub proof fn lemma_replaced_ends(s: Seq<char>, needle: Seq<char>, by: char)
    requires
        s.len() > 0,
        needle.len() > 0,
    ensures
        replaced(s, needle, seq![by]).len() > 0,
        replaced(s, needle, seq![by])[0] == s[0] || replaced(s, needle, seq![by])[0] == by,
        replaced(s, needle, seq![by]).last() == s.last() || replaced(s, needle, seq![by]).last()
            == by,
    decreases s.len(),
{
    if s.len() >= needle.len() {
        if needle.is_prefix_of(s) {
            let rest = s.skip(needle.len() as int);
            if rest.len() > 0 {
                lemma_replaced_ends(rest, needle, by);
            } else {
                assert(replaced(rest, needle, seq![by]) =~= Seq::<char>::empty());
            }
        } else {
            let rest = s.skip(1);
            if rest.len() > 0 {
                lemma_replaced_ends(rest, needle, by);
            } else {
                assert(replaced(rest, needle, seq![by]) =~= Seq::<char>::empty());
            }
        }
    }
}

/// Every character of a text after replacing is one of the text or the
/// replacement.
pub proof fn lemma_replaced_chars(s: Seq<char>, needle: Seq<char>, by: char, i: int)
    requires
        needle.len() > 0,
        0 <= i < replaced(s, needle, seq![by]).len(),
    ensures
        s.contains(replaced(s, needle, seq![by])[i]) || replaced(s, needle, seq![by])[i] == by,
    decreases s.len(),
{
    if s.len() < needle.len() {
        assert(s.contains(s[i]));
    } else {
        let n = if needle.is_prefix_of(s) {
            needle.len() as int
        } else {
            1
        };
        let rest = s.skip(n);
        if i == 0 {
            assert(s.contains(s[0]));
        } else {
            lemma_replaced_chars(rest, needle, by, i - 1);
            let c = replaced(rest, needle, seq![by])[i - 1];
            assert(replaced(s, needle, seq![by])[i] == c);
            if rest.contains(c) {
                let k = rest.index_of(c);
                assert(s[n + k] == c);
            }
        }
    }
}

/// Nothing is left to replace, if the replacement is no character of what is
/// looked for.
pub proof fn lemma_replaced_is_clean(s: Seq<char>, needle: Seq<char>, by: char)
    requires
        needle.len() > 0,
        !needle.contains(by),
    ensures
        !occurs(needle, replaced(s, needle, seq![by])),
    decreases s.len(),
{
    let r = replaced(s, needle, seq![by]);
    if s.len() < needle.len() {
        assert forall|i: int| 0 <= i <= r.len() implies !needle.is_prefix_of(
            #[trigger] r.skip(i),
        ) by {}
    } else if needle.is_prefix_of(s) {
        let rest = s.skip(needle.len() as int);
        let t = replaced(rest, needle, seq![by]);
        lemma_replaced_is_clean(rest, needle, by);
        assert forall|i: int| 0 <= i <= r.len() implies !needle.is_prefix_of(
            #[trigger] r.skip(i),
        ) by {
            if i == 0 {
                assert(r.skip(0)[0] == by);
                if needle.is_prefix_of(r.skip(0)) {
                    assert(needle[0] == r.skip(0).subrange(0, needle.len() as int)[0]);
                    assert(needle.contains(by));
                }
            } else {
                assert(r.skip(i) =~= t.skip(i - 1));
            }
        }
    } else {
        let rest = s.skip(1);
        let t = replaced(rest, needle, seq![by]);
        lemma_replaced_is_clean(rest, needle, by);
        assert forall|i: int| 0 <= i <= r.len() implies !needle.is_prefix_of(
            #[trigger] r.skip(i),
        ) by {
            if i == 0 {
                assert(r.skip(0) =~= r);
                if needle.is_prefix_of(r) {
                    lemma_replaced_prefix(s, needle, by, needle);
                }
            } else {
                assert(r.skip(i) =~= t.skip(i - 1));
            }
        }
    }
}

/// As long as no replacement shows, the text is as it was.
proof fn lemma_replaced_prefix(s: Seq<char>, needle: Seq<char>, by: char, u: Seq<char>)
    requires
        needle.len() > 0,
        !u.contains(by),
        u.is_prefix_of(replaced(s, needle, seq![by])),
    ensures
        u.is_prefix_of(s),
    decreases s.len(),
{
    let r = replaced(s, needle, seq![by]);
    if u.len() > 0 && s.len() >= needle.len() {
        assert(u[0] == r.subrange(0, u.len() as int)[0]);
        assert(u.contains(u[0]));
        assert(!needle.is_prefix_of(s));
        let v = u.skip(1);
        let rest = s.skip(1);
        assert(v =~= replaced(rest, needle, seq![by]).subrange(0, v.len() as int)) by {
            assert forall|i: int| 0 <= i < v.len() implies v[i] == #[trigger] replaced(
                rest,
                needle,
                seq![by],
            ).subrange(0, v.len() as int)[i] by {
                assert(v[i] == u[i + 1]);
                assert(u[i + 1] == r.subrange(0, u.len() as int)[i + 1]);
            }
        }
        assert(!v.contains(by)) by {
            if v.contains(by) {
                let k = v.index_of(by);
                assert(u[k + 1] == by);
            }
        }
        lemma_replaced_prefix(rest, needle, by, v);
        assert(u =~= s.subrange(0, u.len() as int)) by {
            assert forall|i: int| 0 <= i < u.len() implies u[i] == #[trigger] s.subrange(
                0,
                u.len() as int,
            )[i] by {
                if i > 0 {
                    assert(u[i] == v[i - 1]);
                    assert(v[i - 1] == rest.subrange(0, v.len() as int)[i - 1]);
                }
            }
        }
    }
}

/// Whether `needle` stands in `s` at index `at`.
pub fn occurs_at(s: &Vec<char>, at: usize, needle: &Vec<char>) -> (r: bool)
    requires
        at <= s@.len(),
    ensures
        r == needle@.is_prefix_of(s@.skip(at as int)),
{
    let len = s.len();
    if len - at < needle.len() {
        return false;
    }
    for i in 0..needle.len()
        invariant
            len == s@.len(),
            needle@.len() + at <= len,
            forall|j: int| 0 <= j < i ==> needle@[j] == #[trigger] s@[at + j],
    {
        if s[at + i] != needle[i] {
            assert(s@.skip(at as int)[i as int] == s@[at + i]);
            return false;
        }
    }
    assert(needle@ =~= s@.skip(at as int).take(needle@.len() as int)) by {
        assert forall|j: int| 0 <= j < needle@.len() implies needle@[j] == #[trigger] s@.skip(
            at as int,
        ).take(needle@.len() as int)[j] by {
            assert(needle@[j] == s@[at + j]);
        }
    }
    true
}

/// Replaces every occurrence of `needle` by `by`.
pub fn replace(s: &Vec<char>, needle: &Vec<char>, by: char) -> (r: Vec<char>)
    requires
        needle@.len() > 0,
    ensures
        r@ == replaced(s@, needle@, seq![by]),
{
    let mut r: Vec<char> = Vec::new();
    let mut i: usize = 0;
    assert(s@.skip(0) =~= s@);
    assert(r@ + replaced(s@.skip(0), needle@, seq![by]) =~= replaced(s@, needle@, seq![by]));
    while i < s.len()
        invariant
            i <= s@.len(),
            needle@.len() > 0,
            r@ + replaced(s@.skip(i as int), needle@, seq![by]) == replaced(
                s@,
                needle@,
                seq![by],
            ),
        decreases s@.len() - i,
    {
        let ghost rest = s@.skip(i as int);
        if occurs_at(s, i, needle) {
            let n = needle.len();
            proof {
                assert(rest.skip(n as int) =~= s@.skip(i + n));
                assert(r@.push(by) + replaced(s@.skip(i + n), needle@, seq![by]) =~= r@ + (seq![by]
                    + replaced(s@.skip(i + n), needle@, seq![by])));
            }
            r.push(by);
            i = i + n;
        } else {
            proof {
                assert(rest[0] == s@[i as int]);
                assert(rest.skip(1) =~= s@.skip(i + 1));
                let tail = replaced(s@.skip(i + 1), needle@, seq![by]);
                assert(r@.push(rest[0]) + tail =~= r@ + (seq![rest[0]] + tail));
                if rest.len() < needle@.len() {
                    assert(tail == s@.skip(i + 1));
                    assert(seq![rest[0]] + tail =~= rest);
                }
            }
            r.push(s[i]);
            i = i + 1;
        }
    }
    assert(r@ =~= replaced(s@, needle@, seq![by]));
    r
}

/// The strings of `list` in order, with `sep` between neighbours.
pub open spec fn joined(list: Seq<Seq<char>>, sep: Seq<char>) -> Seq<char>
    decreases list.len(),
{
    if list.len() == 0 {
        Seq::empty()
    } else if list.len() == 1 {
        list[0]
    } else {
        list[0] + sep + joined(list.skip(1), sep)
    }
}

/// What joining yields when one more string follows.
pub proof fn lemma_joined_push(list: Seq<Seq<char>>, last: Seq<char>, sep: Seq<char>)
    ensures
        joined(list.push(last), sep) == if list.len() == 0 {
            last
        } else {
            joined(list, sep) + sep + last
        },
    decreases list.len(),
{
    if list.len() > 1 {
        lemma_joined_push(list.skip(1), last, sep);
        assert(list.push(last).skip(1) =~= list.skip(1).push(last));
        assert(list[0] + sep + (joined(list.skip(1), sep) + sep + last) =~= list[0] + sep + joined(
            list.skip(1),
            sep,
        ) + sep + last);
    } else if list.len() == 1 {
        assert(list.push(last).skip(1) =~= seq![last]);
        assert(joined(seq![last], sep) == last);
    }
}

/// Joins the strings of `list`, with `sep` between neighbours.
pub fn join(list: &Vec<String>, sep: &str) -> (r: String)
    ensures
        r@ == joined(views(list@), sep@),
{
    let mut r = String::new();
    assert(views(list@).take(0) =~= Seq::<Seq<char>>::empty());
    for i in 0..list.len()
        invariant
            r@ == joined(views(list@).take(i as int), sep@),
    {
        proof {
            lemma_joined_push(views(list@).take(i as int), list@[i as int]@, sep@);
            assert(views(list@).take(i + 1) =~= views(list@).take(i as int).push(
                list@[i as int]@,
            ));
        }
        if i > 0 {
            r.append(sep);
        }
        r.append(list[i].as_str());
        assert(r@ =~= joined(views(list@).take(i + 1), sep@));
    }
    assert(views(list@).take(list@.len() as int) =~= views(list@));
    r
}

/// The decimal digit of a number below ten.
pub open spec fn digit(d: nat) -> char {
    ('0' as int + d) as char
}

/// The decimal numeral of a number, without leading zeros.
pub open spec fn numeral(n: nat) -> Seq<char>
    decreases n,
{
    if n < 10 {
        seq![digit(n)]
    } else {
        numeral(n / 10).push(digit(n % 10))
    }
}

/// Appends the decimal numeral of `n`.
pub fn push_numeral(s: &mut String, n: usize)
    ensures
        final(s)@ == old(s)@ + numeral(n as nat),
    decreases n,
{
    if n >= 10 {
        push_numeral(s, n / 10);
    }
    let d: u8 = (n % 10) as u8;
    let c = (0x30 + d) as char;
    s.push(c);
    assert(s@ =~= old(s)@ + numeral(n as nat));
}

/// Whether two strings hold the same characters.
pub fn same_text(a: &str, b: &str) -> (r: bool)
    ensures
        r == (a@ == b@),
{
    let x = a.as_bytes();
    let y = b.as_bytes();
    if x.len() != y.len() {
        return false;
    }
    for i in 0..x.len()
        invariant
            x@ == vstd::utf8::encode_utf8(a@),
            y@ == vstd::utf8::encode_utf8(b@),
            x@.len() == y@.len(),
            forall|j: int| 0 <= j < i ==> x@[j] == y@[j],
    {
        if x[i] != y[i] {
            return false;
        }
    }
    proof {
        assert(x@ =~= y@);
        vstd::utf8::encode_utf8_decode_utf8(a@);
        vstd::utf8::encode_utf8_decode_utf8(b@);
    }
    true
}

/// Whether two lists hold the same strings in the same order.
pub fn same_strings(a: &Vec<String>, b: &Vec<String>) -> (r: bool)
    ensures
        r == (views(a@) == views(b@)),
{
    if a.len() != b.len() {
        assert(views(a@).len() != views(b@).len());
        return false;
    }
    for i in 0..a.len()
        invariant
            a@.len() == b@.len(),
            forall|j: int| 0 <= j < i ==> #[trigger] a@[j]@ == b@[j]@,
    {
        if a[i] != b[i] {
            assert(views(a@)[i as int] != views(b@)[i as int]);
            return false;
        }
    }
    assert(views(a@) =~= views(b@));
    true
}

/// A copy of a list of strings.
pub fn copy_strings(list: &Vec<String>) -> (r: Vec<String>)
    ensures
        views(r@) == views(list@),
{
    let mut r: Vec<String> = Vec::new();
    for i in 0..list.len()
        invariant
            views(r@) == views(list@).take(i as int),
    {
        let ghost before = r@;
        r.push(list[i].clone());
        assert(views(r@) =~= views(before).push(list@[i as int]@));
        assert(views(list@).take(i + 1) =~= views(list@).take(i as int).push(list@[i as int]@));
    }
    assert(views(list@).take(list@.len() as int) =~= views(list@));
    r
}

/// Words are what white space separates: an empty text has none, a text without
/// white space is one, and white space between two texts adds none and joins
/// none.
pub proof fn law_white_space_separates_words(s: Seq<char>, c: char, t: Seq<char>)
    requires
        is_white_space(c),
    ensures
        words(Seq::empty()) == Seq::<Seq<char>>::empty(),
        words(s + seq![c] + t) == words(s) + words(t),
        s.len() > 0 && (forall|i: int| 0 <= i < s.len() ==> !is_white_space(#[trigger] s[i]))
            ==> words(s) == seq![s],
    decreases s.len(),
{
    let whole = s + seq![c] + t;
    assert(words(Seq::empty()) =~= Seq::<Seq<char>>::empty());
    lemma_word_len_bound(s);
    if s.len() == 0 {
        assert(whole.skip(1) =~= t);
        assert(words(s) + words(t) =~= words(t));
    } else if is_white_space(s[0]) {
        law_white_space_separates_words(s.skip(1), c, t);
        assert(whole.skip(1) =~= s.skip(1) + seq![c] + t);
    } else {
        let n = word_len(s) as int;
        lemma_word_solid(s);
        lemma_word_end(s);
        assert forall|i: int| 0 <= i < n implies !is_white_space(#[trigger] whole[i]) by {
            assert(whole[i] == s[i]);
        }
        assert(whole[n] == if n < s.len() {
            s[n]
        } else {
            c
        });
        lemma_word_len(whole, n);
        law_white_space_separates_words(s.skip(n), c, t);
        assert(whole.take(n) =~= s.take(n));
        assert(whole.skip(n) =~= s.skip(n) + seq![c] + t);
        assert(words(whole) =~= words(s) + words(t));
    }
    if s.len() > 0 && (forall|i: int| 0 <= i < s.len() ==> !is_white_space(#[trigger] s[i])) {
        lemma_word_len(s, s.len() as int);
        assert(s.take(s.len() as int) =~= s);
        assert(s.skip(s.len() as int) =~= Seq::<char>::empty());
        assert(words(s) =~= seq![s]);
    }
}

/// A word ends at white space, or with the text.
proof fn lemma_word_end(s: Seq<char>)
    ensures
        word_len(s) < s.len() ==> is_white_space(s[word_len(s) as int]),
    decreases s.len(),
{
    if s.len() > 0 && !is_white_space(s[0]) {
        lemma_word_end(s.skip(1));
    }
}

/// Replacing leaves a text alone in which the needle does not occur, and
/// otherwise puts the replacement in the place of the first occurrence and goes
/// on behind it.
pub proof fn law_replacing_goes_from_left_to_right(
    s: Seq<char>,
    t: Seq<char>,
    needle: Seq<char>,
    by: Seq<char>,
)
    requires
        needle.len() > 0,
    ensures
        (forall|i: int| 0 <= i <= s.len() ==> !needle.is_prefix_of(#[trigger] s.skip(i)))
            ==> replaced(s, needle, by) == s,
        (forall|i: int|
            0 <= i < s.len() ==> !needle.is_prefix_of(#[trigger] (s + needle + t).skip(i)))
            ==> replaced(s + needle + t, needle, by) == s + by + replaced(t, needle, by),
    decreases s.len(),
{
    let whole = s + needle + t;
    if s.len() == 0 {
        assert(whole.skip(needle.len() as int) =~= t);
        assert(needle =~= whole.subrange(0, needle.len() as int));
        assert(s + by + replaced(t, needle, by) =~= by + replaced(t, needle, by));
    } else {
        let rest = s.skip(1);
        law_replacing_goes_from_left_to_right(rest, t, needle, by);
        assert(rest + needle + t =~= whole.skip(1));
        if forall|i: int|
            0 <= i < s.len() ==> !needle.is_prefix_of(#[trigger] whole.skip(i)) {
            assert(whole.skip(0) =~= whole);
            assert(!needle.is_prefix_of(whole.skip(0)));
            assert forall|i: int| 0 <= i < rest.len() implies !needle.is_prefix_of(
                #[trigger] (rest + needle + t).skip(i),
            ) by {
                assert((rest + needle + t).skip(i) =~= whole.skip(i + 1));
            }
            assert(replaced(whole, needle, by) =~= s + by + replaced(t, needle, by));
        }
        if forall|i: int| 0 <= i <= s.len() ==> !needle.is_prefix_of(#[trigger] s.skip(i)) {
            assert(s.skip(0) =~= s);
            assert(!needle.is_prefix_of(s.skip(0)));
            assert forall|i: int| 0 <= i <= rest.len() implies !needle.is_prefix_of(
                #[trigger] rest.skip(i),
            ) by {
                assert(rest.skip(i) =~= s.skip(i + 1));
            }
            assert(replaced(s, needle, by) =~= s);
        }
    }
}

/// Joining puts the separator between every two texts, and nowhere else.
pub proof fn law_joining_puts_the_separator_between(
    list: Seq<Seq<char>>,
    last: Seq<char>,
    sep: Seq<char>,
)
    ensures
        joined(Seq::empty(), sep) == Seq::<char>::empty(),
        joined(seq![last], sep) == last,
        list.len() > 0 ==> joined(list.push(last), sep) == joined(list, sep) + sep + last,
{
    lemma_joined_push(list, last, sep);
}

/// The number that a decimal numeral stands for.
pub open spec fn value_of(numeral: Seq<char>) -> int
    decreases numeral.len(),
{
    if numeral.len() == 0 {
        0
    } else {
        10 * value_of(numeral.drop_last()) + (numeral.last() as int - '0' as int)
    }
}

/// The numeral of a number stands for that number, is made of digits, and does
/// not start with a zero unless it is one.
pub proof fn law_numeral_stands_for_its_number(n: nat)
    ensures
        value_of(numeral(n)) == n,
        numeral(n).len() > 0,
        forall|i: int| 0 <= i < numeral(n).len() ==> '0' <= #[trigger] numeral(n)[i] <= '9',
        numeral(n)[0] == '0' ==> n == 0,
    decreases n,
{
    let d = n % 10;
    assert(digit(d) as int == '0' as int + d);
    if n < 10 {
        assert(seq![digit(n)].drop_last() =~= Seq::<char>::empty());
        assert(value_of(Seq::empty()) == 0);
        assert(value_of(seq![digit(n)]) == n);
    } else {
        law_numeral_stands_for_its_number(n / 10);
        let before = numeral(n / 10);
        assert(numeral(n).drop_last() =~= before);
        assert(numeral(n).last() == digit(d));
    }
}

/// The views of a list are those of its strings, one for one.
pub proof fn law_views_are_one_for_one(list: Seq<String>, i: int)
    requires
        0 <= i < list.len(),
    ensures
        views(list).len() == list.len(),
        views(list)[i] == list[i]@,
{
}

} // verus!
