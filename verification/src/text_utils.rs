//! Text helpers that work on Unicode scalar values.
//!
//! Text is modelled as the sequence of its scalar values, `Seq<char>`, which
//! is what `@` gives for a `&str` and for a `String`.

use crate::unicode::{
    is_whitespace, is_whitespace_char, lowercase, lowercase_of, uppercase, uppercase_of,
};
use vstd::prelude::*;
use vstd::string::StringExecFns;
use vstd::utf8::encode_utf8;

verus! {

/// The number of scalar values at the start of `t` before the first
/// whitespace, or all of them if `t` holds no whitespace.
pub open spec fn leading_word_len(t: Seq<char>) -> nat
    decreases t.len(),
{
    if t.len() == 0 || is_whitespace(t[0]) {
        0
    } else {
        1 + leading_word_len(t.drop_first())
    }
}

/// The words of `t`, in order: its maximal runs of scalar values that are not
/// whitespace.
pub open spec fn words(t: Seq<char>) -> Seq<Seq<char>>
    decreases t.len(),
    via words_decreases
{
    if t.len() == 0 {
        Seq::empty()
    } else if is_whitespace(t[0]) {
        words(t.drop_first())
    } else {
        let n = leading_word_len(t) as int;
        seq![t.take(n)] + words(t.skip(n))
    }
}

#[via_fn]
proof fn words_decreases(t: Seq<char>) {
    lemma_leading_word(t);
}

/// The number of words of `t`.
pub open spec fn word_count(t: Seq<char>) -> nat {
    words(t).len()
}

/// Whether `w` is a word: not empty and free of whitespace.
pub open spec fn is_word(w: Seq<char>) -> bool {
    w.len() > 0 && forall|i: int| 0 <= i < w.len() ==> !is_whitespace(#[trigger] w[i])
}

/// The text `t` with its whitespace taken out.
pub open spec fn without_whitespace(t: Seq<char>) -> Seq<char> {
    t.filter(|c: char| !is_whitespace(c))
}

/// The word `w` with its first scalar value in uppercase and the others in
/// lowercase.
pub open spec fn title_word(w: Seq<char>) -> Seq<char> {
    if w.len() == 0 {
        Seq::empty()
    } else {
        uppercase_of(w[0]) + lowercase_of(w.drop_first())
    }
}

/// The texts `ws` put together in order, with one space between neighbours.
pub open spec fn join_with_spaces(ws: Seq<Seq<char>>) -> Seq<char>
    decreases ws.len(),
{
    if ws.len() == 0 {
        Seq::empty()
    } else if ws.len() == 1 {
        ws[0]
    } else {
        ws[0] + seq![' '] + join_with_spaces(ws.drop_first())
    }
}

/// The words of `t`, each as [`title_word`] gives it, joined by single spaces.
pub open spec fn title_case(t: Seq<char>) -> Seq<char> {
    join_with_spaces(words(t).map_values(|w: Seq<char>| title_word(w)))
}

/// Reverses a string, scalar value by scalar value.
///
/// The result holds the scalar values of `text` in the opposite order, so it
/// takes as many bytes as `text` does.
pub fn reverse_string(text: &str) -> (reversed: String)
    ensures
        reversed@ == text@.reverse(),
        encode_utf8(reversed@).len() == encode_utf8(text@).len(),
{
    let chars = chars_of(text);
    let mut reversed = String::new();
    let mut i: usize = chars.len();
    while i > 0
        invariant
            i <= chars.len(),
            reversed@ == chars@.skip(i as int).reverse(),
        decreases i,
    {
        i = i - 1;
        reversed.push(chars[i]);
        assert(chars@.skip(i as int).reverse() == chars@.skip(i + 1).reverse().push(chars@[i as int]));
    }
    proof {
        lemma_reverse_keeps_encoded_len(text@);
    }
    reversed
}

/// Counts the words of a string.
///
/// A word is a maximal run of scalar values that are not whitespace, so the
/// count does not depend on how long the runs of whitespace are, nor on
/// whitespace at either end.
pub fn count_words(text: &str) -> (count: usize)
    ensures
        count == word_count(text@),
        count <= text@.len(),
{
    let chars = chars_of(text);
    let mut count: usize = 0;
    let mut i: usize = 0;
    assert(chars@.skip(0) == chars@);
    while i < chars.len()
        invariant
            i <= chars.len(),
            count <= i,
            count + words(chars@.skip(i as int)).len() == words(chars@).len(),
        decreases chars.len() - i,
    {
        if is_whitespace_char(chars[i]) {
            assert(chars@.skip(i as int).drop_first() == chars@.skip(i + 1));
            i = i + 1;
        } else {
            let end = word_end(&chars, i);
            assert(chars@.skip(i as int).skip(end - i) == chars@.skip(end as int));
            count = count + 1;
            i = end;
        }
    }
    count
}

/// Converts a string to title case.
///
/// Each word comes out with its first scalar value in uppercase and the rest
/// in lowercase. The words are joined by single spaces, so whitespace at either
/// end is dropped and every run of whitespace between two words becomes one
/// space.
pub fn to_title_case(text: &str) -> (titled: String)
    ensures
        titled@ == title_case(text@),
{
    let chars = chars_of(text);
    let mut cased: Vec<String> = Vec::new();
    let ghost mut done: Seq<Seq<char>> = Seq::empty();
    let mut i: usize = 0;
    assert(chars@.skip(0) == chars@);
    while i < chars.len()
        invariant
            i <= chars.len(),
            words(chars@) == done + words(chars@.skip(i as int)),
            cased@.map_values(|w: String| w@) == done.map_values(|w: Seq<char>| title_word(w)),
        decreases chars.len() - i,
    {
        if is_whitespace_char(chars[i]) {
            assert(chars@.skip(i as int).drop_first() == chars@.skip(i + 1));
            i = i + 1;
        } else {
            let end = word_end(&chars, i);
            let word = title_word_of(&chars, i, end);
            proof {
                let rest = chars@.skip(i as int);
                let w = rest.take(end - i);
                assert(rest.skip(end - i) == chars@.skip(end as int));
                assert(w == chars@.subrange(i as int, end as int));
                assert(done + (seq![w] + words(chars@.skip(end as int))) == done.push(w) + words(
                    chars@.skip(end as int),
                ));
                assert(cased@.push(word).map_values(|w: String| w@) == cased@.map_values(
                    |w: String| w@,
                ).push(word@));
                assert(done.push(w).map_values(|w: Seq<char>| title_word(w)) == done.map_values(
                    |w: Seq<char>| title_word(w),
                ).push(title_word(w)));
                done = done.push(w);
            }
            cased.push(word);
            i = end;
        }
    }
    assert(chars@.skip(chars.len() as int) == Seq::<char>::empty());
    assert(done + Seq::<Seq<char>>::empty() == done);
    join_words(&cased)
}

/// Joins `words` in order, with one space between neighbours.
pub fn join_words(words: &Vec<String>) -> (joined: String)
    ensures
        joined@ == join_with_spaces(words@.map_values(|w: String| w@)),
{
    let ghost texts = words@.map_values(|w: String| w@);
    let mut joined = String::new();
    let mut i: usize = 0;
    while i < words.len()
        invariant
            i <= words.len(),
            texts == words@.map_values(|w: String| w@),
            joined@ == join_with_spaces(texts.take(i as int)),
        decreases words.len() - i,
    {
        if i > 0 {
            joined.push(' ');
        }
        joined.append(words[i].as_str());
        proof {
            lemma_join_push(texts.take(i as int), texts[i as int]);
            assert(texts.take(i as int).push(texts[i as int]) == texts.take(i + 1));
        }
        i = i + 1;
    }
    assert(texts.take(words.len() as int) == texts);
    joined
}

/// The scalar values of `text`, in order.
fn chars_of(text: &str) -> (chars: Vec<char>)
    ensures
        chars@ == text@,
{
    let mut chars: Vec<char> = Vec::new();
    for c in it: text.chars()
        invariant
            chars@ == it.seq().take(it.index() as int),
            it.seq() == text@,
    {
        chars.push(c);
    }
    chars
}

/// The index just behind the word that starts at `start`.
fn word_end(chars: &Vec<char>, start: usize) -> (end: usize)
    requires
        start <= chars.len(),
    ensures
        end == start + leading_word_len(chars@.skip(start as int)),
        end <= chars.len(),
{
    let mut end: usize = start;
    while end < chars.len() && !is_whitespace_char(chars[end])
        invariant
            start <= end <= chars.len(),
            leading_word_len(chars@.skip(start as int)) == (end - start) + leading_word_len(
                chars@.skip(end as int),
            ),
        decreases chars.len() - end,
    {
        assert(chars@.skip(end as int).drop_first() == chars@.skip(end + 1));
        end = end + 1;
    }
    end
}

/// The word `chars[start..end]` in title case.
fn title_word_of(chars: &Vec<char>, start: usize, end: usize) -> (titled: String)
    requires
        start < end <= chars.len(),
    ensures
        titled@ == title_word(chars@.subrange(start as int, end as int)),
{
    let mut rest = String::new();
    let mut i: usize = start + 1;
    while i < end
        invariant
            start < i <= end <= chars.len(),
            rest@ == chars@.subrange(start + 1, i as int),
        decreases end - i,
    {
        rest.push(chars[i]);
        i = i + 1;
    }
    assert(rest@ == chars@.subrange(start as int, end as int).drop_first());
    let mut titled = uppercase(chars[start]);
    let lower = lowercase(rest.as_str());
    titled.append(lower.as_str());
    titled
}

/// Reversing twice gives the text back.
pub proof fn lemma_reverse_involution(t: Seq<char>)
    ensures
        t.reverse().reverse() == t,
{
    assert(t.reverse().reverse() =~= t);
}

/// A text and its reverse take the same number of bytes in UTF-8.
pub proof fn lemma_reverse_keeps_encoded_len(t: Seq<char>)
    ensures
        encode_utf8(t.reverse()).len() == encode_utf8(t).len(),
    decreases t.len(),
{
    if t.len() > 0 {
        let rest = t.drop_first();
        lemma_reverse_keeps_encoded_len(rest);
        assert(t.reverse() =~= rest.reverse().push(t[0]));
        lemma_encoded_len_concat(rest.reverse(), seq![t[0]]);
        assert(rest.reverse().push(t[0]) =~= rest.reverse() + seq![t[0]]);
        lemma_encoded_len_concat(seq![t[0]], rest);
        assert(seq![t[0]] + rest =~= t);
    } else {
        assert(t.reverse() =~= t);
    }
}

/// The UTF-8 encoding of two texts put together is as long as the two
/// encodings together.
pub proof fn lemma_encoded_len_concat(s: Seq<char>, t: Seq<char>)
    ensures
        encode_utf8(s + t).len() == encode_utf8(s).len() + encode_utf8(t).len(),
    decreases s.len(),
{
    if s.len() == 0 {
        assert(s + t =~= t);
    } else {
        lemma_encoded_len_concat(s.drop_first(), t);
        assert((s + t).drop_first() =~= s.drop_first() + t);
    }
}

/// The leading word of a text ends where the text ends or at whitespace, and
/// holds no whitespace itself.
pub proof fn lemma_leading_word(t: Seq<char>)
    ensures
        leading_word_len(t) <= t.len(),
        forall|i: int| 0 <= i < leading_word_len(t) ==> !is_whitespace(#[trigger] t[i]),
        leading_word_len(t) < t.len() ==> is_whitespace(t[leading_word_len(t) as int]),
    decreases t.len(),
{
    if t.len() > 0 && !is_whitespace(t[0]) {
        let rest = t.drop_first();
        lemma_leading_word(rest);
        assert forall|i: int| 0 <= i < leading_word_len(t) implies !is_whitespace(
            #[trigger] t[i],
        ) by {
            if i > 0 {
                assert(t[i] == rest[i - 1]);
            }
        }
    }
}

/// A text that holds no whitespace is its own leading word.
pub proof fn lemma_leading_word_of_word(w: Seq<char>)
    requires
        forall|i: int| 0 <= i < w.len() ==> !is_whitespace(#[trigger] w[i]),
    ensures
        leading_word_len(w) == w.len(),
    decreases w.len(),
{
    if w.len() > 0 {
        let rest = w.drop_first();
        assert forall|i: int| 0 <= i < rest.len() implies !is_whitespace(#[trigger] rest[i]) by {
            assert(rest[i] == w[i + 1]);
        }
        lemma_leading_word_of_word(rest);
    }
}

/// What follows the first whitespace of a text has no part in its leading
/// word.
pub proof fn lemma_leading_word_before_whitespace(a: Seq<char>, c: char, b: Seq<char>)
    requires
        is_whitespace(c),
    ensures
        leading_word_len(a + seq![c] + b) == leading_word_len(a),
    decreases a.len(),
{
    let t = a + seq![c] + b;
    if a.len() == 0 {
        assert(t[0] == c);
    } else {
        assert(t[0] == a[0]);
        if !is_whitespace(a[0]) {
            lemma_leading_word_before_whitespace(a.drop_first(), c, b);
            assert(t.drop_first() == a.drop_first() + seq![c] + b);
        }
    }
}

/// Every word of a text is a word: it is not empty and holds no whitespace.
pub proof fn lemma_words_are_words(t: Seq<char>)
    ensures
        forall|i: int| 0 <= i < words(t).len() ==> is_word(#[trigger] words(t)[i]),
    decreases t.len(),
{
    if t.len() == 0 {
    } else if is_whitespace(t[0]) {
        lemma_words_are_words(t.drop_first());
        assert(words(t) == words(t.drop_first()));
    } else {
        let n = leading_word_len(t) as int;
        lemma_leading_word(t);
        lemma_words_are_words(t.skip(n));
        assert(is_word(t.take(n)));
        assert forall|i: int| 0 <= i < words(t).len() implies is_word(#[trigger] words(t)[i]) by {
            if i > 0 {
                assert(words(t)[i] == words(t.skip(n))[i - 1]);
            } else {
                assert(words(t)[0] == t.take(n));
            }
        }
    }
}

/// The words of a text, one after the other, are the text without its
/// whitespace: the words hold every other scalar value once, in order.
pub proof fn lemma_words_hold_what_is_not_whitespace(t: Seq<char>)
    ensures
        words(t).flatten() == without_whitespace(t),
    decreases t.len(),
{
    let keep = |c: char| !is_whitespace(c);
    if t.len() == 0 {
        reveal(Seq::filter);
    } else if is_whitespace(t[0]) {
        let rest = t.drop_first();
        lemma_words_hold_what_is_not_whitespace(rest);
        assert(t == seq![t[0]] + rest);
        Seq::filter_distributes_over_add(seq![t[0]], rest, keep);
        assert(seq![t[0]].filter(keep) == Seq::<char>::empty()) by {
            reveal_with_fuel(Seq::filter, 2);
        }
    } else {
        let n = leading_word_len(t) as int;
        lemma_leading_word(t);
        lemma_words_hold_what_is_not_whitespace(t.skip(n));
        assert(t == t.take(n) + t.skip(n));
        Seq::filter_distributes_over_add(t.take(n), t.skip(n), keep);
        lemma_filter_keeps_word(t.take(n));
        assert(words(t).first() == t.take(n));
        assert(words(t).drop_first() == words(t.skip(n)));
    }
}

/// Taking the whitespace out of a text that holds none leaves it as it is.
proof fn lemma_filter_keeps_word(w: Seq<char>)
    requires
        forall|i: int| 0 <= i < w.len() ==> !is_whitespace(#[trigger] w[i]),
    ensures
        without_whitespace(w) == w,
    decreases w.len(),
{
    reveal(Seq::filter);
    if w.len() > 0 {
        lemma_filter_keeps_word(w.drop_last());
        assert(!is_whitespace(w[w.len() - 1]));
        assert(w.drop_last().push(w.last()) == w);
    }
}

/// A text has at most as many words as it has scalar values.
pub proof fn lemma_word_count_bound(t: Seq<char>)
    ensures
        word_count(t) <= t.len(),
    decreases t.len(),
{
    if t.len() == 0 {
    } else if is_whitespace(t[0]) {
        lemma_word_count_bound(t.drop_first());
    } else {
        lemma_leading_word(t);
        lemma_word_count_bound(t.skip(leading_word_len(t) as int));
    }
}

/// A text that holds nothing but whitespace, the empty text among them, has
/// no words, and its title case is empty.
pub proof fn lemma_blank_text(t: Seq<char>)
    requires
        forall|i: int| 0 <= i < t.len() ==> is_whitespace(#[trigger] t[i]),
    ensures
        words(t) == Seq::<Seq<char>>::empty(),
        word_count(t) == 0,
        title_case(t) == Seq::<char>::empty(),
    decreases t.len(),
{
    if t.len() > 0 {
        let rest = t.drop_first();
        assert forall|i: int| 0 <= i < rest.len() implies is_whitespace(#[trigger] rest[i]) by {
            assert(rest[i] == t[i + 1]);
        }
        lemma_blank_text(rest);
    }
    assert(words(t).map_values(|w: Seq<char>| title_word(w)) == Seq::<Seq<char>>::empty());
}

/// A word is the one word of the text that it makes up.
pub proof fn lemma_words_of_word(w: Seq<char>)
    requires
        is_word(w),
    ensures
        words(w) == seq![w],
{
    lemma_leading_word_of_word(w);
    assert(!is_whitespace(w[0]));
    assert(w.take(w.len() as int) == w);
    assert(w.skip(w.len() as int) == Seq::<char>::empty());
    assert(words(Seq::<char>::empty()) == Seq::<Seq<char>>::empty());
    assert(seq![w] + Seq::<Seq<char>>::empty() == seq![w]);
}

/// Whitespace parts a text: the words of two texts with one whitespace
/// between them are the words of the first, then those of the second. So
/// neither whitespace at an end of a text nor the length of a run of
/// whitespace changes its words.
pub proof fn lemma_words_around_whitespace(a: Seq<char>, c: char, b: Seq<char>)
    requires
        is_whitespace(c),
    ensures
        words(a + seq![c] + b) == words(a) + words(b),
    decreases a.len(),
{
    let t = a + seq![c] + b;
    if a.len() == 0 {
        assert(t[0] == c);
        assert(t.drop_first() == b);
        assert(words(a) + words(b) == words(b));
    } else if is_whitespace(a[0]) {
        assert(t[0] == a[0]);
        lemma_words_around_whitespace(a.drop_first(), c, b);
        assert(t.drop_first() == a.drop_first() + seq![c] + b);
    } else {
        assert(t[0] == a[0]);
        let n = leading_word_len(a) as int;
        lemma_leading_word(a);
        lemma_leading_word_before_whitespace(a, c, b);
        lemma_words_around_whitespace(a.skip(n), c, b);
        assert(t.take(n) == a.take(n));
        assert(t.skip(n) == a.skip(n) + seq![c] + b);
        assert(seq![a.take(n)] + (words(a.skip(n)) + words(b)) == seq![a.take(n)] + words(
            a.skip(n),
        ) + words(b));
    }
}

/// Joining one more text puts a space before it, unless it is the first.
pub proof fn lemma_join_push(ws: Seq<Seq<char>>, w: Seq<char>)
    ensures
        join_with_spaces(ws.push(w)) == if ws.len() == 0 {
            w
        } else {
            join_with_spaces(ws) + seq![' '] + w
        },
    decreases ws.len(),
{
    if ws.len() == 0 {
    } else {
        let rest = ws.drop_first();
        lemma_join_push(rest, w);
        assert(ws.push(w).drop_first() == rest.push(w));
        if rest.len() > 0 {
            assert(ws[0] + seq![' '] + (join_with_spaces(rest) + seq![' '] + w) == ws[0] + seq![
                ' ',
            ] + join_with_spaces(rest) + seq![' '] + w);
        }
    }
}

/// Joining words with single spaces and taking the words of the result gives
/// the same words back.
pub proof fn lemma_words_of_joined(ws: Seq<Seq<char>>)
    requires
        forall|i: int| 0 <= i < ws.len() ==> is_word(#[trigger] ws[i]),
    ensures
        words(join_with_spaces(ws)) == ws,
    decreases ws.len(),
{
    if ws.len() == 0 {
    } else if ws.len() == 1 {
        lemma_words_of_word(ws[0]);
        assert(seq![ws[0]] == ws);
    } else {
        let rest = ws.drop_first();
        assert forall|i: int| 0 <= i < rest.len() implies is_word(#[trigger] rest[i]) by {
            assert(rest[i] == ws[i + 1]);
        }
        lemma_words_of_joined(rest);
        lemma_words_of_word(ws[0]);
        lemma_words_around_whitespace(ws[0], ' ', join_with_spaces(rest));
        assert(seq![ws[0]] + rest == ws);
    }
}

/// Title case keeps the words apart: where each word of `t` is still one word
/// once its case is mapped, the words of the title case of `t` are the words
/// of `t` in title case, one for one, and so there are as many.
pub proof fn lemma_title_case_keeps_words(t: Seq<char>)
    requires
        forall|i: int| 0 <= i < words(t).len() ==> is_word(title_word(#[trigger] words(t)[i])),
    ensures
        words(title_case(t)) == words(t).map_values(|w: Seq<char>| title_word(w)),
        word_count(title_case(t)) == word_count(t),
{
    lemma_words_of_joined(words(t).map_values(|w: Seq<char>| title_word(w)));
}

} // verus!
