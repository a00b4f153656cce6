//! What replacing a word does to a text that is put together from pieces.

use crate::text::{
    contains_text, decimal, find_from, is_digit, law_decimal_reads_back, law_find_from_is_first, occurs_at, pieces,
    trimmed, unsigned_numeral, white_space,
};
use crate::xml::{
    block_text, element_line, element_text, element_with, entity, escaped, is_markup, law_escaped_text_holds_no_markup,
};
use vstd::prelude::*;

verus! {

/// `s` with each `word` replaced, from left to right.
pub open spec fn replaced(s: Seq<char>, word: Seq<char>, by: Seq<char>) -> Seq<char>
    decreases s.len(),
{
    if s.len() == 0 || word.len() == 0 {
        s
    } else if occurs_at(s, word, 0) {
        by + replaced(s.skip(word.len() as int), word, by)
    } else {
        seq![s[0]] + replaced(s.skip(1), word, by)
    }
}

/// Whether `word` cannot begin at `i`, whatever follows `s`.
pub open spec fn is_refuted(s: Seq<char>, word: Seq<char>, i: int) -> bool {
    exists|k: int| 0 <= k < word.len() && i + k < s.len() && #[trigger] s[i + k] != word[k]
}

/// Whether `word` cannot begin anywhere in `s`, whatever follows `s`.
#[verifier::opaque]
pub open spec fn is_clear(s: Seq<char>, word: Seq<char>) -> bool {
    forall|i: int| 0 <= i < s.len() ==> #[trigger] is_refuted(s, word, i)
}

/// Whether a text that begins with `s` begins with `t` once `word` is replaced.
#[verifier::opaque]
pub open spec fn becomes(s: Seq<char>, t: Seq<char>, word: Seq<char>, by: Seq<char>) -> bool {
    forall|rest: Seq<char>| #[trigger] replaced(s + rest, word, by) == t + replaced(rest, word, by)
}

/// Whether a piece stays as it is when `word` is replaced.
pub open spec fn keeps(s: Seq<char>, word: Seq<char>, by: Seq<char>) -> bool {
    becomes(s, s, word, by)
}

/// A clear piece stays as it is.
pub proof fn lemma_clear_keeps(s: Seq<char>, word: Seq<char>, by: Seq<char>)
    requires
        is_clear(s, word),
    ensures
        keeps(s, word, by),
{
    reveal(becomes);
    assert forall|rest: Seq<char>| #[trigger] replaced(s + rest, word, by) == s + replaced(rest, word, by) by {
        lemma_clear_head(s, rest, word, by);
    }
}

proof fn lemma_clear_head(s: Seq<char>, rest: Seq<char>, word: Seq<char>, by: Seq<char>)
    requires
        is_clear(s, word),
    ensures
        replaced(s + rest, word, by) == s + replaced(rest, word, by),
    decreases s.len(),
{
    reveal(is_clear);
    if s.len() == 0 {
        assert(s + rest =~= rest);
        assert(s + replaced(rest, word, by) =~= replaced(rest, word, by));
    } else {
        let tail = s.skip(1);
        assert(is_refuted(s, word, 0));
        let k = choose|k: int| 0 <= k < word.len() && 0 + k < s.len() && #[trigger] s[0 + k] != word[k];
        assert((s + rest)[k] == s[k]);
        if occurs_at(s + rest, word, 0) {
            assert((s + rest).subrange(0, 0int + word.len())[k] == (s + rest)[k]);
        }
        assert forall|i: int| 0 <= i < tail.len() implies #[trigger] is_refuted(tail, word, i) by {
            assert(is_refuted(s, word, i + 1));
            let j = choose|j: int| 0 <= j < word.len() && i + 1 + j < s.len() && #[trigger] s[i + 1 + j] != word[j];
            assert(tail[i + j] == s[i + 1 + j]);
        }
        lemma_clear_head(tail, rest, word, by);
        assert((s + rest).skip(1) =~= tail + rest);
        assert(seq![s[0]] + (tail + replaced(rest, word, by)) =~= s + replaced(rest, word, by));
    }
}

/// The word itself becomes what replaces it.
pub proof fn lemma_word_becomes(word: Seq<char>, by: Seq<char>)
    requires
        word.len() > 0,
    ensures
        becomes(word, by, word, by),
{
    reveal(becomes);
    assert forall|rest: Seq<char>| #[trigger] replaced(word + rest, word, by) == by + replaced(rest, word, by) by {
        let s = word + rest;
        assert(s.subrange(0, 0int + word.len()) =~= word);
        assert(s.skip(word.len() as int) =~= rest);
    }
}

/// Pieces that follow each other.
pub proof fn lemma_then(
    a: Seq<char>,
    a2: Seq<char>,
    b: Seq<char>,
    b2: Seq<char>,
    word: Seq<char>,
    by: Seq<char>,
)
    requires
        becomes(a, a2, word, by),
        becomes(b, b2, word, by),
    ensures
        becomes(a + b, a2 + b2, word, by),
{
    reveal(becomes);
    assert forall|rest: Seq<char>| #[trigger] replaced((a + b) + rest, word, by) == (a2 + b2) + replaced(
        rest,
        word,
        by,
    ) by {
        assert((a + b) + rest =~= a + (b + rest));
        assert(replaced(a + (b + rest), word, by) == a2 + replaced(b + rest, word, by));
        assert(replaced(b + rest, word, by) == b2 + replaced(rest, word, by));
        assert(a2 + (b2 + replaced(rest, word, by)) =~= (a2 + b2) + replaced(rest, word, by));
    }
}

/// What the pieces become, the whole becomes.
pub proof fn lemma_whole(s: Seq<char>, t: Seq<char>, word: Seq<char>, by: Seq<char>)
    requires
        becomes(s, t, word, by),
    ensures
        replaced(s, word, by) == t,
{
    reveal(becomes);
    let none = Seq::<char>::empty();
    assert(s + none =~= s);
    assert(replaced(s + none, word, by) == t + replaced(none, word, by));
    assert(t + none =~= t);
}

/// A text that keeps as long as it is when a word is taken out does not hold the word.
pub proof fn lemma_kept_text_lacks_word(s: Seq<char>, word: Seq<char>)
    requires
        word.len() > 0,
        keeps(s, word, Seq::empty()),
    ensures
        !contains_text(s, word),
{
    lemma_whole(s, s, word, Seq::empty());
    law_find_from_is_first(s, word, 0);
    if let Some(k) = find_from(s, word, 0) {
        lemma_taking_out_shortens(s, word, k);
    }
}

proof fn lemma_taking_out_shortens(s: Seq<char>, word: Seq<char>, i: int)
    requires
        word.len() > 0,
        occurs_at(s, word, i),
    ensures
        replaced(s, word, Seq::empty()).len() < s.len(),
    decreases s.len(),
{
    if occurs_at(s, word, 0) {
        lemma_taking_out_does_not_lengthen(s.skip(word.len() as int), word);
    } else {
        let rest = s.skip(1);
        assert(rest.subrange(i - 1, i - 1 + word.len()) =~= s.subrange(i, i + word.len()));
        lemma_taking_out_shortens(rest, word, i - 1);
    }
}

proof fn lemma_taking_out_does_not_lengthen(s: Seq<char>, word: Seq<char>)
    ensures
        replaced(s, word, Seq::empty()).len() <= s.len(),
    decreases s.len(),
{
    if s.len() > 0 && word.len() > 0 {
        if occurs_at(s, word, 0) {
            lemma_taking_out_does_not_lengthen(s.skip(word.len() as int), word);
        } else {
            lemma_taking_out_does_not_lengthen(s.skip(1), word);
        }
    }
}

/// Whether `s` does not hold the character `c`.
pub open spec fn lacks(s: Seq<char>, c: char) -> bool {
    forall|i: int| 0 <= i < s.len() ==> #[trigger] s[i] != c
}

pub proof fn lemma_lacks_sum(a: Seq<char>, b: Seq<char>, c: char)
    requires
        lacks(a, c),
        lacks(b, c),
    ensures
        lacks(a + b, c),
{
    assert forall|i: int| 0 <= i < (a + b).len() implies #[trigger] (a + b)[i] != c by {
        if i < a.len() {
            assert((a + b)[i] == a[i]);
        } else {
            assert((a + b)[i] == b[i - a.len()]);
        }
    }
}

/// A piece without the first character of a word stays as it is.
pub proof fn lemma_lacking_keeps(s: Seq<char>, word: Seq<char>, by: Seq<char>)
    requires
        word.len() > 0,
        lacks(s, word[0]),
    ensures
        keeps(s, word, by),
{
    reveal(is_clear);
    assert forall|i: int| 0 <= i < s.len() implies #[trigger] is_refuted(s, word, i) by {
        assert(s[i + 0] != word[0]);
    }
    lemma_clear_keeps(s, word, by);
}

/// A piece that holds the first character of a word only at its head, and goes on otherwise than the
/// word at `k`, stays as it is.
pub proof fn lemma_other_word_keeps(s: Seq<char>, word: Seq<char>, k: int, by: Seq<char>)
    requires
        0 < k < word.len(),
        k < s.len(),
        s[k] != word[k],
        lacks(s.skip(1), word[0]),
    ensures
        keeps(s, word, by),
{
    reveal(is_clear);
    assert forall|i: int| 0 <= i < s.len() implies #[trigger] is_refuted(s, word, i) by {
        if i == 0 {
            assert(s[i + k] != word[k]);
        } else {
            assert(s.skip(1)[i - 1] == s[i + 0]);
        }
    }
    lemma_clear_keeps(s, word, by);
}

/// A text ends as its escaped form does, up to an entity.
proof fn lemma_escaped_end(x: Seq<char>, u: Seq<char>)
    requires
        u.len() <= escaped(x).len(),
        escaped(x).skip(escaped(x).len() - u.len()) == u,
        lacks(u, ';'),
    ensures
        u.len() <= x.len(),
        x.skip(x.len() - u.len()) == u,
    decreases u.len(),
{
    if u.len() == 0 {
        assert(x.skip(x.len() as int) =~= u);
    } else {
        let e = escaped(x);
        let y = x.drop_last();
        let n = u.len() as int;
        assert(x.len() > 0);
        assert(e.last() == e.skip(e.len() - n)[n - 1]);
        assert(e.last() == entity(x.last()).last()) by {
            lemma_entities();
            assert(e == escaped(y) + entity(x.last()));
        }
        lemma_entities();
        assert(entity(x.last()) == seq![x.last()]);
        let v = u.drop_last();
        assert(escaped(y).len() == e.len() - 1);
        assert(escaped(y).skip(escaped(y).len() - v.len()) =~= v) by {
            assert forall|i: int| 0 <= i < v.len() implies escaped(y).skip(escaped(y).len() - v.len())[i] == v[i] by {
                assert(e.skip(e.len() - n)[i] == u[i]);
            }
        }
        assert(lacks(v, ';')) by {
            assert forall|i: int| 0 <= i < v.len() implies #[trigger] v[i] != ';' by {
                assert(v[i] == u[i]);
            }
        }
        lemma_escaped_end(y, v);
        assert(x.skip(x.len() - n) =~= u) by {
            assert forall|i: int| 0 <= i < n implies x.skip(x.len() - n)[i] == u[i] by {
                if i < n - 1 {
                    assert(y.skip(y.len() - v.len())[i] == v[i]);
                }
            }
        }
    }
}

/// What the entities are made of.
proof fn lemma_entities()
    ensures
        forall|c: char|
            #![trigger entity(c)]
            entity(c) == seq![c] || (4 <= entity(c).len() <= 6 && entity(c)[0] == '&' && entity(c).last() == ';'),
        forall|c: char| entity(c) == seq![c] ==> c != '&' && #[trigger] entity(c).len() == 1,
{
    reveal_strlit("&amp;");
    reveal_strlit("&lt;");
    reveal_strlit("&gt;");
    reveal_strlit("&quot;");
    reveal_strlit("&apos;");
}

/// A word that is no part of an entity stands in an escaped text only where it stands in the text.
proof fn lemma_escaped_occurrence(x: Seq<char>, word: Seq<char>, i: int)
    requires
        word.len() > 4,
        lacks(word, '&'),
        lacks(word, ';'),
        occurs_at(escaped(x), word, i),
    ensures
        contains_text(x, word),
    decreases x.len(),
{
    let e = escaped(x);
    let n = word.len() as int;
    assert(x.len() > 0);
    let y = x.drop_last();
    let head = escaped(y);
    let last = entity(x.last());
    assert(e == head + last);
    assert forall|k: int| 0 <= k < n implies e[i + k] == #[trigger] word[k] by {
        assert(e.subrange(i, i + n)[k] == e[i + k]);
    }
    law_find_from_is_first(x, word, 0);
    if i + n == e.len() {
        assert(e.skip(e.len() - n) =~= word);
        lemma_escaped_end(x, word);
        assert(x.subrange(x.len() - n, x.len() - n + n) =~= x.skip(x.len() - n));
        assert(occurs_at(x, word, x.len() - n));
    } else if i + n <= head.len() {
        assert(head.subrange(i, i + n) =~= e.subrange(i, i + n));
        lemma_escaped_occurrence(y, word, i);
        law_find_from_is_first(y, word, 0);
        let j = find_from(y, word, 0)->0;
        assert(x.subrange(j, j + n) =~= y.subrange(j, j + n));
        assert(occurs_at(x, word, j));
    } else {
        lemma_entities();
        if i <= head.len() {
            let k = head.len() - i;
            assert(e[i + k] == last[0]);
            assert(word[k] == '&');
        }
        assert(false);
    }
}

/// The escaped form of a text without a word, and a character behind it that is not in the word, stay
/// as they are.
pub proof fn lemma_escaped_keeps(x: Seq<char>, close: char, word: Seq<char>, by: Seq<char>)
    requires
        !contains_text(x, word),
        word.len() > 4,
        lacks(word, '&'),
        lacks(word, ';'),
        lacks(word, close),
    ensures
        keeps(escaped(x).push(close), word, by),
{
    reveal(is_clear);
    let e = escaped(x);
    let s = e.push(close);
    let n = word.len() as int;
    assert forall|i: int| 0 <= i < s.len() implies #[trigger] is_refuted(s, word, i) by {
        if i + n > e.len() {
            let k = e.len() - i;
            assert(s[i + k] == close);
            assert(word[k] != close);
        } else if !is_refuted(s, word, i) {
            assert forall|k: int| 0 <= k < n implies e.subrange(i, i + n)[k] == word[k] by {
                assert(s[i + k] == word[k]);
            }
            assert(e.subrange(i, i + n) =~= word);
            lemma_escaped_occurrence(x, word, i);
        }
    }
    lemma_clear_keeps(s, word, by);
}

/// An opening tag.
pub open spec fn opening(name: Seq<char>, attributes: Seq<char>) -> Seq<char> {
    "<"@ + name + attributes + ">"@
}

/// A closing tag.
pub open spec fn closing(name: Seq<char>) -> Seq<char> {
    "</"@ + name + ">"@
}

/// Whether the tags of an element stay as they are.
pub open spec fn keeps_tags(name: Seq<char>, word: Seq<char>, by: Seq<char>) -> bool {
    keeps(opening(name, Seq::empty()), word, by) && keeps(closing(name), word, by)
}

/// What an element becomes.
pub proof fn lemma_element_becomes(
    name: Seq<char>,
    name2: Seq<char>,
    attributes: Seq<char>,
    content: Seq<char>,
    content2: Seq<char>,
    word: Seq<char>,
    by: Seq<char>,
)
    requires
        becomes(opening(name, attributes), opening(name2, attributes), word, by),
        becomes(content + closing(name), content2 + closing(name2), word, by),
    ensures
        becomes(element_with(name, attributes, content), element_with(name2, attributes, content2), word, by),
{
    lemma_then(
        opening(name, attributes),
        opening(name2, attributes),
        content + closing(name),
        content2 + closing(name2),
        word,
        by,
    );
    assert(element_with(name, attributes, content) =~= opening(name, attributes) + (content + closing(name)));
    assert(element_with(name2, attributes, content2) =~= opening(name2, attributes) + (content2 + closing(name2)));
}

/// What an element on a line of its own becomes.
pub proof fn lemma_line_becomes(
    name: Seq<char>,
    content: Seq<char>,
    content2: Seq<char>,
    word: Seq<char>,
    by: Seq<char>,
)
    requires
        keeps(opening(name, Seq::empty()), word, by),
        becomes(content + closing(name), content2 + closing(name), word, by),
        keeps("\n"@, word, by),
    ensures
        becomes(element_line(name, content), element_line(name, content2), word, by),
{
    lemma_element_becomes(name, name, Seq::empty(), content, content2, word, by);
    lemma_then(element_text(name, content), element_text(name, content2), "\n"@, "\n"@, word, by);
}

/// An element on a line of its own whose content stays as it is.
pub proof fn lemma_line_keeps(name: Seq<char>, content: Seq<char>, word: Seq<char>, by: Seq<char>)
    requires
        keeps_tags(name, word, by),
        keeps(content, word, by),
        keeps("\n"@, word, by),
    ensures
        keeps(element_line(name, content), word, by),
{
    lemma_then(content, content, closing(name), closing(name), word, by);
    lemma_line_becomes(name, content, content, word, by);
}

/// What an element whose content stands on lines of its own becomes.
pub proof fn lemma_block_becomes(
    name: Seq<char>,
    name2: Seq<char>,
    content: Seq<char>,
    content2: Seq<char>,
    word: Seq<char>,
    by: Seq<char>,
)
    requires
        becomes(opening(name, Seq::empty()), opening(name2, Seq::empty()), word, by),
        becomes(closing(name), closing(name2), word, by),
        becomes(content, content2, word, by),
        keeps("\n"@, word, by),
    ensures
        becomes(block_text(name, content), block_text(name2, content2), word, by),
{
    let inner = "\n"@ + content;
    let inner2 = "\n"@ + content2;
    lemma_then("\n"@, "\n"@, content, content2, word, by);
    lemma_then(inner, inner2, closing(name), closing(name2), word, by);
    lemma_element_becomes(name, name2, Seq::empty(), inner, inner2, word, by);
    lemma_then(element_text(name, inner), element_text(name2, inner2), "\n"@, "\n"@, word, by);
}

/// Tags without the first character of a word stay as they are.
pub proof fn lemma_lacking_tags_keep(name: Seq<char>, attributes: Seq<char>, word: Seq<char>, by: Seq<char>)
    requires
        word.len() > 0,
        lacks(name, word[0]),
        lacks(attributes, word[0]),
        word[0] != '<' && word[0] != '>' && word[0] != '/',
    ensures
        keeps(opening(name, attributes), word, by),
        keeps(closing(name), word, by),
{
    let c = word[0];
    reveal_strlit("<");
    reveal_strlit("</");
    reveal_strlit(">");
    assert(lacks("<"@, c) && lacks("</"@, c) && lacks(">"@, c));
    lemma_lacks_sum("<"@, name, c);
    lemma_lacks_sum("<"@ + name, attributes, c);
    lemma_lacks_sum("<"@ + name + attributes, ">"@, c);
    lemma_lacks_sum("</"@, name, c);
    lemma_lacks_sum("</"@ + name, ">"@, c);
    lemma_lacking_keeps(opening(name, attributes), word, by);
    lemma_lacking_keeps(closing(name), word, by);
}

/// Tags stay as they are where the word is another tag, whose name differs at `k`.
pub proof fn lemma_other_tags_keep(
    name: Seq<char>,
    attributes: Seq<char>,
    word: Seq<char>,
    k: int,
    by: Seq<char>,
)
    requires
        0 <= k < name.len(),
        k + 1 < word.len(),
        name[k] != word[k + 1],
        word[0] == '<',
        word[1] != '/',
        lacks(name, '<'),
        lacks(attributes, '<'),
    ensures
        keeps(opening(name, attributes), word, by),
        keeps(closing(name), word, by),
{
    reveal_strlit("<");
    reveal_strlit("</");
    reveal_strlit(">");
    assert(lacks(">"@, '<'));
    let open = opening(name, attributes);
    let rest = name + attributes + ">"@;
    lemma_lacks_sum(name, attributes, '<');
    lemma_lacks_sum(name + attributes, ">"@, '<');
    assert(open.skip(1) =~= rest);
    assert(open[k + 1] == rest[k]);
    lemma_other_word_keeps(open, word, k + 1, by);
    let close = closing(name);
    let slash = seq!['/'];
    assert(lacks(slash, '<'));
    lemma_lacks_sum(slash, name, '<');
    lemma_lacks_sum(slash + name, ">"@, '<');
    assert(close.skip(1) =~= slash + name + ">"@);
    assert(close[1] == '/');
    lemma_other_word_keeps(close, word, 1, by);
}

/// The escaped form of a text without a word stays as it is inside an element that lacks the first
/// character of the word.
pub proof fn lemma_escaped_content_keeps(x: Seq<char>, name: Seq<char>, word: Seq<char>, by: Seq<char>)
    requires
        !contains_text(x, word),
        word.len() > 4,
        lacks(word, '&'),
        lacks(word, ';'),
        lacks(word, '<'),
        lacks(name, word[0]),
        word[0] != '>' && word[0] != '/',
    ensures
        keeps(escaped(x) + closing(name), word, by),
{
    let c = word[0];
    let slash = seq!['/'];
    reveal_strlit("</");
    reveal_strlit(">");
    lemma_escaped_keeps(x, '<', word, by);
    assert(lacks(slash, c) && lacks(">"@, c));
    lemma_lacks_sum(slash, name, c);
    lemma_lacks_sum(slash + name, ">"@, c);
    lemma_lacking_keeps(slash + name + ">"@, word, by);
    lemma_then(
        escaped(x).push('<'),
        escaped(x).push('<'),
        slash + name + ">"@,
        slash + name + ">"@,
        word,
        by,
    );
    assert(escaped(x) + closing(name) =~= escaped(x).push('<') + (slash + name + ">"@));
}

/// Escaped text holds no tag.
pub proof fn lemma_escaped_text_keeps_tags(x: Seq<char>, name: Seq<char>, word: Seq<char>, by: Seq<char>)
    requires
        word.len() > 0,
        word[0] == '<',
        keeps(closing(name), word, by),
    ensures
        keeps(escaped(x) + closing(name), word, by),
{
    law_escaped_text_holds_no_markup(x);
    assert forall|i: int| 0 <= i < escaped(x).len() implies #[trigger] escaped(x)[i] != '<' by {
        assert(!is_markup(escaped(x)[i]));
    }
    lemma_lacking_keeps(escaped(x), word, by);
    lemma_then(escaped(x), escaped(x), closing(name), closing(name), word, by);
}

/// How often `word` stands in `s`, counted from left to right.
pub open spec fn occurrences(s: Seq<char>, word: Seq<char>) -> nat
    decreases s.len(),
{
    if s.len() == 0 || word.len() == 0 {
        0
    } else if occurs_at(s, word, 0) {
        1 + occurrences(s.skip(word.len() as int), word)
    } else {
        occurrences(s.skip(1), word)
    }
}

/// Taking a word out shortens a text by the word's length for each time that it stands there.
pub proof fn law_taking_out_counts(s: Seq<char>, word: Seq<char>)
    ensures
        replaced(s, word, Seq::empty()).len() + occurrences(s, word) * word.len() == s.len(),
    decreases s.len(),
{
    if s.len() > 0 && word.len() > 0 {
        if occurs_at(s, word, 0) {
            let n = occurrences(s.skip(word.len() as int), word);
            law_taking_out_counts(s.skip(word.len() as int), word);
            assert((1 + n) * word.len() == word.len() + n * word.len()) by (nonlinear_arith);
        } else {
            law_taking_out_counts(s.skip(1), word);
        }
    } else {
        assert(occurrences(s, word) * word.len() == 0) by (nonlinear_arith)
            requires
                occurrences(s, word) == 0,
        ;
    }
}

/// What stands in a piece stands in the whole.
pub proof fn lemma_contains_sum(a: Seq<char>, b: Seq<char>, word: Seq<char>)
    ensures
        contains_text(a, word) ==> contains_text(a + b, word),
        contains_text(b, word) ==> contains_text(a + b, word),
{
    let s = a + b;
    let n = word.len() as int;
    law_find_from_is_first(s, word, 0);
    law_find_from_is_first(a, word, 0);
    law_find_from_is_first(b, word, 0);
    if let Some(k) = find_from(a, word, 0) {
        assert(s.subrange(k, k + n) =~= a.subrange(k, k + n));
        assert(occurs_at(s, word, k));
    }
    if let Some(k) = find_from(b, word, 0) {
        assert(s.subrange(a.len() + k, a.len() + k + n) =~= b.subrange(k, k + n));
        assert(occurs_at(s, word, a.len() + k));
    }
}

/// A text stands in itself.
pub proof fn lemma_contains_itself(s: Seq<char>)
    ensures
        contains_text(s, s),
{
    assert(s.subrange(0, s.len() as int) =~= s);
    assert(occurs_at(s, s, 0));
}

/// What stands in the content of an element stands in the element.
pub proof fn lemma_element_contains(name: Seq<char>, attributes: Seq<char>, content: Seq<char>, word: Seq<char>)
    requires
        contains_text(content, word),
    ensures
        contains_text(element_with(name, attributes, content), word),
{
    lemma_contains_sum(opening(name, attributes), content, word);
    lemma_contains_sum(opening(name, attributes) + content, closing(name), word);
    assert(element_with(name, attributes, content) =~= opening(name, attributes) + content + closing(name));
}

/// What stands in the content of a block stands in the block.
pub proof fn lemma_block_contains(name: Seq<char>, content: Seq<char>, word: Seq<char>)
    requires
        contains_text(content, word),
    ensures
        contains_text(block_text(name, content), word),
{
    lemma_contains_sum("\n"@, content, word);
    lemma_element_contains(name, Seq::empty(), "\n"@ + content, word);
    lemma_contains_sum(element_text(name, "\n"@ + content), "\n"@, word);
}

/// A text that lacks the separator is one piece.
pub proof fn lemma_one_piece(a: Seq<char>, c: char)
    requires
        lacks(a, c),
    ensures
        pieces(a, seq![c]) == seq![a],
{
    law_find_from_is_first(a, seq![c], 0);
    if let Some(k) = find_from(a, seq![c], 0) {
        assert(a.subrange(k, k + 1)[0] == c);
        assert(a[k] == c);
    }
}

/// The first piece ends at the first separator.
pub proof fn lemma_first_piece(a: Seq<char>, c: char, b: Seq<char>)
    requires
        lacks(a, c),
    ensures
        pieces(a + seq![c] + b, seq![c]) == seq![a] + pieces(b, seq![c]),
{
    let s = a + seq![c] + b;
    law_find_from_is_first(s, seq![c], 0);
    assert(s.subrange(a.len() as int, 0int + a.len() + 1) =~= seq![c]);
    assert(occurs_at(s, seq![c], a.len() as int));
    let k = find_from(s, seq![c], 0)->0;
    if k < a.len() {
        assert(s.subrange(k, k + 1)[0] == c);
        assert(s[k] == a[k]);
    }
    assert(s.take(k) =~= a);
    assert(s.skip(k + 1) =~= b);
}

/// A numeral lacks whatever is no digit, and reads back as its number.
pub proof fn lemma_numeral(n: nat, max: nat, c: char)
    requires
        n <= max,
        !is_digit(c),
    ensures
        lacks(decimal(n), c),
        unsigned_numeral(decimal(n), max) == Some(n),
{
    law_decimal_reads_back(n);
    assert forall|i: int| 0 <= i < decimal(n).len() implies #[trigger] decimal(n)[i] != c by {
        assert(is_digit(decimal(n)[i]));
    }
    assert(is_digit(decimal(n)[0]));
}

/// A text that neither begins nor ends with white space is trimmed.
pub proof fn lemma_trimmed_already(s: Seq<char>)
    requires
        s.len() > 0 ==> !white_space(s[0]) && !white_space(s.last()),
    ensures
        trimmed(s) == s,
{
}

} // verus!
