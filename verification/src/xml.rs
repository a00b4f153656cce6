//! Escaping of text for XML, and the namespaces that several messages share.

use crate::text::chars_of;
use vstd::prelude::*;

verus! {

/// SOAP 1.2 envelope.
pub const NS_ENVELOPE: &'static str = "http://www.w3.org/2003/05/soap-envelope";

/// WS-Addressing.
pub const NS_ADDRESSING: &'static str = "http://schemas.xmlsoap.org/ws/2004/08/addressing";

/// What stands for a character in XML text.
pub open spec fn entity(c: char) -> Seq<char> {
    if c == '&' {
        "&amp;"@
    } else if c == '<' {
        "&lt;"@
    } else if c == '>' {
        "&gt;"@
    } else if c == '"' {
        "&quot;"@
    } else if c == '\'' {
        "&apos;"@
    } else {
        seq![c]
    }
}

/// A text, with what is markup in XML replaced.
pub open spec fn escaped(s: Seq<char>) -> Seq<char>
    decreases s.len(),
{
    if s.len() == 0 {
        Seq::empty()
    } else {
        escaped(s.drop_last()) + entity(s.last())
    }
}

/// Replaces the five characters that are markup in XML.
pub fn xml_escape(s: &str) -> (r: String)
    ensures
        r@ == escaped(s@),
{
    let chars = chars_of(s);
    let mut out = String::new();
    let mut i: usize = 0;
    assert(s@.take(0) =~= Seq::empty());
    while i < chars.len()
        invariant
            i <= chars@.len(),
            chars@ == s@,
            out@ == escaped(s@.take(i as int)),
        decreases chars@.len() - i,
    {
        let c = chars[i];
        proof {
            assert(s@.take(i + 1).drop_last() =~= s@.take(i as int));
            assert(s@.take(i + 1).last() == c);
        }
        if c == '&' {
            out.append("&amp;");
        } else if c == '<' {
            out.append("&lt;");
        } else if c == '>' {
            out.append("&gt;");
        } else if c == '"' {
            out.append("&quot;");
        } else if c == '\'' {
            out.append("&apos;");
        } else {
            let ghost prior = out@;
            out.push(c);
            assert(out@ =~= prior + seq![c]);
        }
        i += 1;
    }
    assert(s@.take(s@.len() as int) =~= s@);
    out
}

/// An element around a content, with its attributes.
pub open spec fn element_with(name: Seq<char>, attributes: Seq<char>, content: Seq<char>) -> Seq<char> {
    "<"@ + name + attributes + ">"@ + content + "</"@ + name + ">"@
}

/// An element around a content.
pub open spec fn element_text(name: Seq<char>, content: Seq<char>) -> Seq<char> {
    element_with(name, Seq::empty(), content)
}

/// An element on a line of its own.
pub open spec fn element_line(name: Seq<char>, content: Seq<char>) -> Seq<char> {
    element_text(name, content) + "\n"@
}

/// An element whose content stands on lines of its own.
pub open spec fn block_text(name: Seq<char>, content: Seq<char>) -> Seq<char> {
    element_text(name, "\n"@ + content) + "\n"@
}

/// The declaration of a namespace.
pub open spec fn namespace_text(prefix: Seq<char>, uri: Seq<char>) -> Seq<char> {
    " xmlns:"@ + prefix + "=\""@ + uri + "\""@
}

/// Writes an element with its attributes.
pub fn push_element_with(out: &mut String, name: &str, attributes: &str, content: &str)
    ensures
        final(out)@ == old(out)@ + element_with(name@, attributes@, content@),
{
    out.append("<");
    out.append(name);
    out.append(attributes);
    out.append(">");
    out.append(content);
    out.append("</");
    out.append(name);
    out.append(">");
    assert(out@ =~= old(out)@ + element_with(name@, attributes@, content@));
}

/// Writes an element.
pub fn push_element(out: &mut String, name: &str, content: &str)
    ensures
        final(out)@ == old(out)@ + element_text(name@, content@),
{
    let none = String::new();
    push_element_with(out, name, none.as_str(), content);
    assert(none@ =~= Seq::empty());
}

/// Writes an element on a line of its own.
pub fn push_line(out: &mut String, name: &str, content: &str)
    ensures
        final(out)@ == old(out)@ + element_line(name@, content@),
{
    push_element(out, name, content);
    out.append("\n");
    assert(out@ =~= old(out)@ + element_line(name@, content@));
}

/// An element whose content stands on lines of its own.
pub fn block(name: &str, content: &str) -> (r: String)
    ensures
        r@ == block_text(name@, content@),
{
    let mut inner = "\n".to_owned();
    inner.append(content);
    let mut out = String::new();
    push_line(&mut out, name, inner.as_str());
    assert(out@ =~= block_text(name@, content@));
    out
}

/// Writes the declaration of a namespace.
pub fn push_namespace(out: &mut String, prefix: &str, uri: &str)
    ensures
        final(out)@ == old(out)@ + namespace_text(prefix@, uri@),
{
    out.append(" xmlns:");
    out.append(prefix);
    out.append("=\"");
    out.append(uri);
    out.append("\"");
    assert(out@ =~= old(out)@ + namespace_text(prefix@, uri@));
}

/// Whether a character opens or closes an element or an attribute's value.
pub open spec fn is_markup(c: char) -> bool {
    c == '<' || c == '>' || c == '"' || c == '\''
}

/// Reads the character that an XML text starts with, and gives how long it is written.
pub open spec fn first_char(t: Seq<char>) -> (char, int) {
    if "&amp;"@.is_prefix_of(t) {
        ('&', 5)
    } else if "&lt;"@.is_prefix_of(t) {
        ('<', 4)
    } else if "&gt;"@.is_prefix_of(t) {
        ('>', 4)
    } else if "&quot;"@.is_prefix_of(t) {
        ('"', 6)
    } else if "&apos;"@.is_prefix_of(t) {
        ('\'', 6)
    } else {
        (t[0], 1)
    }
}

/// The text that an XML text stands for.
pub open spec fn unescaped(t: Seq<char>) -> Seq<char>
    decreases t.len(),
{
    if t.len() == 0 {
        Seq::empty()
    } else {
        let (c, len) = first_char(t);
        if len > t.len() {
            Seq::empty()
        } else {
            seq![c] + unescaped(t.skip(len))
        }
    }
}

/// Escaping goes character by character from the front, too.
proof fn lemma_escaped_from_front(s: Seq<char>)
    requires
        s.len() > 0,
    ensures
        escaped(s) == entity(s[0]) + escaped(s.skip(1)),
    decreases s.len(),
{
    if s.len() == 1 {
        assert(s.drop_last() =~= Seq::empty());
        assert(s.skip(1) =~= Seq::empty());
        assert(escaped(s) =~= entity(s[0]) + escaped(s.skip(1)));
    } else {
        lemma_escaped_from_front(s.drop_last());
        assert(s.skip(1).drop_last() =~= s.drop_last().skip(1));
        assert(escaped(s) =~= entity(s[0]) + escaped(s.skip(1)));
    }
}

/// The text of each entity.
proof fn lemma_entities()
    ensures
        "&amp;"@ == seq!['&', 'a', 'm', 'p', ';'],
        "&lt;"@ == seq!['&', 'l', 't', ';'],
        "&gt;"@ == seq!['&', 'g', 't', ';'],
        "&quot;"@ == seq!['&', 'q', 'u', 'o', 't', ';'],
        "&apos;"@ == seq!['&', 'a', 'p', 'o', 's', ';'],
{
    reveal_strlit("&amp;");
    reveal_strlit("&lt;");
    reveal_strlit("&gt;");
    reveal_strlit("&quot;");
    reveal_strlit("&apos;");
    assert("&amp;"@ =~= seq!['&', 'a', 'm', 'p', ';']);
    assert("&lt;"@ =~= seq!['&', 'l', 't', ';']);
    assert("&gt;"@ =~= seq!['&', 'g', 't', ';']);
    assert("&quot;"@ =~= seq!['&', 'q', 'u', 'o', 't', ';']);
    assert("&apos;"@ =~= seq!['&', 'a', 'p', 'o', 's', ';']);
}

/// Escaped text holds no markup, whatever the text was.
pub proof fn law_escaped_text_holds_no_markup(s: Seq<char>)
    ensures
        forall|i: int| 0 <= i < escaped(s).len() ==> !is_markup(#[trigger] escaped(s)[i]),
    decreases s.len(),
{
    if s.len() > 0 {
        law_escaped_text_holds_no_markup(s.drop_last());
        lemma_entities();
        let front = escaped(s.drop_last());
        assert forall|i: int| 0 <= i < escaped(s).len() implies !is_markup(#[trigger] escaped(s)[i]) by {
            if i < front.len() {
                assert(escaped(s)[i] == front[i]);
            } else {
                assert(escaped(s)[i] == entity(s.last())[i - front.len()]);
            }
        }
    }
}

/// A text does not start with what differs from it somewhere.
proof fn lemma_not_a_prefix(p: Seq<char>, t: Seq<char>, i: int)
    requires
        0 <= i < p.len(),
        i < t.len() ==> t[i] != p[i],
    ensures
        !p.is_prefix_of(t),
{
    if p.is_prefix_of(t) {
        assert(t.subrange(0, p.len() as int)[i] == t[i]);
    }
}

/// A character is read back from what stands for it, whatever follows.
#[verifier::spinoff_prover]
proof fn lemma_first_char(c: char, rest: Seq<char>)
    ensures
        first_char(entity(c) + rest) == (c, entity(c).len() as int),
        entity(c).len() > 0,
{
    lemma_entities();
    let t = entity(c) + rest;
    assert(entity(c).is_prefix_of(t)) by {
        assert(t.subrange(0, entity(c).len() as int) =~= entity(c));
    }
    assert(t[0] == entity(c)[0]);
    if c == '&' {
    } else if c == '<' {
        assert(t[1] == 'l');
        lemma_not_a_prefix("&amp;"@, t, 1);
    } else if c == '>' {
        assert(t[1] == 'g');
        lemma_not_a_prefix("&amp;"@, t, 1);
        lemma_not_a_prefix("&lt;"@, t, 1);
    } else if c == '"' {
        assert(t[1] == 'q');
        lemma_not_a_prefix("&amp;"@, t, 1);
        lemma_not_a_prefix("&lt;"@, t, 1);
        lemma_not_a_prefix("&gt;"@, t, 1);
    } else if c == '\'' {
        assert(t[1] == 'a');
        assert(t[2] == 'p');
        lemma_not_a_prefix("&amp;"@, t, 2);
        lemma_not_a_prefix("&lt;"@, t, 1);
        lemma_not_a_prefix("&gt;"@, t, 1);
        lemma_not_a_prefix("&quot;"@, t, 1);
    } else {
        lemma_not_a_prefix("&amp;"@, t, 0);
        lemma_not_a_prefix("&lt;"@, t, 0);
        lemma_not_a_prefix("&gt;"@, t, 0);
        lemma_not_a_prefix("&quot;"@, t, 0);
        lemma_not_a_prefix("&apos;"@, t, 0);
    }
}

/// What is read back of escaped text is the text.
pub proof fn law_reading_undoes_escaping(s: Seq<char>)
    ensures
        unescaped(escaped(s)) == s,
    decreases s.len(),
{
    if s.len() > 0 {
        let rest = escaped(s.skip(1));
        let t = escaped(s);
        lemma_escaped_from_front(s);
        lemma_first_char(s[0], rest);
        law_reading_undoes_escaping(s.skip(1));
        assert(t.skip(entity(s[0]).len() as int) =~= rest);
        assert(seq![s[0]] + s.skip(1) =~= s);
    }
}

} // verus!
