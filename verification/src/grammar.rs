//! The grammar, as total functions on sequences of characters.
//!
//! Each function takes the input that is still unread and gives either what
//! it recognised together with the input left over, or the reason why the
//! input is malformed. The parser in [`crate::html`] is proved to compute
//! exactly these functions.

use crate::chars::{lemma_run_len, run_len, CharClass};
use crate::dom::Tree;
use vstd::prelude::*;

verus! {

/// Why an input is malformed.
#[derive(Clone, Copy, Debug, PartialEq, Eq, Structural)]
pub enum ParseError {
    /// The input ended where a character was required.
    UnexpectedEnd,
    /// A character other than the required `<`, `>`, `=`, `/` or quote.
    UnexpectedChar,
    /// The name in a closing tag differs from the name of the open element.
    TagMismatch,
    /// The input ended inside a quoted attribute value.
    UnterminatedValue,
}

/// What was recognised and the input left over, or the failure.
pub type Parsed<T> = Result<(T, Seq<char>), ParseError>;

/// The longest prefix of `s` made of characters of `class`, and the rest.
pub open spec fn scan(s: Seq<char>, class: CharClass) -> (Seq<char>, Seq<char>) {
    let n = run_len(s, class) as int;
    (s.take(n), s.skip(n))
}

/// `s` without its leading whitespace.
pub open spec fn skip_whitespace(s: Seq<char>) -> Seq<char> {
    scan(s, CharClass::Whitespace).1
}

/// `s` without its first character, which must be `c`.
pub open spec fn expect(s: Seq<char>, c: char) -> Result<Seq<char>, ParseError> {
    if s.len() == 0 {
        Err(ParseError::UnexpectedEnd)
    } else if s[0] != c {
        Err(ParseError::UnexpectedChar)
    } else {
        Ok(s.drop_first())
    }
}

/// Whether `s` begins with `</`, which ends a sequence of children.
pub open spec fn at_closing_tag(s: Seq<char>) -> bool {
    s.len() >= 2 && s[0] == '<' && s[1] == '/'
}

/// A quoted attribute value: a quote (`"` or `'`), the characters up to the
/// next occurrence of the same quote, and that quote.
pub open spec fn attr_value_of(s: Seq<char>) -> Parsed<Seq<char>> {
    if s.len() == 0 {
        Err(ParseError::UnexpectedEnd)
    } else if s[0] != '"' && s[0] != '\'' {
        Err(ParseError::UnexpectedChar)
    } else {
        let (value, rest) = scan(s.drop_first(), CharClass::Except(s[0]));
        if rest.len() == 0 {
            Err(ParseError::UnterminatedValue)
        } else {
            Ok((value, rest.drop_first()))
        }
    }
}

/// One attribute: a name, `=` and a quoted value.
pub open spec fn attr_of(s: Seq<char>) -> Parsed<(Seq<char>, Seq<char>)> {
    let (name, after_name) = scan(s, CharClass::Name);
    match expect(after_name, '=') {
        Err(e) => Err(e),
        Ok(after_eq) => match attr_value_of(after_eq) {
            Err(e) => Err(e),
            Ok((value, rest)) => Ok(((name, value), rest)),
        },
    }
}

/// An attribute consumes at least its `=` and its two quotes.
pub proof fn lemma_attr_of_consumes(s: Seq<char>)
    ensures
        match attr_of(s) {
            Ok((_, rest)) => rest.len() + 3 <= s.len(),
            Err(_) => true,
        },
{
    lemma_run_len(s, CharClass::Name);
    let after_name = scan(s, CharClass::Name).1;
    if let Ok(after_eq) = expect(after_name, '=') {
        if after_eq.len() > 0 {
            lemma_run_len(after_eq.drop_first(), CharClass::Except(after_eq[0]));
        }
    }
}

/// The attributes of an opening tag, added to `acc` in the order in which
/// they are written, so that a later value of a name replaces an earlier one.
/// The list ends before the first `>` that stands where a name could begin.
pub open spec fn attributes_of(s: Seq<char>, acc: Map<Seq<char>, Seq<char>>) -> Parsed<
    Map<Seq<char>, Seq<char>>,
>
    decreases s.len(),
{
    let t = skip_whitespace(s);
    if t.len() == 0 {
        Err(ParseError::UnexpectedEnd)
    } else if t[0] == '>' {
        Ok((acc, t))
    } else {
        match attr_of(t) {
            Err(e) => Err(e),
            Ok(((name, value), rest)) => {
                proof {
                    lemma_run_len(s, CharClass::Whitespace);
                    lemma_attr_of_consumes(t);
                }
                attributes_of(rest, acc.insert(name, value))
            },
        }
    }
}

/// A list of attributes ends at a `>` and is no longer than the input.
pub proof fn lemma_attributes_of_rest(s: Seq<char>, acc: Map<Seq<char>, Seq<char>>)
    ensures
        match attributes_of(s, acc) {
            Ok((_, rest)) => 0 < rest.len() <= s.len() && rest[0] == '>',
            Err(_) => true,
        },
    decreases s.len(),
{
    let t = skip_whitespace(s);
    lemma_run_len(s, CharClass::Whitespace);
    if t.len() > 0 && t[0] != '>' {
        if let Ok(((name, value), rest)) = attr_of(t) {
            lemma_attr_of_consumes(t);
            lemma_attributes_of_rest(rest, acc.insert(name, value));
        }
    }
}

/// A text run: the characters up to the next `<` or the end of the input.
pub open spec fn text_of(s: Seq<char>) -> (Tree, Seq<char>) {
    let (data, rest) = scan(s, CharClass::Except('<'));
    (Tree::Text(data), rest)
}

/// One node: an element where the input begins with `<`, else a text run.
pub open spec fn node_of(s: Seq<char>) -> Parsed<Tree>
    decreases s.len(), 1nat,
{
    if s.len() == 0 {
        Err(ParseError::UnexpectedEnd)
    } else if s[0] == '<' {
        element_of(s)
    } else {
        Ok(text_of(s))
    }
}

/// An element: `<`, a name, attributes, `>`, children, `</`, the same name
/// again and `>`.
pub open spec fn element_of(s: Seq<char>) -> Parsed<Tree>
    decreases s.len(), 0nat,
{
    match expect(s, '<') {
        Err(e) => Err(e),
        Ok(after_open) => {
            let (tag, after_tag) = scan(after_open, CharClass::Name);
            match attributes_of(after_tag, Map::empty()) {
                Err(e) => Err(e),
                Ok((attributes, after_attrs)) => match expect(after_attrs, '>') {
                    Err(e) => Err(e),
                    Ok(content) => {
                        proof {
                            lemma_run_len(after_open, CharClass::Name);
                            lemma_attributes_of_rest(after_tag, Map::empty());
                        }
                        match nodes_of(content) {
                            Err(e) => Err(e),
                            Ok((children, after_children)) => match closing_tag_of(
                                after_children,
                                tag,
                            ) {
                                Err(e) => Err(e),
                                Ok(rest) => Ok((Tree::Element { tag, attributes, children }, rest)),
                            },
                        }
                    },
                },
            }
        },
    }
}

/// The closing tag of the element named `tag`: `</`, `tag` and `>`.
pub open spec fn closing_tag_of(s: Seq<char>, tag: Seq<char>) -> Result<Seq<char>, ParseError> {
    match expect(s, '<') {
        Err(e) => Err(e),
        Ok(after_open) => match expect(after_open, '/') {
            Err(e) => Err(e),
            Ok(after_slash) => {
                let (name, after_name) = scan(after_slash, CharClass::Name);
                if name != tag {
                    Err(ParseError::TagMismatch)
                } else {
                    expect(after_name, '>')
                }
            },
        },
    }
}

/// `r` with `prefix` put before the nodes that it recognised.
pub open spec fn prepend(prefix: Seq<Tree>, r: Parsed<Seq<Tree>>) -> Parsed<Seq<Tree>> {
    match r {
        Err(e) => Err(e),
        Ok((nodes, rest)) => Ok((prefix + nodes, rest)),
    }
}

/// A sequence of nodes, each after optional whitespace, up to the end of the
/// input or to a `</`.
///
/// The comparison of lengths serves the termination argument only:
/// [`lemma_node_of_consumes`] shows that it never fails.
pub open spec fn nodes_of(s: Seq<char>) -> Parsed<Seq<Tree>>
    decreases s.len(), 2nat,
{
    let t = skip_whitespace(s);
    if t.len() == 0 || at_closing_tag(t) {
        Ok((Seq::empty(), t))
    } else {
        proof {
            lemma_run_len(s, CharClass::Whitespace);
        }
        match node_of(t) {
            Err(e) => Err(e),
            Ok((first, rest)) => if rest.len() < s.len() {
                prepend(seq![first], nodes_of(rest))
            } else {
                Err(ParseError::UnexpectedEnd)
            },
        }
    }
}

/// A node consumes at least one character, so the comparison of lengths in
/// [`nodes_of`] never fails.
pub proof fn lemma_node_of_consumes(s: Seq<char>)
    ensures
        match node_of(s) {
            Ok((_, rest)) => rest.len() < s.len(),
            Err(_) => true,
        },
    decreases s.len(), 1nat,
{
    if s.len() > 0 {
        if s[0] == '<' {
            lemma_element_of_consumes(s);
        } else {
            lemma_run_len(s, CharClass::Except('<'));
            assert(run_len(s, CharClass::Except('<')) >= 1);
        }
    }
}

/// An element consumes at least its opening `<`.
pub proof fn lemma_element_of_consumes(s: Seq<char>)
    ensures
        match element_of(s) {
            Ok((_, rest)) => rest.len() < s.len(),
            Err(_) => true,
        },
    decreases s.len(), 0nat,
{
    if let Ok(after_open) = expect(s, '<') {
        let after_tag = scan(after_open, CharClass::Name).1;
        lemma_run_len(after_open, CharClass::Name);
        lemma_attributes_of_rest(after_tag, Map::empty());
        if let Ok((_, after_attrs)) = attributes_of(after_tag, Map::empty()) {
            let content = after_attrs.drop_first();
            lemma_nodes_of_rest(content);
            if let Ok((_, after_children)) = nodes_of(content) {
                lemma_closing_tag_of_consumes(after_children, scan(after_open, CharClass::Name).0);
            }
        }
    }
}

/// A closing tag consumes at least `</>`.
pub proof fn lemma_closing_tag_of_consumes(s: Seq<char>, tag: Seq<char>)
    ensures
        match closing_tag_of(s, tag) {
            Ok(rest) => rest.len() + 3 <= s.len(),
            Err(_) => true,
        },
{
    if s.len() >= 2 {
        lemma_run_len(s.drop_first().drop_first(), CharClass::Name);
    }
}

/// What a sequence of nodes leaves over is no longer than the input.
pub proof fn lemma_nodes_of_rest(s: Seq<char>)
    ensures
        match nodes_of(s) {
            Ok((_, rest)) => rest.len() <= s.len(),
            Err(_) => true,
        },
    decreases s.len(), 2nat,
{
    let t = skip_whitespace(s);
    lemma_run_len(s, CharClass::Whitespace);
    if !(t.len() == 0 || at_closing_tag(t)) {
        lemma_node_of_consumes(t);
        if let Ok((_, rest)) = node_of(t) {
            lemma_nodes_of_rest(rest);
        }
    }
}

/// The root of a document: its only top-level node where there is exactly
/// one, else an element `html` without attributes that holds the top-level
/// nodes.
pub open spec fn root_of(nodes: Seq<Tree>) -> Tree {
    if nodes.len() == 1 {
        nodes[0]
    } else {
        Tree::Element { tag: seq!['h', 't', 'm', 'l'], attributes: Map::empty(), children: nodes }
    }
}

/// The tree that a whole input stands for.
pub open spec fn document_of(s: Seq<char>) -> Result<Tree, ParseError> {
    match nodes_of(s) {
        Err(e) => Err(e),
        Ok((nodes, _)) => Ok(root_of(nodes)),
    }
}

} // verus!
