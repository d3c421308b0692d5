//! What holds of the grammar as a whole.
//!
//! Each law is a proof about the functions of [`crate::grammar`], and so
//! about what [`crate::html::try_parse`] and [`crate::html::parse`] return.

use crate::chars::{
    is_name_char, is_whitespace, lemma_run_len, lemma_run_len_concat, run_len, CharClass,
};
use crate::dom::Tree;
use crate::grammar::{
    at_closing_tag, attr_of, attributes_of, closing_tag_of, document_of, element_of,
    lemma_attr_of_consumes, lemma_attributes_of_rest, lemma_node_of_consumes, node_of, nodes_of,
    scan, skip_whitespace, ParseError, Parsed,
};
use vstd::prelude::*;

verus! {

/// Whether every character of `s` is whitespace.
pub open spec fn all_whitespace(s: Seq<char>) -> bool {
    forall|i: int| 0 <= i < s.len() ==> is_whitespace(#[trigger] s[i])
}

/// Whitespace before whitespace is skipped with it.
pub proof fn law_skip_whitespace_absorbs(ws: Seq<char>, s: Seq<char>)
    requires
        all_whitespace(ws),
    ensures
        skip_whitespace(ws + s) == skip_whitespace(s),
{
    lemma_run_len_concat(ws, s, CharClass::Whitespace);
    lemma_run_len(s, CharClass::Whitespace);
    assert(skip_whitespace(ws + s) =~= skip_whitespace(s));
}

/// Whitespace before a sequence of nodes is insignificant: the nodes and
/// the input left over are the same with it and without.
pub proof fn law_whitespace_before_nodes(ws: Seq<char>, s: Seq<char>)
    requires
        all_whitespace(ws),
    ensures
        nodes_of(ws + s) == nodes_of(s),
{
    law_skip_whitespace_absorbs(ws, s);
    let t = skip_whitespace(s);
    lemma_run_len(s, CharClass::Whitespace);
    lemma_node_of_consumes(t);
}

/// Whitespace before an attribute, or before the `>` that ends the list, is
/// insignificant.
pub proof fn law_whitespace_before_attributes(
    ws: Seq<char>,
    s: Seq<char>,
    acc: Map<Seq<char>, Seq<char>>,
)
    requires
        all_whitespace(ws),
    ensures
        attributes_of(ws + s, acc) == attributes_of(s, acc),
{
    law_skip_whitespace_absorbs(ws, s);
}

/// Whitespace before a document is insignificant.
pub proof fn law_whitespace_before_document(ws: Seq<char>, s: Seq<char>)
    requires
        all_whitespace(ws),
    ensures
        document_of(ws + s) == document_of(s),
{
    law_whitespace_before_nodes(ws, s);
}

/// An input that holds one element, with nothing but whitespace around it,
/// has that element as its root: no `html` element is put around it.
pub proof fn law_single_element_is_root(s: Seq<char>, root: Tree, rest: Seq<char>)
    requires
        element_of(skip_whitespace(s)) == Ok::<_, ParseError>((root, rest)),
        all_whitespace(rest),
    ensures
        document_of(s) == Ok::<_, ParseError>(root),
{
    let t = skip_whitespace(s);
    lemma_run_len(s, CharClass::Whitespace);
    assert(t.len() > 0 && t[0] == '<');
    assert(!at_closing_tag(t)) by {
        if at_closing_tag(t) {
            let after_open = t.drop_first();
            assert(after_open[0] == '/');
            assert(run_len(after_open, CharClass::Name) == 0);
            let after_tag = scan(after_open, CharClass::Name).1;
            assert(after_tag =~= after_open);
            assert(run_len(after_tag, CharClass::Whitespace) == 0);
            assert(skip_whitespace(after_tag) =~= after_tag);
            assert(run_len(after_tag, CharClass::Name) == 0);
            assert(scan(after_tag, CharClass::Name).1 =~= after_tag);
            assert(attr_of(after_tag) is Err);
        }
    }
    lemma_node_of_consumes(t);
    lemma_run_len_concat(rest, Seq::empty(), CharClass::Whitespace);
    assert(rest + Seq::<char>::empty() =~= rest);
    assert(skip_whitespace(rest).len() == 0);
    assert(nodes_of(rest) == Ok::<_, ParseError>((Seq::<Tree>::empty(), skip_whitespace(rest))));
    assert(node_of(t) == element_of(t));
    assert(seq![root] + Seq::<Tree>::empty() =~= seq![root]);
    assert(nodes_of(s) == Ok::<_, ParseError>((seq![root], skip_whitespace(rest))));
}

/// An input with no top-level node, or with more than one, has as its root
/// an element `html` without attributes, whose children are the top-level
/// nodes in their order.
pub proof fn law_other_than_one_node_is_wrapped(s: Seq<char>, nodes: Seq<Tree>, rest: Seq<char>)
    requires
        nodes_of(s) == Ok::<_, ParseError>((nodes, rest)),
        nodes.len() != 1,
    ensures
        document_of(s) == Ok::<_, ParseError>(
            Tree::Element {
                tag: seq!['h', 't', 'm', 'l'],
                attributes: Map::empty(),
                children: nodes,
            },
        ),
{
}

/// A scan takes exactly `a` from `a + b` where every character of `a`
/// belongs to the class and `b` does not begin with one that does.
pub proof fn law_scan_splits(a: Seq<char>, b: Seq<char>, class: CharClass)
    requires
        forall|i: int| 0 <= i < a.len() ==> class.has(#[trigger] a[i]),
        b.len() > 0 ==> !class.has(b[0]),
    ensures
        scan(a + b, class) == (a, b),
{
    lemma_run_len_concat(a, b, class);
    assert(run_len(b, class) == 0);
    assert((a + b).take(a.len() as int) =~= a);
    assert((a + b).skip(a.len() as int) =~= b);
}

/// Text as a text node holds it: not empty, not beginning with whitespace,
/// and without `<`.
pub open spec fn is_plain_text(t: Seq<char>) -> bool {
    &&& t.len() > 0
    &&& !is_whitespace(t[0])
    &&& forall|i: int| 0 <= i < t.len() ==> #[trigger] t[i] != '<'
}

/// Plain text, whatever characters it is made of, parses to one text node
/// that holds it unchanged.
pub proof fn law_plain_text_is_itself(t: Seq<char>)
    requires
        is_plain_text(t),
    ensures
        document_of(t) == Ok::<_, ParseError>(Tree::Text(t)),
{
    let end = Seq::<char>::empty();
    assert(t + end =~= t);
    assert(skip_whitespace(t) =~= t);
    law_scan_splits(t, end, CharClass::Except('<'));
    assert(node_of(t) == Ok::<_, ParseError>((Tree::Text(t), end)));
    assert(skip_whitespace(end) =~= end);
    assert(nodes_of(end) == Ok::<_, ParseError>((Seq::<Tree>::empty(), end)));
    assert(seq![Tree::Text(t)] + Seq::<Tree>::empty() =~= seq![Tree::Text(t)]);
    assert(nodes_of(t) == Ok::<_, ParseError>((seq![Tree::Text(t)], end)));
}

/// Whether every text node of `tree` holds plain text.
pub open spec fn texts_are_plain(tree: Tree) -> bool
    decreases tree,
{
    match tree {
        Tree::Text(data) => is_plain_text(data),
        Tree::Element { children, .. } => forall|i: int|
            0 <= i < children.len() ==> texts_are_plain(#[trigger] children[i]),
    }
}

/// Whether `tree` is, or holds at any depth, a text node with data `data`.
pub open spec fn has_text(tree: Tree, data: Seq<char>) -> bool
    decreases tree,
{
    match tree {
        Tree::Text(found) => found == data,
        Tree::Element { children, .. } => exists|i: int|
            0 <= i < children.len() && has_text(#[trigger] children[i], data),
    }
}

/// Every text node that a node holds is plain text.
pub proof fn lemma_node_texts_are_plain(s: Seq<char>)
    requires
        s.len() > 0 ==> !is_whitespace(s[0]),
    ensures
        match node_of(s) {
            Ok((node, _)) => texts_are_plain(node),
            Err(_) => true,
        },
    decreases s.len(), 1nat,
{
    if s.len() > 0 {
        if s[0] == '<' {
            lemma_element_texts_are_plain(s);
        } else {
            lemma_run_len(s, CharClass::Except('<'));
            assert(run_len(s, CharClass::Except('<')) >= 1);
        }
    }
}

/// Every text node that an element holds is plain text.
pub proof fn lemma_element_texts_are_plain(s: Seq<char>)
    ensures
        match element_of(s) {
            Ok((node, _)) => texts_are_plain(node),
            Err(_) => true,
        },
    decreases s.len(), 0nat,
{
    if s.len() > 0 && s[0] == '<' {
        let after_open = s.drop_first();
        let after_tag = scan(after_open, CharClass::Name).1;
        lemma_run_len(after_open, CharClass::Name);
        lemma_attributes_of_rest(after_tag, Map::empty());
        if let Ok((_, after_attrs)) = attributes_of(after_tag, Map::empty()) {
            lemma_nodes_texts_are_plain(after_attrs.drop_first());
        }
    }
}

/// Every text node that a sequence of nodes holds is plain text.
pub proof fn lemma_nodes_texts_are_plain(s: Seq<char>)
    ensures
        match nodes_of(s) {
            Ok((nodes, _)) => forall|i: int|
                0 <= i < nodes.len() ==> texts_are_plain(#[trigger] nodes[i]),
            Err(_) => true,
        },
    decreases s.len(), 2nat,
{
    let t = skip_whitespace(s);
    lemma_run_len(s, CharClass::Whitespace);
    if !(t.len() == 0 || at_closing_tag(t)) {
        lemma_node_of_consumes(t);
        lemma_node_texts_are_plain(t);
        if let Ok((first, rest)) = node_of(t) {
            lemma_nodes_texts_are_plain(rest);
            if let Ok((others, _)) = nodes_of(rest) {
                let nodes = seq![first] + others;
                assert forall|i: int| 0 <= i < nodes.len() implies texts_are_plain(
                    #[trigger] nodes[i],
                ) by {
                    if i > 0 {
                        assert(nodes[i] == others[i - 1]);
                    }
                }
            }
        }
    }
}

/// Every text node of a parsed document holds plain text: the parser makes
/// no empty text node, none that begins with whitespace and none with `<`.
pub proof fn law_parsed_texts_are_plain(s: Seq<char>, root: Tree)
    requires
        document_of(s) == Ok::<_, ParseError>(root),
    ensures
        texts_are_plain(root),
{
    lemma_nodes_texts_are_plain(s);
}

/// A text node of a tree whose texts are plain holds plain text.
pub proof fn lemma_text_of_plain_tree(tree: Tree, data: Seq<char>)
    requires
        texts_are_plain(tree),
        has_text(tree, data),
    ensures
        is_plain_text(data),
    decreases tree,
{
    match tree {
        Tree::Text(_) => {},
        Tree::Element { children, .. } => {
            let i = choose|i: int| 0 <= i < children.len() && has_text(#[trigger] children[i], data);
            lemma_text_of_plain_tree(children[i], data);
        },
    }
}

/// The data of any text node of a parsed document, parsed by itself, gives
/// a text node with the same data.
pub proof fn law_text_round_trip(s: Seq<char>, root: Tree, data: Seq<char>)
    requires
        document_of(s) == Ok::<_, ParseError>(root),
        has_text(root, data),
    ensures
        document_of(data) == Ok::<_, ParseError>(Tree::Text(data)),
{
    law_parsed_texts_are_plain(s, root);
    lemma_text_of_plain_tree(root, data);
    law_plain_text_is_itself(data);
}

/// `r` with the attributes that it recognised laid over `earlier`.
pub open spec fn over(
    earlier: Map<Seq<char>, Seq<char>>,
    r: Parsed<Map<Seq<char>, Seq<char>>>,
) -> Parsed<Map<Seq<char>, Seq<char>>> {
    match r {
        Err(e) => Err(e),
        Ok((later, rest)) => Ok((earlier.union_prefer_right(later), rest)),
    }
}

/// The last value of a name wins: the attributes written in `s` replace the
/// values that the same names had before, and leave the other names alone.
pub proof fn law_later_attributes_win(s: Seq<char>, earlier: Map<Seq<char>, Seq<char>>)
    ensures
        attributes_of(s, earlier) == over(earlier, attributes_of(s, Map::empty())),
    decreases s.len(),
{
    let none = Map::<Seq<char>, Seq<char>>::empty();
    let t = skip_whitespace(s);
    lemma_run_len(s, CharClass::Whitespace);
    if t.len() == 0 {
    } else if t[0] == '>' {
        assert(earlier.union_prefer_right(none) =~= earlier);
    } else {
        lemma_attr_of_consumes(t);
        if let Ok(((name, value), rest)) = attr_of(t) {
            law_later_attributes_win(rest, earlier.insert(name, value));
            law_later_attributes_win(rest, none.insert(name, value));
            if let Ok((later, _)) = attributes_of(rest, none) {
                assert(earlier.insert(name, value).union_prefer_right(later)
                    =~= earlier.union_prefer_right(
                    none.insert(name, value).union_prefer_right(later),
                ));
            }
        }
    }
}

/// Whether every character of `s` is an ASCII letter or digit.
pub open spec fn is_name(s: Seq<char>) -> bool {
    forall|i: int| 0 <= i < s.len() ==> is_name_char(#[trigger] s[i])
}

/// The closing tag of the element named `tag`.
pub open spec fn closing_tag(tag: Seq<char>) -> Seq<char> {
    seq!['<', '/'] + tag + seq!['>']
}

/// The text of an element without attributes whose content is plain text.
pub open spec fn element_around(tag: Seq<char>, content: Seq<char>) -> Seq<char> {
    seq!['<'] + tag + seq!['>'] + content + closing_tag(tag)
}

/// Plain text before a closing tag is one text node, and the closing tag
/// of `tag` is recognised as such.
proof fn lemma_text_then_closing_tag(tag: Seq<char>, content: Seq<char>)
    requires
        is_name(tag),
        is_plain_text(content),
    ensures
        nodes_of(content + closing_tag(tag)) == Ok::<_, ParseError>(
            (seq![Tree::Text(content)], closing_tag(tag)),
        ),
        closing_tag_of(closing_tag(tag), tag) == Ok::<_, ParseError>(Seq::<char>::empty()),
{
    let close = closing_tag(tag);
    let inner = content + close;
    let text = Tree::Text(content);
    assert(inner[0] == content[0]);
    assert(skip_whitespace(inner) =~= inner);
    law_scan_splits(content, close, CharClass::Except('<'));
    assert(node_of(inner) == Ok::<_, ParseError>((text, close)));
    assert(skip_whitespace(close) =~= close);
    assert(at_closing_tag(close));
    assert(nodes_of(close) == Ok::<_, ParseError>((Seq::<Tree>::empty(), close)));
    assert(seq![text] + Seq::<Tree>::empty() =~= seq![text]);

    assert(close.drop_first().drop_first() =~= tag + seq!['>']);
    law_scan_splits(tag, seq!['>'], CharClass::Name);
    assert(seq!['>'].drop_first() =~= Seq::<char>::empty());
}

/// An element written around plain text parses to that element with one
/// text child, which holds the text unchanged, character by character,
/// whatever characters it is made of.
pub proof fn law_element_around_text(tag: Seq<char>, content: Seq<char>)
    requires
        is_name(tag),
        is_plain_text(content),
    ensures
        document_of(element_around(tag, content)) == Ok::<_, ParseError>(
            Tree::Element {
                tag,
                attributes: Map::empty(),
                children: seq![Tree::Text(content)],
            },
        ),
{
    let s = element_around(tag, content);
    let inner = content + closing_tag(tag);
    let after_tag = seq!['>'] + inner;
    let root = Tree::Element {
        tag,
        attributes: Map::empty(),
        children: seq![Tree::Text(content)],
    };

    assert(s.drop_first() =~= tag + after_tag);
    law_scan_splits(tag, after_tag, CharClass::Name);
    assert(skip_whitespace(after_tag) =~= after_tag);
    assert(attributes_of(after_tag, Map::empty()) == Ok::<_, ParseError>(
        (Map::<Seq<char>, Seq<char>>::empty(), after_tag),
    ));
    assert(after_tag.drop_first() =~= inner);
    lemma_text_then_closing_tag(tag, content);
    assert(element_of(s) == Ok::<_, ParseError>((root, Seq::<char>::empty())));

    assert(skip_whitespace(s) =~= s);
    law_single_element_is_root(s, root, Seq::empty());
}

/// The text of an element with one attribute, written with double quotes,
/// with the whitespace `before` the attribute and the whitespace `after`
/// it, and with plain text as content.
pub open spec fn element_with_attribute(
    tag: Seq<char>,
    before: Seq<char>,
    name: Seq<char>,
    value: Seq<char>,
    after: Seq<char>,
    content: Seq<char>,
) -> Seq<char> {
    seq!['<'] + tag + before + name + seq!['=', '"'] + value + seq!['"'] + after + seq!['>']
        + content + closing_tag(tag)
}

/// How much whitespace stands before an attribute and before the `>` of an
/// opening tag makes no difference: the element, its attribute and its text
/// are the same for every choice of the two runs of whitespace.
pub proof fn law_whitespace_in_opening_tag(
    tag: Seq<char>,
    before: Seq<char>,
    name: Seq<char>,
    value: Seq<char>,
    after: Seq<char>,
    content: Seq<char>,
)
    requires
        is_name(tag),
        is_name(name),
        all_whitespace(before),
        before.len() > 0,
        all_whitespace(after),
        forall|i: int| 0 <= i < value.len() ==> #[trigger] value[i] != '"',
        is_plain_text(content),
    ensures
        document_of(element_with_attribute(tag, before, name, value, after, content)) == Ok::<
            _,
            ParseError,
        >(
            Tree::Element {
                tag,
                attributes: Map::empty().insert(name, value),
                children: seq![Tree::Text(content)],
            },
        ),
{
    let s = element_with_attribute(tag, before, name, value, after, content);
    let none = Map::<Seq<char>, Seq<char>>::empty();
    let attrs = none.insert(name, value);
    let inner = content + closing_tag(tag);
    let at_end = seq!['>'] + inner;
    let after_value = after + at_end;
    let at_quote = seq!['"'] + after_value;
    let at_value = value + at_quote;
    let at_eq = seq!['=', '"'] + at_value;
    let at_name = name + at_eq;
    let after_tag = before + at_name;
    let root = Tree::Element { tag, attributes: attrs, children: seq![Tree::Text(content)] };

    assert(s.drop_first() =~= tag + after_tag);
    assert(after_tag[0] == before[0]);
    law_scan_splits(tag, after_tag, CharClass::Name);

    // The attribute.
    law_skip_whitespace_absorbs(before, at_name);
    assert(at_name[0] == if name.len() > 0 { name[0] } else { '=' });
    assert(skip_whitespace(at_name) =~= at_name);
    law_scan_splits(name, at_eq, CharClass::Name);
    assert(at_eq.drop_first().drop_first() =~= at_value);
    law_scan_splits(value, at_quote, CharClass::Except('"'));
    assert(at_quote.drop_first() =~= after_value);
    assert(attr_of(at_name) == Ok::<_, ParseError>(((name, value), after_value)));

    // The end of the list.
    law_skip_whitespace_absorbs(after, at_end);
    assert(skip_whitespace(at_end) =~= at_end);
    assert(attributes_of(after_value, attrs) == Ok::<_, ParseError>((attrs, at_end)));
    assert(attributes_of(after_tag, none) == Ok::<_, ParseError>((attrs, at_end)));

    assert(at_end.drop_first() =~= inner);
    lemma_text_then_closing_tag(tag, content);
    assert(element_of(s) == Ok::<_, ParseError>((root, Seq::<char>::empty())));

    assert(skip_whitespace(s) =~= s);
    law_single_element_is_root(s, root, Seq::empty());
}

} // verus!
