//! The parser: a cursor over the characters of the input and one routine
//! for each rule of the grammar.

use crate::chars::{lemma_run_len, run_len, CharClass};
use crate::dom::{element, text, trees, AttrMap, Node, Tree};
use crate::grammar::{
    at_closing_tag, attr_of, attr_value_of, attributes_of, closing_tag_of, document_of,
    element_of, expect, lemma_attr_of_consumes, lemma_node_of_consumes, node_of, nodes_of,
    prepend, scan, skip_whitespace, text_of, ParseError,
};
use vstd::prelude::*;
use vstd::std_specs::iter::IteratorSpec;
use vstd::string::StrSliceExecFns;

verus! {

/// Assumed of std's `String::push`, and not proved here: the call appends
/// `c` to the end of the string and leaves the characters before it as they
/// were.
pub assume_specification[ String::push ](s: &mut String, c: char)
    ensures
        final(s)@ == old(s)@.push(c),
;

/// A cursor over an input. It only moves forward.
pub struct Parser {
    pos: usize,
    input: Vec<char>,
}

impl Parser {
    /// The whole input.
    pub closed spec fn source(&self) -> Seq<char> {
        self.input@
    }

    /// The number of characters already read.
    pub closed spec fn position(&self) -> nat {
        self.pos as nat
    }

    /// The cursor stands inside the input or at its end.
    pub open spec fn wf(&self) -> bool {
        self.position() <= self.source().len()
    }

    /// The input that is still unread.
    pub open spec fn remaining(&self) -> Seq<char> {
        self.source().skip(self.position() as int)
    }

    /// A cursor at the start of `source`.
    pub fn new(source: &str) -> (p: Parser)
        ensures
            p.wf(),
            p.source() == source@,
            p.position() == 0,
    {
        broadcast use vstd::string::group_string_axioms;

        let mut input: Vec<char> = Vec::new();
        let mut rest = source.chars();
        loop
            invariant
                input@ + rest.remaining() == source@,
                rest.decrease() is Some,
            ensures
                input@ == source@,
            decreases rest.decrease()->0,
        {
            let ghost read = input@;
            let ghost unread = rest.remaining();
            match rest.next() {
                Some(c) => {
                    input.push(c);
                    assert(input@ + rest.remaining() =~= read + unread);
                },
                None => {
                    assert(input@ =~= source@);
                    break ;
                },
            }
        }
        Parser { pos: 0, input }
    }

    /// The number of characters already read.
    pub fn offset(&self) -> (n: usize)
        ensures
            n == self.position(),
    {
        self.pos
    }

    /// The cursor has the same input as `before` and stands no further back.
    pub open spec fn follows(&self, before: &Parser) -> bool {
        &&& self.wf()
        &&& self.source() == before.source()
        &&& self.position() >= before.position()
    }

    /// The cursor has moved on from `before` and has exactly `rest` unread.
    pub open spec fn moved_to(&self, before: &Parser, rest: Seq<char>) -> bool {
        self.follows(before) && self.remaining() == rest
    }

    /// Whether all of the input has been read.
    pub fn eof(&self) -> (r: bool)
        requires
            self.wf(),
        ensures
            r == (self.remaining().len() == 0),
    {
        self.pos >= self.input.len()
    }

    /// The character under the cursor. Nothing is consumed.
    pub fn next_char(&self) -> (r: Result<char, ParseError>)
        requires
            self.wf(),
        ensures
            r == first_of(self.remaining()),
    {
        if self.pos < self.input.len() {
            Ok(self.input[self.pos])
        } else {
            Err(ParseError::UnexpectedEnd)
        }
    }

    /// Whether the unread input begins with `prefix`.
    pub fn starts_with(&self, prefix: &str) -> (r: bool)
        requires
            self.wf(),
        ensures
            r == prefix@.is_prefix_of(self.remaining()),
    {
        let n: usize = prefix.unicode_len();
        if n > self.input.len() - self.pos {
            return false;
        }
        let mut i: usize = 0;
        while i < n
            invariant
                self.wf(),
                n <= self.input.len() - self.pos,
                i <= n == prefix@.len() <= self.remaining().len(),
                forall|k: int| 0 <= k < i ==> prefix@[k] == self.remaining()[k],
            decreases n - i,
        {
            if prefix.get_char(i) != self.input[self.pos + i] {
                assert(prefix@[i as int] != self.remaining()[i as int]);
                return false;
            }
            i += 1;
        }
        assert(prefix@ =~= self.remaining().subrange(0, prefix@.len() as int));
        true
    }

    /// Reads one character and moves the cursor past it.
    pub fn consume_char(&mut self) -> (r: Result<char, ParseError>)
        requires
            old(self).wf(),
        ensures
            r == first_of(old(self).remaining()),
            r is Ok ==> final(self).moved_to(old(self), old(self).remaining().drop_first()),
            r is Err ==> *final(self) == *old(self),
    {
        if self.pos < self.input.len() {
            let c = self.input[self.pos];
            self.pos += 1;
            assert(self.remaining() =~= old(self).remaining().drop_first());
            Ok(c)
        } else {
            Err(ParseError::UnexpectedEnd)
        }
    }

    /// Reads one character, which must be `c`.
    pub fn consume_expected(&mut self, c: char) -> (r: Result<(), ParseError>)
        requires
            old(self).wf(),
        ensures
            final(self).follows(old(self)),
            match r {
                Ok(()) => expect(old(self).remaining(), c) == Ok::<_, ParseError>(
                    final(self).remaining(),
                ),
                Err(e) => expect(old(self).remaining(), c) == Err::<Seq<char>, _>(e),
            },
    {
        match self.consume_char() {
            Err(e) => Err(e),
            Ok(found) => if found == c {
                Ok(())
            } else {
                Err(ParseError::UnexpectedChar)
            },
        }
    }

    /// Reads the longest run of characters of `class` and returns it.
    pub fn consume_while(&mut self, class: CharClass) -> (run: String)
        requires
            old(self).wf(),
        ensures
            final(self).follows(old(self)),
            (run@, final(self).remaining()) == scan(old(self).remaining(), class),
    {
        let mut run = String::new();
        let ghost start = self.remaining();
        loop
            invariant
                self.follows(old(self)),
                start == old(self).remaining(),
                run@.len() <= start.len(),
                run@ == start.take(run@.len() as int),
                self.remaining() == start.skip(run@.len() as int),
                run_len(start, class) == run@.len() + run_len(self.remaining(), class),
            ensures
                self.follows(old(self)),
                (run@, self.remaining()) == scan(start, class),
            decreases self.remaining().len(),
        {
            if self.pos >= self.input.len() {
                break ;
            }
            let c = self.input[self.pos];
            if !class.contains(c) {
                break ;
            }
            let ghost unread = self.remaining();
            let ghost taken = run@;
            self.pos += 1;
            run.push(c);
            proof {
                assert(unread[0] == c);
                assert(self.remaining() =~= unread.drop_first());
                assert(run@ =~= start.take(run@.len() as int));
                assert(self.remaining() =~= start.skip(run@.len() as int));
            }
        }
        run
    }

    /// Skips leading whitespace.
    pub fn consume_whitespace(&mut self)
        requires
            old(self).wf(),
        ensures
            final(self).moved_to(old(self), skip_whitespace(old(self).remaining())),
    {
        let _ = self.consume_while(CharClass::Whitespace);
    }

    /// Reads a tag or attribute name: the longest run of ASCII letters and
    /// digits, which may be empty.
    pub fn parse_tag_name(&mut self) -> (name: String)
        requires
            old(self).wf(),
        ensures
            final(self).follows(old(self)),
            (name@, final(self).remaining()) == scan(old(self).remaining(), CharClass::Name),
    {
        self.consume_while(CharClass::Name)
    }

    /// Reads a text run: everything up to the next `<` or the end.
    pub fn parse_text(&mut self) -> (node: Node)
        requires
            old(self).wf(),
        ensures
            final(self).follows(old(self)),
            (node@, final(self).remaining()) == text_of(old(self).remaining()),
    {
        text(self.consume_while(CharClass::Except('<')))
    }

    /// Reads a quoted attribute value and returns what stands between the
    /// quotes.
    pub fn parse_attr_value(&mut self) -> (r: Result<String, ParseError>)
        requires
            old(self).wf(),
        ensures
            final(self).follows(old(self)),
            match r {
                Ok(value) => attr_value_of(old(self).remaining()) == Ok::<_, ParseError>(
                    (value@, final(self).remaining()),
                ),
                Err(e) => attr_value_of(old(self).remaining()) == Err::<
                    (Seq<char>, Seq<char>),
                    _,
                >(e),
            },
    {
        let open_quote = match self.consume_char() {
            Ok(c) => c,
            Err(e) => {
                return Err(e);
            },
        };
        if open_quote != '"' && open_quote != '\'' {
            return Err(ParseError::UnexpectedChar);
        }
        let value = self.consume_while(CharClass::Except(open_quote));
        match self.consume_char() {
            Ok(_) => Ok(value),
            Err(_) => Err(ParseError::UnterminatedValue),
        }
    }

    /// Reads one attribute, `name="value"` or `name='value'`.
    pub fn parse_attr(&mut self) -> (r: Result<(String, String), ParseError>)
        requires
            old(self).wf(),
        ensures
            final(self).follows(old(self)),
            match r {
                Ok((name, value)) => attr_of(old(self).remaining()) == Ok::<_, ParseError>(
                    ((name@, value@), final(self).remaining()),
                ),
                Err(e) => attr_of(old(self).remaining()) == Err::<
                    ((Seq<char>, Seq<char>), Seq<char>),
                    _,
                >(e),
            },
    {
        let name = self.parse_tag_name();
        match self.consume_expected('=') {
            Err(e) => Err(e),
            Ok(()) => match self.parse_attr_value() {
                Err(e) => Err(e),
                Ok(value) => Ok((name, value)),
            },
        }
    }

    /// Reads the attributes of an opening tag, up to its `>`, which is left
    /// unread. A name that occurs twice keeps its last value.
    pub fn parse_attributes(&mut self) -> (r: Result<AttrMap, ParseError>)
        requires
            old(self).wf(),
        ensures
            final(self).follows(old(self)),
            match r {
                Ok(attrs) => attributes_of(old(self).remaining(), Map::empty()) == Ok::<
                    _,
                    ParseError,
                >((attrs@, final(self).remaining())),
                Err(e) => attributes_of(old(self).remaining(), Map::empty()) == Err::<
                    (Map<Seq<char>, Seq<char>>, Seq<char>),
                    _,
                >(e),
            },
    {
        let mut attributes = AttrMap::new();
        loop
            invariant
                self.follows(old(self)),
                attributes_of(old(self).remaining(), Map::empty()) == attributes_of(
                    self.remaining(),
                    attributes@,
                ),
            decreases self.remaining().len(),
        {
            let ghost unread = self.remaining();
            self.consume_whitespace();
            match self.next_char() {
                Err(e) => {
                    return Err(e);
                },
                Ok(c) => {
                    if c == '>' {
                        return Ok(attributes);
                    }
                },
            }
            proof {
                lemma_run_len(unread, CharClass::Whitespace);
                lemma_attr_of_consumes(self.remaining());
            }
            match self.parse_attr() {
                Err(e) => {
                    return Err(e);
                },
                Ok((name, value)) => {
                    attributes.insert(name, value);
                },
            }
        }
    }

    /// Reads the closing tag of the element named `tag`.
    pub fn parse_closing_tag(&mut self, tag: &String) -> (r: Result<(), ParseError>)
        requires
            old(self).wf(),
        ensures
            final(self).follows(old(self)),
            match r {
                Ok(()) => closing_tag_of(old(self).remaining(), tag@) == Ok::<_, ParseError>(
                    final(self).remaining(),
                ),
                Err(e) => closing_tag_of(old(self).remaining(), tag@) == Err::<Seq<char>, _>(e),
            },
    {
        match self.consume_expected('<') {
            Err(e) => {
                return Err(e);
            },
            Ok(()) => {},
        }
        match self.consume_expected('/') {
            Err(e) => {
                return Err(e);
            },
            Ok(()) => {},
        }
        let name = self.parse_tag_name();
        if !(name == *tag) {
            return Err(ParseError::TagMismatch);
        }
        self.consume_expected('>')
    }

    /// Reads one node: an element where the cursor stands on `<`, else a
    /// text run.
    pub fn parse_node(&mut self) -> (r: Result<Node, ParseError>)
        requires
            old(self).wf(),
        ensures
            final(self).follows(old(self)),
            match r {
                Ok(node) => node_of(old(self).remaining()) == Ok::<_, ParseError>(
                    (node@, final(self).remaining()),
                ),
                Err(e) => node_of(old(self).remaining()) == Err::<(Tree, Seq<char>), _>(e),
            },
        decreases old(self).remaining().len(), 1nat,
    {
        match self.next_char() {
            Err(e) => Err(e),
            Ok(c) => if c == '<' {
                self.parse_element()
            } else {
                Ok(self.parse_text())
            },
        }
    }

    /// Reads one element, from its `<` to the `>` of its closing tag.
    pub fn parse_element(&mut self) -> (r: Result<Node, ParseError>)
        requires
            old(self).wf(),
        ensures
            final(self).follows(old(self)),
            match r {
                Ok(node) => element_of(old(self).remaining()) == Ok::<_, ParseError>(
                    (node@, final(self).remaining()),
                ),
                Err(e) => element_of(old(self).remaining()) == Err::<(Tree, Seq<char>), _>(e),
            },
        decreases old(self).remaining().len(), 0nat,
    {
        match self.consume_expected('<') {
            Err(e) => {
                return Err(e);
            },
            Ok(()) => {},
        }
        let tag_name = self.parse_tag_name();
        let attrs = match self.parse_attributes() {
            Err(e) => {
                return Err(e);
            },
            Ok(attrs) => attrs,
        };
        match self.consume_expected('>') {
            Err(e) => {
                return Err(e);
            },
            Ok(()) => {},
        }
        let children = match self.parse_nodes() {
            Err(e) => {
                return Err(e);
            },
            Ok(children) => children,
        };
        match self.parse_closing_tag(&tag_name) {
            Err(e) => {
                return Err(e);
            },
            Ok(()) => {},
        }
        Ok(element(tag_name, attrs, children))
    }

    /// Reads nodes, skipping the whitespace before each, up to the end of
    /// the input or to a `</`, which is left unread.
    pub fn parse_nodes(&mut self) -> (r: Result<Vec<Node>, ParseError>)
        requires
            old(self).wf(),
        ensures
            final(self).follows(old(self)),
            match r {
                Ok(nodes) => nodes_of(old(self).remaining()) == Ok::<_, ParseError>(
                    (trees(nodes@), final(self).remaining()),
                ),
                Err(e) => nodes_of(old(self).remaining()) == Err::<(Seq<Tree>, Seq<char>), _>(e),
            },
        decreases old(self).remaining().len(), 2nat,
    {
        let mut nodes: Vec<Node> = Vec::new();
        loop
            invariant
                self.follows(old(self)),
                nodes_of(old(self).remaining()) == prepend(
                    trees(nodes@),
                    nodes_of(self.remaining()),
                ),
            decreases self.remaining().len(),
        {
            let ghost unread = self.remaining();
            let ghost done = trees(nodes@);
            self.consume_whitespace();
            proof {
                lemma_run_len(unread, CharClass::Whitespace);
                reveal_strlit("</");
            }
            let at_end = self.eof() || self.starts_with("</");
            assert(at_end == (self.remaining().len() == 0 || at_closing_tag(self.remaining())))
                by {
                let mark = "</"@;
                let t = self.remaining();
                assert(mark.len() == 2 && mark[0] == '<' && mark[1] == '/');
                if at_closing_tag(t) {
                    assert(mark =~= t.subrange(0, 2));
                }
                if mark.is_prefix_of(t) {
                    assert(t.subrange(0, 2)[0] == t[0] && t.subrange(0, 2)[1] == t[1]);
                }
            }
            if at_end {
                assert(done + Seq::<Tree>::empty() =~= done);
                return Ok(nodes);
            }
            match self.parse_node() {
                Err(e) => {
                    return Err(e);
                },
                Ok(node) => {
                    proof {
                        lemma_node_of_consumes(skip_whitespace(unread));
                        assert(self.remaining().len() < unread.len());
                        let others = nodes_of(self.remaining());
                        assert(trees(nodes@.push(node)) =~= done + seq![node@]);
                        if let Ok((ns, end)) = others {
                            assert(done + (seq![node@] + ns) =~= (done + seq![node@]) + ns);
                        }
                    }
                    nodes.push(node);
                },
            }
        }
    }
}

/// The value of a parse: the tree of the node, or the failure.
pub open spec fn outcome(r: Result<Node, ParseError>) -> Result<Tree, ParseError> {
    match r {
        Ok(node) => Ok(node@),
        Err(e) => Err(e),
    }
}

/// Parses a whole input. Gives its root node, or the reason why the input
/// is malformed; nothing of a malformed input is returned.
pub fn try_parse(source: &str) -> (r: Result<Node, ParseError>)
    ensures
        outcome(r) == document_of(source@),
{
    let mut parser = Parser::new(source);
    assert(parser.remaining() =~= source@);
    let mut nodes = match parser.parse_nodes() {
        Err(e) => {
            return Err(e);
        },
        Ok(nodes) => nodes,
    };
    if nodes.len() == 1 {
        Ok(nodes.swap_remove(0))
    } else {
        proof {
            reveal_strlit("html");
            assert("html"@ =~= seq!['h', 't', 'm', 'l']);
        }
        Ok(element("html".to_string(), AttrMap::new(), nodes))
    }
}

/// Parses a whole input that is well formed and gives its root node.
pub fn parse(source: String) -> (node: Node)
    requires
        document_of(source@) is Ok,
    ensures
        document_of(source@) == Ok::<_, ParseError>(node@),
{
    match try_parse(source.as_str()) {
        Ok(node) => node,
        Err(_) => vstd::pervasive::unreached(),
    }
}

/// The first character of `s`, which must not be empty.
pub open spec fn first_of(s: Seq<char>) -> Result<char, ParseError> {
    if s.len() == 0 {
        Err(ParseError::UnexpectedEnd)
    } else {
        Ok(s[0])
    }
}

} // verus!
