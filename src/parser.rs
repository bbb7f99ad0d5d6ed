//! The tree builder: nests the tokens of a document into one tree.
use vstd::prelude::*;
use crate::lexer::{
    Error,
    ErrorV,
    Kind,
    Lexeme,
    Lexer,
    Token,
    TokenV,
    scan_all,
    scanned_tokens,
    token_views,
};

verus! {

/// A node: its token and, for an opening tag, its children in order.
#[derive(Debug, PartialEq)]
pub struct Node {
    pub base: Token,
    pub children: Vec<Node>,
}

/// A node as the contracts see it.
pub struct NodeV {
    pub tok: TokenV,
    pub children: Seq<NodeV>,
}

pub open spec fn node_view(n: Node) -> NodeV
    decreases n,
{
    NodeV {
        tok: n.base@,
        children: Seq::new(
            n.children@.len(),
            |k: int|
                if 0 <= k < n.children@.len() {
                    proof {
                        assert(decreases_to!(n => n.children));
                        assert(decreases_to!(n.children => n.children@));
                        assert(decreases_to!(n.children@ => n.children@[k]));
                    }
                    node_view(n.children@[k])
                } else {
                    NodeV { tok: n.base@, children: Seq::empty() }
                },
        ),
    }
}

impl View for Node {
    type V = NodeV;

    open spec fn view(&self) -> NodeV {
        node_view(*self)
    }
}

/// The tree that starts at token `i`, and the index just after it. An
/// opening tag takes every following node as a child up to the next
/// closing tag, whatever its name; that closing tag is consumed and kept
/// in no node. Any other tag or text is a leaf.
pub open spec fn build(ts: Seq<TokenV>, i: int) -> Result<(NodeV, int), ErrorV>
    decreases ts.len() - i, 0int,
{
    if i < 0 || i >= ts.len() {
        Err(ErrorV::End)
    } else {
        match ts[i].kind {
            Lexeme::Open(_) => match build_children(ts, i + 1, ts[i].at) {
                Ok((cs, k)) => Ok((NodeV { tok: ts[i], children: cs }, k)),
                Err(x) => Err(x),
            },
            Lexeme::Close(_) => Ok((NodeV { tok: ts[i], children: Seq::empty() }, i + 1)),
            Lexeme::SelfClose(_) => Ok((NodeV { tok: ts[i], children: Seq::empty() }, i + 1)),
            Lexeme::Text(_) => Ok((NodeV { tok: ts[i], children: Seq::empty() }, i + 1)),
            _ => Err(ErrorV::Malformed),
        }
    }
}

/// The children that start at token `j` of a tag opened at text offset
/// `at`, and the index just after its closing tag.
pub open spec fn build_children(ts: Seq<TokenV>, j: int, at: int) -> Result<
    (Seq<NodeV>, int),
    ErrorV,
>
    decreases ts.len() - j, 1int,
{
    if j < 0 || j >= ts.len() {
        Err(ErrorV::Truncated(at))
    } else if ts[j].kind is Close {
        Ok((Seq::empty(), j + 1))
    } else {
        match build(ts, j) {
            Ok((n, k)) => if k <= j || k > ts.len() {
                // never taken: a node spans at least one token, within `ts`
                Err(ErrorV::Malformed)
            } else {
                match build_children(ts, k, at) {
                    Ok((cs, m)) => Ok((seq![n] + cs, m)),
                    Err(x) => Err(x),
                }
            },
            Err(x) => Err(x),
        }
    }
}

/// A built node spans at least one token and stays within the sequence.
pub proof fn lemma_build_advances(ts: Seq<TokenV>, i: int)
    ensures
        build(ts, i) matches Ok((_, k)) ==> i < k <= ts.len(),
    decreases ts.len() - i, 0int,
{
    if 0 <= i < ts.len() && ts[i].kind is Open {
        lemma_children_advance(ts, i + 1, ts[i].at);
    }
}

pub proof fn lemma_children_advance(ts: Seq<TokenV>, j: int, at: int)
    ensures
        build_children(ts, j, at) matches Ok((_, m)) ==> j < m <= ts.len(),
    decreases ts.len() - j, 1int,
{
    if 0 <= j < ts.len() && !(ts[j].kind is Close) {
        lemma_build_advances(ts, j);
        if let Ok((n, k)) = build(ts, j) {
            if j < k <= ts.len() {
                lemma_children_advance(ts, k, at);
            }
        }
    }
}

/// A self-closing tag is a leaf: its node has no children and holds its
/// own token only.
pub proof fn self_closing_is_leaf(ts: Seq<TokenV>, i: int)
    requires
        0 <= i < ts.len(),
        ts[i].kind is SelfClose,
    ensures
        build(ts, i) == Ok::<(NodeV, int), ErrorV>(
            (NodeV { tok: ts[i], children: Seq::empty() }, i + 1),
        ),
{
}

/// The tree of a whole text: its first node, after scanning all of it.
pub open spec fn parse_text(s: Seq<char>) -> Result<NodeV, ErrorV> {
    match scan_all(s, 0) {
        Ok(ts) => match build(ts, 0) {
            Ok((n, _)) => Ok(n),
            Err(x) => Err(x),
        },
        Err(x) => Err(x),
    }
}

/// The views of a sequence of nodes.
pub open spec fn node_views(v: Seq<Node>) -> Seq<NodeV> {
    v.map_values(|n: Node| n@)
}

/// Nodes `p` followed by the outcome `r` of building the rest.
pub open spec fn prepend_nodes(p: Seq<NodeV>, r: Result<(Seq<NodeV>, int), ErrorV>) -> Result<
    (Seq<NodeV>, int),
    ErrorV,
> {
    match r {
        Ok((cs, m)) => Ok((p + cs, m)),
        Err(x) => Err(x),
    }
}

/// Builds trees from the tokens that its lexer collects; the lexer's `pos`
/// is the index of the next token to read.
pub struct Parser {
    pub lexer: Lexer,
}

impl Parser {
    pub open spec fn wf(&self) -> bool {
        self.lexer.wf()
    }

    /// The tokens collected so far.
    pub open spec fn tokens(&self) -> Seq<TokenV> {
        token_views(self.lexer.buf@)
    }

    /// Only the reading position differs, and it has not moved back.
    pub open spec fn same_tokens(&self, o: Parser) -> bool {
        &&& self.wf()
        &&& o.lexer.pos <= self.lexer.pos
        &&& self.lexer.loc == o.lexer.loc
        &&& self.lexer.code@ == o.lexer.code@
        &&& self.lexer.chars@ == o.lexer.chars@
        &&& self.lexer.buf@ == o.lexer.buf@
    }

    pub fn new(code: &str) -> (r: Parser)
        ensures
            r.wf(),
            r.lexer.code@ == code@,
            r.lexer.loc.line == 1,
            r.lexer.loc.column == 0,
            r.lexer.loc.pos == 0,
            r.lexer.buf@.len() == 0,
            r.lexer.pos == 0,
    {
        Parser { lexer: Lexer::new(code.to_owned()) }
    }

    /// Reads the next token, or `Error::END` where none is left.
    pub fn read_token(&mut self) -> (r: Result<Token, Error>)
        requires
            old(self).wf(),
        ensures
            final(self).same_tokens(*old(self)),
            if old(self).lexer.pos < old(self).lexer.buf@.len() {
                r is Ok && r->Ok_0@ == old(self).tokens()[old(self).lexer.pos as int]
                    && final(self).lexer.pos == old(self).lexer.pos + 1
            } else {
                r is Err && r->Err_0 is END && final(self).lexer.pos == old(self).lexer.pos
            },
    {
        if self.lexer.pos < self.lexer.buf.len() {
            let pos = self.lexer.pos;
            self.lexer.pos = pos + 1;
            Ok(self.lexer.buf[pos].duplicate())
        } else {
            Err(Error::END)
        }
    }

    /// The token `index` places ahead, without moving.
    pub fn peek(&self, index: usize) -> (r: Result<Token, Error>)
        requires
            self.wf(),
        ensures
            if self.lexer.pos + index < self.lexer.buf@.len() {
                r is Ok && r->Ok_0@ == self.tokens()[self.lexer.pos + index]
            } else {
                r is Err && r->Err_0 is END
            },
    {
        if index < self.lexer.buf.len() - self.lexer.pos {
            Ok(self.lexer.buf[self.lexer.pos + index].duplicate())
        } else {
            Err(Error::END)
        }
    }

    /// Builds the node that starts at the next token.
    pub fn read_tag(&mut self) -> (r: Result<Node, Error>)
        requires
            old(self).wf(),
        ensures
            final(self).same_tokens(*old(self)),
            match build(old(self).tokens(), old(self).lexer.pos as int) {
                Ok((n, k)) => r is Ok && r->Ok_0@ == n && final(self).lexer.pos == k,
                Err(x) => r is Err && r->Err_0@ == x,
            },
        decreases old(self).lexer.buf@.len() - old(self).lexer.pos,
    {
        let ghost ts = self.tokens();
        let ghost i = self.lexer.pos as int;
        let current = match self.read_token() {
            Err(e) => {
                return Err(e);
            },
            Ok(t) => t,
        };
        match &current.kind {
            Kind::OpenTag(_) => {
                let ghost at = current@.at;
                let mut children: Vec<Node> = Vec::new();
                loop
                    invariant_except_break
                        build_children(ts, i + 1, at) == prepend_nodes(
                            node_views(children@),
                            build_children(ts, self.lexer.pos as int, at),
                        ),
                    invariant
                        self.same_tokens(*old(self)),
                        ts == self.tokens(),
                        i == old(self).lexer.pos,
                        i < self.lexer.pos,
                        at == current@.at,
                        ts[i] == current@,
                        current@.kind is Open,
                    ensures
                        self.same_tokens(*old(self)),
                        build_children(ts, i + 1, at) == Ok::<(Seq<NodeV>, int), ErrorV>(
                            (node_views(children@), self.lexer.pos as int),
                        ),
                    decreases self.lexer.buf@.len() - self.lexer.pos,
                {
                    let ghost j = self.lexer.pos as int;
                    let next = match self.peek(0) {
                        Err(_) => {
                            assert(build_children(ts, j, at) == Err::<(Seq<NodeV>, int), ErrorV>(
                                ErrorV::Truncated(at),
                            ));
                            assert(build(ts, i) == Err::<(NodeV, int), ErrorV>(
                                ErrorV::Truncated(at),
                            ));
                            return Err(
                                Error::UnexpectedEnd(current.loc, "no closing tag for this tag".to_owned()),
                            );
                        },
                        Ok(t) => t,
                    };
                    if let Kind::CloseTag(_) = next.kind {
                        let _ = self.read_token();
                        assert(node_views(children@) + Seq::<NodeV>::empty() =~= node_views(children@));
                        break ;
                    } else {
                        proof {
                            lemma_build_advances(ts, j);
                        }
                        let node = match self.read_tag() {
                            Err(e) => {
                                assert(build_children(ts, j, at) == Err::<(Seq<NodeV>, int), ErrorV>(
                                    e@,
                                ));
                                assert(build(ts, i) == Err::<(NodeV, int), ErrorV>(e@));
                                return Err(e);
                            },
                            Ok(n) => n,
                        };
                        let ghost nv = node@;
                        let ghost before = node_views(children@);
                        children.push(node);
                        proof {
                            assert(node_views(children@) =~= before.push(nv));
                            match build_children(ts, self.lexer.pos as int, at) {
                                Ok((cs, m)) => {
                                    assert(before + (seq![nv] + cs) =~= before.push(nv) + cs);
                                },
                                Err(x) => {},
                            }
                        }
                    }
                }
                let node = Node { base: current, children };
                assert(node@.children =~= node_views(node.children@));
                Ok(node)
            },
            Kind::CloseTag(_) | Kind::SelfCloseTag(_) | Kind::Text(_) => {
                let node = Node { base: current, children: Vec::new() };
                assert(node@.children =~= Seq::<NodeV>::empty());
                Ok(node)
            },
            _ => Err(Error::ERR),
        }
    }

    /// Scans the rest of the text, then builds the node at the reading
    /// position. For a new parser that is the tree of the whole text.
    pub fn parse_all(&mut self) -> (r: Result<Node, Error>)
        requires
            old(self).wf(),
        ensures
            final(self).wf(),
            final(self).lexer.code@ == old(self).lexer.code@,
            final(self).lexer.chars@ == old(self).lexer.chars@,
            old(self).lexer.loc.pos <= final(self).lexer.loc.pos,
            old(self).lexer.pos <= final(self).lexer.pos,
            final(self).tokens() == old(self).tokens() + scanned_tokens(
                old(self).lexer.chars@,
                old(self).lexer.loc.pos as int,
            ),
            match scan_all(old(self).lexer.chars@, old(self).lexer.loc.pos as int) {
                Err(x) => r is Err && r->Err_0@ == x && final(self).lexer.pos == old(self).lexer.pos,
                Ok(ts) => final(self).lexer.loc.pos == final(self).lexer.chars@.len() && match build(
                    old(self).tokens() + ts,
                    old(self).lexer.pos as int,
                ) {
                    Ok((n, k)) => r is Ok && r->Ok_0@ == n && final(self).lexer.pos == k,
                    Err(x) => r is Err && r->Err_0@ == x,
                },
            },
            (old(self).lexer.loc.pos == 0 && old(self).lexer.buf@.len() == 0 && old(self).lexer.pos
                == 0) ==> match parse_text(old(self).lexer.code@) {
                Ok(n) => r is Ok && r->Ok_0@ == n,
                Err(x) => r is Err && r->Err_0@ == x,
            },
    {
        if let Err(e) = self.lexer.tokenize_all() {
            return Err(e);
        }
        proof {
            if old(self).lexer.buf@.len() == 0 {
                assert(old(self).tokens() =~= Seq::<TokenV>::empty());
                if let Ok(ts) = scan_all(old(self).lexer.chars@, 0) {
                    assert(old(self).tokens() + ts =~= ts);
                }
            }
        }
        self.read_node()
    }

    pub fn read_node(&mut self) -> (r: Result<Node, Error>)
        requires
            old(self).wf(),
        ensures
            final(self).same_tokens(*old(self)),
            match build(old(self).tokens(), old(self).lexer.pos as int) {
                Ok((n, k)) => r is Ok && r->Ok_0@ == n && final(self).lexer.pos == k,
                Err(x) => r is Err && r->Err_0@ == x,
            },
    {
        self.read_tag()
    }
}

} // verus!
