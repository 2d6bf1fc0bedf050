//! The parser: the token stream folded into the ordered sequence of nodes
//! that a generator executes.
//!
//! A literal becomes a `Content` node, a block becomes a `Render` or a
//! `Control` node holding the block's text. A trimming opener strips the
//! trailing whitespace of the `Content` node just before it (and removes the
//! node if nothing is left); a trimming closer strips the leading whitespace
//! of the literal right after it.
use crate::error::{ParseError, ParseErrorKind};
use crate::lex::{lex_seq, lex_step, lex_template, opener_ahead, run_len, Lexer, Tok, TokModel};
use crate::text::{trim_end, trim_end_spec, trim_start, trim_start_spec};
use vstd::prelude::*;

verus! {

/// One unit of a parsed template.
#[derive(Debug, Clone, PartialEq, Eq)]
pub enum Node {
    /// An expression whose value is written out.
    Render(String),
    /// A statement spliced into the control flow.
    Control(String),
    /// Text written out as it is.
    Content(String),
}

/// The mathematical value of a node.
pub enum NodeModel {
    Render(Seq<char>),
    Control(Seq<char>),
    Content(Seq<char>),
}

impl View for Node {
    type V = NodeModel;

    open spec fn view(&self) -> NodeModel {
        match self {
            Node::Render(s) => NodeModel::Render(s@),
            Node::Control(s) => NodeModel::Control(s@),
            Node::Content(s) => NodeModel::Content(s@),
        }
    }
}

/// The views of a sequence of nodes.
pub open spec fn nodes_view(ns: Seq<Node>) -> Seq<NodeModel> {
    ns.map_values(|n: Node| n@)
}

/// `nodes` with a `Content` node for `text` at the end, unless `text` is
/// empty.
pub open spec fn push_content(nodes: Seq<NodeModel>, text: Seq<char>) -> Seq<NodeModel> {
    if text.len() == 0 {
        nodes
    } else {
        nodes.push(NodeModel::Content(text))
    }
}

/// `nodes` with the trailing whitespace of its last node stripped, if that
/// node is a `Content` node; the node goes if nothing is left of it.
pub open spec fn trim_last_content(nodes: Seq<NodeModel>) -> Seq<NodeModel> {
    if nodes.len() > 0 && nodes.last() is Content {
        let t = trim_end_spec(nodes.last()->Content_0);
        if t.len() == 0 {
            nodes.drop_last()
        } else {
            nodes.update(nodes.len() - 1, NodeModel::Content(t))
        }
    } else {
        nodes
    }
}

/// Whether `t` is the closer that matches a render (or control) opener.
pub open spec fn closes(t: TokModel, render: bool) -> bool {
    if render {
        t is CRenderBlock
    } else {
        t is CControlBlock
    }
}

/// The trim flag of a delimiter token.
pub open spec fn trim_flag(t: TokModel) -> bool {
    match t {
        TokModel::Literal(_) => false,
        TokModel::ORenderBlock { clear_whitespace } => clear_whitespace,
        TokModel::CRenderBlock { clear_whitespace } => clear_whitespace,
        TokModel::OControlBlock { clear_whitespace } => clear_whitespace,
        TokModel::CControlBlock { clear_whitespace } => clear_whitespace,
    }
}

/// The node for a block with the given body.
pub open spec fn block_node(render: bool, body: Seq<char>) -> NodeModel {
    if render {
        NodeModel::Render(body)
    } else {
        NodeModel::Control(body)
    }
}

/// The result of parsing `toks` after `nodes` have been produced, with
/// `pending` telling whether the previous closer asked to trim the literal
/// that follows it.
pub open spec fn parse_seq(toks: Seq<TokModel>, nodes: Seq<NodeModel>, pending: bool) -> Result<
    Seq<NodeModel>,
    ParseErrorKind,
>
    decreases toks.len(),
{
    if toks.len() == 0 {
        Ok(nodes)
    } else {
        match toks[0] {
            TokModel::Literal(t) => parse_seq(
                toks.drop_first(),
                push_content(nodes, if pending { trim_start_spec(t) } else { t }),
                false,
            ),
            TokModel::CRenderBlock { .. } => Err(ParseErrorKind::UnexpectedClose),
            TokModel::CControlBlock { .. } => Err(ParseErrorKind::UnexpectedClose),
            _ => {
                let render = toks[0] is ORenderBlock;
                let before = if trim_flag(toks[0]) {
                    trim_last_content(nodes)
                } else {
                    nodes
                };
                if toks.len() < 2 || !(toks[1] is Literal) {
                    Err(ParseErrorKind::MalformedBlock)
                } else if toks.len() < 3 || !closes(toks[2], render) {
                    Err(ParseErrorKind::MalformedBlock)
                } else {
                    parse_seq(
                        toks.skip(3),
                        before.push(block_node(render, toks[1]->Literal_0)),
                        trim_flag(toks[2]),
                    )
                }
            },
        }
    }
}

/// The nodes of a whole token stream.
pub open spec fn parse_tokens(toks: Seq<TokModel>) -> Result<Seq<NodeModel>, ParseErrorKind> {
    parse_seq(toks, seq![], false)
}

/// The nodes of a template text.
pub open spec fn parse_template(s: Seq<char>) -> Result<Seq<NodeModel>, ParseErrorKind> {
    parse_tokens(lex_template(s))
}

/// No opener, `{{` or `{%`, starts anywhere in `s`.
pub open spec fn no_opener(s: Seq<char>) -> bool {
    forall|i: int| 0 <= i < s.len() ==> !opener_ahead(#[trigger] s.skip(i))
}

proof fn lemma_run_len_no_opener(s: Seq<char>)
    requires
        no_opener(s),
    ensures
        run_len(s, false) == s.len(),
    decreases s.len(),
{
    if s.len() > 0 {
        assert(s.skip(0) =~= s);
        let t = s.drop_first();
        assert forall|i: int| 0 <= i < t.len() implies !opener_ahead(#[trigger] t.skip(i)) by {
            assert(t.skip(i) =~= s.skip(i + 1));
        }
        lemma_run_len_no_opener(t);
    }
}

/// Text without any opener parses to a single `Content` node holding the
/// text as it is, or to no node at all when the text is empty.
pub proof fn lemma_plain_text(s: Seq<char>)
    requires
        no_opener(s),
    ensures
        parse_template(s) == Ok::<Seq<NodeModel>, ParseErrorKind>(
            if s.len() == 0 {
                seq![]
            } else {
                seq![NodeModel::Content(s)]
            },
        ),
{
    if s.len() > 0 {
        assert(s.skip(0) =~= s);
        assert(!opener_ahead(s.skip(0)));
        let t = s.drop_first();
        assert forall|i: int| 0 <= i < t.len() implies !opener_ahead(#[trigger] t.skip(i)) by {
            assert(t.skip(i) =~= s.skip(i + 1));
        }
        lemma_run_len_no_opener(t);
        assert(s.take(s.len() as int) =~= s);
        assert(s.skip(s.len() as int) =~= Seq::<char>::empty());
        assert(lex_step(s, false) == (TokModel::Literal(s), s.len() as int, false));
        assert(lex_seq(s.skip(s.len() as int), false) =~= Seq::<TokModel>::empty());
        let toks = lex_template(s);
        assert(toks =~= seq![TokModel::Literal(s)]);
        assert(toks.drop_first() =~= Seq::<TokModel>::empty());
        assert(push_content(seq![], s) =~= seq![NodeModel::Content(s)]);
        assert(parse_seq(toks.drop_first(), seq![NodeModel::Content(s)], false) == Ok::<
            Seq<NodeModel>,
            ParseErrorKind,
        >(seq![NodeModel::Content(s)]));
    } else {
        assert(lex_template(s) =~= Seq::<TokModel>::empty());
    }
}

/// Every `Content` node in `ns` holds some text.
pub open spec fn contents_nonempty(ns: Seq<NodeModel>) -> bool {
    forall|i: int| 0 <= i < ns.len() && (#[trigger] ns[i]) is Content ==> ns[i]->Content_0.len() > 0
}

proof fn lemma_parse_seq_nonempty(toks: Seq<TokModel>, nodes: Seq<NodeModel>, pending: bool)
    requires
        contents_nonempty(nodes),
    ensures
        parse_seq(toks, nodes, pending) is Ok ==> contents_nonempty(
            parse_seq(toks, nodes, pending)->Ok_0,
        ),
    decreases toks.len(),
{
    if toks.len() > 0 {
        match toks[0] {
            TokModel::Literal(t) => {
                let text = if pending {
                    trim_start_spec(t)
                } else {
                    t
                };
                let next = push_content(nodes, text);
                assert(contents_nonempty(next)) by {
                    assert forall|i: int| 0 <= i < next.len() && (#[trigger] next[i]) is Content implies next[i]->Content_0.len() > 0 by {
                        if i < nodes.len() {
                            assert(next[i] == nodes[i]);
                        }
                    }
                }
                lemma_parse_seq_nonempty(toks.drop_first(), next, false);
            },
            TokModel::CRenderBlock { .. } => {},
            TokModel::CControlBlock { .. } => {},
            _ => {
                let render = toks[0] is ORenderBlock;
                let before = if trim_flag(toks[0]) {
                    trim_last_content(nodes)
                } else {
                    nodes
                };
                assert(contents_nonempty(before)) by {
                    assert forall|i: int| 0 <= i < before.len() && (#[trigger] before[i]) is Content implies before[i]->Content_0.len() > 0 by {
                        if i < nodes.len() - 1 {
                            assert(before[i] == nodes[i]);
                        }
                    }
                }
                if toks.len() >= 3 && toks[1] is Literal && closes(toks[2], render) {
                    let next = before.push(block_node(render, toks[1]->Literal_0));
                    assert(contents_nonempty(next)) by {
                        assert forall|i: int| 0 <= i < next.len() && (#[trigger] next[i]) is Content implies next[i]->Content_0.len() > 0 by {
                            if i < before.len() {
                                assert(next[i] == before[i]);
                            }
                        }
                    }
                    lemma_parse_seq_nonempty(toks.skip(3), next, trim_flag(toks[2]));
                }
            },
        }
    }
}

/// A successful parse never yields an empty `Content` node: a literal that
/// trimming leaves empty is dropped.
pub proof fn lemma_no_empty_content(s: Seq<char>)
    ensures
        parse_template(s) is Ok ==> contents_nonempty(parse_template(s)->Ok_0),
{
    lemma_parse_seq_nonempty(lex_template(s), seq![], false);
}

/// Parsing depends on the text alone: two parses of equal texts give equal
/// node sequences, or errors of the same kind.
pub proof fn lemma_parse_deterministic(
    s1: Seq<char>,
    s2: Seq<char>,
    r1: Result<Vec<Node>, ParseError>,
    r2: Result<Vec<Node>, ParseError>,
)
    requires
        s1 == s2,
        result_is(r1, parse_template(s1)),
        result_is(r2, parse_template(s2)),
    ensures
        r1 is Ok <==> r2 is Ok,
        r1 is Ok ==> nodes_view(r1->Ok_0@) == nodes_view(r2->Ok_0@),
        r1 is Err ==> r1->Err_0.kind == r2->Err_0.kind,
{
}

/// Whether an executable parse result is the given mathematical one.
pub open spec fn result_is(
    r: Result<Vec<Node>, ParseError>,
    m: Result<Seq<NodeModel>, ParseErrorKind>,
) -> bool {
    match r {
        Ok(v) => m == Ok::<Seq<NodeModel>, ParseErrorKind>(nodes_view(v@)),
        Err(e) => m == Err::<Seq<NodeModel>, ParseErrorKind>(e.kind),
    }
}

/// Strips the trailing whitespace of the last node if it is a `Content`
/// node, and removes the node if nothing is left of it.
fn trim_last(nodes: &mut Vec<Node>)
    ensures
        nodes_view(final(nodes)@) == trim_last_content(nodes_view(old(nodes)@)),
{
    let len = nodes.len();
    if len == 0 {
        return;
    }
    let trimmed = match &nodes[len - 1] {
        Node::Content(s) => Some(trim_end(s.as_str())),
        _ => None,
    };
    match trimmed {
        Some(t) => {
            if t.as_str().is_empty() {
                nodes.pop();
                assert(nodes_view(nodes@) =~= trim_last_content(nodes_view(old(nodes)@)));
            } else {
                nodes.set(len - 1, Node::Content(t));
                assert(nodes_view(nodes@) =~= trim_last_content(nodes_view(old(nodes)@)));
            }
        },
        None => {},
    }
}

/// The parser: it draws tokens from its lexer and builds nodes.
pub struct Parser {
    lexer: Lexer,
}

impl Parser {
    /// The lexer that the parser draws tokens from.
    pub closed spec fn lexer(&self) -> Lexer {
        self.lexer
    }

    /// A parser over the template text `s`.
    pub fn new(s: &str) -> (r: Self)
        ensures
            r.lexer().rest() == s@,
            !r.lexer().inside(),
            r.lexer().pending_tokens() == lex_template(s@),
    {
        Self::new_with_lexer(Lexer::new(s))
    }

    /// A parser that draws tokens from `lexer`.
    pub fn new_with_lexer(lexer: Lexer) -> (r: Self)
        ensures
            r.lexer() == lexer,
    {
        Parser { lexer }
    }

    /// Reads the body and the closer of a block whose opener has just been
    /// read, and appends the block's node to `nodes`, after trimming the last
    /// `Content` node if the opener asked for it. Returns the closer's trim
    /// flag.
    fn finish_block(&mut self, nodes: &mut Vec<Node>, render: bool, trim: bool) -> (r: Result<
        bool,
        ParseError,
    >)
        ensures
            ({
                let toks = old(self).lexer().pending_tokens();
                let before = if trim {
                    trim_last_content(nodes_view(old(nodes)@))
                } else {
                    nodes_view(old(nodes)@)
                };
                if toks.len() < 1 || !(toks[0] is Literal) || toks.len() < 2 || !closes(
                    toks[1],
                    render,
                ) {
                    r is Err && r->Err_0.kind == ParseErrorKind::MalformedBlock
                } else {
                    &&& r == Ok::<bool, ParseError>(trim_flag(toks[1]))
                    &&& nodes_view(final(nodes)@) == before.push(
                        block_node(render, toks[0]->Literal_0),
                    )
                    &&& final(self).lexer().pending_tokens() == toks.skip(2)
                }
            }),
            final(self).lexer().rest().len() <= old(self).lexer().rest().len(),
    {
        let ghost toks = self.lexer.pending_tokens();
        if trim {
            trim_last(nodes);
        }
        let ghost trimmed = nodes_view(nodes@);
        match self.lexer.next() {
            Some(Tok::Literal(s)) => {
                if render {
                    nodes.push(Node::Render(s));
                } else {
                    nodes.push(Node::Control(s));
                }
            },
            _ => {
                let message = if render {
                    "expected render expression"
                } else {
                    "expected control statement"
                };
                return Err(ParseError::new(ParseErrorKind::MalformedBlock, message));
            },
        }
        assert(nodes_view(nodes@) =~= trimmed.push(nodes@.last()@));
        let ghost rest = self.lexer.pending_tokens();
        match self.lexer.next() {
            Some(Tok::CRenderBlock { clear_whitespace }) if render => {
                assert(rest.drop_first() =~= toks.skip(2));
                Ok(clear_whitespace)
            },
            Some(Tok::CControlBlock { clear_whitespace }) if !render => {
                assert(rest.drop_first() =~= toks.skip(2));
                Ok(clear_whitespace)
            },
            _ => {
                let message = if render {
                    "expected '}}'"
                } else {
                    "expected '%}'"
                };
                Err(ParseError::new(ParseErrorKind::MalformedBlock, message))
            },
        }
    }

    /// Parses the tokens that the lexer has still to produce: the nodes, or
    /// the first structural error.
    pub fn parse_nodes(&mut self) -> (r: Result<Vec<Node>, ParseError>)
        ensures
            result_is(r, parse_tokens(old(self).lexer().pending_tokens())),
    {
        let mut nodes: Vec<Node> = Vec::new();
        let mut clearing_whitespace = false;
        let ghost goal = parse_tokens(self.lexer.pending_tokens());
        assert(nodes_view(nodes@) =~= seq![]);
        loop
            invariant
                goal == parse_tokens(old(self).lexer().pending_tokens()),
                parse_seq(self.lexer.pending_tokens(), nodes_view(nodes@), clearing_whitespace)
                    == goal,
            ensures
                goal == Ok::<Seq<NodeModel>, ParseErrorKind>(nodes_view(nodes@)),
            decreases self.lexer.rest().len(),
        {
            let ghost toks = self.lexer.pending_tokens();
            let ghost before = nodes_view(nodes@);
            match self.lexer.next() {
                Some(Tok::Literal(s)) => {
                    let ghost rest = self.lexer.pending_tokens();
                    let s = if clearing_whitespace {
                        clearing_whitespace = false;
                        trim_start(s.as_str())
                    } else {
                        s
                    };
                    if !s.as_str().is_empty() {
                        nodes.push(Node::Content(s));
                    }
                    assert(toks.drop_first() =~= rest);
                    assert(nodes_view(nodes@) =~= push_content(before, s@));
                },
                Some(Tok::ORenderBlock { clear_whitespace }) => {
                    let ghost rest = self.lexer.pending_tokens();
                    assert(toks.drop_first() =~= rest);
                    assert(toks[0] == TokModel::ORenderBlock { clear_whitespace });
                    assert(rest.len() > 0 ==> toks[1] == rest[0]);
                    assert(rest.len() > 1 ==> toks[2] == rest[1]);
                    match self.finish_block(&mut nodes, true, clear_whitespace) {
                        Ok(c) => {
                            clearing_whitespace = c;
                        },
                        Err(e) => {
                            return Err(e);
                        },
                    }
                    assert(toks.skip(3) =~= rest.skip(2));
                },
                Some(Tok::OControlBlock { clear_whitespace }) => {
                    let ghost rest = self.lexer.pending_tokens();
                    assert(toks.drop_first() =~= rest);
                    assert(toks[0] == TokModel::OControlBlock { clear_whitespace });
                    assert(rest.len() > 0 ==> toks[1] == rest[0]);
                    assert(rest.len() > 1 ==> toks[2] == rest[1]);
                    match self.finish_block(&mut nodes, false, clear_whitespace) {
                        Ok(c) => {
                            clearing_whitespace = c;
                        },
                        Err(e) => {
                            return Err(e);
                        },
                    }
                    assert(toks.skip(3) =~= rest.skip(2));
                },
                Some(Tok::CRenderBlock { .. }) => {
                    return Err(ParseError::new(ParseErrorKind::UnexpectedClose, "unexpected '}}'"));
                },
                Some(Tok::CControlBlock { .. }) => {
                    return Err(ParseError::new(ParseErrorKind::UnexpectedClose, "unexpected '%}'"));
                },
                None => {
                    break;
                },
            }
        }
        Ok(nodes)
    }
}

} // verus!
