//! The structural parser: tokens are grouped by their delimiters, function
//! declarations are picked out, and call sites are folded into call nodes.

use crate::errors::{Error, ErrorView};
use crate::nodes::{
    copy_nodes, has_children, lemma_node_view, nodes_view, Node, NodeView,
};
use crate::tokens::{tokens_view, Token, TokenView};
use vstd::prelude::*;
use vstd::string::StringExecFns;

verus! {

/// The three kinds of paired delimiters.
#[derive(Clone, Copy, PartialEq, Eq, Debug, Structural)]
pub enum Delim {
    /// `{` and `}`
    Curly,
    /// `(` and `)`
    Round,
    /// `[` and `]`
    Square,
}

/// The kind of delimiter that a token opens, if any.
pub open spec fn opener(t: TokenView) -> Option<Delim> {
    match t {
        TokenView::OpenCurly => Some(Delim::Curly),
        TokenView::OpenBracket => Some(Delim::Round),
        TokenView::OpenSquare => Some(Delim::Square),
        _ => None,
    }
}

/// The kind of delimiter that a token closes, if any.
pub open spec fn closer(t: TokenView) -> Option<Delim> {
    match t {
        TokenView::CloseCurly => Some(Delim::Curly),
        TokenView::CloseBracket => Some(Delim::Round),
        TokenView::CloseSquare => Some(Delim::Square),
        _ => None,
    }
}

/// The token that opens a delimiter of the given kind.
pub open spec fn open_token(d: Delim) -> TokenView {
    match d {
        Delim::Curly => TokenView::OpenCurly,
        Delim::Round => TokenView::OpenBracket,
        Delim::Square => TokenView::OpenSquare,
    }
}

/// The token that closes a delimiter of the given kind.
pub open spec fn close_token(d: Delim) -> TokenView {
    match d {
        Delim::Curly => TokenView::CloseCurly,
        Delim::Round => TokenView::CloseBracket,
        Delim::Square => TokenView::CloseSquare,
    }
}

/// The node for a delimited span: a block, a group or an array.
pub open spec fn enclose(d: Delim, inner: Seq<NodeView>) -> NodeView {
    match d {
        Delim::Curly => NodeView::Block(inner),
        Delim::Round => NodeView::Group(inner),
        Delim::Square => NodeView::Array(inner),
    }
}

/// The tokens that a node was built from, in order.
pub open spec fn leaves(n: NodeView) -> Seq<TokenView>
    decreases n,
{
    match n {
        NodeView::Term(t) => seq![t],
        NodeView::Array(v) => seq![TokenView::OpenSquare] + leaves_of(v) + seq![
            TokenView::CloseSquare,
        ],
        NodeView::Group(v) => seq![TokenView::OpenBracket] + leaves_of(v) + seq![
            TokenView::CloseBracket,
        ],
        NodeView::Block(v) => seq![TokenView::OpenCurly] + leaves_of(v) + seq![
            TokenView::CloseCurly,
        ],
        NodeView::CallExpr { name, args, assign_to } => seq![
            TokenView::Ident(name),
            TokenView::OpenBracket,
        ] + leaves_of(args) + seq![TokenView::CloseBracket] + match assign_to {
            Some(target) => seq![TokenView::ArrowAssigner, TokenView::Ident(target)],
            None => Seq::empty(),
        },
        NodeView::FunctionDecl { name, args, nodes } => seq![
            TokenView::FunctionDecl,
            TokenView::Ident(name),
            TokenView::OpenBracket,
        ] + leaves_of(args) + seq![TokenView::CloseBracket, TokenView::OpenCurly] + leaves_of(
            nodes,
        ) + seq![TokenView::CloseCurly],
    }
}

/// The tokens that a sequence of nodes was built from, in order.
pub open spec fn leaves_of(v: Seq<NodeView>) -> Seq<TokenView>
    decreases v,
{
    if v.len() == 0 {
        Seq::empty()
    } else {
        leaves_of(v.drop_last()) + leaves(v.last())
    }
}

/// A node as the grouping of tokens produces it: a token that is no
/// delimiter, or an array, a group or a block of such nodes.
pub open spec fn grouped(n: NodeView) -> bool
    decreases n,
{
    match n {
        NodeView::Term(t) => opener(t) is None && closer(t) is None,
        NodeView::Array(v) => grouped_all(v),
        NodeView::Group(v) => grouped_all(v),
        NodeView::Block(v) => grouped_all(v),
        _ => false,
    }
}

/// Every node of the sequence is [`grouped`].
pub open spec fn grouped_all(v: Seq<NodeView>) -> bool
    decreases v,
{
    if v.len() == 0 {
        true
    } else {
        grouped_all(v.drop_last()) && grouped(v.last())
    }
}

/// The first fault in the delimiters of `tokens` from position `i` on, when
/// the delimiters in `open` are open at that position, the innermost last. A
/// closing delimiter that does not match the innermost open one is
/// unexpected; at the end of the input the innermost open delimiter is
/// unclosed. `None` means that the delimiters are balanced.
pub open spec fn delimiter_error(tokens: Seq<TokenView>, i: int, open: Seq<Delim>) -> Option<
    ErrorView,
>
    decreases tokens.len() - i,
{
    if i < 0 || i >= tokens.len() {
        if open.len() == 0 {
            None
        } else {
            Some(ErrorView::UnclosedDelim(open_token(open.last())))
        }
    } else if opener(tokens[i]) is Some {
        delimiter_error(tokens, i + 1, open.push(opener(tokens[i])->0))
    } else if closer(tokens[i]) is Some {
        if open.len() > 0 && open.last() == closer(tokens[i])->0 {
            delimiter_error(tokens, i + 1, open.drop_last())
        } else {
            Some(ErrorView::UnexpectedToken(Some(tokens[i])))
        }
    } else {
        delimiter_error(tokens, i + 1, open)
    }
}

/// The delimiters of `tokens` are balanced and properly nested.
pub open spec fn balanced(tokens: Seq<TokenView>) -> bool {
    delimiter_error(tokens, 0, Seq::empty()) is None
}

/// A span that is still open: its kind, and the nodes that were collected
/// around it before it was opened.
pub struct OpenSpan {
    pub kind: Delim,
    pub before: Seq<NodeView>,
}

/// The tree for the tokens from position `i` on, when the spans in `open`
/// are open at that position, the innermost last, and `current` holds the
/// nodes collected in the innermost one. An opening delimiter opens a span, a
/// closing delimiter that matches the innermost span closes it, and the span
/// becomes one node of the span around it. Any other token becomes a leaf.
pub open spec fn group_from(
    tokens: Seq<TokenView>,
    i: int,
    open: Seq<OpenSpan>,
    current: Seq<NodeView>,
) -> Result<Seq<NodeView>, ErrorView>
    decreases tokens.len() - i,
{
    if i < 0 || i >= tokens.len() {
        if open.len() == 0 {
            Ok(current)
        } else {
            Err(ErrorView::UnclosedDelim(open_token(open.last().kind)))
        }
    } else if opener(tokens[i]) is Some {
        group_from(
            tokens,
            i + 1,
            open.push(OpenSpan { kind: opener(tokens[i])->0, before: current }),
            Seq::empty(),
        )
    } else if closer(tokens[i]) is Some {
        if open.len() > 0 && open.last().kind == closer(tokens[i])->0 {
            group_from(
                tokens,
                i + 1,
                open.drop_last(),
                open.last().before.push(enclose(open.last().kind, current)),
            )
        } else {
            Err(ErrorView::UnexpectedToken(Some(tokens[i])))
        }
    } else {
        group_from(tokens, i + 1, open, current.push(NodeView::Term(tokens[i])))
    }
}

/// The tree that the delimiters of `tokens` describe, or the first fault in
/// them.
pub open spec fn grouping(tokens: Seq<TokenView>) -> Result<Seq<NodeView>, ErrorView> {
    group_from(tokens, 0, Seq::empty(), Seq::empty())
}

/// The kinds of the open spans, the innermost last.
pub open spec fn kinds(open: Seq<OpenSpan>) -> Seq<Delim> {
    Seq::new(open.len(), |k: int| open[k].kind)
}

/// The tokens consumed so far, read back from the open spans and from the
/// nodes collected in the innermost one.
pub open spec fn unwound(open: Seq<OpenSpan>, current: Seq<NodeView>) -> Seq<TokenView>
    decreases open.len(),
{
    if open.len() == 0 {
        leaves_of(current)
    } else {
        unwound(open.drop_last(), open.last().before) + seq![open_token(open.last().kind)]
            + leaves_of(current)
    }
}

/// Every node collected around an open span is grouped.
pub open spec fn spans_grouped(open: Seq<OpenSpan>) -> bool {
    forall|k: int| 0 <= k < open.len() ==> grouped_all(#[trigger] open[k].before)
}

/// The leaves and the shape of a sequence of nodes with one more node.
pub proof fn lemma_leaves_push(v: Seq<NodeView>, n: NodeView)
    ensures
        leaves_of(v.push(n)) == leaves_of(v) + leaves(n),
        grouped_all(v.push(n)) == (grouped_all(v) && grouped(n)),
{
    assert(v.push(n).drop_last() =~= v);
}

proof fn lemma_unwound_push(open: Seq<OpenSpan>, current: Seq<NodeView>, n: NodeView)
    ensures
        unwound(open, current.push(n)) == unwound(open, current) + leaves(n),
{
    lemma_leaves_push(current, n);
    if open.len() == 0 {
    } else {
        let base = unwound(open.drop_last(), open.last().before) + seq![
            open_token(open.last().kind),
        ];
        assert(base + (leaves_of(current) + leaves(n)) =~= (base + leaves_of(current)) + leaves(
            n,
        ));
    }
}

/// Grouping from any position keeps the tokens: if the spans and nodes
/// built so far hold exactly the tokens before position `i`, the finished
/// tree holds exactly all tokens, and grouping fails exactly where the
/// delimiters are at fault.
pub proof fn lemma_group_from(
    tokens: Seq<TokenView>,
    i: int,
    open: Seq<OpenSpan>,
    current: Seq<NodeView>,
)
    requires
        0 <= i <= tokens.len(),
        unwound(open, current) == tokens.subrange(0, i),
        spans_grouped(open),
        grouped_all(current),
    ensures
        match group_from(tokens, i, open, current) {
            Ok(tree) => leaves_of(tree) == tokens && grouped_all(tree) && delimiter_error(
                tokens,
                i,
                kinds(open),
            ) is None,
            Err(e) => delimiter_error(tokens, i, kinds(open)) == Some(e),
        },
    decreases tokens.len() - i,
{
    if i >= tokens.len() {
        assert(tokens.subrange(0, i) =~= tokens);
        if open.len() > 0 {
            assert(kinds(open).last() == open.last().kind);
        }
    } else {
        let t = tokens[i];
        let seen = tokens.subrange(0, i);
        assert(tokens.subrange(0, i + 1) =~= seen + seq![t]);
        if opener(t) is Some {
            let d = opener(t)->0;
            let next = open.push(OpenSpan { kind: d, before: current });
            assert(next.drop_last() =~= open);
            assert(kinds(next) =~= kinds(open).push(d));
            assert(unwound(next, Seq::empty()) =~= unwound(open, current) + seq![open_token(d)]);
            assert(open_token(d) == t);
            lemma_group_from(tokens, i + 1, next, Seq::empty());
        } else if closer(t) is Some {
            let d = closer(t)->0;
            if open.len() > 0 && open.last().kind == d {
                let parent = open.last().before;
                let node = enclose(d, current);
                let rest = open.drop_last();
                assert(kinds(open).last() == d);
                assert(kinds(rest) =~= kinds(open).drop_last());
                lemma_unwound_push(rest, parent, node);
                lemma_leaves_push(parent, node);
                assert(close_token(d) == t);
                assert(leaves(node) =~= seq![open_token(d)] + leaves_of(current) + seq![
                    close_token(d),
                ]);
                assert(unwound(rest, parent.push(node)) =~= seen + seq![t]);
                assert(grouped(node));
                assert(grouped_all(parent));
                lemma_group_from(tokens, i + 1, rest, parent.push(node));
            } else {
                if open.len() > 0 {
                    assert(kinds(open).last() == open.last().kind);
                }
            }
        } else {
            let node = NodeView::Term(t);
            lemma_unwound_push(open, current, node);
            lemma_leaves_push(current, node);
            lemma_group_from(tokens, i + 1, open, current.push(node));
        }
    }
}

/// Grouping keeps every token. For tokens whose delimiters are balanced,
/// grouping succeeds, and the leaves of the tree, read back in order with the
/// delimiters of every span, are the tokens again. For other tokens it fails
/// with the first fault in the delimiters.
pub proof fn lemma_grouping_round_trip(tokens: Seq<TokenView>)
    ensures
        match grouping(tokens) {
            Ok(tree) => balanced(tokens) && leaves_of(tree) == tokens && grouped_all(tree),
            Err(e) => !balanced(tokens) && delimiter_error(tokens, 0, Seq::empty()) == Some(e),
        },
{
    assert(tokens.subrange(0, 0) =~= Seq::<TokenView>::empty());
    assert(kinds(Seq::<OpenSpan>::empty()) =~= Seq::<Delim>::empty());
    lemma_group_from(tokens, 0, Seq::empty(), Seq::empty());
}

/// A span that is still open, with the nodes collected around it.
struct Frame {
    kind: Delim,
    nodes: Vec<Node>,
}

/// The open spans that a stack of frames stands for.
spec fn spans(stack: Seq<Frame>) -> Seq<OpenSpan> {
    Seq::new(
        stack.len(),
        |k: int| OpenSpan { kind: stack[k].kind, before: nodes_view(stack[k].nodes@) },
    )
}

fn delim_opened(t: &Token) -> (r: Option<Delim>)
    ensures
        r == opener(t@),
{
    match t {
        Token::OpenCurly => Some(Delim::Curly),
        Token::OpenBracket => Some(Delim::Round),
        Token::OpenSquare => Some(Delim::Square),
        _ => None,
    }
}

fn delim_closed(t: &Token) -> (r: Option<Delim>)
    ensures
        r == closer(t@),
{
    match t {
        Token::CloseCurly => Some(Delim::Curly),
        Token::CloseBracket => Some(Delim::Round),
        Token::CloseSquare => Some(Delim::Square),
        _ => None,
    }
}

fn opening(d: Delim) -> (r: Token)
    ensures
        r@ == open_token(d),
{
    match d {
        Delim::Curly => Token::OpenCurly,
        Delim::Round => Token::OpenBracket,
        Delim::Square => Token::OpenSquare,
    }
}

fn enclosed(d: Delim, inner: Vec<Node>) -> (r: Node)
    ensures
        r@ == enclose(d, nodes_view(inner@)),
{
    let r = match d {
        Delim::Curly => Node::Block(inner),
        Delim::Round => Node::Group(inner),
        Delim::Square => Node::Array(inner),
    };
    proof {
        lemma_node_view(r);
    }
    r
}

/// Groups a flat sequence of tokens by its delimiters: what stands between
/// `{` and `}` becomes a block, between `(` and `)` a group, between `[` and
/// `]` an array, at every depth. Every other token becomes a leaf.
///
/// The result is the tree that [`grouping`] describes. On balanced input it
/// holds exactly the given tokens: reading its leaves back in order gives the
/// input again. On other input the first fault in the delimiters is
/// reported: a closing delimiter that does not match the innermost open one,
/// or the innermost delimiter that is still open at the end.
pub fn parse(tokens: Vec<Token>) -> (r: Result<Vec<Node>, Error>)
    ensures
        match grouping(tokens_view(tokens@)) {
            Ok(tree) => r is Ok && nodes_view(r->Ok_0@) == tree,
            Err(e) => r is Err && r->Err_0@ == e,
        },
        match delimiter_error(tokens_view(tokens@), 0, Seq::empty()) {
            Some(e) => r is Err && r->Err_0@ == e,
            None => r is Ok && leaves_of(nodes_view(r->Ok_0@)) == tokens_view(tokens@)
                && grouped_all(nodes_view(r->Ok_0@)),
        },
{
    let ghost all = tokens_view(tokens@);
    let mut stack: Vec<Frame> = Vec::new();
    let mut current: Vec<Node> = Vec::new();
    let mut i: usize = 0;
    assert(spans(stack@) =~= Seq::<OpenSpan>::empty());
    assert(nodes_view(current@) =~= Seq::<NodeView>::empty());
    while i < tokens.len()
        invariant
            i <= tokens.len(),
            all == tokens_view(tokens@),
            grouping(all) == group_from(all, i as int, spans(stack@), nodes_view(current@)),
        decreases tokens.len() - i,
    {
        let t = &tokens[i];
        assert(all[i as int] == t@);
        match delim_opened(t) {
            Some(d) => {
                let ghost before = spans(stack@);
                let ghost inner = nodes_view(current@);
                stack.push(Frame { kind: d, nodes: current });
                current = Vec::new();
                proof {
                    assert(spans(stack@) =~= before.push(OpenSpan { kind: d, before: inner }));
                    assert(nodes_view(current@) =~= Seq::<NodeView>::empty());
                }
            },
            None => match delim_closed(t) {
                Some(d) => {
                    let ghost before = spans(stack@);
                    let ghost inner = nodes_view(current@);
                    match stack.pop() {
                        Some(frame) => {
                            assert(before.last().kind == frame.kind);
                            assert(before.last().before == nodes_view(frame.nodes@));
                            if frame.kind != d {
                                proof {
                                    lemma_grouping_round_trip(all);
                                }
                                return Err(Error::UnexpectedToken(Some(t.copy())));
                            }
                            let node = enclosed(d, current);
                            let ghost parent = nodes_view(frame.nodes@);
                            current = frame.nodes;
                            current.push(node);
                            proof {
                                assert(spans(stack@) =~= before.drop_last());
                                assert(nodes_view(current@) =~= parent.push(node@));
                            }
                        },
                        None => {
                            proof {
                                lemma_grouping_round_trip(all);
                            }
                            return Err(Error::UnexpectedToken(Some(t.copy())));
                        },
                    }
                },
                None => {
                    let ghost inner = nodes_view(current@);
                    let node = Node::Term(t.copy());
                    current.push(node);
                    proof {
                        assert(nodes_view(current@) =~= inner.push(node@));
                    }
                },
            },
        }
        i += 1;
    }
    proof {
        lemma_grouping_round_trip(all);
    }
    if stack.len() > 0 {
        let top = &stack[stack.len() - 1];
        assert(spans(stack@).last().kind == top.kind);
        return Err(Error::UnclosedDelim(opening(top.kind)));
    }
    Ok(current)
}

/// The nodes found so far, followed by what the rest of the input gives.
pub open spec fn then_nodes(
    found: Seq<NodeView>,
    rest: Result<Seq<NodeView>, ErrorView>,
) -> Result<Seq<NodeView>, ErrorView> {
    match rest {
        Ok(more) => Ok(found + more),
        Err(e) => Err(e),
    }
}

/// A name directly followed by a group stands at position `i`.
pub open spec fn call_site(nodes: Seq<NodeView>, i: int) -> bool {
    &&& 0 <= i
    &&& i + 1 < nodes.len()
    &&& nodes[i] is Term
    &&& nodes[i]->Term_0 is Ident
    &&& nodes[i + 1] is Group
}

/// A name stands at position `i`.
pub open spec fn name_at(nodes: Seq<NodeView>, i: int) -> bool {
    &&& 0 <= i < nodes.len()
    &&& nodes[i] is Term
    &&& nodes[i]->Term_0 is Ident
}

/// The node at position `i`, or `None` past the end.
pub open spec fn node_at(nodes: Seq<NodeView>, i: int) -> Option<NodeView> {
    if 0 <= i < nodes.len() {
        Some(nodes[i])
    } else {
        None
    }
}

/// The nodes from position `i` on with their call sites folded. A name
/// directly followed by a group becomes a call whose arguments are the
/// folded content of the group; if an arrow assigner follows, the name after
/// it is the target of the call, and anything else there is unexpected.
/// Statement terminators are dropped. Arrays, groups and blocks are folded
/// inside.
pub open spec fn fold_from(nodes: Seq<NodeView>, i: int) -> Result<Seq<NodeView>, ErrorView>
    decreases nodes, nodes.len() - i,
{
    if i < 0 || i >= nodes.len() {
        Ok(Seq::empty())
    } else if call_site(nodes, i) {
        match fold_from(nodes[i + 1]->Group_0, 0) {
            Err(e) => Err(e),
            Ok(args) => {
                let name = nodes[i]->Term_0->Ident_0;
                if i + 2 < nodes.len() && nodes[i + 2] == NodeView::Term(
                    TokenView::ArrowAssigner,
                ) {
                    if name_at(nodes, i + 3) {
                        then_nodes(
                            seq![
                                NodeView::CallExpr {
                                    name,
                                    args,
                                    assign_to: Some(nodes[i + 3]->Term_0->Ident_0),
                                },
                            ],
                            fold_from(nodes, i + 4),
                        )
                    } else {
                        Err(ErrorView::UnexpectedNode(node_at(nodes, i + 3)))
                    }
                } else {
                    then_nodes(
                        seq![NodeView::CallExpr { name, args, assign_to: None }],
                        fold_from(nodes, i + 2),
                    )
                }
            },
        }
    } else if nodes[i] == NodeView::Term(TokenView::EndLine) {
        fold_from(nodes, i + 1)
    } else {
        match fold_node(nodes[i]) {
            Err(e) => Err(e),
            Ok(n) => then_nodes(seq![n], fold_from(nodes, i + 1)),
        }
    }
}

/// A node with the call sites inside it folded.
pub open spec fn fold_node(n: NodeView) -> Result<NodeView, ErrorView>
    decreases n, 0nat,
{
    match n {
        NodeView::Array(v) => match fold_from(v, 0) {
            Ok(w) => Ok(NodeView::Array(w)),
            Err(e) => Err(e),
        },
        NodeView::Group(v) => match fold_from(v, 0) {
            Ok(w) => Ok(NodeView::Group(w)),
            Err(e) => Err(e),
        },
        NodeView::Block(v) => match fold_from(v, 0) {
            Ok(w) => Ok(NodeView::Block(w)),
            Err(e) => Err(e),
        },
        other => Ok(other),
    }
}

/// A sequence of nodes with its call sites folded, at every depth.
pub open spec fn fold_calls(nodes: Seq<NodeView>) -> Result<Seq<NodeView>, ErrorView> {
    fold_from(nodes, 0)
}

/// The name and the arguments of the call site at position `i`, if one
/// stands there.
fn call_site_at(v: &Vec<Node>, i: usize) -> (r: Option<(&String, &Vec<Node>)>)
    requires
        i < v.len(),
    ensures
        r is Some == call_site(nodes_view(v@), i as int),
        match r {
            Some((name, args)) => v@[i as int]@ == NodeView::Term(TokenView::Ident(name@))
                && v@[i + 1]@ == NodeView::Group(nodes_view(args@)),
            None => true,
        },
{
    proof {
        lemma_node_view(v@[i as int]);
    }
    assert(nodes_view(v@)[i as int] == v@[i as int]@);
    if i + 1 >= v.len() {
        return None;
    }
    proof {
        lemma_node_view(v@[i + 1]);
    }
    assert(nodes_view(v@)[i + 1] == v@[i + 1]@);
    match &v[i] {
        Node::Term(Token::Ident(name)) => match &v[i + 1] {
            Node::Group(args) => Some((name, args)),
            _ => None,
        },
        _ => None,
    }
}

/// The name at position `i`, if one stands there.
fn name_found(v: &Vec<Node>, i: usize) -> (r: Option<&String>)
    ensures
        r is Some == name_at(nodes_view(v@), i as int),
        match r {
            Some(name) => v@[i as int]@ == NodeView::Term(TokenView::Ident(name@)),
            None => true,
        },
{
    if i >= v.len() {
        return None;
    }
    assert(nodes_view(v@)[i as int] == v@[i as int]@);
    match &v[i] {
        Node::Term(Token::Ident(name)) => Some(name),
        _ => None,
    }
}

/// A copy of the node at position `i`, or `None` past the end.
fn found_at(v: &Vec<Node>, i: usize) -> (r: Option<Node>)
    ensures
        match (node_at(nodes_view(v@), i as int), r) {
            (Some(n), Some(m)) => m@ == n,
            (None, None) => true,
            _ => false,
        },
{
    if i < v.len() {
        assert(nodes_view(v@)[i as int] == v@[i as int]@);
        Some(v[i].copy())
    } else {
        None
    }
}

fn is_term(n: &Node, t: &Token) -> (r: bool)
    ensures
        r == (n@ == NodeView::Term(t@)),
{
    match n {
        Node::Term(found) => found.same(t),
        _ => {
            proof {
                lemma_node_view(*n);
            }
            false
        },
    }
}

fn fold_list(v: &Vec<Node>, Ghost(parent): Ghost<NodeView>) -> (r: Result<Vec<Node>, Error>)
    requires
        has_children(parent, nodes_view(v@)),
    ensures
        match fold_from(nodes_view(v@), 0) {
            Ok(w) => r is Ok && nodes_view(r->Ok_0@) == w,
            Err(e) => r is Err && r->Err_0@ == e,
        },
    decreases parent, 0nat,
{
    let ghost all = nodes_view(v@);
    let mut out: Vec<Node> = Vec::new();
    let mut i: usize = 0;
    proof {
        assert(nodes_view(out@) =~= Seq::<NodeView>::empty());
        match fold_from(all, 0) {
            Ok(more) => {
                assert(nodes_view(out@) + more =~= more);
            },
            Err(e) => {},
        }
    }
    while i < v.len()
        invariant
            i <= v.len(),
            all == nodes_view(v@),
            has_children(parent, all),
            fold_from(all, 0) == then_nodes(nodes_view(out@), fold_from(all, i as int)),
        decreases v.len() - i,
    {
        assert(all[i as int] == v@[i as int]@);
        let ghost before = nodes_view(out@);
        match call_site_at(v, i) {
            Some((name, inner)) => {
                assert(all[i + 1] == v@[i + 1]@);
                let args = match fold_list(inner, Ghost(v@[i + 1]@)) {
                    Ok(args) => args,
                    Err(e) => {
                        return Err(e);
                    },
                };
                let mut target: Option<String> = None;
                let mut next: usize = i + 2;
                if i + 2 < v.len() && is_term(&v[i + 2], &Token::ArrowAssigner) {
                    assert(all[i + 2] == v@[i + 2]@);
                    match name_found(v, i + 3) {
                        Some(name) => {
                            target = Some(name.clone());
                            next = i + 4;
                        },
                        None => {
                            return Err(Error::UnexpectedNode(found_at(v, i + 3)));
                        },
                    }
                } else {
                    if i + 2 < v.len() {
                        assert(all[i + 2] == v@[i + 2]@);
                    }
                }
                let node = Node::CallExpr { name: name.clone(), args: args, assign_to: target };
                proof {
                    lemma_node_view(node);
                }
                out.push(node);
                proof {
                    assert(nodes_view(out@) =~= before.push(node@));
                    match fold_from(all, next as int) {
                        Ok(more) => {
                            assert(before + (seq![node@] + more) =~= nodes_view(out@) + more);
                        },
                        Err(e) => {},
                    }
                }
                i = next;
            },
            None => {
                if is_term(&v[i], &Token::EndLine) {
                    i += 1;
                } else {
                    let node = match fold_one(&v[i]) {
                        Ok(node) => node,
                        Err(e) => {
                            return Err(e);
                        },
                    };
                    out.push(node);
                    proof {
                        assert(nodes_view(out@) =~= before.push(node@));
                        match fold_from(all, i + 1) {
                            Ok(more) => {
                                assert(before + (seq![node@] + more) =~= nodes_view(out@) + more);
                            },
                            Err(e) => {},
                        }
                    }
                    i += 1;
                }
            },
        }
    }
    assert(nodes_view(out@) + Seq::<NodeView>::empty() =~= nodes_view(out@));
    Ok(out)
}

fn fold_one(n: &Node) -> (r: Result<Node, Error>)
    ensures
        match fold_node(n@) {
            Ok(m) => r is Ok && r->Ok_0@ == m,
            Err(e) => r is Err && r->Err_0@ == e,
        },
    decreases n@, 1nat,
{
    proof {
        lemma_node_view(*n);
    }
    match n {
        Node::Array(v) => match fold_list(v, Ghost(n@)) {
            Ok(w) => {
                let r = Node::Array(w);
                proof {
                    lemma_node_view(r);
                }
                Ok(r)
            },
            Err(e) => Err(e),
        },
        Node::Group(v) => match fold_list(v, Ghost(n@)) {
            Ok(w) => {
                let r = Node::Group(w);
                proof {
                    lemma_node_view(r);
                }
                Ok(r)
            },
            Err(e) => Err(e),
        },
        Node::Block(v) => match fold_list(v, Ghost(n@)) {
            Ok(w) => {
                let r = Node::Block(w);
                proof {
                    lemma_node_view(r);
                }
                Ok(r)
            },
            Err(e) => Err(e),
        },
        other => Ok(other.copy()),
    }
}

/// Folds the call sites of a sequence of nodes, at every depth: a name
/// directly followed by a group becomes a call node, with the name after a
/// following arrow assigner as its target. Statement terminators are
/// dropped.
pub fn make_fn_call(nodes: Vec<Node>) -> (r: Result<Vec<Node>, Error>)
    ensures
        match fold_calls(nodes_view(nodes@)) {
            Ok(w) => r is Ok && nodes_view(r->Ok_0@) == w,
            Err(e) => r is Err && r->Err_0@ == e,
        },
{
    fold_list(&nodes, Ghost(NodeView::Block(nodes_view(nodes@))))
}

/// The node that stands for "an identifier" in a message about a wrong
/// parameter.
pub open spec fn identifier_example() -> NodeView {
    NodeView::Term(TokenView::Ident("identifier"@))
}

/// The first node from position `k` on that is no name.
pub open spec fn first_other(params: Seq<NodeView>, k: int) -> Option<NodeView>
    decreases params.len() - k,
{
    if k < 0 || k >= params.len() {
        None
    } else if name_at(params, k) {
        first_other(params, k + 1)
    } else {
        Some(params[k])
    }
}

/// The function declarations found from position `i` on. After each
/// declaration marker must come a name, a group of names and a block. A
/// group that holds anything but names is a type mismatch; a missing part
/// makes the marker unexpected. The body is stored with its call sites
/// folded. Whatever stands outside declarations is passed over.
pub open spec fn functions_from(nodes: Seq<NodeView>, i: int) -> Result<Seq<NodeView>, ErrorView>
    decreases nodes.len() - i,
{
    if i < 0 || i >= nodes.len() {
        Ok(Seq::empty())
    } else if nodes[i] != NodeView::Term(TokenView::FunctionDecl) {
        functions_from(nodes, i + 1)
    } else if i + 2 < nodes.len() && nodes[i + 2] is Group && first_other(
        nodes[i + 2]->Group_0,
        0,
    ) is Some {
        Err(
            ErrorView::TypeMismatch(
                identifier_example(),
                first_other(nodes[i + 2]->Group_0, 0),
            ),
        )
    } else if !(name_at(nodes, i + 1) && i + 3 < nodes.len() && nodes[i + 2] is Group && nodes[i
        + 3] is Block) {
        Err(ErrorView::UnexpectedToken(Some(TokenView::FunctionDecl)))
    } else {
        match fold_from(nodes[i + 3]->Block_0, 0) {
            Err(e) => Err(e),
            Ok(body) => then_nodes(
                seq![
                    NodeView::FunctionDecl {
                        name: nodes[i + 1]->Term_0->Ident_0,
                        args: nodes[i + 2]->Group_0,
                        nodes: body,
                    },
                ],
                functions_from(nodes, i + 4),
            ),
        }
    }
}

/// The function declarations of a sequence of top-level nodes.
pub open spec fn functions(nodes: Seq<NodeView>) -> Result<Seq<NodeView>, ErrorView> {
    functions_from(nodes, 0)
}

/// The first node that is no name, copied.
pub(crate) fn find_other(params: &Vec<Node>) -> (r: Option<Node>)
    ensures
        match (first_other(nodes_view(params@), 0), r) {
            (Some(n), Some(m)) => m@ == n,
            (None, None) => true,
            _ => false,
        },
{
    let ghost all = nodes_view(params@);
    let mut k: usize = 0;
    while k < params.len()
        invariant
            k <= params.len(),
            all == nodes_view(params@),
            first_other(all, 0) == first_other(all, k as int),
        decreases params.len() - k,
    {
        assert(all[k as int] == params@[k as int]@);
        match name_found(params, k) {
            Some(_) => {},
            None => {
                return Some(params[k].copy());
            },
        }
        k += 1;
    }
    None
}

/// The content of the group at position `i`, if one stands there.
fn group_at(v: &Vec<Node>, i: usize) -> (r: Option<&Vec<Node>>)
    ensures
        r is Some == (i < v.len() && nodes_view(v@)[i as int] is Group),
        match r {
            Some(inner) => v@[i as int]@ == NodeView::Group(nodes_view(inner@)),
            None => true,
        },
{
    if i >= v.len() {
        return None;
    }
    proof {
        lemma_node_view(v@[i as int]);
    }
    assert(nodes_view(v@)[i as int] == v@[i as int]@);
    match &v[i] {
        Node::Group(inner) => Some(inner),
        _ => None,
    }
}

/// The content of the block at position `i`, if one stands there.
fn block_at(v: &Vec<Node>, i: usize) -> (r: Option<&Vec<Node>>)
    ensures
        r is Some == (i < v.len() && nodes_view(v@)[i as int] is Block),
        match r {
            Some(inner) => v@[i as int]@ == NodeView::Block(nodes_view(inner@)),
            None => true,
        },
{
    if i >= v.len() {
        return None;
    }
    proof {
        lemma_node_view(v@[i as int]);
    }
    assert(nodes_view(v@)[i as int] == v@[i as int]@);
    match &v[i] {
        Node::Block(inner) => Some(inner),
        _ => None,
    }
}

/// Picks the function declarations out of a sequence of top-level nodes.
///
/// After each declaration marker must come, in this order, a name, a group
/// that holds only names (the parameters) and a block (the body). The body is
/// stored with its call sites folded. Nodes outside declarations are passed
/// over.
pub fn make_fn(nodes: Vec<Node>) -> (r: Result<Vec<Node>, Error>)
    ensures
        match functions(nodes_view(nodes@)) {
            Ok(w) => r is Ok && nodes_view(r->Ok_0@) == w,
            Err(e) => r is Err && r->Err_0@ == e,
        },
{
    let ghost all = nodes_view(nodes@);
    let mut out: Vec<Node> = Vec::new();
    let mut i: usize = 0;
    proof {
        assert(nodes_view(out@) =~= Seq::<NodeView>::empty());
        match functions_from(all, 0) {
            Ok(more) => {
                assert(nodes_view(out@) + more =~= more);
            },
            Err(e) => {},
        }
    }
    while i < nodes.len()
        invariant
            i <= nodes.len(),
            all == nodes_view(nodes@),
            functions_from(all, 0) == then_nodes(nodes_view(out@), functions_from(all, i as int)),
        decreases nodes.len() - i,
    {
        assert(all[i as int] == nodes@[i as int]@);
        if !is_term(&nodes[i], &Token::FunctionDecl) {
            i += 1;
            continue ;
        }
        let left: usize = nodes.len() - i;
        let params = if left > 2 {
            group_at(&nodes, i + 2)
        } else {
            None
        };
        match params {
            Some(inner) => match find_other(inner) {
                Some(other) => {
                    let expected = Node::Term(Token::Ident(String::from_str("identifier")));
                    return Err(Error::TypeMismatch(expected, Some(other)));
                },
                None => {},
            },
            None => {},
        }
        let name = if left > 1 {
            name_found(&nodes, i + 1)
        } else {
            None
        };
        let body = if left > 3 {
            block_at(&nodes, i + 3)
        } else {
            None
        };
        match (name, params, body) {
            (Some(name), Some(params), Some(body)) => {
                let folded = match fold_list(body, Ghost(nodes@[i + 3]@)) {
                    Ok(folded) => folded,
                    Err(e) => {
                        return Err(e);
                    },
                };
                let node = Node::FunctionDecl {
                    name: name.clone(),
                    args: copy_nodes(params),
                    nodes: folded,
                };
                proof {
                    lemma_node_view(node);
                }
                let ghost before = nodes_view(out@);
                out.push(node);
                proof {
                    assert(nodes_view(out@) =~= before.push(node@));
                    match functions_from(all, i + 4) {
                        Ok(more) => {
                            assert(before + (seq![node@] + more) =~= nodes_view(out@) + more);
                        },
                        Err(e) => {},
                    }
                }
                i += 4;
            },
            _ => {
                return Err(Error::UnexpectedToken(Some(Token::FunctionDecl)));
            },
        }
    }
    assert(nodes_view(out@) + Seq::<NodeView>::empty() =~= nodes_view(out@));
    Ok(out)
}

fn closing(d: Delim) -> (r: Token)
    ensures
        r@ == close_token(d),
{
    match d {
        Delim::Curly => Token::CloseCurly,
        Delim::Round => Token::CloseBracket,
        Delim::Square => Token::CloseSquare,
    }
}

fn push_token(out: &mut Vec<Token>, t: Token)
    ensures
        tokens_view(final(out)@) == tokens_view(old(out)@) + seq![t@],
{
    out.push(t);
    assert(tokens_view(out@) =~= tokens_view(old(out)@) + seq![t@]);
}

fn push_leaves_of(out: &mut Vec<Token>, v: &Vec<Node>, Ghost(parent): Ghost<NodeView>)
    requires
        has_children(parent, nodes_view(v@)),
    ensures
        tokens_view(final(out)@) == tokens_view(old(out)@) + leaves_of(nodes_view(v@)),
    decreases parent, 0nat,
{
    let ghost all = nodes_view(v@);
    let mut i: usize = 0;
    assert(all.subrange(0, 0) =~= Seq::<NodeView>::empty());
    assert(tokens_view(out@) =~= tokens_view(old(out)@) + leaves_of(all.subrange(0, 0)));
    while i < v.len()
        invariant
            i <= v.len(),
            all == nodes_view(v@),
            has_children(parent, all),
            tokens_view(out@) == tokens_view(old(out)@) + leaves_of(all.subrange(0, i as int)),
        decreases v.len() - i,
    {
        assert(all[i as int] == v@[i as int]@);
        let ghost prefix = all.subrange(0, i + 1);
        assert(prefix.drop_last() =~= all.subrange(0, i as int));
        assert(prefix.last() == all[i as int]);
        let ghost before = tokens_view(out@);
        push_leaves(out, &v[i]);
        i += 1;
        assert(tokens_view(out@) =~= tokens_view(old(out)@) + leaves_of(
            all.subrange(0, i as int),
        ));
    }
    assert(all.subrange(0, i as int) =~= all);
}

fn push_leaves(out: &mut Vec<Token>, n: &Node)
    ensures
        tokens_view(final(out)@) == tokens_view(old(out)@) + leaves(n@),
    decreases n@, 1nat,
{
    proof {
        lemma_node_view(*n);
    }
    let ghost start = tokens_view(out@);
    match n {
        Node::Term(t) => {
            push_token(out, t.copy());
        },
        Node::Array(v) => {
            push_token(out, Token::OpenSquare);
            push_leaves_of(out, v, Ghost(n@));
            push_token(out, Token::CloseSquare);
            assert(tokens_view(out@) =~= start + leaves(n@));
        },
        Node::Group(v) => {
            push_token(out, Token::OpenBracket);
            push_leaves_of(out, v, Ghost(n@));
            push_token(out, Token::CloseBracket);
            assert(tokens_view(out@) =~= start + leaves(n@));
        },
        Node::Block(v) => {
            push_token(out, Token::OpenCurly);
            push_leaves_of(out, v, Ghost(n@));
            push_token(out, Token::CloseCurly);
            assert(tokens_view(out@) =~= start + leaves(n@));
        },
        Node::CallExpr { name, args, assign_to } => {
            push_token(out, Token::Ident(name.clone()));
            push_token(out, Token::OpenBracket);
            push_leaves_of(out, args, Ghost(n@));
            push_token(out, Token::CloseBracket);
            match assign_to {
                Some(target) => {
                    push_token(out, Token::ArrowAssigner);
                    push_token(out, Token::Ident(target.clone()));
                },
                None => {},
            }
            assert(tokens_view(out@) =~= start + leaves(n@));
        },
        Node::FunctionDecl { name, args, nodes } => {
            push_token(out, Token::FunctionDecl);
            push_token(out, Token::Ident(name.clone()));
            push_token(out, Token::OpenBracket);
            push_leaves_of(out, args, Ghost(n@));
            push_token(out, Token::CloseBracket);
            push_token(out, Token::OpenCurly);
            push_leaves_of(out, nodes, Ghost(n@));
            push_token(out, Token::CloseCurly);
            assert(tokens_view(out@) =~= start + leaves(n@));
        },
    }
}

/// The tokens that a sequence of nodes was built from, in order: the leaves
/// of the tree, with the delimiters of every span put back.
pub fn leaf_tokens(nodes: &Vec<Node>) -> (r: Vec<Token>)
    ensures
        tokens_view(r@) == leaves_of(nodes_view(nodes@)),
{
    let mut out: Vec<Token> = Vec::new();
    assert(tokens_view(out@) =~= Seq::<TokenView>::empty());
    push_leaves_of(&mut out, nodes, Ghost(NodeView::Block(nodes_view(nodes@))));
    assert(tokens_view(out@) =~= leaves_of(nodes_view(nodes@)));
    out
}

} // verus!
