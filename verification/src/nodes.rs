//! The nodes of the syntax tree.

use crate::data_types::{Variable, VariableView};
use crate::errors::{Error, ErrorView};
use crate::tokens::{token_words, Token, TokenView};
use vstd::prelude::*;
use vstd::string::StringExecFns;

verus! {

/// A node of the syntax tree.
#[derive(Debug, PartialEq, Eq)]
pub enum Node {
    /// A single token.
    Term(Token),
    /// What stands between `[` and `]`.
    Array(Vec<Node>),
    /// What stands between `(` and `)`.
    Group(Vec<Node>),
    /// What stands between `{` and `}`.
    Block(Vec<Node>),
    /// A call such as `print("Hello world!")`, with the name that the result
    /// is assigned to, if any.
    CallExpr { name: String, args: Vec<Node>, assign_to: Option<String> },
    /// A function declaration: its name, its parameters and its body.
    FunctionDecl { name: String, args: Vec<Node>, nodes: Vec<Node> },
}

/// The mathematical content of a [`Node`].
pub enum NodeView {
    Term(TokenView),
    Array(Seq<NodeView>),
    Group(Seq<NodeView>),
    Block(Seq<NodeView>),
    CallExpr { name: Seq<char>, args: Seq<NodeView>, assign_to: Option<Seq<char>> },
    FunctionDecl { name: Seq<char>, args: Seq<NodeView>, nodes: Seq<NodeView> },
}

/// The view of an optional string.
pub open spec fn opt_view(s: Option<String>) -> Option<Seq<char>> {
    match s {
        Some(s) => Some(s@),
        None => None,
    }
}

impl View for Node {
    type V = NodeView;

    open spec fn view(&self) -> NodeView
        decreases self,
    {
        match self {
            Node::Term(t) => NodeView::Term(t@),
            Node::Array(v) => NodeView::Array(
                Seq::new(
                    v@.len(),
                    |i: int|
                        if 0 <= i < v@.len() {
                            v@[i]@
                        } else {
                            arbitrary()
                        },
                ),
            ),
            Node::Group(v) => NodeView::Group(
                Seq::new(
                    v@.len(),
                    |i: int|
                        if 0 <= i < v@.len() {
                            v@[i]@
                        } else {
                            arbitrary()
                        },
                ),
            ),
            Node::Block(v) => NodeView::Block(
                Seq::new(
                    v@.len(),
                    |i: int|
                        if 0 <= i < v@.len() {
                            v@[i]@
                        } else {
                            arbitrary()
                        },
                ),
            ),
            Node::CallExpr { name, args, assign_to } => NodeView::CallExpr {
                name: name@,
                args: Seq::new(
                    args@.len(),
                    |i: int|
                        if 0 <= i < args@.len() {
                            args@[i]@
                        } else {
                            arbitrary()
                        },
                ),
                assign_to: opt_view(*assign_to),
            },
            Node::FunctionDecl { name, args, nodes } => NodeView::FunctionDecl {
                name: name@,
                args: Seq::new(
                    args@.len(),
                    |i: int|
                        if 0 <= i < args@.len() {
                            args@[i]@
                        } else {
                            arbitrary()
                        },
                ),
                nodes: Seq::new(
                    nodes@.len(),
                    |i: int|
                        if 0 <= i < nodes@.len() {
                            nodes@[i]@
                        } else {
                            arbitrary()
                        },
                ),
            },
        }
    }
}

/// The views of a sequence of nodes, in order.
pub open spec fn nodes_view(s: Seq<Node>) -> Seq<NodeView> {
    Seq::new(s.len(), |i: int| s[i]@)
}

/// The view of a node, written with [`nodes_view`].
pub proof fn lemma_node_view(n: Node)
    ensures
        n@ == match n {
            Node::Term(t) => NodeView::Term(t@),
            Node::Array(v) => NodeView::Array(nodes_view(v@)),
            Node::Group(v) => NodeView::Group(nodes_view(v@)),
            Node::Block(v) => NodeView::Block(nodes_view(v@)),
            Node::CallExpr { name, args, assign_to } => NodeView::CallExpr {
                name: name@,
                args: nodes_view(args@),
                assign_to: opt_view(assign_to),
            },
            Node::FunctionDecl { name, args, nodes } => NodeView::FunctionDecl {
                name: name@,
                args: nodes_view(args@),
                nodes: nodes_view(nodes@),
            },
        },
{
    reveal_with_fuel(<Node as View>::view, 2);
    match n {
        Node::Term(t) => {},
        Node::Array(v) => {
            assert(n@->Array_0 =~= nodes_view(v@));
        },
        Node::Group(v) => {
            assert(n@->Group_0 =~= nodes_view(v@));
        },
        Node::Block(v) => {
            assert(n@->Block_0 =~= nodes_view(v@));
        },
        Node::CallExpr { name, args, assign_to } => {
            assert(n@->CallExpr_args =~= nodes_view(args@));
        },
        Node::FunctionDecl { name, args, nodes } => {
            assert(n@->FunctionDecl_args =~= nodes_view(args@));
            assert(n@->FunctionDecl_nodes =~= nodes_view(nodes@));
        },
    }
}

/// How a node is named in a message.
pub open spec fn node_words(n: NodeView) -> Seq<char> {
    match n {
        NodeView::Term(t) => token_words(t),
        NodeView::Array(_) => "an array"@,
        NodeView::Group(_) => "a group"@,
        NodeView::Block(_) => "a codeblock"@,
        NodeView::CallExpr { .. } => "a call expression"@,
        NodeView::FunctionDecl { .. } => "a function declaration"@,
    }
}

/// The value that a literal node denotes. A string or a number denotes
/// itself, an array literal denotes the array of what its elements denote,
/// and any other node is refused as unexpected. In an array the leftmost
/// element that is refused decides the error.
pub open spec fn node_value(n: NodeView) -> Result<VariableView, ErrorView>
    decreases n,
{
    match n {
        NodeView::Term(TokenView::Str(s)) => Ok(VariableView::Str(s)),
        NodeView::Term(TokenView::Num(x)) => Ok(VariableView::Num(x)),
        NodeView::Array(items) => match node_values(items) {
            Ok(vs) => Ok(VariableView::Array(vs)),
            Err(e) => Err(e),
        },
        other => Err(ErrorView::UnexpectedNode(Some(other))),
    }
}

/// The values that a sequence of literal nodes denotes, or the error of the
/// leftmost node that denotes none.
pub open spec fn node_values(items: Seq<NodeView>) -> Result<Seq<VariableView>, ErrorView>
    decreases items,
{
    if items.len() == 0 {
        Ok(Seq::empty())
    } else {
        match node_values(items.drop_last()) {
            Ok(vs) => match node_value(items.last()) {
                Ok(v) => Ok(vs.push(v)),
                Err(e) => Err(e),
            },
            Err(e) => Err(e),
        }
    }
}

/// `items` is one of the sequences of nodes that `parent` holds.
pub open spec fn has_children(parent: NodeView, items: Seq<NodeView>) -> bool {
    match parent {
        NodeView::Term(_) => false,
        NodeView::Array(v) => v == items,
        NodeView::Group(v) => v == items,
        NodeView::Block(v) => v == items,
        NodeView::CallExpr { args, .. } => args == items,
        NodeView::FunctionDecl { args, nodes, .. } => args == items || nodes == items,
    }
}

/// A copy of each node, in order.
pub fn copy_nodes(v: &Vec<Node>) -> (r: Vec<Node>)
    ensures
        nodes_view(r@) == nodes_view(v@),
{
    copy_within(v, Ghost(NodeView::Block(nodes_view(v@))))
}

/// Whether two sequences of nodes are the same.
pub fn same_nodes(a: &Vec<Node>, b: &Vec<Node>) -> (r: bool)
    ensures
        r == (nodes_view(a@) == nodes_view(b@)),
{
    same_within(a, b, Ghost(NodeView::Block(nodes_view(a@))))
}

/// The values of a sequence of literal nodes.
pub fn values_of(v: &Vec<Node>) -> (r: Result<Vec<Variable>, Error>)
    ensures
        match node_values(nodes_view(v@)) {
            Ok(vs) => r is Ok && crate::data_types::variables_view(r->Ok_0@) == vs,
            Err(e) => r is Err && r->Err_0@ == e,
        },
{
    values_within(v, Ghost(NodeView::Block(nodes_view(v@))))
}

fn copy_within(v: &Vec<Node>, Ghost(parent): Ghost<NodeView>) -> (r: Vec<Node>)
    requires
        has_children(parent, nodes_view(v@)),
    ensures
        nodes_view(r@) == nodes_view(v@),
    decreases parent, 0nat,
{
    let mut out: Vec<Node> = Vec::new();
    let mut i: usize = 0;
    while i < v.len()
        invariant
            i <= v.len(),
            out@.len() == i,
            has_children(parent, nodes_view(v@)),
            forall|j: int| 0 <= j < i ==> out@[j]@ == v@[j]@,
        decreases v.len() - i,
    {
        assert(nodes_view(v@)[i as int] == v@[i as int]@);
        let c = v[i].copy();
        out.push(c);
        i += 1;
    }
    assert(nodes_view(out@) =~= nodes_view(v@));
    out
}

fn same_within(a: &Vec<Node>, b: &Vec<Node>, Ghost(parent): Ghost<NodeView>) -> (r: bool)
    requires
        has_children(parent, nodes_view(a@)),
    ensures
        r == (nodes_view(a@) == nodes_view(b@)),
    decreases parent, 0nat,
{
    if a.len() != b.len() {
        assert(nodes_view(a@).len() != nodes_view(b@).len());
        return false;
    }
    let mut i: usize = 0;
    while i < a.len()
        invariant
            i <= a.len(),
            a.len() == b.len(),
            has_children(parent, nodes_view(a@)),
            forall|j: int| 0 <= j < i ==> a@[j]@ == b@[j]@,
        decreases a.len() - i,
    {
        assert(nodes_view(a@)[i as int] == a@[i as int]@);
        assert(nodes_view(b@)[i as int] == b@[i as int]@);
        if !a[i].same(&b[i]) {
            return false;
        }
        i += 1;
    }
    assert(nodes_view(a@) =~= nodes_view(b@));
    true
}

fn copy_name(s: &Option<String>) -> (r: Option<String>)
    ensures
        opt_view(r) == opt_view(*s),
{
    match s {
        Some(s) => Some(s.clone()),
        None => None,
    }
}

fn same_name(a: &Option<String>, b: &Option<String>) -> (r: bool)
    ensures
        r == (opt_view(*a) == opt_view(*b)),
{
    match (a, b) {
        (Some(x), Some(y)) => *x == *y,
        (None, None) => true,
        _ => false,
    }
}

fn values_within(v: &Vec<Node>, Ghost(parent): Ghost<NodeView>) -> (r: Result<Vec<Variable>, Error>)
    requires
        has_children(parent, nodes_view(v@)),
    ensures
        match node_values(nodes_view(v@)) {
            Ok(vs) => r is Ok && crate::data_types::variables_view(r->Ok_0@) == vs,
            Err(e) => r is Err && r->Err_0@ == e,
        },
    decreases parent, 0nat,
{
    let ghost all = nodes_view(v@);
    let mut out: Vec<Variable> = Vec::new();
    let mut i: usize = 0;
    assert(all.subrange(0, 0) =~= Seq::<NodeView>::empty());
    assert(crate::data_types::variables_view(out@) =~= Seq::<VariableView>::empty());
    while i < v.len()
        invariant
            i <= v.len(),
            all == nodes_view(v@),
            has_children(parent, all),
            node_values(all.subrange(0, i as int)) == Ok::<Seq<VariableView>, ErrorView>(
                crate::data_types::variables_view(out@),
            ),
        decreases v.len() - i,
    {
        assert(all[i as int] == v@[i as int]@);
        let ghost prefix = all.subrange(0, i + 1);
        assert(prefix.drop_last() =~= all.subrange(0, i as int));
        assert(prefix.last() == all[i as int]);
        match v[i].value() {
            Ok(x) => {
                let ghost before = crate::data_types::variables_view(out@);
                out.push(x);
                assert(crate::data_types::variables_view(out@) =~= before.push(x@));
            },
            Err(e) => {
                proof {
                    lemma_values_error(all, i as int + 1);
                }
                return Err(e);
            },
        }
        i += 1;
    }
    assert(all.subrange(0, i as int) =~= all);
    Ok(out)
}

/// Once a prefix of a sequence of nodes denotes no values, the whole
/// sequence fails with the same error.
pub proof fn lemma_values_error(items: Seq<NodeView>, k: int)
    requires
        0 <= k <= items.len(),
        node_values(items.subrange(0, k)) is Err,
    ensures
        node_values(items) == node_values(items.subrange(0, k)),
    decreases items.len() - k,
{
    if k == items.len() {
        assert(items.subrange(0, k) =~= items);
    } else {
        let next = items.subrange(0, k + 1);
        assert(next.drop_last() =~= items.subrange(0, k));
        lemma_values_error(items, k + 1);
    }
}

impl Clone for Node {
    fn clone(&self) -> (r: Node)
        ensures
            r@ == self@,
    {
        self.copy()
    }
}

impl Node {
    /// A copy of this node.
    pub fn copy(&self) -> (r: Node)
        ensures
            r@ == self@,
        decreases self@, 1nat,
    {
        proof {
            lemma_node_view(*self);
        }
        let r = match self {
            Node::Term(t) => Node::Term(t.copy()),
            Node::Array(v) => Node::Array(copy_within(v, Ghost(self@))),
            Node::Group(v) => Node::Group(copy_within(v, Ghost(self@))),
            Node::Block(v) => Node::Block(copy_within(v, Ghost(self@))),
            Node::CallExpr { name, args, assign_to } => Node::CallExpr {
                name: name.clone(),
                args: copy_within(args, Ghost(self@)),
                assign_to: copy_name(assign_to),
            },
            Node::FunctionDecl { name, args, nodes } => Node::FunctionDecl {
                name: name.clone(),
                args: copy_within(args, Ghost(self@)),
                nodes: copy_within(nodes, Ghost(self@)),
            },
        };
        proof {
            lemma_node_view(r);
        }
        r
    }

    /// Whether two nodes are the same.
    pub fn same(&self, other: &Node) -> (r: bool)
        ensures
            r == (self@ == other@),
        decreases self@, 1nat,
    {
        proof {
            lemma_node_view(*self);
            lemma_node_view(*other);
        }
        match (self, other) {
            (Node::Term(a), Node::Term(b)) => a.same(b),
            (Node::Array(a), Node::Array(b)) => same_within(a, b, Ghost(self@)),
            (Node::Group(a), Node::Group(b)) => same_within(a, b, Ghost(self@)),
            (Node::Block(a), Node::Block(b)) => same_within(a, b, Ghost(self@)),
            (
                Node::CallExpr { name: n1, args: a1, assign_to: t1 },
                Node::CallExpr { name: n2, args: a2, assign_to: t2 },
            ) => *n1 == *n2 && same_within(a1, a2, Ghost(self@)) && same_name(t1, t2),
            (
                Node::FunctionDecl { name: n1, args: a1, nodes: b1 },
                Node::FunctionDecl { name: n2, args: a2, nodes: b2 },
            ) => *n1 == *n2 && same_within(a1, a2, Ghost(self@)) && same_within(b1, b2, Ghost(self@)),
            _ => false,
        }
    }

    /// How the node is named in a message.
    pub fn as_words(&self) -> (r: String)
        ensures
            r@ == node_words(self@),
    {
        proof {
            lemma_node_view(*self);
        }
        match self {
            Node::Term(tok) => tok.as_words(),
            Node::Array(_) => String::from_str("an array"),
            Node::Group(_) => String::from_str("a group"),
            Node::Block(_) => String::from_str("a codeblock"),
            Node::CallExpr { .. } => String::from_str("a call expression"),
            Node::FunctionDecl { .. } => String::from_str("a function declaration"),
        }
    }

    /// The value of a literal node, read without consuming the node.
    pub fn value(&self) -> (r: Result<Variable, Error>)
        ensures
            match node_value(self@) {
                Ok(v) => r is Ok && r->Ok_0@ == v,
                Err(e) => r is Err && r->Err_0@ == e,
            },
        decreases self@, 1nat,
    {
        proof {
            lemma_node_view(*self);
        }
        match self {
            Node::Term(Token::Str(s)) => Ok(Variable::Str(s.clone())),
            Node::Term(Token::Num(x)) => Ok(Variable::Num(x.copy())),
            Node::Array(v) => match values_within(v, Ghost(self@)) {
                Ok(vs) => {
                    proof {
                        crate::data_types::lemma_array_view(vs);
                    }
                    Ok(Variable::Array(vs))
                },
                Err(e) => Err(e),
            },
            other => Err(Error::UnexpectedNode(Some(other.copy()))),
        }
    }

    /// The value of a literal node: a string, a number, or an array of
    /// literals. Any other node is refused as unexpected.
    pub fn as_var(self) -> (r: Result<Variable, Error>)
        ensures
            match node_value(self@) {
                Ok(v) => r is Ok && r->Ok_0@ == v,
                Err(e) => r is Err && r->Err_0@ == e,
            },
    {
        self.value()
    }
}

} // verus!
