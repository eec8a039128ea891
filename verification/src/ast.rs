use vstd::prelude::*;

use crate::value::{vw, Value, ValueS};

verus! {

broadcast use vstd::std_specs::vec::group_vec_axioms, vstd::seq::group_seq_axioms;

/// A comparison or logical operator of a conditional test expression.
#[derive(Debug, Clone, Copy, PartialEq, Eq, Structural)]
pub enum Op {
    Eq,
    Ne,
    Gt,
    Ge,
    Lt,
    Le,
    And,
    Or,
}

/// A test expression of an `if` tag: a literal, a variable path, or a
/// binary operation over two sub-expressions.
#[derive(Debug)]
pub enum Expr {
    Literal(Value),
    Var(String),
    Binary(Op, Box<Expr>, Box<Expr>),
}

/// The model of an expression.
pub enum ExprS {
    Literal(ValueS),
    Var(Seq<char>),
    Binary(Op, Box<ExprS>, Box<ExprS>),
}

/// The model of an expression tree.
pub open spec fn ew(e: Expr) -> ExprS
    decreases e,
{
    match e {
        Expr::Literal(v) => ExprS::Literal(vw(v)),
        Expr::Var(name) => ExprS::Var(name@),
        Expr::Binary(op, l, r) => ExprS::Binary(op, Box::new(ew(*l)), Box::new(ew(*r))),
    }
}

impl Clone for Expr {
    /// A structural copy: the copy has the same model as the original.
    fn clone(&self) -> (r: Expr)
        ensures
            ew(r) == ew(*self),
        decreases self,
    {
        match self {
            Expr::Literal(v) => Expr::Literal(v.clone()),
            Expr::Var(name) => Expr::Var(name.clone()),
            Expr::Binary(op, l, r) => Expr::Binary(
                *op,
                Box::new((&**l).clone()),
                Box::new((&**r).clone()),
            ),
        }
    }
}

impl PartialEq for Expr {
    /// Structural equality over the models of the two expressions.
    fn eq(&self, other: &Expr) -> (r: bool)
        decreases self,
    {
        match (self, other) {
            (Expr::Literal(a), Expr::Literal(b)) => a == b,
            (Expr::Var(a), Expr::Var(b)) => crate::textutil::str_eq(a.as_str(), b.as_str()),
            (Expr::Binary(opa, la, ra), Expr::Binary(opb, lb, rb)) => {
                if *opa != *opb {
                    return false;
                }
                if !(&**la).eq(&**lb) {
                    return false;
                }
                (&**ra).eq(&**rb)
            },
            _ => false,
        }
    }
}

impl vstd::std_specs::cmp::PartialEqSpecImpl for Expr {
    open spec fn obeys_eq_spec() -> bool {
        true
    }

    open spec fn eq_spec(&self, other: &Expr) -> bool {
        ew(*self) == ew(*other)
    }
}

/// One node of a parsed template: literal text, a variable interpolation,
/// an inclusion of another statement's template, a conditional block, or
/// a loop block.
#[derive(Debug)]
pub enum AstNode {
    Text(String),
    Var(String),
    Include { refid: String },
    If { test: Expr, body: Vec<AstNode> },
    Foreach {
        item: String,
        collection: String,
        open: String,
        separator: String,
        close: String,
        body: Vec<AstNode>,
    },
}

/// The model of an AST node.
pub enum AstS {
    Text(Seq<char>),
    Var(Seq<char>),
    Include(Seq<char>),
    If(ExprS, Seq<AstS>),
    Foreach {
        item: Seq<char>,
        collection: Seq<char>,
        open: Seq<char>,
        separator: Seq<char>,
        close: Seq<char>,
        body: Seq<AstS>,
    },
}

impl Clone for AstNode {
    /// A structural copy: the copy has the same model as the original.
    #[verifier::loop_isolation(false)]
    fn clone(&self) -> (r: AstNode)
        ensures
            nw(r) == nw(*self),
        decreases self,
    {
        match self {
            AstNode::Text(t) => AstNode::Text(t.clone()),
            AstNode::Var(name) => AstNode::Var(name.clone()),
            AstNode::Include { refid } => AstNode::Include { refid: refid.clone() },
            AstNode::If { test, body } => {
                let test2 = test.clone();
                let mut out: Vec<AstNode> = Vec::new();
                let n = body.len();
                let mut i: usize = 0;
                while i < n
                    invariant
                        n == body@.len(),
                        0 <= i <= n,
                        out@.len() == i,
                        forall|j: int| 0 <= j < i ==> nw(#[trigger] out@[j]) == nw(body@[j]),
                    decreases n - i,
                {
                    out.push(body[i].clone());
                    i = i + 1;
                }
                proof {
                    lemma_nws_pointwise(out@, body@);
                }
                AstNode::If { test: test2, body: out }
            },
            AstNode::Foreach { item, collection, open, separator, close, body } => {
                let mut out: Vec<AstNode> = Vec::new();
                let n = body.len();
                let mut i: usize = 0;
                while i < n
                    invariant
                        n == body@.len(),
                        0 <= i <= n,
                        out@.len() == i,
                        forall|j: int| 0 <= j < i ==> nw(#[trigger] out@[j]) == nw(body@[j]),
                    decreases n - i,
                {
                    out.push(body[i].clone());
                    i = i + 1;
                }
                proof {
                    lemma_nws_pointwise(out@, body@);
                }
                AstNode::Foreach {
                    item: item.clone(),
                    collection: collection.clone(),
                    open: open.clone(),
                    separator: separator.clone(),
                    close: close.clone(),
                    body: out,
                }
            },
        }
    }
}

/// Clones every node of a template body.
pub fn clone_nodes(nodes: &Vec<AstNode>) -> (r: Vec<AstNode>)
    ensures
        nws(r@) == nws(nodes@),
{
    let mut out: Vec<AstNode> = Vec::new();
    let n = nodes.len();
    let mut i: usize = 0;
    while i < n
        invariant
            n == nodes@.len(),
            0 <= i <= n,
            out@.len() == i,
            forall|j: int| 0 <= j < i ==> nw(#[trigger] out@[j]) == nw(nodes@[j]),
        decreases n - i,
    {
        out.push(nodes[i].clone());
        i = i + 1;
    }
    proof {
        lemma_nws_pointwise(out@, nodes@);
    }
    out
}

pub proof fn lemma_nws_pointwise(a: Seq<AstNode>, b: Seq<AstNode>)
    requires
        a.len() == b.len(),
        forall|i: int| 0 <= i < a.len() ==> nw(#[trigger] a[i]) == nw(b[i]),
    ensures
        nws(a) == nws(b),
{
    broadcast use lemma_nws_len, lemma_nws_index;

    assert(nws(a) =~= nws(b));
}

/// The model of an AST node.
pub open spec fn nw(n: AstNode) -> AstS
    decreases n,
{
    match n {
        AstNode::Text(t) => AstS::Text(t@),
        AstNode::Var(name) => AstS::Var(name@),
        AstNode::Include { refid } => AstS::Include(refid@),
        AstNode::If { test, body } => AstS::If(ew(test), nws(body@)),
        AstNode::Foreach { item, collection, open, separator, close, body } => AstS::Foreach {
            item: item@,
            collection: collection@,
            open: open@,
            separator: separator@,
            close: close@,
            body: nws(body@),
        },
    }
}

/// The models of a sequence of AST nodes, in order.
pub open spec fn nws(s: Seq<AstNode>) -> Seq<AstS>
    decreases s,
{
    if s.len() == 0 {
        Seq::empty()
    } else {
        seq![nw(s[0])] + nws(s.drop_first())
    }
}

pub broadcast proof fn lemma_nws_len(s: Seq<AstNode>)
    ensures
        #[trigger] nws(s).len() == s.len(),
    decreases s,
{
    if s.len() > 0 {
        lemma_nws_len(s.drop_first());
    }
}

pub broadcast proof fn lemma_nws_index(s: Seq<AstNode>, i: int)
    requires
        0 <= i < s.len(),
    ensures
        #[trigger] nws(s)[i] == nw(s[i]),
    decreases s,
{
    lemma_nws_len(s);
    if i > 0 {
        lemma_nws_index(s.drop_first(), i - 1);
    }
}

pub proof fn lemma_nws_push(s: Seq<AstNode>, n: AstNode)
    ensures
        nws(s.push(n)) == nws(s).push(nw(n)),
    decreases s,
{
    broadcast use lemma_nws_len, lemma_nws_index;

    assert(nws(s.push(n)) =~= nws(s).push(nw(n))) by {
        lemma_nws_len(s.push(n));
        assert forall|i: int| 0 <= i < s.len() + 1 implies nws(s.push(n))[i] == nws(s).push(
            nw(n),
        )[i] by {
            lemma_nws_index(s.push(n), i);
            if i < s.len() {
                lemma_nws_index(s, i);
                assert(s.push(n)[i] == s[i]);
            } else {
                assert(s.push(n)[i] == n);
            }
        }
    }
}

/// Structural height of a node, used as a termination measure when
/// walking templates.
pub open spec fn node_h(n: AstS) -> nat
    decreases n,
{
    match n {
        AstS::Text(_) => 1,
        AstS::Var(_) => 1,
        AstS::Include(_) => 1,
        AstS::If(_, body) => 1 + seq_h(body),
        AstS::Foreach { body, .. } => 1 + seq_h(body),
    }
}

/// Total height of a sequence of nodes.
pub open spec fn seq_h(s: Seq<AstS>) -> nat
    decreases s,
{
    if s.len() == 0 {
        0
    } else {
        node_h(s[0]) + seq_h(s.drop_first())
    }
}

pub broadcast proof fn lemma_seq_h_index(s: Seq<AstS>, i: int)
    requires
        0 <= i < s.len(),
    ensures
        #[trigger] node_h(s[i]) <= seq_h(s),
    decreases s,
{
    if i > 0 {
        lemma_seq_h_index(s.drop_first(), i - 1);
    }
}

} // verus!
