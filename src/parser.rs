use vstd::prelude::*;
use crate::lexer::{TokKind, Token, lex, stray, tokenize};
use crate::literals::{list_literal, list_value, literal_value, number_literal, texts};
use crate::parts::{Constructor, Method, StaticFunction};
use crate::registration::{Registry, find_type, registry_runs_anywhere, type_position};
use crate::text::{chars_of, string_from_chars};
use crate::types::{ErrorView, ReflectError};
use crate::value::{Value, ValueView};
use vstd::slice::{slice_subrange, slice_to_vec};

verus! {

/// The kinds of node of an expression tree.
#[derive(Clone, Copy, Debug, PartialEq, Eq, Structural)]
pub enum NodeKind {
    /// a constructor call: its token is the type name, its children the arguments
    Call,
    /// a bare name used as an argument
    Ident,
    /// a number literal
    Number,
    /// a bracketed list of numbers: its token is `[`, its children the numbers
    List,
}

/// A node of an expression tree, kept in an arena in which every node follows its
/// children.
#[derive(Debug)]
pub struct Node {
    pub kind: NodeKind,
    /// the token the node stands for
    pub token: usize,
    /// the positions of its children in the arena
    pub children: Vec<usize>,
}

pub ghost struct NodeView {
    pub kind: NodeKind,
    pub token: int,
    pub children: Seq<usize>,
}

impl View for Node {
    type V = NodeView;

    open spec fn view(&self) -> NodeView {
        NodeView { kind: self.kind, token: self.token as int, children: self.children@ }
    }
}

pub open spec fn node_views(a: Seq<Node>) -> Seq<NodeView> {
    a.map_values(|n: Node| n@)
}

pub open spec fn leaf(kind: NodeKind, token: int) -> NodeView {
    NodeView { kind, token, children: Seq::empty() }
}

pub open spec fn kind_at(t: Seq<Token>, i: int) -> Option<TokKind> {
    if 0 <= i < t.len() { Some(t[i].kind) } else { None }
}

/// A call `name ( arguments )` at token `pos`: the arena with the call's nodes appended
/// (the call last) and the position after it.
pub open spec fn p_call(t: Seq<Token>, pos: int, a: Seq<NodeView>) -> Option<(Seq<NodeView>, int)>
    decreases t.len() - pos, 0int,
{
    if 0 <= pos && kind_at(t, pos) == Some(TokKind::Ident) && kind_at(t, pos + 1) == Some(TokKind::Open) {
        match p_args(t, pos + 2, a, Seq::empty()) {
            Some((a2, kids, p)) => if kind_at(t, p) == Some(TokKind::Close) {
                Some((a2.push(NodeView { kind: NodeKind::Call, token: pos, children: kids }), p + 1))
            } else {
                None
            },
            None => None,
        }
    } else {
        None
    }
}

/// Arguments separated by commas, from token `pos`; `kids` gathers their nodes.
pub open spec fn p_args(t: Seq<Token>, pos: int, a: Seq<NodeView>, kids: Seq<usize>) -> Option<(Seq<NodeView>, Seq<usize>, int)>
    decreases t.len() - pos, 2int,
{
    if pos < 0 || pos > t.len() {
        None
    } else {
        match p_arg(t, pos, a) {
            Some((a2, p)) => {
                let kids2 = kids.push((a2.len() - 1) as usize);
                if pos < p && kind_at(t, p) == Some(TokKind::Comma) {
                    p_args(t, p + 1, a2, kids2)
                } else {
                    Some((a2, kids2, p))
                }
            },
            None => None,
        }
    }
}

/// One argument at token `pos`: a call, a name, a number, or a list.
pub open spec fn p_arg(t: Seq<Token>, pos: int, a: Seq<NodeView>) -> Option<(Seq<NodeView>, int)>
    decreases t.len() - pos, 1int,
{
    if pos < 0 || pos >= t.len() {
        None
    } else if t[pos].kind == TokKind::Ident {
        if kind_at(t, pos + 1) == Some(TokKind::Open) {
            p_call(t, pos, a)
        } else {
            Some((a.push(leaf(NodeKind::Ident, pos)), pos + 1))
        }
    } else if t[pos].kind == TokKind::Number {
        Some((a.push(leaf(NodeKind::Number, pos)), pos + 1))
    } else if t[pos].kind == TokKind::LBracket {
        p_list(t, pos + 1, a, pos, Seq::empty())
    } else {
        None
    }
}

/// The numbers of a list opened at token `open`, from token `pos`, up to its `]`.
pub open spec fn p_list(t: Seq<Token>, pos: int, a: Seq<NodeView>, open: int, kids: Seq<usize>) -> Option<(Seq<NodeView>, int)>
    decreases t.len() - pos, 0int,
{
    if 0 <= pos && kind_at(t, pos) == Some(TokKind::Number) {
        let a2 = a.push(leaf(NodeKind::Number, pos));
        let kids2 = kids.push((a2.len() - 1) as usize);
        if kind_at(t, pos + 1) == Some(TokKind::Comma) {
            p_list(t, pos + 2, a2, open, kids2)
        } else if kind_at(t, pos + 1) == Some(TokKind::RBracket) {
            Some((a2.push(NodeView { kind: NodeKind::List, token: open, children: kids2 }), pos + 2))
        } else {
            None
        }
    } else {
        None
    }
}

/// The tree of a whole expression: one call that spans all the tokens.
pub open spec fn parse_tree(t: Seq<Token>) -> Option<Seq<NodeView>> {
    match p_call(t, 0, Seq::empty()) {
        Some((a, p)) => if p == t.len() { Some(a) } else { None },
        None => None,
    }
}

fn is_kind(t: &[Token], i: usize, k: TokKind) -> (r: bool)
    ensures
        r == (kind_at(t@, i as int) == Some(k)),
        r ==> i < t@.len() <= usize::MAX,
{
    if i < t.len() { t[i].kind == k } else { false }
}

/// Nodes `lo..hi` of the arena form a forest: each node's token lies before `ntok`, its
/// children lie in `lo..` before it, and no node is the child of two places.
pub open spec fn forest(a: Seq<Node>, lo: int, hi: int, ntok: int) -> bool {
    &&& 0 <= lo <= hi <= a.len()
    &&& forall|j: int| lo <= j < hi ==> (#[trigger] a[j]).token < ntok
    &&& forall|j: int, q: int| lo <= j < hi && 0 <= q < a[j].children@.len() ==> lo <= #[trigger] a[j].children@[q] < j
    &&& forall|j1: int, q1: int, j2: int, q2: int|
        lo <= j1 < hi && 0 <= q1 < a[j1].children@.len() && lo <= j2 < hi && 0 <= q2 < a[j2].children@.len() && (j1
            != j2 || q1 != q2) ==> #[trigger] a[j1].children@[q1] != #[trigger] a[j2].children@[q2]
}

/// `ks` are increasing positions in `lo..hi` that are no node's child there.
pub open spec fn free_roots(a: Seq<Node>, lo: int, hi: int, ks: Seq<usize>) -> bool {
    &&& forall|x: int| 0 <= x < ks.len() ==> lo <= #[trigger] ks[x] < hi
    &&& forall|x: int, y: int| 0 <= x < y < ks.len() ==> #[trigger] ks[x] < #[trigger] ks[y]
    &&& forall|x: int, j: int, q: int|
        0 <= x < ks.len() && lo <= j < hi && 0 <= q < a[j].children@.len() ==> #[trigger] a[j].children@[q]
            != #[trigger] ks[x]
}

/// `b` keeps the nodes of `a` and may add more.
pub open spec fn extends(a: Seq<Node>, b: Seq<Node>) -> bool {
    &&& a.len() <= b.len()
    &&& forall|j: int| 0 <= j < a.len() ==> #[trigger] b[j] == a[j]
}

proof fn lemma_extend(a: Seq<Node>, b: Seq<Node>, lo: int, hi: int, ntok: int, ks: Seq<usize>)
    requires
        extends(a, b),
        0 <= lo,
        hi <= a.len(),
    ensures
        forest(a, lo, hi, ntok) ==> forest(b, lo, hi, ntok),
        free_roots(a, lo, hi, ks) ==> free_roots(b, lo, hi, ks),
{
    assert forall|j: int| lo <= j < hi implies #[trigger] b[j] == a[j] by {
        if 0 <= j {
        }
    }
    if forest(a, lo, hi, ntok) {
        assert forall|j1: int, q1: int, j2: int, q2: int|
            lo <= j1 < hi && 0 <= q1 < b[j1].children@.len() && lo <= j2 < hi && 0 <= q2 < b[j2].children@.len() && (
            j1 != j2 || q1 != q2) implies #[trigger] b[j1].children@[q1] != #[trigger] b[j2].children@[q2] by {
            assert(b[j1] == a[j1] && b[j2] == a[j2]);
            assert(a[j1].children@[q1] != a[j2].children@[q2]);
        }
        assert forall|j: int, q: int| lo <= j < hi && 0 <= q < b[j].children@.len() implies lo <= #[trigger] b[j].children@[q] < j by {
            assert(b[j] == a[j]);
            assert(lo <= a[j].children@[q] < j);
        }
    }
    if free_roots(a, lo, hi, ks) {
        assert forall|x: int, j: int, q: int|
            0 <= x < ks.len() && lo <= j < hi && 0 <= q < b[j].children@.len() implies #[trigger] b[j].children@[q]
                != #[trigger] ks[x] by {
            assert(b[j] == a[j]);
            assert(a[j].children@[q] != ks[x]);
        }
    }
}

/// A forest `lo..mid` with free roots `ks`, followed by a forest `mid..hi`, is a forest
/// `lo..hi` whose free roots are `ks` and the last node.
proof fn lemma_join(b: Seq<Node>, lo: int, mid: int, hi: int, ntok: int, ks: Seq<usize>)
    requires
        forest(b, lo, mid, ntok),
        forest(b, mid, hi, ntok),
        mid < hi <= usize::MAX,
        free_roots(b, lo, mid, ks),
    ensures
        forest(b, lo, hi, ntok),
        free_roots(b, lo, hi, ks.push((hi - 1) as usize)),
{
    assert forall|j1: int, q1: int, j2: int, q2: int|
        lo <= j1 < hi && 0 <= q1 < b[j1].children@.len() && lo <= j2 < hi && 0 <= q2 < b[j2].children@.len() && (j1
            != j2 || q1 != q2) implies #[trigger] b[j1].children@[q1] != #[trigger] b[j2].children@[q2] by {
        if j1 < mid {
            assert(b[j1].children@[q1] < j1);
        } else {
            assert(mid <= b[j1].children@[q1]);
        }
        if j2 < mid {
            assert(b[j2].children@[q2] < j2);
        } else {
            assert(mid <= b[j2].children@[q2]);
        }
    }
    assert forall|j: int, q: int| lo <= j < hi && 0 <= q < b[j].children@.len() implies lo <= #[trigger] b[j].children@[q] < j by {
        if j < mid {
            assert(lo <= b[j].children@[q] < j);
        } else {
            assert(mid <= b[j].children@[q] < j);
        }
    }
    let ks2 = ks.push((hi - 1) as usize);
    assert forall|x: int, j: int, q: int|
        0 <= x < ks2.len() && lo <= j < hi && 0 <= q < b[j].children@.len() implies #[trigger] b[j].children@[q]
            != #[trigger] ks2[x] by {
        if x < ks.len() {
            assert(ks2[x] == ks[x]);
            assert(ks[x] < mid);
            if j >= mid {
                assert(mid <= b[j].children@[q]);
            } else {
                assert(b[j].children@[q] != ks[x]);
            }
        } else {
            assert(b[j].children@[q] < j);
        }
    }
    assert forall|x: int, y: int| 0 <= x < y < ks2.len() implies #[trigger] ks2[x] < #[trigger] ks2[y] by {
        if y < ks.len() {
            assert(ks[x] < ks[y]);
        } else {
            assert(ks[x] < mid);
        }
    }
    assert forall|x: int| 0 <= x < ks2.len() implies lo <= #[trigger] ks2[x] < hi by {
        if x < ks.len() {
            assert(ks2[x] == ks[x]);
        }
    }
}

/// A forest `lo..hi` with free roots `ks`, and a node with those children, form a forest
/// `lo..hi + 1`.
proof fn lemma_parent(a: Seq<Node>, lo: int, ntok: int, n: Node)
    requires
        forest(a, lo, a.len() as int, ntok),
        free_roots(a, lo, a.len() as int, n.children@),
        n.token < ntok,
    ensures
        forest(a.push(n), lo, a.len() as int + 1, ntok),
{
    let b = a.push(n);
    let hi = a.len() as int;
    assert forall|j: int| 0 <= j < hi implies #[trigger] b[j] == a[j] by {
    }
    assert(b[hi] == n);
    assert forall|j1: int, q1: int, j2: int, q2: int|
        lo <= j1 < hi + 1 && 0 <= q1 < b[j1].children@.len() && lo <= j2 < hi + 1 && 0 <= q2 < b[j2].children@.len()
            && (j1 != j2 || q1 != q2) implies #[trigger] b[j1].children@[q1] != #[trigger] b[j2].children@[q2] by {
        if j1 == hi && j2 == hi {
            if q1 < q2 {
                assert(n.children@[q1] < n.children@[q2]);
            } else {
                assert(n.children@[q2] < n.children@[q1]);
            }
        } else if j1 == hi {
            assert(a[j2].children@[q2] != n.children@[q1]);
        } else if j2 == hi {
            assert(a[j1].children@[q1] != n.children@[q2]);
        } else {
            assert(a[j1].children@[q1] != a[j2].children@[q2]);
        }
    }
    assert forall|j: int, q: int| lo <= j < hi + 1 && 0 <= q < b[j].children@.len() implies lo <= #[trigger] b[j].children@[q] < j by {
        if j < hi {
            assert(lo <= a[j].children@[q] < j);
        } else {
            assert(lo <= n.children@[q] < hi);
        }
    }
    assert forall|j: int| lo <= j < hi + 1 implies (#[trigger] b[j]).token < ntok by {
        if j < hi {
            assert(a[j].token < ntok);
        }
    }
}

fn push_node(a: &mut Vec<Node>, kind: NodeKind, token: usize, children: Vec<usize>) -> (r: usize)
    ensures
        node_views(final(a)@) == node_views(old(a)@).push(NodeView { kind, token: token as int, children: children@ }),
        r == old(a)@.len(),
        final(a)@.len() == old(a)@.len() + 1,
        final(a)@ == old(a)@.push((Node { kind, token, children })),
{
    let r = a.len();
    a.push(Node { kind, token, children });
    proof {
        assert(node_views(final(a)@) =~= node_views(old(a)@).push(NodeView { kind, token: token as int, children: children@ }));
    }
    r
}

fn parse_call(t: &[Token], pos: usize, a: &mut Vec<Node>) -> (r: Option<usize>)
    requires
        pos <= t@.len(),
    ensures
        match r {
            Some(p) => p_call(t@, pos as int, node_views(old(a)@)) == Some((node_views(final(a)@), p as int)),
            None => p_call(t@, pos as int, node_views(old(a)@)) is None,
        },
        r is Some ==> extends(old(a)@, final(a)@) && final(a)@.len() > old(a)@.len() && forest(
            final(a)@,
            old(a)@.len() as int,
            final(a)@.len() as int,
            t@.len() as int,
        ),
    decreases t@.len() - pos, 0int,
{
    if is_kind(t, pos, TokKind::Ident) && is_kind(t, pos + 1, TokKind::Open) {
        let mut kids: Vec<usize> = Vec::new();
        let ghost start = a@.len() as int;
        proof {
            assert(kids@ =~= Seq::<usize>::empty());
        }
        match parse_args(t, pos + 2, a, &mut kids, Ghost(start)) {
            Some(p) => {
                if is_kind(t, p, TokKind::Close) {
                    let ghost mid = a@;
                    let ghost ks = kids@;
                    push_node(a, NodeKind::Call, pos, kids);
                    proof {
                        lemma_parent(mid, start, t@.len() as int, Node { kind: NodeKind::Call, token: pos, children: kids });
                    }
                    Some(p + 1)
                } else {
                    None
                }
            },
            None => None,
        }
    } else {
        None
    }
}

fn parse_args(t: &[Token], pos: usize, a: &mut Vec<Node>, kids: &mut Vec<usize>, Ghost(start): Ghost<int>) -> (r: Option<usize>)
    requires
        pos <= t@.len(),
        forest(old(a)@, start, old(a)@.len() as int, t@.len() as int),
        free_roots(old(a)@, start, old(a)@.len() as int, old(kids)@),
    ensures
        match r {
            Some(p) => p_args(t@, pos as int, node_views(old(a)@), old(kids)@) == Some(
                (node_views(final(a)@), final(kids)@, p as int),
            ) && p <= t@.len(),
            None => p_args(t@, pos as int, node_views(old(a)@), old(kids)@) is None,
        },
        r is Some ==> extends(old(a)@, final(a)@) && forest(final(a)@, start, final(a)@.len() as int, t@.len() as int)
            && free_roots(final(a)@, start, final(a)@.len() as int, final(kids)@),
    decreases t@.len() - pos, 2int,
{
    let ghost before = a@;
    match parse_arg(t, pos, a) {
        Some(p) => {
            let l = a.len();
            proof {
                assert(node_views(a@).len() == a@.len());
                lemma_extend(before, a@, start, before.len() as int, t@.len() as int, kids@);
                lemma_join(a@, start, before.len() as int, a@.len() as int, t@.len() as int, kids@);
            }
            kids.push(a.len() - 1);
            if pos < p && is_kind(t, p, TokKind::Comma) {
                let ghost mid = a@;
                let r = parse_args(t, p + 1, a, kids, Ghost(start));
                proof {
                    if r is Some {
                        assert forall|j: int| 0 <= j < before.len() implies #[trigger] a@[j] == before[j] by {
                            assert(a@[j] == mid[j]);
                        }
                    }
                }
                r
            } else {
                Some(p)
            }
        },
        None => None,
    }
}

fn parse_arg(t: &[Token], pos: usize, a: &mut Vec<Node>) -> (r: Option<usize>)
    requires
        pos <= t@.len(),
    ensures
        match r {
            Some(p) => p_arg(t@, pos as int, node_views(old(a)@)) == Some((node_views(final(a)@), p as int))
                && p <= t@.len() && final(a)@.len() > 0,
            None => p_arg(t@, pos as int, node_views(old(a)@)) is None,
        },
        r is Some ==> extends(old(a)@, final(a)@) && final(a)@.len() > old(a)@.len() && forest(
            final(a)@,
            old(a)@.len() as int,
            final(a)@.len() as int,
            t@.len() as int,
        ),
    decreases t@.len() - pos, 1int,
{
    if pos >= t.len() {
        return None;
    }
    let k = t[pos].kind;
    if k == TokKind::Ident {
        if is_kind(t, pos + 1, TokKind::Open) {
            let r = parse_call(t, pos, a);
            proof {
                if r is Some {
                    assert(node_views(final(a)@).len() == final(a)@.len());
                }
            }
            r
        } else {
            let e: Vec<usize> = Vec::new();
            proof {
                assert(e@ =~= Seq::<usize>::empty());
            }
            let ghost start = a@.len() as int;
            push_node(a, NodeKind::Ident, pos, e);
            proof {
                lemma_parent(old(a)@, start, t@.len() as int, Node { kind: NodeKind::Ident, token: pos, children: e });
            }
            Some(pos + 1)
        }
    } else if k == TokKind::Number {
        let e: Vec<usize> = Vec::new();
        proof {
            assert(e@ =~= Seq::<usize>::empty());
        }
        let ghost start = a@.len() as int;
        push_node(a, NodeKind::Number, pos, e);
        proof {
            lemma_parent(old(a)@, start, t@.len() as int, Node { kind: NodeKind::Number, token: pos, children: e });
        }
        Some(pos + 1)
    } else if k == TokKind::LBracket {
        let mut kids: Vec<usize> = Vec::new();
        proof {
            assert(kids@ =~= Seq::<usize>::empty());
        }
        let ghost start = a@.len() as int;
        parse_list(t, pos + 1, a, pos, &mut kids, Ghost(start))
    } else {
        None
    }
}

fn parse_list(t: &[Token], pos: usize, a: &mut Vec<Node>, open: usize, kids: &mut Vec<usize>, Ghost(start): Ghost<int>) -> (r: Option<usize>)
    requires
        pos <= t@.len(),
        open < t@.len(),
        forest(old(a)@, start, old(a)@.len() as int, t@.len() as int),
        free_roots(old(a)@, start, old(a)@.len() as int, old(kids)@),
    ensures
        match r {
            Some(p) => p_list(t@, pos as int, node_views(old(a)@), open as int, old(kids)@) == Some(
                (node_views(final(a)@), p as int),
            ) && p <= t@.len() && final(a)@.len() > 0,
            None => p_list(t@, pos as int, node_views(old(a)@), open as int, old(kids)@) is None,
        },
        r is Some ==> extends(old(a)@, final(a)@) && final(a)@.len() > old(a)@.len() && forest(
            final(a)@,
            start,
            final(a)@.len() as int,
            t@.len() as int,
        ),
    decreases t@.len() - pos, 0int,
{
    if !is_kind(t, pos, TokKind::Number) {
        return None;
    }
    let e: Vec<usize> = Vec::new();
    proof {
        assert(e@ =~= Seq::<usize>::empty());
    }
    let ghost before = a@;
    let i = push_node(a, NodeKind::Number, pos, e);
    let l = a.len();
    proof {
        let leaf = Node { kind: NodeKind::Number, token: pos, children: e };
        lemma_parent(before, before.len() as int, t@.len() as int, leaf);
        lemma_extend(before, a@, start, before.len() as int, t@.len() as int, kids@);
        lemma_join(a@, start, before.len() as int, a@.len() as int, t@.len() as int, kids@);
    }
    kids.push(i);
    if is_kind(t, pos + 1, TokKind::Comma) {
        let ghost mid = a@;
        let r = parse_list(t, pos + 2, a, open, kids, Ghost(start));
        proof {
            if r is Some {
                assert forall|j: int| 0 <= j < before.len() implies #[trigger] a@[j] == before[j] by {
                    assert(a@[j] == mid[j]);
                }
            }
        }
        r
    } else if is_kind(t, pos + 1, TokKind::RBracket) {
        let mut ks: Vec<usize> = Vec::new();
        std::mem::swap(&mut ks, kids);
        let ghost mid = a@;
        push_node(a, NodeKind::List, open, ks);
        proof {
            lemma_parent(mid, start, t@.len() as int, Node { kind: NodeKind::List, token: open, children: ks });
        }
        Some(pos + 2)
    } else {
        None
    }
}

/// `f` is where the text `s` goes wrong: a stray character and what follows it, or, for
/// text that has only tokens but does not form an expression, the whole text.
pub open spec fn fragment_of(f: Seq<char>, s: Seq<char>) -> bool {
    f == s || exists|i: int| 0 <= i < s.len() && stray(s[i]) && f == s.subrange(i, s.len() as int)
}

/// The tokens and the tree of the expression `s`, if it is well formed.
pub open spec fn tree_of(s: Seq<char>) -> Option<(Seq<Token>, Seq<NodeView>)> {
    match lex(s) {
        Some(t) => match parse_tree(t) {
            Some(a) => Some((t, a)),
            None => None,
        },
        None => None,
    }
}

/// A parsed constructor expression: its text, its tokens, and its tree (the root last).
pub struct Tree {
    pub text: Vec<char>,
    pub tokens: Vec<Token>,
    pub nodes: Vec<Node>,
}

impl Tree {
    /// The text of token `i`.
    pub fn token_text(&self, i: usize) -> (r: Option<String>)
        ensures
            match r {
                Some(s) => i < self.tokens@.len() && self.tokens@[i as int].start <= self.tokens@[i as int].end
                    <= self.text@.len() && s@ == self.text@.subrange(
                    self.tokens@[i as int].start as int,
                    self.tokens@[i as int].end as int,
                ),
                None => !(i < self.tokens@.len() && self.tokens@[i as int].start <= self.tokens@[i as int].end
                    <= self.text@.len()),
            },
    {
        match self.token_chars(i) {
            Some(cs) => Some(string_from_chars(cs)),
            None => None,
        }
    }

    fn token_chars(&self, i: usize) -> (r: Option<&[char]>)
        ensures
            match r {
                Some(s) => i < self.tokens@.len() && self.tokens@[i as int].start <= self.tokens@[i as int].end
                    <= self.text@.len() && s@ == self.text@.subrange(
                    self.tokens@[i as int].start as int,
                    self.tokens@[i as int].end as int,
                ),
                None => !(i < self.tokens@.len() && self.tokens@[i as int].start <= self.tokens@[i as int].end
                    <= self.text@.len()),
            },
    {
        if i >= self.tokens.len() {
            return None;
        }
        let t = self.tokens[i];
        if t.start <= t.end && t.end <= self.text.len() {
            Some(slice_subrange(self.text.as_slice(), t.start, t.end))
        } else {
            None
        }
    }
}

/// Parser and builder for constructor expressions such as
/// `Filter(Momentum(SMA,[100,200,300],[0.6,0.3,0.1],3),900)`.
pub struct CTorParser;

impl CTorParser {
    /// Parses an expression into its tree (see `tree_of`).
    pub fn parse(expr: &str) -> (r: Result<Tree, ReflectError>)
        ensures
            match r {
                Ok(tree) => tree.text@ == expr@ && tree_of(expr@) == Some((tree.tokens@, node_views(tree.nodes@)))
                    && wf_tree(tree),
                Err(e) => tree_of(expr@) is None && (e@ matches ErrorView::Parse(f) && fragment_of(f, expr@)),
            },
    {
        let text = chars_of(expr);
        let tokens = match tokenize(text.as_slice()) {
            Ok(t) => t,
            Err(i) => return Err(ReflectError::Parse(string_from_chars(slice_subrange(text.as_slice(), i, text.len())))),
        };
        let mut nodes: Vec<Node> = Vec::new();
        proof {
            assert(node_views(nodes@) =~= Seq::<NodeView>::empty());
        }
        match parse_call(tokens.as_slice(), 0, &mut nodes) {
            Some(p) => {
                if p == tokens.len() {
                    let tree = Tree { text, tokens, nodes };
                    proof {
                        let n = tree.nodes@.len() as int;
                        assert(forest(tree.nodes@, 0, n, tree.tokens@.len() as int));
                        assert forall|i: int| 0 <= i < n implies token_ok(tree, #[trigger] tree.nodes@[i].token as int) by {
                            assert(tree.nodes@[i].token < tree.tokens@.len());
                            let t = tree.nodes@[i].token as int;
                            assert(tree.tokens@[t].start <= tree.tokens@[t].end <= tree.text@.len());
                        }
                        assert forall|i: int, k: int| 0 <= i < n && 0 <= k < tree.nodes@[i].children@.len() implies #[trigger] child(tree, i, k) < i by {
                            assert(tree.nodes@[i].children@[k] < i);
                        }
                        assert forall|i1: int, k1: int, i2: int, k2: int|
                            0 <= i1 < n && 0 <= k1 < tree.nodes@[i1].children@.len() && 0 <= i2 < n
                                && 0 <= k2 < tree.nodes@[i2].children@.len() && (i1 != i2 || k1 != k2)
                                implies #[trigger] child(tree, i1, k1) != #[trigger] child(tree, i2, k2) by {
                            assert(tree.nodes@[i1].children@[k1] != tree.nodes@[i2].children@[k2]);
                        }
                    }
                    Ok(tree)
                } else {
                    Err(ReflectError::Parse(expr.to_owned()))
                }
            },
            None => Err(ReflectError::Parse(expr.to_owned())),
        }
    }

    /// Builds the object an expression describes: parses it (see `tree_of`) and evaluates
    /// the tree node by node, children first (see `evaluated`).
    pub fn create<C: Constructor, M: Method, S: StaticFunction>(registry: &Registry<C, M, S>, expr: &str) -> (r: Result<Value, ReflectError>)
        requires
            registry_runs_anywhere(*registry),
        ensures
            tree_of(expr@) is None ==> (r matches Err(e) && e@ matches ErrorView::Parse(f) && fragment_of(f, expr@)),
            tree_of(expr@) matches Some((toks, nodes)) ==> exists|tree: Tree|
                tree.text@ == expr@ && tree.tokens@ == toks && node_views(tree.nodes@) == nodes && wf_tree(tree)
                    && #[trigger] evaluated(*registry, tree, r),
    {
        let tree = CTorParser::parse(expr)?;
        evaluate(registry, &tree)
    }
}

/// The text of token `t` of the tree.
pub open spec fn token_chars_spec(tree: Tree, t: int) -> Seq<char> {
    tree.text@.subrange(tree.tokens@[t].start as int, tree.tokens@[t].end as int)
}

pub open spec fn token_ok(tree: Tree, t: int) -> bool {
    0 <= t < tree.tokens@.len() && tree.tokens@[t].start <= tree.tokens@[t].end <= tree.text@.len()
}

pub open spec fn child(tree: Tree, i: int, k: int) -> int {
    tree.nodes@[i].children@[k] as int
}

/// The tree can be evaluated in arena order: it is not empty, every node's token lies in
/// the text, every child comes before its parent, and no node is the child of two places.
pub open spec fn wf_tree(tree: Tree) -> bool {
    &&& tree.nodes@.len() > 0
    &&& forall|i: int| 0 <= i < tree.nodes@.len() ==> token_ok(tree, #[trigger] tree.nodes@[i].token as int)
    &&& forall|i: int, k: int| 0 <= i < tree.nodes@.len() && 0 <= k < tree.nodes@[i].children@.len() ==> #[trigger] child(tree, i, k) < i
    &&& forall|i1: int, k1: int, i2: int, k2: int|
        0 <= i1 < tree.nodes@.len() && 0 <= k1 < tree.nodes@[i1].children@.len() && 0 <= i2 < tree.nodes@.len()
            && 0 <= k2 < tree.nodes@[i2].children@.len() && (i1 != i2 || k1 != k2)
            ==> #[trigger] child(tree, i1, k1) != #[trigger] child(tree, i2, k2)
}

/// The texts of the numbers of the list node `i`.
pub open spec fn list_items(tree: Tree, i: int) -> Seq<Seq<char>> {
    tree.nodes@[i].children@.map_values(|c: usize| token_chars_spec(tree, tree.nodes@[c as int].token as int))
}

/// What node `i` may give, its children having given `kids`: a name gives its text, a
/// number `literal_value`, a list `list_value` (a parse error naming the token where these
/// are `None`), and a call what `TypeInfo::create` of the named type may give on `kids`
/// (`UnknownType`, with the number of arguments, where no type has that name).
pub open spec fn node_outcome<C: Constructor, M: Method, S: StaticFunction>(
    reg: Registry<C, M, S>,
    tree: Tree,
    i: int,
    kids: Seq<Value>,
    r: Result<Value, ReflectError>,
) -> bool {
    let text = token_chars_spec(tree, tree.nodes@[i].token as int);
    match tree.nodes@[i].kind {
        NodeKind::Ident => r matches Ok(v) && v@ == ValueView::Text(text),
        NodeKind::Number => match literal_value(text) {
            Some(x) => r matches Ok(v) && v@ == x,
            None => r matches Err(e) && e@ == ErrorView::Parse(text),
        },
        NodeKind::List => match list_value(list_items(tree, i)) {
            Some(x) => r matches Ok(v) && v@ == x,
            None => r matches Err(e) && e@ == ErrorView::Parse(text),
        },
        NodeKind::Call => match type_position(reg.types@, text) {
            None => r matches Err(e) && e@ == ErrorView::UnknownType(text, kids.len() as usize),
            Some(k) => reg.types@[k].created(reg.conversions@, kids, r),
        },
    }
}

/// The values of the children of node `i`, in order, from the values `outs` of the nodes.
pub open spec fn kids_of(tree: Tree, outs: Seq<Value>, i: int) -> Seq<Value> {
    tree.nodes@[i].children@.map_values(|c: usize| outs[c as int])
}

/// The nodes before `k` gave `outs`, each from its children's values.
pub open spec fn evaluated_upto<C: Constructor, M: Method, S: StaticFunction>(
    reg: Registry<C, M, S>,
    tree: Tree,
    outs: Seq<Value>,
    k: int,
) -> bool {
    &&& outs.len() == k <= tree.nodes@.len()
    &&& forall|j: int| 0 <= j < k ==> #[trigger] node_outcome(reg, tree, j, kids_of(tree, outs, j), Ok(outs[j]))
}

/// What evaluating the tree in arena order (children first) may give: the root's value,
/// or the error of the first node that fails, the nodes before it having given their
/// values.
pub open spec fn evaluated<C: Constructor, M: Method, S: StaticFunction>(
    reg: Registry<C, M, S>,
    tree: Tree,
    r: Result<Value, ReflectError>,
) -> bool {
    exists|outs: Seq<Value>, k: int|
        #[trigger] evaluated_upto(reg, tree, outs, k) && if k < tree.nodes@.len() {
            r is Err && node_outcome(reg, tree, k, kids_of(tree, outs, k), r)
        } else {
            r == Ok::<Value, ReflectError>(outs[k - 1])
        }
}

fn token_slice(tree: &Tree, t: usize) -> (r: &[char])
    requires
        token_ok(*tree, t as int),
    ensures
        r@ == token_chars_spec(*tree, t as int),
{
    let tok = tree.tokens[t];
    slice_subrange(tree.text.as_slice(), tok.start, tok.end)
}

/// The value of node `i` of a well-formed tree, its children having given `children`
/// (see `node_outcome`).
pub fn node_value<C: Constructor, M: Method, S: StaticFunction>(
    registry: &Registry<C, M, S>,
    tree: &Tree,
    i: usize,
    children: Vec<Value>,
) -> (r: Result<Value, ReflectError>)
    requires
        wf_tree(*tree),
        i < tree.nodes@.len(),
        registry_runs_anywhere(*registry),
    ensures
        node_outcome(*registry, *tree, i as int, children@, r),
{
    let node = &tree.nodes[i];
    assert(token_ok(*tree, tree.nodes@[i as int].token as int));
    let cs = token_slice(tree, node.token);
    match node.kind {
        NodeKind::Ident => Ok(Value::Text(string_from_chars(cs))),
        NodeKind::Number => match number_literal(cs) {
            Some(v) => Ok(v),
            None => Err(ReflectError::Parse(string_from_chars(cs))),
        },
        NodeKind::List => {
            let mut items: Vec<Vec<char>> = Vec::new();
            let mut k: usize = 0;
            while k < node.children.len()
                invariant
                    wf_tree(*tree),
                    i < tree.nodes@.len(),
                    *node == tree.nodes@[i as int],
                    k <= node.children@.len(),
                    texts(items@) == list_items(*tree, i as int).subrange(0, k as int),
                decreases node.children@.len() - k,
            {
                let c = node.children[k];
                assert(child(*tree, i as int, k as int) < i);
                assert(token_ok(*tree, tree.nodes@[c as int].token as int));
                let ghost before = items@;
                items.push(slice_to_vec(token_slice(tree, tree.nodes[c].token)));
                proof {
                    assert(texts(items@) =~= texts(before).push(token_chars_spec(*tree, tree.nodes@[c as int].token as int)));
                    assert(list_items(*tree, i as int).subrange(0, k as int + 1) =~= list_items(*tree, i as int).subrange(
                        0,
                        k as int,
                    ).push(token_chars_spec(*tree, tree.nodes@[c as int].token as int)));
                }
                k = k + 1;
            }
            proof {
                assert(list_items(*tree, i as int).subrange(0, k as int) =~= list_items(*tree, i as int));
            }
            match list_literal(&items) {
                Some(v) => Ok(v),
                None => Err(ReflectError::Parse(string_from_chars(cs))),
            }
        },
        NodeKind::Call => {
            let name = string_from_chars(cs);
            match find_type(registry, name.as_str()) {
                Some(info) => {
                    proof {
                        let p = type_position(registry.types@, name@)->0;
                        assert(registry.types@[p].runs_anywhere());
                    }
                    info.create(&registry.conversions, children)
                },
                None => Err(ReflectError::UnknownType(name, children.len())),
            }
        },
    }
}

/// Evaluates a well-formed tree in arena order, each node from its children's values
/// (see `evaluated`).
fn evaluate<C: Constructor, M: Method, S: StaticFunction>(registry: &Registry<C, M, S>, tree: &Tree) -> (r: Result<Value, ReflectError>)
    requires
        wf_tree(*tree),
        registry_runs_anywhere(*registry),
    ensures
        evaluated(*registry, *tree, r),
{
    let n = tree.nodes.len();
    let mut values: Vec<Option<Value>> = Vec::new();
    let ghost mut outs: Seq<Value> = Seq::empty();
    let mut i: usize = 0;
    while i < n
        invariant
            wf_tree(*tree),
            registry_runs_anywhere(*registry),
            i <= n == tree.nodes@.len(),
            values@.len() == i,
            evaluated_upto(*registry, *tree, outs, i as int),
            forall|c: int| 0 <= c < i && (forall|p: int, q: int| 0 <= p < i && 0 <= q < tree.nodes@[p].children@.len() ==> #[trigger] child(*tree, p, q) != c)
                ==> values@[c] == Some(outs[c]),
        decreases n - i,
    {
        let node = &tree.nodes[i];
        let mut args: Vec<Value> = Vec::new();
        let mut k: usize = 0;
        while k < node.children.len()
            invariant
                wf_tree(*tree),
                i < n == tree.nodes@.len(),
                *node == tree.nodes@[i as int],
                values@.len() == i,
                outs.len() == i,
                k <= node.children@.len(),
                args@.len() == k,
                forall|q: int| 0 <= q < k ==> args@[q] == outs[#[trigger] child(*tree, i as int, q)],
                forall|c: int| 0 <= c < i && (forall|p: int, q: int| 0 <= p < i && 0 <= q < tree.nodes@[p].children@.len() ==> #[trigger] child(*tree, p, q) != c)
                    && (forall|q: int| 0 <= q < k ==> #[trigger] child(*tree, i as int, q) != c) ==> values@[c] == Some(outs[c]),
            decreases node.children@.len() - k,
        {
            let c = node.children[k];
            proof {
                assert(child(*tree, i as int, k as int) < i);
                assert forall|p: int, q: int| 0 <= p < i && 0 <= q < tree.nodes@[p].children@.len() implies #[trigger] child(*tree, p, q) != c by {
                    assert(child(*tree, p, q) != child(*tree, i as int, k as int));
                }
                assert forall|q: int| 0 <= q < k implies #[trigger] child(*tree, i as int, q) != c by {
                    assert(child(*tree, i as int, q) != child(*tree, i as int, k as int));
                }
            }
            let mut slot: Option<Value> = None;
            values.set_and_swap(c, &mut slot);
            match slot {
                Some(a) => args.push(a),
                None => {
                    assert(false);
                    return Err(ReflectError::Parse(String::new()));
                },
            }
            k = k + 1;
        }
        proof {
            assert forall|q: int| 0 <= q < args@.len() implies args@[q] == kids_of(*tree, outs, i as int)[q] by {
                assert(args@[q] == outs[child(*tree, i as int, q)]);
            }
            assert(args@ =~= kids_of(*tree, outs, i as int));
        }
        let r = node_value(registry, tree, i, args);
        match r {
            Ok(v) => {
                let ghost gv = v;
                let ghost prev = outs;
                values.push(Some(v));
                proof {
                    outs = outs.push(gv);
                    assert forall|j: int| 0 <= j <= i implies #[trigger] node_outcome(*registry, *tree, j, kids_of(*tree, outs, j), Ok(outs[j])) by {
                        assert forall|q: int| 0 <= q < tree.nodes@[j].children@.len() implies kids_of(*tree, outs, j)[q]
                            == kids_of(*tree, prev, j)[q] by {
                            assert(child(*tree, j, q) < j);
                        }
                        assert(kids_of(*tree, outs, j) =~= kids_of(*tree, prev, j));
                        if j < i {
                            assert(node_outcome(*registry, *tree, j, kids_of(*tree, prev, j), Ok(prev[j])));
                        }
                    }
                }
            },
            Err(e) => {
                proof {
                    assert(evaluated_upto(*registry, *tree, outs, i as int));
                }
                return Err(e);
            },
        }
        i = i + 1;
    }
    proof {
        assert forall|p: int, q: int| 0 <= p < n && 0 <= q < tree.nodes@[p].children@.len() implies #[trigger] child(*tree, p, q) != n - 1 by {
            assert(child(*tree, p, q) < p);
        }
    }
    let mut root: Option<Value> = None;
    values.set_and_swap(n - 1, &mut root);
    proof {
        assert(evaluated_upto(*registry, *tree, outs, n as int));
    }
    match root {
        Some(v) => Ok(v),
        None => {
            assert(false);
            Err(ReflectError::Parse(String::new()))
        },
    }
}

} // verus!
