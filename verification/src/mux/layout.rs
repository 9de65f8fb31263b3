//! The tree of panes in a window, and the rectangles that it comes to.

use crate::ask::{FloatOp, Query, QueryView, Replies, ReplySeq};
use crate::mux::share;
use crate::mux::share::{Share, HALF, ONE, TWENTIETH, ZERO};
use crate::mux::tree;
use crate::mux::tree::{Dir, LayoutNode, LayoutView, PaneId};
use vstd::prelude::*;

verus! {

broadcast use crate::mux::tree::layout_view_cases;

/// Fractional rectangle in [0,1] pane-container space. The page turns these
/// into percentages; pixels are not known here.
#[derive(Clone, Copy, Debug, PartialEq, Eq, Structural)]
pub struct Rect {
    pub x: Share,
    pub y: Share,
    pub w: Share,
    pub h: Share,
}

impl Rect {
    /// The whole of it.
    pub open spec fn whole() -> Rect {
        Rect {
            x: Share { bits: ZERO },
            y: Share { bits: ZERO },
            w: Share { bits: ONE },
            h: Share { bits: ONE },
        }
    }

    pub fn full() -> (r: Rect)
        ensures
            r == Rect::whole(),
    {
        Rect {
            x: Share { bits: ZERO },
            y: Share { bits: ZERO },
            w: Share { bits: ONE },
            h: Share { bits: ONE },
        }
    }
}

/// All pane ids in visual order, depth first.
pub open spec fn leaves_of(v: LayoutView) -> Seq<PaneId>
    decreases v,
{
    match v {
        LayoutView::Leaf(p) => seq![p],
        LayoutView::Split { dir, children } => leaves_upto(children, children.len()),
    }
}

/// The pane ids under the first `n` children.
pub open spec fn leaves_upto(children: Seq<(Share, LayoutView)>, n: nat) -> Seq<PaneId>
    decreases children, n,
{
    if n == 0 || n > children.len() {
        Seq::empty()
    } else {
        leaves_upto(children, (n - 1) as nat) + leaves_of(children[n - 1].1)
    }
}

pub fn leaves(node: &LayoutNode) -> (r: Vec<PaneId>)
    ensures
        r@ == leaves_of(node@),
    decreases node,
{
    match node {
        LayoutNode::Leaf(p) => vec![*p],
        LayoutNode::Split { dir, children } => {
            let ghost cv = tree::children_view(children@);
            let mut out: Vec<PaneId> = Vec::new();
            let mut i: usize = 0;
            while i < children.len()
                invariant
                    i <= children@.len(),
                    node is Split,
                    node->children == *children,
                    cv == tree::children_view(children@),
                    out@ == leaves_upto(cv, i as nat),
                decreases children@.len() - i,
            {
                let mut more = leaves(&children[i].1);
                proof {
                    assert(cv[i as int].1 == children@[i as int].1@);
                }
                out.append(&mut more);
                i = i + 1;
            }
            out
        },
    }
}

impl Clone for LayoutNode {
    fn clone(&self) -> (r: Self)
        ensures
            r@ == self@,
        decreases self,
    {
        match self {
            LayoutNode::Leaf(p) => LayoutNode::Leaf(*p),
            LayoutNode::Split { dir, children } => {
                let mut out: Vec<(Share, LayoutNode)> = Vec::new();
                let mut i: usize = 0;
                while i < children.len()
                    invariant
                        i <= children@.len(),
                        self is Split,
                        self->children == *children,
                        out@.len() == i,
                        forall|k: int|
                            0 <= k < i ==> (#[trigger] out@[k]).0 == children@[k].0 && out@[k].1@
                                == children@[k].1@,
                    decreases children@.len() - i,
                {
                    let node = children[i].1.clone();
                    out.push((children[i].0, node));
                    i = i + 1;
                }
                proof {
                    assert(tree::children_view(out@) =~= tree::children_view(children@));
                }
                LayoutNode::Split { dir: *dir, children: out }
            },
        }
    }
}

/// Two panes that share the place of one.
pub open spec fn halves(target: PaneId, dir: Dir, new_pane: PaneId) -> LayoutView {
    LayoutView::Split {
        dir,
        children: seq![
            (Share { bits: HALF }, LayoutView::Leaf(target)),
            (Share { bits: HALF }, LayoutView::Leaf(new_pane)),
        ],
    }
}

/// The tree after a pane was split in two.
pub open spec fn split_view(v: LayoutView, target: PaneId, dir: Dir, new_pane: PaneId) -> LayoutView
    decreases v,
{
    match v {
        LayoutView::Leaf(p) => if p == target {
            halves(target, dir, new_pane)
        } else {
            v
        },
        LayoutView::Split { dir: d, children } => LayoutView::Split {
            dir: d,
            children: split_upto(children, children.len(), target, dir, new_pane),
        },
    }
}

/// The first `n` children after the split: the first that holds the pane
/// changes.
pub open spec fn split_upto(
    children: Seq<(Share, LayoutView)>,
    n: nat,
    target: PaneId,
    dir: Dir,
    new_pane: PaneId,
) -> Seq<(Share, LayoutView)>
    decreases children, n,
{
    if n == 0 || n > children.len() {
        Seq::empty()
    } else {
        let before = split_upto(children, (n - 1) as nat, target, dir, new_pane);
        let c = children[n - 1];
        if leaves_of(c.1).contains(target) && !leaves_upto(children, (n - 1) as nat).contains(
            target,
        ) {
            before.push((c.0, split_view(c.1, target, dir, new_pane)))
        } else {
            before.push(c)
        }
    }
}

fn has_leaf(node: &LayoutNode, target: PaneId) -> (r: bool)
    ensures
        r == leaves_of(node@).contains(target),
{
    let ids = leaves(node);
    is_among(&ids, target)
}

pub fn is_among(ids: &Vec<PaneId>, target: PaneId) -> (r: bool)
    ensures
        r == ids@.contains(target),
{
    let mut i: usize = 0;
    while i < ids.len()
        invariant
            i <= ids@.len(),
            forall|k: int| 0 <= k < i ==> #[trigger] ids@[k] != target,
        decreases ids@.len() - i,
    {
        if ids[i] == target {
            return true;
        }
        i = i + 1;
    }
    false
}

/// Split a pane in two; a tree without the pane stays as it is.
pub fn split_leaf(node: &LayoutNode, target: PaneId, dir: Dir, new_pane: PaneId) -> (r: LayoutNode)
    ensures
        r@ == split_view(node@, target, dir, new_pane),
    decreases node,
{
    match node {
        LayoutNode::Leaf(p) => {
            if *p == target {
                let children = vec![
                    (Share { bits: HALF }, LayoutNode::Leaf(target)),
                    (Share { bits: HALF }, LayoutNode::Leaf(new_pane)),
                ];
                proof {
                    assert(tree::children_view(children@) =~= halves(target, dir, new_pane)->children);
                }
                LayoutNode::Split { dir, children }
            } else {
                LayoutNode::Leaf(*p)
            }
        },
        LayoutNode::Split { dir: d, children } => {
            let ghost cv = tree::children_view(children@);
            let mut out: Vec<(Share, LayoutNode)> = Vec::new();
            let mut done = false;
            let mut i: usize = 0;
            proof {
                assert(tree::children_view(out@) =~= split_upto(cv, 0, target, dir, new_pane));
            }
            while i < children.len()
                invariant
                    i <= children@.len(),
                    node is Split,
                    node->children == *children,
                    cv == tree::children_view(children@),
                    done == leaves_upto(cv, i as nat).contains(target),
                    tree::children_view(out@) == split_upto(cv, i as nat, target, dir, new_pane),
                decreases children@.len() - i,
            {
                let ghost before = tree::children_view(out@);
                let share = children[i].0;
                let here = has_leaf(&children[i].1, target);
                let child = if here && !done {
                    split_leaf(&children[i].1, target, dir, new_pane)
                } else {
                    children[i].1.clone()
                };
                let ghost kept = child@;
                out.push((share, child));
                proof {
                    assert(cv[i as int] == (share, children@[i as int].1@));
                    assert(tree::children_view(out@) =~= before.push((share, kept)));
                    contains_concat(
                        leaves_upto(cv, i as nat),
                        leaves_of(cv[i as int].1),
                        target,
                    );
                }
                done = done || here;
                i = i + 1;
            }
            LayoutNode::Split { dir: *d, children: out }
        },
    }
}

proof fn contains_concat(a: Seq<PaneId>, b: Seq<PaneId>, x: PaneId)
    ensures
        (a + b).contains(x) == (a.contains(x) || b.contains(x)),
{
    if a.contains(x) {
        let i = choose|i: int| 0 <= i < a.len() && a[i] == x;
        assert((a + b)[i] == x);
    }
    if b.contains(x) {
        let i = choose|i: int| 0 <= i < b.len() && b[i] == x;
        assert((a + b)[a.len() + i] == x);
    }
    if (a + b).contains(x) {
        let i = choose|i: int| 0 <= i < (a + b).len() && (a + b)[i] == x;
        if i < a.len() {
            assert(a[i] == x);
        } else {
            assert(b[i - a.len()] == x);
        }
    }
}

/// A sequence with `x` put behind the first `t`.
pub open spec fn behind_first(s: Seq<PaneId>, t: PaneId, x: PaneId) -> Seq<PaneId>
    decreases s.len(),
{
    if s.len() == 0 {
        s
    } else if s[0] == t {
        seq![t, x] + s.drop_first()
    } else {
        seq![s[0]] + behind_first(s.drop_first(), t, x)
    }
}

proof fn behind_first_concat(a: Seq<PaneId>, b: Seq<PaneId>, t: PaneId, x: PaneId)
    ensures
        behind_first(a + b, t, x) == if a.contains(t) {
            behind_first(a, t, x) + b
        } else {
            a + behind_first(b, t, x)
        },
    decreases a.len(),
{
    if a.len() == 0 {
        assert(a + b =~= b);
        assert(a + behind_first(b, t, x) =~= behind_first(b, t, x));
    } else {
        assert((a + b).drop_first() =~= a.drop_first() + b);
        behind_first_concat(a.drop_first(), b, t, x);
        if a[0] == t {
            assert(behind_first(a + b, t, x) =~= behind_first(a, t, x) + b);
        } else {
            if a.contains(t) {
                let i = choose|i: int| 0 <= i < a.len() && a[i] == t;
                assert(a.drop_first()[i - 1] == t);
                assert(behind_first(a + b, t, x) =~= behind_first(a, t, x) + b);
            } else {
                if a.drop_first().contains(t) {
                    let i = choose|i: int| 0 <= i < a.drop_first().len() && a.drop_first()[i] == t;
                    assert(a[i + 1] == t);
                }
                assert(behind_first(a + b, t, x) =~= a + behind_first(b, t, x));
            }
        }
    }
}

proof fn behind_first_absent(s: Seq<PaneId>, t: PaneId, x: PaneId)
    requires
        !s.contains(t),
    ensures
        behind_first(s, t, x) == s,
    decreases s.len(),
{
    if s.len() > 0 {
        assert(s[0] != t);
        if s.drop_first().contains(t) {
            let i = choose|i: int| 0 <= i < s.drop_first().len() && s.drop_first()[i] == t;
            assert(s[i + 1] == t);
        }
        behind_first_absent(s.drop_first(), t, x);
        assert(seq![s[0]] + s.drop_first() =~= s);
    }
}

/// Splitting a pane puts the new one right behind it and moves no other.
pub proof fn splitting_adds_one_pane(v: LayoutView, target: PaneId, dir: Dir, new_pane: PaneId)
    ensures
        leaves_of(split_view(v, target, dir, new_pane)) == behind_first(
            leaves_of(v),
            target,
            new_pane,
        ),
    decreases v,
{
    match v {
        LayoutView::Leaf(p) => {
            if p == target {
                let h = halves(target, dir, new_pane);
                let ch = h->children;
                assert(leaves_upto(ch, 0) =~= Seq::empty());
                assert(leaves_of(ch[0].1) =~= seq![target]);
                assert(leaves_upto(ch, 1) =~= seq![target]);
                assert(leaves_of(ch[1].1) =~= seq![new_pane]);
                assert(leaves_upto(ch, 2) =~= seq![target, new_pane]);
                assert(seq![p].drop_first() =~= Seq::empty());
                assert(behind_first(seq![p], target, new_pane) =~= seq![target, new_pane]);
            } else {
                behind_first_absent(seq![p], target, new_pane);
            }
        },
        LayoutView::Split { dir: d, children } => {
            splitting_upto(v, children, children.len(), target, dir, new_pane);
            let out = split_upto(children, children.len(), target, dir, new_pane);
            assert(out.len() == children.len());
        },
    }
}

proof fn splitting_upto(
    v: LayoutView,
    children: Seq<(Share, LayoutView)>,
    n: nat,
    target: PaneId,
    dir: Dir,
    new_pane: PaneId,
)
    requires
        v is Split,
        v->children == children,
        n <= children.len(),
    ensures
        split_upto(children, n, target, dir, new_pane).len() == n,
        leaves_upto(split_upto(children, n, target, dir, new_pane), n) == behind_first(
            leaves_upto(children, n),
            target,
            new_pane,
        ),
    decreases v, n,
{
    if n > 0 {
        let m = (n - 1) as nat;
        splitting_upto(v, children, m, target, dir, new_pane);
        let c = children[n - 1];
        splitting_adds_one_pane(c.1, target, dir, new_pane);
        let before = split_upto(children, m, target, dir, new_pane);
        let out = split_upto(children, n, target, dir, new_pane);
        leaves_upto_prefix(before, out, m);
        behind_first_concat(leaves_upto(children, m), leaves_of(c.1), target, new_pane);
        if !leaves_of(c.1).contains(target) {
            behind_first_absent(leaves_of(c.1), target, new_pane);
        }
        if !leaves_upto(children, m).contains(target) {
            behind_first_absent(leaves_upto(children, m), target, new_pane);
        }
    } else {
        assert(behind_first(Seq::empty(), target, new_pane) =~= Seq::empty());
    }
}

proof fn leaves_upto_prefix(
    a: Seq<(Share, LayoutView)>,
    b: Seq<(Share, LayoutView)>,
    n: nat,
)
    requires
        n <= a.len() <= b.len(),
        forall|i: int| 0 <= i < n ==> (#[trigger] a[i]).1 == b[i].1,
    ensures
        leaves_upto(a, n) == leaves_upto(b, n),
    decreases n,
{
    if n > 0 {
        leaves_upto_prefix(a, b, (n - 1) as nat);
        assert(a[n - 1].1 == b[n - 1].1);
    }
}

/// The sum of the first `n` shares.
pub open spec fn share_sum(children: Seq<(Share, LayoutView)>, n: nat, replies: ReplySeq) -> Result<
    Share,
    QueryView,
>
    decreases n,
{
    if n == 0 || n > children.len() {
        Ok(Share { bits: ZERO })
    } else {
        match share_sum(children, (n - 1) as nat, replies) {
            Err(q) => Err(q),
            Ok(total) => share::computed(FloatOp::Add, total, children[n - 1].0, replies),
        }
    }
}

proof fn share_sum_failure_stays(
    children: Seq<(Share, LayoutView)>,
    n: nat,
    m: nat,
    replies: ReplySeq,
)
    requires
        n <= m <= children.len(),
        share_sum(children, n, replies) is Err,
    ensures
        share_sum(children, m, replies) == share_sum(children, n, replies),
    decreases m - n,
{
    if n < m {
        share_sum_failure_stays(children, n, (m - 1) as nat, replies);
    }
}

fn sum_shares(children: &Vec<(Share, LayoutNode)>, replies: &Replies) -> (r: Result<Share, Query>)
    ensures
        share::share_result(r) == share_sum(tree::children_view(children@), children@.len(), replies@),
{
    let ghost cv = tree::children_view(children@);
    let mut total = Share { bits: ZERO };
    let mut i: usize = 0;
    while i < children.len()
        invariant
            i <= children@.len(),
            cv == tree::children_view(children@),
            share_sum(cv, i as nat, replies@) == Ok::<Share, QueryView>(total),
        decreases children@.len() - i,
    {
        proof {
            assert(cv[i as int].0 == children@[i as int].0);
        }
        match share::compute(FloatOp::Add, total, children[i].0, replies) {
            Ok(x) => {
                total = x;
            },
            Err(q) => {
                proof {
                    share_sum_failure_stays(cv, (i + 1) as nat, children@.len(), replies@);
                }
                return Err(q);
            },
        }
        i = i + 1;
    }
    Ok(total)
}

/// The first `n` children with their shares divided by a total.
pub open spec fn divided_upto(
    children: Seq<(Share, LayoutView)>,
    n: nat,
    total: Share,
    replies: ReplySeq,
) -> Result<Seq<(Share, LayoutView)>, QueryView>
    decreases n,
{
    if n == 0 || n > children.len() {
        Ok(Seq::empty())
    } else {
        match divided_upto(children, (n - 1) as nat, total, replies) {
            Err(q) => Err(q),
            Ok(out) => match share::computed(
                FloatOp::Div,
                children[n - 1].0,
                total,
                replies,
            ) {
                Err(q) => Err(q),
                Ok(x) => Ok(out.push((x, children[n - 1].1))),
            },
        }
    }
}

proof fn divided_failure_stays(
    children: Seq<(Share, LayoutView)>,
    n: nat,
    m: nat,
    total: Share,
    replies: ReplySeq,
)
    requires
        n <= m <= children.len(),
        divided_upto(children, n, total, replies) is Err,
    ensures
        divided_upto(children, m, total, replies) == divided_upto(children, n, total, replies),
    decreases m - n,
{
    if n < m {
        divided_failure_stays(children, n, (m - 1) as nat, total, replies);
    }
}

/// The children with their shares divided by their sum.
pub open spec fn normalized(children: Seq<(Share, LayoutView)>, replies: ReplySeq) -> Result<
    Seq<(Share, LayoutView)>,
    QueryView,
> {
    match share_sum(children, children.len(), replies) {
        Err(q) => Err(q),
        Ok(total) => divided_upto(children, children.len(), total, replies),
    }
}

fn normalize(children: Vec<(Share, LayoutNode)>, replies: &Replies) -> (r: Result<
    Vec<(Share, LayoutNode)>,
    Query,
>)
    ensures
        match r {
            Ok(out) => normalized(tree::children_view(children@), replies@) == Ok::<
                Seq<(Share, LayoutView)>,
                QueryView,
            >(tree::children_view(out@)),
            Err(q) => normalized(tree::children_view(children@), replies@) == Err::<
                Seq<(Share, LayoutView)>,
                QueryView,
            >(q@),
        },
{
    let ghost cv = tree::children_view(children@);
    let total = match sum_shares(&children, replies) {
        Ok(t) => t,
        Err(q) => {
            return Err(q);
        },
    };
    let mut out: Vec<(Share, LayoutNode)> = Vec::new();
    let mut i: usize = 0;
    proof {
        assert(tree::children_view(out@) =~= Seq::empty());
    }
    while i < children.len()
        invariant
            i <= children@.len(),
            cv == tree::children_view(children@),
            share_sum(cv, cv.len(), replies@) == Ok::<Share, QueryView>(total),
            divided_upto(cv, i as nat, total, replies@) == Ok::<
                Seq<(Share, LayoutView)>,
                QueryView,
            >(tree::children_view(out@)),
        decreases children@.len() - i,
    {
        proof {
            assert(cv[i as int] == (children@[i as int].0, children@[i as int].1@));
        }
        match share::compute(FloatOp::Div, children[i].0, total, replies) {
            Ok(x) => {
                let ghost before = tree::children_view(out@);
                let child = children[i].1.clone();
                out.push((x, child));
                proof {
                    assert(tree::children_view(out@) =~= before.push((x, cv[i as int].1)));
                }
            },
            Err(q) => {
                proof {
                    divided_failure_stays(cv, (i + 1) as nat, cv.len(), total, replies@);
                }
                return Err(q);
            },
        }
        i = i + 1;
    }
    Ok(out)
}

/// The tree without a pane; `None` means the whole (sub)tree vanished.
/// Single-child splits collapse; sibling fractions renormalize.
pub open spec fn removed(v: LayoutView, target: PaneId, replies: ReplySeq) -> Result<
    Option<LayoutView>,
    QueryView,
>
    decreases v,
{
    match v {
        LayoutView::Leaf(p) => if p == target {
            Ok(None)
        } else {
            Ok(Some(v))
        },
        LayoutView::Split { dir, children } => match kept_upto(
            children,
            children.len(),
            target,
            replies,
        ) {
            Err(q) => Err(q),
            Ok(kept) => if kept.len() == 0 {
                Ok(None)
            } else if kept.len() == 1 {
                Ok(Some(kept[0].1))
            } else {
                match normalized(kept, replies) {
                    Err(q) => Err(q),
                    Ok(out) => Ok(Some(LayoutView::Split { dir, children: out })),
                }
            },
        },
    }
}

/// What is left of the first `n` children.
pub open spec fn kept_upto(
    children: Seq<(Share, LayoutView)>,
    n: nat,
    target: PaneId,
    replies: ReplySeq,
) -> Result<Seq<(Share, LayoutView)>, QueryView>
    decreases children, n,
{
    if n == 0 || n > children.len() {
        Ok(Seq::empty())
    } else {
        match kept_upto(children, (n - 1) as nat, target, replies) {
            Err(q) => Err(q),
            Ok(out) => match removed(children[n - 1].1, target, replies) {
                Err(q) => Err(q),
                Ok(None) => Ok(out),
                Ok(Some(sub)) => Ok(out.push((children[n - 1].0, sub))),
            },
        }
    }
}

proof fn kept_failure_stays(
    children: Seq<(Share, LayoutView)>,
    n: nat,
    m: nat,
    target: PaneId,
    replies: ReplySeq,
)
    requires
        n <= m <= children.len(),
        kept_upto(children, n, target, replies) is Err,
    ensures
        kept_upto(children, m, target, replies) == kept_upto(children, n, target, replies),
    decreases m - n,
{
    if n < m {
        kept_failure_stays(children, n, (m - 1) as nat, target, replies);
    }
}

/// A tree that may have vanished, or the query that is needed.
pub open spec fn tree_result(r: Result<Option<LayoutNode>, Query>) -> Result<
    Option<LayoutView>,
    QueryView,
> {
    match r {
        Ok(Some(n)) => Ok(Some(n@)),
        Ok(None) => Ok(None),
        Err(q) => Err(q@),
    }
}

/// Remove a leaf.
pub fn remove_leaf(node: &LayoutNode, target: PaneId, replies: &Replies) -> (r: Result<
    Option<LayoutNode>,
    Query,
>)
    ensures
        tree_result(r) == removed(node@, target, replies@),
    decreases node,
{
    match node {
        LayoutNode::Leaf(p) => {
            if *p == target {
                Ok(None)
            } else {
                Ok(Some(LayoutNode::Leaf(*p)))
            }
        },
        LayoutNode::Split { dir, children } => {
            let ghost cv = tree::children_view(children@);
            let mut kept: Vec<(Share, LayoutNode)> = Vec::new();
            let mut i: usize = 0;
            proof {
                assert(tree::children_view(kept@) =~= Seq::empty());
            }
            while i < children.len()
                invariant
                    i <= children@.len(),
                    node is Split,
                    node->children == *children,
                    node->dir == *dir,
                    cv == tree::children_view(children@),
                    kept_upto(cv, i as nat, target, replies@) == Ok::<
                        Seq<(Share, LayoutView)>,
                        QueryView,
                    >(tree::children_view(kept@)),
                decreases children@.len() - i,
            {
                proof {
                    assert(cv[i as int] == (children@[i as int].0, children@[i as int].1@));
                }
                match remove_leaf(&children[i].1, target, replies) {
                    Ok(Some(sub)) => {
                        let ghost before = tree::children_view(kept@);
                        let ghost sv = sub@;
                        let share = children[i].0;
                        kept.push((share, sub));
                        proof {
                            assert(tree::children_view(kept@) =~= before.push((share, sv)));
                        }
                    },
                    Ok(None) => {},
                    Err(q) => {
                        proof {
                            kept_failure_stays(
                                cv,
                                (i + 1) as nat,
                                cv.len(),
                                target,
                                replies@,
                            );
                        }
                        return Err(q);
                    },
                }
                i = i + 1;
            }
            if kept.len() == 0 {
                return Ok(None);
            }
            if kept.len() == 1 {
                let ghost kv = tree::children_view(kept@);
                proof {
                    assert(kv[0].1 == kept@[0].1@);
                }
                let only = kept[0].1.clone();
                return Ok(Some(only));
            }
            match normalize(kept, replies) {
                Ok(out) => Ok(Some(LayoutNode::Split { dir: *dir, children: out })),
                Err(q) => Err(q),
            }
        },
    }
}

/// All panes but one.
pub open spec fn other_than(target: PaneId) -> spec_fn(PaneId) -> bool {
    |p: PaneId| p != target
}

proof fn divided_keeps_leaves(
    children: Seq<(Share, LayoutView)>,
    n: nat,
    total: Share,
    replies: ReplySeq,
)
    requires
        n <= children.len(),
        divided_upto(children, n, total, replies) is Ok,
    ensures
        ({
            let out = divided_upto(children, n, total, replies)->Ok_0;
            out.len() == n && leaves_upto(out, n) == leaves_upto(children, n) && forall|i: int|
                0 <= i < n ==> (#[trigger] out[i]).1 == children[i].1
        }),
    decreases n,
{
    if n > 0 {
        let m = (n - 1) as nat;
        divided_keeps_leaves(children, m, total, replies);
        let before = divided_upto(children, m, total, replies)->Ok_0;
        let out = divided_upto(children, n, total, replies)->Ok_0;
        leaves_upto_prefix(before, out, m);
    }
}

/// Removing a pane keeps all others in their order. The tree vanishes exactly
/// where none is left.
pub proof fn removing_keeps_the_others(v: LayoutView, target: PaneId, replies: ReplySeq)
    ensures
        match removed(v, target, replies) {
            Ok(Some(w)) => leaves_of(w) == leaves_of(v).filter(other_than(target))
                && leaves_of(w).len() > 0,
            Ok(None) => leaves_of(v).filter(other_than(target)).len() == 0,
            Err(_) => true,
        },
    decreases v,
{
    let p = other_than(target);
    match v {
        LayoutView::Leaf(id) => {
            reveal(Seq::filter);
            let none: Seq<PaneId> = Seq::empty();
            assert(seq![id].drop_last() =~= none);
            assert(none.filter(p) =~= none);
            assert(seq![id].filter(p) =~= if p(id) {
                seq![id]
            } else {
                none
            });
        },
        LayoutView::Split { dir, children } => {
            removing_upto(v, children, children.len(), target, replies);
            match kept_upto(children, children.len(), target, replies) {
                Ok(kept) => {
                    if kept.len() == 1 {
                        assert(leaves_upto(kept, 0) =~= Seq::empty());
                        assert(leaves_upto(kept, 1) =~= leaves_of(kept[0].1));
                    } else if kept.len() > 1 {
                        match normalized(kept, replies) {
                            Ok(out) => {
                                let total = share_sum(kept, kept.len(), replies)->Ok_0;
                                divided_keeps_leaves(kept, kept.len(), total, replies);
                            },
                            Err(_) => {},
                        }
                    }
                },
                Err(_) => {},
            }
        },
    }
}

proof fn removing_upto(
    v: LayoutView,
    children: Seq<(Share, LayoutView)>,
    n: nat,
    target: PaneId,
    replies: ReplySeq,
)
    requires
        v is Split,
        v->children == children,
        n <= children.len(),
    ensures
        match kept_upto(children, n, target, replies) {
            Ok(kept) => leaves_upto(kept, kept.len()) == leaves_upto(children, n).filter(
                other_than(target),
            ) && (kept.len() > 0 ==> leaves_upto(kept, kept.len()).len() > 0),
            Err(_) => true,
        },
    decreases v, n,
{
    let p = other_than(target);
    if n > 0 {
        let m = (n - 1) as nat;
        removing_upto(v, children, m, target, replies);
        removing_keeps_the_others(children[n - 1].1, target, replies);
        filter_concat(leaves_upto(children, m), leaves_of(children[n - 1].1), target);
        match kept_upto(children, m, target, replies) {
            Ok(before) => match removed(children[n - 1].1, target, replies) {
                Ok(Some(sub)) => {
                    let kept = before.push((children[n - 1].0, sub));
                    leaves_upto_prefix(before, kept, before.len());
                },
                Ok(None) => {
                    assert(leaves_of(children[n - 1].1).filter(p) =~= Seq::empty());
                    let rest = leaves_upto(children, m).filter(p);
                    assert(rest + Seq::<PaneId>::empty() =~= rest);
                },
                Err(_) => {},
            },
            Err(_) => {},
        }
    } else {
        reveal(Seq::filter);
        let none: Seq<PaneId> = Seq::empty();
        assert(none.filter(p) =~= none);
    }
}

proof fn filter_concat(a: Seq<PaneId>, b: Seq<PaneId>, target: PaneId)
    ensures
        (a + b).filter(other_than(target)) == a.filter(other_than(target)) + b.filter(
            other_than(target),
        ),
    decreases b.len(),
{
    reveal(Seq::filter);
    let p = other_than(target);
    if b.len() == 0 {
        assert(a + b =~= a);
        assert(b.filter(p) =~= Seq::empty());
        assert(a.filter(p) + Seq::<PaneId>::empty() =~= a.filter(p));
    } else {
        assert((a + b).drop_last() =~= a + b.drop_last());
        filter_concat(a, b.drop_last(), target);
        assert((a + b).last() == b.last());
        if p(b.last()) {
            assert((a + b).filter(p) =~= a.filter(p) + b.filter(p));
        }
    }
}

/// Panes with their rectangles.
pub type Placed = (PaneId, Rect);

/// The part of a rectangle that starts at `offset` and takes `portion` of it.
pub open spec fn part_of(
    rect: Rect,
    dir: Dir,
    offset: Share,
    portion: Share,
    replies: ReplySeq,
) -> Result<Rect, QueryView> {
    let (from, size) = match dir {
        Dir::Row => (rect.x, rect.w),
        Dir::Col => (rect.y, rect.h),
    };
    match share::computed(FloatOp::Mul, size, offset, replies) {
        Err(q) => Err(q),
        Ok(shift) => match share::computed(FloatOp::Add, from, shift, replies) {
            Err(q) => Err(q),
            Ok(start) => match share::computed(FloatOp::Mul, size, portion, replies) {
                Err(q) => Err(q),
                Ok(extent) => Ok(
                    match dir {
                        Dir::Row => Rect { x: start, y: rect.y, w: extent, h: rect.h },
                        Dir::Col => Rect { x: rect.x, y: start, w: rect.w, h: extent },
                    },
                ),
            },
        },
    }
}

fn take_part(rect: Rect, dir: Dir, offset: Share, portion: Share, replies: &Replies) -> (r: Result<
    Rect,
    Query,
>)
    ensures
        match r {
            Ok(x) => part_of(rect, dir, offset, portion, replies@) == Ok::<Rect, QueryView>(x),
            Err(q) => part_of(rect, dir, offset, portion, replies@) == Err::<Rect, QueryView>(q@),
        },
{
    let from = match dir {
        Dir::Row => rect.x,
        Dir::Col => rect.y,
    };
    let size = match dir {
        Dir::Row => rect.w,
        Dir::Col => rect.h,
    };
    let shift = match share::compute(FloatOp::Mul, size, offset, replies) {
        Ok(x) => x,
        Err(q) => {
            return Err(q);
        },
    };
    let start = match share::compute(FloatOp::Add, from, shift, replies) {
        Ok(x) => x,
        Err(q) => {
            return Err(q);
        },
    };
    let extent = match share::compute(FloatOp::Mul, size, portion, replies) {
        Ok(x) => x,
        Err(q) => {
            return Err(q);
        },
    };
    match dir {
        Dir::Row => Ok(Rect { x: start, y: rect.y, w: extent, h: rect.h }),
        Dir::Col => Ok(Rect { x: rect.x, y: start, w: rect.w, h: extent }),
    }
}

/// What the shares of a split are divided by: their sum, or one where that is
/// not above zero.
pub open spec fn divisor(children: Seq<(Share, LayoutView)>, replies: ReplySeq) -> Result<
    Share,
    QueryView,
> {
    match share_sum(children, children.len(), replies) {
        Err(q) => Err(q),
        Ok(total) => Ok(
            if !total.nan() && !(Share { bits: ZERO }).below(total) {
                Share { bits: ONE }
            } else {
                total
            },
        ),
    }
}

/// The rectangles of a tree: each split shares its rectangle out in proportion.
pub open spec fn laid_out(v: LayoutView, rect: Rect, replies: ReplySeq) -> Result<
    Seq<Placed>,
    QueryView,
>
    decreases v,
{
    match v {
        LayoutView::Leaf(p) => Ok(seq![(p, rect)]),
        LayoutView::Split { dir, children } => match divisor(children, replies) {
            Err(q) => Err(q),
            Ok(total) => match laid_upto(children, children.len(), dir, total, rect, replies) {
                Err(q) => Err(q),
                Ok((out, _)) => Ok(out),
            },
        },
    }
}

/// The rectangles under the first `n` children, and where the next one starts.
pub open spec fn laid_upto(
    children: Seq<(Share, LayoutView)>,
    n: nat,
    dir: Dir,
    total: Share,
    rect: Rect,
    replies: ReplySeq,
) -> Result<(Seq<Placed>, Share), QueryView>
    decreases children, n,
{
    if n == 0 || n > children.len() {
        Ok((Seq::empty(), Share { bits: ZERO }))
    } else {
        match laid_upto(children, (n - 1) as nat, dir, total, rect, replies) {
            Err(q) => Err(q),
            Ok((out, offset)) => match share::computed(
                FloatOp::Div,
                children[n - 1].0,
                total,
                replies,
            ) {
                Err(q) => Err(q),
                Ok(portion) => match part_of(rect, dir, offset, portion, replies) {
                    Err(q) => Err(q),
                    Ok(sub) => match laid_out(children[n - 1].1, sub, replies) {
                        Err(q) => Err(q),
                        Ok(more) => match share::computed(
                            FloatOp::Add,
                            offset,
                            portion,
                            replies,
                        ) {
                            Err(q) => Err(q),
                            Ok(next) => Ok((out + more, next)),
                        },
                    },
                },
            },
        }
    }
}

proof fn laid_failure_stays(
    children: Seq<(Share, LayoutView)>,
    n: nat,
    m: nat,
    dir: Dir,
    total: Share,
    rect: Rect,
    replies: ReplySeq,
)
    requires
        n <= m <= children.len(),
        laid_upto(children, n, dir, total, rect, replies) is Err,
    ensures
        laid_upto(children, m, dir, total, rect, replies) == laid_upto(
            children,
            n,
            dir,
            total,
            rect,
            replies,
        ),
    decreases m - n,
{
    if n < m {
        laid_failure_stays(children, n, (m - 1) as nat, dir, total, rect, replies);
    }
}

/// Rectangles, or the query that is needed.
pub open spec fn placed_result(r: Result<Vec<Placed>, Query>) -> Result<Seq<Placed>, QueryView> {
    match r {
        Ok(v) => Ok(v@),
        Err(q) => Err(q@),
    }
}

fn find_divisor(children: &Vec<(Share, LayoutNode)>, replies: &Replies) -> (r: Result<Share, Query>)
    ensures
        share::share_result(r) == divisor(tree::children_view(children@), replies@),
{
    match sum_shares(children, replies) {
        Ok(total) => {
            let zero = Share { bits: ZERO };
            if !total.is_nan() && !zero.less(&total) {
                Ok(Share { bits: ONE })
            } else {
                Ok(total)
            }
        },
        Err(q) => Err(q),
    }
}

/// Pure layout math: fractions in, fractional rects out.
pub fn layout(node: &LayoutNode, rect: Rect, replies: &Replies) -> (r: Result<Vec<Placed>, Query>)
    ensures
        placed_result(r) == laid_out(node@, rect, replies@),
    decreases node,
{
    match node {
        LayoutNode::Leaf(p) => {
            let out = vec![(*p, rect)];
            proof {
                assert(out@ =~= seq![(*p, rect)]);
            }
            Ok(out)
        },
        LayoutNode::Split { dir, children } => {
            let ghost cv = tree::children_view(children@);
            let total = match find_divisor(children, replies) {
                Ok(t) => t,
                Err(q) => {
                    return Err(q);
                },
            };
            let ghost goal = laid_upto(cv, cv.len(), *dir, total, rect, replies@);
            let mut out: Vec<Placed> = Vec::new();
            let mut offset = Share { bits: ZERO };
            let mut i: usize = 0;
            while i < children.len()
                invariant
                    i <= children@.len(),
                    node is Split,
                    node->children == *children,
                    node->dir == *dir,
                    cv == tree::children_view(children@),
                    divisor(cv, replies@) == Ok::<Share, QueryView>(total),
                    goal == laid_upto(cv, cv.len(), *dir, total, rect, replies@),
                    laid_upto(cv, i as nat, *dir, total, rect, replies@) == Ok::<
                        (Seq<Placed>, Share),
                        QueryView,
                    >((out@, offset)),
                decreases children@.len() - i,
            {
                proof {
                    assert(cv[i as int] == (children@[i as int].0, children@[i as int].1@));
                    if laid_upto(cv, (i + 1) as nat, *dir, total, rect, replies@) is Err {
                        laid_failure_stays(
                            cv,
                            (i + 1) as nat,
                            cv.len(),
                            *dir,
                            total,
                            rect,
                            replies@,
                        );
                    }
                }
                let portion = match share::compute(FloatOp::Div, children[i].0, total, replies) {
                    Ok(x) => x,
                    Err(q) => {
                        return Err(q);
                    },
                };
                let sub = match take_part(rect, *dir, offset, portion, replies) {
                    Ok(x) => x,
                    Err(q) => {
                        return Err(q);
                    },
                };
                let mut more = match layout(&children[i].1, sub, replies) {
                    Ok(x) => x,
                    Err(q) => {
                        return Err(q);
                    },
                };
                let next = match share::compute(FloatOp::Add, offset, portion, replies) {
                    Ok(x) => x,
                    Err(q) => {
                        return Err(q);
                    },
                };
                out.append(&mut more);
                offset = next;
                i = i + 1;
            }
            Ok(out)
        },
    }
}

pub open spec fn placed_ids(rects: Seq<Placed>) -> Seq<PaneId> {
    rects.map_values(|r: Placed| r.0)
}

/// A layout gives every pane of the tree one rectangle, in visual order.
pub proof fn layout_places_every_pane(v: LayoutView, rect: Rect, replies: ReplySeq)
    ensures
        laid_out(v, rect, replies) matches Ok(rects) ==> placed_ids(rects) == leaves_of(v),
    decreases v,
{
    match v {
        LayoutView::Leaf(p) => {
            assert(placed_ids(seq![(p, rect)]) =~= seq![p]);
        },
        LayoutView::Split { dir, children } => {
            match divisor(children, replies) {
                Ok(total) => {
                    placing_upto(v, children, children.len(), dir, total, rect, replies);
                },
                Err(_) => {},
            }
        },
    }
}

proof fn placing_upto(
    v: LayoutView,
    children: Seq<(Share, LayoutView)>,
    n: nat,
    dir: Dir,
    total: Share,
    rect: Rect,
    replies: ReplySeq,
)
    requires
        v is Split,
        v->children == children,
        n <= children.len(),
    ensures
        laid_upto(children, n, dir, total, rect, replies) matches Ok((rects, _)) ==> placed_ids(
            rects,
        ) == leaves_upto(children, n),
    decreases v, n,
{
    if n > 0 {
        let m = (n - 1) as nat;
        placing_upto(v, children, m, dir, total, rect, replies);
        match laid_upto(children, m, dir, total, rect, replies) {
            Ok((out, offset)) => match share::computed(
                FloatOp::Div,
                children[n - 1].0,
                total,
                replies,
            ) {
                Ok(portion) => match part_of(rect, dir, offset, portion, replies) {
                    Ok(sub) => {
                        layout_places_every_pane(children[n - 1].1, sub, replies);
                        match laid_out(children[n - 1].1, sub, replies) {
                            Ok(more) => {
                                assert(placed_ids(out + more) =~= placed_ids(out) + placed_ids(
                                    more,
                                ));
                            },
                            Err(_) => {},
                        }
                    },
                    Err(_) => {},
                },
                Err(_) => {},
            },
            Err(_) => {},
        }
    } else {
        assert(placed_ids(Seq::empty()) =~= leaves_upto(children, 0));
    }
}

/// A fraction held between two bounds.
pub open spec fn clamped(x: Share, lo: Share, hi: Share) -> Share {
    if x.below(lo) {
        lo
    } else if hi.below(x) {
        hi
    } else {
        x
    }
}

/// The children of a split after the divider behind child `k` moved: that
/// child takes `fraction`, its right/lower sibling absorbs the difference.
/// `None` where there is no such divider, or no room on both sides of it.
pub open spec fn divider_moved(
    children: Seq<(Share, LayoutView)>,
    k: int,
    fraction: Share,
    replies: ReplySeq,
) -> Result<Option<Seq<(Share, LayoutView)>>, QueryView> {
    let least = Share { bits: TWENTIETH };
    if k + 1 >= children.len() {
        Ok(None)
    } else {
        match share::computed(FloatOp::Add, children[k].0, children[k + 1].0, replies) {
            Err(q) => Err(q),
            Ok(pair) => match share::computed(FloatOp::Sub, pair, least, replies) {
                Err(q) => Err(q),
                Ok(most) => if most.nan() || most.below(least) {
                    Ok(None)
                } else {
                    let taken = clamped(fraction, least, most);
                    match share::computed(FloatOp::Sub, pair, taken, replies) {
                        Err(q) => Err(q),
                        Ok(left) => Ok(
                            Some(
                                children.update(k, (taken, children[k].1)).update(
                                    k + 1,
                                    (left, children[k + 1].1),
                                ),
                            ),
                        ),
                    }
                },
            },
        }
    }
}

/// The tree after a divider drag: `path` walks split children from the root,
/// its last step names the child. `None` where the path leads nowhere.
pub open spec fn resized(
    v: LayoutView,
    path: Seq<usize>,
    fraction: Share,
    replies: ReplySeq,
) -> Result<Option<LayoutView>, QueryView>
    decreases path.len(),
{
    match v {
        LayoutView::Leaf(_) => Ok(None),
        LayoutView::Split { dir, children } => if path.len() == 0 {
            Ok(None)
        } else if path.len() == 1 {
            match divider_moved(children, path[0] as int, fraction, replies) {
                Err(q) => Err(q),
                Ok(None) => Ok(None),
                Ok(Some(out)) => Ok(Some(LayoutView::Split { dir, children: out })),
            }
        } else if path[0] < children.len() {
            match resized(
                children[path[0] as int].1,
                path.drop_first(),
                fraction,
                replies,
            ) {
                Err(q) => Err(q),
                Ok(None) => Ok(None),
                Ok(Some(sub)) => Ok(
                    Some(
                        LayoutView::Split {
                            dir,
                            children: children.update(
                                path[0] as int,
                                (children[path[0] as int].0, sub),
                            ),
                        },
                    ),
                ),
            }
        } else {
            Ok(None)
        },
    }
}

fn clamp(x: Share, lo: Share, hi: Share) -> (r: Share)
    ensures
        r == clamped(x, lo, hi),
{
    if x.less(&lo) {
        lo
    } else if hi.less(&x) {
        hi
    } else {
        x
    }
}

fn clone_children(children: &Vec<(Share, LayoutNode)>) -> (r: Vec<(Share, LayoutNode)>)
    ensures
        tree::children_view(r@) == tree::children_view(children@),
        r@.len() == children@.len(),
{
    let mut out: Vec<(Share, LayoutNode)> = Vec::new();
    let mut i: usize = 0;
    while i < children.len()
        invariant
            i <= children@.len(),
            out@.len() == i,
            forall|k: int|
                0 <= k < i ==> (#[trigger] out@[k]).0 == children@[k].0 && out@[k].1@
                    == children@[k].1@,
        decreases children@.len() - i,
    {
        let node = children[i].1.clone();
        out.push((children[i].0, node));
        i = i + 1;
    }
    proof {
        assert(tree::children_view(out@) =~= tree::children_view(children@));
    }
    out
}

fn move_divider(
    children: &Vec<(Share, LayoutNode)>,
    k: usize,
    fraction: Share,
    replies: &Replies,
) -> (r: Result<Option<Vec<(Share, LayoutNode)>>, Query>)
    ensures
        ({
            let goal = divider_moved(
                tree::children_view(children@),
                k as int,
                fraction,
                replies@,
            );
            match r {
                Ok(Some(out)) => goal == Ok::<Option<Seq<(Share, LayoutView)>>, QueryView>(
                    Some(tree::children_view(out@)),
                ),
                Ok(None) => goal == Ok::<Option<Seq<(Share, LayoutView)>>, QueryView>(None),
                Err(q) => goal == Err::<Option<Seq<(Share, LayoutView)>>, QueryView>(q@),
            }
        }),
{
    let ghost cv = tree::children_view(children@);
    let least = Share { bits: TWENTIETH };
    let n: usize = children.len();
    if k >= n || k + 1 >= n {
        return Ok(None);
    }
    proof {
        assert(cv[k as int] == (children@[k as int].0, children@[k as int].1@));
        assert(cv[k + 1] == (children@[k + 1].0, children@[k + 1].1@));
    }
    let pair = match share::compute(FloatOp::Add, children[k].0, children[k + 1].0, replies) {
        Ok(x) => x,
        Err(q) => {
            return Err(q);
        },
    };
    let most = match share::compute(FloatOp::Sub, pair, least, replies) {
        Ok(x) => x,
        Err(q) => {
            return Err(q);
        },
    };
    if most.is_nan() || most.less(&least) {
        return Ok(None);
    }
    let taken = clamp(fraction, least, most);
    let left = match share::compute(FloatOp::Sub, pair, taken, replies) {
        Ok(x) => x,
        Err(q) => {
            return Err(q);
        },
    };
    let mut out = clone_children(children);
    let first = children[k].1.clone();
    let second = children[k + 1].1.clone();
    out.set(k, (taken, first));
    out.set(k + 1, (left, second));
    proof {
        assert(tree::children_view(out@) =~= cv.update(k as int, (taken, cv[k as int].1)).update(
            k + 1,
            (left, cv[k + 1].1),
        ));
    }
    Ok(Some(out))
}

/// Move a divider.
pub fn resize_at(node: &LayoutNode, path: &[usize], fraction: Share, replies: &Replies) -> (r:
    Result<Option<LayoutNode>, Query>)
    ensures
        tree_result(r) == resized(node@, path@, fraction, replies@),
    decreases path@.len(),
{
    match node {
        LayoutNode::Leaf(_) => Ok(None),
        LayoutNode::Split { dir, children } => {
            let ghost cv = tree::children_view(children@);
            if path.len() == 0 {
                return Ok(None);
            }
            let k = path[0];
            if path.len() == 1 {
                return match move_divider(children, k, fraction, replies) {
                    Ok(Some(out)) => Ok(Some(LayoutNode::Split { dir: *dir, children: out })),
                    Ok(None) => Ok(None),
                    Err(q) => Err(q),
                };
            }
            if k >= children.len() {
                return Ok(None);
            }
            let rest = vstd::slice::slice_subrange(path, 1, path.len());
            proof {
                assert(rest@ =~= path@.drop_first());
                assert(cv[k as int] == (children@[k as int].0, children@[k as int].1@));
            }
            match resize_at(&children[k].1, rest, fraction, replies) {
                Ok(Some(sub)) => {
                    let ghost sv = sub@;
                    let mut out = clone_children(children);
                    let share = children[k].0;
                    out.set(k, (share, sub));
                    proof {
                        assert(tree::children_view(out@) =~= cv.update(k as int, (share, sv)));
                    }
                    Ok(Some(LayoutNode::Split { dir: *dir, children: out }))
                },
                Ok(None) => Ok(None),
                Err(q) => Err(q),
            }
        },
    }
}

/// Dragging a divider changes shares only: the panes and their order stay.
pub proof fn resizing_keeps_the_panes(
    v: LayoutView,
    path: Seq<usize>,
    fraction: Share,
    replies: ReplySeq,
)
    ensures
        resized(v, path, fraction, replies) matches Ok(Some(w)) ==> leaves_of(w) == leaves_of(v),
    decreases path.len(),
{
    match v {
        LayoutView::Leaf(_) => {},
        LayoutView::Split { dir, children } => {
            if path.len() == 1 {
                match divider_moved(children, path[0] as int, fraction, replies) {
                    Ok(Some(out)) => {
                        leaves_upto_same(children, out, children.len());
                    },
                    _ => {},
                }
            } else if path.len() > 1 && path[0] < children.len() {
                let k = path[0] as int;
                resizing_keeps_the_panes(children[k].1, path.drop_first(), fraction, replies);
                match resized(children[k].1, path.drop_first(), fraction, replies) {
                    Ok(Some(sub)) => {
                        leaves_upto_same(
                            children,
                            children.update(k, (children[k].0, sub)),
                            children.len(),
                        );
                    },
                    _ => {},
                }
            }
        },
    }
}

proof fn leaves_upto_same(
    a: Seq<(Share, LayoutView)>,
    b: Seq<(Share, LayoutView)>,
    n: nat,
)
    requires
        n <= a.len() == b.len(),
        forall|i: int| 0 <= i < a.len() ==> leaves_of((#[trigger] a[i]).1) == leaves_of(b[i].1),
    ensures
        leaves_upto(a, n) == leaves_upto(b, n),
    decreases n,
{
    if n > 0 {
        leaves_upto_same(a, b, (n - 1) as nat);
        assert(leaves_of(a[n - 1].1) == leaves_of(b[n - 1].1));
    }
}

} // verus!
