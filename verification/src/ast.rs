//! The store of a program's nodes.

use vstd::prelude::*;

use crate::expr::{expr_below, Expr, ExprView};
use crate::stmt::{branches_plain, stmt_below, Stmt, StmtView};

verus! {

/// The expressions and statements of the programs read so far. A node is
/// added behind its parts and never changed, so its index stays its name.
///
/// The store keeps account of where the parts of each node lie: for an
/// expression the lowest index among its parts, for a statement the range
/// of the expressions in it. The account shows that the nodes form trees:
/// no expression is a part of two nodes.
pub struct Ast {
    pub exprs: Vec<Expr>,
    pub stmts: Vec<Stmt>,
    /// For each expression, the lowest index among it and its parts.
    pub lows: Ghost<Seq<usize>>,
    /// For each statement, the range of the expressions in it: from the
    /// first index up to, but without, the second.
    pub ranges: Ghost<Seq<(usize, usize)>>,
}

/// The mathematical value of an [`Ast`].
pub struct AstView {
    pub exprs: Seq<ExprView>,
    pub stmts: Seq<StmtView>,
    pub lows: Seq<usize>,
    pub ranges: Seq<(usize, usize)>,
}

impl View for Ast {
    type V = AstView;

    open spec fn view(&self) -> AstView {
        AstView {
            exprs: self.exprs@.map_values(|e: Expr| e@),
            stmts: self.stmts@.map_values(|s: Stmt| s@),
            lows: self.lows@,
            ranges: self.ranges@,
        }
    }
}

/// The two ranges have no index in common.
pub open spec fn apart(a: (usize, usize), b: (usize, usize)) -> bool {
    a.1 <= b.0 || b.1 <= a.0
}

/// The range of the expression `e` and its parts.
pub open spec fn reach(lows: Seq<usize>, e: usize) -> (usize, usize) {
    (lows[e as int], (e + 1) as usize)
}

/// Each of the expressions `ids` lies, with its parts, behind the one
/// before it; the first lies behind `first`.
pub open spec fn chained(lows: Seq<usize>, first: usize, ids: Seq<usize>) -> bool {
    forall|k: int|
        0 <= k < ids.len() ==> (if k == 0 {
            first
        } else {
            ids[k - 1]
        }) < lows[#[trigger] ids[k] as int]
}

/// No two of the statements `ids` have an expression in common.
pub open spec fn apart_list(ranges: Seq<(usize, usize)>, ids: Seq<usize>) -> bool {
    forall|i: int, j: int|
        0 <= i < j < ids.len() ==> apart(
            ranges[#[trigger] ids[i] as int],
            ranges[#[trigger] ids[j] as int],
        )
}

/// The lowest start among the ranges of the statements `ids[from..]`.
pub open spec fn floor_of(ranges: Seq<(usize, usize)>, ids: Seq<usize>, from: int) -> usize
    decreases ids.len() - from,
{
    if from < 0 || from >= ids.len() {
        usize::MAX
    } else {
        let rest = floor_of(ranges, ids, from + 1);
        if ranges[ids[from] as int].0 < rest {
            ranges[ids[from] as int].0
        } else {
            rest
        }
    }
}

/// The highest end among the ranges of the statements `ids[from..]`.
pub open spec fn top_of(ranges: Seq<(usize, usize)>, ids: Seq<usize>, from: int) -> usize
    decreases ids.len() - from,
{
    if from < 0 || from >= ids.len() {
        0
    } else {
        let rest = top_of(ranges, ids, from + 1);
        if ranges[ids[from] as int].1 > rest {
            ranges[ids[from] as int].1
        } else {
            rest
        }
    }
}

/// The ranges of the statements `ids[from..]` lie between the lowest
/// start and the highest end.
pub proof fn lemma_fold_member(ranges: Seq<(usize, usize)>, ids: Seq<usize>, from: int, k: int)
    requires
        0 <= from <= k < ids.len(),
    ensures
        floor_of(ranges, ids, from) <= ranges[ids[k] as int].0,
        ranges[ids[k] as int].1 <= top_of(ranges, ids, from),
    decreases ids.len() - from,
{
    if from < k {
        lemma_fold_member(ranges, ids, from + 1, k);
    }
}

/// If every range lies between two bounds, so do the lowest start and the
/// highest end.
pub proof fn lemma_fold_bounds(
    ranges: Seq<(usize, usize)>,
    ids: Seq<usize>,
    from: int,
    lo: int,
    hi: int,
)
    requires
        0 <= from,
        0 <= hi,
        lo <= usize::MAX,
        forall|k: int|
            from <= k < ids.len() ==> lo <= ranges[#[trigger] ids[k] as int].0 && ranges[ids[k] as int].1
                <= hi,
    ensures
        lo <= floor_of(ranges, ids, from),
        top_of(ranges, ids, from) <= hi,
    decreases ids.len() - from,
{
    if from < ids.len() {
        lemma_fold_bounds(ranges, ids, from + 1, lo, hi);
        assert(lo <= ranges[ids[from] as int].0);
    }
}

/// The lowest start and the highest end depend on the ranges of the
/// statements alone.
pub proof fn lemma_fold_same(
    ranges: Seq<(usize, usize)>,
    other: Seq<(usize, usize)>,
    ids: Seq<usize>,
    from: int,
)
    requires
        0 <= from,
        forall|k: int| from <= k < ids.len() ==> other[#[trigger] ids[k] as int] == ranges[ids[k] as int],
    ensures
        floor_of(other, ids, from) == floor_of(ranges, ids, from),
        top_of(other, ids, from) == top_of(ranges, ids, from),
    decreases ids.len() - from,
{
    if from < ids.len() {
        lemma_fold_same(ranges, other, ids, from + 1);
        assert(other[ids[from] as int] == ranges[ids[from] as int]);
    }
}

/// The smaller of two indices.
pub open spec fn least(a: usize, b: usize) -> usize {
    if a < b {
        a
    } else {
        b
    }
}

/// The larger of two indices.
pub open spec fn most(a: usize, b: usize) -> usize {
    if a > b {
        a
    } else {
        b
    }
}

impl AstView {
    /// The lowest index among the expression `e`, which is to stand at
    /// `id`, and its parts: that of its first part, or `id` if it has no
    /// part.
    pub open spec fn low_of(self, e: ExprView, id: usize) -> usize {
        match e {
            ExprView::Binary { left, operator, right } => self.lows[left as int],
            ExprView::Grouping { expression } => self.lows[expression as int],
            ExprView::Literal { value } => id,
            ExprView::Unary { operator, right } => self.lows[right as int],
            ExprView::Variable { name } => id,
            ExprView::Assign { name, value } => self.lows[value as int],
            ExprView::Logical { left, operator, right } => self.lows[left as int],
            ExprView::Call { callee, paren, arguments } => self.lows[callee as int],
        }
    }

    /// The parts of the expression `e` lie one behind the other.
    pub open spec fn expr_ranged(self, e: ExprView) -> bool {
        match e {
            ExprView::Binary { left, operator, right } => left < self.lows[right as int],
            ExprView::Logical { left, operator, right } => left < self.lows[right as int],
            ExprView::Call { callee, paren, arguments } => chained(self.lows, callee, arguments),
            _ => true,
        }
    }

    /// The range of the expressions in the statement `s`.
    pub open spec fn range_of(self, s: StmtView) -> (usize, usize) {
        match s {
            StmtView::Expression { expression } => reach(self.lows, expression),
            StmtView::Print { expression } => reach(self.lows, expression),
            StmtView::Var { name, initializer } => reach(self.lows, initializer),
            StmtView::Block { statements } => (
                floor_of(self.ranges, statements, 0),
                top_of(self.ranges, statements, 0),
            ),
            StmtView::If { condition, then_branch, else_branch } => {
                let test = reach(self.lows, condition);
                let then = self.ranges[then_branch as int];
                match else_branch {
                    Some(e) => (
                        least(test.0, least(then.0, self.ranges[e as int].0)),
                        most(test.1, most(then.1, self.ranges[e as int].1)),
                    ),
                    None => (least(test.0, then.0), most(test.1, then.1)),
                }
            },
            StmtView::While { condition, body } => {
                let test = reach(self.lows, condition);
                let inner = self.ranges[body as int];
                (least(test.0, inner.0), most(test.1, inner.1))
            },
            StmtView::Function { name, params, body } => (
                floor_of(self.ranges, body, 0),
                top_of(self.ranges, body, 0),
            ),
            StmtView::Return { keyword, value } => reach(self.lows, value),
        }
    }

    /// No two parts of the statement `s` have an expression in common.
    pub open spec fn stmt_apart(self, s: StmtView) -> bool {
        match s {
            StmtView::Block { statements } => apart_list(self.ranges, statements),
            StmtView::If { condition, then_branch, else_branch } => {
                let test = reach(self.lows, condition);
                let then = self.ranges[then_branch as int];
                &&& apart(test, then)
                &&& else_branch matches Some(e) ==> apart(test, self.ranges[e as int]) && apart(
                    then,
                    self.ranges[e as int],
                )
            },
            StmtView::While { condition, body } => apart(
                reach(self.lows, condition),
                self.ranges[body as int],
            ),
            StmtView::Function { name, params, body } => apart_list(self.ranges, body),
            _ => true,
        }
    }

    /// The account of where the parts lie is right, and no two parts of a
    /// node overlap.
    pub open spec fn ranged(self) -> bool {
        &&& self.lows.len() == self.exprs.len()
        &&& self.ranges.len() == self.stmts.len()
        &&& forall|i: int|
            0 <= i < self.exprs.len() ==> {
                &&& #[trigger] self.lows[i] == self.low_of(self.exprs[i], i as usize)
                &&& self.lows[i] <= i
                &&& self.expr_ranged(self.exprs[i])
            }
        &&& forall|j: int|
            0 <= j < self.stmts.len() ==> {
                &&& #[trigger] self.ranges[j] == self.range_of(self.stmts[j])
                &&& self.ranges[j].1 <= self.exprs.len()
                &&& self.stmt_apart(self.stmts[j])
            }
    }

    /// Every node stands behind its parts, and the nodes form trees.
    #[verifier::opaque]
    pub open spec fn wf(self) -> bool {
        &&& forall|i: int| 0 <= i < self.exprs.len() ==> expr_below(#[trigger] self.exprs[i], i)
        &&& forall|j: int|
            0 <= j < self.stmts.len() ==> stmt_below(
                #[trigger] self.stmts[j],
                j,
                self.exprs.len() as int,
            )
        &&& forall|j: int|
            0 <= j < self.stmts.len() ==> branches_plain(self.stmts, #[trigger] self.stmts[j])
        &&& self.exprs.len() <= usize::MAX
        &&& self.ranged()
    }

    /// This store holds every node of `before`, under the same index.
    pub open spec fn extends(self, before: AstView) -> bool {
        &&& before.exprs.len() <= self.exprs.len()
        &&& before.stmts.len() <= self.stmts.len()
        &&& forall|i: int| 0 <= i < before.exprs.len() ==> #[trigger] self.exprs[i] == before.exprs[i]
        &&& forall|j: int| 0 <= j < before.stmts.len() ==> #[trigger] self.stmts[j] == before.stmts[j]
        &&& forall|i: int| 0 <= i < before.exprs.len() ==> #[trigger] self.lows[i] == before.lows[i]
        &&& forall|j: int| 0 <= j < before.stmts.len() ==> #[trigger] self.ranges[j] == before.ranges[j]
    }

    /// The store with one more expression.
    pub open spec fn with_expr(self, e: ExprView) -> AstView {
        AstView {
            exprs: self.exprs.push(e),
            lows: self.lows.push(self.low_of(e, self.exprs.len() as usize)),
            ..self
        }
    }

    /// The store with one more statement.
    pub open spec fn with_stmt(self, s: StmtView) -> AstView {
        AstView { stmts: self.stmts.push(s), ranges: self.ranges.push(self.range_of(s)), ..self }
    }
}

/// A well-formed store stays so when an expression is added behind its
/// parts, which lie one behind the other.
pub proof fn lemma_with_expr_wf(ast: AstView, e: ExprView)
    requires
        ast.wf(),
        expr_below(e, ast.exprs.len() as int),
        ast.expr_ranged(e),
        ast.exprs.len() < usize::MAX,
    ensures
        ast.with_expr(e).wf(),
{
    reveal(AstView::wf);
    let next = ast.with_expr(e);
    let n = ast.exprs.len() as int;
    assert forall|j: int| 0 <= j < next.stmts.len() implies branches_plain(
        next.stmts,
        #[trigger] next.stmts[j],
    ) by {
        assert(branches_plain(ast.stmts, ast.stmts[j]));
    }
    assert forall|j: int| 0 <= j < next.stmts.len() implies stmt_below(
        #[trigger] next.stmts[j],
        j,
        next.exprs.len() as int,
    ) by {
        assert(stmt_below(ast.stmts[j], j, ast.exprs.len() as int));
    }
    assert forall|i: int| 0 <= i < next.exprs.len() implies {
        &&& #[trigger] next.lows[i] == next.low_of(next.exprs[i], i as usize)
        &&& next.lows[i] <= i
        &&& next.expr_ranged(next.exprs[i])
    } by {
        if i < n {
            assert(expr_below(ast.exprs[i], i));
            assert(ast.lows[i] == ast.low_of(ast.exprs[i], i as usize));
            assert(ast.expr_ranged(ast.exprs[i]));
            match ast.exprs[i] {
                ExprView::Call { callee, paren, arguments } => {
                    assert forall|k: int| 0 <= k < arguments.len() implies (if k == 0 {
                        callee
                    } else {
                        arguments[k - 1]
                    }) < next.lows[#[trigger] arguments[k] as int] by {
                        assert(arguments[k] < i);
                    }
                },
                _ => {},
            }
        } else {
            match e {
                ExprView::Binary { left, operator, right } => {
                    assert(ast.lows[left as int] <= left);
                },
                ExprView::Grouping { expression } => {
                    assert(ast.lows[expression as int] <= expression);
                },
                ExprView::Unary { operator, right } => {
                    assert(ast.lows[right as int] <= right);
                },
                ExprView::Assign { name, value } => {
                    assert(ast.lows[value as int] <= value);
                },
                ExprView::Logical { left, operator, right } => {
                    assert(ast.lows[left as int] <= left);
                },
                ExprView::Call { callee, paren, arguments } => {
                    assert(ast.lows[callee as int] <= callee);
                    assert forall|k: int| 0 <= k < arguments.len() implies (if k == 0 {
                        callee
                    } else {
                        arguments[k - 1]
                    }) < next.lows[#[trigger] arguments[k] as int] by {
                        assert(arguments[k] < n);
                    }
                },
                _ => {},
            }
        }
    }
    assert forall|j: int| 0 <= j < next.stmts.len() implies {
        &&& #[trigger] next.ranges[j] == next.range_of(next.stmts[j])
        &&& next.ranges[j].1 <= next.exprs.len()
        &&& next.stmt_apart(next.stmts[j])
    } by {
        assert(stmt_below(ast.stmts[j], j, ast.exprs.len() as int));
        assert(ast.ranges[j] == ast.range_of(ast.stmts[j]));
        assert(ast.stmt_apart(ast.stmts[j]));
    }
}

/// A well-formed store stays so when a statement is added behind its
/// parts, no two of which overlap.
pub proof fn lemma_with_stmt_wf(ast: AstView, s: StmtView)
    requires
        ast.wf(),
        stmt_below(s, ast.stmts.len() as int, ast.exprs.len() as int),
        branches_plain(ast.stmts, s),
        ast.stmt_apart(s),
    ensures
        ast.with_stmt(s).wf(),
        ast.with_stmt(s).ranges[ast.stmts.len() as int].1 <= ast.exprs.len(),
{
    reveal(AstView::wf);
    let next = ast.with_stmt(s);
    let m = ast.stmts.len() as int;
    assert forall|j: int| 0 <= j < next.stmts.len() implies branches_plain(
        next.stmts,
        #[trigger] next.stmts[j],
    ) by {
        if j < ast.stmts.len() {
            assert(stmt_below(ast.stmts[j], j, ast.exprs.len() as int));
            assert(branches_plain(ast.stmts, ast.stmts[j]));
        }
    }
    lemma_range_top(ast, s);
    assert forall|j: int| 0 <= j < next.stmts.len() implies {
        &&& #[trigger] next.ranges[j] == next.range_of(next.stmts[j])
        &&& next.ranges[j].1 <= next.exprs.len()
        &&& next.stmt_apart(next.stmts[j])
    } by {
        let t = next.stmts[j];
        if j < m {
            assert(stmt_below(ast.stmts[j], j, ast.exprs.len() as int));
            assert(ast.ranges[j] == ast.range_of(ast.stmts[j]));
            assert(ast.stmt_apart(ast.stmts[j]));
        }
        match t {
            StmtView::Block { statements } => {
                lemma_fold_same(ast.ranges, next.ranges, statements, 0);
                assert forall|a: int, b: int| 0 <= a < b < statements.len() implies apart(
                    next.ranges[#[trigger] statements[a] as int],
                    next.ranges[#[trigger] statements[b] as int],
                ) by {
                    assert(apart(ast.ranges[statements[a] as int], ast.ranges[statements[b] as int]));
                }
            },
            StmtView::Function { name, params, body } => {
                lemma_fold_same(ast.ranges, next.ranges, body, 0);
                assert forall|a: int, b: int| 0 <= a < b < body.len() implies apart(
                    next.ranges[#[trigger] body[a] as int],
                    next.ranges[#[trigger] body[b] as int],
                ) by {
                    assert(apart(ast.ranges[body[a] as int], ast.ranges[body[b] as int]));
                }
            },
            _ => {},
        }
    }
}

/// The range of a statement whose parts are in the store ends inside the
/// store.
pub proof fn lemma_range_top(ast: AstView, s: StmtView)
    requires
        ast.wf(),
        stmt_below(s, ast.stmts.len() as int, ast.exprs.len() as int),
    ensures
        ast.range_of(s).1 <= ast.exprs.len(),
{
    reveal(AstView::wf);
    match s {
        StmtView::Block { statements } => {
            assert forall|k: int| 0 <= k < statements.len() implies 0 <= ast.ranges[
                #[trigger] statements[k] as int
            ].0 && ast.ranges[statements[k] as int].1 <= ast.exprs.len() by {
                assert(statements[k] < ast.stmts.len());
            }
            lemma_fold_bounds(ast.ranges, statements, 0, 0, ast.exprs.len() as int);
        },
        StmtView::Function { name, params, body } => {
            assert forall|k: int| 0 <= k < body.len() implies 0 <= ast.ranges[
                #[trigger] body[k] as int
            ].0 && ast.ranges[body[k] as int].1 <= ast.exprs.len() by {
                assert(body[k] < ast.stmts.len());
            }
            lemma_fold_bounds(ast.ranges, body, 0, 0, ast.exprs.len() as int);
        },
        StmtView::If { condition, then_branch, else_branch } => {
            assert(ast.ranges[then_branch as int].1 <= ast.exprs.len());
        },
        StmtView::While { condition, body } => {
            assert(ast.ranges[body as int].1 <= ast.exprs.len());
        },
        _ => {},
    }
}

/// A well-formed store keeps account of every node.
pub proof fn lemma_lens(ast: AstView)
    requires
        ast.wf(),
    ensures
        ast.lows.len() == ast.exprs.len(),
        ast.ranges.len() == ast.stmts.len(),
        ast.exprs.len() <= usize::MAX,
{
    reveal(AstView::wf);
}

/// In a well-formed store the branches of an `if` and the body of a
/// `while` are no declarations.
pub proof fn lemma_branches_plain(ast: AstView, id: int)
    requires
        ast.wf(),
        0 <= id < ast.stmts.len(),
    ensures
        branches_plain(ast.stmts, ast.stmts[id]),
{
    reveal(AstView::wf);
}

/// In a well-formed store an expression stands behind its parts, and its
/// parts lie one behind the other, from the lowest index on.
pub proof fn lemma_expr_below(ast: AstView, id: int)
    requires
        ast.wf(),
        0 <= id < ast.exprs.len(),
    ensures
        expr_below(ast.exprs[id], id),
        ast.lows.len() == ast.exprs.len(),
        ast.exprs.len() <= usize::MAX,
        ast.lows[id] == ast.low_of(ast.exprs[id], id as usize),
        ast.lows[id] <= id,
        ast.expr_ranged(ast.exprs[id]),
{
    reveal(AstView::wf);
}

/// In a well-formed store a statement stands behind its parts, and no two
/// of its parts overlap.
pub proof fn lemma_stmt_below(ast: AstView, id: int)
    requires
        ast.wf(),
        0 <= id < ast.stmts.len(),
    ensures
        stmt_below(ast.stmts[id], id, ast.exprs.len() as int),
        ast.ranges.len() == ast.stmts.len(),
        ast.lows.len() == ast.exprs.len(),
        ast.ranges[id] == ast.range_of(ast.stmts[id]),
        ast.ranges[id].1 <= ast.exprs.len(),
        ast.stmt_apart(ast.stmts[id]),
{
    reveal(AstView::wf);
}

impl Ast {
    /// Every node stands behind its parts, and the nodes form trees.
    pub open spec fn wf(&self) -> bool {
        self@.wf()
    }

    /// An empty store.
    pub fn new() -> (ast: Self)
        ensures
            ast.wf(),
            ast@.exprs.len() == 0,
            ast@.stmts.len() == 0,
    {
        reveal(AstView::wf);
        Ast {
            exprs: Vec::new(),
            stmts: Vec::new(),
            lows: Ghost(Seq::empty()),
            ranges: Ghost(Seq::empty()),
        }
    }

    /// Adds an expression and gives its index.
    pub fn add_expr(&mut self, e: Expr) -> (id: usize)
        ensures
            id == old(self)@.exprs.len(),
            final(self)@ == old(self)@.with_expr(e@),
    {
        let id = self.exprs.len();
        let ghost low = self@.low_of(e@, id);
        self.exprs.push(e);
        self.lows = Ghost(self.lows@.push(low));
        assert(self@.exprs =~= old(self)@.exprs.push(e@));
        id
    }

    /// Adds a statement and gives its index.
    pub fn add_stmt(&mut self, s: Stmt) -> (id: usize)
        ensures
            id == old(self)@.stmts.len(),
            final(self)@ == old(self)@.with_stmt(s@),
    {
        let id = self.stmts.len();
        let ghost range = self@.range_of(s@);
        self.stmts.push(s);
        self.ranges = Ghost(self.ranges@.push(range));
        assert(self@.stmts =~= old(self)@.stmts.push(s@));
        id
    }
}

} // verus!
