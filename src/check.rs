//! Matching a required path against granted paths, and boolean policies.

use vstd::prelude::*;

use crate::expr::{ExprView, ItemExpr};
use crate::parser::{valid_path, PermissionGroup, PermissionItem};
use crate::tokenizer::{Field, FieldView};

verus! {

/// Whether the segment `granted` covers the segment `required` at the same
/// depth, when neither is a triple glob, `granted` is no double glob and no
/// run is open on the granted side.
pub open spec fn segment_grants(required: FieldView, granted: FieldView) -> bool {
    match (required, granted) {
        (FieldView::Specifier(a), FieldView::Specifier(b)) => a == b,
        (FieldView::ID(_), FieldView::Glob) => true,
        (FieldView::Name(_), FieldView::Glob) => true,
        (FieldView::Glob, FieldView::Glob) => true,
        (FieldView::ID(a), FieldView::ID(b)) => a == b,
        (FieldView::Name(a), FieldView::Name(b)) => a == b,
        _ => false,
    }
}

/// The run flags after comparing `required` with `granted`, given the flags
/// in force; `None` when the pair rules the match out.
pub open spec fn pair_flags(
    required: FieldView,
    granted: FieldView,
    left_run: bool,
    right_run: bool,
) -> Option<(bool, bool)> {
    match (required, granted) {
        (FieldView::TripleGlob, FieldView::TripleGlob) => Some((true, true)),
        (FieldView::TripleGlob, FieldView::DoubleGlob) => if right_run {
            Some((true, right_run))
        } else {
            Some((left_run, right_run))
        },
        (FieldView::TripleGlob, _) => if right_run {
            Some((true, right_run))
        } else {
            None
        },
        (_, FieldView::TripleGlob) => Some((left_run, true)),
        (_, FieldView::DoubleGlob) => Some((left_run, right_run)),
        _ => if right_run || segment_grants(required, granted) {
            Some((left_run, right_run))
        } else {
            None
        },
    }
}

/// When both runs are open, the side with more segments left stops running,
/// and both stop when the two sides have as many left.
pub open spec fn balance(left_run: bool, right_run: bool, left_rest: int, right_rest: int) -> (
    bool,
    bool,
) {
    if left_run && right_run {
        if left_rest == right_rest {
            (false, false)
        } else if left_rest > right_rest {
            (false, true)
        } else {
            (true, false)
        }
    } else {
        (left_run, right_run)
    }
}

/// The matcher's single forward pass, from cursor `i` into `req` and `j`
/// into `grant`, with the run flags `lf` (required side) and `rf` (granted
/// side). A cursor whose run is open stays where it is; at least one cursor
/// moves at each step, which the comparison `ni + nj > i + j` records.
pub open spec fn match_from(
    req: Seq<FieldView>,
    grant: Seq<FieldView>,
    i: int,
    j: int,
    lf: bool,
    rf: bool,
) -> bool
    decreases (req.len() - i) + (grant.len() - j),
{
    if !(0 <= i <= req.len() && 0 <= j <= grant.len()) {
        false
    } else if i == req.len() || j == grant.len() {
        // A shorter grant covers every extension of it; a shorter requirement
        // is not covered by a longer grant.
        !(i == req.len() && j != grant.len())
    } else {
        let (lf1, rf1) = balance(lf, rf, req.len() - i, grant.len() - j);
        let granted = grant[j];
        if lf1 && !(granted is DoubleGlob || granted is TripleGlob) {
            false
        } else {
            let ni = if lf1 { i } else { i + 1 };
            let nj = if rf1 { j } else { j + 1 };
            match pair_flags(req[i], granted, lf1, rf1) {
                None => false,
                Some((lf2, rf2)) => if ni + nj > i + j {
                    if req.len() - ni == grant.len() - nj {
                        match_from(req, grant, ni, nj, false, false)
                    } else {
                        match_from(req, grant, ni, nj, lf2, rf2)
                    }
                } else {
                    false
                },
            }
        }
    }
}

/// Whether some grant of `group` authorizes `req`.
pub open spec fn granted_by_any(req: Seq<FieldView>, group: Seq<Seq<FieldView>>) -> bool {
    exists|k: int| 0 <= k < group.len() && grants(req, #[trigger] group[k])
}

/// What a policy evaluates to against a permission set.
pub open spec fn holds(e: ExprView, group: Seq<Seq<FieldView>>) -> bool
    decreases e,
{
    match e {
        ExprView::Permission(p) => granted_by_any(p, group),
        ExprView::Not(x) => !holds(*x, group),
        ExprView::And(l, r) => holds(*l, group) && holds(*r, group),
        ExprView::Or(l, r) => holds(*l, group) || holds(*r, group),
        ExprView::Xor(l, r) => holds(*l, group) != holds(*r, group),
        ExprView::Bracketed(x) => holds(*x, group),
    }
}

/// Whether the single grant `grant` authorizes the requirement `req`.
pub open spec fn grants(req: Seq<FieldView>, grant: Seq<FieldView>) -> bool {
    match_from(req, grant, 0, 0, false, false)
}

/// Two equal segments other than a triple glob always pass the per-position
/// comparison and open no run.
proof fn lemma_equal_pair(f: FieldView)
    requires
        !(f is TripleGlob),
    ensures
        pair_flags(f, f, false, false) == Some((false, false)),
{
}

proof fn lemma_reflexive_from(p: Seq<FieldView>, i: int)
    requires
        0 <= i <= p.len(),
    ensures
        match_from(p, p, i, i, false, false),
    decreases p.len() - i,
{
    if i < p.len() {
        lemma_reflexive_from(p, i + 1);
        if !(p[i] is TripleGlob) {
            lemma_equal_pair(p[i]);
        }
    }
}

/// Every path authorizes itself.
pub proof fn lemma_grants_reflexive(p: Seq<FieldView>)
    ensures
        grants(p, p),
{
    lemma_reflexive_from(p, 0);
}

proof fn lemma_prefix_from(p: Seq<FieldView>, q: Seq<FieldView>, k: int)
    requires
        q.len() < p.len(),
        q == p.take(q.len() as int),
        forall|m: int| 0 <= m < q.len() - 1 ==> !(#[trigger] q[m] is TripleGlob),
        0 <= k <= q.len(),
    ensures
        match_from(p, q, k, k, false, false),
        !match_from(q, p, k, k, false, false),
    decreases q.len() - k,
{
    if k < q.len() {
        assert(p[k] == q[k]);
        if q[k] is TripleGlob {
            assert(match_from(p, q, k + 1, k + 1, true, true));
            assert(!match_from(q, p, k + 1, k + 1, true, true));
        } else {
            lemma_equal_pair(q[k]);
            lemma_prefix_from(p, q, k + 1);
        }
    }
}

/// Whether `granted` covers `required` at one depth outside any run, for
/// segments that are no triple globs.
pub open spec fn covers(required: FieldView, granted: FieldView) -> bool {
    granted is DoubleGlob || segment_grants(required, granted)
}

/// Whether each of the `len` segments of `req` from `a` is covered by the
/// segment of `grant` at the same distance from `b`.
pub open spec fn aligned_cover(
    req: Seq<FieldView>,
    grant: Seq<FieldView>,
    a: int,
    b: int,
    len: int,
) -> bool {
    forall|u: int| 0 <= u < len ==> covers(#[trigger] req[a + u], grant[b + u])
}

/// Whether the segments `[from, to)` of `p` are all double globs.
pub open spec fn double_globs(p: Seq<FieldView>, from: int, to: int) -> bool {
    forall|k: int| from <= k < to ==> #[trigger] p[k] is DoubleGlob
}

proof fn lemma_plain_pair(x: FieldView, y: FieldView, lf: bool, rf: bool)
    requires
        !(x is TripleGlob),
        !(y is TripleGlob),
    ensures
        pair_flags(x, y, lf, rf) == (if rf || covers(x, y) {
            Some((lf, rf))
        } else {
            None
        }),
{
}

/// From equal prefixes up to the triple glob at `t`, both passes reach
/// the segment after it with both runs open.
proof fn lemma_walk_to_glob(p: Seq<FieldView>, q: Seq<FieldView>, k: int, t: int)
    requires
        q.len() < p.len(),
        q == p.take(q.len() as int),
        0 <= k <= t < q.len(),
        q[t] is TripleGlob,
        forall|m: int| 0 <= m < t ==> !(#[trigger] q[m] is TripleGlob),
    ensures
        match_from(p, q, k, k, false, false) == match_from(p, q, t + 1, t + 1, true, true),
        match_from(q, p, k, k, false, false) == match_from(q, p, t + 1, t + 1, true, true),
    decreases t - k,
{
    assert(p[k] == q[k]);
    if k < t {
        lemma_equal_pair(q[k]);
        lemma_walk_to_glob(p, q, k + 1, t);
    }
}

/// Both sides in step and no run open: the pass compares segment by segment.
proof fn lemma_aligned(req: Seq<FieldView>, grant: Seq<FieldView>, a: int, b: int)
    requires
        0 <= a <= req.len(),
        0 <= b <= grant.len(),
        req.len() - a == grant.len() - b,
        forall|k: int| a <= k < req.len() ==> !(#[trigger] req[k] is TripleGlob),
        forall|k: int| b <= k < grant.len() ==> !(#[trigger] grant[k] is TripleGlob),
    ensures
        match_from(req, grant, a, b, false, false) == aligned_cover(
            req,
            grant,
            a,
            b,
            req.len() - a,
        ),
    decreases req.len() - a,
{
    if a < req.len() {
        lemma_plain_pair(req[a], grant[b], false, false);
        lemma_aligned(req, grant, a + 1, b + 1);
        if covers(req[a + 0], grant[b + 0]) && aligned_cover(
            req,
            grant,
            a + 1,
            b + 1,
            req.len() - a - 1,
        ) {
            assert forall|u: int| 0 <= u < req.len() - a implies covers(
                #[trigger] req[a + u],
                grant[b + u],
            ) by {
                if u > 0 {
                    assert(req[a + 1 + (u - 1)] == req[a + u]);
                }
            }
        }
        assert(aligned_cover(req, grant, a, b, req.len() - a) ==> aligned_cover(
            req,
            grant,
            a + 1,
            b + 1,
            req.len() - a - 1,
        )) by {
            if aligned_cover(req, grant, a, b, req.len() - a) {
                assert forall|u: int| 0 <= u < req.len() - a - 1 implies covers(
                    #[trigger] req[a + 1 + u],
                    grant[b + 1 + u],
                ) by {
                    assert(req[a + (u + 1)] == req[a + 1 + u]);
                }
            }
        }
        assert(aligned_cover(req, grant, a, b, req.len() - a) ==> covers(req[a + 0], grant[b + 0]));
    }
}

/// A run open on the granted side absorbs required segments until both
/// sides have as many left.
proof fn lemma_right_run(req: Seq<FieldView>, grant: Seq<FieldView>, i: int, b: int)
    requires
        0 <= i,
        0 <= b < grant.len(),
        i < req.len() - grant.len() + b,
        forall|k: int| i <= k < req.len() ==> !(#[trigger] req[k] is TripleGlob),
        !(grant[b] is TripleGlob),
    ensures
        match_from(req, grant, i, b, false, true) == match_from(
            req,
            grant,
            req.len() - grant.len() + b,
            b,
            false,
            false,
        ),
    decreases req.len() - i,
{
    lemma_plain_pair(req[i], grant[b], false, true);
    if i + 1 < req.len() - grant.len() + b {
        lemma_right_run(req, grant, i + 1, b);
    }
}

/// A run open on the required side lets the granted side go on only over
/// double globs, until both sides have as many left.
proof fn lemma_left_run(req: Seq<FieldView>, grant: Seq<FieldView>, a: int, j: int)
    requires
        0 <= a < req.len(),
        0 <= j < grant.len() - req.len() + a,
        !(req[a] is TripleGlob),
        forall|k: int| j <= k < grant.len() ==> !(#[trigger] grant[k] is TripleGlob),
    ensures
        match_from(req, grant, a, j, true, false) == (double_globs(
            grant,
            j,
            grant.len() - req.len() + a,
        ) && match_from(req, grant, a, grant.len() - req.len() + a, false, false)),
    decreases grant.len() - j,
{
    let e = grant.len() - req.len() + a;
    if grant[j] is DoubleGlob {
        lemma_plain_pair(req[a], grant[j], true, false);
        if j + 1 < e {
            lemma_left_run(req, grant, a, j + 1);
        }
    }
}

/// Where a path `q` holds a triple glob at `t` before its last segment and
/// `p` extends `q` (its only triple glob being that one), the glob anchors
/// the segments of `q` after it to the end of `p`: `q` grants `p` exactly
/// when they cover the last segments of `p`; and `p` grants `q` exactly when
/// the segments that `p` has in excess after the glob are double globs and
/// the segments after those cover the end of `q`.
pub proof fn lemma_anchored_extension(p: Seq<FieldView>, q: Seq<FieldView>, t: int)
    requires
        q.len() < p.len(),
        q == p.take(q.len() as int),
        0 <= t < q.len() - 1,
        q[t] is TripleGlob,
        forall|m: int| 0 <= m < p.len() && m != t ==> !(#[trigger] p[m] is TripleGlob),
    ensures
        grants(p, q) == aligned_cover(
            p,
            q,
            t + 1 + (p.len() - q.len()),
            t + 1,
            q.len() - t - 1,
        ),
        grants(q, p) == (double_globs(p, t + 1, t + 1 + (p.len() - q.len())) && aligned_cover(
            q,
            p,
            t + 1,
            t + 1 + (p.len() - q.len()),
            q.len() - t - 1,
        )),
{
    let d = p.len() - q.len();
    assert forall|m: int| 0 <= m < t implies !(#[trigger] q[m] is TripleGlob) by {
        assert(q[m] == p[m]);
    }
    assert forall|m: int| t + 1 <= m < q.len() implies !(#[trigger] q[m] is TripleGlob) by {
        assert(q[m] == p[m]);
    }
    lemma_walk_to_glob(p, q, 0, t);
    assert(match_from(p, q, t + 1, t + 1, true, true) == match_from(
        p,
        q,
        t + 1,
        t + 1,
        false,
        true,
    ));
    lemma_right_run(p, q, t + 1, t + 1);
    lemma_aligned(p, q, t + 1 + d, t + 1);
    assert(match_from(q, p, t + 1, t + 1, true, true) == match_from(
        q,
        p,
        t + 1,
        t + 1,
        true,
        false,
    ));
    lemma_left_run(q, p, t + 1, t + 1);
    lemma_aligned(q, p, t + 1, t + 1 + d);
}

/// Where the law of extensions holds for `p` extending `q`: a triple glob
/// of `q` before its last segment anchors what follows it (see
/// `lemma_anchored_extension`), so there `q` must cover the end of `p`,
/// and `p` must not grant `q`.
pub open spec fn extension_law_applies(p: Seq<FieldView>, q: Seq<FieldView>) -> bool {
    forall|t: int|
        0 <= t < q.len() - 1 && #[trigger] q[t] is TripleGlob ==> {
            let d = p.len() - q.len();
            &&& aligned_cover(p, q, t + 1 + d, t + 1, q.len() - t - 1)
            &&& !(double_globs(p, t + 1, t + 1 + d) && aligned_cover(
                q,
                p,
                t + 1,
                t + 1 + d,
                q.len() - t - 1,
            ))
        }
}

/// A grant authorizes every strict extension of itself, and a strict
/// extension of a requirement does not authorize it, for a parsed `p`
/// extending `q`. Where `q` has no triple glob before its last segment this
/// always holds; elsewhere exactly where `extension_law_applies` says.
pub proof fn lemma_prefix_grants(p: Seq<FieldView>, q: Seq<FieldView>)
    requires
        q.len() < p.len(),
        q == p.take(q.len() as int),
        valid_path(p),
        extension_law_applies(p, q),
    ensures
        grants(p, q),
        !grants(q, p),
{
    if exists|t: int| 0 <= t < q.len() - 1 && #[trigger] q[t] is TripleGlob {
        let t = choose|t: int| 0 <= t < q.len() - 1 && #[trigger] q[t] is TripleGlob;
        assert(p[t] == q[t]);
        lemma_anchored_extension(p, q, t);
    } else {
        lemma_prefix_from(p, q, 0);
    }
}

fn segment_grants_exec(required: &Field, granted: &Field) -> (r: bool)
    ensures
        r == segment_grants(required@, granted@),
{
    match (required, granted) {
        (Field::Specifier { specifier: a }, Field::Specifier { specifier: b }) => *a == *b,
        (Field::ID { .. }, Field::Glob) => true,
        (Field::Name { .. }, Field::Glob) => true,
        (Field::Glob, Field::Glob) => true,
        (Field::ID { id: a }, Field::ID { id: b }) => *a == *b,
        (Field::Name { name: a }, Field::Name { name: b }) => *a == *b,
        _ => false,
    }
}

fn pair_flags_exec(required: &Field, granted: &Field, left_run: bool, right_run: bool) -> (r:
    Option<(bool, bool)>)
    ensures
        r == pair_flags(required@, granted@, left_run, right_run),
{
    match (required, granted) {
        (Field::TripleGlob, Field::TripleGlob) => Some((true, true)),
        (Field::TripleGlob, Field::DoubleGlob) => if right_run {
            Some((true, right_run))
        } else {
            Some((left_run, right_run))
        },
        (Field::TripleGlob, _) => if right_run {
            Some((true, right_run))
        } else {
            None
        },
        (_, Field::TripleGlob) => Some((left_run, true)),
        (_, Field::DoubleGlob) => Some((left_run, right_run)),
        _ => if right_run || segment_grants_exec(required, granted) {
            Some((left_run, right_run))
        } else {
            None
        },
    }
}

/// Whether `permission` authorizes `require`: the matcher's forward pass
/// with sticky cursors over the two paths.
pub fn check_one(require: &PermissionItem, permission: &PermissionItem) -> (r: bool)
    ensures
        r == grants(require@, permission@),
{
    let size_left = require.perm.len();
    let size_right = permission.perm.len();
    let mut idx_left: usize = 0;
    let mut idx_right: usize = 0;
    let mut match_left_triple_glob = false;
    let mut match_right_triple_glob = false;
    loop
        invariant
            size_left == require@.len(),
            size_right == permission@.len(),
            idx_left <= size_left,
            idx_right <= size_right,
            match_from(
                require@,
                permission@,
                idx_left as int,
                idx_right as int,
                match_left_triple_glob,
                match_right_triple_glob,
            ) == grants(require@, permission@),
        decreases (size_left - idx_left) + (size_right - idx_right),
    {
        if idx_left == size_left || idx_right == size_right {
            return !(idx_left == size_left && idx_right != size_right);
        }
        if match_left_triple_glob && match_right_triple_glob {
            let unprocessed_left = size_left - idx_left;
            let unprocessed_right = size_right - idx_right;
            if unprocessed_left == unprocessed_right {
                match_left_triple_glob = false;
                match_right_triple_glob = false;
            } else if unprocessed_left > unprocessed_right {
                match_left_triple_glob = false;
            } else {
                match_right_triple_glob = false;
            }
        }
        let field_required = &require.perm[idx_left];
        let field_permission = &permission.perm[idx_right];
        if match_left_triple_glob && !matches!(field_permission, Field::DoubleGlob | Field::TripleGlob) {
            return false;
        }
        if !match_left_triple_glob {
            idx_left += 1;
        }
        if !match_right_triple_glob {
            idx_right += 1;
        }
        match pair_flags_exec(
            field_required,
            field_permission,
            match_left_triple_glob,
            match_right_triple_glob,
        ) {
            None => {
                return false;
            },
            Some((left_run, right_run)) => {
                match_left_triple_glob = left_run;
                match_right_triple_glob = right_run;
            },
        }
        if size_left - idx_left == size_right - idx_right {
            match_left_triple_glob = false;
            match_right_triple_glob = false;
        }
    }
}

/// Whether some grant of `permissions` authorizes `require`.
pub fn check(require: &PermissionItem, permissions: &PermissionGroup) -> (r: bool)
    ensures
        r == granted_by_any(require@, permissions@),
{
    let n = permissions.perms.len();
    for k in 0..n
        invariant
            n == permissions@.len(),
            forall|m: int| 0 <= m < k ==> !grants(require@, #[trigger] permissions@[m]),
    {
        if check_one(require, &permissions.perms[k]) {
            assert(grants(require@, permissions@[k as int]));
            return true;
        }
    }
    false
}

fn check_expr(expr: &ItemExpr, permissions: &PermissionGroup) -> (r: bool)
    ensures
        r == holds(expr@, permissions@),
    decreases expr,
{
    match expr {
        ItemExpr::Permission(p) => check(p, permissions),
        ItemExpr::And(l, r) => check_expr(l, permissions) && check_expr(r, permissions),
        ItemExpr::Or(l, r) => check_expr(l, permissions) || check_expr(r, permissions),
        ItemExpr::Not(e) => !check_expr(e, permissions),
        ItemExpr::Xor(l, r) => check_expr(l, permissions) ^ check_expr(r, permissions),
        ItemExpr::Bracketed(b) => check_expr(b, permissions),
    }
}

/// A compiled policy, evaluated against any number of permission sets.
pub struct ComplexCheck {
    expr: ItemExpr,
}

impl View for ComplexCheck {
    type V = ExprView;

    closed spec fn view(&self) -> ExprView {
        self.expr@
    }
}

impl ComplexCheck {
    /// The checker for `expr`, which it takes over.
    pub fn new(expr: ItemExpr) -> (r: Self)
        ensures
            r@ == expr@,
    {
        Self { expr }
    }

    /// Whether the permission set `group` satisfies the policy.
    pub fn with_perm(&self, group: &PermissionGroup) -> (r: bool)
        ensures
            r == holds(self@, group@),
    {
        check_expr(&self.expr, group)
    }

    /// The checker for a copy of `expr`.
    pub fn from(expr: &ItemExpr) -> (r: Self)
        ensures
            r@ == expr@,
    {
        Self { expr: expr.clone() }
    }
}

/// Compiling one policy twice gives checkers that agree on every permission set.
pub proof fn lemma_compile_idempotent(
    expr: ExprView,
    first: ComplexCheck,
    second: ComplexCheck,
    group: Seq<Seq<FieldView>>,
)
    requires
        first@ == expr,
        second@ == expr,
    ensures
        holds(first@, group) == holds(second@, group),
{
}

} // verus!
