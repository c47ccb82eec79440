//! Structural diff and patch over canonical values.
//!
//! A patch is an ordered list of operations (add / remove / replace, each
//! keyed by a structural path) that transforms one canonical value into
//! another. `diff` computes such a patch; `apply_patch` applies one. The
//! round-trip law — applying `diff(a, b)` to `a` yields exactly `b` — and
//! the idempotence law — `diff(a, a)` is empty — are proved below.

use vstd::prelude::*;

use crate::value::Field;
use crate::value::FieldS;
use crate::value::Value;
use crate::value::ValueS;
use crate::value::arr_model;
use crate::value::obj_model;
use crate::value::v_model;
use crate::value::value_eq;
use crate::value::wf;

verus! {

broadcast use vstd::std_specs::vec::group_vec_axioms;

/// One step of a structural path: an object key or an array index.
#[derive(Debug)]
pub enum Seg {
    Key(String),
    Idx(usize),
}

/// Mathematical model of a path step.
pub enum SegS {
    Key(Seq<char>),
    Idx(int),
}

impl View for Seg {
    type V = SegS;

    open spec fn view(&self) -> SegS {
        match self {
            Seg::Key(k) => SegS::Key(k@),
            Seg::Idx(i) => SegS::Idx(*i as int),
        }
    }
}

/// What a patch operation does at its path.
#[derive(Clone, Copy, PartialEq, Eq, Structural, Debug)]
pub enum OpKind {
    Add,
    Remove,
    Replace,
}

/// One patch operation. `value` is ignored by `Remove` and carries
/// `Value::Null` there.
#[derive(Debug)]
pub struct PatchOp {
    pub kind: OpKind,
    pub path: Vec<Seg>,
    pub value: Value,
}

/// Mathematical model of one patch operation.
pub struct OpS {
    pub kind: OpKind,
    pub path: Seq<SegS>,
    pub value: ValueS,
}

impl View for PatchOp {
    type V = OpS;

    open spec fn view(&self) -> OpS {
        OpS { kind: self.kind, path: path_model(self.path), value: v_model(self.value) }
    }
}

/// The model of a path.
pub open spec fn path_model(p: Vec<Seg>) -> Seq<SegS> {
    Seq::new(p@.len(), |i: int| if 0 <= i < p@.len() { p@[i]@ } else { SegS::Idx(0) })
}

/// The models of a list of operations, in order.
pub open spec fn ops_model(ops: Vec<PatchOp>) -> Seq<OpS> {
    Seq::new(
        ops@.len(),
        |i: int|
            if 0 <= i < ops@.len() {
                ops@[i]@
            } else {
                OpS { kind: OpKind::Remove, path: Seq::empty(), value: ValueS::Null }
            },
    )
}

/// The first index of the field bearing key `k`, or -1 when none does.
pub open spec fn find_key(fs: Seq<FieldS>, k: Seq<char>) -> int
    decreases fs.len(),
{
    if fs.len() == 0 {
        -1
    } else if fs[0].key == k {
        0
    } else if find_key(fs.drop_first(), k) == -1 {
        -1
    } else {
        find_key(fs.drop_first(), k) + 1
    }
}

/// `find_key` finds the first field with the key, and -1 exactly when
/// the key is absent.
pub proof fn lemma_find_key(fs: Seq<FieldS>, k: Seq<char>)
    ensures
        find_key(fs, k) == -1 ==> forall|j: int| 0 <= j < fs.len() ==> fs[j].key != k,
        find_key(fs, k) != -1 ==> 0 <= find_key(fs, k) < fs.len() && fs[find_key(fs, k)].key == k
            && (forall|x: int| 0 <= x < find_key(fs, k) ==> fs[x].key != k),
    decreases fs.len(),
{
    if fs.len() == 0 {
    } else if fs[0].key == k {
    } else {
        lemma_find_key(fs.drop_first(), k);
        let r = find_key(fs.drop_first(), k);
        if r == -1 {
            assert(forall|j: int| 0 <= j < fs.len() ==> fs[j].key != k) by {
                assert(forall|j: int|
                    1 <= j < fs.len() ==> fs[j].key == fs.drop_first()[j - 1].key);
            }
        } else {
            assert(fs[r + 1].key == fs.drop_first()[r].key);
            assert(forall|x: int| 1 <= x < r + 1 ==> fs[x].key == fs.drop_first()[x - 1].key);
        }
    }
}

/// Applying one operation below the path `path` of `v`. `None` is
/// failure: the path does not resolve, or a remove names the root.
pub open spec fn apply_at(v: ValueS, path: Seq<SegS>, op: OpS) -> Option<ValueS>
    decreases path.len(),
{
    if path.len() == 0 {
        match op.kind {
            OpKind::Remove => None,
            _ => Some(op.value),
        }
    } else {
        match path[0] {
            SegS::Key(k) => match v {
                ValueS::Obj(fs) => {
                    if find_key(fs, k) != -1 {
                        let j = find_key(fs, k);
                        if path.len() == 1 && op.kind == OpKind::Remove {
                            Some(ValueS::Obj(fs.remove(j)))
                        } else {
                            match apply_at(fs[j].val, path.drop_first(), op) {
                                Some(u) => Some(
                                    ValueS::Obj(fs.update(j, FieldS { key: fs[j].key, val: u })),
                                ),
                                None => None,
                            }
                        }
                    } else {
                        if path.len() == 1 && op.kind == OpKind::Add {
                            Some(ValueS::Obj(fs.push(FieldS { key: k, val: op.value })))
                        } else {
                            None
                        }
                    }
                },
                _ => None,
            },
            SegS::Idx(i) => match v {
                ValueS::Arr(xs) => {
                    if 0 <= i < xs.len() {
                        if path.len() == 1 && op.kind == OpKind::Remove {
                            Some(ValueS::Arr(xs.remove(i)))
                        } else {
                            match apply_at(xs[i], path.drop_first(), op) {
                                Some(u) => Some(ValueS::Arr(xs.update(i, u))),
                                None => None,
                            }
                        }
                    } else if i == xs.len() && path.len() == 1 && op.kind == OpKind::Add {
                        Some(ValueS::Arr(xs.push(op.value)))
                    } else {
                        None
                    }
                },
                _ => None,
            },
        }
    }
}

/// Applying one operation to `v`.
pub open spec fn apply_op_s(v: ValueS, op: OpS) -> Option<ValueS> {
    apply_at(v, op.path, op)
}

/// Applying a patch: the operations in order, failure propagating.
pub open spec fn apply_patch_s(v: ValueS, ops: Seq<OpS>) -> Option<ValueS>
    decreases ops.len(),
{
    if ops.len() == 0 {
        Some(v)
    } else {
        match apply_op_s(v, ops[0]) {
            Some(u) => apply_patch_s(u, ops.drop_first()),
            None => None,
        }
    }
}

/// The operation list with `seg` prepended to every path.
pub open spec fn prefix_ops(seg: SegS, ops: Seq<OpS>) -> Seq<OpS> {
    Seq::new(
        ops.len(),
        |i: int|
            if 0 <= i < ops.len() {
                OpS { kind: ops[i].kind, path: seq![seg] + ops[i].path, value: ops[i].value }
            } else {
                OpS { kind: OpKind::Remove, path: Seq::empty(), value: ValueS::Null }
            },
    )
}

/// Whether two field lists carry the same keys in the same order.
pub open spec fn same_keys(fa: Seq<FieldS>, fb: Seq<FieldS>) -> bool {
    fa.len() == fb.len() && forall|i: int| 0 <= i < fa.len() ==> fa[i].key == fb[i].key
}

/// The structural difference from `a` to `b`: empty when equal; a
/// field-by-field (index-by-index) descent when both sides are objects
/// with the same keys (arrays of the same length); one whole-value
/// replacement otherwise.
pub open spec fn diff_s(a: ValueS, b: ValueS) -> Seq<OpS>
    decreases a, 0int, 0int,
{
    if a == b {
        Seq::empty()
    } else if a is Arr && b is Arr && a->Arr_0.len() == b->Arr_0.len() {
        diff_arr(a->Arr_0, b->Arr_0, 0)
    } else if a is Obj && b is Obj && same_keys(a->Obj_0, b->Obj_0) {
        diff_obj(a->Obj_0, b->Obj_0, 0)
    } else {
        seq![OpS { kind: OpKind::Replace, path: Seq::empty(), value: b }]
    }
}

/// The differences of array elements from index `i` on, each below its
/// index.
pub open spec fn diff_arr(xa: Seq<ValueS>, xb: Seq<ValueS>, i: int) -> Seq<OpS>
    decreases xa, xa.len() - i, 1int,
{
    if 0 <= i < xa.len() && xb.len() == xa.len() {
        prefix_ops(SegS::Idx(i), diff_s(xa[i], xb[i])) + diff_arr(xa, xb, i + 1)
    } else {
        Seq::empty()
    }
}

/// The differences of object fields from index `i` on, each below its
/// key.
pub open spec fn diff_obj(fa: Seq<FieldS>, fb: Seq<FieldS>, i: int) -> Seq<OpS>
    decreases fa, fa.len() - i, 1int,
{
    if 0 <= i < fa.len() && fb.len() == fa.len() {
        prefix_ops(SegS::Key(fa[i].key), diff_s(fa[i].val, fb[i].val)) + diff_obj(fa, fb, i + 1)
    } else {
        Seq::empty()
    }
}

/// Locality of the difference over objects: when the fields agree
/// everywhere but at `t`, the whole difference is `t`'s difference below
/// `t`'s key.
pub proof fn lemma_diff_obj_single(fa: Seq<FieldS>, fb: Seq<FieldS>, t: int, i: int)
    requires
        same_keys(fa, fb),
        0 <= t < fa.len(),
        forall|k: int| 0 <= k < fa.len() && k != t ==> fa[k] == fb[k],
        0 <= i <= fa.len(),
    ensures
        diff_obj(fa, fb, i) == if i <= t {
            prefix_ops(SegS::Key(fa[t].key), diff_s(fa[t].val, fb[t].val))
        } else {
            Seq::<OpS>::empty()
        },
    decreases fa.len() - i,
{
    if i == fa.len() {
    } else {
        lemma_diff_obj_single(fa, fb, t, i + 1);
        if i != t {
            assert(fa[i] == fb[i]);
            assert(diff_s(fa[i].val, fb[i].val) =~= Seq::<OpS>::empty());
            assert(prefix_ops(SegS::Key(fa[i].key), diff_s(fa[i].val, fb[i].val))
                =~= Seq::<OpS>::empty());
            assert(prefix_ops(SegS::Key(fa[i].key), diff_s(fa[i].val, fb[i].val)) + diff_obj(
                fa,
                fb,
                i + 1,
            ) =~= diff_obj(fa, fb, i + 1));
        } else {
            assert(diff_obj(fa, fb, i + 1) =~= Seq::<OpS>::empty());
            assert(prefix_ops(SegS::Key(fa[t].key), diff_s(fa[t].val, fb[t].val)) + diff_obj(
                fa,
                fb,
                i + 1,
            ) =~= prefix_ops(SegS::Key(fa[t].key), diff_s(fa[t].val, fb[t].val)));
        }
    }
}

/// Locality of the difference over arrays: when the elements agree
/// everywhere but at `t`, the whole difference is `t`'s difference below
/// its index.
pub proof fn lemma_diff_arr_single(xa: Seq<ValueS>, xb: Seq<ValueS>, t: int, i: int)
    requires
        xa.len() == xb.len(),
        0 <= t < xa.len(),
        forall|k: int| 0 <= k < xa.len() && k != t ==> xa[k] == xb[k],
        0 <= i <= xa.len(),
    ensures
        diff_arr(xa, xb, i) == if i <= t {
            prefix_ops(SegS::Idx(t), diff_s(xa[t], xb[t]))
        } else {
            Seq::<OpS>::empty()
        },
    decreases xa.len() - i,
{
    if i == xa.len() {
    } else {
        lemma_diff_arr_single(xa, xb, t, i + 1);
        if i != t {
            assert(xa[i] == xb[i]);
            assert(diff_s(xa[i], xb[i]) =~= Seq::<OpS>::empty());
            assert(prefix_ops(SegS::Idx(i), diff_s(xa[i], xb[i])) =~= Seq::<OpS>::empty());
            assert(prefix_ops(SegS::Idx(i), diff_s(xa[i], xb[i])) + diff_arr(xa, xb, i + 1)
                =~= diff_arr(xa, xb, i + 1));
        } else {
            assert(diff_arr(xa, xb, i + 1) =~= Seq::<OpS>::empty());
            assert(prefix_ops(SegS::Idx(t), diff_s(xa[t], xb[t])) + diff_arr(xa, xb, i + 1)
                =~= prefix_ops(SegS::Idx(t), diff_s(xa[t], xb[t])));
        }
    }
}

/// Idempotence law: the difference of a value from itself is the empty
/// patch.
pub proof fn lemma_diff_self_empty(a: ValueS)
    ensures
        diff_s(a, a) == Seq::<OpS>::empty(),
        apply_patch_s(a, diff_s(a, a)) == Some(a),
{
}

/// A patch applies over a concatenation as the two parts in sequence.
proof fn lemma_apply_concat(v: ValueS, p1: Seq<OpS>, p2: Seq<OpS>)
    ensures
        apply_patch_s(v, p1 + p2) == match apply_patch_s(v, p1) {
            Some(u) => apply_patch_s(u, p2),
            None => None::<ValueS>,
        },
    decreases p1.len(),
{
    if p1.len() == 0 {
        assert(p1 + p2 =~= p2);
    } else {
        assert((p1 + p2)[0] == p1[0]);
        assert((p1 + p2).drop_first() =~= p1.drop_first() + p2);
        match apply_op_s(v, p1[0]) {
            Some(u) => {
                lemma_apply_concat(u, p1.drop_first(), p2);
            },
            None => {},
        }
    }
}

/// Whether every operation is a replacement (what `diff_s` emits).
pub open spec fn replace_only(ops: Seq<OpS>) -> bool {
    forall|i: int| 0 <= i < ops.len() ==> ops[i].kind == OpKind::Replace
}

/// The array `ys` with its elements from index `i` on replaced by
/// `xb`'s.
pub open spec fn merge_from(ys: Seq<ValueS>, xb: Seq<ValueS>, i: int) -> Seq<ValueS> {
    Seq::new(ys.len(), |k: int| if k >= i { xb[k] } else { ys[k] })
}

/// The fields `gs` with their values from index `i` on replaced by
/// `fb`'s; keys stay.
pub open spec fn merge_fields_from(gs: Seq<FieldS>, fb: Seq<FieldS>, i: int) -> Seq<FieldS> {
    Seq::new(
        gs.len(),
        |k: int| FieldS { key: gs[k].key, val: if k >= i { fb[k].val } else { gs[k].val } },
    )
}

/// `apply_at` reads only the kind and the value of the operation, never
/// its recorded path.
proof fn lemma_apply_at_path_irrelevant(v: ValueS, p: Seq<SegS>, op1: OpS, op2: OpS)
    requires
        op1.kind == op2.kind,
        op1.value == op2.value,
    ensures
        apply_at(v, p, op1) == apply_at(v, p, op2),
    decreases p.len(),
{
    if p.len() == 0 {
    } else {
        match p[0] {
            SegS::Key(k) => match v {
                ValueS::Obj(fs) => {
                    if find_key(fs, k) != -1 {
                        lemma_find_key(fs, k);
                        let j = find_key(fs, k);
                        lemma_apply_at_path_irrelevant(fs[j].val, p.drop_first(), op1, op2);
                    }
                },
                _ => {},
            },
            SegS::Idx(i) => match v {
                ValueS::Arr(xs) => {
                    if 0 <= i < xs.len() {
                        lemma_apply_at_path_irrelevant(xs[i], p.drop_first(), op1, op2);
                    }
                },
                _ => {},
            },
        }
    }
}

/// An operation prefixed with an in-range index descends into that
/// element.
proof fn lemma_apply_at_idx(xs: Seq<ValueS>, i: int, op: OpS, p: Seq<SegS>)
    requires
        0 <= i < xs.len(),
        !(p.len() == 0 && op.kind == OpKind::Remove),
    ensures
        apply_at(ValueS::Arr(xs), seq![SegS::Idx(i)] + p, op) == match apply_at(xs[i], p, op) {
            Some(u) => Some(ValueS::Arr(xs.update(i, u))),
            None => None::<ValueS>,
        },
{
    let full = seq![SegS::Idx(i)] + p;
    assert(full[0] == SegS::Idx(i));
    assert(full.drop_first() =~= p);
}

/// An operation prefixed with a present key descends into that field,
/// provided the object's keys are distinct.
proof fn lemma_apply_at_key(fs: Seq<FieldS>, j: int, op: OpS, p: Seq<SegS>)
    requires
        0 <= j < fs.len(),
        forall|x: int, y: int| 0 <= x < y < fs.len() ==> fs[x].key != fs[y].key,
        !(p.len() == 0 && op.kind == OpKind::Remove),
    ensures
        apply_at(ValueS::Obj(fs), seq![SegS::Key(fs[j].key)] + p, op) == match apply_at(
            fs[j].val,
            p,
            op,
        ) {
            Some(u) => Some(ValueS::Obj(fs.update(j, FieldS { key: fs[j].key, val: u }))),
            None => None::<ValueS>,
        },
{
    let k = fs[j].key;
    let full = seq![SegS::Key(k)] + p;
    assert(full[0] == SegS::Key(k));
    assert(full.drop_first() =~= p);
    lemma_find_key(fs, k);
    let j2 = find_key(fs, k);
    if j2 == -1 {
        assert(fs[j].key != k);
        assert(false);
    }
    if j2 != j {
        assert(false);
    }
}

/// A patch whose every path starts with index `i` transforms exactly the
/// element at `i`.
proof fn lemma_patch_prefix_idx(xs: Seq<ValueS>, i: int, ops: Seq<OpS>)
    requires
        0 <= i < xs.len(),
        replace_only(ops),
    ensures
        apply_patch_s(ValueS::Arr(xs), prefix_ops(SegS::Idx(i), ops)) == match apply_patch_s(
            xs[i],
            ops,
        ) {
            Some(w) => Some(ValueS::Arr(xs.update(i, w))),
            None => None::<ValueS>,
        },
    decreases ops.len(),
{
    let pre = prefix_ops(SegS::Idx(i), ops);
    if ops.len() == 0 {
        assert(xs.update(i, xs[i]) =~= xs);
    } else {
        assert(pre[0] == OpS {
            kind: ops[0].kind,
            path: seq![SegS::Idx(i)] + ops[0].path,
            value: ops[0].value,
        });
        lemma_apply_at_idx(xs, i, pre[0], ops[0].path);
        lemma_apply_at_path_irrelevant(xs[i], ops[0].path, pre[0], ops[0]);
        match apply_op_s(xs[i], ops[0]) {
            Some(u) => {
                let xs2 = xs.update(i, u);
                assert(pre.drop_first() =~= prefix_ops(SegS::Idx(i), ops.drop_first()));
                lemma_patch_prefix_idx(xs2, i, ops.drop_first());
                assert(xs2[i] == u);
                match apply_patch_s(u, ops.drop_first()) {
                    Some(w) => {
                        assert(xs2.update(i, w) =~= xs.update(i, w));
                    },
                    None => {},
                }
            },
            None => {},
        }
    }
}

/// A patch whose every path starts with the key of field `j` transforms
/// exactly that field's value, provided the object's keys are distinct.
proof fn lemma_patch_prefix_key(fs: Seq<FieldS>, j: int, ops: Seq<OpS>)
    requires
        0 <= j < fs.len(),
        forall|x: int, y: int| 0 <= x < y < fs.len() ==> fs[x].key != fs[y].key,
        replace_only(ops),
    ensures
        apply_patch_s(ValueS::Obj(fs), prefix_ops(SegS::Key(fs[j].key), ops)) == match
            apply_patch_s(fs[j].val, ops) {
            Some(w) => Some(ValueS::Obj(fs.update(j, FieldS { key: fs[j].key, val: w }))),
            None => None::<ValueS>,
        },
    decreases ops.len(),
{
    let k = fs[j].key;
    let pre = prefix_ops(SegS::Key(k), ops);
    if ops.len() == 0 {
        assert(fs.update(j, FieldS { key: k, val: fs[j].val }) =~= fs);
    } else {
        assert(pre[0] == OpS {
            kind: ops[0].kind,
            path: seq![SegS::Key(k)] + ops[0].path,
            value: ops[0].value,
        });
        lemma_apply_at_key(fs, j, pre[0], ops[0].path);
        lemma_apply_at_path_irrelevant(fs[j].val, ops[0].path, pre[0], ops[0]);
        match apply_op_s(fs[j].val, ops[0]) {
            Some(u) => {
                let fs2 = fs.update(j, FieldS { key: k, val: u });
                assert(pre.drop_first() =~= prefix_ops(SegS::Key(k), ops.drop_first()));
                assert(forall|x: int, y: int|
                    0 <= x < y < fs2.len() ==> fs2[x].key != fs2[y].key);
                assert(fs2[j].key == k && fs2[j].val == u);
                lemma_patch_prefix_key(fs2, j, ops.drop_first());
                match apply_patch_s(u, ops.drop_first()) {
                    Some(w) => {
                        assert(fs2.update(j, FieldS { key: k, val: w }) =~= fs.update(
                            j,
                            FieldS { key: k, val: w },
                        ));
                    },
                    None => {},
                }
            },
            None => {},
        }
    }
}

/// Everything `diff_s` emits is a replacement.
proof fn lemma_diff_replace_only(a: ValueS, b: ValueS)
    ensures
        replace_only(diff_s(a, b)),
    decreases a, 0int, 0int,
{
    if a == b {
    } else if a is Arr && b is Arr && a->Arr_0.len() == b->Arr_0.len() {
        lemma_diff_arr_replace_only(a->Arr_0, b->Arr_0, 0);
    } else if a is Obj && b is Obj && same_keys(a->Obj_0, b->Obj_0) {
        lemma_diff_obj_replace_only(a->Obj_0, b->Obj_0, 0);
    } else {
    }
}

proof fn lemma_diff_arr_replace_only(xa: Seq<ValueS>, xb: Seq<ValueS>, i: int)
    ensures
        replace_only(diff_arr(xa, xb, i)),
    decreases xa, xa.len() - i, 1int,
{
    if 0 <= i < xa.len() && xb.len() == xa.len() {
        lemma_diff_replace_only(xa[i], xb[i]);
        lemma_diff_arr_replace_only(xa, xb, i + 1);
    }
}

proof fn lemma_diff_obj_replace_only(fa: Seq<FieldS>, fb: Seq<FieldS>, i: int)
    ensures
        replace_only(diff_obj(fa, fb, i)),
    decreases fa, fa.len() - i, 1int,
{
    if 0 <= i < fa.len() && fb.len() == fa.len() {
        lemma_diff_replace_only(fa[i].val, fb[i].val);
        lemma_diff_obj_replace_only(fa, fb, i + 1);
    }
}

/// Round-trip law: applying the computed difference to `a` reproduces
/// `b` exactly, for every well-formed `a` and every `b`.
pub proof fn lemma_diff_round_trip(a: ValueS, b: ValueS)
    requires
        wf(a),
    ensures
        apply_patch_s(a, diff_s(a, b)) == Some(b),
    decreases a, 0int, 0int,
{
    if a == b {
    } else if a is Arr && b is Arr && a->Arr_0.len() == b->Arr_0.len() {
        let xa = a->Arr_0;
        let xb = b->Arr_0;
        lemma_arr_round(xa, xb, xa, 0);
        assert(merge_from(xa, xb, 0) =~= xb);
        assert(a == ValueS::Arr(xa));
        assert(diff_s(a, b) == diff_arr(xa, xb, 0));
        assert(apply_patch_s(a, diff_s(a, b)) == Some(b));
    } else if a is Obj && b is Obj && same_keys(a->Obj_0, b->Obj_0) {
        let fa = a->Obj_0;
        let fb = b->Obj_0;
        lemma_obj_round(fa, fb, fa, 0);
        assert(merge_fields_from(fa, fb, 0) =~= fb);
        assert(a == ValueS::Obj(fa));
        assert(apply_patch_s(a, diff_s(a, b)) == Some(b));
    } else {
        let ops = diff_s(a, b);
        assert(ops.len() == 1);
        assert(apply_op_s(a, ops[0]) == Some(b));
        assert(ops.drop_first() =~= Seq::<OpS>::empty());
        assert(apply_patch_s(b, Seq::<OpS>::empty()) == Some(b));
    }
}

/// Applying the element differences from index `i` on to an array that
/// still carries `a`'s elements there replaces them with `b`'s.
proof fn lemma_arr_round(xa: Seq<ValueS>, xb: Seq<ValueS>, ys: Seq<ValueS>, i: int)
    requires
        xa.len() == xb.len(),
        ys.len() == xa.len(),
        0 <= i <= xa.len(),
        forall|k: int| i <= k < xa.len() ==> ys[k] == xa[k],
        forall|k: int| i <= k < xa.len() ==> wf(#[trigger] xa[k]),
    ensures
        apply_patch_s(ValueS::Arr(ys), diff_arr(xa, xb, i)) == Some(
            ValueS::Arr(merge_from(ys, xb, i)),
        ),
    decreases xa, xa.len() - i, 2int,
{
    let merged = merge_from(ys, xb, i);
    if i == xa.len() {
        assert(diff_arr(xa, xb, i) =~= Seq::<OpS>::empty());
        assert(merged =~= ys);
    } else {
        let d = diff_s(xa[i], xb[i]);
        lemma_diff_replace_only(xa[i], xb[i]);
        lemma_apply_concat(
            ValueS::Arr(ys),
            prefix_ops(SegS::Idx(i), d),
            diff_arr(xa, xb, i + 1),
        );
        lemma_patch_prefix_idx(ys, i, d);
        lemma_diff_round_trip(xa[i], xb[i]);
        assert(apply_patch_s(ys[i], d) == Some(xb[i]));
        let ys2 = ys.update(i, xb[i]);
        lemma_arr_round(xa, xb, ys2, i + 1);
        assert(merge_from(ys2, xb, i + 1) =~= merged);
    }
}

/// Applying the field differences from index `i` on to an object that
/// carries `a`'s keys, and still `a`'s values there, replaces them with
/// `b`'s values.
proof fn lemma_obj_round(fa: Seq<FieldS>, fb: Seq<FieldS>, gs: Seq<FieldS>, i: int)
    requires
        same_keys(fa, fb),
        gs.len() == fa.len(),
        forall|k: int| 0 <= k < fa.len() ==> gs[k].key == fa[k].key,
        forall|x: int, y: int| 0 <= x < y < fa.len() ==> fa[x].key != fa[y].key,
        0 <= i <= fa.len(),
        forall|k: int| i <= k < fa.len() ==> gs[k].val == fa[k].val,
        forall|k: int| i <= k < fa.len() ==> wf(#[trigger] fa[k].val),
    ensures
        apply_patch_s(ValueS::Obj(gs), diff_obj(fa, fb, i)) == Some(
            ValueS::Obj(merge_fields_from(gs, fb, i)),
        ),
    decreases fa, fa.len() - i, 2int,
{
    let merged = merge_fields_from(gs, fb, i);
    if i == fa.len() {
        assert(diff_obj(fa, fb, i) =~= Seq::<OpS>::empty());
        assert(merged =~= gs);
    } else {
        let d = diff_s(fa[i].val, fb[i].val);
        lemma_diff_replace_only(fa[i].val, fb[i].val);
        lemma_apply_concat(
            ValueS::Obj(gs),
            prefix_ops(SegS::Key(fa[i].key), d),
            diff_obj(fa, fb, i + 1),
        );
        assert(forall|x: int, y: int| 0 <= x < y < gs.len() ==> gs[x].key != gs[y].key);
        assert(gs[i].key == fa[i].key);
        lemma_patch_prefix_key(gs, i, d);
        lemma_diff_round_trip(fa[i].val, fb[i].val);
        assert(apply_patch_s(gs[i].val, d) == Some(fb[i].val));
        let gs2 = gs.update(i, FieldS { key: fa[i].key, val: fb[i].val });
        lemma_obj_round(fa, fb, gs2, i + 1);
        assert(merge_fields_from(gs2, fb, i + 1) =~= merged);
    }
}

/// Failure of patch application: a path that does not resolve in the
/// value, or a remove naming the root.
#[derive(Clone, Copy, PartialEq, Eq, Structural, Debug)]
pub enum PatchError {
    PathUnresolved,
}

/// One patch operation replacing the whole value with a copy of `b`.
fn replace_whole(b: &Value) -> (r: Vec<PatchOp>)
    ensures
        ops_model(r) =~= seq![OpS { kind: OpKind::Replace, path: Seq::empty(), value: b@ }],
{
    let mut r: Vec<PatchOp> = Vec::new();
    let op = PatchOp { kind: OpKind::Replace, path: Vec::new(), value: b.deep_clone() };
    proof {
        assert(path_model(op.path) =~= Seq::<SegS>::empty());
    }
    r.push(op);
    r
}

/// Computes the structural difference from `a` to `b`. Applying the
/// result to `a` with `apply_patch` reproduces `b` (the round-trip law,
/// `lemma_diff_round_trip`); the difference of a value from itself is
/// empty (`lemma_diff_self_empty`).
#[verifier::loop_isolation(false)]
pub fn diff(a: &Value, b: &Value) -> (r: Vec<PatchOp>)
    ensures
        ops_model(r) == diff_s(a@, b@),
    decreases *a,
{
    if value_eq(a, b) {
        let r: Vec<PatchOp> = Vec::new();
        proof {
            assert(ops_model(r) =~= diff_s(a@, b@));
        }
        return r;
    }
    match (a, b) {
        (Value::Arr(xs), Value::Arr(ys)) => {
            if xs.len() != ys.len() {
                let r = replace_whole(b);
                proof {
                    assert(ops_model(r) =~= diff_s(a@, b@));
                }
                return r;
            }
            let n = xs.len();
            let ghost am = arr_model(*xs);
            let ghost bm = arr_model(*ys);
            let mut out: Vec<PatchOp> = Vec::new();
            proof {
                assert(ops_model(out) + diff_arr(am, bm, 0) =~= diff_arr(am, bm, 0));
            }
            let mut i: usize = 0;
            while i < n
                invariant
                    n == xs@.len(),
                    n == ys@.len(),
                    i <= n,
                    ops_model(out) + diff_arr(am, bm, i as int) == diff_arr(am, bm, 0),
                decreases n - i,
            {
                proof {
                    assert(decreases_to!(*xs => xs@[i as int]));
                }
                let mut sub = diff(&xs[i], &ys[i]);
                let ghost orig = ops_model(sub);
                proof {
                    assert(orig == diff_s(am[i as int], bm[i as int]));
                }
                let m = sub.len();
                let mut k: usize = 0;
                while k < m
                    invariant
                        m == sub@.len(),
                        k <= m,
                        orig.len() == m,
                        forall|j: int| 0 <= j < k ==> ops_model(sub)[j] == #[trigger] prefix_ops(
                            SegS::Idx(i as int),
                            orig,
                        )[j],
                        forall|j: int| k <= j < m ==> ops_model(sub)[j] == #[trigger] orig[j],
                    decreases m - k,
                {
                    let ghost entry = sub@;
                    let mut op = sub.remove(k);
                    let ghost prevop = entry[k as int];
                    op.path.insert(0, Seg::Idx(i));
                    sub.insert(k, op);
                    proof {
                        assert(sub@ =~= entry.update(k as int, sub@[k as int]));
                        assert(sub@[k as int].kind == prevop.kind);
                        assert(sub@[k as int].value == prevop.value);
                        assert(path_model(sub@[k as int].path) =~= seq![SegS::Idx(i as int)]
                            + path_model(prevop.path));
                        assert(prevop@ == orig[k as int]);
                        assert(ops_model(sub)[k as int] == prefix_ops(
                            SegS::Idx(i as int),
                            orig,
                        )[k as int]);
                        assert forall|j: int| 0 <= j < k implies ops_model(sub)[j]
                            == #[trigger] prefix_ops(SegS::Idx(i as int), orig)[j] by {
                            assert(sub@[j] == entry[j]);
                        }
                        assert forall|j: int| k + 1 <= j < m implies ops_model(sub)[j]
                            == #[trigger] orig[j] by {
                            assert(sub@[j] == entry[j]);
                        }
                    }
                    k += 1;
                }
                proof {
                    assert(ops_model(sub) =~= prefix_ops(SegS::Idx(i as int), orig));
                }
                let ghost out_old = ops_model(out);
                out.append(&mut sub);
                proof {
                    assert(ops_model(out) =~= out_old + prefix_ops(SegS::Idx(i as int), orig));
                    assert(diff_arr(am, bm, i as int) == prefix_ops(SegS::Idx(i as int), orig)
                        + diff_arr(am, bm, i + 1));
                    assert(ops_model(out) + diff_arr(am, bm, i + 1) =~= out_old + diff_arr(
                        am,
                        bm,
                        i as int,
                    ));
                }
                i += 1;
            }
            proof {
                assert(diff_arr(am, bm, n as int) =~= Seq::<OpS>::empty());
                assert(ops_model(out) =~= ops_model(out) + diff_arr(am, bm, n as int));
                assert(diff_s(a@, b@) == diff_arr(am, bm, 0));
            }
            out
        },
        (Value::Obj(fs), Value::Obj(gs)) => {
            let n = fs.len();
            let keys_same = if fs.len() != gs.len() {
                false
            } else {
                let mut same = true;
                let mut i: usize = 0;
                while i < n
                    invariant
                        n == fs@.len(),
                        n == gs@.len(),
                        i <= n,
                        same == (forall|j: int|
                            0 <= j < i ==> obj_model(*fs)[j].key == obj_model(*gs)[j].key),
                    decreases n - i,
                {
                    if !(fs[i].key == gs[i].key) {
                        same = false;
                        assert(obj_model(*fs)[i as int].key != obj_model(*gs)[i as int].key);
                        assert(!(forall|j: int|
                            0 <= j < i + 1 ==> obj_model(*fs)[j].key == obj_model(*gs)[j].key));
                        i += 1;
                        break;
                    }
                    i += 1;
                }
                same
            };
            if !keys_same {
                let r = replace_whole(b);
                proof {
                    assert(!same_keys(obj_model(*fs), obj_model(*gs)));
                    assert(ops_model(r) =~= diff_s(a@, b@));
                }
                return r;
            }
            proof {
                assert(same_keys(obj_model(*fs), obj_model(*gs)));
            }
            let ghost am = obj_model(*fs);
            let ghost bm = obj_model(*gs);
            let mut out: Vec<PatchOp> = Vec::new();
            proof {
                assert(ops_model(out) + diff_obj(am, bm, 0) =~= diff_obj(am, bm, 0));
            }
            let mut i: usize = 0;
            while i < n
                invariant
                    n == fs@.len(),
                    n == gs@.len(),
                    i <= n,
                    ops_model(out) + diff_obj(am, bm, i as int) == diff_obj(am, bm, 0),
                decreases n - i,
            {
                proof {
                    assert(decreases_to!(*fs => fs@[i as int]));
                    assert(decreases_to!(fs@[i as int] => fs@[i as int].val));
                }
                let mut sub = diff(&fs[i].val, &gs[i].val);
                let ghost orig = ops_model(sub);
                proof {
                    assert(orig == diff_s(am[i as int].val, bm[i as int].val));
                }
                let m = sub.len();
                let mut k: usize = 0;
                while k < m
                    invariant
                        m == sub@.len(),
                        k <= m,
                        orig.len() == m,
                        forall|j: int| 0 <= j < k ==> ops_model(sub)[j] == #[trigger] prefix_ops(
                            SegS::Key(am[i as int].key),
                            orig,
                        )[j],
                        forall|j: int| k <= j < m ==> ops_model(sub)[j] == #[trigger] orig[j],
                    decreases m - k,
                {
                    let seg = Seg::Key(fs[i].key.clone());
                    let ghost entry = sub@;
                    let mut op = sub.remove(k);
                    let ghost prevop = entry[k as int];
                    op.path.insert(0, seg);
                    sub.insert(k, op);
                    proof {
                        assert(sub@ =~= entry.update(k as int, sub@[k as int]));
                        assert(sub@[k as int].kind == prevop.kind);
                        assert(sub@[k as int].value == prevop.value);
                        assert(path_model(sub@[k as int].path) =~= seq![SegS::Key(am[i as int].key)]
                            + path_model(prevop.path));
                        assert(prevop@ == orig[k as int]);
                        assert(ops_model(sub)[k as int] == prefix_ops(
                            SegS::Key(am[i as int].key),
                            orig,
                        )[k as int]);
                        assert forall|j: int| 0 <= j < k implies ops_model(sub)[j]
                            == #[trigger] prefix_ops(SegS::Key(am[i as int].key), orig)[j] by {
                            assert(sub@[j] == entry[j]);
                        }
                        assert forall|j: int| k + 1 <= j < m implies ops_model(sub)[j]
                            == #[trigger] orig[j] by {
                            assert(sub@[j] == entry[j]);
                        }
                    }
                    k += 1;
                }
                proof {
                    assert(ops_model(sub) =~= prefix_ops(SegS::Key(am[i as int].key), orig));
                }
                let ghost out_old = ops_model(out);
                out.append(&mut sub);
                proof {
                    assert(ops_model(out) =~= out_old + prefix_ops(
                        SegS::Key(am[i as int].key),
                        orig,
                    ));
                    assert(diff_obj(am, bm, i as int) == prefix_ops(
                        SegS::Key(am[i as int].key),
                        orig,
                    ) + diff_obj(am, bm, i + 1));
                    assert(ops_model(out) + diff_obj(am, bm, i + 1) =~= out_old + diff_obj(
                        am,
                        bm,
                        i as int,
                    ));
                }
                i += 1;
            }
            proof {
                assert(diff_obj(am, bm, n as int) =~= Seq::<OpS>::empty());
                assert(ops_model(out) =~= ops_model(out) + diff_obj(am, bm, n as int));
                assert(diff_s(a@, b@) == diff_obj(am, bm, 0));
            }
            out
        },
        _ => {
            let r = replace_whole(b);
            proof {
                assert(ops_model(r) =~= diff_s(a@, b@));
            }
            r
        },
    }
}

/// Applies one operation below `op.path[pi..]` of `v`; exactly the
/// failures of the model `apply_at` are reported.
#[verifier::loop_isolation(false)]
fn apply_op(v: Value, op: &PatchOp, pi: usize) -> (r: Result<Value, PatchError>)
    requires
        pi <= op.path@.len(),
    ensures
        (match apply_at(v@, path_model(op.path).skip(pi as int), op@) {
            Some(w) => r is Ok && r->Ok_0@ == w,
            None => r is Err,
        }),
    decreases op.path@.len() - pi,
{
    let ghost p = path_model(op.path).skip(pi as int);
    if pi == op.path.len() {
        proof {
            assert(p.len() == 0);
        }
        match op.kind {
            OpKind::Remove => Err(PatchError::PathUnresolved),
            _ => Ok(op.value.deep_clone()),
        }
    } else {
        proof {
            assert(p[0] == op.path@[pi as int]@);
            assert(p.drop_first() =~= path_model(op.path).skip(pi + 1 as int));
        }
        let last = pi + 1 == op.path.len();
        match &op.path[pi] {
            Seg::Key(k) => {
                match v {
                    Value::Obj(mut fields) => {
                        let ghost fsm = obj_model(fields);
                        proof {
                            lemma_find_key(fsm, k@);
                        }
                        let n = fields.len();
                        let mut j: usize = 0;
                        let mut found = false;
                        while j < n
                            invariant
                                n == fields@.len(),
                                j <= n,
                                !found ==> forall|x: int| 0 <= x < j ==> fsm[x].key != k@,
                                found ==> j < n && fsm[j as int].key == k@ && (forall|x: int|
                                    0 <= x < j ==> fsm[x].key != k@),
                            decreases n - j,
                        {
                            if fields[j].key == *k {
                                found = true;
                                break;
                            }
                            j += 1;
                        }
                        if !found {
                            proof {
                                assert(find_key(fsm, k@) == -1) by {
                                    if find_key(fsm, k@) != -1 {
                                        assert(fsm[find_key(fsm, k@)].key == k@);
                                    }
                                }
                            }
                            if last && matches!(op.kind, OpKind::Add) {
                                let nv = op.value.deep_clone();
                                fields.push(Field { key: k.clone(), val: nv });
                                proof {
                                    assert(obj_model(fields) =~= fsm.push(
                                        FieldS { key: k@, val: op@.value },
                                    ));
                                }
                                Ok(Value::Obj(fields))
                            } else {
                                Err(PatchError::PathUnresolved)
                            }
                        } else {
                            proof {
                                assert(find_key(fsm, k@) == j as int) by {
                                    if find_key(fsm, k@) == -1 {
                                        assert(fsm[j as int].key != k@);
                                    } else if find_key(fsm, k@) < j as int {
                                        assert(fsm[find_key(fsm, k@)].key != k@);
                                    } else if find_key(fsm, k@) > j as int {
                                        assert(fsm[j as int].key != k@);
                                    }
                                }
                            }
                            if last && matches!(op.kind, OpKind::Remove) {
                                fields.remove(j);
                                proof {
                                    assert(obj_model(fields) =~= fsm.remove(j as int));
                                }
                                Ok(Value::Obj(fields))
                            } else {
                                let fld = fields.remove(j);
                                let key = fld.key;
                                match apply_op(fld.val, op, pi + 1) {
                                    Ok(u) => {
                                        fields.insert(j, Field { key, val: u });
                                        proof {
                                            assert(obj_model(fields) =~= fsm.update(
                                                j as int,
                                                FieldS { key: fsm[j as int].key, val: u@ },
                                            ));
                                        }
                                        Ok(Value::Obj(fields))
                                    },
                                    Err(e) => Err(e),
                                }
                            }
                        }
                    },
                    _ => Err(PatchError::PathUnresolved),
                }
            },
            Seg::Idx(ix) => {
                match v {
                    Value::Arr(mut items) => {
                        let ghost xsm = arr_model(items);
                        let i = *ix;
                        if i < items.len() {
                            if last && matches!(op.kind, OpKind::Remove) {
                                items.remove(i);
                                proof {
                                    assert(arr_model(items) =~= xsm.remove(i as int));
                                }
                                Ok(Value::Arr(items))
                            } else {
                                let item = items.remove(i);
                                match apply_op(item, op, pi + 1) {
                                    Ok(u) => {
                                        items.insert(i, u);
                                        proof {
                                            assert(arr_model(items) =~= xsm.update(i as int, u@));
                                        }
                                        Ok(Value::Arr(items))
                                    },
                                    Err(e) => Err(e),
                                }
                            }
                        } else if i == items.len() && last && matches!(op.kind, OpKind::Add) {
                            let nv = op.value.deep_clone();
                            items.push(nv);
                            proof {
                                assert(arr_model(items) =~= xsm.push(op@.value));
                            }
                            Ok(Value::Arr(items))
                        } else {
                            Err(PatchError::PathUnresolved)
                        }
                    },
                    _ => Err(PatchError::PathUnresolved),
                }
            },
        }
    }
}

/// Applies a patch to `v`: the operations in order; the first operation
/// whose path does not resolve fails the whole application, exactly as
/// in the model.
#[verifier::loop_isolation(false)]
pub fn apply_patch(v: Value, ops: &Vec<PatchOp>) -> (r: Result<Value, PatchError>)
    ensures
        (match apply_patch_s(v@, ops_model(*ops)) {
            Some(w) => r is Ok && r->Ok_0@ == w,
            None => r is Err,
        }),
{
    let ghost v0 = v@;
    let ghost opsm = ops_model(*ops);
    let n = ops.len();
    let mut cur = v;
    proof {
        assert(opsm.skip(0) =~= opsm);
    }
    let mut t: usize = 0;
    while t < n
        invariant
            n == ops@.len(),
            t <= n,
            apply_patch_s(v0, opsm) == apply_patch_s(cur@, opsm.skip(t as int)),
        decreases n - t,
    {
        proof {
            assert(opsm.skip(t as int)[0] == opsm[t as int]);
            assert(opsm.skip(t as int).drop_first() =~= opsm.skip(t + 1 as int));
            assert(path_model(ops@[t as int].path).skip(0) =~= path_model(ops@[t as int].path));
        }
        match apply_op(cur, &ops[t], 0) {
            Ok(u) => {
                cur = u;
            },
            Err(e) => {
                return Err(e);
            },
        }
        t += 1;
    }
    proof {
        assert(opsm.skip(n as int) =~= Seq::<OpS>::empty());
    }
    Ok(cur)
}

} // verus!
