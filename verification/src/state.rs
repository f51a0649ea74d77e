//! Per-connection state replication: the server-side field diff taken when
//! a state guard is released, and the client-side application of the
//! resulting change records to a local replica.
//!
//! A state is presented to the core as an ordered list of fields, each an
//! encoded value under a stable string name. On guard release the server
//! diffs the current fields against the pre-image captured at lock time;
//! only the fields whose values changed are put in the change batch, in
//! field order, and an empty batch sends nothing. The client applies each
//! change to the field of the same name, ignoring unknown names. Applying
//! the diff to the pre-image is proved to rebuild the current state.

use crate::wire::bytes_eq;
use crate::wire::change_view;
use crate::wire::changes_view;
use crate::wire::ChangeView;
use crate::wire::HandlerResult;
use vstd::prelude::*;
use vstd::slice::slice_to_vec;

verus! {

/// The capability a client-side replica offers the connection loop: apply
/// one batch of field-addressed changes. Implementations are supplied by
/// the application (in practice by a sibling code generator); the replica
/// below is the field-list form the core itself provides.
pub trait State {
    /// Applies one batch of `(field name, encoded value)` records.
    fn apply_changes(&mut self, changes: Vec<(String, Vec<u8>)>) -> HandlerResult<()>;
}

/// The change batch a guard release emits: the fields of `cur` whose
/// values differ from the pre-image `pre`, in field order.
pub open spec fn spec_diff(pre: Seq<ChangeView>, cur: Seq<ChangeView>) -> Seq<ChangeView>
    recommends
        pre.len() == cur.len(),
    decreases cur.len(),
{
    if cur.len() == 0 {
        Seq::empty()
    } else {
        (if pre[0].value != cur[0].value {
            seq![cur[0]]
        } else {
            Seq::empty()
        }) + spec_diff(pre.drop_first(), cur.drop_first())
    }
}

/// One change applied to a field list: every field carrying the change's
/// name takes its value; all others are untouched. A name no field
/// carries changes nothing.
pub open spec fn spec_apply_one(fields: Seq<ChangeView>, c: ChangeView) -> Seq<ChangeView> {
    fields.map_values(
        |f: ChangeView|
            if f.name == c.name {
                ChangeView { name: f.name, value: c.value }
            } else {
                f
            },
    )
}

/// A batch of changes applied to a field list, in batch order.
pub open spec fn spec_apply(fields: Seq<ChangeView>, cs: Seq<ChangeView>) -> Seq<ChangeView>
    decreases cs.len(),
{
    if cs.len() == 0 {
        fields
    } else {
        spec_apply(spec_apply_one(fields, cs[0]), cs.drop_first())
    }
}

/// Number of fields whose values differ between pre-image and current
/// state.
pub open spec fn spec_changed_count(pre: Seq<ChangeView>, cur: Seq<ChangeView>) -> nat
    recommends
        pre.len() == cur.len(),
    decreases cur.len(),
{
    if cur.len() == 0 {
        0
    } else {
        (if pre[0].value != cur[0].value {
            1nat
        } else {
            0nat
        }) + spec_changed_count(pre.drop_first(), cur.drop_first())
    }
}

/// Diff minimality, empty half: a guard that changed nothing emits an
/// empty batch, so no envelope is sent for it.
pub proof fn lemma_diff_no_change(s: Seq<ChangeView>)
    ensures
        spec_diff(s, s).len() == 0,
    decreases s.len(),
{
    if s.len() > 0 {
        lemma_diff_no_change(s.drop_first());
    }
}

/// Diff minimality, counting half: the batch holds exactly one entry per
/// changed field.
pub proof fn lemma_diff_len(pre: Seq<ChangeView>, cur: Seq<ChangeView>)
    requires
        pre.len() == cur.len(),
    ensures
        spec_diff(pre, cur).len() == spec_changed_count(pre, cur),
    decreases cur.len(),
{
    if cur.len() > 0 {
        lemma_diff_len(pre.drop_first(), cur.drop_first());
    }
}

/// Every entry of the batch is a changed field of the current state.
pub proof fn lemma_diff_entries_changed(pre: Seq<ChangeView>, cur: Seq<ChangeView>, k: int)
    requires
        pre.len() == cur.len(),
        0 <= k < spec_diff(pre, cur).len(),
    ensures
        exists|i: int|
            0 <= i < cur.len() && spec_diff(pre, cur)[k] == cur[i] && pre[i].value != cur[i].value,
    decreases cur.len(),
{
    let d = spec_diff(pre, cur);
    if pre[0].value != cur[0].value {
        if k == 0 {
            assert(d[0] == cur[0]);
        } else {
            lemma_diff_entries_changed(pre.drop_first(), cur.drop_first(), k - 1);
            let i = choose|i: int|
                0 <= i < cur.drop_first().len() && spec_diff(pre.drop_first(), cur.drop_first())[k
                    - 1] == cur.drop_first()[i] && pre.drop_first()[i].value != cur.drop_first()[
                    i
                ].value;
            assert(d[k] == cur[i + 1] && pre[i + 1].value != cur[i + 1].value);
        }
    } else {
        lemma_diff_entries_changed(pre.drop_first(), cur.drop_first(), k);
        let i = choose|i: int|
            0 <= i < cur.drop_first().len() && spec_diff(pre.drop_first(), cur.drop_first())[k]
                == cur.drop_first()[i] && pre.drop_first()[i].value != cur.drop_first()[i].value;
        assert(d[k] == cur[i + 1] && pre[i + 1].value != cur[i + 1].value);
    }
}

/// Every changed field of the current state appears in the batch.
pub proof fn lemma_diff_complete(pre: Seq<ChangeView>, cur: Seq<ChangeView>, i: int)
    requires
        pre.len() == cur.len(),
        0 <= i < cur.len(),
        pre[i].value != cur[i].value,
    ensures
        spec_diff(pre, cur).contains(cur[i]),
    decreases cur.len(),
{
    let d = spec_diff(pre, cur);
    if i == 0 {
        assert(d[0] == cur[0]);
    } else {
        lemma_diff_complete(pre.drop_first(), cur.drop_first(), i - 1);
        let rest = spec_diff(pre.drop_first(), cur.drop_first());
        let k = choose|k: int| 0 <= k < rest.len() && rest[k] == cur.drop_first()[i - 1];
        if pre[0].value != cur[0].value {
            assert(d[k + 1] == cur[i]);
        } else {
            assert(d[k] == cur[i]);
        }
    }
}

/// Applying changes that carry none of the head field's name leaves the
/// head alone and acts on the tail as it would on its own.
proof fn lemma_apply_skips_head(x: ChangeView, f: Seq<ChangeView>, cs: Seq<ChangeView>)
    requires
        forall|k: int| 0 <= k < cs.len() ==> (#[trigger] cs[k]).name != x.name,
    ensures
        spec_apply(seq![x] + f, cs) == seq![x] + spec_apply(f, cs),
    decreases cs.len(),
{
    if cs.len() > 0 {
        assert(spec_apply_one(seq![x] + f, cs[0]) =~= seq![x] + spec_apply_one(f, cs[0]));
        lemma_apply_skips_head(x, spec_apply_one(f, cs[0]), cs.drop_first());
    }
}

/// State replication is exact: applying the diff of a guard release to the
/// pre-image rebuilds the state the guard left behind, provided field
/// names are stable across the release and no name repeats.
pub proof fn lemma_apply_diff_rebuilds(pre: Seq<ChangeView>, cur: Seq<ChangeView>)
    requires
        pre.len() == cur.len(),
        forall|i: int| 0 <= i < cur.len() ==> (#[trigger] pre[i]).name == cur[i].name,
        forall|i: int, j: int|
            0 <= i < cur.len() && 0 <= j < cur.len() && i != j ==> (#[trigger] cur[i]).name != (
            #[trigger] cur[j]).name,
    ensures
        spec_apply(pre, spec_diff(pre, cur)) == cur,
    decreases cur.len(),
{
    if cur.len() == 0 {
        assert(pre =~= cur);
    } else {
        let pre1 = pre.drop_first();
        let cur1 = cur.drop_first();
        let rest = spec_diff(pre1, cur1);
        assert forall|k: int| 0 <= k < rest.len() implies (#[trigger] rest[k]).name
            != cur[0].name by {
            lemma_diff_entries_changed(pre1, cur1, k);
            let i = choose|i: int|
                0 <= i < cur1.len() && rest[k] == cur1[i] && pre1[i].value != cur1[i].value;
            assert(cur1[i] == cur[i + 1]);
        }
        lemma_apply_diff_rebuilds(pre1, cur1);
        if pre[0].value != cur[0].value {
            assert(spec_diff(pre, cur) == seq![cur[0]] + rest);
            assert((seq![cur[0]] + rest)[0] == cur[0]);
            assert((seq![cur[0]] + rest).drop_first() =~= rest);
            assert(spec_apply_one(pre, cur[0]) =~= seq![cur[0]] + pre1) by {
                assert forall|l: int| 0 <= l < pre.len() implies spec_apply_one(pre, cur[0])[l] == (
                seq![cur[0]] + pre1)[l] by {
                    if l > 0 {
                        assert(pre[l].name == cur[l].name && cur[l].name != cur[0].name);
                    }
                }
            }
            lemma_apply_skips_head(cur[0], pre1, rest);
            assert(spec_apply(pre, spec_diff(pre, cur)) == seq![cur[0]] + spec_apply(pre1, rest));
            assert(seq![cur[0]] + cur1 =~= cur);
        } else {
            assert(spec_diff(pre, cur) =~= rest) by {
                assert(Seq::<ChangeView>::empty() + rest =~= rest);
            }
            assert(pre[0] == cur[0]);
            assert(seq![pre[0]] + pre1 =~= pre);
            lemma_apply_skips_head(pre[0], pre1, rest);
            assert(spec_apply(pre, rest) == seq![pre[0]] + spec_apply(pre1, rest));
            assert(seq![cur[0]] + cur1 =~= cur);
        }
    }
}

/// Copies one encoded value.
fn copy_bytes(src: &Vec<u8>) -> (r: Vec<u8>)
    ensures
        r@ == src@,
{
    slice_to_vec(src.as_slice())
}

/// Two diffed batches laid end to end diff as one batch.
proof fn lemma_diff_append(
    p1: Seq<ChangeView>,
    c1: Seq<ChangeView>,
    p2: Seq<ChangeView>,
    c2: Seq<ChangeView>,
)
    requires
        p1.len() == c1.len(),
    ensures
        spec_diff(p1 + p2, c1 + c2) == spec_diff(p1, c1) + spec_diff(p2, c2),
    decreases c1.len(),
{
    if c1.len() == 0 {
        assert(p1 + p2 =~= p2);
        assert(c1 + c2 =~= c2);
        assert(spec_diff(p1, c1) + spec_diff(p2, c2) =~= spec_diff(p2, c2));
    } else {
        assert((p1 + p2).drop_first() =~= p1.drop_first() + p2);
        assert((c1 + c2).drop_first() =~= c1.drop_first() + c2);
        lemma_diff_append(p1.drop_first(), c1.drop_first(), p2, c2);
        let head = if p1[0].value != c1[0].value {
            seq![c1[0]]
        } else {
            Seq::<ChangeView>::empty()
        };
        assert((p1 + p2)[0] == p1[0] && (c1 + c2)[0] == c1[0]);
        assert(head + (spec_diff(p1.drop_first(), c1.drop_first()) + spec_diff(p2, c2))
            =~= spec_diff(p1, c1) + spec_diff(p2, c2));
    }
}

/// Builds the change batch of one guard release: exactly the fields of
/// `cur` whose values differ from the pre-image, under their names, in
/// field order. No change means an empty batch.
pub fn diff_fields(pre: &Vec<(String, Vec<u8>)>, cur: &Vec<(String, Vec<u8>)>) -> (r: Vec<
    (String, Vec<u8>),
>)
    requires
        pre@.len() == cur@.len(),
    ensures
        changes_view(r@) == spec_diff(changes_view(pre@), changes_view(cur@)),
{
    let ghost pv = changes_view(pre@);
    let ghost cv = changes_view(cur@);
    let mut out: Vec<(String, Vec<u8>)> = Vec::new();
    let mut i: usize = 0;
    while i < cur.len()
        invariant
            pre@.len() == cur@.len(),
            i <= cur@.len(),
            pv == changes_view(pre@),
            cv == changes_view(cur@),
            pv.len() == pre@.len(),
            cv.len() == cur@.len(),
            changes_view(out@) == spec_diff(pv.take(i as int), cv.take(i as int)),
        decreases cur@.len() - i,
    {
        proof {
            assert(pv[i as int] == change_view(pre@[i as int]));
            assert(cv[i as int] == change_view(cur@[i as int]));
            assert(pv.take(i + 1) =~= pv.take(i as int) + seq![pv[i as int]]);
            assert(cv.take(i + 1) =~= cv.take(i as int) + seq![cv[i as int]]);
            lemma_diff_append(
                pv.take(i as int),
                cv.take(i as int),
                seq![pv[i as int]],
                seq![cv[i as int]],
            );
            assert(seq![pv[i as int]].drop_first() =~= Seq::<ChangeView>::empty());
            assert(seq![cv[i as int]].drop_first() =~= Seq::<ChangeView>::empty());
            assert(spec_diff(Seq::<ChangeView>::empty(), Seq::<ChangeView>::empty()) =~= Seq::<
                ChangeView,
            >::empty());
        }
        if !bytes_eq(&pre[i].1, &cur[i].1) {
            let name = cur[i].0.clone();
            let value = copy_bytes(&cur[i].1);
            let ghost out0 = out@;
            out.push((name, value));
            proof {
                assert(pv[i as int].value != cv[i as int].value);
                assert(spec_diff(seq![pv[i as int]], seq![cv[i as int]]) == seq![cv[i as int]]
                    + spec_diff(Seq::<ChangeView>::empty(), Seq::<ChangeView>::empty()));
                assert(seq![cv[i as int]] + Seq::<ChangeView>::empty() =~= seq![cv[i as int]]);
                assert(change_view((name, value)) == cv[i as int]);
                assert(changes_view(out@) =~= changes_view(out0).push(cv[i as int]));
                assert(changes_view(out0).push(cv[i as int]) =~= changes_view(out0) + seq![
                    cv[i as int],
                ]);
            }
        } else {
            proof {
                assert(pv[i as int].value == cv[i as int].value);
                assert(spec_diff(seq![pv[i as int]], seq![cv[i as int]]) == Seq::<
                    ChangeView,
                >::empty() + spec_diff(Seq::<ChangeView>::empty(), Seq::<ChangeView>::empty()));
                assert(Seq::<ChangeView>::empty() + Seq::<ChangeView>::empty() =~= Seq::<
                    ChangeView,
                >::empty());
                assert(spec_diff(pv.take(i as int), cv.take(i as int)) + Seq::<
                    ChangeView,
                >::empty() =~= spec_diff(pv.take(i as int), cv.take(i as int)));
            }
        }
        i = i + 1;
    }
    proof {
        assert(pv.take(pv.len() as int) =~= pv);
        assert(cv.take(cv.len() as int) =~= cv);
    }
    out
}

/// A batch applied as one change after another: what remains after a
/// prefix of the batch is already applied.
proof fn lemma_apply_append(f: Seq<ChangeView>, a: Seq<ChangeView>, b: Seq<ChangeView>)
    ensures
        spec_apply(f, a + b) == spec_apply(spec_apply(f, a), b),
    decreases a.len(),
{
    if a.len() == 0 {
        assert(a + b =~= b);
    } else {
        assert((a + b)[0] == a[0]);
        assert((a + b).drop_first() =~= a.drop_first() + b);
        lemma_apply_append(spec_apply_one(f, a[0]), a.drop_first(), b);
    }
}

/// Applies one batch of changes to a replica held as a field list: each
/// change rewrites the value of every field carrying its name; names no
/// field carries are ignored.
pub fn apply_changes_to(fields: &mut Vec<(String, Vec<u8>)>, changes: &Vec<(String, Vec<u8>)>)
    ensures
        changes_view(final(fields)@) == spec_apply(
            changes_view(old(fields)@),
            changes_view(changes@),
        ),
{
    let ghost fv0 = changes_view(old(fields)@);
    let ghost csv = changes_view(changes@);
    let mut k: usize = 0;
    while k < changes.len()
        invariant
            csv == changes_view(changes@),
            csv.len() == changes@.len(),
            k <= changes@.len(),
            changes_view(fields@) == spec_apply(fv0, csv.take(k as int)),
        decreases changes@.len() - k,
    {
        let ghost before = changes_view(fields@);
        let ghost cchange = csv[k as int];
        proof {
            assert(cchange == change_view(changes@[k as int]));
        }
        let mut j: usize = 0;
        while j < fields.len()
            invariant
                k < changes@.len(),
                cchange == change_view(changes@[k as int]),
                before.len() == fields@.len(),
                j <= fields@.len(),
                forall|l: int|
                    0 <= l < j ==> changes_view(fields@)[l] == spec_apply_one(before, cchange)[l],
                forall|l: int| j <= l < fields@.len() ==> changes_view(fields@)[l] == before[l],
            decreases fields@.len() - j,
        {
            let ghost fpre = fields@;
            proof {
                assert(changes_view(fpre)[j as int] == change_view(fpre[j as int]));
                assert(before[j as int] == change_view(fpre[j as int]));
            }
            if fields[j].0 == changes[k].0 {
                let name = fields[j].0.clone();
                let value = copy_bytes(&changes[k].1);
                fields[j] = (name, value);
                proof {
                    assert(fields@ == fpre.update(j as int, (name, value)));
                    assert(before[j as int].name == cchange.name);
                    assert forall|l: int|
                        0 <= l < j + 1 implies changes_view(fields@)[l] == spec_apply_one(
                        before,
                        cchange,
                    )[l] by {
                        assert(changes_view(fields@)[l] == change_view(fields@[l]));
                        if l < j {
                            assert(fields@[l] == fpre[l]);
                            assert(changes_view(fpre)[l] == change_view(fpre[l]));
                        } else {
                            assert(change_view(fields@[l]) == ChangeView {
                                name: before[l].name,
                                value: cchange.value,
                            });
                        }
                    }
                    assert forall|l: int|
                        j + 1 <= l < fields@.len() implies changes_view(fields@)[l]
                        == before[l] by {
                        assert(changes_view(fields@)[l] == change_view(fields@[l]));
                        assert(fields@[l] == fpre[l]);
                        assert(changes_view(fpre)[l] == change_view(fpre[l]));
                    }
                }
            } else {
                proof {
                    assert(before[j as int].name != cchange.name);
                    assert(spec_apply_one(before, cchange)[j as int] == before[j as int]);
                }
            }
            j = j + 1;
        }
        proof {
            assert(changes_view(fields@) =~= spec_apply_one(before, cchange));
            assert(csv.take(k + 1) =~= csv.take(k as int) + seq![cchange]);
            lemma_apply_append(fv0, csv.take(k as int), seq![cchange]);
            let prevs = spec_apply(fv0, csv.take(k as int));
            assert(seq![cchange][0] == cchange);
            assert(seq![cchange].drop_first() =~= Seq::<ChangeView>::empty());
            assert(spec_apply(prevs, seq![cchange]) == spec_apply(
                spec_apply_one(prevs, cchange),
                Seq::<ChangeView>::empty(),
            ));
            assert(spec_apply(spec_apply_one(prevs, cchange), Seq::<ChangeView>::empty())
                == spec_apply_one(prevs, cchange));
        }
        k = k + 1;
    }
    proof {
        assert(csv.take(csv.len() as int) =~= csv);
    }
}

/// The field-list replica the core provides: an ordered list of named
/// fields holding their encoded values.
pub struct FieldStore {
    pub fields: Vec<(String, Vec<u8>)>,
}

impl View for FieldStore {
    type V = Seq<ChangeView>;

    open spec fn view(&self) -> Seq<ChangeView> {
        changes_view(self.fields@)
    }
}

impl FieldStore {
    /// An empty replica.
    pub fn new() -> (r: Self)
        ensures
            r@.len() == 0,
    {
        FieldStore { fields: Vec::new() }
    }
}

impl State for FieldStore {
    /// Applies the batch to the replica; the field-list form never fails.
    fn apply_changes(&mut self, changes: Vec<(String, Vec<u8>)>) -> HandlerResult<()> {
        apply_changes_to(&mut self.fields, &changes);
        Ok(())
    }
}

} // verus!
