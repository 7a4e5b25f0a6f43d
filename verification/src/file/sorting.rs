use vstd::prelude::*;
use vstd::seq_lib::to_multiset_build;

use crate::statements::imports::import_statement::{
    import_views, key_lt, lemma_key_lt_order, written_imports, ImportStatement, ImportView,
};

verus! {

/// `sorted` with `import` put in behind every import that it does not stand
/// before.
pub open spec fn insert_sorted(sorted: Seq<ImportView>, import: ImportView) -> Seq<ImportView>
    decreases sorted.len(),
{
    if sorted.len() > 0 && key_lt(import, sorted.last()) {
        insert_sorted(sorted.drop_last(), import).push(sorted.last())
    } else {
        sorted.push(import)
    }
}

/// The imports in the order in which they are written out: by category, then
/// by module; imports of one module keep the order that they had.
pub open spec fn sorted_imports(imports: Seq<ImportView>) -> Seq<ImportView>
    decreases imports.len(),
{
    if imports.len() == 0 {
        imports
    } else {
        insert_sorted(sorted_imports(imports.drop_last()), imports.last())
    }
}

/// Whether no import of `imports` stands before an earlier one.
pub open spec fn is_ordered(imports: Seq<ImportView>) -> bool {
    forall|i: int, j: int| 0 <= i < j < imports.len() ==> !key_lt(imports[j], imports[i])
}

/// Putting an import in adds one import.
pub proof fn lemma_insert_sorted_len(sorted: Seq<ImportView>, import: ImportView)
    ensures
        insert_sorted(sorted, import).len() == sorted.len() + 1,
    decreases sorted.len(),
{
    if sorted.len() > 0 && key_lt(import, sorted.last()) {
        lemma_insert_sorted_len(sorted.drop_last(), import);
    }
}

/// Sorting keeps the number of the imports.
pub proof fn lemma_sorted_imports_len(imports: Seq<ImportView>)
    ensures
        sorted_imports(imports).len() == imports.len(),
    decreases imports.len(),
{
    if imports.len() > 0 {
        lemma_sorted_imports_len(imports.drop_last());
        lemma_insert_sorted_len(sorted_imports(imports.drop_last()), imports.last());
    }
}

/// `order` with `index` put in behind every index whose import the import
/// at `index` does not stand before.
pub open spec fn insert_order(order: Seq<int>, imports: Seq<ImportView>, index: int) -> Seq<int>
    decreases order.len(),
{
    if order.len() > 0 && key_lt(imports[index], imports[order.last()]) {
        insert_order(order.drop_last(), imports, index).push(order.last())
    } else {
        order.push(index)
    }
}

/// The indices of the first `count` imports, in the order in which those
/// imports are written out.
pub open spec fn sorted_order_upto(imports: Seq<ImportView>, count: int) -> Seq<int>
    decreases count,
{
    if count <= 0 {
        Seq::empty()
    } else {
        insert_order(sorted_order_upto(imports, count - 1), imports, count - 1)
    }
}

/// The order in which the imports are written out, as indices: at each
/// place stands the index that the import of that place had in the source.
pub open spec fn sorted_order(imports: Seq<ImportView>) -> Seq<int> {
    sorted_order_upto(imports, imports.len() as int)
}

/// The imports at the indices of `order`.
pub open spec fn picked(imports: Seq<ImportView>, order: Seq<int>) -> Seq<ImportView> {
    Seq::new(order.len(), |k: int| imports[order[k]])
}

/// The indices of a list, as mathematical integers.
pub open spec fn order_view(order: Seq<usize>) -> Seq<int> {
    Seq::new(order.len(), |k: int| order[k] as int)
}

/// Putting an index in adds that index, keeps the indices below `bound`,
/// and puts the import of the index in among the imports of the order.
pub proof fn lemma_insert_order(order: Seq<int>, imports: Seq<ImportView>, index: int, bound: int)
    requires
        forall|k: int| 0 <= k < order.len() ==> 0 <= #[trigger] order[k] < bound,
        0 <= index < bound,
    ensures
        insert_order(order, imports, index).len() == order.len() + 1,
        forall|k: int|
            0 <= k < order.len() + 1 ==> 0 <= #[trigger] insert_order(order, imports, index)[k]
                < bound,
        picked(imports, insert_order(order, imports, index)) == insert_sorted(
            picked(imports, order),
            imports[index],
        ),
    decreases order.len(),
{
    let chosen = picked(imports, order);
    if order.len() > 0 && key_lt(imports[index], imports[order.last()]) {
        let shorter = order.drop_last();
        assert forall|k: int| 0 <= k < shorter.len() implies 0 <= #[trigger] shorter[k] < bound by {
            assert(shorter[k] == order[k]);
        }
        lemma_insert_order(shorter, imports, index, bound);
        assert(chosen.last() == imports[order.last()]);
        assert(chosen.drop_last() =~= picked(imports, shorter));
        assert(picked(imports, insert_order(shorter, imports, index).push(order.last()))
            =~= picked(imports, insert_order(shorter, imports, index)).push(
            imports[order.last()],
        ));
    } else {
        if order.len() > 0 {
            assert(chosen.last() == imports[order.last()]);
        }
        assert(picked(imports, order.push(index)) =~= chosen.push(imports[index]));
    }
}

/// The order of the first `count` imports holds `count` indices below
/// `count`, and the imports at those indices are the sorted imports.
pub proof fn lemma_sorted_order_upto(imports: Seq<ImportView>, count: int)
    requires
        0 <= count <= imports.len(),
    ensures
        sorted_order_upto(imports, count).len() == count,
        forall|k: int| 0 <= k < count ==> 0 <= #[trigger] sorted_order_upto(imports, count)[k] < count,
        picked(imports, sorted_order_upto(imports, count)) == sorted_imports(imports.take(count)),
    decreases count,
{
    if count == 0 {
        assert(picked(imports, sorted_order_upto(imports, count)) =~= sorted_imports(
            imports.take(count),
        ));
    } else {
        let before = sorted_order_upto(imports, count - 1);
        lemma_sorted_order_upto(imports, count - 1);
        assert forall|k: int| 0 <= k < before.len() implies 0 <= #[trigger] before[k] < count by {}
        lemma_insert_order(before, imports, count - 1, count);
        assert(imports.take(count).drop_last() =~= imports.take(count - 1));
        assert(imports.take(count).last() == imports[count - 1]);
    }
}

/// The order holds as many indices as there are imports, each of them the
/// index of an import, and the imports at those indices are the sorted
/// imports.
pub proof fn lemma_sorted_order(imports: Seq<ImportView>)
    ensures
        sorted_order(imports).len() == imports.len(),
        sorted_imports(imports).len() == imports.len(),
        forall|k: int|
            0 <= k < imports.len() ==> 0 <= #[trigger] sorted_order(imports)[k] < imports.len(),
        forall|k: int|
            0 <= k < imports.len() ==> #[trigger] sorted_imports(imports)[k]
                == imports[sorted_order(imports)[k]],
{
    lemma_sorted_order_upto(imports, imports.len() as int);
    assert(imports.take(imports.len() as int) =~= imports);
    assert forall|k: int| 0 <= k < imports.len() implies #[trigger] sorted_imports(imports)[k]
        == imports[sorted_order(imports)[k]] by {
        assert(picked(imports, sorted_order(imports))[k] == imports[sorted_order(imports)[k]]);
    }
}

/// Ordered imports are written out in the order in which they stand.
pub proof fn lemma_sorted_order_of_ordered(imports: Seq<ImportView>, count: int)
    requires
        is_ordered(imports),
        0 <= count <= imports.len(),
    ensures
        sorted_order_upto(imports, count) == Seq::new(count as nat, |k: int| k),
    decreases count,
{
    if count == 0 {
        assert(sorted_order_upto(imports, count) =~= Seq::new(count as nat, |k: int| k));
    } else {
        let before = sorted_order_upto(imports, count - 1);
        lemma_sorted_order_of_ordered(imports, count - 1);
        if before.len() > 0 {
            assert(before.last() == count - 2);
            assert(!key_lt(imports[count - 1], imports[count - 2]));
        }
        assert(before.push(count - 1) =~= Seq::new(count as nat, |k: int| k));
    }
}

/// The place of an index in the order is the one before which its import
/// stands behind nothing that it precedes, and behind which it precedes
/// everything.
pub proof fn lemma_insert_order_at(order: Seq<int>, imports: Seq<ImportView>, index: int, at: int)
    requires
        0 <= at <= order.len(),
        forall|k: int| at <= k < order.len() ==> key_lt(imports[index], imports[#[trigger] order[k]]),
        at == 0 || !key_lt(imports[index], imports[order[at - 1]]),
    ensures
        insert_order(order, imports, index) == order.insert(at, index),
    decreases order.len() - at,
{
    if at == order.len() {
        assert(order.insert(at, index) =~= order.push(index));
    } else {
        let shorter = order.drop_last();
        assert(key_lt(imports[index], imports[order[order.len() - 1]]));
        assert forall|k: int| at <= k < shorter.len() implies key_lt(
            imports[index],
            imports[#[trigger] shorter[k]],
        ) by {
            assert(shorter[k] == order[k]);
        }
        if at > 0 {
            assert(shorter[at - 1] == order[at - 1]);
        }
        lemma_insert_order_at(shorter, imports, index, at);
        assert(shorter.insert(at, index).push(order.last()) =~= order.insert(at, index));
    }
}

/// What holds of the sorted imports and of one more holds of the sorted
/// imports with that one put in.
pub proof fn lemma_insert_sorted_keeps(
    sorted: Seq<ImportView>,
    import: ImportView,
    holds: spec_fn(ImportView) -> bool,
)
    requires
        forall|k: int| 0 <= k < sorted.len() ==> holds(#[trigger] sorted[k]),
        holds(import),
    ensures
        forall|k: int|
            0 <= k < insert_sorted(sorted, import).len() ==> holds(
                #[trigger] insert_sorted(sorted, import)[k],
            ),
    decreases sorted.len(),
{
    if sorted.len() > 0 && key_lt(import, sorted.last()) {
        let shorter = sorted.drop_last();
        assert forall|k: int| 0 <= k < shorter.len() implies holds(#[trigger] shorter[k]) by {
            assert(shorter[k] == sorted[k]);
        }
        lemma_insert_sorted_keeps(shorter, import, holds);
        lemma_insert_sorted_len(shorter, import);
    }
}

/// What holds of every import holds of every sorted import.
pub proof fn lemma_sorted_imports_keeps(imports: Seq<ImportView>, holds: spec_fn(ImportView) -> bool)
    requires
        forall|k: int| 0 <= k < imports.len() ==> holds(#[trigger] imports[k]),
    ensures
        forall|k: int|
            0 <= k < sorted_imports(imports).len() ==> holds(#[trigger] sorted_imports(imports)[k]),
    decreases imports.len(),
{
    if imports.len() > 0 {
        let shorter = imports.drop_last();
        assert forall|k: int| 0 <= k < shorter.len() implies holds(#[trigger] shorter[k]) by {
            assert(shorter[k] == imports[k]);
        }
        lemma_sorted_imports_keeps(shorter, holds);
        lemma_insert_sorted_keeps(sorted_imports(shorter), imports.last(), holds);
    }
}

/// Ordered imports with one more put in are ordered.
pub proof fn lemma_insert_sorted_ordered(sorted: Seq<ImportView>, import: ImportView)
    requires
        is_ordered(sorted),
    ensures
        is_ordered(insert_sorted(sorted, import)),
        forall|k: int|
            0 <= k < insert_sorted(sorted, import).len() ==> #[trigger] insert_sorted(
                sorted,
                import,
            )[k] == import || exists|j: int|
                0 <= j < sorted.len() && sorted[j] == insert_sorted(sorted, import)[k],
    decreases sorted.len(),
{
    let result = insert_sorted(sorted, import);
    lemma_insert_sorted_len(sorted, import);
    if sorted.len() > 0 && key_lt(import, sorted.last()) {
        let shorter = sorted.drop_last();
        let last = sorted.last();
        let inner = insert_sorted(shorter, import);
        assert(is_ordered(shorter)) by {
            assert forall|i: int, j: int| 0 <= i < j < shorter.len() implies !key_lt(
                shorter[j],
                shorter[i],
            ) by {
                assert(shorter[i] == sorted[i] && shorter[j] == sorted[j]);
            }
        }
        lemma_insert_sorted_ordered(shorter, import);
        lemma_insert_sorted_len(shorter, import);
        assert forall|i: int, j: int| 0 <= i < j < result.len() implies !key_lt(
            result[j],
            result[i],
        ) by {
            if j < inner.len() {
                assert(result[i] == inner[i] && result[j] == inner[j]);
            } else {
                assert(result[j] == last);
                assert(result[i] == inner[i]);
                if inner[i] == import {
                    lemma_key_lt_order(import, last, import);
                } else {
                    let k = choose|k: int| 0 <= k < shorter.len() && shorter[k] == inner[i];
                    assert(shorter[k] == sorted[k]);
                    assert(!key_lt(sorted[sorted.len() - 1], sorted[k]));
                }
            }
        }
        assert forall|k: int| 0 <= k < result.len() implies #[trigger] result[k] == import
            || exists|j: int| 0 <= j < sorted.len() && sorted[j] == result[k] by {
            if k < inner.len() {
                assert(result[k] == inner[k]);
                if inner[k] != import {
                    let j = choose|j: int| 0 <= j < shorter.len() && shorter[j] == inner[k];
                    assert(sorted[j] == result[k]);
                }
            } else {
                assert(sorted[sorted.len() - 1] == result[k]);
            }
        }
    } else {
        assert forall|i: int, j: int| 0 <= i < j < result.len() implies !key_lt(
            result[j],
            result[i],
        ) by {
            if j == sorted.len() {
                assert(result[j] == import);
                assert(result[i] == sorted[i]);
                lemma_key_lt_order(import, sorted.last(), sorted[i]);
                if i < sorted.len() - 1 {
                    assert(!key_lt(sorted[sorted.len() - 1], sorted[i]));
                }
            } else {
                assert(result[i] == sorted[i] && result[j] == sorted[j]);
            }
        }
        assert forall|k: int| 0 <= k < result.len() implies #[trigger] result[k] == import
            || exists|j: int| 0 <= j < sorted.len() && sorted[j] == result[k] by {
            if k < sorted.len() {
                assert(sorted[k] == result[k]);
            }
        }
    }
}

/// The sorted imports are ordered.
pub proof fn lemma_sorted_imports_ordered(imports: Seq<ImportView>)
    ensures
        is_ordered(sorted_imports(imports)),
    decreases imports.len(),
{
    if imports.len() > 0 {
        lemma_sorted_imports_ordered(imports.drop_last());
        lemma_insert_sorted_ordered(sorted_imports(imports.drop_last()), imports.last());
    }
}

/// Sorting leaves ordered imports as they are.
pub proof fn lemma_sorted_imports_of_ordered(imports: Seq<ImportView>)
    requires
        is_ordered(imports),
    ensures
        sorted_imports(imports) == imports,
    decreases imports.len(),
{
    if imports.len() > 0 {
        let shorter = imports.drop_last();
        assert(is_ordered(shorter)) by {
            assert forall|i: int, j: int| 0 <= i < j < shorter.len() implies !key_lt(
                shorter[j],
                shorter[i],
            ) by {
                assert(shorter[i] == imports[i] && shorter[j] == imports[j]);
            }
        }
        lemma_sorted_imports_of_ordered(shorter);
        if shorter.len() > 0 {
            assert(shorter.last() == imports[imports.len() - 2]);
            assert(!key_lt(imports[imports.len() - 1], imports[imports.len() - 2]));
        }
        assert(shorter.push(imports.last()) =~= imports);
    }
}

/// Putting an import in adds that import, and takes none away.
pub proof fn lemma_insert_sorted_multiset(sorted: Seq<ImportView>, import: ImportView)
    ensures
        insert_sorted(sorted, import).to_multiset() == sorted.to_multiset().insert(import),
    decreases sorted.len(),
{
    if sorted.len() > 0 && key_lt(import, sorted.last()) {
        let shorter = sorted.drop_last();
        let last = sorted.last();
        lemma_insert_sorted_multiset(shorter, import);
        to_multiset_build(insert_sorted(shorter, import), last);
        to_multiset_build(shorter, last);
        assert(shorter.push(last) =~= sorted);
        assert(shorter.to_multiset().insert(import).insert(last) =~= shorter.to_multiset().insert(
            last,
        ).insert(import));
    } else {
        to_multiset_build(sorted, import);
    }
}

/// The sorted imports are the imports, each as often as it was there, in
/// another order.
pub proof fn lemma_sorted_imports_multiset(imports: Seq<ImportView>)
    ensures
        sorted_imports(imports).to_multiset() == imports.to_multiset(),
    decreases imports.len(),
{
    if imports.len() > 0 {
        let shorter = imports.drop_last();
        lemma_sorted_imports_multiset(shorter);
        lemma_insert_sorted_multiset(sorted_imports(shorter), imports.last());
        to_multiset_build(shorter, imports.last());
        assert(shorter.push(imports.last()) =~= imports);
    }
}

/// Sorting twice is sorting once.
pub proof fn lemma_sorted_imports_twice(imports: Seq<ImportView>)
    ensures
        sorted_imports(sorted_imports(imports)) == sorted_imports(imports),
{
    lemma_sorted_imports_ordered(imports);
    lemma_sorted_imports_of_ordered(sorted_imports(imports));
}

/// The order does not look at the comments: putting in a statement as its
/// source text shows it gives the statements as their source texts show
/// them.
pub proof fn lemma_insert_sorted_written(sorted: Seq<ImportView>, import: ImportView)
    ensures
        insert_sorted(written_imports(sorted), import.written()) == written_imports(
            insert_sorted(sorted, import),
        ),
    decreases sorted.len(),
{
    let shown = written_imports(sorted);
    if sorted.len() > 0 && key_lt(import, sorted.last()) {
        let shorter = sorted.drop_last();
        lemma_insert_sorted_written(shorter, import);
        lemma_insert_sorted_len(shorter, import);
        assert(shown.drop_last() =~= written_imports(shorter));
        assert(shown.last() == sorted.last().written());
        assert(written_imports(insert_sorted(shorter, import)).push(sorted.last().written())
            =~= written_imports(insert_sorted(shorter, import).push(sorted.last())));
    } else {
        if sorted.len() > 0 {
            assert(shown.last() == sorted.last().written());
        }
        assert(shown.push(import.written()) =~= written_imports(sorted.push(import)));
    }
}

/// Sorting the statements as their source texts show them gives the sorted
/// statements as their source texts show them.
pub proof fn lemma_sorted_imports_written(imports: Seq<ImportView>)
    ensures
        sorted_imports(written_imports(imports)) == written_imports(sorted_imports(imports)),
    decreases imports.len(),
{
    let shown = written_imports(imports);
    if imports.len() == 0 {
        assert(shown =~= written_imports(sorted_imports(imports)));
    } else {
        let shorter = imports.drop_last();
        lemma_sorted_imports_written(shorter);
        assert(shown.drop_last() =~= written_imports(shorter));
        assert(shown.last() == imports.last().written());
        lemma_insert_sorted_written(sorted_imports(shorter), imports.last());
    }
}

/// Sorts the imports: gives the indices of the imports in the order in
/// which the imports are written out.
pub fn sort_imports(imports: &Vec<ImportStatement>) -> (order: Vec<usize>)
    ensures
        order_view(order@) == sorted_order(import_views(imports@)),
        order.len() == imports.len(),
        forall|k: int| 0 <= k < order.len() ==> (#[trigger] order@[k]) < imports.len(),
{
    let mut out: Vec<usize> = Vec::new();
    let mut i: usize = 0;
    let ghost all = import_views(imports@);
    proof {
        assert(order_view(out@) =~= sorted_order_upto(all, 0));
    }
    while i < imports.len()
        invariant
            i <= imports.len(),
            all == import_views(imports@),
            out.len() == i,
            order_view(out@) == sorted_order_upto(all, i as int),
            forall|k: int| 0 <= k < out.len() ==> (#[trigger] out@[k]) < i,
        decreases imports.len() - i,
    {
        let mut at: usize = out.len();
        while at > 0 && imports[i].precedes(&imports[out[at - 1]])
            invariant
                at <= out.len(),
                i < imports.len(),
                all == import_views(imports@),
                forall|k: int| 0 <= k < out.len() ==> (#[trigger] out@[k]) < i,
                forall|k: int|
                    at <= k < out.len() ==> key_lt(all[i as int], all[(#[trigger] out@[k]) as int]),
            decreases at,
        {
            at -= 1;
        }
        let ghost before = order_view(out@);
        proof {
            assert forall|k: int| at <= k < before.len() implies key_lt(
                all[i as int],
                all[#[trigger] before[k]],
            ) by {
                assert(before[k] == out@[k]);
            }
            if at > 0 {
                assert(before[at - 1] == out@[at - 1]);
            }
            lemma_insert_order_at(before, all, i as int, at as int);
        }
        out.insert(at, i);
        proof {
            assert(order_view(out@) =~= before.insert(at as int, i as int));
        }
        i += 1;
    }
    out
}

} // verus!
